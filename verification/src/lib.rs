//! An embeddable interpreter for a small Lisp.
//!
//! Source text is broken into tokens ([`tokenize`]), tokens are read as an
//! expression ([`parse`]), and the expression is evaluated under an
//! environment of bindings ([`eval`]). [`evaluate`] does the three for one
//! line of text, [`run`] for a text of several lines.
//!
//! A number is a double, held as its bit pattern. The interpreter orders and
//! tests numbers itself; for arithmetic, trigonometry, and the text of a
//! number it asks the [`Host`] that the embedding program hands to it.
//!
//! The module `semantics` says what evaluation means, as mathematical
//! functions; every function of the evaluator is proved to compute them. The
//! modules `laws`, `token_laws` and `parse_laws` hold what follows for all
//! expressions, texts and tokens.

pub mod driver;
pub mod env;
pub mod errors;
pub mod eval;
pub mod exp;
pub mod laws;
pub mod numbers;
pub mod parse_laws;
pub mod reader;
pub mod semantics;
pub mod text;
pub mod token_laws;

pub use crate::driver::{evaluate, evaluate_lines, run};
pub use crate::env::{create_default_env, LisperEnv};
pub use crate::errors::{Fault, LisperErr};
pub use crate::eval::eval;
pub use crate::exp::{LisperExp, NativeOp};
pub use crate::numbers::{ArithOp, Host, Relation, TrigOp};
pub use crate::reader::{parse, parse_token, tokenize};
