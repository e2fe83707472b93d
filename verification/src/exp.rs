//! Expressions: the values that the parser builds and the evaluator returns.

use vstd::prelude::*;
use vstd::string::StringExecFns;
use crate::numbers::{ArithOp, Host, Numerics, Relation, TrigOp};

verus! {

/// A built-in operation, as the key under which the evaluator finds it.
#[derive(Clone, Copy, PartialEq, Eq, Structural, Debug)]
pub enum NativeOp {
    /// Folds its numeric arguments with a binary operation.
    Arith(ArithOp),
    /// Compares its numeric arguments pairwise.
    Order(Relation),
    /// Applies a unary operation to its first argument.
    Trig(TrigOp),
}

/// An expression of the language.
#[derive(Debug, PartialEq)]
pub enum LisperExp {
    Bool(bool),
    /// A name to look up.
    Symbol(String),
    /// A double, as its IEEE-754 bit pattern.
    Number(u64),
    /// An ordered list; evaluated, its first item selects the operation.
    List(Vec<LisperExp>),
    /// A built-in operation. No source text denotes one.
    Func(NativeOp),
    /// A user-defined function of one parameter: its name and the body.
    Lambda(String, Box<LisperExp>),
}

/// An expression as a mathematical value.
pub enum Term {
    Bool(bool),
    Symbol(Seq<char>),
    Number(u64),
    List(Seq<Term>),
    Func(NativeOp),
    Lambda(Seq<char>, Box<Term>),
}

/// The mathematical values of a sequence of expressions.
pub open spec fn terms(items: Seq<LisperExp>) -> Seq<Term> {
    Seq::new(items.len(), |i: int| items[i]@)
}

/// The text of an expression: a symbol, a number and a boolean are written
/// as they are read, a list and a user-defined function as their items
/// between parentheses and separated by commas.
pub open spec fn render(h: Numerics, t: Term) -> Seq<char>
    decreases t, 0nat,
{
    match t {
        Term::Symbol(s) => s,
        Term::Number(n) => (h.render)(n),
        Term::Bool(b) => if b {
            "true"@
        } else {
            "false"@
        },
        Term::List(items) => "("@ + render_joined(h, items, items.len()) + ")"@,
        Term::Lambda(param, body) => "("@ + param + ","@ + render(h, *body) + ")"@,
        Term::Func(_) => "Function"@,
    }
}

/// The texts of the first `n` items, separated by commas.
pub open spec fn render_joined(h: Numerics, items: Seq<Term>, n: nat) -> Seq<char>
    decreases items, n,
{
    if n == 0 || n > items.len() {
        Seq::empty()
    } else if n == 1 {
        render(h, items[0])
    } else {
        render_joined(h, items, (n - 1) as nat) + ","@ + render(h, items[n - 1])
    }
}

impl LisperExp {
    /// The mathematical value of the expression.
    pub open spec fn term(&self) -> Term
        decreases self,
    {
        match self {
            LisperExp::Bool(b) => Term::Bool(*b),
            LisperExp::Symbol(s) => Term::Symbol(s@),
            LisperExp::Number(n) => Term::Number(*n),
            LisperExp::List(items) => Term::List(
                Seq::new(
                    items@.len(),
                    |i: int|
                        if 0 <= i < items@.len() {
                            items@[i].term()
                        } else {
                            Term::Bool(false)
                        },
                ),
            ),
            LisperExp::Func(op) => Term::Func(*op),
            LisperExp::Lambda(param, body) => Term::Lambda(param@, Box::new(body.term())),
        }
    }

    /// A list has the values of its items, in their order.
    pub proof fn lemma_list_term(items: Vec<LisperExp>)
        ensures
            LisperExp::List(items)@ == Term::List(terms(items@)),
    {
        assert(LisperExp::List(items)@->List_0 =~= terms(items@));
    }

    /// An independent copy of the expression.
    pub fn duplicate(&self) -> (copy: LisperExp)
        ensures
            copy@ == self@,
        decreases self,
    {
        match self {
            LisperExp::Bool(b) => LisperExp::Bool(*b),
            LisperExp::Symbol(s) => LisperExp::Symbol(s.clone()),
            LisperExp::Number(n) => LisperExp::Number(*n),
            LisperExp::List(items) => {
                let mut copies: Vec<LisperExp> = Vec::new();
                let mut i: usize = 0;
                while i < items.len()
                    invariant
                        self matches LisperExp::List(v) && v == items,
                        i <= items.len(),
                        copies.len() == i,
                        forall|j: int| 0 <= j < i ==> copies@[j]@ == items@[j]@,
                    decreases items.len() - i,
                {
                    copies.push(items[i].duplicate());
                    i += 1;
                }
                proof {
                    assert(terms(copies@) =~= terms(items@));
                    Self::lemma_list_term(copies);
                    Self::lemma_list_term(*items);
                }
                LisperExp::List(copies)
            },
            LisperExp::Func(op) => LisperExp::Func(*op),
            LisperExp::Lambda(param, body) => LisperExp::Lambda(
                param.clone(),
                Box::new(body.duplicate()),
            ),
        }
    }

    /// The text of the expression, with the host's text for each number.
    pub fn to_string<A, T, R, P>(&self, host: &Host<A, T, R, P>) -> (text: String) where
        A: Fn(ArithOp, u64, u64) -> u64,
        T: Fn(TrigOp, u64) -> u64,
        R: Fn(u64) -> String,
        P: Fn(&str) -> Option<u64>,

        requires
            host.wf(),
        ensures
            text@ == render(host.model(), self@),
        decreases self,
    {
        match self {
            LisperExp::Symbol(s) => s.clone(),
            LisperExp::Number(n) => host.text_of(*n),
            LisperExp::Bool(b) => if *b {
                String::from_str("true")
            } else {
                String::from_str("false")
            },
            LisperExp::List(items) => {
                let mut text = String::from_str("(");
                let mut i: usize = 0;
                proof {
                    Self::lemma_list_term(*items);
                }
                while i < items.len()
                    invariant
                        self matches LisperExp::List(v) && v == items,
                        host.wf(),
                        i <= items.len(),
                        text@ == "("@ + render_joined(host.model(), terms(items@), i as nat),
                    decreases items.len() - i,
                {
                    if i > 0 {
                        text.append(",");
                    }
                    let item = items[i].to_string(host);
                    text.append(item.as_str());
                    proof {
                        let h = host.model();
                        let ts = terms(items@);
                        assert(ts[i as int] == items@[i as int]@);
                        if i == 0 {
                            assert(render_joined(h, ts, 0) =~= Seq::<char>::empty());
                            assert(text@ =~= "("@ + render_joined(h, ts, 1));
                        } else {
                            assert(text@ =~= "("@ + render_joined(h, ts, (i + 1) as nat));
                        }
                    }
                    i += 1;
                }
                text.append(")");
                text
            },
            LisperExp::Lambda(param, body) => {
                let mut text = String::from_str("(");
                text.append(param.as_str());
                text.append(",");
                let inner = body.to_string(host);
                text.append(inner.as_str());
                text.append(")");
                text
            },
            LisperExp::Func(_) => String::from_str("Function"),
        }
    }
}

impl Clone for LisperExp {
    fn clone(&self) -> (copy: LisperExp)
        ensures
            copy@ == self@,
    {
        self.duplicate()
    }
}

impl View for LisperExp {
    type V = Term;

    open spec fn view(&self) -> Term {
        self.term()
    }
}

} // verus!
