//! What evaluation means: the result and the bindings that evaluating an
//! expression leaves, as mathematical functions of the expression, the
//! bindings before, the host's operations and the allowed call depth.

use vstd::prelude::*;
use crate::env::{native_result, Bindings};
use crate::errors::Fault;
use crate::exp::{render, Term};
use crate::numbers::{positive, Numerics};

verus! {

/// How an evaluation ends: with a value or a failure, and with the bindings
/// it leaves. A failure keeps the bindings made before it.
pub struct Outcome {
    pub result: Result<Term, Fault>,
    pub env: Bindings,
}

/// The evaluated arguments of a call, or the failure of the first argument
/// that fails, and the bindings left.
pub struct Arguments {
    pub values: Result<Seq<Term>, Fault>,
    pub env: Bindings,
}

/// An evaluation that ends with `value`.
pub open spec fn done(value: Term, env: Bindings) -> Outcome {
    Outcome { result: Ok(value), env }
}

/// An evaluation that fails.
pub open spec fn failed(fault: Fault, env: Bindings) -> Outcome {
    Outcome { result: Err(fault), env }
}

/// Evaluates `t` under `env`, with at most `depth` calls of user-defined
/// functions nested in each other.
///
/// A number and a boolean are their own value. A symbol has the value bound
/// to it. A list is evaluated by its first item. A function, built in or
/// user-defined, has no value of its own.
pub open spec fn eval_spec(h: Numerics, t: Term, env: Bindings, depth: nat) -> Outcome
    decreases depth, t, 0nat,
{
    match t {
        Term::Number(_) => done(t, env),
        Term::Bool(_) => done(t, env),
        Term::Symbol(name) => if env.contains_key(name) {
            done(env[name], env)
        } else {
            failed(Fault::UnboundSymbol, env)
        },
        Term::Func(_) => failed(Fault::UnexpectedFunction, env),
        Term::Lambda(_, _) => failed(Fault::UnexpectedLambda, env),
        Term::List(items) => eval_from(h, items, 0, env, depth),
    }
}

/// Evaluates the list made of the items from index `from` on.
///
/// Without items it fails. Where the first item is a list, that list is
/// evaluated for what it binds, and the items after it are evaluated as a
/// list of their own. Where it is a symbol, `if`, `def` and `fn` are special
/// forms and every other symbol names the function to call.
pub open spec fn eval_from(h: Numerics, items: Seq<Term>, from: int, env: Bindings, depth: nat)
    -> Outcome
    decreases depth, items, 2 * items.len() + 2 - from,
{
    if from < 0 || from >= items.len() {
        failed(Fault::EmptyExpression, env)
    } else {
        match items[from] {
            Term::List(_) => {
                let head = eval_spec(h, items[from], env, depth);
                if head.result is Err {
                    head
                } else {
                    eval_from(h, items, from + 1, head.env, depth)
                }
            },
            Term::Symbol(word) => if word == "if"@ {
                eval_if(h, items, from + 1, env, depth)
            } else if word == "def"@ {
                eval_def(h, items, from + 1, env, depth)
            } else if word == "fn"@ {
                define_fn(h, items, from + 1, env)
            } else {
                eval_call(h, word, items, from + 1, env, depth)
            },
            _ => failed(Fault::InvalidCallHead, env),
        }
    }
}

/// `if` with the arguments from index `first` on: the condition, then the
/// expression for a true condition and the one for a false condition. A
/// number is a true condition where it is above zero. Only the chosen
/// expression is evaluated.
pub open spec fn eval_if(h: Numerics, items: Seq<Term>, first: int, env: Bindings, depth: nat)
    -> Outcome
    decreases depth, items, items.len() + 1,
{
    if first < 0 || items.len() != first + 3 {
        failed(Fault::IfArity, env)
    } else {
        let condition = eval_spec(h, items[first], env, depth);
        match condition.result {
            Err(_) => condition,
            Ok(Term::Bool(b)) => eval_spec(
                h,
                items[if b {
                    first + 1
                } else {
                    first + 2
                }],
                condition.env,
                depth,
            ),
            Ok(Term::Number(n)) => eval_spec(
                h,
                items[if positive(n) {
                    first + 1
                } else {
                    first + 2
                }],
                condition.env,
                depth,
            ),
            Ok(_) => failed(Fault::InvalidCondition, condition.env),
        }
    }
}

/// `def` with the arguments from index `first` on: a name, taken as the
/// text of the first argument, and the expression whose value is bound to
/// it and returned.
pub open spec fn eval_def(h: Numerics, items: Seq<Term>, first: int, env: Bindings, depth: nat)
    -> Outcome
    decreases depth, items, items.len() + 1,
{
    if first < 0 || items.len() != first + 2 {
        failed(Fault::DefArity, env)
    } else {
        let bound = eval_spec(h, items[first + 1], env, depth);
        match bound.result {
            Err(_) => bound,
            Ok(value) => done(value, bound.env.insert(render(h, items[first]), value)),
        }
    }
}

/// `fn` with the arguments from index `first` on: the name of the function,
/// the name of its parameter, both taken as the texts of the arguments, and
/// the body, which is not evaluated.
pub open spec fn define_fn(h: Numerics, items: Seq<Term>, first: int, env: Bindings) -> Outcome {
    if first < 0 || items.len() != first + 3 {
        failed(Fault::FnArity, env)
    } else {
        done(
            Term::Bool(true),
            env.insert(
                render(h, items[first]),
                Term::Lambda(render(h, items[first + 1]), Box::new(items[first + 2])),
            ),
        )
    }
}

/// A call of what `name` is bound to, with the arguments from index `first`
/// on.
///
/// A built-in operation gets all arguments, evaluated from left to right.
/// A user-defined function takes one argument; its body is evaluated under
/// the bindings that the argument left, with the parameter bound to the
/// argument's value, and what the body binds is dropped when it returns.
pub open spec fn eval_call(
    h: Numerics,
    name: Seq<char>,
    items: Seq<Term>,
    first: int,
    env: Bindings,
    depth: nat,
) -> Outcome
    decreases depth, items, items.len() + 1,
{
    if !env.contains_key(name) {
        failed(Fault::UnknownOperator, env)
    } else {
        match env[name] {
            Term::Func(op) => {
                let arguments = eval_args(h, items, first, items.len() as int, env, depth);
                match arguments.values {
                    Err(fault) => failed(fault, arguments.env),
                    Ok(values) => done(native_result(h, op, values), arguments.env),
                }
            },
            Term::Lambda(param, body) => if first < 0 || items.len() != first + 1 {
                failed(Fault::CallArity, env)
            } else {
                let argument = eval_spec(h, items[first], env, depth);
                match argument.result {
                    Err(_) => argument,
                    Ok(value) => if depth == 0 {
                        failed(Fault::DepthExceeded, argument.env)
                    } else {
                        Outcome {
                            result: eval_spec(
                                h,
                                *body,
                                argument.env.insert(param, value),
                                (depth - 1) as nat,
                            ).result,
                            env: argument.env,
                        }
                    },
                }
            },
            _ => failed(Fault::NotCallable, env),
        }
    }
}

/// Evaluates the items from index `first` up to index `upto`, from left to
/// right, each under the bindings that the one before left, up to the first
/// that fails.
pub open spec fn eval_args(
    h: Numerics,
    items: Seq<Term>,
    first: int,
    upto: int,
    env: Bindings,
    depth: nat,
) -> Arguments
    decreases depth, items, upto,
{
    if first < 0 || upto <= first || upto > items.len() {
        Arguments { values: Ok(Seq::empty()), env }
    } else {
        let before = eval_args(h, items, first, upto - 1, env, depth);
        match before.values {
            Err(_) => before,
            Ok(values) => {
                let next = eval_spec(h, items[upto - 1], before.env, depth);
                match next.result {
                    Err(fault) => Arguments { values: Err(fault), env: next.env },
                    Ok(value) => Arguments { values: Ok(values.push(value)), env: next.env },
                }
            },
        }
    }
}

} // verus!
