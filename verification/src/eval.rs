//! The evaluator.

use vstd::prelude::*;
use crate::env::{Bindings, LisperEnv};
use crate::errors::{Fault, LisperErr};
use crate::exp::{terms, LisperExp, NativeOp, Term};
use crate::numbers::{is_positive, ArithOp, Host, Numerics, TrigOp};
use crate::semantics::{eval_args, eval_call, eval_def, eval_from, eval_if, eval_spec, define_fn,
    Arguments};
use crate::text::same_text;

verus! {

/// Whether a result of the evaluator is the one that the semantics give: the
/// same value, or the words of the same failure.
pub open spec fn agrees(r: Result<LisperExp, LisperErr>, expected: Result<Term, Fault>) -> bool {
    match (r, expected) {
        (Ok(value), Ok(t)) => value@ == t,
        (Err(e), Err(fault)) => e@ == fault.message(),
        _ => false,
    }
}

/// What a name at the head of a list is bound to, as far as a call needs it.
enum Callee {
    Missing,
    Native(NativeOp),
    User(String, LisperExp),
    Other,
}

/// Once an argument has failed, the arguments after it change nothing.
proof fn lemma_args_failure(
    h: Numerics,
    items: Seq<Term>,
    first: int,
    upto: int,
    last: int,
    env: Bindings,
    depth: nat,
)
    requires
        0 <= first <= upto <= last <= items.len(),
        eval_args(h, items, first, upto, env, depth).values is Err,
    ensures
        eval_args(h, items, first, last, env, depth) == eval_args(h, items, first, upto, env, depth),
    decreases last - upto,
{
    if upto < last {
        lemma_args_failure(h, items, first, upto, last - 1, env, depth);
    }
}

impl<A, T, R, P> Host<A, T, R, P> where
    A: Fn(ArithOp, u64, u64) -> u64,
    T: Fn(TrigOp, u64) -> u64,
    R: Fn(u64) -> String,
    P: Fn(&str) -> Option<u64>,
 {
    /// Evaluates an expression and leaves it as it is.
    pub fn eval_ref(&self, exp: &LisperExp, env: &mut LisperEnv, depth: usize) -> (r: Result<
        LisperExp,
        LisperErr,
    >)
        requires
            self.wf(),
        ensures
            agrees(r, eval_spec(self.model(), exp@, old(env)@, depth as nat).result),
            final(env)@ == eval_spec(self.model(), exp@, old(env)@, depth as nat).env,
        decreases depth, exp, 0nat,
    {
        match exp {
            LisperExp::List(list) => {
                proof {
                    LisperExp::lemma_list_term(*list);
                }
                self.eval_list(list, 0, env, depth)
            },
            LisperExp::Number(n) => Ok(LisperExp::Number(*n)),
            LisperExp::Symbol(name) => match env.get(name.as_str()) {
                Some(value) => Ok(value.duplicate()),
                None => Err(Fault::UnboundSymbol.reason()),
            },
            LisperExp::Bool(b) => Ok(LisperExp::Bool(*b)),
            LisperExp::Func(_) => Err(Fault::UnexpectedFunction.reason()),
            LisperExp::Lambda(_, _) => Err(Fault::UnexpectedLambda.reason()),
        }
    }

    /// Evaluates the list made of the items from index `from` on.
    fn eval_list(&self, list: &Vec<LisperExp>, from: usize, env: &mut LisperEnv, depth: usize) -> (r:
        Result<LisperExp, LisperErr>)
        requires
            self.wf(),
            from <= list.len(),
        ensures
            agrees(
                r,
                eval_from(self.model(), terms(list@), from as int, old(env)@, depth as nat).result,
            ),
            final(env)@ == eval_from(
                self.model(),
                terms(list@),
                from as int,
                old(env)@,
                depth as nat,
            ).env,
        decreases depth, list, 2 * list.len() + 2 - from,
    {
        if from >= list.len() {
            return Err(Fault::EmptyExpression.reason());
        }
        match &list[from] {
            LisperExp::List(_) => {
                match self.eval_ref(&list[from], env, depth) {
                    Ok(_) => self.eval_list(list, from + 1, env, depth),
                    Err(e) => Err(e),
                }
            },
            LisperExp::Symbol(word) => {
                if same_text(word.as_str(), "if") {
                    self.eval_if(list, from + 1, env, depth)
                } else if same_text(word.as_str(), "def") {
                    self.eval_def(list, from + 1, env, depth)
                } else if same_text(word.as_str(), "fn") {
                    self.define_fn(list, from + 1, env)
                } else {
                    self.eval_call(word, list, from + 1, env, depth)
                }
            },
            _ => Err(Fault::InvalidCallHead.reason()),
        }
    }

    /// Evaluates an `if` whose arguments start at index `first`.
    fn eval_if(&self, list: &Vec<LisperExp>, first: usize, env: &mut LisperEnv, depth: usize) -> (r:
        Result<LisperExp, LisperErr>)
        requires
            self.wf(),
            first <= list.len(),
        ensures
            agrees(
                r,
                eval_if(self.model(), terms(list@), first as int, old(env)@, depth as nat).result,
            ),
            final(env)@ == eval_if(
                self.model(),
                terms(list@),
                first as int,
                old(env)@,
                depth as nat,
            ).env,
        decreases depth, list, list.len() + 1,
    {
        if list.len() - first != 3 {
            return Err(Fault::IfArity.reason());
        }
        match self.eval_ref(&list[first], env, depth) {
            Err(e) => Err(e),
            Ok(LisperExp::Bool(b)) => {
                if b {
                    self.eval_ref(&list[first + 1], env, depth)
                } else {
                    self.eval_ref(&list[first + 2], env, depth)
                }
            },
            Ok(LisperExp::Number(n)) => {
                if is_positive(n) {
                    self.eval_ref(&list[first + 1], env, depth)
                } else {
                    self.eval_ref(&list[first + 2], env, depth)
                }
            },
            Ok(_) => Err(Fault::InvalidCondition.reason()),
        }
    }

    /// Evaluates a `def` whose arguments start at index `first`.
    fn eval_def(&self, list: &Vec<LisperExp>, first: usize, env: &mut LisperEnv, depth: usize) -> (r:
        Result<LisperExp, LisperErr>)
        requires
            self.wf(),
            first <= list.len(),
        ensures
            agrees(
                r,
                eval_def(self.model(), terms(list@), first as int, old(env)@, depth as nat).result,
            ),
            final(env)@ == eval_def(
                self.model(),
                terms(list@),
                first as int,
                old(env)@,
                depth as nat,
            ).env,
        decreases depth, list, list.len() + 1,
    {
        if list.len() - first != 2 {
            return Err(Fault::DefArity.reason());
        }
        let name = list[first].to_string(self);
        match self.eval_ref(&list[first + 1], env, depth) {
            Err(e) => Err(e),
            Ok(value) => {
                env.insert(name, value.duplicate());
                Ok(value)
            },
        }
    }

    /// Evaluates a `fn` whose arguments start at index `first`.
    fn define_fn(&self, list: &Vec<LisperExp>, first: usize, env: &mut LisperEnv) -> (r: Result<
        LisperExp,
        LisperErr,
    >)
        requires
            self.wf(),
            first <= list.len(),
        ensures
            agrees(r, define_fn(self.model(), terms(list@), first as int, old(env)@).result),
            final(env)@ == define_fn(self.model(), terms(list@), first as int, old(env)@).env,
    {
        if list.len() - first != 3 {
            return Err(Fault::FnArity.reason());
        }
        let name = list[first].to_string(self);
        let param = list[first + 1].to_string(self);
        let body = list[first + 2].duplicate();
        env.insert(name, LisperExp::Lambda(param, Box::new(body)));
        Ok(LisperExp::Bool(true))
    }

    /// Looks up what a call of `name` calls.
    fn callee(env: &LisperEnv, name: &str) -> (c: Callee)
        ensures
            match c {
                Callee::Missing => !env@.contains_key(name@),
                Callee::Native(op) => env@.contains_key(name@) && env@[name@] == Term::Func(op),
                Callee::User(param, body) => env@.contains_key(name@) && env@[name@]
                    == Term::Lambda(param@, Box::new(body@)),
                Callee::Other => env@.contains_key(name@) && !(env@[name@] is Func)
                    && !(env@[name@] is Lambda),
            },
    {
        match env.get(name) {
            None => Callee::Missing,
            Some(LisperExp::Func(op)) => Callee::Native(*op),
            Some(LisperExp::Lambda(param, body)) => Callee::User(param.clone(), body.duplicate()),
            Some(_) => Callee::Other,
        }
    }

    /// Evaluates a call of `name` whose arguments start at index `first`.
    fn eval_call(
        &self,
        name: &String,
        list: &Vec<LisperExp>,
        first: usize,
        env: &mut LisperEnv,
        depth: usize,
    ) -> (r: Result<LisperExp, LisperErr>)
        requires
            self.wf(),
            first <= list.len(),
        ensures
            agrees(
                r,
                eval_call(
                    self.model(),
                    name@,
                    terms(list@),
                    first as int,
                    old(env)@,
                    depth as nat,
                ).result,
            ),
            final(env)@ == eval_call(
                self.model(),
                name@,
                terms(list@),
                first as int,
                old(env)@,
                depth as nat,
            ).env,
        decreases depth, list, list.len() + 1,
    {
        match Self::callee(env, name.as_str()) {
            Callee::Missing => Err(Fault::UnknownOperator.reason()),
            Callee::Native(op) => {
                match self.eval_arguments(list, first, env, depth) {
                    Err(e) => Err(e),
                    Ok(values) => {
                        let arguments = LisperExp::List(values);
                        proof {
                            LisperExp::lemma_list_term(values);
                        }
                        Ok(op.apply(&arguments, self))
                    },
                }
            },
            Callee::User(param, body) => {
                if list.len() - first != 1 {
                    return Err(Fault::CallArity.reason());
                }
                match self.eval_ref(&list[first], env, depth) {
                    Err(e) => Err(e),
                    Ok(value) => {
                        if depth == 0 {
                            Err(Fault::DepthExceeded.reason())
                        } else {
                            let mut scope = env.duplicate();
                            scope.insert(param, value);
                            self.eval_ref(&body, &mut scope, depth - 1)
                        }
                    },
                }
            },
            Callee::Other => Err(Fault::NotCallable.reason()),
        }
    }

    /// Evaluates the arguments from index `first` on, from left to right.
    fn eval_arguments(
        &self,
        list: &Vec<LisperExp>,
        first: usize,
        env: &mut LisperEnv,
        depth: usize,
    ) -> (r: Result<Vec<LisperExp>, LisperErr>)
        requires
            self.wf(),
            first <= list.len(),
        ensures
            match (
                r,
                eval_args(
                    self.model(),
                    terms(list@),
                    first as int,
                    list.len() as int,
                    old(env)@,
                    depth as nat,
                ).values,
            ) {
                (Ok(values), Ok(expected)) => terms(values@) == expected,
                (Err(e), Err(fault)) => e@ == fault.message(),
                _ => false,
            },
            final(env)@ == eval_args(
                self.model(),
                terms(list@),
                first as int,
                list.len() as int,
                old(env)@,
                depth as nat,
            ).env,
        decreases depth, list, list.len(),
    {
        let ghost h = self.model();
        let ghost items = terms(list@);
        let ghost before = env@;
        let mut values: Vec<LisperExp> = Vec::new();
        let mut i: usize = first;
        proof {
            assert(terms(values@) =~= Seq::<Term>::empty());
        }
        while i < list.len()
            invariant
                self.wf(),
                first <= i <= list.len(),
                h == self.model(),
                items == terms(list@),
                before == old(env)@,
                eval_args(h, items, first as int, i as int, before, depth as nat) == (Arguments {
                    values: Ok(terms(values@)),
                    env: env@,
                }),
            decreases list.len() - i,
        {
            let ghost so_far = terms(values@);
            let ghost mid = env@;
            proof {
                assert(items[i as int] == list@[i as int]@);
                assert(eval_args(h, items, first as int, i + 1, before, depth as nat) == {
                    let next = eval_spec(h, items[i as int], mid, depth as nat);
                    match next.result {
                        Err(fault) => Arguments { values: Err(fault), env: next.env },
                        Ok(value) => Arguments { values: Ok(so_far.push(value)), env: next.env },
                    }
                });
            }
            match self.eval_ref(&list[i], env, depth) {
                Ok(value) => {
                    values.push(value);
                    proof {
                        assert(terms(values@) =~= so_far.push(value@));
                    }
                },
                Err(e) => {
                    proof {
                        lemma_args_failure(
                            h,
                            items,
                            first as int,
                            i + 1,
                            list.len() as int,
                            before,
                            depth as nat,
                        );
                    }
                    return Err(e);
                },
            }
            i += 1;
        }
        Ok(values)
    }
}

/// Evaluates an expression under an environment and returns its value.
///
/// `def` and `fn` bind names in `env`; what the body of a user-defined
/// function binds is gone when the function returns. `depth` is how many
/// calls of user-defined functions may be nested in each other: the call
/// that would go deeper fails.
pub fn eval<A, T, R, P>(
    exp: LisperExp,
    env: &mut LisperEnv,
    host: &Host<A, T, R, P>,
    depth: usize,
) -> (r: Result<LisperExp, LisperErr>) where
    A: Fn(ArithOp, u64, u64) -> u64,
    T: Fn(TrigOp, u64) -> u64,
    R: Fn(u64) -> String,
    P: Fn(&str) -> Option<u64>,

    requires
        host.wf(),
    ensures
        agrees(r, eval_spec(host.model(), exp@, old(env)@, depth as nat).result),
        final(env)@ == eval_spec(host.model(), exp@, old(env)@, depth as nat).env,
{
    host.eval_ref(&exp, env, depth)
}

} // verus!
