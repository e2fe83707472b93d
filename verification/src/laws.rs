//! Laws of the interpreter: what holds of every expression, every
//! environment and every host.

use vstd::prelude::*;
use crate::env::{count_numbers, fold_order, native_result, Bindings};
use crate::errors::Fault;
use crate::exp::{NativeOp, Term};
use crate::numbers::{holds, is_nan, less, same, Numerics, Relation};
use crate::reader::{padded, parse_items, parse_spec, tokens_of, words, words_after};
use crate::semantics::{
    define_fn, eval_args, eval_call, eval_def, eval_from, eval_if, eval_spec, failed,
};
use crate::text::is_space;

verus! {

/// The evaluation did not stop at the depth limit.
pub open spec fn within_depth(result: Result<Term, Fault>) -> bool {
    result != Err::<Term, Fault>(Fault::DepthExceeded)
}

/// What the body of a user-defined function binds does not outlast the
/// call. After the call the bindings are those that the argument left; an
/// argument that is a number or a boolean leaves the caller's bindings as
/// they were.
pub proof fn law_call_keeps_the_callers_bindings(
    h: Numerics,
    name: Seq<char>,
    argument: Term,
    env: Bindings,
    depth: nat,
)
    requires
        name != "if"@,
        name != "def"@,
        name != "fn"@,
        env.contains_key(name),
        env[name] is Lambda,
    ensures
        eval_spec(h, Term::List(seq![Term::Symbol(name), argument]), env, depth).env == eval_spec(
            h,
            argument,
            env,
            depth,
        ).env,
        argument is Number || argument is Bool ==> eval_spec(
            h,
            Term::List(seq![Term::Symbol(name), argument]),
            env,
            depth,
        ).env == env,
{
    let items = seq![Term::Symbol(name), argument];
    assert(eval_spec(h, Term::List(items), env, depth) == eval_from(h, items, 0, env, depth));
    assert(items[0] == Term::Symbol(name));
    assert(items[1] == argument);
    assert(eval_from(h, items, 0, env, depth) == eval_call(h, name, items, 1, env, depth));
}

/// A user-defined function takes one argument: a call with another number
/// of arguments fails before anything is evaluated or bound.
pub proof fn law_call_takes_one_argument(
    h: Numerics,
    name: Seq<char>,
    items: Seq<Term>,
    env: Bindings,
    depth: nat,
)
    requires
        name != "if"@,
        name != "def"@,
        name != "fn"@,
        env.contains_key(name),
        env[name] is Lambda,
        items.len() > 0,
        items[0] == Term::Symbol(name),
        items.len() != 2,
    ensures
        eval_spec(h, Term::List(items), env, depth) == failed(Fault::CallArity, env),
{
    assert(eval_from(h, items, 0, env, depth) == eval_call(h, name, items, 1, env, depth));
}

/// The depth limit only cuts evaluations short. An evaluation that does not
/// stop at the limit ends the same way under every greater limit.
pub proof fn law_depth_only_limits(h: Numerics, t: Term, env: Bindings, depth: nat, more: nat)
    requires
        depth <= more,
        within_depth(eval_spec(h, t, env, depth).result),
    ensures
        eval_spec(h, t, env, more) == eval_spec(h, t, env, depth),
    decreases depth, t, 0nat,
{
    match t {
        Term::List(items) => {
            lemma_depth_from(h, items, 0, env, depth, more);
        },
        _ => {},
    }
}

proof fn lemma_depth_from(
    h: Numerics,
    items: Seq<Term>,
    from: int,
    env: Bindings,
    depth: nat,
    more: nat,
)
    requires
        depth <= more,
        within_depth(eval_from(h, items, from, env, depth).result),
    ensures
        eval_from(h, items, from, env, more) == eval_from(h, items, from, env, depth),
    decreases depth, items, 2 * items.len() + 2 - from,
{
    if 0 <= from < items.len() {
        match items[from] {
            Term::List(_) => {
                let head = eval_spec(h, items[from], env, depth);
                law_depth_only_limits(h, items[from], env, depth, more);
                if head.result is Ok {
                    lemma_depth_from(h, items, from + 1, head.env, depth, more);
                }
            },
            Term::Symbol(word) => {
                if word == "if"@ {
                    lemma_depth_if(h, items, from + 1, env, depth, more);
                } else if word == "def"@ {
                    lemma_depth_def(h, items, from + 1, env, depth, more);
                } else if word == "fn"@ {
                } else {
                    lemma_depth_call(h, word, items, from + 1, env, depth, more);
                }
            },
            _ => {},
        }
    }
}

proof fn lemma_depth_if(
    h: Numerics,
    items: Seq<Term>,
    first: int,
    env: Bindings,
    depth: nat,
    more: nat,
)
    requires
        depth <= more,
        within_depth(eval_if(h, items, first, env, depth).result),
    ensures
        eval_if(h, items, first, env, more) == eval_if(h, items, first, env, depth),
    decreases depth, items, items.len() + 1,
{
    if 0 <= first && items.len() == first + 3 {
        let condition = eval_spec(h, items[first], env, depth);
        law_depth_only_limits(h, items[first], env, depth, more);
        match condition.result {
            Ok(Term::Bool(b)) => {
                let chosen = if b {
                    first + 1
                } else {
                    first + 2
                };
                law_depth_only_limits(h, items[chosen], condition.env, depth, more);
            },
            Ok(Term::Number(n)) => {
                let chosen = if crate::numbers::positive(n) {
                    first + 1
                } else {
                    first + 2
                };
                law_depth_only_limits(h, items[chosen], condition.env, depth, more);
            },
            _ => {},
        }
    }
}

proof fn lemma_depth_def(
    h: Numerics,
    items: Seq<Term>,
    first: int,
    env: Bindings,
    depth: nat,
    more: nat,
)
    requires
        depth <= more,
        within_depth(eval_def(h, items, first, env, depth).result),
    ensures
        eval_def(h, items, first, env, more) == eval_def(h, items, first, env, depth),
    decreases depth, items, items.len() + 1,
{
    if 0 <= first && items.len() == first + 2 {
        law_depth_only_limits(h, items[first + 1], env, depth, more);
    }
}

proof fn lemma_depth_call(
    h: Numerics,
    name: Seq<char>,
    items: Seq<Term>,
    first: int,
    env: Bindings,
    depth: nat,
    more: nat,
)
    requires
        depth <= more,
        within_depth(eval_call(h, name, items, first, env, depth).result),
    ensures
        eval_call(h, name, items, first, env, more) == eval_call(h, name, items, first, env, depth),
    decreases depth, items, items.len() + 1,
{
    if env.contains_key(name) {
        match env[name] {
            Term::Func(_) => {
                lemma_depth_args(h, items, first, items.len() as int, env, depth, more);
            },
            Term::Lambda(param, body) => {
                if 0 <= first && items.len() == first + 1 {
                    let argument = eval_spec(h, items[first], env, depth);
                    law_depth_only_limits(h, items[first], env, depth, more);
                    match argument.result {
                        Ok(value) => {
                            law_depth_only_limits(
                                h,
                                *body,
                                argument.env.insert(param, value),
                                (depth - 1) as nat,
                                (more - 1) as nat,
                            );
                        },
                        Err(_) => {},
                    }
                }
            },
            _ => {},
        }
    }
}

proof fn lemma_depth_args(
    h: Numerics,
    items: Seq<Term>,
    first: int,
    upto: int,
    env: Bindings,
    depth: nat,
    more: nat,
)
    requires
        depth <= more,
        eval_args(h, items, first, upto, env, depth).values != Err::<Seq<Term>, Fault>(
            Fault::DepthExceeded,
        ),
    ensures
        eval_args(h, items, first, upto, env, more) == eval_args(h, items, first, upto, env, depth),
    decreases depth, items, upto,
{
    if 0 <= first < upto <= items.len() {
        let before = eval_args(h, items, first, upto - 1, env, depth);
        lemma_depth_args(h, items, first, upto - 1, env, depth, more);
        if before.values is Ok {
            law_depth_only_limits(h, items[upto - 1], before.env, depth, more);
        }
    }
}

/// No symbol of the expression is `fn`, so that evaluating it defines no
/// function.
pub open spec fn defines_no_function(t: Term) -> bool
    decreases t,
{
    match t {
        Term::Symbol(name) => name != "fn"@,
        Term::List(items) => forall|i: int|
            0 <= i < items.len() ==> defines_no_function(#[trigger] items[i]),
        _ => true,
    }
}

/// No name is bound to a user-defined function.
pub open spec fn binds_no_function(env: Bindings) -> bool {
    forall|name: Seq<char>| env.contains_key(name) ==> !(#[trigger] env[name] is Lambda)
}

/// How an evaluation ends where no user-defined function is at hand: not at
/// the depth limit, with no user-defined function as its value, and with
/// none bound.
pub open spec fn ends_without_function(result: Result<Term, Fault>, env: Bindings) -> bool {
    &&& within_depth(result)
    &&& result matches Ok(value) ==> !(value is Lambda)
    &&& binds_no_function(env)
}

/// The depth limit matters to user-defined functions only. Where none is
/// bound and none is defined, the evaluation ends the same way under every
/// limit, and never at the limit.
pub proof fn law_depth_matters_to_functions_only(h: Numerics, t: Term, env: Bindings, depth: nat)
    requires
        defines_no_function(t),
        binds_no_function(env),
    ensures
        eval_spec(h, t, env, depth) == eval_spec(h, t, env, 0),
        ends_without_function(eval_spec(h, t, env, depth).result, eval_spec(h, t, env, depth).env),
{
    lemma_plain_spec(h, t, env, 0);
    lemma_plain_spec(h, t, env, depth);
    law_depth_only_limits(h, t, env, 0, depth);
}

proof fn lemma_plain_spec(h: Numerics, t: Term, env: Bindings, depth: nat)
    requires
        defines_no_function(t),
        binds_no_function(env),
    ensures
        ends_without_function(eval_spec(h, t, env, depth).result, eval_spec(h, t, env, depth).env),
    decreases t, 0nat,
{
    match t {
        Term::List(items) => {
            lemma_plain_from(h, items, 0, env, depth);
        },
        _ => {},
    }
}

proof fn lemma_plain_from(h: Numerics, items: Seq<Term>, from: int, env: Bindings, depth: nat)
    requires
        forall|i: int| 0 <= i < items.len() ==> defines_no_function(#[trigger] items[i]),
        binds_no_function(env),
    ensures
        ends_without_function(
            eval_from(h, items, from, env, depth).result,
            eval_from(h, items, from, env, depth).env,
        ),
    decreases items, 2 * items.len() + 2 - from,
{
    if 0 <= from < items.len() {
        assert(defines_no_function(items[from]));
        match items[from] {
            Term::List(_) => {
                let head = eval_spec(h, items[from], env, depth);
                lemma_plain_spec(h, items[from], env, depth);
                if head.result is Ok {
                    lemma_plain_from(h, items, from + 1, head.env, depth);
                }
            },
            Term::Symbol(word) => {
                if word == "if"@ {
                    lemma_plain_if(h, items, from + 1, env, depth);
                } else if word == "def"@ {
                    lemma_plain_def(h, items, from + 1, env, depth);
                } else {
                    lemma_plain_call(h, word, items, from + 1, env, depth);
                }
            },
            _ => {},
        }
    }
}

proof fn lemma_plain_if(h: Numerics, items: Seq<Term>, first: int, env: Bindings, depth: nat)
    requires
        forall|i: int| 0 <= i < items.len() ==> defines_no_function(#[trigger] items[i]),
        binds_no_function(env),
    ensures
        ends_without_function(
            eval_if(h, items, first, env, depth).result,
            eval_if(h, items, first, env, depth).env,
        ),
    decreases items, items.len() + 1,
{
    if 0 <= first && items.len() == first + 3 {
        let condition = eval_spec(h, items[first], env, depth);
        lemma_plain_spec(h, items[first], env, depth);
        if condition.result is Ok {
            lemma_plain_spec(h, items[first + 1], condition.env, depth);
            lemma_plain_spec(h, items[first + 2], condition.env, depth);
        }
    }
}

proof fn lemma_plain_def(h: Numerics, items: Seq<Term>, first: int, env: Bindings, depth: nat)
    requires
        forall|i: int| 0 <= i < items.len() ==> defines_no_function(#[trigger] items[i]),
        binds_no_function(env),
    ensures
        ends_without_function(
            eval_def(h, items, first, env, depth).result,
            eval_def(h, items, first, env, depth).env,
        ),
    decreases items, items.len() + 1,
{
    if 0 <= first && items.len() == first + 2 {
        let bound = eval_spec(h, items[first + 1], env, depth);
        lemma_plain_spec(h, items[first + 1], env, depth);
        match bound.result {
            Ok(value) => {
                let name = crate::exp::render(h, items[first]);
                let after = bound.env.insert(name, value);
                assert forall|key: Seq<char>| after.contains_key(key) implies !(
                #[trigger] after[key] is Lambda) by {
                    if key != name {
                        assert(bound.env.contains_key(key));
                    }
                }
            },
            Err(_) => {},
        }
    }
}

proof fn lemma_plain_call(
    h: Numerics,
    name: Seq<char>,
    items: Seq<Term>,
    first: int,
    env: Bindings,
    depth: nat,
)
    requires
        forall|i: int| 0 <= i < items.len() ==> defines_no_function(#[trigger] items[i]),
        binds_no_function(env),
    ensures
        ends_without_function(
            eval_call(h, name, items, first, env, depth).result,
            eval_call(h, name, items, first, env, depth).env,
        ),
    decreases items, items.len() + 1,
{
    if env.contains_key(name) {
        assert(!(env[name] is Lambda));
        lemma_plain_args(h, items, first, items.len() as int, env, depth);
    }
}

proof fn lemma_plain_args(
    h: Numerics,
    items: Seq<Term>,
    first: int,
    upto: int,
    env: Bindings,
    depth: nat,
)
    requires
        forall|i: int| 0 <= i < items.len() ==> defines_no_function(#[trigger] items[i]),
        binds_no_function(env),
    ensures
        eval_args(h, items, first, upto, env, depth).values != Err::<Seq<Term>, Fault>(
            Fault::DepthExceeded,
        ),
        binds_no_function(eval_args(h, items, first, upto, env, depth).env),
    decreases items, upto,
{
    if 0 <= first < upto <= items.len() {
        let before = eval_args(h, items, first, upto - 1, env, depth);
        lemma_plain_args(h, items, first, upto - 1, env, depth);
        if before.values is Ok {
            lemma_plain_spec(h, items[upto - 1], before.env, depth);
        }
    }
}

/// A list at the head of a list is evaluated for what it binds, and the
/// items after it are then evaluated as a list of their own.
pub proof fn law_list_head_sequences(h: Numerics, items: Seq<Term>, env: Bindings, depth: nat)
    requires
        items.len() > 0,
        items[0] is List,
    ensures
        eval_spec(h, Term::List(items), env, depth) == ({
            let head = eval_spec(h, items[0], env, depth);
            if head.result is Err {
                head
            } else {
                eval_spec(h, Term::List(items.drop_first()), head.env, depth)
            }
        }),
{
    let head = eval_spec(h, items[0], env, depth);
    lemma_shift_from(h, items, 1, 1, head.env, depth);
    assert(items.skip(1) =~= items.drop_first());
}

/// Evaluating the items from an index on is evaluating the list that they
/// make.
pub proof fn law_rest_is_a_list_of_its_own(
    h: Numerics,
    items: Seq<Term>,
    from: int,
    env: Bindings,
    depth: nat,
)
    requires
        0 <= from <= items.len(),
    ensures
        eval_from(h, items, from, env, depth) == eval_spec(
            h,
            Term::List(items.skip(from)),
            env,
            depth,
        ),
{
    lemma_shift_from(h, items, from, from, env, depth);
}

proof fn lemma_shift_from(
    h: Numerics,
    items: Seq<Term>,
    k: int,
    from: int,
    env: Bindings,
    depth: nat,
)
    requires
        0 <= k <= from <= items.len(),
    ensures
        eval_from(h, items, from, env, depth) == eval_from(h, items.skip(k), from - k, env, depth),
    decreases items.len() - from,
{
    let rest = items.skip(k);
    if from < items.len() {
        assert(rest[from - k] == items[from]);
        match items[from] {
            Term::List(_) => {
                let head = eval_spec(h, items[from], env, depth);
                lemma_shift_from(h, items, k, from + 1, head.env, depth);
            },
            Term::Symbol(word) => {
                let first = from + 1;
                if word == "if"@ {
                    if items.len() == first + 3 {
                        assert(rest[first - k] == items[first]);
                        assert(rest[first - k + 1] == items[first + 1]);
                        assert(rest[first - k + 2] == items[first + 2]);
                    }
                    assert(eval_if(h, items, first, env, depth) == eval_if(
                        h,
                        rest,
                        first - k,
                        env,
                        depth,
                    ));
                } else if word == "def"@ {
                    if items.len() == first + 2 {
                        assert(rest[first - k] == items[first]);
                        assert(rest[first - k + 1] == items[first + 1]);
                    }
                    assert(eval_def(h, items, first, env, depth) == eval_def(
                        h,
                        rest,
                        first - k,
                        env,
                        depth,
                    ));
                } else if word == "fn"@ {
                    if items.len() == first + 3 {
                        assert(rest[first - k] == items[first]);
                        assert(rest[first - k + 1] == items[first + 1]);
                        assert(rest[first - k + 2] == items[first + 2]);
                    }
                    assert(define_fn(h, items, first, env) == define_fn(h, rest, first - k, env));
                } else {
                    lemma_shift_args(h, items, k, first, items.len() as int, env, depth);
                    if items.len() == first + 1 {
                        assert(rest[first - k] == items[first]);
                    }
                    assert(eval_call(h, word, items, first, env, depth) == eval_call(
                        h,
                        word,
                        rest,
                        first - k,
                        env,
                        depth,
                    ));
                }
            },
            _ => {},
        }
    }
}

proof fn lemma_shift_args(
    h: Numerics,
    items: Seq<Term>,
    k: int,
    first: int,
    upto: int,
    env: Bindings,
    depth: nat,
)
    requires
        0 <= k <= first,
        upto <= items.len(),
    ensures
        eval_args(h, items, first, upto, env, depth) == eval_args(
            h,
            items.skip(k),
            first - k,
            upto - k,
            env,
            depth,
        ),
    decreases upto - first,
{
    if first < upto {
        lemma_shift_args(h, items, k, first, upto - 1, env, depth);
        assert(items.skip(k)[upto - 1 - k] == items[upto - 1]);
    }
}

/// An expression as source text can denote it: without functions, built in
/// or user-defined.
pub open spec fn is_source(t: Term) -> bool
    decreases t,
{
    match t {
        Term::Func(_) => false,
        Term::Lambda(_, _) => false,
        Term::List(items) => forall|i: int| 0 <= i < items.len() ==> is_source(#[trigger] items[i]),
        _ => true,
    }
}

/// The parser builds no function: what it reads is made of symbols,
/// numbers, booleans and lists.
pub proof fn law_parsed_is_source(h: Numerics, tokens: Seq<Seq<char>>, from: int)
    ensures
        parse_spec(h, tokens, from) matches Ok((t, _)) ==> is_source(t),
        parse_items(h, tokens, from) matches Ok((items, _)) ==> forall|i: int|
            0 <= i < items.len() ==> is_source(#[trigger] items[i]),
    decreases tokens.len() - from,
{
    if 0 <= from < tokens.len() {
        if tokens[from] == "("@ {
            law_parsed_is_source(h, tokens, from + 1);
        }
        if tokens[from] != ")"@ {
            match parse_spec(h, tokens, from) {
                Err(_) => {},
                Ok((first, next)) => {
                    if from < next <= tokens.len() {
                        law_parsed_is_source(h, tokens, next);
                        match parse_items(h, tokens, next) {
                            Err(_) => {},
                            Ok((others, _)) => {
                                let all = seq![first] + others;
                                assert forall|i: int| 0 <= i < all.len() implies is_source(
                                    #[trigger] all[i],
                                ) by {
                                    if i > 0 {
                                        assert(all[i] == others[i - 1]);
                                    }
                                }
                            },
                        }
                    }
                },
            }
        }
    }
}

/// A word: at least one character, and no whitespace.
pub open spec fn is_word(w: Seq<char>) -> bool {
    &&& w.len() > 0
    &&& forall|i: int| 0 <= i < w.len() ==> !is_space(#[trigger] w[i])
}

/// Every token holds a character and no whitespace.
pub proof fn law_tokens_are_words(text: Seq<char>)
    ensures
        forall|k: int| 0 <= k < tokens_of(text).len() ==> is_word(#[trigger] tokens_of(text)[k]),
{
    lemma_words_are_words(padded(text));
}

proof fn lemma_words_are_words(text: Seq<char>)
    ensures
        forall|k: int| 0 <= k < words(text).len() ==> is_word(#[trigger] words(text)[k]),
    decreases text.len(), 0nat,
{
    if text.len() > 0 {
        if is_space(text[0]) {
            lemma_words_are_words(text.drop_first());
            assert(words(text) == words(text.drop_first()));
        } else {
            assert(is_word(seq![text[0]]));
            lemma_words_after_are_words(seq![text[0]], text.drop_first());
            assert(words(text) == words_after(seq![text[0]], text.drop_first()));
        }
    } else {
        assert(words(text).len() == 0);
    }
}

proof fn lemma_words_after_are_words(begun: Seq<char>, text: Seq<char>)
    requires
        is_word(begun),
    ensures
        forall|k: int|
            0 <= k < words_after(begun, text).len() ==> is_word(
                #[trigger] words_after(begun, text)[k],
            ),
    decreases text.len(), 1nat,
{
    if text.len() > 0 {
        if is_space(text[0]) {
            let rest = words(text.drop_first());
            lemma_words_are_words(text.drop_first());
            assert forall|k: int| 0 <= k < words_after(begun, text).len() implies is_word(
                #[trigger] words_after(begun, text)[k],
            ) by {
                if k > 0 {
                    assert(words_after(begun, text)[k] == rest[k - 1]);
                }
            }
        } else {
            let longer = begun.push(text[0]);
            assert forall|i: int| 0 <= i < longer.len() implies !is_space(#[trigger] longer[i]) by {
                if i < begun.len() {
                    assert(longer[i] == begun[i]);
                }
            }
            lemma_words_after_are_words(longer, text.drop_first());
            assert(words_after(begun, text) == words_after(longer, text.drop_first()));
        }
    } else {
        assert(words_after(begun, text) == seq![begun]);
        assert(seq![begun][0] == begun);
    }
}

/// The reading of an expression, counted from `k` tokens further on.
pub open spec fn shifted<V>(read: Result<(V, int), Fault>, k: int) -> Result<(V, int), Fault> {
    match read {
        Err(fault) => Err(fault),
        Ok((value, end)) => Ok((value, end - k)),
    }
}

/// Reading goes on where it stopped: what is read from the tokens that
/// remain after `k` of them is what is read from token `k` on.
pub proof fn law_parse_continues(h: Numerics, tokens: Seq<Seq<char>>, k: int, from: int)
    requires
        0 <= k <= from,
        k <= tokens.len(),
    ensures
        parse_spec(h, tokens.skip(k), from - k) == shifted(parse_spec(h, tokens, from), k),
        parse_items(h, tokens.skip(k), from - k) == shifted(parse_items(h, tokens, from), k),
    decreases tokens.len() - from,
{
    if from < tokens.len() {
        assert(tokens.skip(k)[from - k] == tokens[from]);
        if tokens[from] == "("@ {
            law_parse_continues(h, tokens, k, from + 1);
        }
        if tokens[from] != ")"@ {
            match parse_spec(h, tokens, from) {
                Err(_) => {},
                Ok((_, next)) => {
                    if from < next <= tokens.len() {
                        law_parse_continues(h, tokens, k, next);
                    }
                },
            }
        }
    }
}

/// Two numbers of which neither is a NaN stand in exactly one of the three
/// orders: below, equal, above.
pub proof fn law_numbers_are_ordered(a: u64, b: u64)
    requires
        !is_nan(a),
        !is_nan(b),
    ensures
        less(a, b) || same(a, b) || less(b, a),
        !(less(a, b) && same(a, b)),
        !(less(a, b) && less(b, a)),
        !(same(a, b) && less(b, a)),
        holds(Relation::LessOrEqual, a, b) == !holds(Relation::More, a, b),
        holds(Relation::MoreOrEqual, a, b) == !holds(Relation::Less, a, b),
{
}

/// A NaN stands in no order to any number, itself included.
pub proof fn law_nan_is_unordered(relation: Relation, a: u64, b: u64)
    requires
        is_nan(a) || is_nan(b),
    ensures
        !holds(relation, a, b),
{
}

/// A comparison of fewer than two numbers is false, whatever else the
/// arguments hold and wherever the one number stands.
pub proof fn law_comparison_needs_two_numbers(h: Numerics, relation: Relation, args: Seq<Term>)
    requires
        count_numbers(args) < 2,
    ensures
        !fold_order(relation, args).verdict,
        native_result(h, NativeOp::Order(relation), args) == Term::Bool(false),
{
    lemma_chain_counts(relation, args);
}

/// A comparison of exactly two numbers, whatever stands between or around
/// them, is the order of the two.
pub proof fn law_comparison_of_two_numbers(relation: Relation, args: Seq<Term>, i: int, j: int)
    requires
        0 <= i < j < args.len(),
        args[i] is Number,
        args[j] is Number,
        count_numbers(args) == 2,
    ensures
        fold_order(relation, args).verdict == holds(
            relation,
            args[i]->Number_0,
            args[j]->Number_0,
        ),
    decreases args.len(),
{
    let before = args.drop_last();
    lemma_chain_counts(relation, before);
    if j == args.len() - 1 {
        lemma_count_finds(before, i);
        lemma_one_number(relation, before, i);
    } else {
        assert(before[i] == args[i]);
        assert(before[j] == args[j]);
        lemma_count_finds(before, i);
        lemma_count_more(before, i, j);
        law_comparison_of_two_numbers(relation, before, i, j);
    }
}

/// The chain remembers a number as soon as one is seen, and has compared
/// nothing before two are seen.
proof fn lemma_chain_counts(relation: Relation, args: Seq<Term>)
    ensures
        count_numbers(args) == 0 <==> fold_order(relation, args).previous is None,
        count_numbers(args) < 2 ==> !fold_order(relation, args).verdict,
    decreases args.len(),
{
    if args.len() > 0 {
        lemma_chain_counts(relation, args.drop_last());
    }
}

/// A number among the arguments is counted.
proof fn lemma_count_finds(args: Seq<Term>, i: int)
    requires
        0 <= i < args.len(),
        args[i] is Number,
    ensures
        count_numbers(args) >= 1,
    decreases args.len(),
{
    if i < args.len() - 1 {
        assert(args.drop_last()[i] == args[i]);
        lemma_count_finds(args.drop_last(), i);
    }
}

/// Two numbers among the arguments are counted.
proof fn lemma_count_more(args: Seq<Term>, i: int, j: int)
    requires
        0 <= i < j < args.len(),
        args[i] is Number,
        args[j] is Number,
    ensures
        count_numbers(args) >= 2,
    decreases args.len(),
{
    let before = args.drop_last();
    assert(before[i] == args[i]);
    if j < args.len() - 1 {
        assert(before[j] == args[j]);
        lemma_count_more(before, i, j);
    } else {
        lemma_count_finds(before, i);
    }
}

/// Where one number is among the arguments, the chain remembers that one.
proof fn lemma_one_number(relation: Relation, args: Seq<Term>, i: int)
    requires
        0 <= i < args.len(),
        args[i] is Number,
        count_numbers(args) == 1,
    ensures
        fold_order(relation, args).previous == Some(args[i]->Number_0),
    decreases args.len(),
{
    let before = args.drop_last();
    lemma_chain_counts(relation, before);
    if i < args.len() - 1 {
        assert(before[i] == args[i]);
        lemma_count_finds(before, i);
        lemma_one_number(relation, before, i);
    }
}

} // verus!
