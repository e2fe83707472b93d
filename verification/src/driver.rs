//! Evaluating source text: one expression per line.

use vstd::prelude::*;
use crate::env::{create_default_env, default_bindings, Bindings, LisperEnv};
use crate::errors::{Fault, LisperErr};
use crate::eval::eval;
use crate::exp::render;
use crate::numbers::{ArithOp, Host, Numerics, TrigOp};
use crate::reader::{parse, parse_spec, texts, tokenize, tokens_of};
use crate::semantics::eval_spec;
use crate::text::push_char;

verus! {

/// How the evaluation of a line ends: with the text of its value or a
/// failure, and with the bindings it leaves.
pub struct Shown {
    pub text: Result<Seq<char>, Fault>,
    pub env: Bindings,
}

/// Evaluates the first expression of a source text and renders its value.
/// Tokens after that expression are not read.
pub open spec fn evaluate_spec(h: Numerics, source: Seq<char>, env: Bindings, depth: nat) -> Shown {
    match parse_spec(h, tokens_of(source), 0) {
        Err(fault) => Shown { text: Err(fault), env },
        Ok((t, _)) => {
            let outcome = eval_spec(h, t, env, depth);
            match outcome.result {
                Err(fault) => Shown { text: Err(fault), env: outcome.env },
                Ok(value) => Shown { text: Ok(render(h, value)), env: outcome.env },
            }
        },
    }
}

/// What a line shows: the text of its value, or the words of its failure.
pub open spec fn output_of(shown: Shown) -> Seq<char> {
    match shown.text {
        Ok(text) => text,
        Err(fault) => fault.message(),
    }
}

/// Evaluates the lines in their order, each under the bindings that the
/// line before left, failed or not: what the last line shows, and the
/// bindings left.
pub open spec fn batch_spec(h: Numerics, lines: Seq<Seq<char>>, env: Bindings, depth: nat) -> (
    Seq<char>,
    Bindings,
)
    decreases lines.len(),
{
    if lines.len() == 0 {
        (Seq::empty(), env)
    } else {
        let before = batch_spec(h, lines.drop_last(), env, depth);
        let last = evaluate_spec(h, lines.last(), before.1, depth);
        (output_of(last), last.env)
    }
}

/// A line without the carriage return that ends it, if one does.
pub open spec fn strip_cr(line: Seq<char>) -> Seq<char> {
    if line.len() > 0 && line.last() == '\r' {
        line.drop_last()
    } else {
        line
    }
}

/// The lines of a text. A line ends at a line feed, or at a carriage return
/// and a line feed; the last line may end with the text.
pub open spec fn lines_of(text: Seq<char>) -> Seq<Seq<char>>
    decreases text.len(), 2nat,
{
    if text.len() == 0 {
        Seq::empty()
    } else {
        lines_after(Seq::empty(), text)
    }
}

/// The lines of a text that follows the beginning `begun` of a line.
pub open spec fn lines_after(begun: Seq<char>, text: Seq<char>) -> Seq<Seq<char>>
    decreases text.len(), 1nat,
{
    if text.len() == 0 {
        seq![begun]
    } else if text[0] == '\n' {
        seq![strip_cr(begun)] + lines_of(text.drop_first())
    } else {
        lines_after(begun.push(text[0]), text.drop_first())
    }
}

/// The lines still to come when `begun` has been read of the current line
/// and `text` is left.
pub open spec fn lines_pending(begun: Seq<char>, text: Seq<char>) -> Seq<Seq<char>> {
    if begun.len() == 0 {
        lines_of(text)
    } else {
        lines_after(begun, text)
    }
}

/// A text that is not empty has a line.
pub proof fn lemma_lines_after(begun: Seq<char>, text: Seq<char>)
    ensures
        lines_after(begun, text).len() > 0,
    decreases text.len(),
{
    if text.len() > 0 && text[0] != '\n' {
        lemma_lines_after(begun.push(text[0]), text.drop_first());
    }
}

/// Breaks a text into its lines.
pub fn split_lines(text: &str) -> (lines: Vec<String>)
    ensures
        texts(lines@) == lines_of(text@),
{
    broadcast use vstd::string::group_string_axioms;

    let mut lines: Vec<String> = Vec::new();
    let mut current = String::new();
    // a carriage return has been read that `current` does not hold yet
    let mut held = false;
    proof {
        assert(text@.skip(0) =~= text@);
        assert(texts(lines@) =~= Seq::<Seq<char>>::empty());
        assert(current@ + Seq::<char>::empty() =~= current@);
    }
    for c in it: text.chars()
        invariant
            it.seq() == text@,
            !held ==> current@.len() == 0 || current@.last() != '\r',
            texts(lines@) + lines_pending(
                current@ + if held {
                    seq!['\r']
                } else {
                    Seq::empty()
                },
                text@.skip(it.index()),
            ) == lines_of(text@),
    {
        let ghost i = it.index();
        let ghost rest = text@.skip(i + 1);
        let ghost done = texts(lines@);
        let ghost begun = current@ + if held {
            seq!['\r']
        } else {
            Seq::empty()
        };
        proof {
            assert(text@.skip(i).drop_first() =~= rest);
            assert(text@.skip(i)[0] == c);
            assert(text@.skip(i).len() > 0);
            if !held {
                assert(begun =~= current@);
            } else {
                assert(begun.drop_last() =~= current@);
            }
        }
        if c == '\n' {
            proof {
                assert(strip_cr(begun) == current@);
                assert(texts(lines@.push(current)) =~= done.push(current@));
                assert(done + (seq![current@] + lines_of(rest)) =~= done.push(current@)
                    + lines_of(rest));
            }
            lines.push(current);
            current = String::new();
            held = false;
            proof {
                assert(current@ + Seq::<char>::empty() =~= current@);
            }
        } else {
            if held {
                push_char(&mut current, '\r');
            }
            if c == '\r' {
                held = true;
                proof {
                    assert(current@ + seq!['\r'] =~= begun.push(c));
                }
            } else {
                push_char(&mut current, c);
                held = false;
                proof {
                    assert(current@ + Seq::<char>::empty() =~= begun.push(c));
                }
            }
        }
    }
    proof {
        assert(text@.skip(text@.len() as int) =~= Seq::<char>::empty());
    }
    if held {
        let ghost begun = current@ + seq!['\r'];
        push_char(&mut current, '\r');
        proof {
            assert(current@ =~= begun);
            assert(texts(lines@.push(current)) =~= texts(lines@) + seq![current@]);
        }
        lines.push(current);
    } else if !current.as_str().is_empty() {
        proof {
            assert(current@ + Seq::<char>::empty() =~= current@);
            assert(texts(lines@.push(current)) =~= texts(lines@) + seq![current@]);
        }
        lines.push(current);
    } else {
        proof {
            assert(current@ + Seq::<char>::empty() =~= current@);
            assert(texts(lines@) + Seq::<Seq<char>>::empty() =~= texts(lines@));
        }
    }
    lines
}

/// Evaluates the first expression of a source text under an environment,
/// and returns the text of its value.
pub fn evaluate<A, T, R, P>(
    exp: String,
    env: &mut LisperEnv,
    host: &Host<A, T, R, P>,
    depth: usize,
) -> (r: Result<String, LisperErr>) where
    A: Fn(ArithOp, u64, u64) -> u64,
    T: Fn(TrigOp, u64) -> u64,
    R: Fn(u64) -> String,
    P: Fn(&str) -> Option<u64>,

    requires
        host.wf(),
    ensures
        match (r, evaluate_spec(host.model(), exp@, old(env)@, depth as nat).text) {
            (Ok(text), Ok(expected)) => text@ == expected,
            (Err(e), Err(fault)) => e@ == fault.message(),
            _ => false,
        },
        final(env)@ == evaluate_spec(host.model(), exp@, old(env)@, depth as nat).env,
{
    let tokens = tokenize(exp);
    match parse(tokens.as_slice(), host) {
        Err(e) => Err(e),
        Ok((parsed, _)) => match eval(parsed, env, host, depth) {
            Err(e) => Err(e),
            Ok(value) => Ok(value.to_string(host)),
        },
    }
}

/// Evaluates lines of source text in their order under one environment. A
/// line that fails shows the words of its failure, and the lines after it
/// are evaluated all the same. Returns what the last line shows.
pub fn evaluate_lines<A, T, R, P>(
    lines: &Vec<String>,
    env: &mut LisperEnv,
    host: &Host<A, T, R, P>,
    depth: usize,
) -> (shown: String) where
    A: Fn(ArithOp, u64, u64) -> u64,
    T: Fn(TrigOp, u64) -> u64,
    R: Fn(u64) -> String,
    P: Fn(&str) -> Option<u64>,

    requires
        host.wf(),
        lines.len() > 0,
    ensures
        shown@ == batch_spec(host.model(), texts(lines@), old(env)@, depth as nat).0,
        final(env)@ == batch_spec(host.model(), texts(lines@), old(env)@, depth as nat).1,
{
    let ghost h = host.model();
    let ghost all = texts(lines@);
    let ghost before = env@;
    let mut shown = String::new();
    let mut i: usize = 0;
    proof {
        assert(all.take(0) =~= Seq::<Seq<char>>::empty());
    }
    while i < lines.len()
        invariant
            host.wf(),
            h == host.model(),
            all == texts(lines@),
            before == old(env)@,
            i <= lines.len(),
            i > 0 ==> shown@ == batch_spec(h, all.take(i as int), before, depth as nat).0,
            env@ == batch_spec(h, all.take(i as int), before, depth as nat).1,
        decreases lines.len() - i,
    {
        proof {
            assert(all.take(i + 1).drop_last() =~= all.take(i as int));
            assert(all.take(i + 1).last() == lines@[i as int]@);
        }
        shown = match evaluate(lines[i].clone(), env, host, depth) {
            Ok(text) => text,
            Err(e) => e.to_string(),
        };
        i += 1;
    }
    proof {
        assert(all.take(i as int) =~= all);
    }
    shown
}

/// Evaluates a text line by line under a fresh root environment, and
/// returns what its last line shows.
pub fn run<A, T, R, P>(exp: String, host: &Host<A, T, R, P>, depth: usize) -> (shown: String) where
    A: Fn(ArithOp, u64, u64) -> u64,
    T: Fn(TrigOp, u64) -> u64,
    R: Fn(u64) -> String,
    P: Fn(&str) -> Option<u64>,

    requires
        host.wf(),
        exp@.len() > 0,
    ensures
        shown@ == batch_spec(host.model(), lines_of(exp@), default_bindings(), depth as nat).0,
{
    let mut env = create_default_env();
    let lines = split_lines(exp.as_str());
    proof {
        lemma_lines_after(Seq::empty(), exp@);
    }
    evaluate_lines(&lines, &mut env, host, depth)
}

} // verus!
