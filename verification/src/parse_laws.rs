//! Laws of the parser: what it reads from every sequence of tokens.

use vstd::prelude::*;
use crate::errors::Fault;
use crate::exp::Term;
use crate::numbers::Numerics;
use crate::reader::{atom, lemma_parse_advances, parse_items, parse_spec};

verus! {

/// Where the outermost of `open` open lists closes, read from token `from`
/// on: the index of the token after its `)`, if the tokens hold that `)`.
/// Every `(` opens a list and every `)` closes the innermost one.
pub open spec fn closing(tokens: Seq<Seq<char>>, from: int, open: nat) -> Option<int>
    decreases tokens.len() - from,
{
    if from < 0 || from >= tokens.len() || open == 0 {
        None
    } else if tokens[from] == "("@ {
        closing(tokens, from + 1, open + 1)
    } else if tokens[from] == ")"@ {
        if open == 1 {
            Some(from + 1)
        } else {
            closing(tokens, from + 1, (open - 1) as nat)
        }
    } else {
        closing(tokens, from + 1, open)
    }
}

/// What the parser reads, and when it fails. Without a token to begin at it
/// fails for want of input. A `(` begins a list that ends with the `)` that
/// balances it, and fails as unterminated where the tokens hold no such `)`.
/// A `)` in the first place fails. Any other token is read alone.
pub proof fn law_parse_reads_what_balances(h: Numerics, tokens: Seq<Seq<char>>, from: int)
    ensures
        from < 0 || from >= tokens.len() ==> parse_spec(h, tokens, from) == Err::<(Term, int), Fault>(
            Fault::EmptyInput,
        ),
        0 <= from < tokens.len() && tokens[from] == "("@ ==> (match closing(tokens, from + 1, 1) {
            Some(end) => parse_spec(h, tokens, from) matches Ok((t, next)) && next == end
                && t is List,
            None => parse_spec(h, tokens, from) == Err::<(Term, int), Fault>(
                Fault::UnterminatedList,
            ),
        }),
        0 <= from < tokens.len() && tokens[from] == ")"@ ==> parse_spec(h, tokens, from) == Err::<
            (Term, int),
            Fault,
        >(Fault::UnexpectedCloseParen),
        0 <= from < tokens.len() && tokens[from] != "("@ && tokens[from] != ")"@ ==> parse_spec(
            h,
            tokens,
            from,
        ) == Ok::<(Term, int), Fault>((atom(h, tokens[from]), from + 1)),
{
    lemma_parentheses_differ();
    if 0 <= from < tokens.len() && tokens[from] == "("@ {
        lemma_items_close(h, tokens, from + 1, 1);
    }
}

/// The two parentheses are two tokens.
proof fn lemma_parentheses_differ()
    ensures
        "("@ != ")"@,
{
    reveal_strlit("(");
    reveal_strlit(")");
    assert("("@[0] == '(');
    assert(")"@[0] == ')');
}

/// Reading the items of a list ends where the list closes, and fails where
/// it does not close.
proof fn lemma_items_close(h: Numerics, tokens: Seq<Seq<char>>, from: int, open: nat)
    requires
        open >= 1,
    ensures
        match parse_items(h, tokens, from) {
            Ok((_, end)) => closing(tokens, from, open) == (if open == 1 {
                Some(end)
            } else {
                closing(tokens, end, (open - 1) as nat)
            }),
            Err(fault) => fault == Fault::UnterminatedList && closing(tokens, from, open) is None,
        },
        0 <= from < tokens.len() && tokens[from] != ")"@ ==> (match parse_spec(h, tokens, from) {
            Ok((_, next)) => closing(tokens, from, open) == closing(tokens, next, open),
            Err(fault) => fault == Fault::UnterminatedList && closing(tokens, from, open) is None,
        }),
    decreases tokens.len() - from,
{
    lemma_parentheses_differ();
    if 0 <= from < tokens.len() {
        if tokens[from] == "("@ {
            lemma_items_close(h, tokens, from + 1, open + 1);
        }
        if tokens[from] != ")"@ {
            lemma_parse_advances(h, tokens, from);
            match parse_spec(h, tokens, from) {
                Err(_) => {},
                Ok((_, next)) => {
                    lemma_items_close(h, tokens, next, open);
                },
            }
        }
    }
}

/// The expressions of a tree that are no lists, from left to right.
pub open spec fn leaves(t: Term) -> Seq<Term>
    decreases t, 0nat,
{
    match t {
        Term::List(items) => leaves_of_items(items, items.len()),
        _ => seq![t],
    }
}

/// The leaves of the first `n` items.
pub open spec fn leaves_of_items(items: Seq<Term>, n: nat) -> Seq<Term>
    decreases items, n,
{
    if n == 0 || n > items.len() {
        Seq::empty()
    } else {
        leaves_of_items(items, (n - 1) as nat) + leaves(items[n - 1])
    }
}

/// The lists of a tree, itself included.
pub open spec fn lists(t: Term) -> nat
    decreases t, 0nat,
{
    match t {
        Term::List(items) => 1 + lists_of_items(items, items.len()),
        _ => 0,
    }
}

/// The lists of the first `n` items.
pub open spec fn lists_of_items(items: Seq<Term>, n: nat) -> nat
    decreases items, n,
{
    if n == 0 || n > items.len() {
        0
    } else {
        lists_of_items(items, (n - 1) as nat) + lists(items[n - 1])
    }
}

/// What the tokens from `from` up to `end` that are no parentheses denote,
/// in their order.
pub open spec fn atoms_in(h: Numerics, tokens: Seq<Seq<char>>, from: int, end: int) -> Seq<Term>
    decreases end - from,
{
    if from < 0 || from >= end || end > tokens.len() {
        Seq::empty()
    } else if tokens[end - 1] == "("@ || tokens[end - 1] == ")"@ {
        atoms_in(h, tokens, from, end - 1)
    } else {
        atoms_in(h, tokens, from, end - 1).push(atom(h, tokens[end - 1]))
    }
}

/// How many of the tokens from `from` up to `end` are `(`.
pub open spec fn opens_in(tokens: Seq<Seq<char>>, from: int, end: int) -> nat
    decreases end - from,
{
    if from < 0 || from >= end || end > tokens.len() {
        0
    } else {
        opens_in(tokens, from, end - 1) + if tokens[end - 1] == "("@ {
            1nat
        } else {
            0nat
        }
    }
}

/// The expression read mirrors the tokens it was read from: its leaves are
/// what the tokens other than parentheses denote, in their order, and it
/// has a list for every `(`.
pub proof fn law_parsed_mirrors_the_tokens(h: Numerics, tokens: Seq<Seq<char>>, from: int)
    ensures
        parse_spec(h, tokens, from) matches Ok((t, end)) ==> leaves(t) == atoms_in(
            h,
            tokens,
            from,
            end,
        ) && lists(t) == opens_in(tokens, from, end),
{
    lemma_parentheses_differ();
    if 0 <= from < tokens.len() && tokens[from] != ")"@ {
        lemma_items_mirror(h, tokens, from);
    }
}

/// One token: its atom where it is no parenthesis, and one `(` where it is
/// that.
proof fn lemma_one_token(h: Numerics, tokens: Seq<Seq<char>>, at: int)
    requires
        0 <= at < tokens.len(),
    ensures
        atoms_in(h, tokens, at, at + 1) == (if tokens[at] == "("@ || tokens[at] == ")"@ {
            Seq::<Term>::empty()
        } else {
            seq![atom(h, tokens[at])]
        }),
        opens_in(tokens, at, at + 1) == (if tokens[at] == "("@ {
            1nat
        } else {
            0nat
        }),
        leaves(atom(h, tokens[at])) == seq![atom(h, tokens[at])],
        lists(atom(h, tokens[at])) == 0,
{
    assert(atoms_in(h, tokens, at, at) =~= Seq::<Term>::empty());
    assert(opens_in(tokens, at, at) == 0);
    assert(Seq::<Term>::empty().push(atom(h, tokens[at])) =~= seq![atom(h, tokens[at])]);
}

proof fn lemma_atoms_join(h: Numerics, tokens: Seq<Seq<char>>, from: int, mid: int, end: int)
    requires
        0 <= from <= mid <= end <= tokens.len(),
    ensures
        atoms_in(h, tokens, from, end) == atoms_in(h, tokens, from, mid) + atoms_in(
            h,
            tokens,
            mid,
            end,
        ),
    decreases end - mid,
{
    if mid == end {
        assert(atoms_in(h, tokens, mid, end) =~= Seq::<Term>::empty());
        assert(atoms_in(h, tokens, from, mid) + Seq::<Term>::empty() =~= atoms_in(
            h,
            tokens,
            from,
            mid,
        ));
    } else {
        lemma_atoms_join(h, tokens, from, mid, end - 1);
        if tokens[end - 1] == "("@ || tokens[end - 1] == ")"@ {
        } else {
            let last = atom(h, tokens[end - 1]);
            assert((atoms_in(h, tokens, from, mid) + atoms_in(h, tokens, mid, end - 1)).push(last)
                =~= atoms_in(h, tokens, from, mid) + atoms_in(h, tokens, mid, end - 1).push(
                last,
            ));
        }
    }
}

proof fn lemma_opens_join(tokens: Seq<Seq<char>>, from: int, mid: int, end: int)
    requires
        0 <= from <= mid <= end <= tokens.len(),
    ensures
        opens_in(tokens, from, end) == opens_in(tokens, from, mid) + opens_in(tokens, mid, end),
    decreases end - mid,
{
    if mid < end {
        lemma_opens_join(tokens, from, mid, end - 1);
    }
}

/// The leaves and lists of items with one more item in front.
proof fn lemma_items_with_first(first: Term, others: Seq<Term>, n: nat)
    requires
        n <= others.len(),
    ensures
        leaves_of_items(seq![first] + others, n + 1) == leaves(first) + leaves_of_items(others, n),
        lists_of_items(seq![first] + others, n + 1) == lists(first) + lists_of_items(others, n),
    decreases n,
{
    let all = seq![first] + others;
    assert(all[0] == first);
    if n == 0 {
        assert(leaves_of_items(all, 0) =~= Seq::<Term>::empty());
        assert(leaves_of_items(all, 1) =~= leaves(first));
        assert(leaves(first) + leaves_of_items(others, 0) =~= leaves(first));
        assert(lists_of_items(all, 0) == 0);
    } else {
        lemma_items_with_first(first, others, (n - 1) as nat);
        assert(all[n as int] == others[n - 1]);
        assert((leaves(first) + leaves_of_items(others, (n - 1) as nat)) + leaves(others[n - 1])
            =~= leaves(first) + (leaves_of_items(others, (n - 1) as nat) + leaves(others[n - 1])));
    }
}

proof fn lemma_items_mirror(h: Numerics, tokens: Seq<Seq<char>>, from: int)
    ensures
        parse_items(h, tokens, from) matches Ok((items, end)) ==> leaves_of_items(
            items,
            items.len(),
        ) == atoms_in(h, tokens, from, end) && lists_of_items(items, items.len()) == opens_in(
            tokens,
            from,
            end,
        ),
        0 <= from < tokens.len() && tokens[from] != ")"@ ==> (parse_spec(h, tokens, from) matches Ok(
            (t, next),
        ) ==> leaves(t) == atoms_in(h, tokens, from, next) && lists(t) == opens_in(
            tokens,
            from,
            next,
        )),
    decreases tokens.len() - from,
{
    lemma_parentheses_differ();
    if 0 <= from < tokens.len() {
        lemma_one_token(h, tokens, from);
        if tokens[from] == "("@ {
            lemma_items_mirror(h, tokens, from + 1);
            match parse_items(h, tokens, from + 1) {
                Ok((inner, end)) => {
                    lemma_parse_advances(h, tokens, from + 1);
                    lemma_atoms_join(h, tokens, from, from + 1, end);
                    lemma_opens_join(tokens, from, from + 1, end);
                    assert(Seq::<Term>::empty() + atoms_in(h, tokens, from + 1, end) =~= atoms_in(
                        h,
                        tokens,
                        from + 1,
                        end,
                    ));
                },
                Err(_) => {},
            }
        }
        if tokens[from] == ")"@ {
            assert(leaves_of_items(Seq::<Term>::empty(), 0) =~= Seq::<Term>::empty());
        } else {
            lemma_parse_advances(h, tokens, from);
            match parse_spec(h, tokens, from) {
                Err(_) => {},
                Ok((first, next)) => {
                    lemma_items_mirror(h, tokens, next);
                    match parse_items(h, tokens, next) {
                        Err(_) => {},
                        Ok((others, end)) => {
                            lemma_parse_advances(h, tokens, next);
                            lemma_items_with_first(first, others, others.len());
                            lemma_atoms_join(h, tokens, from, next, end);
                            lemma_opens_join(tokens, from, next, end);
                            assert((seq![first] + others).len() == others.len() + 1);
                        },
                    }
                },
            }
        }
    }
}

} // verus!
