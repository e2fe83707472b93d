//! The reader: from source text to tokens, and from tokens to an expression.

use vstd::prelude::*;
use vstd::slice::{slice_index_get, slice_subrange};
use crate::errors::{Fault, LisperErr};
use crate::exp::{terms, LisperExp, Term};
use crate::numbers::{ArithOp, Host, Numerics, TrigOp};
use crate::text::{is_space, is_space_char, push_char, same_text};

verus! {

/// The characters of a sequence of strings.
pub open spec fn texts(tokens: Seq<String>) -> Seq<Seq<char>> {
    Seq::new(tokens.len(), |i: int| tokens[i]@)
}

/// A character as the tokenizer sees it: an opening parenthesis is followed
/// by a space, and a closing one comes after a space.
pub open spec fn pad(c: char) -> Seq<char> {
    if c == '(' {
        seq!['(', ' ']
    } else if c == ')' {
        seq![' ', ')']
    } else {
        seq![c]
    }
}

/// The text with each character padded.
pub open spec fn padded(text: Seq<char>) -> Seq<char>
    decreases text.len(),
{
    if text.len() == 0 {
        Seq::empty()
    } else {
        pad(text[0]) + padded(text.drop_first())
    }
}

/// The words of a text: the longest stretches without whitespace, in their
/// order.
pub open spec fn words(text: Seq<char>) -> Seq<Seq<char>>
    decreases text.len(), 0nat,
{
    if text.len() == 0 {
        Seq::empty()
    } else if is_space(text[0]) {
        words(text.drop_first())
    } else {
        words_after(seq![text[0]], text.drop_first())
    }
}

/// The words of a text that follows the beginning `begun` of a word.
pub open spec fn words_after(begun: Seq<char>, text: Seq<char>) -> Seq<Seq<char>>
    decreases text.len(), 1nat,
{
    if text.len() == 0 {
        seq![begun]
    } else if is_space(text[0]) {
        seq![begun] + words(text.drop_first())
    } else {
        words_after(begun.push(text[0]), text.drop_first())
    }
}

/// The tokens of a source text: the words of the padded text.
pub open spec fn tokens_of(text: Seq<char>) -> Seq<Seq<char>> {
    words(padded(text))
}

/// The words still to come when `begun` has been read of the current word
/// and `text` is left. Nothing is begun between words.
pub open spec fn pending(begun: Seq<char>, text: Seq<char>) -> Seq<Seq<char>> {
    if begun.len() == 0 {
        words(text)
    } else {
        words_after(begun, text)
    }
}

/// Reads one character: whitespace ends the word that is begun, any other
/// character continues it or begins one.
fn feed(tokens: &mut Vec<String>, current: &mut String, c: char, Ghost(rest): Ghost<Seq<char>>)
    ensures
        texts(final(tokens)@) + pending(final(current)@, rest) == texts(old(tokens)@) + pending(
            old(current)@,
            seq![c] + rest,
        ),
{
    let ghost before = texts(tokens@);
    let ghost begun = current@;
    proof {
        assert((seq![c] + rest).drop_first() =~= rest);
    }
    if is_space_char(c) {
        if !current.as_str().is_empty() {
            tokens.push(current.clone());
            *current = String::new();
            proof {
                assert(texts(tokens@) =~= before.push(begun));
                assert(before.push(begun) + words(rest) =~= before + (seq![begun] + words(rest)));
            }
        }
    } else {
        push_char(current, c);
        proof {
            if begun.len() == 0 {
                assert(begun.push(c) =~= seq![c]);
            }
        }
    }
}

/// Breaks a source text into its tokens: each parenthesis that the padding
/// sets apart, and each stretch of other characters between whitespace.
pub fn tokenize(expr: String) -> (tokens: Vec<String>)
    ensures
        texts(tokens@) == tokens_of(expr@),
{
    broadcast use vstd::string::group_string_axioms;

    let mut tokens: Vec<String> = Vec::new();
    let mut current = String::new();
    proof {
        assert(expr@.skip(0) =~= expr@);
        assert(texts(tokens@) =~= Seq::<Seq<char>>::empty());
    }
    for c in it: expr.as_str().chars()
        invariant
            it.seq() == expr@,
            texts(tokens@) + pending(current@, padded(expr@.skip(it.index()))) == tokens_of(expr@),
    {
        let ghost i = it.index();
        let ghost rest = padded(expr@.skip(i + 1));
        proof {
            assert(expr@.skip(i).drop_first() =~= expr@.skip(i + 1));
            assert(expr@.skip(i)[0] == c);
        }
        if c == '(' {
            proof {
                assert(seq!['('] + (seq![' '] + rest) =~= pad(c) + rest);
            }
            feed(&mut tokens, &mut current, '(', Ghost(seq![' '] + rest));
            feed(&mut tokens, &mut current, ' ', Ghost(rest));
        } else if c == ')' {
            proof {
                assert(seq![' '] + (seq![')'] + rest) =~= pad(c) + rest);
            }
            feed(&mut tokens, &mut current, ' ', Ghost(seq![')'] + rest));
            feed(&mut tokens, &mut current, ')', Ghost(rest));
        } else {
            feed(&mut tokens, &mut current, c, Ghost(rest));
        }
    }
    proof {
        assert(expr@.skip(expr@.len() as int) =~= Seq::<char>::empty());
    }
    if !current.as_str().is_empty() {
        proof {
            assert(texts(tokens@.push(current)) =~= texts(tokens@) + seq![current@]);
        }
        tokens.push(current);
    } else {
        proof {
            assert(texts(tokens@) + Seq::<Seq<char>>::empty() =~= texts(tokens@));
        }
    }
    tokens
}

/// The expression that one token other than a parenthesis denotes: a
/// boolean where it reads `true` or `false`, else a number where the host
/// reads one, else a symbol.
pub open spec fn atom(h: Numerics, token: Seq<char>) -> Term {
    if token == "true"@ {
        Term::Bool(true)
    } else if token == "false"@ {
        Term::Bool(false)
    } else {
        match (h.read)(token) {
            Some(bits) => Term::Number(bits),
            None => Term::Symbol(token),
        }
    }
}

/// Reads the expression that begins at token `from`: the expression, and
/// the index of the token after it.
///
/// `(` begins a list, which holds the expressions up to the `)` that closes
/// it. `)` begins no expression. Every other token is an expression by
/// itself.
pub open spec fn parse_spec(h: Numerics, tokens: Seq<Seq<char>>, from: int) -> Result<
    (Term, int),
    Fault,
>
    decreases tokens.len() - from, 0nat,
{
    if from < 0 || from >= tokens.len() {
        Err(Fault::EmptyInput)
    } else if tokens[from] == "("@ {
        match parse_items(h, tokens, from + 1) {
            Err(fault) => Err(fault),
            Ok((items, end)) => Ok((Term::List(items), end)),
        }
    } else if tokens[from] == ")"@ {
        Err(Fault::UnexpectedCloseParen)
    } else {
        Ok((atom(h, tokens[from]), from + 1))
    }
}

/// Reads the items of a list from token `from` up to the `)` that closes the
/// list: the items, and the index of the token after that `)`. (The guard
/// on where the item ends holds of every expression read: see `lemma_parse_advances`.)
pub open spec fn parse_items(h: Numerics, tokens: Seq<Seq<char>>, from: int) -> Result<
    (Seq<Term>, int),
    Fault,
>
    decreases tokens.len() - from, 1nat,
{
    if from < 0 || from >= tokens.len() {
        Err(Fault::UnterminatedList)
    } else if tokens[from] == ")"@ {
        Ok((Seq::empty(), from + 1))
    } else {
        match parse_spec(h, tokens, from) {
            Err(fault) => Err(fault),
            Ok(read) => if from < read.1 <= tokens.len() {
                match parse_items(h, tokens, read.1) {
                    Err(fault) => Err(fault),
                    Ok(others) => Ok((seq![read.0] + others.0, others.1)),
                }
            } else {
                Err(Fault::UnterminatedList)
            },
        }
    }
}

/// What the items read so far and the reading of the rest make together.
pub open spec fn extended(read: Seq<Term>, rest: Result<(Seq<Term>, int), Fault>) -> Result<
    (Seq<Term>, int),
    Fault,
> {
    match rest {
        Err(fault) => Err(fault),
        Ok((others, end)) => Ok((read + others, end)),
    }
}

/// An expression ends after the token it begins at, and within the tokens.
pub proof fn lemma_parse_advances(h: Numerics, tokens: Seq<Seq<char>>, from: int)
    ensures
        parse_spec(h, tokens, from) matches Ok((_, next)) ==> from < next <= tokens.len(),
        parse_items(h, tokens, from) matches Ok((_, end)) ==> from < end <= tokens.len(),
    decreases tokens.len() - from,
{
    if 0 <= from < tokens.len() {
        if tokens[from] == "("@ {
            lemma_parse_advances(h, tokens, from + 1);
        }
        if tokens[from] != ")"@ {
            match parse_spec(h, tokens, from) {
                Err(_) => {},
                Ok((_, next)) => {
                    if from < next <= tokens.len() {
                        lemma_parse_advances(h, tokens, next);
                    }
                },
            }
        }
    }
}

impl<A, T, R, P> Host<A, T, R, P> where
    A: Fn(ArithOp, u64, u64) -> u64,
    T: Fn(TrigOp, u64) -> u64,
    R: Fn(u64) -> String,
    P: Fn(&str) -> Option<u64>,
 {
    /// Reads the expression that begins at token `from`.
    pub fn parse_at(&self, tokens: &[String], from: usize) -> (r: Result<
        (LisperExp, usize),
        LisperErr,
    >)
        requires
            self.wf(),
        ensures
            match (r, parse_spec(self.model(), texts(tokens@), from as int)) {
                (Ok((exp, next)), Ok((t, end))) => exp@ == t && next == end && from < next
                    <= tokens.len(),
                (Err(e), Err(fault)) => e@ == fault.message(),
                _ => false,
            },
        decreases tokens.len() - from,
    {
        let ghost h = self.model();
        let ghost toks = texts(tokens@);
        if from >= tokens.len() {
            return Err(Fault::EmptyInput.reason());
        }
        let first = slice_index_get(tokens, from);
        if same_text(first.as_str(), "(") {
            let mut items: Vec<LisperExp> = Vec::new();
            let mut at: usize = from + 1;
            proof {
                assert(terms(items@) =~= Seq::<Term>::empty());
                assert(extended(terms(items@), parse_items(h, toks, at as int)) =~= parse_items(
                    h,
                    toks,
                    at as int,
                )) by {
                    match parse_items(h, toks, at as int) {
                        Err(_) => {},
                        Ok((others, end)) => {
                            assert(terms(items@) + others =~= others);
                        },
                    }
                }
            }
            loop
                invariant
                    self.wf(),
                    h == self.model(),
                    toks == texts(tokens@),
                    from < at <= tokens.len(),
                    toks[from as int] == "("@,
                    extended(terms(items@), parse_items(h, toks, at as int)) == parse_items(
                        h,
                        toks,
                        from + 1,
                    ),
                decreases tokens.len() - at,
            {
                if at >= tokens.len() {
                    return Err(Fault::UnterminatedList.reason());
                }
                let next = slice_index_get(tokens, at);
                if same_text(next.as_str(), ")") {
                    proof {
                        assert(terms(items@) + Seq::<Term>::empty() =~= terms(items@));
                        LisperExp::lemma_list_term(items);
                    }
                    return Ok((LisperExp::List(items), at + 1));
                }
                let ghost read = terms(items@);
                match self.parse_at(tokens, at) {
                    Err(e) => {
                        return Err(e);
                    },
                    Ok((exp, after)) => {
                        items.push(exp);
                        proof {
                            assert(terms(items@) =~= read.push(exp@));
                            match parse_items(h, toks, after as int) {
                                Err(_) => {},
                                Ok((others, end)) => {
                                    assert(read + (seq![exp@] + others) =~= read.push(exp@)
                                        + others);
                                },
                            }
                        }
                        at = after;
                    },
                }
            }
        } else if same_text(first.as_str(), ")") {
            Err(Fault::UnexpectedCloseParen.reason())
        } else {
            Ok((parse_token(first.as_str(), self), from + 1))
        }
    }

}

/// Reads the first expression of the tokens, and returns it with the tokens
/// that follow it.
pub fn parse<'a, A, T, R, P>(tokens: &'a [String], host: &Host<A, T, R, P>) -> (r: Result<
    (LisperExp, &'a [String]),
    LisperErr,
>) where
    A: Fn(ArithOp, u64, u64) -> u64,
    T: Fn(TrigOp, u64) -> u64,
    R: Fn(u64) -> String,
    P: Fn(&str) -> Option<u64>,

    requires
        host.wf(),
    ensures
        match (r, parse_spec(host.model(), texts(tokens@), 0)) {
            (Ok((exp, rest)), Ok((t, end))) => exp@ == t && rest@ == tokens@.skip(end),
            (Err(e), Err(fault)) => e@ == fault.message(),
            _ => false,
        },
{
    match host.parse_at(tokens, 0) {
        Err(e) => Err(e),
        Ok((exp, next)) => {
            let rest = slice_subrange(tokens, next, tokens.len());
            proof {
                assert(rest@ =~= tokens@.skip(next as int));
            }
            Ok((exp, rest))
        },
    }
}

/// Reads the expression that one token other than a parenthesis denotes.
pub fn parse_token<A, T, R, P>(token: &str, host: &Host<A, T, R, P>) -> (exp: LisperExp) where
    A: Fn(ArithOp, u64, u64) -> u64,
    T: Fn(TrigOp, u64) -> u64,
    R: Fn(u64) -> String,
    P: Fn(&str) -> Option<u64>,

    requires
        host.wf(),
    ensures
        exp@ == atom(host.model(), token@),
{
    if same_text(token, "true") {
        LisperExp::Bool(true)
    } else if same_text(token, "false") {
        LisperExp::Bool(false)
    } else {
        match host.number_of(token) {
            Some(bits) => LisperExp::Number(bits),
            None => LisperExp::Symbol(token.to_owned()),
        }
    }
}

} // verus!
