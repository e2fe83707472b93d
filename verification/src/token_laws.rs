//! Laws of the tokenizer: what holds of the tokens of every text.

use vstd::prelude::*;
use crate::laws::is_word;
use crate::reader::{pad, padded, tokens_of, words, words_after};
use crate::text::is_space;

verus! {

/// The words, written one after the other.
pub open spec fn joined(parts: Seq<Seq<char>>) -> Seq<char>
    decreases parts.len(),
{
    if parts.len() == 0 {
        Seq::empty()
    } else {
        parts[0] + joined(parts.drop_first())
    }
}

/// The text without its whitespace.
pub open spec fn without_space(text: Seq<char>) -> Seq<char>
    decreases text.len(),
{
    if text.len() == 0 {
        Seq::empty()
    } else if is_space(text[0]) {
        without_space(text.drop_first())
    } else {
        seq![text[0]] + without_space(text.drop_first())
    }
}

/// The tokens hold every character of the text but its whitespace, in the
/// order of the text, and nothing else.
pub proof fn law_tokens_join_to_the_text(text: Seq<char>)
    ensures
        joined(tokens_of(text)) == without_space(text),
{
    lemma_words_join(padded(text));
    lemma_padding_is_space(text);
}

proof fn lemma_words_join(text: Seq<char>)
    ensures
        joined(words(text)) == without_space(text),
    decreases text.len(), 0nat,
{
    if text.len() > 0 {
        if is_space(text[0]) {
            lemma_words_join(text.drop_first());
        } else {
            lemma_words_after_join(seq![text[0]], text.drop_first());
        }
    }
}

proof fn lemma_words_after_join(begun: Seq<char>, text: Seq<char>)
    ensures
        joined(words_after(begun, text)) == begun + without_space(text),
    decreases text.len(), 1nat,
{
    if text.len() == 0 {
        let parts = seq![begun];
        assert(parts.drop_first() =~= Seq::<Seq<char>>::empty());
        assert(joined(Seq::<Seq<char>>::empty()) =~= Seq::<char>::empty());
        assert(joined(parts) =~= begun + Seq::<char>::empty());
        assert(joined(parts) =~= begun + without_space(text));
    } else if is_space(text[0]) {
        let parts = seq![begun] + words(text.drop_first());
        assert(parts[0] == begun);
        assert(parts.drop_first() =~= words(text.drop_first()));
        lemma_words_join(text.drop_first());
    } else {
        lemma_words_after_join(begun.push(text[0]), text.drop_first());
        assert(begun.push(text[0]) + without_space(text.drop_first()) =~= begun + (seq![text[0]]
            + without_space(text.drop_first())));
    }
}

/// The whitespace aside, two texts one after the other are the two.
proof fn lemma_without_space_of_both(a: Seq<char>, b: Seq<char>)
    ensures
        without_space(a + b) == without_space(a) + without_space(b),
    decreases a.len(),
{
    if a.len() == 0 {
        assert(a + b =~= b);
        assert(without_space(a) + without_space(b) =~= without_space(b));
    } else {
        assert((a + b).drop_first() =~= a.drop_first() + b);
        lemma_without_space_of_both(a.drop_first(), b);
        if !is_space(a[0]) {
            assert(seq![a[0]] + (without_space(a.drop_first()) + without_space(b)) =~= (seq![a[0]]
                + without_space(a.drop_first())) + without_space(b));
        }
    }
}

/// The padding adds whitespace only.
proof fn lemma_padding_is_space(text: Seq<char>)
    ensures
        without_space(padded(text)) == without_space(text),
    decreases text.len(),
{
    if text.len() > 0 {
        let c = text[0];
        lemma_padding_is_space(text.drop_first());
        lemma_without_space_of_both(pad(c), padded(text.drop_first()));
        assert(is_space(' '));
        assert(!is_space('('));
        assert(!is_space(')'));
        assert(without_space(pad(c)) =~= without_space(seq![c])) by {
            reveal_with_fuel(without_space, 3);
            if c == '(' {
                assert(pad(c).drop_first() =~= seq![' ']);
                assert(seq![' '].drop_first() =~= Seq::<char>::empty());
            } else if c == ')' {
                assert(pad(c).drop_first() =~= seq![')']);
                assert(seq![')'].drop_first() =~= Seq::<char>::empty());
            }
            assert(seq![c].drop_first() =~= Seq::<char>::empty());
        }
        assert(without_space(seq![c]) =~= if is_space(c) {
            Seq::<char>::empty()
        } else {
            seq![c]
        }) by {
            reveal_with_fuel(without_space, 2);
            assert(seq![c].drop_first() =~= Seq::<char>::empty());
        }
        if is_space(c) {
            assert(Seq::<char>::empty() + without_space(padded(text.drop_first()))
                =~= without_space(padded(text.drop_first())));
        }
    }
}

/// Whitespace separates tokens: the tokens of two texts with whitespace
/// between them are the tokens of the one and then those of the other.
pub proof fn law_whitespace_separates_tokens(a: Seq<char>, s: char, b: Seq<char>)
    requires
        is_space(s),
    ensures
        tokens_of(a + seq![s] + b) == tokens_of(a) + tokens_of(b),
{
    assert(!is_space('('));
    assert(!is_space(')'));
    lemma_padded_of_both(a + seq![s], b);
    lemma_padded_of_both(a, seq![s]);
    assert(padded(seq![s]) =~= seq![s]) by {
        reveal_with_fuel(padded, 2);
        assert(seq![s].drop_first() =~= Seq::<char>::empty());
    }
    lemma_words_split(padded(a), s, padded(b));
}

/// A parenthesis with whitespace on both sides is a token of its own.
pub proof fn law_a_parenthesis_apart_is_a_token(
    a: Seq<char>,
    before: char,
    parenthesis: char,
    after: char,
    b: Seq<char>,
)
    requires
        is_space(before),
        is_space(after),
        parenthesis == '(' || parenthesis == ')',
    ensures
        tokens_of(a + seq![before] + seq![parenthesis] + seq![after] + b) == tokens_of(a)
            + seq![seq![parenthesis]] + tokens_of(b),
{
    let lone = seq![parenthesis];
    law_whitespace_separates_tokens(a + seq![before] + lone, after, b);
    law_whitespace_separates_tokens(a, before, lone);
    assert(tokens_of(lone) =~= seq![lone]) by {
        assert(is_space(' '));
        assert(!is_space('('));
        assert(!is_space(')'));
        reveal_with_fuel(padded, 2);
        reveal_with_fuel(words, 3);
        reveal_with_fuel(words_after, 3);
        assert(lone.drop_first() =~= Seq::<char>::empty());
        if parenthesis == '(' {
            assert(padded(lone) =~= seq!['(', ' ']);
            assert(padded(lone).drop_first() =~= seq![' ']);
            assert(seq![' '].drop_first() =~= Seq::<char>::empty());
            assert(seq!['('] =~= lone);
        } else {
            assert(padded(lone) =~= seq![' ', ')']);
            assert(padded(lone).drop_first() =~= seq![')']);
            assert(seq![')'].drop_first() =~= Seq::<char>::empty());
            assert(seq![')'] =~= lone);
        }
    }
    assert(a + seq![before] + lone + seq![after] + b =~= (a + seq![before] + lone) + seq![after]
        + b);
}

/// The words, each followed by a space.
pub open spec fn spaced(parts: Seq<Seq<char>>) -> Seq<char>
    decreases parts.len(),
{
    if parts.len() == 0 {
        Seq::empty()
    } else {
        parts[0] + seq![' '] + spaced(parts.drop_first())
    }
}

/// Words written with a space after each are read back as they were.
pub proof fn law_spaced_words_come_back(parts: Seq<Seq<char>>)
    requires
        forall|k: int| 0 <= k < parts.len() ==> is_word(#[trigger] parts[k]),
    ensures
        words(spaced(parts)) == parts,
    decreases parts.len(),
{
    if parts.len() == 0 {
        assert(words(Seq::<char>::empty()) =~= parts);
    } else {
        let first = parts[0];
        let others = parts.drop_first();
        assert(is_space(' '));
        assert(is_word(first));
        assert forall|k: int| 0 <= k < others.len() implies is_word(#[trigger] others[k]) by {
            assert(others[k] == parts[k + 1]);
        }
        law_spaced_words_come_back(others);
        lemma_words_split(first, ' ', spaced(others));
        lemma_a_word_alone(first);
        assert(seq![first] + others =~= parts);
    }
}

/// A word is the one word of itself.
proof fn lemma_a_word_alone(w: Seq<char>)
    requires
        is_word(w),
    ensures
        words(w) == seq![w],
{
    lemma_a_word_goes_on(seq![w[0]], w.drop_first());
    assert(seq![w[0]] + w.drop_first() =~= w);
}

proof fn lemma_a_word_goes_on(begun: Seq<char>, text: Seq<char>)
    requires
        forall|i: int| 0 <= i < text.len() ==> !is_space(#[trigger] text[i]),
    ensures
        words_after(begun, text) == seq![begun + text],
    decreases text.len(),
{
    if text.len() == 0 {
        assert(begun + text =~= begun);
    } else {
        let rest = text.drop_first();
        assert forall|i: int| 0 <= i < rest.len() implies !is_space(#[trigger] rest[i]) by {
            assert(rest[i] == text[i + 1]);
        }
        lemma_a_word_goes_on(begun.push(text[0]), rest);
        assert(begun.push(text[0]) + rest =~= begun + text);
    }
}

/// The padding of two texts one after the other is the padding of the two.
proof fn lemma_padded_of_both(a: Seq<char>, b: Seq<char>)
    ensures
        padded(a + b) == padded(a) + padded(b),
    decreases a.len(),
{
    if a.len() == 0 {
        assert(a + b =~= b);
        assert(padded(a) + padded(b) =~= padded(b));
    } else {
        assert((a + b).drop_first() =~= a.drop_first() + b);
        lemma_padded_of_both(a.drop_first(), b);
        assert(pad(a[0]) + (padded(a.drop_first()) + padded(b)) =~= (pad(a[0]) + padded(
            a.drop_first(),
        )) + padded(b));
    }
}

/// Whitespace ends the word before it and begins none.
proof fn lemma_words_split(x: Seq<char>, s: char, y: Seq<char>)
    requires
        is_space(s),
    ensures
        words(x + seq![s] + y) == words(x) + words(y),
    decreases x.len(), 0nat,
{
    let whole = x + seq![s] + y;
    if x.len() == 0 {
        assert(whole.drop_first() =~= y);
        assert(words(x) + words(y) =~= words(y));
    } else {
        assert(whole.drop_first() =~= x.drop_first() + seq![s] + y);
        if is_space(x[0]) {
            lemma_words_split(x.drop_first(), s, y);
        } else {
            lemma_words_after_split(seq![x[0]], x.drop_first(), s, y);
        }
    }
}

proof fn lemma_words_after_split(begun: Seq<char>, x: Seq<char>, s: char, y: Seq<char>)
    requires
        is_space(s),
    ensures
        words_after(begun, x + seq![s] + y) == words_after(begun, x) + words(y),
    decreases x.len(), 1nat,
{
    let whole = x + seq![s] + y;
    if x.len() == 0 {
        assert(whole.drop_first() =~= y);
    } else {
        assert(whole.drop_first() =~= x.drop_first() + seq![s] + y);
        if is_space(x[0]) {
            lemma_words_split(x.drop_first(), s, y);
            assert(seq![begun] + (words(x.drop_first()) + words(y)) =~= (seq![begun] + words(
                x.drop_first(),
            )) + words(y));
        } else {
            lemma_words_after_split(begun.push(x[0]), x.drop_first(), s, y);
        }
    }
}

/// A token as the tokenizer makes them: a word in which an opening
/// parenthesis stands last and a closing one first.
pub open spec fn is_token(w: Seq<char>) -> bool {
    &&& is_word(w)
    &&& forall|i: int| 0 <= i < w.len() && #[trigger] w[i] == '(' ==> i == w.len() - 1
    &&& forall|i: int| 0 <= i < w.len() && #[trigger] w[i] == ')' ==> i == 0
}

/// Every opening parenthesis is followed by a space, and every closing one
/// but one in the first place comes after a space.
pub open spec fn parentheses_are_spaced(t: Seq<char>) -> bool {
    &&& forall|i: int| 0 <= i < t.len() && #[trigger] t[i] == '(' ==> i + 1 < t.len() && t[i + 1] == ' '
    &&& forall|i: int| 1 <= i < t.len() && #[trigger] t[i] == ')' ==> t[i - 1] == ' '
}

/// In every token an opening parenthesis stands last and a closing one
/// first.
pub proof fn law_tokens_end_at_parentheses(text: Seq<char>)
    ensures
        forall|k: int| 0 <= k < tokens_of(text).len() ==> is_token(#[trigger] tokens_of(text)[k]),
{
    lemma_padding_spaces_parentheses(text);
    lemma_words_are_tokens(padded(text));
}

/// Tokens written with a space after each are read back as they were: to
/// tokenize what the tokens spell changes nothing.
pub proof fn law_tokens_come_back(text: Seq<char>)
    ensures
        tokens_of(spaced(tokens_of(text))) == tokens_of(text),
{
    law_tokens_end_at_parentheses(text);
    lemma_spaced_tokens_come_back(tokens_of(text));
}

proof fn lemma_spaced_tokens_come_back(parts: Seq<Seq<char>>)
    requires
        forall|k: int| 0 <= k < parts.len() ==> is_token(#[trigger] parts[k]),
    ensures
        tokens_of(spaced(parts)) == parts,
    decreases parts.len(),
{
    if parts.len() == 0 {
        assert(padded(Seq::<char>::empty()) =~= Seq::<char>::empty());
        assert(words(Seq::<char>::empty()) =~= parts);
    } else {
        let first = parts[0];
        let others = parts.drop_first();
        assert(is_space(' '));
        assert(is_token(first));
        assert forall|k: int| 0 <= k < others.len() implies is_token(#[trigger] others[k]) by {
            assert(others[k] == parts[k + 1]);
        }
        lemma_spaced_tokens_come_back(others);
        law_whitespace_separates_tokens(first, ' ', spaced(others));
        lemma_a_token_alone(first);
        assert(seq![first] + others =~= parts);
    }
}

/// A token is the one token of itself.
proof fn lemma_a_token_alone(w: Seq<char>)
    requires
        is_token(w),
    ensures
        tokens_of(w) == seq![w],
{
    let rest = w.drop_first();
    assert(is_space(' '));
    assert(!is_space('('));
    assert(!is_space(')'));
    assert(!is_space(w[0]));
    assert(w =~= seq![w[0]] + rest);
    assert forall|i: int| 0 <= i < rest.len() implies !is_space(#[trigger] rest[i]) && rest[i]
        != ')' && (rest[i] == '(' ==> i == rest.len() - 1) by {
        assert(rest[i] == w[i + 1]);
    }
    if w[0] == ')' {
        lemma_a_token_goes_on(seq![')'], rest);
        let after = seq![')'] + padded(rest);
        assert(padded(w) =~= seq![' '] + after);
        assert(padded(w).drop_first() =~= after);
        assert(after.drop_first() =~= padded(rest));
        assert(words(padded(w)) == words(after));
        assert(words(after) == words_after(seq![')'], padded(rest)));
    } else if w[0] == '(' {
        assert(rest.len() == 0);
        assert(padded(rest) =~= Seq::<char>::empty());
        assert(padded(w) =~= seq!['(', ' ']);
        assert(padded(w).drop_first() =~= seq![' ']);
        assert(seq![' '].drop_first() =~= Seq::<char>::empty());
        reveal_with_fuel(words, 3);
        reveal_with_fuel(words_after, 3);
        assert(words(padded(w)) =~= seq![seq!['(']]);
        assert(seq!['('] =~= w);
    } else {
        lemma_a_token_goes_on(seq![w[0]], rest);
        assert(padded(w) =~= seq![w[0]] + padded(rest));
        assert(padded(w).drop_first() =~= padded(rest));
    }
}

proof fn lemma_a_token_goes_on(begun: Seq<char>, x: Seq<char>)
    requires
        forall|i: int|
            0 <= i < x.len() ==> !is_space(#[trigger] x[i]) && x[i] != ')' && (x[i] == '(' ==> i
                == x.len() - 1),
    ensures
        words_after(begun, padded(x)) == seq![begun + x],
    decreases x.len(),
{
    assert(is_space(' '));
    if x.len() == 0 {
        assert(begun + x =~= begun);
    } else {
        let rest = x.drop_first();
        assert(!is_space(x[0]));
        assert(x[0] != ')');
        if x[0] == '(' {
            assert(rest.len() == 0);
            assert(padded(rest) =~= Seq::<char>::empty());
            assert(padded(x) =~= seq!['(', ' ']);
            assert(padded(x).drop_first() =~= seq![' ']);
            assert(seq![' '].drop_first() =~= Seq::<char>::empty());
            reveal_with_fuel(words_after, 3);
            reveal_with_fuel(words, 2);
            assert(words_after(begun, padded(x)) =~= seq![begun.push('(')]);
            assert(begun.push('(') =~= begun + x);
        } else {
            assert forall|i: int| 0 <= i < rest.len() implies !is_space(#[trigger] rest[i])
                && rest[i] != ')' && (rest[i] == '(' ==> i == rest.len() - 1) by {
                assert(rest[i] == x[i + 1]);
            }
            lemma_a_token_goes_on(begun.push(x[0]), rest);
            assert(padded(x) =~= seq![x[0]] + padded(rest));
            assert(padded(x).drop_first() =~= padded(rest));
            assert(begun.push(x[0]) + rest =~= begun + x);
        }
    }
}

/// Padding puts a space after every opening parenthesis and before every
/// closing one.
proof fn lemma_padding_spaces_parentheses(text: Seq<char>)
    ensures
        parentheses_are_spaced(padded(text)),
        padded(text).len() > 0 ==> padded(text)[0] != ')',
    decreases text.len(),
{
    if text.len() > 0 {
        let head = pad(text[0]);
        let tail = padded(text.drop_first());
        let whole = padded(text);
        lemma_padding_spaces_parentheses(text.drop_first());
        assert(whole =~= head + tail);
        assert forall|i: int| 0 <= i < whole.len() && #[trigger] whole[i] == '(' implies i + 1
            < whole.len() && whole[i + 1] == ' ' by {
            if i >= head.len() {
                assert(whole[i] == tail[i - head.len()]);
                assert(whole[i + 1] == tail[i - head.len() + 1]);
            }
        }
        assert forall|i: int| 1 <= i < whole.len() && #[trigger] whole[i] == ')' implies whole[i
            - 1] == ' ' by {
            if i > head.len() {
                assert(whole[i] == tail[i - head.len()]);
                assert(whole[i - 1] == tail[i - head.len() - 1]);
            } else if i == head.len() {
                assert(whole[i] == tail[0]);
            }
        }
    }
}

proof fn lemma_words_are_tokens(t: Seq<char>)
    requires
        parentheses_are_spaced(t),
    ensures
        forall|k: int| 0 <= k < words(t).len() ==> is_token(#[trigger] words(t)[k]),
    decreases t.len(), 0nat,
{
    assert(is_space(' '));
    if t.len() > 0 {
        let rest = t.drop_first();
        lemma_rest_is_spaced(t);
        if is_space(t[0]) {
            lemma_words_are_tokens(rest);
            assert(words(t) == words(rest));
        } else {
            let begun = seq![t[0]];
            if rest.len() > 0 && rest[0] == ')' {
                assert(t[1] == ')');
            }
            if t[0] == '(' {
                assert(t[1] == ' ');
                assert(rest[0] == t[1]);
            }
            lemma_words_after_are_tokens(begun, rest);
            assert(words(t) == words_after(begun, rest));
        }
    } else {
        assert(words(t).len() == 0);
    }
}

/// What follows the first character keeps its parentheses spaced.
proof fn lemma_rest_is_spaced(t: Seq<char>)
    requires
        parentheses_are_spaced(t),
        t.len() > 0,
    ensures
        parentheses_are_spaced(t.drop_first()),
{
    let rest = t.drop_first();
    assert forall|i: int| 0 <= i < rest.len() && #[trigger] rest[i] == '(' implies i + 1
        < rest.len() && rest[i + 1] == ' ' by {
        assert(rest[i] == t[i + 1]);
        assert(t[i + 1] == '(');
        assert(rest[i + 1] == t[i + 2]);
    }
    assert forall|i: int| 1 <= i < rest.len() && #[trigger] rest[i] == ')' implies rest[i - 1]
        == ' ' by {
        assert(rest[i] == t[i + 1]);
        assert(t[i + 1] == ')');
        assert(rest[i - 1] == t[i]);
    }
}

proof fn lemma_words_after_are_tokens(begun: Seq<char>, t: Seq<char>)
    requires
        is_token(begun),
        parentheses_are_spaced(t),
        t.len() > 0 ==> t[0] != ')',
        begun.last() == '(' ==> t.len() > 0 && t[0] == ' ',
    ensures
        forall|k: int|
            0 <= k < words_after(begun, t).len() ==> is_token(
                #[trigger] words_after(begun, t)[k],
            ),
    decreases t.len(), 1nat,
{
    assert(is_space(' '));
    if t.len() == 0 {
        assert(words_after(begun, t) == seq![begun]);
        assert(seq![begun][0] == begun);
    } else {
        let rest = t.drop_first();
        lemma_rest_is_spaced(t);
        if is_space(t[0]) {
            let others = words(rest);
            lemma_words_are_tokens(rest);
            assert forall|k: int| 0 <= k < words_after(begun, t).len() implies is_token(
                #[trigger] words_after(begun, t)[k],
            ) by {
                if k > 0 {
                    assert(words_after(begun, t)[k] == others[k - 1]);
                }
            }
        } else {
            let longer = begun.push(t[0]);
            assert(begun.last() != '(');
            assert forall|i: int| 0 <= i < longer.len() implies !is_space(#[trigger] longer[i]) by {
                if i < begun.len() {
                    assert(longer[i] == begun[i]);
                }
            }
            assert forall|i: int| 0 <= i < longer.len() && #[trigger] longer[i] == '(' implies i
                == longer.len() - 1 by {
                if i < begun.len() {
                    assert(longer[i] == begun[i]);
                }
            }
            assert forall|i: int| 0 <= i < longer.len() && #[trigger] longer[i] == ')' implies i
                == 0 by {
                if i < begun.len() {
                    assert(longer[i] == begun[i]);
                }
            }
            if rest.len() > 0 && rest[0] == ')' {
                assert(t[1] == ')');
            }
            if t[0] == '(' {
                assert(t[1] == ' ');
                assert(rest[0] == t[1]);
            }
            lemma_words_after_are_tokens(longer, rest);
            assert(words_after(begun, t) == words_after(longer, rest));
        }
    }
}

} // verus!
