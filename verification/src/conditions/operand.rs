//! Reading one operand of a comparison from the tokens.
//!
//! An operand is one token, unless that token holds a quote. A quoted operand
//! runs from its opening quote to the next quote of the same kind, which may
//! stand in a later token: the tokens between are then part of the operand,
//! with one space between neighbours. The search for the closing quote ends
//! at the next `AND` or `OR` and at the end of the tokens.

use crate::text::splitting::join;
use crate::text::{char_views, is_word};
use vstd::prelude::*;

verus! {

/// Whether `c` is a single or a double quote.
pub open spec fn is_quote(c: char) -> bool {
    c == '\'' || c == '"'
}

/// Whether `t` is one of the two words that join conditions.
pub open spec fn is_joiner(t: Seq<char>) -> bool {
    t == "AND"@ || t == "OR"@
}

/// The index of the first quote of `t` at or after `from`.
pub open spec fn first_quote_from(t: Seq<char>, from: int) -> Option<int>
    decreases t.len() - from,
{
    if from < 0 || from >= t.len() {
        None
    } else if is_quote(t[from]) {
        Some(from)
    } else {
        first_quote_from(t, from + 1)
    }
}

/// The index of the first quote of `t`.
pub open spec fn first_quote(t: Seq<char>) -> Option<int> {
    first_quote_from(t, 0)
}

/// Whether `c` stands in `t` at or after `from`.
pub open spec fn has_char_from(t: Seq<char>, c: char, from: int) -> bool
    decreases t.len() - from,
{
    if from < 0 || from >= t.len() {
        false
    } else if t[from] == c {
        true
    } else {
        has_char_from(t, c, from + 1)
    }
}

/// `s` without its quotes.
pub open spec fn strip_quotes(s: Seq<char>) -> Seq<char>
    decreases s.len(),
{
    if s.len() == 0 {
        s
    } else if is_quote(s.last()) {
        strip_quotes(s.drop_last())
    } else {
        strip_quotes(s.drop_last()).push(s.last())
    }
}

/// The first token at or after `k` that holds the quote `q`, looking no
/// further than the next `AND` or `OR`.
pub open spec fn closing_token(tokens: Seq<Seq<char>>, q: char, k: int) -> Option<int>
    decreases tokens.len() - k,
{
    if k < 0 || k >= tokens.len() {
        None
    } else if is_joiner(tokens[k]) {
        None
    } else if has_char_from(tokens[k], q, 0) {
        Some(k)
    } else {
        closing_token(tokens, q, k + 1)
    }
}

/// The operand that starts at token `i`: its text and the index of the token
/// after it. `None` if the operand opens a quote that is not closed.
pub open spec fn read_operand(tokens: Seq<Seq<char>>, i: int) -> Option<(Seq<char>, int)> {
    let t = tokens[i];
    match first_quote(t) {
        None => Some((t, i + 1)),
        Some(at) => if has_char_from(t, t[at], at + 1) {
            Some((strip_quotes(t), i + 1))
        } else {
            match closing_token(tokens, t[at], i + 1) {
                None => None,
                Some(j) => Some((strip_quotes(join(tokens.subrange(i, j + 1), seq![' '])), j + 1)),
            }
        },
    }
}

/// An operand ends after the token it starts at, and within the tokens.
pub proof fn lemma_read_operand_bounds(tokens: Seq<Seq<char>>, i: int)
    requires
        0 <= i < tokens.len(),
    ensures
        match read_operand(tokens, i) {
            Some((_, next)) => i < next <= tokens.len(),
            None => true,
        },
{
    let t = tokens[i];
    match first_quote(t) {
        None => {},
        Some(at) => {
            lemma_first_quote(t, 0);
            lemma_closing_token(tokens, t[at], i + 1);
        },
    }
}

/// What `first_quote_from` finds is a quote of `t`.
pub proof fn lemma_first_quote(t: Seq<char>, from: int)
    requires
        0 <= from,
    ensures
        match first_quote_from(t, from) {
            Some(at) => from <= at < t.len() && is_quote(t[at]),
            None => true,
        },
    decreases t.len() - from,
{
    if from < t.len() && !is_quote(t[from]) {
        lemma_first_quote(t, from + 1);
    }
}

/// What `closing_token` finds is a token at or after the start of the search.
pub proof fn lemma_closing_token(tokens: Seq<Seq<char>>, q: char, k: int)
    requires
        0 <= k,
    ensures
        match closing_token(tokens, q, k) {
            Some(j) => k <= j < tokens.len(),
            None => true,
        },
    decreases tokens.len() - k,
{
    if k < tokens.len() && !is_joiner(tokens[k]) && !has_char_from(tokens[k], q, 0) {
        lemma_closing_token(tokens, q, k + 1);
    }
}

fn find_quote(t: &Vec<char>) -> (r: Option<usize>)
    ensures
        match r {
            Some(at) => first_quote(t@) == Some(at as int) && at < t.len(),
            None => first_quote(t@) is None,
        },
{
    let mut i: usize = 0;
    while i < t.len()
        invariant
            i <= t.len(),
            first_quote(t@) == first_quote_from(t@, i as int),
        decreases t.len() - i,
    {
        if t[i] == '\'' || t[i] == '"' {
            return Some(i);
        }
        i += 1;
    }
    None
}

fn holds_from(t: &Vec<char>, c: char, from: usize) -> (r: bool)
    ensures
        r == has_char_from(t@, c, from as int),
{
    let mut i: usize = from;
    while i < t.len()
        invariant
            from <= i,
            has_char_from(t@, c, from as int) == has_char_from(t@, c, i as int),
        decreases t.len() - i,
    {
        if t[i] == c {
            return true;
        }
        i += 1;
    }
    false
}

fn find_closing(tokens: &Vec<Vec<char>>, q: char, from: usize) -> (r: Option<usize>)
    ensures
        match r {
            Some(j) => closing_token(char_views(tokens@), q, from as int) == Some(j as int)
                && from <= j < tokens.len(),
            None => closing_token(char_views(tokens@), q, from as int) is None,
        },
{
    let mut k: usize = from;
    while k < tokens.len()
        invariant
            from <= k,
            closing_token(char_views(tokens@), q, from as int) == closing_token(
                char_views(tokens@),
                q,
                k as int,
            ),
        decreases tokens.len() - k,
    {
        assert(char_views(tokens@)[k as int] == tokens[k as int]@);
        if is_word(&tokens[k], "AND") || is_word(&tokens[k], "OR") {
            return None;
        }
        if holds_from(&tokens[k], q, 0) {
            return Some(k);
        }
        k += 1;
    }
    None
}

/// Appends `tail` to `buf`, quotes left out.
fn append_bare(buf: &mut Vec<char>, tail: &Vec<char>)
    ensures
        final(buf)@ == old(buf)@ + strip_quotes(tail@),
{
    let mut i: usize = 0;
    while i < tail.len()
        invariant
            i <= tail.len(),
            buf@ == old(buf)@ + strip_quotes(tail@.take(i as int)),
        decreases tail.len() - i,
    {
        assert(tail@.take(i + 1).drop_last() == tail@.take(i as int));
        let c = tail[i];
        if !(c == '\'' || c == '"') {
            buf.push(c);
            assert(buf@ =~= old(buf)@ + strip_quotes(tail@.take(i as int)).push(c));
        }
        i += 1;
    }
    assert(tail@.take(tail.len() as int) == tail@);
    assert(buf@ =~= old(buf)@ + strip_quotes(tail@));
}

/// Stripping quotes goes through a concatenation.
pub proof fn lemma_strip_concat(a: Seq<char>, b: Seq<char>)
    ensures
        strip_quotes(a + b) == strip_quotes(a) + strip_quotes(b),
    decreases b.len(),
{
    if b.len() == 0 {
        assert(a + b == a);
        assert(strip_quotes(a) + strip_quotes(b) =~= strip_quotes(a));
    } else {
        lemma_strip_concat(a, b.drop_last());
        assert((a + b).drop_last() == a + b.drop_last());
        assert((a + b).last() == b.last());
        if is_quote(b.last()) {
        } else {
            assert(strip_quotes(a + b) =~= strip_quotes(a) + strip_quotes(b));
        }
    }
}

/// Reads the operand that starts at token `*i` and moves `*i` past it.
///
/// `None` if the operand opens a quote that is not closed; `*i` is then left
/// as it was.
pub fn fixed_operand(tokens: &Vec<Vec<char>>, i: &mut usize) -> (r: Option<Vec<char>>)
    requires
        *old(i) < tokens.len(),
    ensures
        match r {
            Some(text) => read_operand(char_views(tokens@), *old(i) as int) == Some(
                (text@, *final(i) as int),
            ) && *old(i) < *final(i) <= tokens.len(),
            None => read_operand(char_views(tokens@), *old(i) as int) is None && *final(i)
                == *old(i),
        },
{
    let start: usize = *i;
    let ghost all = char_views(tokens@);
    let t = &tokens[start];
    assert(all[start as int] == t@);
    match find_quote(t) {
        None => {
            *i = start + 1;
            Some(t.clone())
        },
        Some(at) => {
            let q = t[at];
            let end: usize = if holds_from(t, q, at + 1) {
                start
            } else {
                match find_closing(tokens, q, start + 1) {
                    None => {
                        return None;
                    },
                    Some(j) => j,
                }
            };
            let mut text: Vec<char> = Vec::new();
            let mut k: usize = start;
            while k <= end
                invariant
                    start <= k <= end + 1,
                    end < tokens.len(),
                    all == char_views(tokens@),
                    text@ == strip_quotes(join(all.subrange(start as int, k as int), seq![' '])),
                decreases end + 1 - k,
            {
                let ghost before = all.subrange(start as int, k as int);
                let ghost now = all.subrange(start as int, k + 1);
                assert(now.drop_last() == before);
                assert(now.last() == tokens[k as int]@);
                if k > start {
                    text.push(' ');
                    proof {
                        lemma_strip_concat(join(before, seq![' ']), seq![' ']);
                        assert(strip_quotes(seq![' ']) =~= seq![' ']) by {
                            reveal_with_fuel(strip_quotes, 2);
                            assert(seq![' '].drop_last() =~= Seq::<char>::empty());
                        }
                        assert(text@ =~= strip_quotes(join(before, seq![' ']) + seq![' ']));
                    }
                } else {
                    assert(before =~= Seq::<Seq<char>>::empty());
                }
                append_bare(&mut text, &tokens[k]);
                proof {
                    if k > start {
                        lemma_strip_concat(join(before, seq![' ']) + seq![' '], now.last());
                    } else {
                        assert(now.len() == 1);
                        assert(text@ =~= strip_quotes(now[0]));
                    }
                }
                k += 1;
            }
            proof {
                if end == start {
                    assert(all.subrange(start as int, end + 1).len() == 1);
                    assert(join(all.subrange(start as int, end + 1), seq![' ']) == t@);
                }
            }
            *i = end + 1;
            Some(text)
        },
    }
}

} // verus!
