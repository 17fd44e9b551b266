//! From a condition's text to its tokens.
//!
//! A condition is cut into words at white space, with every round bracket a
//! word of its own. A word that holds a comparison operator and is longer than
//! two characters is then cut once more, into what stands before the operator,
//! the operator, and what stands after it.

use crate::errors::tperrors::{syntax, ErrorKind, Tperrors};
use crate::text::splitting::{bracket_words, bracket_words_of};
use crate::text::{char_views, contains, find, find_word, is_word, slice};
use vstd::prelude::*;

verus! {

/// How often the word `word` stands among `tokens`.
pub open spec fn count_of(tokens: Seq<Seq<char>>, word: Seq<char>) -> nat
    decreases tokens.len(),
{
    if tokens.len() == 0 {
        0
    } else {
        count_of(tokens.drop_last(), word) + if tokens.last() == word {
            1nat
        } else {
            0nat
        }
    }
}

/// Whether as many brackets open as close among `tokens`.
pub open spec fn balanced(tokens: Seq<Seq<char>>) -> bool {
    count_of(tokens, "("@) == count_of(tokens, ")"@)
}

/// Where `t` is cut, and how long the operator there is: the first occurrence
/// of the first of `>=`, `<=`, `!=`, `=`, `<`, `>` that `t` holds at all.
pub open spec fn operator_cut(t: Seq<char>) -> Option<(int, int)> {
    if find(t, ">="@) is Some {
        Some((find(t, ">="@)->0, 2))
    } else if find(t, "<="@) is Some {
        Some((find(t, "<="@)->0, 2))
    } else if find(t, "!="@) is Some {
        Some((find(t, "!="@)->0, 2))
    } else if find(t, "="@) is Some {
        Some((find(t, "="@)->0, 1))
    } else if find(t, "<"@) is Some {
        Some((find(t, "<"@)->0, 1))
    } else if find(t, ">"@) is Some {
        Some((find(t, ">"@)->0, 1))
    } else {
        None
    }
}

/// `s` as a list of one token, or no token if `s` is empty.
pub open spec fn piece(s: Seq<char>) -> Seq<Seq<char>> {
    if s.len() > 0 {
        seq![s]
    } else {
        Seq::empty()
    }
}

/// Whether `t` holds one of the rejected spellings `=>` and `=<`.
pub open spec fn misspelled(t: Seq<char>) -> bool {
    contains(t, "=>"@) || contains(t, "=<"@)
}

/// The tokens that one word gives, or `None` for a word with a rejected
/// spelling. A word of more than two characters with an operator in it gives
/// its operands and the operator between them, an empty operand left out.
pub open spec fn split_token(t: Seq<char>) -> Option<Seq<Seq<char>>> {
    if misspelled(t) {
        None
    } else if t.len() <= 2 {
        Some(seq![t])
    } else {
        match operator_cut(t) {
            None => Some(seq![t]),
            Some((at, n)) => Some(
                piece(t.subrange(0, at)) + seq![t.subrange(at, at + n)] + piece(
                    t.subrange(at + n, t.len() as int),
                ),
            ),
        }
    }
}

/// The tokens that a list of words gives, or `None` if one of the words has a
/// rejected spelling.
pub open spec fn resplit(words: Seq<Seq<char>>) -> Option<Seq<Seq<char>>>
    decreases words.len(),
{
    if words.len() == 0 {
        Some(Seq::empty())
    } else {
        match (resplit(words.drop_last()), split_token(words.last())) {
            (Some(before), Some(last)) => Some(before + last),
            _ => None,
        }
    }
}

/// How often `word` stands among `tokens`.
pub fn count_word(tokens: &Vec<Vec<char>>, word: &str) -> (n: usize)
    ensures
        n == count_of(char_views(tokens@), word@),
{
    let mut n: usize = 0;
    let mut i: usize = 0;
    while i < tokens.len()
        invariant
            i <= tokens.len(),
            n <= i,
            n == count_of(char_views(tokens@).take(i as int), word@),
        decreases tokens.len() - i,
    {
        assert(char_views(tokens@).take(i + 1).drop_last() == char_views(tokens@).take(i as int));
        if is_word(&tokens[i], word) {
            n += 1;
        }
        i += 1;
    }
    assert(char_views(tokens@).take(tokens.len() as int) == char_views(tokens@));
    n
}

/// Where a word is cut, and how long the operator there is.
pub fn find_operator(t: &Vec<char>) -> (r: Option<(usize, usize)>)
    ensures
        match r {
            Some((at, n)) => operator_cut(t@) == Some((at as int, n as int)) && at + n <= t.len()
                && 1 <= n <= 2,
            None => operator_cut(t@) is None,
        },
{
    proof {
        reveal_strlit(">=");
        reveal_strlit("<=");
        reveal_strlit("!=");
        reveal_strlit("=");
        reveal_strlit("<");
        reveal_strlit(">");
    }
    if let Some(at) = find_word(t, ">=") {
        Some((at, 2))
    } else if let Some(at) = find_word(t, "<=") {
        Some((at, 2))
    } else if let Some(at) = find_word(t, "!=") {
        Some((at, 2))
    } else if let Some(at) = find_word(t, "=") {
        Some((at, 1))
    } else if let Some(at) = find_word(t, "<") {
        Some((at, 1))
    } else if let Some(at) = find_word(t, ">") {
        Some((at, 1))
    } else {
        None
    }
}

/// Cuts the words that hold an operator.
///
/// Fails with a syntax error exactly when a word holds `=>` or `=<`.
pub fn split_conditions(words: &Vec<Vec<char>>) -> (r: Result<Vec<Vec<char>>, Tperrors>)
    ensures
        match r {
            Ok(tokens) => resplit(char_views(words@)) == Some(char_views(tokens@)),
            Err(e) => resplit(char_views(words@)) is None && e.kind_of() == ErrorKind::Syntax,
        },
{
    let mut out: Vec<Vec<char>> = Vec::new();
    let mut i: usize = 0;
    while i < words.len()
        invariant
            i <= words.len(),
            resplit(char_views(words@).take(i as int)) == Some(char_views(out@)),
        decreases words.len() - i,
    {
        let ghost before = char_views(out@);
        let ghost w = char_views(words@);
        assert(w.take(i + 1).drop_last() == w.take(i as int));
        assert(w.take(i + 1).last() == words[i as int]@);
        let t = &words[i];
        if find_word(t, "=>").is_some() || find_word(t, "=<").is_some() {
            proof {
                lemma_resplit_fails(w, i as int);
            }
            return Err(syntax("Invalid operator, use >= or <= (SQL: Near '<')"));
        }
        let cut = if t.len() <= 2 {
            None
        } else {
            find_operator(t)
        };
        match cut {
            None => {
                out.push(t.clone());
                assert(char_views(out@) =~= before + seq![t@]);
            },
            Some((at, n)) => {
                let left = slice(t, 0, at);
                let op = slice(t, at, at + n);
                let right = slice(t, at + n, t.len());
                if left.len() > 0 {
                    out.push(left);
                }
                out.push(op);
                if right.len() > 0 {
                    out.push(right);
                }
                assert(char_views(out@) =~= before + (piece(t@.subrange(0, at as int))
                    + seq![t@.subrange(at as int, at + n)] + piece(
                    t@.subrange(at + n, t.len() as int),
                )));
            },
        }
        i += 1;
    }
    assert(char_views(words@).take(words.len() as int) == char_views(words@));
    Ok(out)
}

/// A word with a rejected spelling makes the whole list fail.
pub proof fn lemma_resplit_fails(words: Seq<Seq<char>>, i: int)
    requires
        0 <= i < words.len(),
        misspelled(words[i]),
    ensures
        resplit(words) is None,
    decreases words.len(),
{
    if i < words.len() - 1 {
        lemma_resplit_fails(words.drop_last(), i);
    }
}

/// The words of a condition: cut at white space, every round bracket a word
/// of its own.
pub fn preprocess_conditions(conditions: &Vec<char>) -> (words: Vec<Vec<char>>)
    ensures
        char_views(words@) == bracket_words(conditions@),
{
    bracket_words_of(conditions)
}

} // verus!
