//! Removing characters from the two ends of a text.

use crate::text::{is_space, is_whitespace, slice};
use vstd::prelude::*;

verus! {

/// Whether a trim removes `c`: white space where `what` is `None`, else the
/// character that `what` holds.
pub open spec fn trims(c: char, what: Option<char>) -> bool {
    match what {
        None => is_space(c),
        Some(w) => c == w,
    }
}

/// `s` without its longest prefix of characters that the trim removes.
pub open spec fn trim_start_with(s: Seq<char>, what: Option<char>) -> Seq<char>
    decreases s.len(),
{
    if s.len() > 0 && trims(s[0], what) {
        trim_start_with(s.drop_first(), what)
    } else {
        s
    }
}

/// `s` without its longest suffix of characters that the trim removes.
pub open spec fn trim_end_with(s: Seq<char>, what: Option<char>) -> Seq<char>
    decreases s.len(),
{
    if s.len() > 0 && trims(s.last(), what) {
        trim_end_with(s.drop_last(), what)
    } else {
        s
    }
}

/// `s` with the removable characters taken from both ends.
pub open spec fn trim_with(s: Seq<char>, what: Option<char>) -> Seq<char> {
    trim_end_with(trim_start_with(s, what), what)
}

/// `s` without leading and trailing white space.
pub open spec fn trim(s: Seq<char>) -> Seq<char> {
    trim_with(s, None)
}

/// `s` without leading and trailing occurrences of `c`.
pub open spec fn trim_char(s: Seq<char>, c: char) -> Seq<char> {
    trim_with(s, Some(c))
}

/// A column or value as written in a statement: white space trimmed, then
/// single quotes, then double quotes.
pub open spec fn unquoted(s: Seq<char>) -> Seq<char> {
    trim_char(trim_char(trim(s), '\''), '"')
}

fn removes(c: char, what: Option<char>) -> (r: bool)
    ensures
        r == trims(c, what),
{
    match what {
        None => is_whitespace(c),
        Some(w) => c == w,
    }
}

/// The bounds of what a trim of `s[from..to]` keeps.
pub fn trim_bounds(s: &Vec<char>, from: usize, to: usize, what: Option<char>) -> (r: (
    usize,
    usize,
))
    requires
        from <= to <= s.len(),
    ensures
        from <= r.0 <= r.1 <= to,
        s@.subrange(r.0 as int, r.1 as int) == trim_with(
            s@.subrange(from as int, to as int),
            what,
        ),
{
    let mut a: usize = from;
    while a < to && removes(s[a], what)
        invariant
            from <= a <= to <= s.len(),
            trim_start_with(s@.subrange(from as int, to as int), what) == trim_start_with(
                s@.subrange(a as int, to as int),
                what,
            ),
        decreases to - a,
    {
        assert(s@.subrange(a as int, to as int).drop_first() == s@.subrange(a + 1, to as int));
        a += 1;
    }
    let mut b: usize = to;
    while b > a && removes(s[b - 1], what)
        invariant
            a <= b <= to <= s.len(),
            trim_end_with(s@.subrange(a as int, to as int), what) == trim_end_with(
                s@.subrange(a as int, b as int),
                what,
            ),
        decreases b - a,
    {
        assert(s@.subrange(a as int, b as int).drop_last() == s@.subrange(a as int, b - 1));
        b -= 1;
    }
    (a, b)
}

/// A copy of `s` with the removable characters taken from both ends.
pub fn trimmed_with(s: &Vec<char>, what: Option<char>) -> (out: Vec<char>)
    ensures
        out@ == trim_with(s@, what),
{
    let (a, b) = trim_bounds(s, 0, s.len(), what);
    assert(s@.subrange(0, s.len() as int) == s@);
    slice(s, a, b)
}

/// A copy of `s` without leading and trailing white space.
pub fn trimmed(s: &Vec<char>) -> (out: Vec<char>)
    ensures
        out@ == trim(s@),
{
    trimmed_with(s, None)
}

/// A copy of `s[from..to]` without leading and trailing white space.
pub fn trimmed_slice(s: &Vec<char>, from: usize, to: usize) -> (out: Vec<char>)
    requires
        from <= to <= s.len(),
    ensures
        out@ == trim(s@.subrange(from as int, to as int)),
{
    let (a, b) = trim_bounds(s, from, to, None);
    slice(s, a, b)
}

/// A column or value as written in a statement, freed of surrounding white
/// space and quotes.
pub fn without_quotes(s: &Vec<char>) -> (out: Vec<char>)
    ensures
        out@ == unquoted(s@),
{
    let a = trimmed(s);
    let b = trimmed_with(&a, Some('\''));
    trimmed_with(&b, Some('"'))
}

} // verus!
