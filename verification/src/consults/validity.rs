//! The outer shape that every statement must have.

use crate::text::trimming::{trim, trimmed};
use crate::text::{chars_of, contains, find_word, matches_at, starts_with};
use vstd::prelude::*;

verus! {

/// Whether a statement has the shape of its kind: once white space around it
/// is removed it starts with `first`, holds `second` somewhere, and ends with
/// a semicolon.
pub open spec fn well_shaped(query: Seq<char>, first: Seq<char>, second: Seq<char>) -> bool {
    let q = trim(query);
    starts_with(q, first) && contains(q, second) && q.len() > 0 && q.last() == ';'
}

/// Whether a statement has the shape of its kind.
pub fn has_shape(query: &str, first: &str, second: &str) -> (r: bool)
    ensures
        r == well_shaped(query@, first@, second@),
{
    let q = trimmed(&chars_of(query));
    let start = chars_of(first);
    if matches_at(&q, &start, 0) && find_word(&q, second).is_some() {
        q.len() > 0 && q[q.len() - 1] == ';'
    } else {
        false
    }
}

} // verus!
