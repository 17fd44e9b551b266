//! The value lists of an `INSERT`: the bracketed sets after `VALUES`, and the
//! values inside one set.

use crate::text::splitting::{split, split_on};
use crate::text::trimming::{trim, trimmed, trimmed_slice, unquoted, without_quotes};
use crate::text::{char_views, chars_of, find_from, find_in_from, lemma_find_from, string_of, views};
use vstd::prelude::*;

verus! {

/// The names or values of a comma-separated list, each freed of surrounding
/// white space and quotes.
pub open spec fn names(list: Seq<char>) -> Seq<Seq<char>> {
    Seq::new(split(list, ',').len(), |i: int| unquoted(split(list, ',')[i]))
}

/// The names or values of a comma-separated list.
pub fn names_of(list: &Vec<char>) -> (out: Vec<String>)
    ensures
        views(out@) == names(list@),
{
    let pieces = split_on(list, ',');
    let mut out: Vec<String> = Vec::new();
    let mut i: usize = 0;
    while i < pieces.len()
        invariant
            i <= pieces.len(),
            out.len() == i,
            char_views(pieces@) == split(list@, ','),
            forall|k: int| 0 <= k < i ==> (#[trigger] out[k])@ == unquoted(pieces[k]@),
        decreases pieces.len() - i,
    {
        out.push(string_of(&without_quotes(&pieces[i])));
        i += 1;
    }
    assert(views(out@) =~= names(list@)) by {
        assert forall|k: int| 0 <= k < out.len() implies views(out@)[k] == names(list@)[k] by {
            assert(char_views(pieces@)[k] == pieces[k]@);
        }
    }
    out
}

/// The texts between each `(` at or after `from` and the `)` that follows it,
/// white space around them removed. `None` if a `(` is not closed.
pub open spec fn value_sets_from(s: Seq<char>, from: int) -> Option<Seq<Seq<char>>>
    decreases s.len() - from,
{
    match find_from(s, "("@, from) {
        None => Some(Seq::empty()),
        Some(open) => match find_from(s, ")"@, open) {
            None => None,
            Some(close) => if from <= open < close < s.len() {
                match value_sets_from(s, close + 1) {
                    None => None,
                    Some(rest) => Some(seq![trim(s.subrange(open + 1, close))] + rest),
                }
            } else {
                None
            },
        },
    }
}

/// The bracketed sets of `s` at or after `from`.
pub fn value_sets(s: &Vec<char>, from: usize) -> (r: Option<Vec<Vec<char>>>)
    requires
        from <= s.len(),
    ensures
        match r {
            Some(sets) => value_sets_from(s@, from as int) == Some(char_views(sets@)),
            None => value_sets_from(s@, from as int) is None,
        },
{
    let open_word = chars_of("(");
    let close_word = chars_of(")");
    let mut sets: Vec<Vec<char>> = Vec::new();
    let mut at: usize = from;
    let mut searching = true;
    proof {
        reveal_strlit("(");
        reveal_strlit(")");
        assert(char_views(sets@) =~= Seq::empty());
        match value_sets_from(s@, from as int) {
            Some(rest) => {
                assert(char_views(sets@) + rest =~= rest);
            },
            None => {},
        }
    }
    while searching
        invariant
            from <= at <= s.len(),
            open_word@ == "("@,
            close_word@ == ")"@,
            "("@.len() == 1,
            ")"@.len() == 1,
            "("@[0] == '(',
            ")"@[0] == ')',
            value_sets_from(s@, from as int) == match value_sets_from(s@, at as int) {
                Some(rest) => Some(char_views(sets@) + rest),
                None => None,
            },
            !searching ==> value_sets_from(s@, at as int) == Some(Seq::<Seq<char>>::empty()),
        decreases
                s.len() - at + if searching {
                    1int
                } else {
                    0int
                },
    {
        match find_in_from(s, &open_word, at) {
            None => {
                searching = false;
            },
            Some(open) => match find_in_from(s, &close_word, open) {
                None => {
                    return None;
                },
                Some(close) => {
                    proof {
                        lemma_find_from(s@, "("@, at as int);
                        lemma_find_from(s@, ")"@, open as int);
                        assert(s@.subrange(open as int, open + 1)[0] == '(');
                        assert(s@.subrange(close as int, close + 1)[0] == ')');
                    }
                    let ghost before = char_views(sets@);
                    sets.push(trimmed_slice(s, open + 1, close));
                    proof {
                        let one = trim(s@.subrange(open + 1, close as int));
                        assert(char_views(sets@) =~= before + seq![one]);
                        match value_sets_from(s@, close + 1) {
                            Some(rest) => {
                                assert(before + (seq![one] + rest) =~= char_views(sets@) + rest);
                            },
                            None => {},
                        }
                    }
                    at = close + 1;
                },
            },
        }
    }
    proof {
        assert(char_views(sets@) + Seq::<Seq<char>>::empty() =~= char_views(sets@));
    }
    Some(sets)
}

/// Where the reading of one value set stands: the values closed so far, the
/// value being read, and whether and in which quote the reading is.
pub struct Reading {
    pub done: Seq<Seq<char>>,
    pub current: Seq<char>,
    pub quoted: bool,
    pub quote: char,
}

/// Reading a value set from the left. A quote opens a quoted stretch, which
/// the same quote closes; the other quote inside it is an ordinary character.
/// A comma outside quotes closes a value, which is kept without the white
/// space around it. Quotes that open or close are not part of a value.
pub open spec fn read_values(set: Seq<char>) -> Reading
    decreases set.len(),
{
    if set.len() == 0 {
        Reading { done: Seq::empty(), current: Seq::empty(), quoted: false, quote: ' ' }
    } else {
        let before = read_values(set.drop_last());
        let c = set.last();
        if c == '\'' || c == '"' {
            if before.quoted {
                if c == before.quote {
                    Reading { quoted: false, ..before }
                } else {
                    Reading { current: before.current.push(c), ..before }
                }
            } else {
                Reading { quoted: true, quote: c, ..before }
            }
        } else if c == ',' && !before.quoted {
            Reading { done: before.done.push(trim(before.current)), current: Seq::empty(), ..before }
        } else {
            Reading { current: before.current.push(c), ..before }
        }
    }
}

/// The values of one value set. What stands after the last comma is a value
/// unless it is empty.
pub open spec fn values_of(set: Seq<char>) -> Seq<Seq<char>> {
    let end = read_values(set);
    if end.current.len() > 0 {
        end.done.push(trim(end.current))
    } else {
        end.done
    }
}

/// The values of one value set.
pub fn parse_values(set: &Vec<char>) -> (out: Vec<String>)
    ensures
        views(out@) == values_of(set@),
{
    let mut out: Vec<String> = Vec::new();
    let mut current: Vec<char> = Vec::new();
    let mut in_quotes = false;
    let mut quote_char = ' ';
    let mut i: usize = 0;
    assert(views(out@) =~= Seq::empty());
    while i < set.len()
        invariant
            i <= set.len(),
            read_values(set@.take(i as int)) == (Reading {
                done: views(out@),
                current: current@,
                quoted: in_quotes,
                quote: quote_char,
            }),
        decreases set.len() - i,
    {
        assert(set@.take(i + 1).drop_last() == set@.take(i as int));
        let c = set[i];
        let ghost before = views(out@);
        if c == '\'' || c == '"' {
            if in_quotes {
                if c == quote_char {
                    in_quotes = false;
                } else {
                    current.push(c);
                }
            } else {
                in_quotes = true;
                quote_char = c;
            }
        } else if c == ',' && !in_quotes {
            out.push(string_of(&trimmed(&current)));
            assert(views(out@) =~= before.push(trim(current@)));
            current = Vec::new();
        } else {
            current.push(c);
        }
        i += 1;
    }
    assert(set@.take(set.len() as int) == set@);
    if current.len() > 0 {
        let ghost before = views(out@);
        out.push(string_of(&trimmed(&current)));
        assert(views(out@) =~= before.push(trim(current@)));
    }
    out
}

/// The values of each of `sets`, or `None` if one of the sets does not hold
/// `width` values.
pub open spec fn all_values(sets: Seq<Seq<char>>, width: nat) -> Option<Seq<Seq<Seq<char>>>>
    decreases sets.len(),
{
    if sets.len() == 0 {
        Some(Seq::empty())
    } else {
        match all_values(sets.drop_last(), width) {
            None => None,
            Some(before) => if values_of(sets.last()).len() == width {
                Some(before.push(values_of(sets.last())))
            } else {
                None
            },
        }
    }
}

/// A set of the wrong width makes the whole list fail.
pub proof fn lemma_all_values_fail(sets: Seq<Seq<char>>, width: nat, k: int)
    requires
        0 <= k < sets.len(),
        values_of(sets[k]).len() != width,
    ensures
        all_values(sets, width) is None,
    decreases sets.len(),
{
    if k < sets.len() - 1 {
        lemma_all_values_fail(sets.drop_last(), width, k);
    }
}

} // verus!
