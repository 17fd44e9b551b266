//! Cutting a statement into its parts by the position of its key words.
//!
//! A key word is found wherever its letters stand, also inside a name or a
//! value.

use crate::errors::tperrors::{syntax, ErrorKind, Tperrors};
use crate::extractors::sqlcommand::SQLCommand;
use crate::extractors::values::{
    all_values, lemma_all_values_fail, names, names_of, parse_values, value_sets,
    value_sets_from, values_of,
};
use crate::sorter::sort::SortMethod;
use crate::text::splitting::{split, split_on, words, words_of};
use crate::text::trimming::{trim, trimmed, trimmed_slice, unquoted, without_quotes};
use crate::text::{
    byte_offset, bytes_before, char_views, chars_of, count_char, find, find_word, grid_views,
    is_word, odd_count, slice, string_of, views,
};
use vstd::prelude::*;

verus! {

/// Cuts statements into their parts.
pub struct Extractor;

/// The index that a search found, or zero if it found none.
pub open spec fn or_zero(found: Option<int>) -> int {
    match found {
        Some(i) => i,
        None => 0,
    }
}

/// The columns that a `SELECT` asks for: the names between `SELECT` and the
/// first `FROM`. `None` if there is no `FROM` behind the first six characters.
pub open spec fn select_columns(query: Seq<char>) -> Option<Seq<Seq<char>>> {
    let q = trim(query);
    match find(q, "FROM"@) {
        None => None,
        Some(from) => if from < 6 {
            None
        } else {
            Some(names(trim(q.subrange(6, from))))
        },
    }
}

/// The columns and the rows of values of an `INSERT`.
///
/// The columns stand between the first `(` and the first `)`. Each bracketed
/// set after `VALUES` is one row, and must hold a value for every column.
/// `None` if a bracket or `VALUES` is missing, the first `)` does not stand
/// behind the first `(`, the single quotes do not pair, a set is not closed,
/// there is no set, or a set has too few or too many values.
pub open spec fn insert_parts(query: Seq<char>) -> Option<(Seq<Seq<char>>, Seq<Seq<Seq<char>>>)> {
    if find(query, "("@) is None || find(query, ")"@) is None || find(query, "VALUES"@) is None {
        None
    } else if count_char(query, '\'') % 2 == 1 {
        None
    } else if find(query, ")"@)->0 <= find(query, "("@)->0 {
        None
    } else {
        let columns = names(query.subrange(find(query, "("@)->0 + 1, find(query, ")"@)->0));
        match value_sets_from(query, find(query, "VALUES"@)->0 + 6) {
            None => None,
            Some(sets) => if sets.len() == 0 {
                None
            } else {
                match all_values(sets, columns.len()) {
                    None => None,
                    Some(rows) => Some((columns, rows)),
                }
            },
        }
    }
}

/// One assignment of an `UPDATE`: the column before the `=` and the value
/// after it. `None` unless the text holds exactly one `=`.
pub open spec fn assignment(item: Seq<char>) -> Option<(Seq<char>, Seq<char>)> {
    let parts = split(trim(item), '=');
    if parts.len() != 2 {
        None
    } else {
        Some((unquoted(parts[0]), unquoted(parts[1])))
    }
}

/// The columns and the values of a list of assignments.
pub open spec fn assignments(items: Seq<Seq<char>>) -> Option<(Seq<Seq<char>>, Seq<Seq<char>>)>
    decreases items.len(),
{
    if items.len() == 0 {
        Some((Seq::empty(), Seq::empty()))
    } else {
        match (assignments(items.drop_last()), assignment(items.last())) {
            (Some((columns, values)), Some((column, value))) => Some(
                (columns.push(column), values.push(value)),
            ),
            _ => None,
        }
    }
}

/// The columns and the values that an `UPDATE` sets.
///
/// The assignments stand between `SET` and `WHERE`, or between `SET` and the
/// last character of the statement if there is no `WHERE`. `None` if `SET` is
/// missing, the assignments would end before they start, the single quotes do
/// not pair, or an assignment does not hold exactly one `=`.
pub open spec fn update_parts(query: Seq<char>) -> Option<(Seq<Seq<char>>, Seq<Seq<char>>)> {
    match find(query, "SET"@) {
        None => None,
        Some(set) => {
            let end = match find(query, "WHERE"@) {
                Some(at) => at,
                None => query.len() - 1,
            };
            if count_char(query, '\'') % 2 == 1 {
                None
            } else if end < set + 3 {
                None
            } else {
                assignments(split(trim(query.subrange(set + 3, end)), ','))
            }
        },
    }
}

/// Where the table's name stands in the statement `q`, counted in
/// characters: the index of the key word before the name, the length of that
/// key word, and the index where the name ends. A key word that is missing
/// counts as found at index zero.
pub open spec fn char_positions(q: Seq<char>, command: SQLCommand) -> (int, int, int) {
    let start = match command {
        SQLCommand::Select => or_zero(find(q, "FROM"@)),
        SQLCommand::Delete => or_zero(find(q, "FROM"@)),
        SQLCommand::Insert => or_zero(find(q, "INTO"@)),
        SQLCommand::Update => or_zero(find(q, "UPDATE"@)),
    };
    let offset = match command {
        SQLCommand::Update => 6int,
        _ => 4int,
    };
    let end = match command {
        SQLCommand::Select => match find(q, "WHERE"@) {
            Some(at) => at,
            None => match find(q, "ORDER"@) {
                Some(at) => at,
                None => or_zero(find(q, ";"@)),
            },
        },
        SQLCommand::Insert => if or_zero(find(q, "("@)) < or_zero(find(q, "VALUES"@)) {
            or_zero(find(q, "("@))
        } else {
            or_zero(find(q, "VALUES"@))
        },
        SQLCommand::Update => or_zero(find(q, "SET"@)),
        SQLCommand::Delete => match find(q, "WHERE"@) {
            Some(at) => at,
            None => or_zero(find(q, ";"@)),
        },
    };
    (start, offset, end)
}

/// Where the table's name stands in a statement without the white space
/// around it, counted in bytes of UTF-8: the index of the key word before the
/// name, the length of that key word, and the index where the name ends. A
/// key word that is missing counts as found at index zero.
pub open spec fn positions(query: Seq<char>, command: SQLCommand) -> (int, int, int) {
    let (start, offset, end) = char_positions(trim(query), command);
    (byte_offset(trim(query), start), offset, byte_offset(trim(query), end))
}

/// The name of the table that a statement is about. `None` if the start and
/// the end of the name are both zero, or the name would end before it starts.
pub open spec fn table_name(query: Seq<char>, command: SQLCommand) -> Option<Seq<char>> {
    let (start, offset, end) = char_positions(trim(query), command);
    if start == 0 && end == 0 {
        None
    } else if start + offset > end {
        None
    } else {
        Some(trim(trim(query).subrange(start + offset, end)))
    }
}

/// The condition of a statement: what stands between `WHERE` and the first
/// `ORDER` or, if there is no `ORDER`, the first semicolon.
pub open spec fn condition_of(query: Seq<char>) -> Option<Seq<char>> {
    let q = trim(query);
    match find(q, "WHERE"@) {
        None => None,
        Some(at) => {
            let end = match find(q, "ORDER"@) {
                Some(end) => Some(end),
                None => find(q, ";"@),
            };
            match end {
                None => None,
                Some(end) => if end < at + 5 {
                    None
                } else {
                    Some(trim(q.subrange(at + 5, end)))
                },
            }
        },
    }
}

/// The sort clause of a statement: what stands between `ORDER BY` and the
/// first semicolon.
pub open spec fn order_by_of(query: Seq<char>) -> Option<Seq<char>> {
    let q = trim(query);
    match find(q, "ORDER BY"@) {
        None => None,
        Some(at) => match find(q, ";"@) {
            None => None,
            Some(end) => if end < at + 8 {
                None
            } else {
                Some(trim(q.subrange(at + 8, end)))
            },
        },
    }
}

/// One sort key: the first word names the column, and the key is descending
/// exactly if there are two words and the second is `DESC`. A key without a
/// word names the empty column.
pub open spec fn sort_key(part: Seq<char>) -> (Seq<char>, bool) {
    let w = words(part);
    (
        if w.len() > 0 {
            w[0]
        } else {
            Seq::empty()
        },
        !(w.len() == 2 && w[1] == "DESC"@),
    )
}

/// The sort keys of a sort clause, one for each comma-separated part.
pub open spec fn sort_methods(clause: Seq<char>) -> Seq<(Seq<char>, bool)> {
    Seq::new(split(clause, ',').len(), |i: int| sort_key(split(clause, ',')[i]))
}

/// An assignment that fails makes the whole list fail.
pub proof fn lemma_assignments_fail(items: Seq<Seq<char>>, k: int)
    requires
        0 <= k < items.len(),
        assignment(items[k]) is None,
    ensures
        assignments(items) is None,
    decreases items.len(),
{
    if k < items.len() - 1 {
        lemma_assignments_fail(items.drop_last(), k);
    }
}

impl Default for Extractor {
    fn default() -> (e: Extractor)
        ensures
            e == Extractor,
    {
        Extractor::new()
    }
}

impl Extractor {
    /// An extractor.
    pub fn new() -> (e: Extractor)
        ensures
            e == Extractor,
    {
        Extractor
    }

    /// The columns that a `SELECT` asks for.
    ///
    /// Fails with a syntax error exactly when there is no `FROM` behind the
    /// first six characters of the statement.
    pub fn extract_columns_for_select(&self, query: &str) -> (r: Result<Vec<String>, Tperrors>)
        ensures
            match r {
                Ok(columns) => select_columns(query@) == Some(views(columns@)),
                Err(e) => select_columns(query@) is None && e.kind_of() == ErrorKind::Syntax,
            },
    {
        let q = trimmed(&chars_of(query));
        match find_word(&q, "FROM") {
            Some(from) => {
                if from < 6 {
                    return Err(syntax("Invalid select query (Missing SELECT)"));
                }
                Ok(names_of(&trimmed_slice(&q, 6, from)))
            },
            None => Err(syntax("Invalid select query (Missing FROM)")),
        }
    }

    /// The columns and the rows of values of an `INSERT`.
    ///
    /// Fails with a syntax error exactly when `insert_parts` gives nothing.
    #[verifier::loop_isolation(false)]
    pub fn extract_columns_and_values_for_insert(&self, query: &str) -> (r: Result<
        (Vec<String>, Vec<Vec<String>>),
        Tperrors,
    >)
        ensures
            match r {
                Ok((columns, values)) => insert_parts(query@) == Some(
                    (views(columns@), grid_views(values@)),
                ),
                Err(e) => insert_parts(query@) is None && e.kind_of() == ErrorKind::Syntax,
            },
    {
        let q = chars_of(query);
        let (start, end, values_at) = match (
            find_word(&q, "("),
            find_word(&q, ")"),
            find_word(&q, "VALUES"),
        ) {
            (Some(start), Some(end), Some(values_at)) => (start, end, values_at),
            _ => {
                return Err(syntax("Invalid INSERT query (Missing columns)"));
            },
        };
        if odd_count(&q, '\'') {
            return Err(syntax("Invalid INSERT query (Unbalanced single quotes)"));
        }
        if end <= start {
            return Err(syntax("Invalid INSERT query (Missing columns)"));
        }
        let columns = names_of(&slice(&q, start + 1, end));
        proof {
            reveal_strlit("VALUES");
        }
        let sets = match value_sets(&q, values_at + 6) {
            Some(sets) => sets,
            None => {
                return Err(syntax("Invalid INSERT query (Mismatched parentheses in values)"));
            },
        };
        assert(char_views(sets@).len() == sets.len());
        if sets.len() == 0 {
            return Err(syntax("Invalid INSERT query (No values found)"));
        }
        let ghost all = char_views(sets@);
        let ghost width = views(columns@).len();
        let mut values: Vec<Vec<String>> = Vec::new();
        let mut i: usize = 0;
        assert(grid_views(values@) =~= Seq::empty());
        while i < sets.len()
            invariant
                i <= sets.len(),
                all == char_views(sets@),
                width == columns.len(),
                all_values(all.take(i as int), width) == Some(grid_views(values@)),
            decreases sets.len() - i,
        {
            assert(all.take(i + 1).drop_last() == all.take(i as int));
            assert(all.take(i + 1).last() == sets[i as int]@);
            let row = parse_values(&sets[i]);
            assert(views(row@).len() == row.len());
            if row.len() != columns.len() {
                proof {
                    lemma_all_values_fail(all, width, i as int);
                }
                return Err(syntax("Invalid INSERT query (Columns and values count mismatch)"));
            }
            let ghost before = grid_views(values@);
            values.push(row);
            assert(grid_views(values@) =~= before.push(values_of(sets[i as int]@)));
            i += 1;
        }
        assert(all.take(sets.len() as int) == all);
        Ok((columns, values))
    }

    /// The columns and the values that an `UPDATE` sets.
    ///
    /// Fails with a syntax error exactly when `update_parts` gives nothing.
    #[verifier::loop_isolation(false)]
    pub fn extract_columns_and_values_for_update(&self, query: &str) -> (r: Result<
        (Vec<String>, Vec<String>),
        Tperrors,
    >)
        ensures
            match r {
                Ok((columns, values)) => update_parts(query@) == Some(
                    (views(columns@), views(values@)),
                ),
                Err(e) => update_parts(query@) is None && e.kind_of() == ErrorKind::Syntax,
            },
    {
        let q = chars_of(query);
        let set = match find_word(&q, "SET") {
            Some(set) => set,
            None => {
                return Err(syntax("Invalid UPDATE query (Missing SET or WHERE)"));
            },
        };
        proof {
            reveal_strlit("SET");
        }
        let end: usize = match find_word(&q, "WHERE") {
            Some(at) => at,
            None => q.len() - 1,
        };
        if odd_count(&q, '\'') {
            return Err(syntax("Invalid UPDATE query (Unbalanced single quotes)"));
        }
        if end < set + 3 {
            return Err(syntax("Invalid UPDATE query (Missing SET or WHERE)"));
        }
        let items = split_on(&trimmed_slice(&q, set + 3, end), ',');
        let ghost all = char_views(items@);
        let mut columns: Vec<String> = Vec::new();
        let mut values: Vec<String> = Vec::new();
        let mut i: usize = 0;
        assert(views(columns@) =~= Seq::empty());
        assert(views(values@) =~= Seq::empty());
        while i < items.len()
            invariant
                i <= items.len(),
                all == char_views(items@),
                assignments(all.take(i as int)) == Some((views(columns@), views(values@))),
            decreases items.len() - i,
        {
            assert(all.take(i + 1).drop_last() == all.take(i as int));
            assert(all.take(i + 1).last() == items[i as int]@);
            let parts = split_on(&trimmed(&items[i]), '=');
            assert(char_views(parts@).len() == parts.len());
            if parts.len() != 2 {
                proof {
                    lemma_assignments_fail(all, i as int);
                }
                return Err(syntax("Invalid UPDATE query (Missing =)"));
            }
            assert(char_views(parts@)[0] == parts[0]@);
            assert(char_views(parts@)[1] == parts[1]@);
            let ghost columns_before = views(columns@);
            let ghost values_before = views(values@);
            columns.push(string_of(&without_quotes(&parts[0])));
            values.push(string_of(&without_quotes(&parts[1])));
            assert(views(columns@) =~= columns_before.push(unquoted(parts[0]@)));
            assert(views(values@) =~= values_before.push(unquoted(parts[1]@)));
            i += 1;
        }
        assert(all.take(items.len() as int) == all);
        Ok((columns, values))
    }

    /// The name of the table that a statement is about.
    ///
    /// Fails with a syntax error exactly when `table_name` gives nothing.
    pub fn extract_table(&self, query: &str, consult: SQLCommand) -> (r: Result<String, Tperrors>)
        ensures
            match r {
                Ok(name) => table_name(query@, consult) == Some(name@),
                Err(e) => table_name(query@, consult) is None && e.kind_of() == ErrorKind::Syntax,
            },
    {
        let q = trimmed(&chars_of(query));
        let (start, offset, end) = Self::find_positions(&q, consult);
        if start == 0 && end == 0 {
            return Err(syntax("Invalid query (Missing any KEY words on your consult)"));
        }
        if offset > end || start > end - offset {
            return Err(syntax("Invalid query (Missing any KEY words on your consult)"));
        }
        Ok(string_of(&trimmed_slice(&q, start + offset, end)))
    }

    /// Where the table's name stands in a statement, counted in bytes: the
    /// index of the key word before the name, the length of that key word, and
    /// the index where the name ends.
    pub fn extract_positions(&self, query: &str, consult: SQLCommand) -> (r: (usize, usize, usize))
        ensures
            positions(query@, consult) == (r.0 as int, r.1 as int, r.2 as int),
    {
        let q = trimmed(&chars_of(query));
        let (start, offset, end) = Self::find_positions(&q, consult);
        (bytes_before(&q, start), offset, bytes_before(&q, end))
    }

    /// Where the table's name stands in the statement `q`, counted in
    /// characters.
    fn find_positions(q: &Vec<char>, consult: SQLCommand) -> (r: (usize, usize, usize))
        ensures
            char_positions(q@, consult) == (r.0 as int, r.1 as int, r.2 as int),
            r.0 <= q.len(),
            r.2 <= q.len(),
    {
        let start: usize = match consult {
            SQLCommand::Select => Self::position_or_zero(find_word(&q, "FROM")),
            SQLCommand::Delete => Self::position_or_zero(find_word(&q, "FROM")),
            SQLCommand::Insert => Self::position_or_zero(find_word(&q, "INTO")),
            SQLCommand::Update => Self::position_or_zero(find_word(&q, "UPDATE")),
        };
        let offset: usize = match consult {
            SQLCommand::Update => 6,
            _ => 4,
        };
        let end: usize = match consult {
            SQLCommand::Select => match find_word(&q, "WHERE") {
                Some(at) => at,
                None => match find_word(&q, "ORDER") {
                    Some(at) => at,
                    None => Self::position_or_zero(find_word(&q, ";")),
                },
            },
            SQLCommand::Insert => {
                let possible_end = Self::position_or_zero(find_word(&q, "("));
                let values_start = Self::position_or_zero(find_word(&q, "VALUES"));
                if possible_end < values_start {
                    possible_end
                } else {
                    values_start
                }
            },
            SQLCommand::Update => Self::position_or_zero(find_word(&q, "SET")),
            SQLCommand::Delete => match find_word(&q, "WHERE") {
                Some(at) => at,
                None => Self::position_or_zero(find_word(&q, ";")),
            },
        };
        (start, offset, end)
    }

    fn position_or_zero(found: Option<usize>) -> (at: usize)
        ensures
            at == match found {
                Some(i) => i,
                None => 0,
            },
    {
        match found {
            Some(i) => i,
            None => 0,
        }
    }

    /// The condition of a statement, if it has one.
    pub fn extract_as_str_conditions(&self, query: &str) -> (r: Option<String>)
        ensures
            match r {
                Some(text) => condition_of(query@) == Some(text@),
                None => condition_of(query@) is None,
            },
    {
        let q = trimmed(&chars_of(query));
        let at = match find_word(&q, "WHERE") {
            Some(at) => at,
            None => {
                return None;
            },
        };
        let end = match find_word(&q, "ORDER") {
            Some(end) => end,
            None => match find_word(&q, ";") {
                Some(end) => end,
                None => {
                    return None;
                },
            },
        };
        proof {
            reveal_strlit("WHERE");
        }
        if end < at + 5 {
            return None;
        }
        Some(string_of(&trimmed_slice(&q, at + 5, end)))
    }

    /// The sort clause of a statement, if it has one.
    pub fn extract_orderby_as_str(&self, query: &str) -> (r: Option<String>)
        ensures
            match r {
                Some(text) => order_by_of(query@) == Some(text@),
                None => order_by_of(query@) is None,
            },
    {
        let q = trimmed(&chars_of(query));
        let at = match find_word(&q, "ORDER BY") {
            Some(at) => at,
            None => {
                return None;
            },
        };
        let end = match find_word(&q, ";") {
            Some(end) => end,
            None => {
                return None;
            },
        };
        proof {
            reveal_strlit("ORDER BY");
        }
        if end < at + 8 {
            return None;
        }
        Some(string_of(&trimmed_slice(&q, at + 8, end)))
    }

    /// The sort keys of a sort clause.
    pub fn parser_orderby_from_str_to_vec(&self, str_orderby: &str) -> (keys: Vec<SortMethod>)
        ensures
            keys.len() == sort_methods(str_orderby@).len(),
            forall|i: int| 0 <= i < keys.len() ==> (#[trigger] keys[i])@ == sort_methods(
                str_orderby@,
            )[i],
    {
        let parts = split_on(&chars_of(str_orderby), ',');
        let mut keys: Vec<SortMethod> = Vec::new();
        let mut i: usize = 0;
        while i < parts.len()
            invariant
                i <= parts.len(),
                keys.len() == i,
                char_views(parts@) == split(str_orderby@, ','),
                forall|k: int| 0 <= k < i ==> (#[trigger] keys[k])@ == sort_key(parts[k]@),
            decreases parts.len() - i,
        {
            let w = words_of(&parts[i]);
            assert(char_views(w@).len() == w.len());
            let by_column = if w.len() > 0 {
                assert(char_views(w@)[0] == w[0]@);
                string_of(&w[0])
            } else {
                String::new()
            };
            let descending = if w.len() == 2 {
                assert(char_views(w@)[1] == w[1]@);
                is_word(&w[1], "DESC")
            } else {
                false
            };
            keys.push(SortMethod { by_column, ascending: !descending });
            i += 1;
        }
        assert forall|k: int| 0 <= k < keys.len() implies (#[trigger] keys[k])@ == sort_methods(
            str_orderby@,
        )[k] by {
            assert(char_views(parts@)[k] == parts[k]@);
        }
        keys
    }
}

} // verus!
