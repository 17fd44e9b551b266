//! What a `SELECT` gives: the rows that meet the condition, sorted, and cut
//! down to the requested columns in the requested order.

use crate::errors::tperrors::{ErrorKind, Tperrors};
use crate::handler_tables::rows::{find_index, index_of, row_selected, selected};
use crate::sorter::arrange::{copy_row, grid_of, keys_fit, keys_of, sort_rows};
use crate::sorter::sort::SortMethod;
use crate::text::splitting::{lines, split, split_on};
use crate::text::{char_views, chars_of, is_word, string_of, views};
use vstd::prelude::*;

verus! {

/// The column names of a table: the fields of its first line. A table
/// without a line has no header.
pub open spec fn header_of(text: Seq<char>) -> Option<Seq<Seq<char>>> {
    if lines(text).len() == 0 {
        None
    } else {
        Some(split(lines(text)[0], ','))
    }
}

/// The rows of a table: the fields of each line after the first.
pub open spec fn body_of(text: Seq<char>) -> Seq<Seq<Seq<char>>> {
    Seq::new((lines(text).len() - 1) as nat, |i: int| split(lines(text)[i + 1], ','))
}

/// The header index of each of `columns`, or `None` if the header lacks one.
pub open spec fn resolve_columns(header: Seq<Seq<char>>, columns: Seq<Seq<char>>) -> Option<
    Seq<int>,
>
    decreases columns.len(),
{
    if columns.len() == 0 {
        Some(Seq::empty())
    } else {
        match (resolve_columns(header, columns.drop_last()), index_of(header, columns.last())) {
            (Some(before), Some(i)) => Some(before.push(i)),
            _ => None,
        }
    }
}

/// Whether `columns` asks for every column: the single name `*`.
pub open spec fn is_wildcard(columns: Seq<Seq<char>>) -> bool {
    columns.len() == 1 && columns[0] == "*"@
}

/// The header indices that a `SELECT` of `columns` asks for, in the order
/// asked; all of them, in header order, for the wildcard.
pub open spec fn requested(header: Seq<Seq<char>>, columns: Seq<Seq<char>>) -> Option<Seq<int>> {
    if is_wildcard(columns) {
        Some(Seq::new(header.len(), |i: int| i))
    } else {
        resolve_columns(header, columns)
    }
}

/// The rows among `rows` that the statement applies to, in their order.
pub open spec fn chosen_rows(
    header: Seq<Seq<char>>,
    rows: Seq<Seq<Seq<char>>>,
    condition: Option<Seq<char>>,
) -> Result<Seq<Seq<Seq<char>>>, ErrorKind>
    decreases rows.len(),
{
    if rows.len() == 0 {
        Ok(Seq::empty())
    } else {
        match chosen_rows(header, rows.drop_last(), condition) {
            Err(e) => Err(e),
            Ok(kept) => match selected(header, rows.last(), condition) {
                Err(e) => Err(e),
                Ok(false) => Ok(kept),
                Ok(true) => Ok(kept.push(rows.last())),
            },
        }
    }
}

/// The sort keys by header index, or `None` if the header lacks a key's
/// column.
pub open spec fn sort_keys(header: Seq<Seq<char>>, methods: Seq<(Seq<char>, bool)>) -> Option<
    Seq<(int, bool)>,
>
    decreases methods.len(),
{
    if methods.len() == 0 {
        Some(Seq::empty())
    } else {
        match (sort_keys(header, methods.drop_last()), index_of(header, methods.last().0)) {
            (Some(before), Some(i)) => Some(before.push((i, methods.last().1))),
            _ => None,
        }
    }
}

/// The fields of `row` at the indices `wanted`, in the order of `wanted`.
pub open spec fn project(row: Seq<Seq<char>>, wanted: Seq<int>) -> Seq<Seq<char>> {
    Seq::new(wanted.len(), |i: int| row[wanted[i]])
}

/// The projected header, then each of `rows` projected.
pub open spec fn projected(header: Seq<Seq<char>>, rows: Seq<Seq<Seq<char>>>, wanted: Seq<int>)
    -> Seq<Seq<Seq<char>>> {
    Seq::new(
        rows.len() + 1,
        |i: int|
            if i == 0 {
                project(header, wanted)
            } else {
                project(rows[i - 1], wanted)
            },
    )
}

/// The sort keys of an optional `ORDER BY`.
pub open spec fn sorting_of(sorting: Option<Vec<SortMethod>>) -> Option<Seq<(Seq<char>, bool)>> {
    match sorting {
        Some(methods) => Some(Seq::new(methods.len() as nat, |i: int| methods[i]@)),
        None => None,
    }
}

/// Whether every one of `rows` has a field at the column of every key.
pub open spec fn keys_reach(rows: Seq<Seq<Seq<char>>>, keys: Seq<(int, bool)>) -> bool {
    forall|r: int, k: int|
        0 <= r < rows.len() && 0 <= k < keys.len() ==> (#[trigger] keys[k]).0 < (
        #[trigger] rows[r]).len()
}

/// Whether every one of `rows` has a field at every index of `wanted`.
pub open spec fn columns_reach(rows: Seq<Seq<Seq<char>>>, wanted: Seq<int>) -> bool {
    forall|r: int, i: int|
        0 <= r < rows.len() && 0 <= i < wanted.len() ==> (#[trigger] wanted[i]) < (
        #[trigger] rows[r]).len()
}

/// The rows to show, cut down to the requested columns under the projected
/// header. It is a generic error if a row has no field at a requested column.
pub open spec fn shown(header: Seq<Seq<char>>, rows: Seq<Seq<Seq<char>>>, wanted: Seq<int>)
    -> Result<Seq<Seq<Seq<char>>>, ErrorKind> {
    if columns_reach(rows, wanted) {
        Ok(projected(header, rows, wanted))
    } else {
        Err(ErrorKind::Generic)
    }
}

/// What a `SELECT` gives on a table with the text `text`.
///
/// A table without a header, a requested column that the header lacks and a
/// sort key that the header lacks are column errors. A row that the statement
/// cannot be decided for is a generic error. So is a row that is kept and has
/// no field at a requested column, or at the column of a sort key where there
/// are two rows or more to sort. A row that is only shorter than the header
/// is no error. The rows are chosen before the sort keys are looked up, and
/// sorted before they are cut down.
pub open spec fn select(
    text: Seq<char>,
    columns: Seq<Seq<char>>,
    condition: Option<Seq<char>>,
    sorting: Option<Seq<(Seq<char>, bool)>>,
) -> Result<Seq<Seq<Seq<char>>>, ErrorKind> {
    match header_of(text) {
        None => Err(ErrorKind::Column),
        Some(header) => match requested(header, columns) {
            None => Err(ErrorKind::Column),
            Some(wanted) => match chosen_rows(header, body_of(text), condition) {
                Err(e) => Err(e),
                Ok(kept) => match sorting {
                    None => shown(header, kept, wanted),
                    Some(methods) => match sort_keys(header, methods) {
                        None => Err(ErrorKind::Column),
                        Some(keys) => if kept.len() >= 2 && !keys_reach(kept, keys) {
                            Err(ErrorKind::Generic)
                        } else {
                            shown(header, sort_rows(kept, keys), wanted)
                        },
                    },
                },
            },
        },
    }
}

/// Whether every index of `wanted` is an index of the header.
pub open spec fn indices_fit(wanted: Seq<usize>, width: int) -> bool {
    forall|i: int| 0 <= i < wanted.len() ==> (#[trigger] wanted[i]) < width
}

/// The indices as mathematical integers.
pub open spec fn indices_of(wanted: Seq<usize>) -> Seq<int> {
    Seq::new(wanted.len(), |i: int| wanted[i] as int)
}

/// The header indices that a `SELECT` of `columns` asks for.
pub fn resolve_requested(header: &Vec<Vec<char>>, columns: &Vec<Vec<char>>) -> (r: Option<
    Vec<usize>,
>)
    ensures
        match r {
            Some(wanted) => requested(char_views(header@), char_views(columns@)) == Some(
                indices_of(wanted@),
            ) && indices_fit(wanted@, header.len() as int),
            None => requested(char_views(header@), char_views(columns@)) is None,
        },
{
    let mut wanted: Vec<usize> = Vec::new();
    assert(char_views(columns@).len() == columns.len());
    if columns.len() == 1 && is_word(&columns[0], "*") {
        let mut i: usize = 0;
        while i < header.len()
            invariant
                i <= header.len(),
                wanted.len() == i,
                forall|k: int| 0 <= k < i ==> wanted[k] == k,
            decreases header.len() - i,
        {
            wanted.push(i);
            i += 1;
        }
        assert(indices_of(wanted@) =~= Seq::new(header.len() as nat, |i: int| i));
        return Some(wanted);
    }
    let ghost names = char_views(columns@);
    let mut k: usize = 0;
    while k < columns.len()
        invariant
            k <= columns.len(),
            names == char_views(columns@),
            !is_wildcard(names),
            resolve_columns(char_views(header@), names.take(k as int)) == Some(
                indices_of(wanted@),
            ),
            indices_fit(wanted@, header.len() as int),
        decreases columns.len() - k,
    {
        assert(names.take(k + 1).drop_last() == names.take(k as int));
        assert(names.take(k + 1).last() == columns[k as int]@);
        match find_index(header, &columns[k]) {
            None => {
                proof {
                    lemma_resolve_fails(char_views(header@), names, k as int);
                }
                return None;
            },
            Some(i) => {
                let ghost before = indices_of(wanted@);
                wanted.push(i);
                assert(indices_of(wanted@) =~= before.push(i as int));
            },
        }
        k += 1;
    }
    assert(names.take(columns.len() as int) == names);
    Some(wanted)
}

/// A column that the header lacks makes the whole list fail.
pub proof fn lemma_resolve_fails(header: Seq<Seq<char>>, columns: Seq<Seq<char>>, k: int)
    requires
        0 <= k < columns.len(),
        index_of(header, columns[k]) is None,
    ensures
        resolve_columns(header, columns) is None,
    decreases columns.len(),
{
    if k < columns.len() - 1 {
        lemma_resolve_fails(header, columns.drop_last(), k);
    }
}

/// A sort key that the header lacks makes the whole list fail.
pub proof fn lemma_sort_keys_fail(
    header: Seq<Seq<char>>,
    methods: Seq<(Seq<char>, bool)>,
    k: int,
)
    requires
        0 <= k < methods.len(),
        index_of(header, methods[k].0) is None,
    ensures
        sort_keys(header, methods) is None,
    decreases methods.len(),
{
    if k < methods.len() - 1 {
        lemma_sort_keys_fail(header, methods.drop_last(), k);
    }
}

/// The sort keys by header index.
pub fn resolve_sort_keys(header: &Vec<Vec<char>>, methods: &Vec<SortMethod>) -> (r: Option<
    Vec<(usize, bool)>,
>)
    ensures
        match r {
            Some(keys) => sort_keys(char_views(header@), sorting_of(Some(*methods))->0) == Some(
                keys_of(keys@),
            ) && forall|k: int| 0 <= k < keys.len() ==> (#[trigger] keys[k]).0 < header.len(),
            None => sort_keys(char_views(header@), sorting_of(Some(*methods))->0) is None,
        },
{
    let ghost all = sorting_of(Some(*methods))->0;
    let mut keys: Vec<(usize, bool)> = Vec::new();
    let mut k: usize = 0;
    while k < methods.len()
        invariant
            k <= methods.len(),
            all == sorting_of(Some(*methods))->0,
            sort_keys(char_views(header@), all.take(k as int)) == Some(keys_of(keys@)),
            forall|j: int| 0 <= j < keys.len() ==> (#[trigger] keys[j]).0 < header.len(),
        decreases methods.len() - k,
    {
        assert(all.take(k + 1).drop_last() == all.take(k as int));
        assert(all.take(k + 1).last() == methods[k as int]@);
        let name = chars_of(methods[k].get_by_column().as_str());
        match find_index(header, &name) {
            None => {
                proof {
                    lemma_sort_keys_fail(char_views(header@), all, k as int);
                }
                return None;
            },
            Some(i) => {
                let ghost before = keys_of(keys@);
                keys.push((i, methods[k].is_ascending()));
                assert(keys_of(keys@) =~= before.push((i as int, methods[k as int].ascending)));
            },
        }
        k += 1;
    }
    assert(all.take(methods.len() as int) == all);
    Some(keys)
}

/// The fields of every line after the first.
pub fn body_rows(lines: &Vec<Vec<char>>) -> (rows: Vec<Vec<Vec<char>>>)
    requires
        lines.len() >= 1,
    ensures
        rows.len() == lines.len() - 1,
        grid_of(rows@) == Seq::new(
            (lines.len() - 1) as nat,
            |i: int| split(char_views(lines@)[i + 1], ','),
        ),
{
    let mut rows: Vec<Vec<Vec<char>>> = Vec::new();
    let mut i: usize = 1;
    while i < lines.len()
        invariant
            1 <= i <= lines.len(),
            rows.len() == i - 1,
            forall|k: int| 0 <= k < i - 1 ==> char_views(rows[k]@) == split(lines[k + 1]@, ','),
        decreases lines.len() - i,
    {
        rows.push(split_on(&lines[i], ','));
        i += 1;
    }
    assert(grid_of(rows@) =~= Seq::new(
        (lines.len() - 1) as nat,
        |i: int| split(char_views(lines@)[i + 1], ','),
    ));
    rows
}

/// The rows among `rows` that the statement applies to.
pub fn choose_rows(
    header: &Vec<Vec<char>>,
    rows: &Vec<Vec<Vec<char>>>,
    condition: Option<&str>,
) -> (r: Result<Vec<Vec<Vec<char>>>, Tperrors>)
    ensures
        match r {
            Ok(kept) => chosen_rows(
                char_views(header@),
                grid_of(rows@),
                crate::handler_tables::rows::condition_text(condition),
            ) == Ok::<Seq<Seq<Seq<char>>>, ErrorKind>(grid_of(kept@)),
            Err(e) => chosen_rows(
                char_views(header@),
                grid_of(rows@),
                crate::handler_tables::rows::condition_text(condition),
            ) == Err::<Seq<Seq<Seq<char>>>, ErrorKind>(e.kind_of()),
        },
{
    let ghost all = grid_of(rows@);
    let ghost names = char_views(header@);
    let ghost text = crate::handler_tables::rows::condition_text(condition);
    let mut kept: Vec<Vec<Vec<char>>> = Vec::new();
    let mut i: usize = 0;
    let n = rows.len();
    assert(all.take(0) =~= Seq::empty());
    assert(grid_of(kept@) =~= Seq::empty());
    while i < n
        invariant
            i <= n,
            n == rows.len(),
            all == grid_of(rows@),
            names == char_views(header@),
            text == crate::handler_tables::rows::condition_text(condition),
            chosen_rows(names, all.take(i as int), text) == Ok::<Seq<Seq<Seq<char>>>, ErrorKind>(
                grid_of(kept@),
            ),
        decreases n - i,
    {
        assert(all.take(i + 1).drop_last() == all.take(i as int));
        assert(all.take(i + 1).last() == all[i as int]);
        let row = copy_row(&rows[i]);
        assert(char_views(row@) == all[i as int]);
        match row_selected(header, &row, condition) {
            Err(e) => {
                proof {
                    lemma_chosen_fails(names, all, text, i as int);
                }
                return Err(e);
            },
            Ok(false) => {},
            Ok(true) => {
                let ghost before = grid_of(kept@);
                kept.push(row);
                assert(grid_of(kept@) =~= before.push(all[i as int]));
            },
        }
        i += 1;
    }
    assert(all.take(n as int) == all);
    Ok(kept)
}

/// A row that fails makes the whole choice fail with a generic error.
pub proof fn lemma_chosen_fails(
    header: Seq<Seq<char>>,
    rows: Seq<Seq<Seq<char>>>,
    condition: Option<Seq<char>>,
    k: int,
)
    requires
        0 <= k < rows.len(),
        chosen_rows(header, rows.take(k), condition) is Ok,
        selected(header, rows[k], condition) is Err,
    ensures
        chosen_rows(header, rows, condition) == Err::<Seq<Seq<Seq<char>>>, ErrorKind>(
            ErrorKind::Generic,
        ),
    decreases rows.len(),
{
    if k < rows.len() - 1 {
        assert(rows.drop_last().take(k) == rows.take(k));
        lemma_chosen_fails(header, rows.drop_last(), condition, k);
    } else {
        assert(rows.drop_last() == rows.take(k));
    }
}

/// Whether every one of `rows` has a field at the column of every key.
pub fn rows_reach_keys(rows: &Vec<Vec<Vec<char>>>, keys: &Vec<(usize, bool)>) -> (r: bool)
    ensures
        r == keys_reach(grid_of(rows@), keys_of(keys@)),
        r == keys_fit(rows@, keys@),
{
    let mut i: usize = 0;
    while i < rows.len()
        invariant
            i <= rows.len(),
            forall|n: int, k: int|
                0 <= n < i && 0 <= k < keys.len() ==> (#[trigger] keys[k]).0 < (
                #[trigger] rows[n]).len(),
        decreases rows.len() - i,
    {
        let mut k: usize = 0;
        while k < keys.len()
            invariant
                k <= keys.len(),
                i < rows.len(),
                forall|j: int| 0 <= j < k ==> (#[trigger] keys[j]).0 < rows[i as int].len(),
            decreases keys.len() - k,
        {
            if keys[k].0 >= rows[i].len() {
                proof {
                    assert(keys_of(keys@)[k as int].0 == keys[k as int].0);
                    assert(grid_of(rows@)[i as int].len() == rows[i as int].len());
                    assert(!keys_reach(grid_of(rows@), keys_of(keys@)));
                }
                return false;
            }
            k += 1;
        }
        i += 1;
    }
    proof {
        assert forall|n: int, k: int|
            0 <= n < grid_of(rows@).len() && 0 <= k < keys_of(keys@).len() implies (
        #[trigger] keys_of(keys@)[k]).0 < (#[trigger] grid_of(rows@)[n]).len() by {
            assert(keys[k].0 < rows[n].len());
        }
    }
    true
}

/// Whether every one of `rows` has a field at every index of `wanted`.
pub fn rows_reach_columns(rows: &Vec<Vec<Vec<char>>>, wanted: &Vec<usize>) -> (r: bool)
    ensures
        r == columns_reach(grid_of(rows@), indices_of(wanted@)),
        r ==> forall|n: int| 0 <= n < rows.len() ==> indices_fit(wanted@, (#[trigger] rows[n]).len() as int),
{
    let mut i: usize = 0;
    while i < rows.len()
        invariant
            i <= rows.len(),
            forall|n: int, k: int|
                0 <= n < i && 0 <= k < wanted.len() ==> (#[trigger] wanted[k]) < (
                #[trigger] rows[n]).len(),
        decreases rows.len() - i,
    {
        let mut k: usize = 0;
        while k < wanted.len()
            invariant
                k <= wanted.len(),
                i < rows.len(),
                forall|j: int| 0 <= j < k ==> (#[trigger] wanted[j]) < rows[i as int].len(),
            decreases wanted.len() - k,
        {
            if wanted[k] >= rows[i].len() {
                proof {
                    assert(indices_of(wanted@)[k as int] == wanted[k as int]);
                    assert(grid_of(rows@)[i as int].len() == rows[i as int].len());
                    assert(!columns_reach(grid_of(rows@), indices_of(wanted@)));
                }
                return false;
            }
            k += 1;
        }
        i += 1;
    }
    proof {
        assert forall|n: int, k: int|
            0 <= n < grid_of(rows@).len() && 0 <= k < indices_of(wanted@).len() implies (
        #[trigger] indices_of(wanted@)[k]) < (#[trigger] grid_of(rows@)[n]).len() by {
            assert(wanted[k] < rows[n].len());
        }
    }
    true
}

/// The fields of `row` at the indices `wanted`.
pub fn project_row(row: &Vec<Vec<char>>, wanted: &Vec<usize>) -> (out: Vec<String>)
    requires
        indices_fit(wanted@, row.len() as int),
    ensures
        views(out@) == project(char_views(row@), indices_of(wanted@)),
{
    let mut out: Vec<String> = Vec::new();
    let mut i: usize = 0;
    while i < wanted.len()
        invariant
            i <= wanted.len(),
            out.len() == i,
            indices_fit(wanted@, row.len() as int),
            forall|k: int| 0 <= k < i ==> (#[trigger] out[k])@ == row[wanted[k] as int]@,
        decreases wanted.len() - i,
    {
        out.push(string_of(&row[wanted[i]]));
        i += 1;
    }
    assert(views(out@) =~= project(char_views(row@), indices_of(wanted@)));
    out
}

} // verus!
