//! What `INSERT`, `UPDATE` and `DELETE` make of a table's lines.

use crate::errors::tperrors::{generic, ErrorKind};
use crate::handler_tables::query::header_of;
use crate::handler_tables::rows::{find_index, index_of, selected};
use crate::text::splitting::{join, lines, split};
use crate::text::{char_views, slice};
use vstd::prelude::*;

verus! {

/// Whether the header has every one of `columns`.
pub open spec fn all_known(header: Seq<Seq<char>>, columns: Seq<Seq<char>>) -> bool {
    forall|k: int| 0 <= k < columns.len() ==> index_of(header, #[trigger] columns[k]) is Some
}

/// How many columns of the header are among `columns`.
pub open spec fn covered(header: Seq<Seq<char>>, columns: Seq<Seq<char>>) -> nat
    decreases header.len(),
{
    if header.len() == 0 {
        0
    } else {
        covered(header.drop_last(), columns) + if index_of(columns, header.last()) is Some {
            1nat
        } else {
            0nat
        }
    }
}

/// How many header columns an `INSERT` with `columns` gives values for: those
/// that it names if the header has all of them, else every column.
pub open spec fn resolved(header: Seq<Seq<char>>, columns: Seq<Seq<char>>) -> nat {
    if all_known(header, columns) {
        covered(header, columns)
    } else {
        header.len()
    }
}

/// Where in a row of values the value for the header column `h` stands, if
/// the `INSERT` gives one: at the first place where `columns` names it or, if
/// `columns` names a column that the header lacks, at `h` itself.
pub open spec fn source(header: Seq<Seq<char>>, columns: Seq<Seq<char>>, h: int) -> Option<int> {
    if all_known(header, columns) {
        index_of(columns, header[h])
    } else {
        Some(h)
    }
}

/// Whether `tuple` has a value wherever the `INSERT` takes one from.
pub open spec fn long_enough(header: Seq<Seq<char>>, columns: Seq<Seq<char>>, tuple: Seq<Seq<char>>)
    -> bool {
    forall|h: int|
        0 <= h < header.len() && (#[trigger] source(header, columns, h)) is Some ==> source(
            header,
            columns,
            h,
        )->0 < tuple.len()
}

/// The fields of the line that one row of values gives: for every column of
/// the header its value, or the empty text where the `INSERT` gives none.
pub open spec fn inserted_fields(
    header: Seq<Seq<char>>,
    columns: Seq<Seq<char>>,
    tuple: Seq<Seq<char>>,
) -> Seq<Seq<char>> {
    Seq::new(
        header.len(),
        |h: int|
            match source(header, columns, h) {
                Some(k) => tuple[k],
                None => Seq::empty(),
            },
    )
}

/// The lines that the rows of values give, or `None` if a row is too short.
pub open spec fn inserted_lines(
    header: Seq<Seq<char>>,
    columns: Seq<Seq<char>>,
    tuples: Seq<Seq<Seq<char>>>,
) -> Option<Seq<Seq<Seq<char>>>>
    decreases tuples.len(),
{
    if tuples.len() == 0 {
        Some(Seq::empty())
    } else {
        match inserted_lines(header, columns, tuples.drop_last()) {
            None => None,
            Some(before) => if long_enough(header, columns, tuples.last()) {
                Some(before.push(inserted_fields(header, columns, tuples.last())))
            } else {
                None
            },
        }
    }
}

/// What an `INSERT` gives on a table with the text `text`: one line of fields
/// for each row of values.
///
/// A table without a header is a column error. So is a list of columns whose
/// length is not the number of header columns that the statement gives values
/// for. A row of values that is too short is a generic error.
pub open spec fn insert(text: Seq<char>, columns: Seq<Seq<char>>, tuples: Seq<Seq<Seq<char>>>)
    -> Result<Seq<Seq<Seq<char>>>, ErrorKind> {
    match header_of(text) {
        None => Err(ErrorKind::Column),
        Some(header) => if columns.len() != resolved(header, columns) {
            Err(ErrorKind::Column)
        } else {
            match inserted_lines(header, columns, tuples) {
                None => Err(ErrorKind::Generic),
                Some(rows) => Ok(rows),
            }
        },
    }
}

/// The new value of the header column `h`, if the `UPDATE` sets it: the value
/// at the first place where `columns` names it.
pub open spec fn new_value(
    header: Seq<Seq<char>>,
    columns: Seq<Seq<char>>,
    values: Seq<Seq<char>>,
    h: int,
) -> Option<Seq<char>> {
    match index_of(columns, header[h]) {
        Some(k) => Some(values[k]),
        None => None,
    }
}

/// The fields of a row after the `UPDATE`: every column that is set has its
/// new value, every other field stays.
pub open spec fn updated(
    header: Seq<Seq<char>>,
    columns: Seq<Seq<char>>,
    values: Seq<Seq<char>>,
    fields: Seq<Seq<char>>,
) -> Seq<Seq<char>> {
    Seq::new(
        fields.len(),
        |h: int|
            if h < header.len() && new_value(header, columns, values, h) is Some {
                new_value(header, columns, values, h)->0
            } else {
                fields[h]
            },
    )
}

/// Whether the `UPDATE` sets the header column `h`.
pub open spec fn is_set(header: Seq<Seq<char>>, columns: Seq<Seq<char>>, h: int) -> bool {
    index_of(columns, header[h]) is Some
}

/// Whether a row with `width` fields has a field at every column that the
/// `UPDATE` sets.
pub open spec fn reaches(header: Seq<Seq<char>>, columns: Seq<Seq<char>>, width: int) -> bool {
    forall|h: int| 0 <= h < header.len() && #[trigger] is_set(header, columns, h) ==> h < width
}

/// What the `UPDATE` makes of one line: the line itself where the statement
/// does not apply, else its updated fields with commas between them. A line
/// that the statement applies to and that has no field at a column that is
/// set is a generic error; a line that is only shorter than the header is
/// none.
pub open spec fn updated_line(
    header: Seq<Seq<char>>,
    columns: Seq<Seq<char>>,
    values: Seq<Seq<char>>,
    condition: Option<Seq<char>>,
    line: Seq<char>,
) -> Result<Seq<char>, ErrorKind> {
    match selected(header, split(line, ','), condition) {
        Err(e) => Err(e),
        Ok(false) => Ok(line),
        Ok(true) => if !reaches(header, columns, split(line, ',').len() as int) {
            Err(ErrorKind::Generic)
        } else {
            Ok(join(updated(header, columns, values, split(line, ',')), seq![',']))
        },
    }
}

/// What the `UPDATE` makes of the lines `data`.
pub open spec fn updated_lines(
    header: Seq<Seq<char>>,
    columns: Seq<Seq<char>>,
    values: Seq<Seq<char>>,
    condition: Option<Seq<char>>,
    data: Seq<Seq<char>>,
) -> Result<Seq<Seq<char>>, ErrorKind>
    decreases data.len(),
{
    if data.len() == 0 {
        Ok(Seq::empty())
    } else {
        match updated_lines(header, columns, values, condition, data.drop_last()) {
            Err(e) => Err(e),
            Ok(before) => match updated_line(header, columns, values, condition, data.last()) {
                Err(e) => Err(e),
                Ok(line) => Ok(before.push(line)),
            },
        }
    }
}

/// The lines of a table after its first.
pub open spec fn data_lines(text: Seq<char>) -> Seq<Seq<char>> {
    lines(text).subrange(1, lines(text).len() as int)
}

/// The lines of a table after an `UPDATE`: the header line, then every other
/// line as the statement leaves it.
///
/// A table without a header is a column error. Fewer values than columns, a
/// row that the statement cannot be decided for, and a row that it applies to
/// and that has no field at a column that is set are generic errors.
pub open spec fn update(
    text: Seq<char>,
    columns: Seq<Seq<char>>,
    values: Seq<Seq<char>>,
    condition: Option<Seq<char>>,
) -> Result<Seq<Seq<char>>, ErrorKind> {
    match header_of(text) {
        None => Err(ErrorKind::Column),
        Some(header) => if values.len() < columns.len() {
            Err(ErrorKind::Generic)
        } else {
            match updated_lines(header, columns, values, condition, data_lines(text)) {
                Err(e) => Err(e),
                Ok(rows) => Ok(seq![lines(text)[0]] + rows),
            }
        },
    }
}

/// The lines among `data` that a `DELETE` leaves: those that the statement
/// does not apply to.
pub open spec fn remaining(
    header: Seq<Seq<char>>,
    condition: Option<Seq<char>>,
    data: Seq<Seq<char>>,
) -> Result<Seq<Seq<char>>, ErrorKind>
    decreases data.len(),
{
    if data.len() == 0 {
        Ok(Seq::empty())
    } else {
        match remaining(header, condition, data.drop_last()) {
            Err(e) => Err(e),
            Ok(before) => match selected(header, split(data.last(), ','), condition) {
                Err(e) => Err(e),
                Ok(true) => Ok(before),
                Ok(false) => Ok(before.push(data.last())),
            },
        }
    }
}

/// The lines of a table after a `DELETE`: the header line, then the lines
/// that the statement does not apply to.
///
/// A table without a header is a column error; a row that the statement
/// cannot be decided for is a generic error.
pub open spec fn delete(text: Seq<char>, condition: Option<Seq<char>>) -> Result<
    Seq<Seq<char>>,
    ErrorKind,
> {
    match header_of(text) {
        None => Err(ErrorKind::Column),
        Some(header) => match remaining(header, condition, data_lines(text)) {
            Err(e) => Err(e),
            Ok(rows) => Ok(seq![lines(text)[0]] + rows),
        },
    }
}

/// A line that fails makes the whole `UPDATE` fail with a generic error.
pub proof fn lemma_updated_fails(
    header: Seq<Seq<char>>,
    columns: Seq<Seq<char>>,
    values: Seq<Seq<char>>,
    condition: Option<Seq<char>>,
    data: Seq<Seq<char>>,
    k: int,
)
    requires
        0 <= k < data.len(),
        updated_lines(header, columns, values, condition, data.take(k)) is Ok,
        updated_line(header, columns, values, condition, data[k]) is Err,
    ensures
        updated_lines(header, columns, values, condition, data) == Err::<
            Seq<Seq<char>>,
            ErrorKind,
        >(ErrorKind::Generic),
    decreases data.len(),
{
    if k < data.len() - 1 {
        assert(data.drop_last().take(k) == data.take(k));
        lemma_updated_fails(header, columns, values, condition, data.drop_last(), k);
    } else {
        assert(data.drop_last() == data.take(k));
    }
}

/// A line that fails makes the whole `DELETE` fail with a generic error.
pub proof fn lemma_remaining_fails(
    header: Seq<Seq<char>>,
    condition: Option<Seq<char>>,
    data: Seq<Seq<char>>,
    k: int,
)
    requires
        0 <= k < data.len(),
        remaining(header, condition, data.take(k)) is Ok,
        selected(header, split(data[k], ','), condition) is Err,
    ensures
        remaining(header, condition, data) == Err::<Seq<Seq<char>>, ErrorKind>(
            ErrorKind::Generic,
        ),
    decreases data.len(),
{
    if k < data.len() - 1 {
        assert(data.drop_last().take(k) == data.take(k));
        lemma_remaining_fails(header, condition, data.drop_last(), k);
    } else {
        assert(data.drop_last() == data.take(k));
    }
}

/// A row of values that is too short makes the whole `INSERT` fail.
pub proof fn lemma_inserted_fails(
    header: Seq<Seq<char>>,
    columns: Seq<Seq<char>>,
    tuples: Seq<Seq<Seq<char>>>,
    k: int,
)
    requires
        0 <= k < tuples.len(),
        !long_enough(header, columns, tuples[k]),
    ensures
        inserted_lines(header, columns, tuples) is None,
    decreases tuples.len(),
{
    if k < tuples.len() - 1 {
        lemma_inserted_fails(header, columns, tuples.drop_last(), k);
    }
}

/// Whether the header has every one of `columns`.
pub fn knows_all(header: &Vec<Vec<char>>, columns: &Vec<Vec<char>>) -> (r: bool)
    ensures
        r == all_known(char_views(header@), char_views(columns@)),
{
    let mut k: usize = 0;
    while k < columns.len()
        invariant
            k <= columns.len(),
            forall|j: int|
                0 <= j < k ==> index_of(char_views(header@), #[trigger] char_views(columns@)[j])
                    is Some,
        decreases columns.len() - k,
    {
        assert(char_views(columns@)[k as int] == columns[k as int]@);
        if find_index(header, &columns[k]).is_none() {
            return false;
        }
        k += 1;
    }
    true
}

/// Where each header column takes its value from.
pub fn sources(header: &Vec<Vec<char>>, columns: &Vec<Vec<char>>) -> (r: (
    Vec<Option<usize>>,
    usize,
))
    ensures
        r.0.len() == header.len(),
        forall|h: int|
            0 <= h < header.len() ==> match (#[trigger] r.0[h]) {
                Some(k) => source(char_views(header@), char_views(columns@), h) == Some(k as int),
                None => source(char_views(header@), char_views(columns@), h) is None,
            },
        r.1 == resolved(char_views(header@), char_views(columns@)),
{
    let known = knows_all(header, columns);
    let ghost names = char_views(header@);
    let mut from: Vec<Option<usize>> = Vec::new();
    let mut count: usize = 0;
    let mut h: usize = 0;
    while h < header.len()
        invariant
            h <= header.len(),
            from.len() == h,
            names == char_views(header@),
            known == all_known(names, char_views(columns@)),
            count <= h,
            count == covered(names.take(h as int), char_views(columns@)),
            forall|j: int|
                0 <= j < h ==> match (#[trigger] from[j]) {
                    Some(k) => source(names, char_views(columns@), j) == Some(k as int),
                    None => source(names, char_views(columns@), j) is None,
                },
        decreases header.len() - h,
    {
        assert(names.take(h + 1).drop_last() == names.take(h as int));
        assert(names.take(h + 1).last() == header[h as int]@);
        assert(names[h as int] == header[h as int]@);
        let found = find_index(columns, &header[h]);
        if found.is_some() {
            count += 1;
        }
        if known {
            from.push(found);
        } else {
            from.push(Some(h));
        }
        h += 1;
    }
    assert(names.take(header.len() as int) == names);
    let width = if known {
        count
    } else {
        header.len()
    };
    (from, width)
}

/// The fields of the line that one row of values gives, or `None` if the row
/// is too short.
pub fn insert_fields(from: &Vec<Option<usize>>, tuple: &Vec<String>) -> (r: Option<Vec<String>>)
    ensures
        match r {
            Some(fields) => fields.len() == from.len() && forall|h: int|
                0 <= h < from.len() ==> (#[trigger] fields[h])@ == match from[h] {
                    Some(k) => tuple[k as int]@,
                    None => Seq::<char>::empty(),
                } && (from[h] is Some ==> from[h]->0 < tuple.len()),
            None => exists|h: int|
                0 <= h < from.len() && (#[trigger] from[h]) is Some && from[h]->0 >= tuple.len(),
        },
{
    let mut fields: Vec<String> = Vec::new();
    let mut h: usize = 0;
    while h < from.len()
        invariant
            h <= from.len(),
            fields.len() == h,
            forall|j: int|
                0 <= j < h ==> (#[trigger] fields[j])@ == match from[j] {
                    Some(k) => tuple[k as int]@,
                    None => Seq::<char>::empty(),
                } && (from[j] is Some ==> from[j]->0 < tuple.len()),
        decreases from.len() - h,
    {
        match from[h] {
            Some(k) => {
                if k >= tuple.len() {
                    return None;
                }
                fields.push(tuple[k].clone());
            },
            None => {
                fields.push(String::new());
            },
        }
        h += 1;
    }
    Some(fields)
}

/// The new value of each header column, if the `UPDATE` sets it.
pub fn new_values(header: &Vec<Vec<char>>, columns: &Vec<Vec<char>>, values: &Vec<Vec<char>>) -> (r:
    Vec<Option<Vec<char>>>)
    requires
        columns.len() <= values.len(),
    ensures
        r.len() == header.len(),
        forall|h: int|
            0 <= h < header.len() ==> match (#[trigger] r[h]) {
                Some(v) => new_value(
                    char_views(header@),
                    char_views(columns@),
                    char_views(values@),
                    h,
                ) == Some(v@),
                None => new_value(
                    char_views(header@),
                    char_views(columns@),
                    char_views(values@),
                    h,
                ) is None,
            },
{
    let mut changes: Vec<Option<Vec<char>>> = Vec::new();
    let mut h: usize = 0;
    while h < header.len()
        invariant
            h <= header.len(),
            changes.len() == h,
            columns.len() <= values.len(),
            forall|j: int|
                0 <= j < h ==> match (#[trigger] changes[j]) {
                    Some(v) => new_value(
                        char_views(header@),
                        char_views(columns@),
                        char_views(values@),
                        j,
                    ) == Some(v@),
                    None => new_value(
                        char_views(header@),
                        char_views(columns@),
                        char_views(values@),
                        j,
                    ) is None,
                },
        decreases header.len() - h,
    {
        assert(char_views(header@)[h as int] == header[h as int]@);
        match find_index(columns, &header[h]) {
            Some(k) => {
                assert(char_views(values@)[k as int] == values[k as int]@);
                let value = slice(&values[k], 0, values[k].len());
                assert(values[k as int]@.subrange(0, values[k as int].len() as int)
                    == values[k as int]@);
                changes.push(Some(value));
            },
            None => {
                changes.push(None);
            },
        }
        h += 1;
    }
    changes
}

/// Whether a row with the fields `fields` has a field wherever `changes`
/// holds a new value.
pub fn reaches_changes(changes: &Vec<Option<Vec<char>>>, fields: &Vec<Vec<char>>) -> (r: bool)
    ensures
        r == forall|h: int| 0 <= h < changes.len() && (#[trigger] changes[h]) is Some ==> h
            < fields.len(),
{
    let mut h: usize = fields.len();
    while h < changes.len()
        invariant
            fields.len() <= h,
            forall|j: int|
                0 <= j < h && j < changes.len() && (#[trigger] changes[j]) is Some ==> j
                    < fields.len(),
        decreases changes.len() - h,
    {
        if changes[h].is_some() {
            return false;
        }
        h += 1;
    }
    true
}

/// The fields of a row after the `UPDATE`.
pub fn apply_changes(changes: &Vec<Option<Vec<char>>>, fields: &Vec<Vec<char>>) -> (out: Vec<
    Vec<char>,
>)
    ensures
        out.len() == fields.len(),
        forall|h: int|
            0 <= h < fields.len() ==> (#[trigger] out[h])@ == if h < changes.len() && changes[h]
                is Some {
                changes[h]->0@
            } else {
                fields[h]@
            },
{
    let mut out: Vec<Vec<char>> = Vec::new();
    let mut h: usize = 0;
    while h < fields.len()
        invariant
            h <= fields.len(),
            out.len() == h,
            forall|j: int|
                0 <= j < h ==> (#[trigger] out[j])@ == if j < changes.len() && changes[j]
                    is Some {
                    changes[j]->0@
                } else {
                    fields[j]@
                },
        decreases fields.len() - h,
    {
        let mut field: Vec<char> = slice(&fields[h], 0, fields[h].len());
        assert(fields[h as int]@.subrange(0, fields[h as int].len() as int) == fields[h as int]@);
        if h < changes.len() {
            match &changes[h] {
                Some(v) => {
                    field = slice(v, 0, v.len());
                    assert(v@.subrange(0, v.len() as int) == v@);
                },
                None => {},
            }
        }
        out.push(field);
        h += 1;
    }
    out
}

} // verus!
