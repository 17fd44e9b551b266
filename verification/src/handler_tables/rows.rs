//! The header and the rows of a table, and the choice of the rows that a
//! statement applies to.

use crate::conditions::condition::{binding, meets, Condition};
use crate::conditions::value::{cell_of, Cell, Value};
use crate::errors::tperrors::{generic, ErrorKind, Tperrors};
use crate::text::{char_views, same_text, string_of};
use vstd::prelude::*;

verus! {

/// The index of the first of `names` at or after `k` that is `name`.
pub open spec fn index_from(names: Seq<Seq<char>>, name: Seq<char>, k: int) -> Option<int>
    decreases names.len() - k,
{
    if k < 0 || k >= names.len() {
        None
    } else if names[k] == name {
        Some(k)
    } else {
        index_from(names, name, k + 1)
    }
}

/// The index of the first of `names` that is `name`.
pub open spec fn index_of(names: Seq<Seq<char>>, name: Seq<char>) -> Option<int> {
    index_from(names, name, 0)
}

/// What `index_from` finds is the first index with that name.
pub proof fn lemma_index_from(names: Seq<Seq<char>>, name: Seq<char>, k: int)
    requires
        0 <= k,
    ensures
        match index_from(names, name, k) {
            Some(i) => k <= i < names.len() && names[i] == name && forall|j: int|
                k <= j < i ==> names[j] != name,
            None => forall|j: int| k <= j < names.len() ==> names[j] != name,
        },
    decreases names.len() - k,
{
    if k < names.len() && names[k] != name {
        lemma_index_from(names, name, k + 1);
    }
}

/// The index of the first of `names` that is `name`.
pub fn find_index(names: &Vec<Vec<char>>, name: &Vec<char>) -> (r: Option<usize>)
    ensures
        match r {
            Some(i) => index_of(char_views(names@), name@) == Some(i as int) && i < names.len(),
            None => index_of(char_views(names@), name@) is None,
        },
{
    let mut k: usize = 0;
    while k < names.len()
        invariant
            k <= names.len(),
            index_of(char_views(names@), name@) == index_from(
                char_views(names@),
                name@,
                k as int,
            ),
        decreases names.len() - k,
    {
        assert(char_views(names@)[k as int] == names[k as int]@);
        if same_text(&names[k], name) {
            return Some(k);
        }
        k += 1;
    }
    None
}

/// The row that a condition is asked about: each column of the header with
/// what the field at its place means. The line must have a field for every
/// column.
pub open spec fn bind(header: Seq<Seq<char>>, fields: Seq<Seq<char>>) -> Seq<(Seq<char>, Cell)> {
    Seq::new(header.len(), |i: int| (header[i], cell_of(fields[i])))
}

/// The text of an optional condition.
pub open spec fn condition_text(condition: Option<&str>) -> Option<Seq<char>> {
    match condition {
        Some(c) => Some(c@),
        None => None,
    }
}

/// The typed values of one line by column name.
pub fn extract_conditions(header: &Vec<Vec<char>>, fields: &Vec<Vec<char>>) -> (out: Vec<
    (String, Value),
>)
    requires
        header.len() <= fields.len(),
    ensures
        binding(out@) == bind(char_views(header@), char_views(fields@)),
{
    let mut out: Vec<(String, Value)> = Vec::new();
    let mut j: usize = 0;
    while j < header.len()
        invariant
            j <= header.len() <= fields.len(),
            out.len() == j,
            forall|k: int|
                0 <= k < j ==> (#[trigger] out[k]).0@ == header[k]@ && out[k].1@ == cell_of(
                    fields[k]@,
                ),
        decreases header.len() - j,
    {
        let name = string_of(&header[j]);
        let value = Value::from_field(&fields[j]);
        out.push((name, value));
        j += 1;
    }
    assert(binding(out@) =~= bind(char_views(header@), char_views(fields@)));
    out
}

/// Whether a statement with the condition `condition` applies to the line
/// with the fields `fields`.
pub fn row_selected(header: &Vec<Vec<char>>, fields: &Vec<Vec<char>>, condition: Option<&str>)
    -> (r: Result<bool, Tperrors>)
    ensures
        match r {
            Ok(b) => selected(char_views(header@), char_views(fields@), condition_text(condition))
                == Ok::<bool, ErrorKind>(b),
            Err(e) => selected(
                char_views(header@),
                char_views(fields@),
                condition_text(condition),
            ) == Err::<bool, ErrorKind>(ErrorKind::Generic) && e.kind_of() == ErrorKind::Generic,
        },
{
    match condition {
        None => Ok(true),
        Some(text) => {
            if fields.len() < header.len() {
                return Err(generic("A row has fewer fields than the table has columns"));
            }
            let row = Condition::new(extract_conditions(header, fields));
            match row.matches_condition(text) {
                Ok(b) => Ok(b),
                Err(e) => Err(Tperrors::Generic(e.to_string())),
            }
        },
    }
}

/// Whether a statement with the condition `condition` applies to the row
/// with the fields `fields` of a table with the header `header`.
///
/// A statement without a condition applies to every row. With a condition,
/// the row must have a field for every column of the header, and the
/// condition must evaluate: else the statement fails with a generic error.
pub open spec fn selected(
    header: Seq<Seq<char>>,
    fields: Seq<Seq<char>>,
    condition: Option<Seq<char>>,
) -> Result<bool, ErrorKind> {
    match condition {
        None => Ok(true),
        Some(c) => if fields.len() < header.len() {
            Err(ErrorKind::Generic)
        } else {
            match meets(c, bind(header, fields)) {
                Ok(b) => Ok(b),
                Err(_) => Err(ErrorKind::Generic),
            }
        },
    }
}

} // verus!
