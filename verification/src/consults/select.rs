//! The `SELECT` statement.

use crate::consults::validity::{has_shape, well_shaped};
use crate::errors::tperrors::{ErrorKind, Tperrors};
use crate::handler_tables::query::{select, sorting_of};
use crate::handler_tables::rows::condition_text;
use crate::handler_tables::table::Table;
use crate::sorter::sort::SortMethod;
use crate::text::splitting::{join, join_with};
use crate::text::{chars_of, chars_of_all, grid_views, string_of, views};
use vstd::prelude::*;

verus! {

/// The `SELECT` statement.
pub struct Select;

impl Default for Select {
    fn default() -> (s: Select)
        ensures
            s == Select,
    {
        Select::new()
    }
}

impl Select {
    /// The `SELECT` statement.
    pub fn new() -> (s: Select)
        ensures
            s == Select,
    {
        Select
    }

    /// Whether `query` has the shape of this statement: without the white
    /// space around it, it starts with `SELECT`, holds `FROM` and ends
    /// with a semicolon.
    pub fn is_valid_query(&self, query: &str) -> (r: bool)
        ensures
            r == well_shaped(query@, "SELECT"@, "FROM"@),
    {
        has_shape(query, "SELECT", "FROM")
    }

    /// Executes a `SELECT` and gives the lines to print: the fields of each
    /// row of the result with commas between them.
    pub fn execute_select(
        &self,
        table: &Table,
        columns: Vec<String>,
        conditions: Option<&str>,
        sorting_method: Option<Vec<SortMethod>>,
    ) -> (r: Result<Vec<String>, Tperrors>)
        ensures
            match r {
                Ok(printed) => select(
                    table.text(),
                    views(columns@),
                    condition_text(conditions),
                    sorting_of(sorting_method),
                ) is Ok && views(printed@) == joined_rows(
                    select(
                        table.text(),
                        views(columns@),
                        condition_text(conditions),
                        sorting_of(sorting_method),
                    )->Ok_0,
                ),
                Err(e) => select(
                    table.text(),
                    views(columns@),
                    condition_text(conditions),
                    sorting_of(sorting_method),
                ) == Err::<Seq<Seq<Seq<char>>>, ErrorKind>(e.kind_of()),
            },
    {
        match table.resolve_select(columns, conditions, sorting_method) {
            Ok(data) => Ok(join_rows(&data)),
            Err(e) => Err(e),
        }
    }

    /// Executes a `SELECT` on a table that is held in memory.
    pub fn execute_select_mock(
        &self,
        table: &Table,
        columns: Vec<String>,
        conditions: Option<&str>,
        sorting_method: Option<Vec<SortMethod>>,
    ) -> (r: Result<Vec<Vec<String>>, Tperrors>)
        ensures
            match r {
                Ok(rows) => select(
                    table.text(),
                    views(columns@),
                    condition_text(conditions),
                    sorting_of(sorting_method),
                ) == Ok::<Seq<Seq<Seq<char>>>, ErrorKind>(grid_views(rows@)),
                Err(e) => select(
                    table.text(),
                    views(columns@),
                    condition_text(conditions),
                    sorting_of(sorting_method),
                ) == Err::<Seq<Seq<Seq<char>>>, ErrorKind>(e.kind_of()),
            },
    {
        table.resolve_select(columns, conditions, sorting_method)
    }
}

/// Each row as one line: its fields with commas between them.
pub open spec fn joined_rows(rows: Seq<Seq<Seq<char>>>) -> Seq<Seq<char>> {
    Seq::new(rows.len(), |i: int| join(rows[i], seq![',']))
}

/// Each row as one line: its fields with commas between them.
pub fn join_rows(rows: &Vec<Vec<String>>) -> (out: Vec<String>)
    ensures
        views(out@) == joined_rows(grid_views(rows@)),
{
    let comma = chars_of(",");
    proof {
        reveal_strlit(",");
        assert(comma@ =~= seq![',']);
    }
    let mut out: Vec<String> = Vec::new();
    let mut i: usize = 0;
    while i < rows.len()
        invariant
            i <= rows.len(),
            out.len() == i,
            comma@ == seq![','],
            forall|k: int| 0 <= k < i ==> (#[trigger] out[k])@ == join(views(rows[k]@), seq![',']),
        decreases rows.len() - i,
    {
        let fields = chars_of_all(&rows[i]);
        out.push(string_of(&join_with(&fields, &comma)));
        i += 1;
    }
    assert(views(out@) =~= joined_rows(grid_views(rows@)));
    out
}

} // verus!
