//! The `INSERT INTO` statement.

use crate::consults::select::{join_rows, joined_rows};
use crate::consults::validity::{has_shape, well_shaped};
use crate::errors::tperrors::{ErrorKind, Tperrors};
use crate::handler_tables::change::insert;
use crate::handler_tables::table::Table;
use crate::text::{grid_views, views};
use vstd::prelude::*;

verus! {

/// The `INSERT INTO` statement.
pub struct Insert;

impl Default for Insert {
    fn default() -> (s: Insert)
        ensures
            s == Insert,
    {
        Insert::new()
    }
}

impl Insert {
    /// The `INSERT` statement.
    pub fn new() -> (s: Insert)
        ensures
            s == Insert,
    {
        Insert
    }

    /// Whether `query` has the shape of this statement: without the white
    /// space around it, it starts with `INSERT INTO`, holds `VALUES` and ends
    /// with a semicolon.
    pub fn is_valid_query(&self, query: &str) -> (r: bool)
        ensures
            r == well_shaped(query@, "INSERT INTO"@, "VALUES"@),
    {
        has_shape(query, "INSERT INTO", "VALUES")
    }

    /// Executes an `INSERT` and gives the lines to add to the table: the
    /// fields of each new row with commas between them.
    pub fn execute_insert(&self, table: &Table, columns: Vec<String>, values: Vec<Vec<String>>) -> (r:
        Result<Vec<String>, Tperrors>)
        ensures
            match r {
                Ok(added) => insert(table.text(), views(columns@), grid_views(values@)) is Ok
                    && views(added@) == joined_rows(
                    insert(table.text(), views(columns@), grid_views(values@))->Ok_0,
                ),
                Err(e) => insert(table.text(), views(columns@), grid_views(values@)) == Err::<
                    Seq<Seq<Seq<char>>>,
                    ErrorKind,
                >(e.kind_of()),
            },
    {
        match table.resolve_insert(columns, values) {
            Ok(lines) => Ok(join_rows(&lines)),
            Err(e) => Err(e),
        }
    }

    /// Executes an `INSERT` on a table that is held in memory.
    pub fn execute_insert_mock(
        &self,
        table: &Table,
        columns: Vec<String>,
        values: Vec<Vec<String>>,
    ) -> (r: Result<Vec<Vec<String>>, Tperrors>)
        ensures
            match r {
                Ok(rows) => insert(table.text(), views(columns@), grid_views(values@)) == Ok::<
                    Seq<Seq<Seq<char>>>,
                    ErrorKind,
                >(grid_views(rows@)),
                Err(e) => insert(table.text(), views(columns@), grid_views(values@)) == Err::<
                    Seq<Seq<Seq<char>>>,
                    ErrorKind,
                >(e.kind_of()),
            },
    {
        table.resolve_insert(columns, values)
    }
}

} // verus!
