//! The `UPDATE` statement.

use crate::consults::validity::{has_shape, well_shaped};
use crate::errors::tperrors::{ErrorKind, Tperrors};
use crate::handler_tables::change::update;
use crate::handler_tables::rows::condition_text;
use crate::handler_tables::table::Table;
use crate::text::views;
use vstd::prelude::*;

verus! {

/// The `UPDATE` statement.
pub struct Update;

impl Default for Update {
    fn default() -> (s: Update)
        ensures
            s == Update,
    {
        Update::new()
    }
}

impl Update {
    /// The `UPDATE` statement.
    pub fn new() -> (s: Update)
        ensures
            s == Update,
    {
        Update
    }

    /// Whether `query` has the shape of this statement: without the white
    /// space around it, it starts with `UPDATE`, holds `SET` and ends
    /// with a semicolon.
    pub fn is_valid_query(&self, query: &str) -> (r: bool)
        ensures
            r == well_shaped(query@, "UPDATE"@, "SET"@),
    {
        has_shape(query, "UPDATE", "SET")
    }

    /// Executes an `UPDATE` on a table that is held in memory: the lines of
    /// the table after the statement.
    pub fn execute_update_mock(
        &self,
        table: &Table,
        columns: Vec<String>,
        values: Vec<String>,
        conditions: Option<&str>,
    ) -> (r: Result<Vec<String>, Tperrors>)
        ensures
            match r {
                Ok(rows) => update(
                    table.text(),
                    views(columns@),
                    views(values@),
                    condition_text(conditions),
                ) == Ok::<Seq<Seq<char>>, ErrorKind>(views(rows@)),
                Err(e) => update(
                    table.text(),
                    views(columns@),
                    views(values@),
                    condition_text(conditions),
                ) == Err::<Seq<Seq<char>>, ErrorKind>(e.kind_of()),
            },
    {
        table.resolve_update_mock(columns, values, conditions)
    }
}

} // verus!
