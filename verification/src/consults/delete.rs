//! The `DELETE` statement.

use crate::consults::validity::{has_shape, well_shaped};
use crate::errors::tperrors::{ErrorKind, Tperrors};
use crate::handler_tables::change::delete;
use crate::handler_tables::rows::condition_text;
use crate::handler_tables::table::Table;
use crate::text::views;
use vstd::prelude::*;

verus! {

/// The `DELETE` statement.
pub struct Delete;

impl Default for Delete {
    fn default() -> (s: Delete)
        ensures
            s == Delete,
    {
        Delete::new()
    }
}

impl Delete {
    /// The `DELETE` statement.
    pub fn new() -> (s: Delete)
        ensures
            s == Delete,
    {
        Delete
    }

    /// Whether `query` has the shape of this statement: without the white
    /// space around it, it starts with `DELETE`, holds `FROM` and ends
    /// with a semicolon.
    pub fn is_valid_query(&self, query: &str) -> (r: bool)
        ensures
            r == well_shaped(query@, "DELETE"@, "FROM"@),
    {
        has_shape(query, "DELETE", "FROM")
    }

    /// Executes a `DELETE` on a table that is held in memory: the lines of
    /// the table after the statement.
    pub fn execute_delete_mock(&self, table: &Table, conditions: Option<&str>) -> (r: Result<
        Vec<String>,
        Tperrors,
    >)
        ensures
            match r {
                Ok(rows) => delete(table.text(), condition_text(conditions)) == Ok::<
                    Seq<Seq<char>>,
                    ErrorKind,
                >(views(rows@)),
                Err(e) => delete(table.text(), condition_text(conditions)) == Err::<
                    Seq<Seq<char>>,
                    ErrorKind,
                >(e.kind_of()),
            },
    {
        table.resolve_delete_mock(conditions)
    }
}

} // verus!
