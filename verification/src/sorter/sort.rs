//! One key of an `ORDER BY` clause.

use vstd::prelude::*;
use vstd::std_specs::cmp::PartialEqSpecImpl;

verus! {

/// A column to sort by, and the direction.
#[derive(Debug)]
pub struct SortMethod {
    pub by_column: String,
    pub ascending: bool,
}

impl View for SortMethod {
    type V = (Seq<char>, bool);

    open spec fn view(&self) -> (Seq<char>, bool) {
        (self.by_column@, self.ascending)
    }
}

impl SortMethod {
    /// Whether the rows are to come in ascending order of this key.
    pub fn is_ascending(&self) -> (b: bool)
        ensures
            b == self.ascending,
    {
        self.ascending
    }

    /// The name of the column to sort by.
    pub fn get_by_column(&self) -> (name: &String)
        ensures
            name@ == self.by_column@,
    {
        &self.by_column
    }
}

impl PartialEq for SortMethod {
    fn eq(&self, other: &Self) -> (r: bool) {
        self.by_column == other.by_column && self.ascending == other.ascending
    }
}

impl PartialEqSpecImpl for SortMethod {
    open spec fn obeys_eq_spec() -> bool {
        true
    }

    open spec fn eq_spec(&self, other: &Self) -> bool {
        self.by_column@ == other.by_column@ && self.ascending == other.ascending
    }
}

} // verus!
