//! The typed content of one table cell.

use crate::text::numbers::{parse_i64, parse_int};
use crate::text::string_of;
use crate::text::trimming::{trim, trimmed};
use vstd::prelude::*;

verus! {

/// A cell as a condition sees it: a number or a text.
#[derive(Debug)]
pub enum Value {
    Integer(i64),
    String(String),
}

/// The mathematical content of a `Value`.
pub enum Cell {
    Integer(int),
    Text(Seq<char>),
}

impl View for Value {
    type V = Cell;

    open spec fn view(&self) -> Cell {
        match self {
            Value::Integer(n) => Cell::Integer(*n as int),
            Value::String(s) => Cell::Text(s@),
        }
    }
}

/// What a raw field of a table line means: the integer that the field writes
/// once surrounding white space is removed, or else the trimmed text.
pub open spec fn cell_of(field: Seq<char>) -> Cell {
    match parse_int(trim(field)) {
        Some(n) => Cell::Integer(n),
        None => Cell::Text(trim(field)),
    }
}

impl Value {
    /// Reads a raw field of a table line.
    pub fn from_field(field: &Vec<char>) -> (v: Value)
        ensures
            v@ == cell_of(field@),
    {
        let text = trimmed(field);
        match parse_i64(&text) {
            Some(n) => Value::Integer(n),
            None => Value::String(string_of(&text)),
        }
    }
}

} // verus!
