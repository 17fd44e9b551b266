//! The four kinds of statement.

use vstd::prelude::*;

verus! {

/// The kind of a statement.
#[derive(Clone, Copy, Debug, PartialEq, Eq, Structural)]
pub enum SQLCommand {
    Select,
    Insert,
    Update,
    Delete,
}

} // verus!
