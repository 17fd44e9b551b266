//! What can fail when a rewritten table takes the place of the old one.

use crate::errors::tperrors::{ErrorKind, Tperrors};
use vstd::prelude::*;

verus! {

/// The step of the replacement that failed.
#[derive(Clone, Copy, Debug, PartialEq, Eq, Structural)]
pub enum FileErrors {
    /// The old table file could not be removed.
    DeletionFailed,
    /// The new file could not be moved to the table's path.
    InvalidFile,
}

impl FileErrors {
    /// The message reported for a failed replacement.
    pub open spec fn message_of(self) -> Seq<char> {
        match self {
            FileErrors::DeletionFailed => "Deletion failed"@,
            FileErrors::InvalidFile => "Error while updating the file"@,
        }
    }

    /// The error that a statement ends in when the replacement of its table
    /// fails: always a generic one.
    pub fn into_error(self) -> (e: Tperrors)
        ensures
            e.kind_of() == ErrorKind::Generic,
            e.message_of() == self.message_of(),
    {
        match self {
            FileErrors::DeletionFailed => Tperrors::Generic("Deletion failed".to_owned()),
            FileErrors::InvalidFile => Tperrors::Generic(
                "Error while updating the file".to_owned(),
            ),
        }
    }
}

} // verus!
