//! The errors that a statement can end in.

use crate::text::{append, chars_of, string_of};
use vstd::prelude::*;

verus! {

/// What went wrong, without the message.
#[derive(Clone, Copy, Debug, PartialEq, Eq, Structural)]
pub enum ErrorKind {
    /// The table is missing or is not the one the statement names.
    Table,
    /// The statement or its condition is malformed.
    Syntax,
    /// Reading or writing failed, or a row does not fit its header.
    Generic,
    /// A column is named that the table does not have.
    Column,
}

/// An error with its message.
#[derive(Debug)]
pub enum Tperrors {
    Table(String),
    Syntax(String),
    Generic(String),
    Column(String),
}

impl Tperrors {
    /// The kind of this error.
    pub open spec fn kind_of(&self) -> ErrorKind {
        match self {
            Tperrors::Table(_) => ErrorKind::Table,
            Tperrors::Syntax(_) => ErrorKind::Syntax,
            Tperrors::Generic(_) => ErrorKind::Generic,
            Tperrors::Column(_) => ErrorKind::Column,
        }
    }

    /// The message of this error.
    pub open spec fn message_of(&self) -> Seq<char> {
        match self {
            Tperrors::Table(m) => m@,
            Tperrors::Syntax(m) => m@,
            Tperrors::Generic(m) => m@,
            Tperrors::Column(m) => m@,
        }
    }

    /// The label that a printed error of the given kind starts with.
    pub open spec fn label(kind: ErrorKind) -> Seq<char> {
        match kind {
            ErrorKind::Generic => "ERROR: "@,
            ErrorKind::Column => "INVALID_COLUMN: "@,
            ErrorKind::Table => "INVALID_TABLE: "@,
            ErrorKind::Syntax => "SYNTAX_ERROR: "@,
        }
    }

    /// The kind of this error.
    pub fn kind(&self) -> (k: ErrorKind)
        ensures
            k == self.kind_of(),
    {
        match self {
            Tperrors::Table(_) => ErrorKind::Table,
            Tperrors::Syntax(_) => ErrorKind::Syntax,
            Tperrors::Generic(_) => ErrorKind::Generic,
            Tperrors::Column(_) => ErrorKind::Column,
        }
    }

    /// The message of this error.
    pub fn message(&self) -> (m: &String)
        ensures
            m@ == self.message_of(),
    {
        match self {
            Tperrors::Table(m) => m,
            Tperrors::Syntax(m) => m,
            Tperrors::Generic(m) => m,
            Tperrors::Column(m) => m,
        }
    }

    /// The error as it is printed: the label of its kind, then its message.
    pub fn to_string(&self) -> (out: String)
        ensures
            out@ == Self::label(self.kind_of()) + self.message_of(),
    {
        let mut text = match self {
            Tperrors::Generic(_) => chars_of("ERROR: "),
            Tperrors::Column(_) => chars_of("INVALID_COLUMN: "),
            Tperrors::Table(_) => chars_of("INVALID_TABLE: "),
            Tperrors::Syntax(_) => chars_of("SYNTAX_ERROR: "),
        };
        let message = chars_of(self.message().as_str());
        append(&mut text, &message);
        string_of(&text)
    }
}

/// A syntax error with the given message.
pub fn syntax(message: &str) -> (e: Tperrors)
    ensures
        e.kind_of() == ErrorKind::Syntax,
        e.message_of() == message@,
{
    Tperrors::Syntax(message.to_owned())
}

/// A column error with the given message.
pub fn column(message: &str) -> (e: Tperrors)
    ensures
        e.kind_of() == ErrorKind::Column,
        e.message_of() == message@,
{
    Tperrors::Column(message.to_owned())
}

/// A generic error with the given message.
pub fn generic(message: &str) -> (e: Tperrors)
    ensures
        e.kind_of() == ErrorKind::Generic,
        e.message_of() == message@,
{
    Tperrors::Generic(message.to_owned())
}

} // verus!
