//! Comparing two operands under one operator.

use crate::conditions::value::{Cell, Value};
use crate::text::numbers::{parse_i64, parse_int};
use crate::text::trimming::{trim_char, trimmed_with};
use crate::text::{chars_of, is_word, same_text};
use vstd::prelude::*;

verus! {

/// The comparison operators of a condition.
#[derive(Clone, Copy, Debug, PartialEq, Eq, Structural)]
pub enum Operator {
    /// `=`
    Equal,
    /// `!=`
    NotEqual,
    /// `>`
    Greater,
    /// `<`
    Less,
    /// `>=`
    GreaterEqual,
    /// `<=`
    LessEqual,
    /// `==`, accepted between two text columns only
    DoubleEqual,
    /// any other token
    Unknown,
}

/// The operator that a token writes.
pub open spec fn operator_of(t: Seq<char>) -> Operator {
    if t == "="@ {
        Operator::Equal
    } else if t == "!="@ {
        Operator::NotEqual
    } else if t == ">"@ {
        Operator::Greater
    } else if t == "<"@ {
        Operator::Less
    } else if t == ">="@ {
        Operator::GreaterEqual
    } else if t == "<="@ {
        Operator::LessEqual
    } else if t == "=="@ {
        Operator::DoubleEqual
    } else {
        Operator::Unknown
    }
}

/// The natural comparison of two integers. `==` and unknown operators hold of
/// no pair.
pub open spec fn compare_ints(left: int, op: Operator, right: int) -> bool {
    match op {
        Operator::Equal => left == right,
        Operator::NotEqual => left != right,
        Operator::Greater => left > right,
        Operator::Less => left < right,
        Operator::GreaterEqual => left >= right,
        Operator::LessEqual => left <= right,
        Operator::DoubleEqual => false,
        Operator::Unknown => false,
    }
}

/// The comparison of two text columns: equality and inequality alone.
pub open spec fn compare_texts(left: Seq<char>, op: Operator, right: Seq<char>) -> bool {
    match op {
        Operator::Equal => left == right,
        Operator::DoubleEqual => left == right,
        Operator::NotEqual => left != right,
        _ => false,
    }
}

/// A column against a column: numbers compare as numbers, texts as texts, and
/// a number against a text is never true.
pub open spec fn column_vs_column(left: Cell, op: Operator, right: Cell) -> bool {
    match (left, right) {
        (Cell::Integer(a), Cell::Integer(b)) => compare_ints(a, op, b),
        (Cell::Text(a), Cell::Text(b)) => compare_texts(a, op, b),
        _ => false,
    }
}

/// A column against a literal. For a number column the literal must write an
/// integer, else the comparison is false. For a text column only `=` and `!=`
/// compare, against the literal without single quotes around it.
pub open spec fn column_vs_literal(left: Cell, op: Operator, literal: Seq<char>) -> bool {
    match left {
        Cell::Integer(a) => match parse_int(literal) {
            Some(b) => compare_ints(a, op, b),
            None => false,
        },
        Cell::Text(a) => match op {
            Operator::Equal => a == trim_char(literal, '\''),
            Operator::NotEqual => a != trim_char(literal, '\''),
            _ => false,
        },
    }
}

/// The operator that a token writes.
pub fn read_operator(t: &Vec<char>) -> (op: Operator)
    ensures
        op == operator_of(t@),
{
    if is_word(t, "=") {
        Operator::Equal
    } else if is_word(t, "!=") {
        Operator::NotEqual
    } else if is_word(t, ">") {
        Operator::Greater
    } else if is_word(t, "<") {
        Operator::Less
    } else if is_word(t, ">=") {
        Operator::GreaterEqual
    } else if is_word(t, "<=") {
        Operator::LessEqual
    } else if is_word(t, "==") {
        Operator::DoubleEqual
    } else {
        Operator::Unknown
    }
}

/// Compares two integers.
pub fn resolve_constant_evaluation(left: i64, op: Operator, right: i64) -> (r: bool)
    ensures
        r == compare_ints(left as int, op, right as int),
{
    match op {
        Operator::Equal => left == right,
        Operator::NotEqual => left != right,
        Operator::Greater => left > right,
        Operator::Less => left < right,
        Operator::GreaterEqual => left >= right,
        Operator::LessEqual => left <= right,
        Operator::DoubleEqual => false,
        Operator::Unknown => false,
    }
}

/// Compares the values of two columns.
pub fn resolve_column_evaluation(left: &Value, op: Operator, right: &Value) -> (r: bool)
    ensures
        r == column_vs_column(left@, op, right@),
{
    match (left, right) {
        (Value::Integer(a), Value::Integer(b)) => resolve_constant_evaluation(*a, op, *b),
        (Value::String(a), Value::String(b)) => {
            let same = same_text(&chars_of(a.as_str()), &chars_of(b.as_str()));
            match op {
                Operator::Equal => same,
                Operator::DoubleEqual => same,
                Operator::NotEqual => !same,
                _ => false,
            }
        },
        _ => false,
    }
}

/// Compares the value of a column with a literal.
pub fn resolve_evaluation(left: &Value, op: Operator, literal: &Vec<char>) -> (r: bool)
    ensures
        r == column_vs_literal(left@, op, literal@),
{
    match left {
        Value::Integer(a) => match parse_i64(literal) {
            Some(b) => resolve_constant_evaluation(*a, op, b),
            None => false,
        },
        Value::String(a) => {
            let bare = trimmed_with(literal, Some('\''));
            let same = same_text(&chars_of(a.as_str()), &bare);
            match op {
                Operator::Equal => same,
                Operator::NotEqual => !same,
                _ => false,
            }
        },
    }
}

} // verus!
