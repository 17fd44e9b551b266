//! Conditions on the rows of a table, and their evaluation.

pub mod comparison;
pub mod condition;
pub mod laws;
pub mod operand;
pub mod tokens;
pub mod value;
