//! Tables, and what the statements make of them.

pub mod change;
pub mod folder_tables;
pub mod laws;
pub mod query;
pub mod rows;
pub mod table;
