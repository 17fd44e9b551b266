//! The four statements.

pub mod delete;
pub mod insert;
pub mod select;
pub mod update;
pub mod validity;
