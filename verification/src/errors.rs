//! The errors of statements and of file replacement.

pub mod fileerrors;
pub mod tperrors;
