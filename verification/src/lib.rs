//! A small table store over comma-separated text.
//!
//! A table is a text whose first line names the columns and whose other lines
//! are rows. The crate evaluates `WHERE` conditions against a row
//! ([`conditions`]), resolves `SELECT`, `INSERT`, `UPDATE` and `DELETE`
//! against the lines of a table ([`handler_tables`]), and cuts the text of a
//! statement into the parts that those take ([`extractors`], [`statements`]).
//! It reads and writes no file: a caller hands it the text of a table and
//! writes what it gets back.
//!
//! Every function is verified against a specification over sequences of
//! characters; the `laws` modules state what holds of all conditions and all
//! tables.

pub mod conditions;
pub mod consults;
pub mod errors;
pub mod extractors;
pub mod handler_tables;
pub mod sorter;
pub mod statements;
pub mod text;
