//! Reading the parts of a statement from its text.

pub mod extractor;
pub mod sqlcommand;
pub mod values;
