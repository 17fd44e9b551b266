//! Sort keys, and sorting rows by them.

pub mod arrange;
pub mod sort;
