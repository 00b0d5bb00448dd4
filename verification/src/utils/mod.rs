//! Small helpers.
pub mod tsc;
