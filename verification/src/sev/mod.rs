//! The privileged operations on the reverse map table.
pub mod utils;
