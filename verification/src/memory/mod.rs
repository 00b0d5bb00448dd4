//! Physical memory and the machine that holds it.
pub mod machine;
