//! The state of cores.
pub mod gdt;
pub mod vmsa;
