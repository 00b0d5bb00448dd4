//! The page tables of trusted processes.
pub mod balance;
pub mod cow;
pub mod delivery;
pub mod elf_image;
pub mod entry;
pub mod expected;
pub mod finalize;
pub mod growth;
pub mod guest_copy;
pub mod isolation;
pub mod loading;
pub mod mapping;
pub mod origin;
pub mod program;
pub mod ranges;
pub mod reclaim;
pub mod region;
pub mod sharing;
pub mod slots;
pub mod soundness;
pub mod spared;
pub mod supply;
pub mod teardown;
pub mod transfer;
pub mod walk;
pub mod widening;
