//! Attestation.
pub mod process;
