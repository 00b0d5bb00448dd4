//! What the layer below the monitor answers.
pub mod cpuid;
pub mod report;
pub mod snp;
