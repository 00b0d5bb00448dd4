//! Attestation of processes.
use vstd::prelude::*;
use crate::process_manager::process::TrustedProcess;

verus! {

/// Attests the monitor, which always succeeds.
pub fn attest_process() -> (r: bool)
    ensures
        r,
{
    true
}

/// A process has no hash of its own; it is left as it is.
pub fn hash_process(process: &mut TrustedProcess)
    ensures
        *final(process) == *old(process),
{
    let _ = process;
}

} // verus!
