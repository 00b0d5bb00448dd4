//! Runs processes that others are made from.
use vstd::prelude::*;
use crate::cpu::vmsa::Vmsa;
use crate::process_manager::process::ProcessID;
use crate::process_runtime::PALContext;

verus! {

/// A process as it runs for the first time, before others are made from it.
/// There is no guest that waits for it.
pub fn early_invoke(zygote: ProcessID, vmsa: Vmsa) -> (r: PALContext)
    ensures
        r.is_fresh(zygote, vmsa, false),
{
    PALContext::new(zygote, vmsa, false)
}

} // verus!
