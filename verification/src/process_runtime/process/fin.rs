//! A process is finished, and others can be made from it.
use vstd::prelude::*;
use crate::memory::machine::Machine;
use crate::process_manager::process_paging::finalize;
use crate::process_manager::process_paging::walk::ProcessPageTableRef;
use crate::process_runtime::{PALContext, ReturnTarget, RETURN_TO_GUEST};

verus! {

/// Finishes processes.
pub trait ProcessRuntimeFin {
    fn pal_svsm_finalize(&mut self, m: &mut Machine) -> ReturnTarget;
}

impl ProcessRuntimeFin for PALContext {
    /// Marks all pages of the process to be copied before they are written.
    fn pal_svsm_finalize(&mut self, m: &mut Machine) -> (r: ReturnTarget)
        ensures
            r == RETURN_TO_GUEST,
            *final(self) == *old(self),
            final(m)@ == finalize::finalized(old(m)@, old(self).vmsa.cr3),
    {
        ProcessPageTableRef::external(self.vmsa.cr3).finalize_pages(m);
        RETURN_TO_GUEST
    }
}

} // verus!
