//! Calls about the core that a process runs on.
use vstd::prelude::*;
use crate::cpu::vmsa::Vmsa;
use crate::interop::cpuid;
use crate::interop::cpuid::{leaf_has_subleaf, CpuidResult};
use crate::process_runtime::{PALContext, ReturnTarget, RETURN_TO_PROCESS};

verus! {

/// Calls about the core that a process runs on.
pub trait ProcessRuntimeMisc {
    fn pal_nop(&mut self) -> ReturnTarget;

    fn cpuid_request(&self) -> (u32, u32);

    fn pal_svsm_cpuid(&mut self, found: Option<CpuidResult>) -> ReturnTarget;

    fn pal_svsm_set_tcb(&mut self) -> ReturnTarget;

    fn pal_svsm_call_outb(&mut self) -> ReturnTarget;

    fn pal_svsm_call_outb_with_value(&mut self) -> ReturnTarget;
}

/// The registers of a process after a `CPUID` for which the given was found.
pub open spec fn cpuid_answered(v: Vmsa, found: Option<CpuidResult>) -> Vmsa {
    let res = match found {
        Some(res) => res,
        None => CpuidResult { eax: 0, ebx: 0, ecx: 0, edx: 0 },
    };
    Vmsa {
        rax: res.eax as u64,
        rbx: res.ebx as u64,
        rcx: if v.rax % 0x1_0000_0000 == 1 {
            res.ecx as u64 | 0x800_0000
        } else {
            res.ecx as u64
        },
        rdx: res.edx as u64,
        ..v
    }
}

impl ProcessRuntimeMisc for PALContext {
    /// Does nothing.
    fn pal_nop(&mut self) -> (r: ReturnTarget)
        ensures
            r == RETURN_TO_PROCESS,
            *final(self) == *old(self),
    {
        RETURN_TO_PROCESS
    }

    /// The leaf and the sub-leaf that a `CPUID` of the process is looked up
    /// with.
    fn cpuid_request(&self) -> (r: (u32, u32))
        ensures
            r.0 == self.vmsa.rax % 0x1_0000_0000,
            r.1 == (if cpuid::has_subleaf(r.0) {
                self.vmsa.rcx as int % 0x1_0000_0000
            } else {
                0
            }),
    {
        let eax = (self.vmsa.rax % 0x1_0000_0000) as u32;
        let ecx = if leaf_has_subleaf(eax) {
            (self.vmsa.rcx % 0x1_0000_0000) as u32
        } else {
            0
        };
        (eax, ecx)
    }

    /// Answers a `CPUID` with what was found for it; zeros where nothing was.
    /// Leaf 1 always says that the system uses extended state.
    fn pal_svsm_cpuid(&mut self, found: Option<CpuidResult>) -> (r: ReturnTarget)
        ensures
            r == RETURN_TO_PROCESS,
            *final(self) == (PALContext {
                vmsa: cpuid_answered(old(self).vmsa, found),
                ..*old(self)
            }),
    {
        let eax = self.vmsa.rax % 0x1_0000_0000;
        let res = match found {
            Some(res) => res,
            None => CpuidResult { eax: 0, ebx: 0, ecx: 0, edx: 0 },
        };
        self.vmsa.rax = res.eax as u64;
        self.vmsa.rbx = res.ebx as u64;
        if eax == 1 {
            self.vmsa.rcx = res.ecx as u64 | 0x800_0000;
        } else {
            self.vmsa.rcx = res.ecx as u64;
        }
        self.vmsa.rdx = res.edx as u64;
        RETURN_TO_PROCESS
    }

    /// Sets the thread control block of the process.
    fn pal_svsm_set_tcb(&mut self) -> (r: ReturnTarget)
        ensures
            r == RETURN_TO_PROCESS,
            *final(self) == (PALContext {
                vmsa: Vmsa { gs_base: old(self).vmsa.rbx, ..old(self).vmsa },
                ..*old(self)
            }),
    {
        self.vmsa.gs_base = self.vmsa.rbx;
        RETURN_TO_PROCESS
    }

    /// Marks a point in time, where times are taken; changes nothing.
    fn pal_svsm_call_outb(&mut self) -> (r: ReturnTarget)
        ensures
            r == RETURN_TO_PROCESS,
            *final(self) == *old(self),
    {
        RETURN_TO_PROCESS
    }

    /// Marks a point in time with a value, where times are taken; changes
    /// nothing.
    fn pal_svsm_call_outb_with_value(&mut self) -> (r: ReturnTarget)
        ensures
            r == RETURN_TO_PROCESS,
            *final(self) == *old(self),
    {
        RETURN_TO_PROCESS
    }
}

/// What was found for a leaf is what the process gets, register by register, in
/// the low half of each; of the leaf with the features it also gets the bit for
/// extended state, and loses none. Nothing else of it is changed.
pub proof fn law_leaf_is_answered_as_found(v: Vmsa, res: CpuidResult)
    ensures
        ({
            let w = cpuid_answered(v, Some(res));
            &&& w.rax == res.eax
            &&& w.rbx == res.ebx
            &&& w.rdx == res.edx
            &&& v.rax % 0x1_0000_0000 != 1 ==> w.rcx == res.ecx
            &&& v.rax % 0x1_0000_0000 == 1 ==> {
                &&& w.rcx & 0x800_0000 == 0x800_0000
                &&& w.rcx & 0xFFFF_FFFF_F7FF_FFFF == res.ecx as u64 & 0xFFFF_FFFF_F7FF_FFFF
            }
            &&& w == (Vmsa { rax: w.rax, rbx: w.rbx, rcx: w.rcx, rdx: w.rdx, ..v })
        }),
{
    let e = res.ecx as u64;
    assert((e | 0x800_0000) & 0x800_0000 == 0x800_0000 && (e | 0x800_0000) & 0xFFFF_FFFF_F7FF_FFFF
        == e & 0xFFFF_FFFF_F7FF_FFFF) by (bit_vector);
}

} // verus!
