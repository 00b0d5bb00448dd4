//! The registers of a process.
use vstd::prelude::*;

verus! {

/// What the state page of a core says of a process.
#[derive(Clone, Copy, PartialEq, Eq, Structural, Debug)]
pub struct Vmsa {
    pub rax: u64,
    pub rbx: u64,
    pub rcx: u64,
    pub rdx: u64,
    pub rsi: u64,
    pub rdi: u64,
    pub rbp: u64,
    pub rsp: u64,
    pub r8: u64,
    pub r9: u64,
    pub r10: u64,
    pub r11: u64,
    pub r12: u64,
    pub r13: u64,
    pub r14: u64,
    pub r15: u64,
    pub rip: u64,
    pub rflags: u64,
    pub cr2: u64,
    pub cr3: u64,
    pub cr4: u64,
    pub efer: u64,
    pub gs_base: u64,
    pub sev_features: u64,
    pub vmpl: u8,
}

impl Default for Vmsa {
    fn default() -> (r: Self)
        ensures
            r == (Vmsa {
                rax: 0,
                rbx: 0,
                rcx: 0,
                rdx: 0,
                rsi: 0,
                rdi: 0,
                rbp: 0,
                rsp: 0,
                r8: 0,
                r9: 0,
                r10: 0,
                r11: 0,
                r12: 0,
                r13: 0,
                r14: 0,
                r15: 0,
                rip: 0,
                rflags: 0,
                cr2: 0,
                cr3: 0,
                cr4: 0,
                efer: 0,
                gs_base: 0,
                sev_features: 0,
                vmpl: 0,
            }),
    {
        Vmsa {
            rax: 0,
            rbx: 0,
            rcx: 0,
            rdx: 0,
            rsi: 0,
            rdi: 0,
            rbp: 0,
            rsp: 0,
            r8: 0,
            r9: 0,
            r10: 0,
            r11: 0,
            r12: 0,
            r13: 0,
            r14: 0,
            r15: 0,
            rip: 0,
            rflags: 0,
            cr2: 0,
            cr3: 0,
            cr4: 0,
            efer: 0,
            gs_base: 0,
            sev_features: 0,
            vmpl: 0,
        }
    }
}

/// Whether a state page is one that the monitor can run: it has the privilege
/// level and the features that are asked for, and virtualization is on.
pub fn check_vmsa_ind(new: &Vmsa, sev_features: u64, svme_mask: u64, vmpl_level: u64) -> (r: bool)
    ensures
        r == (new.vmpl == vmpl_level % 256 && new.efer & svme_mask == svme_mask && new.sev_features
            == sev_features),
{
    new.vmpl == (vmpl_level % 256) as u8 && new.efer & svme_mask == svme_mask && new.sev_features
        == sev_features
}

} // verus!
