//! Answers to `CPUID`.
use vstd::prelude::*;

verus! {

/// What `CPUID` gives.
#[derive(Clone, Copy, PartialEq, Eq, Structural, Debug)]
pub struct CpuidResult {
    pub eax: u32,
    pub ebx: u32,
    pub ecx: u32,
    pub edx: u32,
}

/// Whether a leaf has sub-leaves. A leaf without is looked up with sub-leaf 0,
/// whatever the process asks for.
pub open spec fn has_subleaf(eax: u32) -> bool {
    eax == 4 || eax == 7 || eax == 0xb || eax == 0xd || eax == 0xf || eax == 0x10 || eax == 0x12
        || eax == 0x14 || eax == 0x17 || eax == 0x18 || eax == 0x1d || eax == 0x1e || eax == 0x1f
        || eax == 0x24 || eax == 0x8000001d
}

/// Whether a leaf has sub-leaves.
pub fn leaf_has_subleaf(eax: u32) -> (r: bool)
    ensures
        r == has_subleaf(eax),
{
    eax == 4 || eax == 7 || eax == 0xb || eax == 0xd || eax == 0xf || eax == 0x10 || eax == 0x12
        || eax == 0x14 || eax == 0x17 || eax == 0x18 || eax == 0x1d || eax == 0x1e || eax == 0x1f
        || eax == 0x24 || eax == 0x8000001d
}

} // verus!
