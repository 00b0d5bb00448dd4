//! The instructions that the secure processor interface offers.
use vstd::prelude::*;

verus! {

/// The privilege level of the guest operating system.
pub const GUEST_VMPL: u64 = 2;

/// Bits of the operand of `RMPADJUST`: the target privilege level, the
/// permissions that it gets and the attribute that marks a VMSA page.
pub struct RMPFlags;

impl RMPFlags {
    pub const VMPL0: u64 = 0;

    pub const VMPL1: u64 = 1;

    pub const VMPL2: u64 = 2;

    pub const VMPL3: u64 = 3;

    pub const GUEST_VMPL: u64 = 2;

    pub const READ: u64 = 0x100;

    pub const WRITE: u64 = 0x200;

    pub const X_USER: u64 = 0x400;

    pub const X_SUPER: u64 = 0x800;

    pub const BIT_VMSA: u64 = 0x1_0000;

    pub const NONE: u64 = 0;

    pub const RWX: u64 = 0xF00;

    pub const VMSA: u64 = 0x1_0100;
}

/// Why an instruction of the secure processor interface failed, with the
/// number that it gave.
#[derive(Clone, Copy, PartialEq, Eq, Structural, Debug)]
#[allow(non_camel_case_types)]
pub enum SevSnpError {
    FAIL_INPUT(u64),
    FAIL_PERMISSION(u64),
    FAIL_SIZEMISMATCH(u64),
    /// The page is the state of a core that runs.
    FAIL_INUSE(u64),
    /// The page already was in the state asked for.
    FAIL_UNCHANGED(u64),
}

/// An error of the layer below the monitor.
#[derive(Clone, Copy, PartialEq, Eq, Structural, Debug)]
pub enum SvsmError {
    SevSnp(SevSnpError),
}

impl From<SevSnpError> for SvsmError {
    fn from(e: SevSnpError) -> (r: Self) {
        SvsmError::SevSnp(e)
    }
}

impl vstd::std_specs::convert::FromSpecImpl<SevSnpError> for SvsmError {
    open spec fn obeys_from_spec() -> bool {
        true
    }

    open spec fn from_spec(e: SevSnpError) -> Self {
        SvsmError::SevSnp(e)
    }
}

impl SevSnpError {
    /// The name of the error.
    pub fn name(&self) -> (r: &'static str)
        ensures
            r@ == (match *self {
                SevSnpError::FAIL_INPUT(_) => "FAIL_INPUT"@,
                SevSnpError::FAIL_INUSE(_) => "FAIL_INUSE"@,
                SevSnpError::FAIL_UNCHANGED(_) => "FAIL_UNCHANGED"@,
                SevSnpError::FAIL_PERMISSION(_) => "FAIL_PERMISSION"@,
                SevSnpError::FAIL_SIZEMISMATCH(_) => "FAIL_SIZEMISMATCH"@,
            }),
    {
        match self {
            SevSnpError::FAIL_INPUT(_) => "FAIL_INPUT",
            SevSnpError::FAIL_INUSE(_) => "FAIL_INUSE",
            SevSnpError::FAIL_UNCHANGED(_) => "FAIL_UNCHANGED",
            SevSnpError::FAIL_PERMISSION(_) => "FAIL_PERMISSION",
            SevSnpError::FAIL_SIZEMISMATCH(_) => "FAIL_SIZEMISMATCH",
        }
    }
}

/// The state that `PVALIDATE` gives a page.
#[derive(Clone, Copy, PartialEq, Eq, Structural, Debug)]
pub enum PvalidateOp {
    Invalid,
    Valid,
}

/// Sizes of pages.
#[derive(Clone, Copy, PartialEq, Eq, Structural, Debug)]
pub enum PageSize {
    Regular,
    Huge,
}

/// The operands of `PVALIDATE` in `rax`, `rcx` and `rdx`.
pub fn pvalidate_operands(vaddr: u64, size: PageSize, valid: PvalidateOp) -> (r: (u64, u64, u64))
    ensures
        r.0 == vaddr,
        r.1 == (if size == PageSize::Regular {
            0u64
        } else {
            1u64
        }),
        r.2 == (if valid == PvalidateOp::Invalid {
            0u64
        } else {
            1u64
        }),
{
    let rcx: u64 = match size {
        PageSize::Regular => 0,
        PageSize::Huge => 1,
    };
    let rdx: u64 = match valid {
        PvalidateOp::Invalid => 0,
        PvalidateOp::Valid => 1,
    };
    (vaddr, rcx, rdx)
}

/// What `PVALIDATE` did, from its return value and the carry flag. The return
/// values are 0, 1 and 6.
pub fn pvalidate(ret: u64, cf: u64) -> (r: Result<(), SvsmError>)
    requires
        ret == 0 || ret == 1 || ret == 6,
    ensures
        r == (if ret == 0 {
            if cf == 0 {
                Ok(())
            } else {
                Err(SvsmError::SevSnp(SevSnpError::FAIL_UNCHANGED(0x10)))
            }
        } else if ret == 1 {
            Err(SvsmError::SevSnp(SevSnpError::FAIL_INPUT(1)))
        } else {
            Err(SvsmError::SevSnp(SevSnpError::FAIL_SIZEMISMATCH(6)))
        }),
{
    if ret == 0 {
        if cf == 0 {
            Ok(())
        } else {
            Err(SvsmError::from(SevSnpError::FAIL_UNCHANGED(0x10)))
        }
    } else if ret == 1 {
        Err(SvsmError::from(SevSnpError::FAIL_INPUT(ret)))
    } else {
        Err(SvsmError::from(SevSnpError::FAIL_SIZEMISMATCH(ret)))
    }
}

/// What `RMPADJUST` did: `ex` is not 0 where it raised an exception, `ret` is
/// its return value otherwise, one of 0, 1, 2, 3 and 6.
pub open spec fn adjusted(ret: u64, ex: u64) -> Result<(), SvsmError> {
    if ex != 0 {
        Err(SvsmError::SevSnp(SevSnpError::FAIL_INPUT(1)))
    } else if ret == 0 {
        Ok(())
    } else if ret == 1 {
        Err(SvsmError::SevSnp(SevSnpError::FAIL_INPUT(1)))
    } else if ret == 2 {
        Err(SvsmError::SevSnp(SevSnpError::FAIL_PERMISSION(2)))
    } else if ret == 3 {
        Err(SvsmError::SevSnp(SevSnpError::FAIL_INUSE(3)))
    } else {
        Err(SvsmError::SevSnp(SevSnpError::FAIL_SIZEMISMATCH(6)))
    }
}

/// What `RMPADJUST` did.
pub fn rmp_adjust(ret: u64, ex: u64) -> (r: Result<(), SvsmError>)
    requires
        ex != 0 || ret <= 3 || ret == 6,
    ensures
        r == adjusted(ret, ex),
{
    if ex != 0 {
        return Err(SvsmError::from(SevSnpError::FAIL_INPUT(1)));
    }
    if ret == 0 {
        Ok(())
    } else if ret == 1 {
        Err(SvsmError::from(SevSnpError::FAIL_INPUT(ret)))
    } else if ret == 2 {
        Err(SvsmError::from(SevSnpError::FAIL_PERMISSION(ret)))
    } else if ret == 3 {
        Err(SvsmError::from(SevSnpError::FAIL_INUSE(ret)))
    } else {
        Err(SvsmError::from(SevSnpError::FAIL_SIZEMISMATCH(ret)))
    }
}

/// What comes next in a sequence of `RMPADJUST` instructions on one page.
#[derive(Clone, Copy, Debug)]
pub enum RmpStep {
    /// The next instruction, with its operand.
    Adjust { flags: u64 },
    /// The sequence has ended.
    Done(Result<(), SvsmError>),
}

/// The sequence of operands goes on after `done` instructions, where the last
/// one was successful.
pub open spec fn rmp_sequence(operands: Seq<u64>, done: u64, last: Result<(), SvsmError>) -> RmpStep {
    if done > 0 && last is Err {
        RmpStep::Done(last)
    } else if done < operands.len() {
        RmpStep::Adjust { flags: operands[done as int] }
    } else {
        RmpStep::Done(Ok(()))
    }
}

/// Takes all permissions on a page from the guest and from level 3, as far as
/// the instructions succeed.
pub fn rmp_revoke_guest_access(done: u64, last: Result<(), SvsmError>) -> (r: RmpStep)
    ensures
        r == rmp_sequence(seq![2u64, 3u64], done, last),
{
    if done > 0 && last.is_err() {
        RmpStep::Done(last)
    } else if done == 0 {
        RmpStep::Adjust { flags: RMPFlags::GUEST_VMPL }
    } else if done == 1 {
        RmpStep::Adjust { flags: RMPFlags::VMPL3 }
    } else {
        RmpStep::Done(Ok(()))
    }
}

/// Takes all permissions on a page from the levels 1 to 3 and clears its VMSA
/// attribute, as far as the instructions succeed.
pub fn rmp_revoke_all_guest_access(done: u64, last: Result<(), SvsmError>) -> (r: RmpStep)
    ensures
        r == rmp_sequence(seq![1u64, 2u64, 3u64], done, last),
{
    if done > 0 && last.is_err() {
        RmpStep::Done(last)
    } else if done == 0 {
        RmpStep::Adjust { flags: RMPFlags::VMPL1 }
    } else if done == 1 {
        RmpStep::Adjust { flags: RMPFlags::VMPL2 }
    } else if done == 2 {
        RmpStep::Adjust { flags: RMPFlags::VMPL3 }
    } else {
        RmpStep::Done(Ok(()))
    }
}

/// Makes a page the VMSA of the guest, as far as the instructions succeed.
pub fn rmp_set_guest_vmsa(done: u64, last: Result<(), SvsmError>) -> (r: RmpStep)
    ensures
        r == rmp_sequence(seq![2u64, 3u64, 0x1_0102u64], done, last),
{
    if done > 0 && last.is_err() {
        RmpStep::Done(last)
    } else if done < 2 {
        rmp_revoke_guest_access(done, last)
    } else if done == 2 {
        RmpStep::Adjust { flags: 0x1_0102 }
    } else {
        RmpStep::Done(Ok(()))
    }
}

/// Full access of a trusted process (VMPL1).
pub const VMPL1_RWX: u64 = 0xF01;

/// Read and write access of a trusted process (VMPL1).
pub const VMPL1_RW: u64 = 0x301;

/// Read access of a trusted process (VMPL1).
pub const VMPL1_READ: u64 = 0x101;

/// Full access of the guest (VMPL2).
pub const VMPL2_RWX: u64 = 0xF02;

/// Read access of the guest (VMPL2).
pub const VMPL2_READ: u64 = 0x102;

} // verus!
