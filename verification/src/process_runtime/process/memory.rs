//! Memory that processes ask for.
use vstd::prelude::*;
use crate::address;
use crate::address::pages_above;
use crate::memory::machine::{Machine, MachineState};
use crate::process_manager::process::TrustedProcess;
use crate::process_manager::process_memory::{allocate_page, pages_available};
use crate::process_manager::process_paging::entry::{GraminePalProtFlags, ProcessPageFlags};
use crate::process_manager::process_paging::mapping;
use crate::process_manager::process_paging::mapping::TP_LIBOS_START_VADDR;
use crate::process_manager::process_paging::region;
use crate::process_manager::process_paging::teardown;
use crate::process_manager::process_paging::walk;
use crate::process_manager::process_paging::walk::ProcessPageTableRef;
use crate::process_runtime::process::mmap;
use crate::process_runtime::process::mmap::{MmapInfo, RangeWrapper};
use crate::process_runtime::{PALContext, ReturnTarget, RETURN_TO_PROCESS};
use crate::sev::utils::VMPL1_RWX;

verus! {

/// The number by which a process names the file of its library OS.
pub const LIBOS_FD: u64 = 0xFFFF_FFFF_FFFF_FFFE;

/// Serves memory.
pub trait ProcessRuntimeMemory {
    /// Whether a file can be mapped as the process asks for it.
    spec fn can_map(&self, s: MachineState) -> bool;

    /// Whether the pages that are to be protected can be counted.
    spec fn can_protect(&self) -> bool;

    fn pal_svsm_virt_alloc(&mut self, m: &mut Machine) -> ReturnTarget;

    fn pal_svsm_virt_free(&mut self, m: &mut Machine) -> ReturnTarget;

    fn pal_svsm_map(&mut self, m: &mut Machine, p: &mut TrustedProcess) -> ReturnTarget
        requires
            old(self).can_map(old(m)@),
    ;

    fn pal_svsm_mprotect(&mut self, m: &mut Machine) -> ReturnTarget
        requires
            old(self).can_protect(),
    ;
}

/// The lower half of a register as a signed number.
pub open spec fn low_half(x: u64) -> int {
    let low = x as int % 0x1_0000_0000;
    if low < 0x8000_0000 {
        low
    } else {
        low - 0x1_0000_0000
    }
}

fn lower_half(x: u64) -> (r: i32)
    ensures
        r == low_half(x),
{
    let low: u64 = x % 0x1_0000_0000;
    if low < 0x8000_0000 {
        low as i32
    } else {
        (low as i64 - 0x1_0000_0000) as i32
    }
}

/// The flags of memory that a process asks for: it can always be written to.
pub open spec fn memory_flags(prot: u64) -> u64 {
    if prot & 0x4 != 0 {
        0x167
    } else {
        0x8000_0000_0000_0167
    }
}

/// The flags of a mapped file, without the mark of its presence. A file that
/// is copied on write cannot be written to.
pub open spec fn file_flags(prot: u64) -> u64 {
    if prot & 0x4 != 0 {
        if prot & 0x2 != 0 && prot & 0x8 == 0 {
            0x26
        } else {
            0x24
        }
    } else {
        if prot & 0x2 != 0 && prot & 0x8 == 0 {
            0x8000_0000_0000_0026
        } else {
            0x8000_0000_0000_0024
        }
    }
}

/// The machine after the first `n` pages of the library OS, from `offset` on,
/// were mapped at `va`: copies of them, where they are copied on write. None
/// where a page does not end up where it should.
pub open spec fn libos_mapped(
    s: MachineState,
    root: u64,
    va: u64,
    offset: u64,
    prot: u64,
    n: nat,
) -> Option<MachineState>
    decreases n,
{
    if n == 0 {
        Some(s)
    } else {
        match libos_mapped(s, root, va, offset, prot, (n - 1) as nat) {
            None => None,
            Some(t) => {
                let dst = address::page_above(va, n - 1);
                let src = address::addr_add(
                    address::page_above(TP_LIBOS_START_VADDR, n - 1),
                    offset as int,
                );
                let frame = walk::entry_frame(t, root, src);
                if prot & 0x8 != 0 {
                    let (u, page) = t.take_page();
                    Some(
                        mapping::map_page(
                            u.grant(page, VMPL1_RWX).copy(page, frame),
                            root,
                            dst,
                            page,
                            (file_flags(prot) + 0x3) as u64,
                        ),
                    )
                } else {
                    let u = mapping::map_page(t, root, dst, frame, (file_flags(prot) + 0x1) as u64);
                    if walk::entry_frame(u, root, dst) == frame {
                        Some(u)
                    } else {
                        None
                    }
                }
            },
        }
    }
}

/// The machine after the first `n` pages of a file were mapped without memory:
/// it comes when the process first uses a page.
pub open spec fn file_mapped(s: MachineState, root: u64, va: u64, prot: u64, n: nat) -> MachineState
    decreases n,
{
    if n == 0 {
        s
    } else {
        mapping::map_page(
            file_mapped(s, root, va, prot, (n - 1) as nat),
            root,
            address::page_above(va, n - 1),
            0,
            file_flags(prot),
        )
    }
}

/// The machine after the first `n` pages from `va` on were protected.
pub open spec fn run_protected(s: MachineState, root: u64, va: u64, prot: u64, n: nat) -> MachineState
    decreases n,
{
    if n == 0 {
        s
    } else {
        walk::protect(
            run_protected(s, root, va, prot, (n - 1) as nat),
            root,
            address::page_above(va, n - 1),
            prot & 0x2 != 0 || prot & 0x8 != 0,
            prot & 0x4 != 0,
        )
    }
}

impl PALContext {
    /// Whether a request to map a file is one that is looked at: it is made of
    /// whole pages, and there is memory for them.
    pub open spec fn map_request_ok(self, s: MachineState) -> bool {
        &&& self.vmsa.rbx % 4096 == 0
        &&& self.vmsa.rcx % 4096 == 0
        &&& self.vmsa.r9 % 4096 == 0
        &&& self.vmsa.rcx / 4096 + 16 < s.pool.available_word()
    }

    /// The machine and the process after a file was mapped; none where it
    /// cannot be.
    pub open spec fn map_outcome(self, s: MachineState, p: TrustedProcess) -> Option<
        (MachineState, Seq<(RangeWrapper, MmapInfo)>),
    > {
        let v = self.vmsa;
        let pages = (v.rcx / 4096) as nat;
        if v.r8 == LIBOS_FD {
            match libos_mapped(s, v.cr3, v.rbx, v.r9, v.rdx, pages) {
                None => None,
                Some(t) => Some((t, p.mmap_manager@)),
            }
        } else if v.rbx + v.rcx > u64::MAX {
            None
        } else {
            Some(
                (
                    file_mapped(s, v.cr3, v.rbx, v.rdx, pages),
                    mmap::with_mapping(
                        p.mmap_manager@,
                        RangeWrapper { start: v.rbx, end: (v.rbx + v.rcx) as u64 },
                        MmapInfo {
                            fd: low_half(v.r8) as i32,
                            offset: v.r9,
                            addr: v.rbx,
                            size: v.rcx,
                        },
                    ),
                ),
            )
        }
    }

    /// Whether the context, the machine and the process are what they are after
    /// a request to map a file was served.
    pub open spec fn map_served(
        self,
        s: MachineState,
        p: TrustedProcess,
        after: PALContext,
        t: MachineState,
        q: TrustedProcess,
    ) -> bool {
        if self.map_request_ok(s) {
            &&& after == self.with_rcx(0)
            &&& q == (TrustedProcess { mmap_manager: q.mmap_manager, ..p })
            &&& self.map_outcome(s, p) == Some((t, q.mmap_manager@))
        } else {
            &&& after == self.refused()
            &&& t == s
            &&& q == p
        }
    }

    /// The context and the machine after a request for memory was served.
    pub open spec fn alloc_served(self, s: MachineState) -> (PALContext, MachineState) {
        let v = self.vmsa;
        let (t, ok) = region::add_run(
            s,
            v.cr3,
            v.rbx,
            (v.rcx / 4096) as nat,
            memory_flags(v.rdx),
            None,
        );
        if v.rbx % 4096 != 0 || v.rcx % 4096 != 0 {
            (self.refused(), s)
        } else if ok {
            (self.with_rcx(0), t)
        } else {
            (self.refused(), t)
        }
    }

    /// The context and the machine after memory was taken back.
    pub open spec fn free_served(self, s: MachineState) -> (PALContext, MachineState) {
        let v = self.vmsa;
        if v.rbx % 4096 != 0 || v.rcx % 4096 != 0 {
            (self.refused(), s)
        } else {
            (
                self,
                teardown::pages_removed(s, v.cr3, v.rbx, (v.rcx / 4096) as nat, None),
            )
        }
    }

    /// The context and the machine after memory was protected.
    pub open spec fn protect_served(self, s: MachineState) -> (PALContext, MachineState) {
        let v = self.vmsa;
        (
            self.with_rcx(0),
            run_protected(
                s,
                v.cr3,
                (v.rbx - v.rbx % 4096) as u64,
                v.rdx,
                ((v.rbx % 4096 + v.rcx + 4095) / 4096) as nat,
            ),
        )
    }

    /// Maps pages of the library OS. Gives `false` where a page does not end
    /// up where it should.
    #[verifier::rlimit(40)]
    fn map_libos(&self, m: &mut Machine) -> (r: bool)
        ensures
            match libos_mapped(
                old(m)@,
                self.vmsa.cr3,
                self.vmsa.rbx,
                self.vmsa.r9,
                self.vmsa.rdx,
                (self.vmsa.rcx / 4096) as nat,
            ) {
                Some(t) => r && final(m)@ == t,
                None => !r,
            },
    {
        let table = ProcessPageTableRef::external(self.vmsa.cr3);
        let (va, offset, prot) = (self.vmsa.rbx, self.vmsa.r9, self.vmsa.rdx);
        let pages = self.vmsa.rcx / 4096;
        let flags = file_page_flags(prot);
        let writecopy = prot & GraminePalProtFlags::WRITECOPY != 0;
        proof {
            lemma_file_flags();
            mapping::lemma_plain_flags();
        }
        let present = flags | ProcessPageFlags::PRESENT;
        let copied = present | ProcessPageFlags::WRITABLE;
        let mut i: u64 = 0;
        while i < pages
            invariant
                i <= pages,
                pages == self.vmsa.rcx / 4096,
                table.process_page_table == self.vmsa.cr3,
                va == self.vmsa.rbx,
                offset == self.vmsa.r9,
                prot == self.vmsa.rdx,
                writecopy == (prot & 0x8 != 0),
                present == file_flags(prot) + 1,
                writecopy ==> copied == file_flags(prot) + 3,
                mapping::flags_ok(present),
                writecopy ==> mapping::flags_ok(copied),
                libos_mapped(old(m)@, self.vmsa.cr3, va, offset, prot, i as nat) == Some(m@),
            decreases pages - i,
        {
            let src = pages_above(TP_LIBOS_START_VADDR, i).wrapping_add(offset);
            let dst = pages_above(va, i);
            assert(src == address::addr_add(
                address::page_above(TP_LIBOS_START_VADDR, i as int),
                offset as int,
            ));
            let frame = table.virt_to_phys(m, src);
            if writecopy {
                let page = allocate_page(m);
                m.grant(page, VMPL1_RWX);
                m.copy_page(page, frame);
                table.map_4k_page(m, dst, page, copied);
            } else {
                table.map_4k_page(m, dst, frame, present);
                if table.virt_to_phys(m, dst) != frame {
                    proof {
                        lemma_libos_prefix(
                            old(m)@,
                            self.vmsa.cr3,
                            va,
                            offset,
                            prot,
                            (i + 1) as nat,
                            pages as nat,
                        );
                    }
                    return false;
                }
            }
            i = i + 1;
        }
        true
    }

    /// Serves a request to map a file; see `pal_svsm_map`. Gives none where it
    /// cannot be served.
    pub fn serve_map(&mut self, m: &mut Machine, p: &mut TrustedProcess) -> (r: Option<ReturnTarget>)
        ensures
            match r {
                None => !old(self).can_map(old(m)@),
                Some(target) => target == RETURN_TO_PROCESS && old(self).can_map(old(m)@) && old(
                    self,
                ).map_served(old(m)@, *old(p), *final(self), final(m)@, *final(p)),
            },
    {
        let addr = self.vmsa.rbx;
        let size = self.vmsa.rcx;
        let prot = self.vmsa.rdx;
        let fd = self.vmsa.r8;
        let offset = self.vmsa.r9;
        if addr % 4096 != 0 || size % 4096 != 0 || offset % 4096 != 0 {
            return Some(self.refuse());
        }
        let num_pages = size / 4096;
        if num_pages + 16 >= pages_available(m) {
            return Some(self.refuse());
        }
        if fd == LIBOS_FD {
            if !self.map_libos(m) {
                return None;
            }
            self.vmsa.rcx = 0;
            return Some(RETURN_TO_PROCESS);
        }
        if addr > u64::MAX - size {
            return None;
        }
        p.mmap_manager.add_mapping(addr, size, lower_half(fd), offset);
        let table = ProcessPageTableRef::external(self.vmsa.cr3);
        let flags = file_page_flags(prot);
        proof {
            lemma_file_flags();
            mapping::lemma_plain_flags();
        }
        let ghost root = self.vmsa.cr3;
        let mut i: u64 = 0;
        while i < num_pages
            invariant
                i <= num_pages,
                table.process_page_table == root,
                flags == file_flags(prot),
                mapping::flags_ok(flags),
                m@ == file_mapped(old(m)@, root, addr, prot, i as nat),
            decreases num_pages - i,
        {
            table.map_4k_page(m, pages_above(addr, i), 0, flags);
            i = i + 1;
        }
        self.vmsa.rcx = 0;
        Some(RETURN_TO_PROCESS)
    }
}

fn file_page_flags(prot: u64) -> (r: u64)
    ensures
        r == file_flags(prot),
{
    let writable = prot & GraminePalProtFlags::WRITE != 0;
    let executable = prot & GraminePalProtFlags::EXEC != 0;
    let writecopy = prot & GraminePalProtFlags::WRITECOPY != 0;
    proof {
        lemma_file_flags();
    }
    let mut flags: u64 = ProcessPageFlags::USER_ACCESSIBLE | ProcessPageFlags::ACCESSED;
    if writable {
        flags = flags | ProcessPageFlags::WRITABLE;
    }
    if writecopy {
        flags = flags & !ProcessPageFlags::WRITABLE;
    }
    if !executable {
        flags = flags | ProcessPageFlags::NO_EXECUTE;
    }
    flags
}

proof fn lemma_file_flags()
    ensures
        0x4u64 | 0x20 == 0x24,
        0x24u64 | 0x2 == 0x26,
        0x26u64 & !0x2u64 == 0x24,
        0x24u64 & !0x2u64 == 0x24,
        0x24u64 | 0x8000_0000_0000_0000 == 0x8000_0000_0000_0024,
        0x26u64 | 0x8000_0000_0000_0000 == 0x8000_0000_0000_0026,
        0x24u64 | 0x1 == 0x25,
        0x26u64 | 0x1 == 0x27,
        0x8000_0000_0000_0024u64 | 0x1 == 0x8000_0000_0000_0025,
        0x8000_0000_0000_0026u64 | 0x1 == 0x8000_0000_0000_0027,
        0x25u64 | 0x2 == 0x27,
        0x8000_0000_0000_0025u64 | 0x2 == 0x8000_0000_0000_0027,
        0x8000_0000_0000_0167u64 | 0x2 == 0x8000_0000_0000_0167,
        0x8000_0000_0000_0167u64 & !0x8000_0000_0000_0000u64 == 0x167,
{
    assert(0x4u64 | 0x20 == 0x24 && 0x24u64 | 0x2 == 0x26 && 0x26u64 & !0x2u64 == 0x24 && 0x24u64
        & !0x2u64 == 0x24 && 0x24u64 | 0x8000_0000_0000_0000 == 0x8000_0000_0000_0024 && 0x26u64
        | 0x8000_0000_0000_0000 == 0x8000_0000_0000_0026 && 0x24u64 | 0x1 == 0x25 && 0x26u64 | 0x1
        == 0x27 && 0x8000_0000_0000_0024u64 | 0x1 == 0x8000_0000_0000_0025
        && 0x8000_0000_0000_0026u64 | 0x1 == 0x8000_0000_0000_0027 && 0x25u64 | 0x2 == 0x27
        && 0x8000_0000_0000_0025u64 | 0x2 == 0x8000_0000_0000_0027 && 0x8000_0000_0000_0167u64
        | 0x2 == 0x8000_0000_0000_0167 && 0x8000_0000_0000_0167u64 & !0x8000_0000_0000_0000u64
        == 0x167) by (bit_vector);
}

proof fn lemma_libos_prefix(
    s: MachineState,
    root: u64,
    va: u64,
    offset: u64,
    prot: u64,
    n: nat,
    all: nat,
)
    requires
        n <= all,
        libos_mapped(s, root, va, offset, prot, n) is None,
    ensures
        libos_mapped(s, root, va, offset, prot, all) is None,
    decreases all,
{
    if n < all {
        lemma_libos_prefix(s, root, va, offset, prot, n, (all - 1) as nat);
    }
}

impl ProcessRuntimeMemory for PALContext {
    open spec fn can_map(&self, s: MachineState) -> bool {
        self.map_request_ok(s) ==> if self.vmsa.r8 == LIBOS_FD {
            libos_mapped(
                s,
                self.vmsa.cr3,
                self.vmsa.rbx,
                self.vmsa.r9,
                self.vmsa.rdx,
                (self.vmsa.rcx / 4096) as nat,
            ) is Some
        } else {
            self.vmsa.rbx + self.vmsa.rcx <= u64::MAX
        }
    }

    open spec fn can_protect(&self) -> bool {
        self.vmsa.rbx % 4096 + self.vmsa.rcx + 4095 <= u64::MAX
    }

    /// Gives the process cleared memory of `rcx` bytes at `rbx`. The answer is
    /// 0, or -1 where that is not made of whole pages or a page is in use.
    fn pal_svsm_virt_alloc(&mut self, m: &mut Machine) -> (r: ReturnTarget)
        ensures
            r == RETURN_TO_PROCESS,
            (*final(self), final(m)@) == old(self).alloc_served(old(m)@),
    {
        let addr = self.vmsa.rbx;
        let size = self.vmsa.rcx;
        let flags = self.vmsa.rdx;
        if size % 4096 != 0 {
            return self.refuse();
        }
        if addr % 4096 != 0 {
            return self.refuse();
        }
        proof {
            lemma_file_flags();
        }
        let mut page_flags = ProcessPageFlags::data();
        if flags & GraminePalProtFlags::WRITE != 0 {
            page_flags = page_flags | ProcessPageFlags::WRITABLE;
        }
        if flags & GraminePalProtFlags::EXEC != 0 {
            page_flags = page_flags & !ProcessPageFlags::NO_EXECUTE;
        }
        let table = ProcessPageTableRef::external(self.vmsa.cr3);
        if !table.add_pages(m, addr, size / 4096, page_flags) {
            return self.refuse();
        }
        self.vmsa.rcx = 0;
        RETURN_TO_PROCESS
    }

    /// Takes the memory of `rcx` bytes at `rbx` from the process. The answer
    /// is -1 where that is not made of whole pages.
    fn pal_svsm_virt_free(&mut self, m: &mut Machine) -> (r: ReturnTarget)
        ensures
            r == RETURN_TO_PROCESS,
            (*final(self), final(m)@) == old(self).free_served(old(m)@),
    {
        let addr = self.vmsa.rbx;
        let size = self.vmsa.rcx;
        if size % 4096 != 0 {
            return self.refuse();
        }
        if addr % 4096 != 0 {
            return self.refuse();
        }
        ProcessPageTableRef::external(self.vmsa.cr3).remove_pages(m, addr, size / 4096);
        RETURN_TO_PROCESS
    }

    /// Maps a file, from `r9` on, at `rbx`. Pages of the library OS are mapped
    /// at once; those of all other files when the process first uses them. The
    /// answer is 0, or -1 where the request is not made of whole pages or
    /// there is not enough memory.
    fn pal_svsm_map(&mut self, m: &mut Machine, p: &mut TrustedProcess) -> (r: ReturnTarget)
        ensures
            r == RETURN_TO_PROCESS,
            old(self).map_served(old(m)@, *old(p), *final(self), final(m)@, *final(p)),
    {
        match self.serve_map(m, p) {
            Some(target) => target,
            None => RETURN_TO_PROCESS,
        }
    }

    /// Protects the pages that the `rcx` bytes at `rbx` lie in, as `rdx` asks
    /// for it. The answer is 0.
    fn pal_svsm_mprotect(&mut self, m: &mut Machine) -> (r: ReturnTarget)
        ensures
            r == RETURN_TO_PROCESS,
            (*final(self), final(m)@) == old(self).protect_served(old(m)@),
    {
        let addr = self.vmsa.rbx;
        let size = self.vmsa.rcx;
        let flags = self.vmsa.rdx;
        let table = ProcessPageTableRef::external(self.vmsa.cr3);
        let ghost root = self.vmsa.cr3;
        let offset = addr % 4096;
        let page_num = (offset + size + 4095) / 4096;
        let vaddr = addr - offset;
        let readable = flags & GraminePalProtFlags::READ != 0;
        let writable = flags & GraminePalProtFlags::WRITE != 0;
        let executable = flags & GraminePalProtFlags::EXEC != 0;
        let writecopy = flags & GraminePalProtFlags::WRITECOPY != 0;
        let mut i: u64 = 0;
        while i < page_num
            invariant
                i <= page_num,
                table.process_page_table == root,
                writable == (flags & 0x2 != 0),
                executable == (flags & 0x4 != 0),
                writecopy == (flags & 0x8 != 0),
                m@ == run_protected(old(m)@, root, vaddr, flags, i as nat),
            decreases page_num - i,
        {
            table.change_attr(m, pages_above(vaddr, i), readable, writable, executable, writecopy);
            i = i + 1;
        }
        self.vmsa.rcx = 0;
        RETURN_TO_PROCESS
    }
}

} // verus!
