//! Faults of processes.
use vstd::prelude::*;
use crate::address;
use crate::address::status_to_word;
use crate::gpu::direct::{GpuState, GpuView};
use crate::memory::machine;
use crate::memory::machine::{Machine, MachineState};
use crate::process_manager::process::TrustedProcess;
use crate::process_manager::process_paging::cow;
use crate::process_manager::process_paging::slots;
use crate::process_manager::process_paging::walk;
use crate::process_manager::process_paging::walk::ProcessPageTableRef;
use crate::process_runtime;
use crate::process_runtime::process::mmap;
use crate::process_runtime::process::mmap::MmapInfo;
use crate::process_runtime::process::request;
use crate::process_runtime::{
    mark_dead, PALContext, ReturnTarget, TrustletReturnType, RETURN_TO_GUEST, RETURN_TO_PROCESS,
};

verus! {

/// A violation of the protection of the processor.
pub const GENERAL_PROTECTION: u64 = 13;

/// A page that is missing, or used against its protection.
pub const PAGE_FAULT: u64 = 14;

/// The page is there, but used against its protection.
pub const PF_PRESENT: u64 = 0x1;

/// The page was written to.
pub const PF_WRITE: u64 = 0x2;

/// The process itself used the page.
pub const PF_USER: u64 = 0x4;

/// Handles faults.
pub trait ProcessRuntimeException {
    /// Whether a fault is one that can be handled.
    spec fn can_handle(&self, p: TrustedProcess) -> bool;

    fn handle_exception(
        &mut self,
        m: &mut Machine,
        p: &mut TrustedProcess,
        gpu: &mut GpuState,
    ) -> ReturnTarget
        requires
            old(self).can_handle(*old(p)),
    ;

    fn handle_df(&mut self, p: &mut TrustedProcess, gpu: &mut GpuState) -> ReturnTarget;
}

/// The machine after the guest was asked for a page of a mapped file: the
/// file, where in it the mapping starts, the bytes of the mapping, and where
/// in it the page is.
pub open spec fn page_asked(
    s: MachineState,
    guest_root: u64,
    arg: u64,
    info: MmapInfo,
    inside: u64,
) -> MachineState {
    let page = walk::translate(s, guest_root, arg);
    s.wr(page, 0, address::status_word(info.fd as i64)).wr(page, 1, info.offset).wr(
        page,
        2,
        info.size,
    ).wr(page, 3, inside)
}

impl PALContext {
    /// The page of the fault.
    pub open spec fn fault_page(self) -> u64 {
        (self.vmsa.cr2 - self.vmsa.cr2 % 4096) as u64
    }

    /// The mapped file that the fault is about, where its page has not come
    /// yet.
    pub open spec fn missing_file(self, p: TrustedProcess) -> Option<MmapInfo> {
        if self.vmsa.rbx & PF_PRESENT == 0 {
            mmap::last_with(p.mmap_manager@, self.vmsa.cr2, p.mmap_manager@.len())
        } else {
            None
        }
    }

    /// Whether the fault is one that a copy of the page resolves.
    pub open spec fn asks_for_copy(self, s: MachineState) -> bool {
        &&& self.vmsa.rbx & PF_PRESENT != 0
        &&& self.vmsa.rbx & PF_WRITE != 0
        &&& cow::cow_applies(s, self.vmsa.cr3, self.vmsa.cr2, self.vmsa.rbx & PF_USER != 0)
    }

    fn give_up(&mut self, p: &mut TrustedProcess, gpu: &mut GpuState) -> (r: ReturnTarget)
        ensures
            r == RETURN_TO_GUEST,
            *final(self) == old(self).returning(TrustletReturnType::ERROR),
            *final(p) == process_runtime::died(*old(p)),
            final(gpu)@ == process_runtime::engine_freed(old(gpu)@, *old(p)),
            old(gpu)@.wf() ==> final(gpu)@.wf(),
    {
        mark_dead(p, gpu);
        self.return_values.result(TrustletReturnType::ERROR.code());
        RETURN_TO_GUEST
    }

    /// Whether the context, the process, the machine and the engines are what
    /// they are after a fault was handled, and `r` says where it leads.
    pub open spec fn fault_handled(
        self,
        s: MachineState,
        p: TrustedProcess,
        g: GpuView,
        after: PALContext,
        t: MachineState,
        q: TrustedProcess,
        h: GpuView,
        r: ReturnTarget,
    ) -> bool {
        let missing = if self.vmsa.rcx == PAGE_FAULT {
            self.missing_file(p)
        } else {
            None
        };
        match missing {
            Some(info) => {
                &&& r == RETURN_TO_GUEST
                &&& after == self.returning(TrustletReturnType::MMAP)
                &&& q == (TrustedProcess { pf_target_vaddr: self.fault_page(), ..p })
                &&& h == g
                &&& t == page_asked(
                    s,
                    self.guest_page_table,
                    self.invocation_arg_guest_vaddr,
                    info,
                    (self.fault_page() - info.addr) as u64,
                )
            },
            None => if self.vmsa.rcx == PAGE_FAULT && self.asks_for_copy(s) {
                &&& r == RETURN_TO_PROCESS
                &&& after == self
                &&& q == p
                &&& h == g
                &&& t == cow::cow_resolved(s, self.vmsa.cr3, self.vmsa.cr2)
            } else {
                &&& r == RETURN_TO_GUEST
                &&& after == self.returning(TrustletReturnType::ERROR)
                &&& q == process_runtime::died(p)
                &&& h == process_runtime::engine_freed(g, p)
                &&& t == s
            },
        }
    }

    /// Handles a fault; see `handle_exception`. Gives none where it cannot be
    /// handled.
    pub fn serve_exception(
        &mut self,
        m: &mut Machine,
        p: &mut TrustedProcess,
        gpu: &mut GpuState,
    ) -> (r: Option<ReturnTarget>)
        ensures
            match r {
                None => !old(self).can_handle(*old(p)) && *final(self) == *old(self) && *final(p)
                    == *old(p) && final(m)@ == old(m)@ && final(gpu)@ == old(gpu)@,
                Some(target) => old(self).can_handle(*old(p)) && old(self).fault_handled(
                    old(m)@,
                    *old(p),
                    old(gpu)@,
                    *final(self),
                    final(m)@,
                    *final(p),
                    final(gpu)@,
                    target,
                ),
            },
            old(gpu)@.wf() ==> final(gpu)@.wf(),
    {
        if self.vmsa.rcx == GENERAL_PROTECTION {
            return Some(self.give_up(p, gpu));
        }
        if self.vmsa.rcx != PAGE_FAULT {
            return None;
        }
        let cr2 = self.vmsa.cr2;
        let error_code = self.vmsa.rbx;
        match p.mmap_manager.lookup(cr2) {
            Some(info) => {
                if error_code & PF_PRESENT == 0 {
                    let target_page_addr = cr2 - cr2 % 4096;
                    if target_page_addr < info.addr {
                        return None;
                    }
                    let addr_offset = target_page_addr - info.addr;
                    if addr_offset % 4096 != 0 {
                        return None;
                    }
                    p.pf_target_vaddr = target_page_addr;
                    let page = ProcessPageTableRef::external(self.guest_page_table).get_page(
                        m,
                        self.invocation_arg_guest_vaddr,
                    );
                    m.write(page, 0, status_to_word(info.fd as i64));
                    m.write(page, 1, info.offset);
                    m.write(page, 2, info.size);
                    m.write(page, 3, addr_offset);
                    self.return_values.result(TrustletReturnType::MMAP.code());
                    return Some(RETURN_TO_GUEST);
                }
            },
            None => {},
        }
        if error_code & PF_PRESENT != 0 && error_code & PF_WRITE != 0 {
            let user_access = error_code & PF_USER != 0;
            let mut table = ProcessPageTableRef::external(self.vmsa.cr3);
            if table.handle_cow(m, cr2, user_access) {
                return Some(RETURN_TO_PROCESS);
            }
        }
        Some(self.give_up(p, gpu))
    }
}

impl ProcessRuntimeException for PALContext {
    open spec fn can_handle(&self, p: TrustedProcess) -> bool {
        self.vmsa.rcx == GENERAL_PROTECTION || (self.vmsa.rcx == PAGE_FAULT && (self.missing_file(
            p,
        ) matches Some(info) ==> self.fault_page() >= info.addr && (self.fault_page() - info.addr)
            % 4096 == 0))
    }

    /// Handles a fault of the process. The guest is asked for the page of a
    /// mapped file that has not come yet; a page that is copied on write is
    /// copied, and the process goes on. After any other fault the process has
    /// ended for good, and the guest is told of an error.
    fn handle_exception(&mut self, m: &mut Machine, p: &mut TrustedProcess, gpu: &mut GpuState) -> (r:
        ReturnTarget)
        ensures
            old(self).fault_handled(
                old(m)@,
                *old(p),
                old(gpu)@,
                *final(self),
                final(m)@,
                *final(p),
                final(gpu)@,
                r,
            ),
            old(gpu)@.wf() ==> final(gpu)@.wf(),
    {
        match self.serve_exception(m, p, gpu) {
            Some(target) => target,
            None => RETURN_TO_GUEST,
        }
    }

    /// After a fault in the handling of a fault the process has ended for
    /// good.
    fn handle_df(&mut self, p: &mut TrustedProcess, gpu: &mut GpuState) -> (r: ReturnTarget)
        ensures
            r == RETURN_TO_GUEST,
            *final(self) == old(self).returning(TrustletReturnType::ERROR),
            *final(p) == process_runtime::died(*old(p)),
            final(gpu)@ == process_runtime::engine_freed(old(gpu)@, *old(p)),
            old(gpu)@.wf() ==> final(gpu)@.wf(),
    {
        self.give_up(p, gpu)
    }
}

/// Faults on mapped files can always be handled: mappings start with a page,
/// and a mapping that has an address has the page of that address.
pub proof fn law_file_faults_are_handled(ctx: PALContext, p: TrustedProcess)
    requires
        ctx.vmsa.rcx == PAGE_FAULT,
        mmap::whole_pages(p.mmap_manager@),
    ensures
        ctx.can_handle(p),
{
    mmap::lemma_last_with_is_one(p.mmap_manager@, ctx.vmsa.cr2, p.mmap_manager@.len());
}

/// A process that has ended is polled for no more, and stays ended: its engine
/// is free for another client, and the clients of all others stay.
pub proof fn law_died_is_final(p: TrustedProcess, g: GpuView)
    requires
        g.engine_pages.len() == 64,
    ensures
        !process_runtime::engine_freed(g, p).engaged(p.gpu_core as int),
        forall|core: int|
            core != p.gpu_core ==> #[trigger] process_runtime::engine_freed(g, p).engaged(core)
                == g.engaged(core),
        process_runtime::died(p).dead,
        process_runtime::died(p).gpu_core < 0,
        process_runtime::died(process_runtime::died(p)) == process_runtime::died(p),
{
}

/// The guest that is asked for a page of a mapped file finds in its page for
/// requests the file, where in it the mapping starts, the bytes of the mapping,
/// and where in the mapping the page of the fault is. The process waits for that
/// page. Nothing else is changed.
pub proof fn law_guest_is_asked_for_the_page(
    ctx: PALContext,
    s: MachineState,
    p: TrustedProcess,
    g: GpuView,
    after: PALContext,
    t: MachineState,
    q: TrustedProcess,
    h: GpuView,
    r: ReturnTarget,
    info: MmapInfo,
)
    requires
        ctx.vmsa.rcx == PAGE_FAULT,
        ctx.can_handle(p),
        ctx.missing_file(p) == Some(info),
        ctx.fault_handled(s, p, g, after, t, q, h, r),
        walk::translate(s, ctx.guest_page_table, ctx.invocation_arg_guest_vaddr) + 4096 <= 8
            * s.mem.len(),
    ensures
        ({
            let page = walk::translate(s, ctx.guest_page_table, ctx.invocation_arg_guest_vaddr);
            let words = machine::page_words(t.mem, page);
            &&& r == RETURN_TO_GUEST
            &&& after.return_values.rcx == TrustletReturnType::MMAP.number()
            &&& words[0] as int == info.fd as int || words[0] as int == info.fd
                + 0x1_0000_0000_0000_0000
            &&& words[1] == info.offset
            &&& words[2] == info.size
            &&& info.addr + words[3] <= ctx.vmsa.cr2 < info.addr + words[3] + 4096
            &&& words[3] % 4096 == 0
            &&& q.pf_target_vaddr == info.addr + words[3]
            &&& q == (TrustedProcess { pf_target_vaddr: q.pf_target_vaddr, ..p })
            &&& h == g
            &&& forall|i: int|
                4 <= i < 512 ==> #[trigger] words[i] == machine::page_words(s.mem, page)[i]
            &&& forall|pa: u64|
                pa % 4096 == 0 && pa != page ==> #[trigger] machine::page_words(t.mem, pa)
                    == machine::page_words(s.mem, pa)
        }),
{
    let page = walk::translate(s, ctx.guest_page_table, ctx.invocation_arg_guest_vaddr);
    request::lemma_aligned(s, ctx.guest_page_table, ctx.invocation_arg_guest_vaddr);
    let inside = (ctx.fault_page() - info.addr) as u64;
    let fd = address::status_word(info.fd as i64);
    let a = s.wr(page, 0, fd);
    let b = a.wr(page, 1, info.offset);
    let c = b.wr(page, 2, info.size);
    slots::lemma_word_written(s, page, 0, fd);
    slots::lemma_word_written(a, page, 1, info.offset);
    slots::lemma_word_written(b, page, 2, info.size);
    slots::lemma_word_written(c, page, 3, inside);
    let words = machine::page_words(t.mem, page);
    assert(forall|i: int| 0 <= i < 512 ==> #[trigger] words[i] == t.rd(page, i));
    assert(c.rd(page, 2) == info.size && t.rd(page, 2) == c.rd(page, 2));
    assert(b.rd(page, 1) == info.offset && c.rd(page, 1) == b.rd(page, 1) && t.rd(page, 1) == c.rd(
        page,
        1,
    ));
    assert(a.rd(page, 0) == fd && b.rd(page, 0) == a.rd(page, 0) && c.rd(page, 0) == b.rd(page, 0)
        && t.rd(page, 0) == c.rd(page, 0));
    assert forall|i: int| 4 <= i < 512 implies #[trigger] words[i] == machine::page_words(
        s.mem,
        page,
    )[i] by {
        assert(t.rd(page, i) == c.rd(page, i) && c.rd(page, i) == b.rd(page, i) && b.rd(page, i)
            == a.rd(page, i) && a.rd(page, i) == s.rd(page, i));
    }
    assert forall|pa: u64| pa % 4096 == 0 && pa != page implies #[trigger] machine::page_words(
        t.mem,
        pa,
    ) == machine::page_words(s.mem, pa) by {
        assert(machine::page_words(c.mem, pa) == machine::page_words(b.mem, pa));
        assert(machine::page_words(b.mem, pa) == machine::page_words(a.mem, pa));
        assert(machine::page_words(a.mem, pa) == machine::page_words(s.mem, pa));
    }
}

} // verus!
