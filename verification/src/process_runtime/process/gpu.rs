//! The GPU for processes.
use vstd::prelude::*;
use crate::address;
use crate::address::{pages_above, status_to_word, PhysAddr};
use crate::cpu::vmsa::Vmsa;
use crate::exclusive::{
    free_donated_core, replacement_donated_core, ExclusiveState, ExclusiveView,
};
use crate::gpu::direct;
use crate::gpu::direct::{
    map_heap_for_trustlet, register_engine_page, window_for, GpuState, GpuView, SHARED_PAGE_FLAGS,
};
use crate::memory::machine::{Machine, MachineState};
use crate::process_manager::process::TrustedProcess;
use crate::process_manager::process_memory::allocate_page;
use crate::process_manager::process_paging::mapping;
use crate::process_manager::process_paging::walk::ProcessPageTableRef;
use crate::process_runtime::{PALContext, ReturnTarget, RETURN_TO_PROCESS};
use crate::sev::utils::VMPL1_RWX;

verus! {

/// Where a process has the window: in the slot of its page for calls, and far
/// enough above that page for the largest window.
pub const GPU_WINDOW_VADDR: u64 = 0x480_0020_0000;

/// Gives processes the GPU.
pub trait ProcessRuntimeGpu {
    fn gpu_channel_begin(&mut self, gpu: &GpuState, exclusive: &mut ExclusiveState) -> Option<usize>;

    fn pal_svsm_gpu_channel(
        &mut self,
        m: &mut Machine,
        p: &mut TrustedProcess,
        gpu: &mut GpuState,
        core: usize,
        granted_window: u64,
        granted_heap: u64,
    ) -> ReturnTarget
        requires
            core < 64,
            old(gpu)@.wf(),
    ;
}

/// The machine after the pages of a window from `i` on were mapped for a
/// process, and how many were. The run ends at page `n`, at the first page
/// that is missing, and after `granted` pages, the number of pages that could
/// be given to the process.
pub open spec fn window_run(
    s: MachineState,
    root: u64,
    list: u64,
    i: nat,
    n: nat,
    granted: nat,
) -> (MachineState, nat)
    decreases n - i,
{
    let page = s.rd(list, i as int);
    if i >= n || page == 0 || granted == 0 {
        (s, 0)
    } else {
        let t = mapping::map_page(
            s,
            root,
            address::page_above(GPU_WINDOW_VADDR, i as int),
            page,
            SHARED_PAGE_FLAGS,
        );
        let (u, more) = window_run(t, root, list, i + 1, n, (granted - 1) as nat);
        (u, more + 1)
    }
}

/// The machine after a process got the window of an engine, and the bytes that
/// it is told of: all of the window, or none.
pub open spec fn window_given(s: MachineState, g: GpuView, core: int, root: u64, granted: nat) -> (
    MachineState,
    u64,
) {
    let (list, npages) = g.window(core);
    if list == 0 || npages == 0 {
        (s, 0)
    } else {
        let (t, mapped) = window_run(s, root, list, 0, npages as nat, granted);
        (
            t,
            if mapped == npages {
                (npages * 4096) as u64
            } else {
                0
            },
        )
    }
}

/// The machine after a process got a fresh page for its calls at `va`, and
/// that page.
pub open spec fn page_given(s: MachineState, root: u64, va: u64) -> (MachineState, u64) {
    let (t, page) = s.take_page();
    (
        mapping::map_page(
            t.grant(page, VMPL1_RWX).zero(page),
            root,
            va,
            page,
            SHARED_PAGE_FLAGS,
        ),
        page,
    )
}

/// The machine and the engines after a process got a page for its calls at `va`,
/// and the window and the heap of an engine, and the bytes of the two.
pub open spec fn channel_given(
    s: MachineState,
    g: GpuView,
    core: int,
    root: u64,
    va: u64,
    granted_window: nat,
    granted_heap: nat,
) -> (MachineState, GpuView, u64, u64) {
    let (s1, page) = page_given(s, root, va);
    let (s2, window) = window_given(s1, g, core, root, granted_window);
    let (s3, h, heap) = direct::heap_given(s2, g, core, root, granted_heap);
    (
        s3,
        GpuView {
            engine_pages: h.engine_pages.update(core, page),
            engine_page_table: h.engine_page_table.update(core, root),
            ..h
        },
        window,
        heap,
    )
}

/// The pages of a window, up to the first that is missing.
pub open spec fn window_frames_from(s: MachineState, list: u64, i: nat, n: nat) -> Seq<u64>
    decreases n - i,
{
    let page = s.rd(list, i as int);
    if i >= n || page == 0 {
        Seq::empty()
    } else {
        seq![page] + window_frames_from(s, list, i + 1, n)
    }
}

/// The pages of the window of an engine that have to be given to a process
/// before they can be mapped for it.
pub fn window_frames(m: &Machine, gpu: &GpuState, core: usize) -> (r: Vec<PhysAddr>)
    requires
        gpu@.wf(),
    ensures
        ({
            let (list, npages) = gpu@.window(core as int);
            r@ == (if list == 0 {
                Seq::empty()
            } else {
                window_frames_from(m@, list, 0, npages as nat)
            })
        }),
{
    let (list, npages) = window_for(gpu, core);
    let mut r: Vec<PhysAddr> = Vec::new();
    if list == 0 {
        return r;
    }
    let ghost all = window_frames_from(m@, list, 0, npages as nat);
    let mut i: u64 = 0;
    while i < npages
        invariant_except_break
            i <= npages <= 512,
            r@ + window_frames_from(m@, list, i as nat, npages as nat) == all,
        ensures
            r@ == all,
        decreases npages - i,
    {
        let page = m.read(list, i);
        if page == 0 {
            assert(r@ =~= all);
            break;
        }
        let ghost before = r@;
        r.push(page);
        i = i + 1;
        assert(r@ + window_frames_from(m@, list, i as nat, npages as nat) =~= before
            + window_frames_from(m@, list, (i - 1) as nat, npages as nat));
        assert(i == npages ==> r@ =~= all);
    }
    r
}

fn map_window(m: &mut Machine, root: PhysAddr, list: PhysAddr, npages: u64, granted: u64) -> (r: u64)
    requires
        npages <= 512,
    ensures
        (final(m)@, r as nat) == window_run(
            old(m)@,
            root,
            list,
            0,
            npages as nat,
            granted as nat,
        ),
{
    let table = ProcessPageTableRef::external(root);
    let ghost all = window_run(m@, root, list, 0, npages as nat, granted as nat);
    let mut i: u64 = 0;
    while i < npages
        invariant_except_break
            i <= npages <= 512,
            i <= granted,
            table.process_page_table == root,
            ({
                let (t, more) = window_run(
                    m@,
                    root,
                    list,
                    i as nat,
                    npages as nat,
                    (granted - i) as nat,
                );
                all == (t, more + i as nat)
            }),
        ensures
            (m@, i as nat) == all,
        decreases npages - i,
    {
        let phys = m.read(list, i);
        if phys == 0 || i == granted {
            break;
        }
        proof {
            mapping::lemma_plain_flags();
        }
        table.map_4k_page(m, pages_above(GPU_WINDOW_VADDR, i), phys, SHARED_PAGE_FLAGS);
        i = i + 1;
    }
    i
}

impl PALContext {
    /// The context and the cores after a core was picked, and that core.
    pub open spec fn channel_begun(self, g: GpuView, ex: ExclusiveView) -> (
        PALContext,
        ExclusiveView,
        Option<int>,
    ) {
        let named = Vmsa { rdx: self.vmsa.vmpl as u64, ..self.vmsa };
        let free = ex.free_core(g);
        let (after, core) = if free is Some {
            (ex, free)
        } else {
            (ex.rotated(g), ex.replacement(g))
        };
        if self.vmsa.rbx % 4096 != 0 {
            (
                PALContext {
                    vmsa: Vmsa { rcx: address::status_word(-2i64), ..named },
                    ..self
                },
                ex,
                None,
            )
        } else if core is None {
            (
                PALContext {
                    vmsa: Vmsa { rcx: address::status_word(-1i64), ..named },
                    ..self
                },
                after,
                None,
            )
        } else {
            (PALContext { vmsa: named, ..self }, after, core)
        }
    }
}

impl ProcessRuntimeGpu for PALContext {
    /// Picks the core that will poll for the process. Where there is none, or
    /// the address in `rbx` is not that of a page, the call is answered: with
    /// -1 or -2. The privilege level of the process is part of every answer.
    fn gpu_channel_begin(&mut self, gpu: &GpuState, exclusive: &mut ExclusiveState) -> (r: Option<
        usize,
    >)
        ensures
            ({
                let (after, exclusive_after, core) = old(self).channel_begun(
                    gpu@,
                    old(exclusive)@,
                );
                &&& *final(self) == after
                &&& final(exclusive)@ == exclusive_after
                &&& match core {
                    Some(c) => r is Some && r->0 == c && c < 64,
                    None => r is None,
                }
            }),
    {
        self.vmsa.rdx = self.vmsa.vmpl as u64;
        if self.vmsa.rbx % 4096 != 0 {
            self.vmsa.rcx = status_to_word(-2);
            return None;
        }
        let core = match free_donated_core(exclusive, gpu) {
            Some(c) => Some(c),
            None => replacement_donated_core(exclusive, gpu),
        };
        if core.is_none() {
            self.vmsa.rcx = status_to_word(-1);
        }
        core
    }

    /// Gives the process a page for its calls at `rbx`, and the window and the
    /// heap of the engine as far as they could be given to it. The page is
    /// registered last: from then on it is polled. The answer is the core, and
    /// the bytes of the window and of the heap.
    fn pal_svsm_gpu_channel(
        &mut self,
        m: &mut Machine,
        p: &mut TrustedProcess,
        gpu: &mut GpuState,
        core: usize,
        granted_window: u64,
        granted_heap: u64,
    ) -> (r: ReturnTarget)
        ensures
            r == RETURN_TO_PROCESS,
            final(gpu)@.wf(),
            *final(p) == (TrustedProcess { gpu_core: core as i64, ..*old(p) }),
            ({
                let (t, g, window, heap) = channel_given(
                    old(m)@,
                    old(gpu)@,
                    core as int,
                    old(self).vmsa.cr3,
                    old(self).vmsa.rbx,
                    granted_window as nat,
                    granted_heap as nat,
                );
                &&& final(m)@ == t
                &&& final(gpu)@ == g
                &&& *final(self) == (PALContext {
                    vmsa: Vmsa {
                        rcx: 0,
                        r8: core as u64,
                        r9: window,
                        rbx: heap,
                        ..old(self).vmsa
                    },
                    ..*old(self)
                })
            }),
    {
        let root = self.vmsa.cr3;
        let page = allocate_page(m);
        m.grant(page, VMPL1_RWX);
        m.clear_page(page);
        proof {
            mapping::lemma_plain_flags();
        }
        ProcessPageTableRef::external(root).map_4k_page(m, self.vmsa.rbx, page, SHARED_PAGE_FLAGS);
        p.gpu_core = core as i64;
        let (list, npages) = window_for(gpu, core);
        let mut window_bytes: u64 = 0;
        if list != 0 && npages > 0 {
            assert(npages <= 512);
            let mapped = map_window(m, root, list, npages, granted_window);
            if mapped == npages {
                window_bytes = npages * 4096;
            }
        }
        self.vmsa.r9 = window_bytes;
        self.vmsa.rbx = map_heap_for_trustlet(gpu, m, core, root, granted_heap);
        let ghost before = gpu@;
        register_engine_page(gpu, core, page, root);
        assert(gpu@.wf()) by {
            assert(gpu@.window_npages == before.window_npages);
            assert(gpu@.heap_npages == before.heap_npages);
        }
        self.vmsa.rcx = 0;
        self.vmsa.r8 = core as u64;
        RETURN_TO_PROCESS
    }
}

} // verus!
