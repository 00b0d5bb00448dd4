//! The engines that processes and guests talk to a GPU through: their pages,
//! and the services, windows and heaps that serve them.
use vstd::prelude::*;
use crate::address;
use crate::address::{pages_above, PhysAddr};
use crate::error::MonitorError;
use crate::exclusive::{is_donated, ExclusiveState, ExclusiveView};
use crate::memory::machine::{Machine, MachineState};
use crate::process_manager::process_memory::allocate_page;
use crate::process_manager::process_paging::mapping;
use crate::process_manager::process_paging::walk::ProcessPageTableRef;
use crate::RequestParams;

verus! {

/// Pages of a window at most.
pub const GPU_WINDOW_MAX_PAGES: u64 = 512;

/// Pages of a heap at most.
pub const GPU_HEAP_MAX_PAGES: u64 = 262144;

/// Where a process has the heap.
pub const GPU_HEAP_VADDR: u64 = 0x481_0000_0000;

/// Flags of the pages that a process shares with a service.
pub const SHARED_PAGE_FLAGS: u64 = 0x8000_0000_0000_0027;

/// The answer to a registration that is refused.
pub const REFUSED: u64 = 0xFFFF_FFFF_FFFF_FFFF;

/// What is registered for each engine, and for any engine.
#[derive(Debug)]
pub struct GpuState {
    /// The pages that clients put their calls in.
    pub engine_pages: [u64; 64],
    /// The page tables of the clients.
    pub engine_page_table: [u64; 64],
    /// Whether the client is a process of the monitor.
    pub engine_is_trustlet: [bool; 64],
    /// Whether the service still has to be told of the end of a session.
    pub engine_owes_stop: [bool; 64],
    /// The pages through which calls are handed to services.
    pub service_pages: [u64; 64],
    pub service_page: u64,
    /// Lists of the pages of windows.
    pub window_lists: [u64; 64],
    pub window_npages: [u64; 64],
    pub window_list_any: u64,
    pub window_npages_any: u64,
    /// Directories of the pages of heaps.
    pub heap_dirs: [u64; 64],
    pub heap_npages: [u64; 64],
    pub heap_dir_any: u64,
    pub heap_npages_any: u64,
    /// Pages of the heap that the client has.
    pub heap_mapped: [u64; 64],
}

/// What a `GpuState` holds.
#[verifier::ext_equal]
pub struct GpuView {
    pub engine_pages: Seq<u64>,
    pub engine_page_table: Seq<u64>,
    pub engine_is_trustlet: Seq<bool>,
    pub engine_owes_stop: Seq<bool>,
    pub service_pages: Seq<u64>,
    pub service_page: u64,
    pub window_lists: Seq<u64>,
    pub window_npages: Seq<u64>,
    pub window_list_any: u64,
    pub window_npages_any: u64,
    pub heap_dirs: Seq<u64>,
    pub heap_npages: Seq<u64>,
    pub heap_dir_any: u64,
    pub heap_npages_any: u64,
    pub heap_mapped: Seq<u64>,
}

impl View for GpuState {
    type V = GpuView;

    open spec fn view(&self) -> GpuView {
        GpuView {
            engine_pages: self.engine_pages@,
            engine_page_table: self.engine_page_table@,
            engine_is_trustlet: self.engine_is_trustlet@,
            engine_owes_stop: self.engine_owes_stop@,
            service_pages: self.service_pages@,
            service_page: self.service_page,
            window_lists: self.window_lists@,
            window_npages: self.window_npages@,
            window_list_any: self.window_list_any,
            window_npages_any: self.window_npages_any,
            heap_dirs: self.heap_dirs@,
            heap_npages: self.heap_npages@,
            heap_dir_any: self.heap_dir_any,
            heap_npages_any: self.heap_npages_any,
            heap_mapped: self.heap_mapped@,
        }
    }
}

impl GpuView {
    /// Nothing is registered.
    pub open spec fn blank() -> GpuView {
        let none = Seq::new(64, |i: int| 0u64);
        let no = Seq::new(64, |i: int| false);
        GpuView {
            engine_pages: none,
            engine_page_table: none,
            engine_is_trustlet: no,
            engine_owes_stop: no,
            service_pages: none,
            service_page: 0,
            window_lists: none,
            window_npages: none,
            window_list_any: 0,
            window_npages_any: 0,
            heap_dirs: none,
            heap_npages: none,
            heap_dir_any: 0,
            heap_npages_any: 0,
            heap_mapped: none,
        }
    }

    /// Windows and heaps are no larger than they may be.
    pub open spec fn wf(self) -> bool {
        &&& self.window_npages_any <= GPU_WINDOW_MAX_PAGES
        &&& self.heap_npages_any <= GPU_HEAP_MAX_PAGES
        &&& forall|i: int| 0 <= i < 64 ==> #[trigger] self.window_npages[i] <= GPU_WINDOW_MAX_PAGES
        &&& forall|i: int| 0 <= i < 64 ==> #[trigger] self.heap_npages[i] <= GPU_HEAP_MAX_PAGES
    }

    /// The service page of an engine: its own, else the shared one.
    pub open spec fn service_for(self, core: int) -> u64 {
        if self.service_pages[core] != 0 {
            self.service_pages[core]
        } else {
            self.service_page
        }
    }

    /// Whether a service is registered for an engine.
    pub open spec fn serviced(self, core: int) -> bool {
        0 <= core < 64 && self.service_for(core) != 0
    }

    /// Whether a client is registered for an engine.
    pub open spec fn engaged(self, core: int) -> bool {
        0 <= core < 64 && self.engine_pages[core] != 0
    }

    /// Whether the service of an engine still has to be told of the end of a
    /// session.
    pub open spec fn owes_stop(self, core: int) -> bool {
        0 <= core < 64 && self.engine_owes_stop[core]
    }

    /// The window of an engine: its own, else the shared one.
    pub open spec fn window(self, core: int) -> (u64, u64) {
        if 0 <= core < 64 && self.window_lists[core] != 0 && self.window_npages[core] != 0 {
            (self.window_lists[core], self.window_npages[core])
        } else {
            (self.window_list_any, self.window_npages_any)
        }
    }

    /// The heap of an engine: its own, else the shared one.
    pub open spec fn heap(self, core: int) -> (u64, u64) {
        if 0 <= core < 64 && self.heap_dirs[core] != 0 && self.heap_npages[core] != 0 {
            (self.heap_dirs[core], self.heap_npages[core])
        } else {
            (self.heap_dir_any, self.heap_npages_any)
        }
    }

    /// The list of the window that is registered in a slot.
    pub open spec fn window_list(self, engine: u64) -> u64 {
        if engine < 64 {
            self.window_lists[engine as int]
        } else {
            self.window_list_any
        }
    }

    /// The state after a window was registered in a slot.
    pub open spec fn with_window(self, engine: u64, list: u64, npages: u64) -> GpuView {
        if engine < 64 {
            GpuView {
                window_lists: self.window_lists.update(engine as int, list),
                window_npages: self.window_npages.update(engine as int, npages),
                ..self
            }
        } else {
            GpuView { window_list_any: list, window_npages_any: npages, ..self }
        }
    }

    /// The directory of the heap in a slot.
    pub open spec fn heap_dir(self, engine: u64) -> u64 {
        if engine < 64 {
            self.heap_dirs[engine as int]
        } else {
            self.heap_dir_any
        }
    }

    /// Pages of the heap in a slot.
    pub open spec fn heap_len(self, engine: u64) -> u64 {
        if engine < 64 {
            self.heap_npages[engine as int]
        } else {
            self.heap_npages_any
        }
    }

    /// The state after the heap in a slot got a size.
    pub open spec fn with_heap_len(self, engine: u64, npages: u64) -> GpuView {
        if engine < 64 {
            GpuView { heap_npages: self.heap_npages.update(engine as int, npages), ..self }
        } else {
            GpuView { heap_npages_any: npages, ..self }
        }
    }

    /// The state after the heap in a slot got a directory.
    pub open spec fn with_heap_dir(self, engine: u64, dir: u64) -> GpuView {
        if engine < 64 {
            GpuView { heap_dirs: self.heap_dirs.update(engine as int, dir), ..self }
        } else {
            GpuView { heap_dir_any: dir, ..self }
        }
    }

    /// The state after the heap in a slot was dropped; no client has any of
    /// its pages.
    pub open spec fn heap_reset(self, engine: u64) -> GpuView {
        if engine < 64 {
            GpuView {
                heap_npages: self.heap_npages.update(engine as int, 0),
                heap_mapped: self.heap_mapped.update(engine as int, 0),
                ..self
            }
        } else {
            GpuView {
                heap_npages_any: 0,
                heap_mapped: Seq::new(64, |i: int| 0u64),
                ..self
            }
        }
    }
}

/// The machine after the first `n` words of a page were copied.
pub open spec fn words_copied(s: MachineState, dst: u64, src: u64, n: nat) -> MachineState
    decreases n,
{
    if n == 0 {
        s
    } else {
        let t = words_copied(s, dst, src, (n - 1) as nat);
        t.wr(dst, n - 1, t.rd(src, n - 1))
    }
}

/// Whether a window can be registered.
pub open spec fn window_ok(list: u64, npages: u64) -> bool {
    list != 0 && 0 < npages <= GPU_WINDOW_MAX_PAGES
}

/// The machine and the state after a window was registered. The list of its
/// pages is copied, so that later changes by the guest are not seen.
pub open spec fn window_registered(s: MachineState, g: GpuView, list: u64, npages: u64, engine: u64) -> (
    MachineState,
    GpuView,
) {
    let slot = g.window_list(engine);
    let (t, copy) = if slot == 0 {
        s.take_page()
    } else {
        (s, slot)
    };
    (words_copied(t, copy, list, npages as nat), g.with_window(engine, copy, npages))
}

/// Page `idx` of a heap.
pub open spec fn heap_entry(s: MachineState, dir: u64, idx: int) -> u64 {
    let list = s.rd(dir, idx / 512);
    if list == 0 {
        0
    } else {
        s.rd(list, idx % 512)
    }
}

/// The machine after `n` pages were added to a heap from page `offset` on.
pub open spec fn heap_filled(s: MachineState, dir: u64, guest: u64, offset: int, n: nat) -> MachineState
    decreases n,
{
    if n == 0 {
        s
    } else {
        let t = heap_filled(s, dir, guest, offset, (n - 1) as nat);
        let idx = offset + n - 1;
        let u = if t.rd(dir, idx / 512) == 0 {
            let (taken, page) = t.take_page();
            taken.zero(page).wr(dir, idx / 512, page)
        } else {
            t
        };
        u.wr(u.rd(dir, idx / 512), idx % 512, u.rd(guest, n - 1))
    }
}

/// Whether a piece of a heap can be registered, but for its place.
pub open spec fn heap_piece_ok(list: u64, npages: u64, offset: u64) -> bool {
    list != 0 && 0 < npages <= 512 && offset + npages <= GPU_HEAP_MAX_PAGES
}

/// The machine, the state and the success after a piece of a heap was
/// registered. A piece at offset 0 starts a new heap; all others have to
/// follow the last one.
pub open spec fn heap_registered(
    s: MachineState,
    g: GpuView,
    list: u64,
    npages: u64,
    engine: u64,
    offset: u64,
) -> (MachineState, GpuView, bool) {
    if !heap_piece_ok(list, npages, offset) {
        (s, g, false)
    } else {
        let h = if offset == 0 {
            g.heap_reset(engine)
        } else {
            g
        };
        if offset != h.heap_len(engine) {
            (s, h, false)
        } else {
            let (t, d, dir) = if h.heap_dir(engine) == 0 {
                let (taken, page) = s.take_page();
                (taken.zero(page), h.with_heap_dir(engine, page), page)
            } else {
                (s, h, h.heap_dir(engine))
            };
            (
                heap_filled(t, dir, list, offset as int, npages as nat),
                d.with_heap_len(engine, (offset + npages) as u64),
                true,
            )
        }
    }
}

/// The machine after the pages of a heap from `idx` on were mapped for a
/// process, and how many were. The run ends at page `to`, at the first page
/// that is missing, and after `granted` pages, the number of pages that could
/// be given to the process.
pub open spec fn heap_run(
    s: MachineState,
    root: u64,
    dir: u64,
    idx: nat,
    to: nat,
    granted: nat,
) -> (MachineState, nat)
    decreases to - idx,
{
    let page = heap_entry(s, dir, idx as int);
    if idx >= to || page == 0 || granted == 0 {
        (s, 0)
    } else {
        let t = mapping::map_page(
            s,
            root,
            address::page_above(GPU_HEAP_VADDR, idx as int),
            page,
            SHARED_PAGE_FLAGS,
        );
        let (u, more) = heap_run(t, root, dir, idx + 1, to, (granted - 1) as nat);
        (u, more + 1)
    }
}

/// The machine, the state and the mapped bytes after a fresh client of an
/// engine got the heap; 0 bytes where there is none or not all of it could be
/// mapped.
pub open spec fn heap_given(s: MachineState, g: GpuView, core: int, root: u64, granted: nat) -> (
    MachineState,
    GpuView,
    u64,
) {
    let h = GpuView { engine_is_trustlet: g.engine_is_trustlet.update(core, true), ..g };
    let (dir, npages) = h.heap(core);
    if dir == 0 || npages == 0 {
        (s, GpuView { heap_mapped: h.heap_mapped.update(core, 0), ..h }, 0)
    } else {
        let (t, mapped) = heap_run(s, root, dir, 0, npages as nat, granted);
        if mapped == npages {
            (
                t,
                GpuView { heap_mapped: h.heap_mapped.update(core, npages), ..h },
                (npages * 4096) as u64,
            )
        } else {
            (t, GpuView { heap_mapped: h.heap_mapped.update(core, 0), ..h }, 0)
        }
    }
}

fn heap_page(m: &Machine, dir: PhysAddr, idx: u64) -> (r: PhysAddr)
    requires
        idx < GPU_HEAP_MAX_PAGES,
    ensures
        r == heap_entry(m@, dir, idx as int),
{
    let list = m.read(dir, idx / 512);
    if list == 0 {
        return 0;
    }
    m.read(list, idx % 512)
}

/// The pages of a heap from `from` to `to`, up to the first that is missing.
pub open spec fn heap_frames_from(s: MachineState, dir: u64, from: nat, to: nat) -> Seq<u64>
    decreases to - from,
{
    let page = heap_entry(s, dir, from as int);
    if from >= to || page == 0 {
        Seq::empty()
    } else {
        seq![page] + heap_frames_from(s, dir, from + 1, to)
    }
}

/// The pages of a heap that have to be given to a process before
/// `map_heap_range` can map them.
pub fn heap_frames(m: &Machine, dir: PhysAddr, from: u64, to: u64) -> (r: Vec<PhysAddr>)
    requires
        to <= GPU_HEAP_MAX_PAGES,
    ensures
        r@ == heap_frames_from(m@, dir, from as nat, to as nat),
{
    let ghost all = heap_frames_from(m@, dir, from as nat, to as nat);
    let mut r: Vec<PhysAddr> = Vec::new();
    if from >= to {
        return r;
    }
    let mut idx: u64 = from;
    while idx < to
        invariant_except_break
            from <= idx <= to <= GPU_HEAP_MAX_PAGES,
            r@ + heap_frames_from(m@, dir, idx as nat, to as nat) == all,
        ensures
            r@ == all,
        decreases to - idx,
    {
        let page = heap_page(m, dir, idx);
        if page == 0 {
            assert(r@ =~= all);
            break;
        }
        let ghost before = r@;
        r.push(page);
        idx = idx + 1;
        assert(r@ + heap_frames_from(m@, dir, idx as nat, to as nat) =~= before
            + heap_frames_from(m@, dir, (idx - 1) as nat, to as nat));
        assert(idx == to ==> r@ =~= all);
    }
    r
}

/// Maps pages of a heap for the process with the given root table, as far as
/// they are there and could be given to it. Gives how many were mapped: none
/// where `to` does not lie behind `from`.
pub fn map_heap_range(
    m: &mut Machine,
    cr3: PhysAddr,
    dir: PhysAddr,
    from: u64,
    to: u64,
    granted: u64,
) -> (r: u64)
    requires
        to <= GPU_HEAP_MAX_PAGES,
    ensures
        (final(m)@, r as nat) == heap_run(
            old(m)@,
            cr3,
            dir,
            from as nat,
            to as nat,
            granted as nat,
        ),
        from >= to ==> r == 0,
        from < to ==> r <= to - from,
{
    if from >= to {
        return 0;
    }
    let table = ProcessPageTableRef::external(cr3);
    let ghost all = heap_run(m@, cr3, dir, from as nat, to as nat, granted as nat);
    let mut mapped: u64 = 0;
    let mut idx: u64 = from;
    while idx < to
        invariant_except_break
            from <= idx <= to <= GPU_HEAP_MAX_PAGES,
            mapped == idx - from,
            mapped <= granted,
            table.process_page_table == cr3,
            ({
                let (t, more) = heap_run(
                    m@,
                    cr3,
                    dir,
                    idx as nat,
                    to as nat,
                    (granted - mapped) as nat,
                );
                all == (t, more + mapped as nat)
            }),
        ensures
            mapped <= to - from,
            (m@, mapped as nat) == all,
        decreases to - idx,
    {
        let phys = heap_page(m, dir, idx);
        if phys == 0 || mapped == granted {
            break;
        }
        proof {
            mapping::lemma_plain_flags();
        }
        table.map_4k_page(m, pages_above(GPU_HEAP_VADDR, idx), phys, SHARED_PAGE_FLAGS);
        mapped = mapped + 1;
        idx = idx + 1;
    }
    mapped
}

impl GpuState {
    /// Nothing is registered.
    pub fn new() -> (r: GpuState)
        ensures
            r@ == GpuView::blank(),
            r@.wf(),
    {
        let r = GpuState {
            engine_pages: [0u64; 64],
            engine_page_table: [0u64; 64],
            engine_is_trustlet: [false; 64],
            engine_owes_stop: [false; 64],
            service_pages: [0u64; 64],
            service_page: 0,
            window_lists: [0u64; 64],
            window_npages: [0u64; 64],
            window_list_any: 0,
            window_npages_any: 0,
            heap_dirs: [0u64; 64],
            heap_npages: [0u64; 64],
            heap_dir_any: 0,
            heap_npages_any: 0,
            heap_mapped: [0u64; 64],
        };
        assert(r@ =~= GpuView::blank());
        r
    }
}

/// The page through which calls of an engine are handed to a service.
pub fn service_page_for(gpu: &GpuState, core: usize) -> (r: PhysAddr)
    requires
        core < 64,
    ensures
        r == gpu@.service_for(core as int),
{
    let own = gpu.service_pages[core];
    if own != 0 {
        return own;
    }
    gpu.service_page
}

/// Whether a service is registered for an engine.
pub fn service_registered(gpu: &GpuState, core: usize) -> (r: bool)
    ensures
        r == gpu@.serviced(core as int),
{
    core < 64 && service_page_for(gpu, core) != 0
}

/// Whether the service of an engine still has to be told of the end of a
/// session.
pub fn engine_slot_owes_stop(gpu: &GpuState, core: usize) -> (r: bool)
    ensures
        r == gpu@.owes_stop(core as int),
{
    core < 64 && gpu.engine_owes_stop[core]
}

/// Whether a client is registered for an engine.
pub fn engine_registered(gpu: &GpuState, core: usize) -> (r: bool)
    ensures
        r == gpu@.engaged(core as int),
{
    core < 64 && gpu.engine_pages[core] != 0
}

/// Registers the page of a process as the client of an engine.
pub fn register_engine_page(gpu: &mut GpuState, core: usize, page: PhysAddr, page_table: PhysAddr)
    requires
        core < 64,
    ensures
        final(gpu)@ == (GpuView {
            engine_pages: old(gpu)@.engine_pages.update(core as int, page),
            engine_page_table: old(gpu)@.engine_page_table.update(core as int, page_table),
            ..old(gpu)@
        }),
{
    gpu.engine_pages[core] = page;
    gpu.engine_page_table[core] = page_table;
}

/// The engines after the client of one was taken out. Where there was one, the
/// service does not know yet that its session is over.
pub open spec fn slot_freed(g: GpuView, core: int) -> GpuView {
    if g.engaged(core) {
        GpuView {
            engine_pages: g.engine_pages.update(core, 0),
            engine_owes_stop: g.engine_owes_stop.update(core, true),
            ..g
        }
    } else {
        g
    }
}

/// The engines when the service of one is not owed the end of a session any
/// more.
pub open spec fn stop_settled(g: GpuView, core: int) -> GpuView {
    if g.owes_stop(core) {
        GpuView { engine_owes_stop: g.engine_owes_stop.update(core, false), ..g }
    } else {
        g
    }
}

/// Takes the client of an engine out, in the middle of its session. The service
/// is told by the next one that polls the engine.
pub fn free_engine_slot(gpu: &mut GpuState, core: usize)
    ensures
        final(gpu)@ == slot_freed(old(gpu)@, core as int),
        old(gpu)@.wf() ==> final(gpu)@.wf(),
{
    if engine_registered(gpu, core) {
        gpu.engine_pages[core] = 0;
        gpu.engine_owes_stop[core] = true;
    }
}

/// Takes note that the service of an engine is told of the end of a session.
pub fn settle_stop(gpu: &mut GpuState, core: usize)
    ensures
        final(gpu)@ == stop_settled(old(gpu)@, core as int),
        old(gpu)@.wf() ==> final(gpu)@.wf(),
{
    if engine_slot_owes_stop(gpu, core) {
        gpu.engine_owes_stop[core] = false;
    }
}

/// The window of an engine: the page that lists its pages, and their
/// number.
pub fn window_for(gpu: &GpuState, core: usize) -> (r: (PhysAddr, u64))
    ensures
        r == gpu@.window(core as int),
{
    if core < 64 && gpu.window_lists[core] != 0 && gpu.window_npages[core] != 0 {
        return (gpu.window_lists[core], gpu.window_npages[core]);
    }
    (gpu.window_list_any, gpu.window_npages_any)
}

/// The heap of an engine: the directory of its pages, and their number.
pub fn heap_for(gpu: &GpuState, core: usize) -> (r: (PhysAddr, u64))
    ensures
        r == gpu@.heap(core as int),
{
    if core < 64 && gpu.heap_dirs[core] != 0 && gpu.heap_npages[core] != 0 {
        return (gpu.heap_dirs[core], gpu.heap_npages[core]);
    }
    (gpu.heap_dir_any, gpu.heap_npages_any)
}

/// The engines and the answer after a service was registered.
pub open spec fn service_registered_for(g: GpuView, params: RequestParams) -> (
    GpuView,
    RequestParams,
) {
    (
        if params.r8 < 64 {
            GpuView {
                service_pages: g.service_pages.update(params.r8 as int, params.rcx),
                ..g
            }
        } else {
            GpuView { service_page: params.rcx, ..g }
        },
        RequestParams { rcx: 0, ..params },
    )
}

/// The engines and the answer after a guest was registered as the client of an
/// engine.
pub open spec fn engine_registered_for(
    g: GpuView,
    ex: ExclusiveView,
    params: RequestParams,
    apic_id: u32,
) -> (GpuView, RequestParams) {
    let id = if params.r8 < 64 {
        params.r8 as int
    } else {
        apic_id as int
    };
    (
        GpuView {
            engine_page_table: g.engine_page_table.update(id, params.rdx),
            engine_pages: g.engine_pages.update(id, params.rcx),
            engine_is_trustlet: g.engine_is_trustlet.update(id, false),
            ..g
        },
        RequestParams {
            rcx: if ex.donated(id) {
                1
            } else {
                0
            },
            ..params
        },
    )
}

/// The machine, the engines and the answer after a window was registered.
pub open spec fn window_requested(s: MachineState, g: GpuView, params: RequestParams) -> (
    MachineState,
    GpuView,
    RequestParams,
) {
    if window_ok(params.rcx, params.rdx) {
        let (t, h) = window_registered(s, g, params.rcx, params.rdx, params.r8);
        (t, h, RequestParams { rcx: 0, ..params })
    } else {
        (s, g, RequestParams { rcx: REFUSED, ..params })
    }
}

/// The machine, the engines and the answer after a piece of a heap was
/// registered.
pub open spec fn heap_requested(s: MachineState, g: GpuView, params: RequestParams) -> (
    MachineState,
    GpuView,
    RequestParams,
) {
    let (t, h, ok) = heap_registered(s, g, params.rcx, params.rdx, params.r8, params.r9);
    (
        t,
        h,
        RequestParams {
            rcx: if ok {
                0
            } else {
                REFUSED
            },
            ..params
        },
    )
}

/// Registers a service, for one engine or for any.
pub fn register_service(gpu: &mut GpuState, params: &mut RequestParams) -> (r: Result<(), MonitorError>)
    ensures
        r is Ok,
        (final(gpu)@, *final(params)) == service_registered_for(old(gpu)@, *old(params)),
        old(gpu)@.wf() ==> final(gpu)@.wf(),
{
    let comm_page = params.rcx;
    if params.r8 < 64 {
        gpu.service_pages[params.r8 as usize] = comm_page;
    } else {
        gpu.service_page = comm_page;
    }
    assert(gpu@.window_npages =~= old(gpu)@.window_npages);
    assert(gpu@.heap_npages =~= old(gpu)@.heap_npages);
    assert(old(gpu)@.wf() ==> gpu@.wf());
    params.rcx = 0;
    Ok(())
}

/// Registers a window, for one engine or for any. The answer is -1 where
/// it has no list, no pages or too many.
pub fn register_window(gpu: &mut GpuState, m: &mut Machine, params: &mut RequestParams) -> (r: Result<
    (),
    MonitorError,
>)
    requires
        old(gpu)@.wf(),
    ensures
        r is Ok,
        final(gpu)@.wf(),
        (final(m)@, final(gpu)@, *final(params)) == window_requested(
            old(m)@,
            old(gpu)@,
            *old(params),
        ),
{
    let list_phys = params.rcx;
    let npages = params.rdx;
    let engine = params.r8;
    if list_phys == 0 || npages == 0 || npages > GPU_WINDOW_MAX_PAGES {
        params.rcx = REFUSED;
        return Ok(());
    }
    let slot = if engine < 64 {
        gpu.window_lists[engine as usize]
    } else {
        gpu.window_list_any
    };
    let copy = if slot == 0 {
        allocate_page(m)
    } else {
        slot
    };
    copy_words(m, copy, list_phys, npages);
    if engine < 64 {
        gpu.window_lists[engine as usize] = copy;
        gpu.window_npages[engine as usize] = npages;
    } else {
        gpu.window_list_any = copy;
        gpu.window_npages_any = npages;
    }
    assert(forall|i: int|
        0 <= i < 64 ==> #[trigger] gpu@.window_npages[i] <= GPU_WINDOW_MAX_PAGES) by {
        let g = old(gpu)@;
        assert(gpu@.window_npages == g.with_window(engine, copy, npages).window_npages);
        assert(forall|i: int|
            0 <= i < 64 ==> #[trigger] g.window_npages[i] <= GPU_WINDOW_MAX_PAGES);
    }
    assert(gpu@.heap_npages =~= old(gpu)@.heap_npages);
    assert(gpu@.wf());
    params.rcx = 0;
    Ok(())
}

/// Registers a piece of a heap, for one engine or for any. The answer is
/// -1 where it has no list, no pages or too many, or does not follow the
/// piece before it.
pub fn register_heap(gpu: &mut GpuState, m: &mut Machine, params: &mut RequestParams) -> (r: Result<
    (),
    MonitorError,
>)
    requires
        old(gpu)@.wf(),
    ensures
        r is Ok,
        final(gpu)@.wf(),
        (final(m)@, final(gpu)@, *final(params)) == heap_requested(
            old(m)@,
            old(gpu)@,
            *old(params),
        ),
{
    let list_phys = params.rcx;
    let npages = params.rdx;
    let engine = params.r8;
    let offset = params.r9;
    if list_phys == 0 || npages == 0 || npages > 512 || offset > GPU_HEAP_MAX_PAGES - npages {
        params.rcx = REFUSED;
        return Ok(());
    }
    if offset == 0 {
        reset_heap(gpu, engine);
    }
    assert(gpu@.wf()) by {
        let g = old(gpu)@;
        assert(forall|i: int| 0 <= i < 64 ==> #[trigger] g.heap_npages[i] <= GPU_HEAP_MAX_PAGES);
        assert(forall|i: int|
            0 <= i < 64 ==> #[trigger] g.heap_reset(engine).heap_npages[i]
                <= GPU_HEAP_MAX_PAGES);
    }
    let ghost h = gpu@;
    let current = if engine < 64 {
        gpu.heap_npages[engine as usize]
    } else {
        gpu.heap_npages_any
    };
    if offset != current {
        params.rcx = REFUSED;
        return Ok(());
    }
    let known = if engine < 64 {
        gpu.heap_dirs[engine as usize]
    } else {
        gpu.heap_dir_any
    };
    let dir = if known == 0 {
        let page = allocate_page(m);
        m.clear_page(page);
        if engine < 64 {
            gpu.heap_dirs[engine as usize] = page;
        } else {
            gpu.heap_dir_any = page;
        }
        page
    } else {
        known
    };
    fill_heap(m, dir, list_phys, offset, npages);
    if engine < 64 {
        gpu.heap_npages[engine as usize] = offset + npages;
    } else {
        gpu.heap_npages_any = offset + npages;
    }
    assert(forall|i: int|
        0 <= i < 64 ==> #[trigger] gpu@.heap_npages[i] <= GPU_HEAP_MAX_PAGES) by {
        assert(forall|i: int| 0 <= i < 64 ==> #[trigger] h.heap_npages[i] <= GPU_HEAP_MAX_PAGES);
    }
    params.rcx = 0;
    Ok(())
}

fn reset_heap(gpu: &mut GpuState, engine: u64)
    ensures
        final(gpu)@ == old(gpu)@.heap_reset(engine),
{
    if engine < 64 {
        gpu.heap_npages[engine as usize] = 0;
        gpu.heap_mapped[engine as usize] = 0;
    } else {
        gpu.heap_npages_any = 0;
        gpu.heap_mapped = [0u64; 64];
        assert(gpu@.heap_mapped =~= Seq::new(64, |i: int| 0u64));
    }
}

/// Maps the heap of an engine for the process that becomes its client.
/// Gives the mapped bytes.
pub fn map_heap_for_trustlet(
    gpu: &mut GpuState,
    m: &mut Machine,
    core: usize,
    cr3: PhysAddr,
    granted: u64,
) -> (r: u64)
    requires
        core < 64,
        old(gpu)@.wf(),
    ensures
        (final(m)@, final(gpu)@, r) == heap_given(
            old(m)@,
            old(gpu)@,
            core as int,
            cr3,
            granted as nat,
        ),
        final(gpu)@.wf(),
{
    gpu.engine_is_trustlet[core] = true;
    let (dir, npages) = heap_for(gpu, core);
    if dir == 0 || npages == 0 {
        gpu.heap_mapped[core] = 0;
        return 0;
    }
    let mapped = map_heap_range(m, cr3, dir, 0, npages, granted);
    if mapped != npages {
        gpu.heap_mapped[core] = 0;
        return 0;
    }
    gpu.heap_mapped[core] = mapped;
    mapped * 4096
}

/// Registers a guest as the client of an engine: of the core that the
/// request names, else of the core that it comes from. The answer is
/// whether that core polls.
pub fn register_engine(
    gpu: &mut GpuState,
    exclusive: &ExclusiveState,
    params: &mut RequestParams,
    apic_id: u32,
) -> (r: Result<(), MonitorError>)
    requires
        apic_id < 64 || old(params).r8 < 64,
    ensures
        r is Ok,
        (final(gpu)@, *final(params)) == engine_registered_for(
            old(gpu)@,
            exclusive@,
            *old(params),
            apic_id,
        ),
        old(gpu)@.wf() ==> final(gpu)@.wf(),
{
    let page_table = params.rdx;
    let comm_page = params.rcx;
    let id: usize = if params.r8 < 64 {
        params.r8 as usize
    } else {
        apic_id as usize
    };
    gpu.engine_page_table[id] = page_table;
    gpu.engine_pages[id] = comm_page;
    gpu.engine_is_trustlet[id] = false;
    assert(gpu@.window_npages == old(gpu)@.window_npages && gpu@.heap_npages == old(
        gpu,
    )@.heap_npages);
    params.rcx = if is_donated(exclusive, id) {
        1
    } else {
        0
    };
    Ok(())
}

fn copy_words(m: &mut Machine, dst: PhysAddr, src: PhysAddr, n: u64)
    requires
        n <= 512,
    ensures
        final(m)@ == words_copied(old(m)@, dst, src, n as nat),
{
    let mut i: u64 = 0;
    while i < n
        invariant
            i <= n <= 512,
            m@ == words_copied(old(m)@, dst, src, i as nat),
        decreases n - i,
    {
        let word = m.read(src, i);
        m.write(dst, i, word);
        i = i + 1;
    }
}

fn fill_heap(m: &mut Machine, dir: PhysAddr, list_phys: PhysAddr, offset: u64, npages: u64)
    requires
        npages <= 512,
        offset + npages <= GPU_HEAP_MAX_PAGES,
    ensures
        final(m)@ == heap_filled(old(m)@, dir, list_phys, offset as int, npages as nat),
{
    let mut i: u64 = 0;
    while i < npages
        invariant
            i <= npages <= 512,
            offset + npages <= GPU_HEAP_MAX_PAGES,
            m@ == heap_filled(old(m)@, dir, list_phys, offset as int, i as nat),
        decreases npages - i,
    {
        let idx: u64 = offset + i;
        if m.read(dir, idx / 512) == 0 {
            let page = allocate_page(m);
            m.clear_page(page);
            m.write(dir, idx / 512, page);
        }
        let list = m.read(dir, idx / 512);
        let page = m.read(list_phys, i);
        m.write(list, idx % 512, page);
        i = i + 1;
    }
}

/// A heap only grows, but for a piece at offset 0, which starts a new one; a
/// refused piece adds nothing.
pub proof fn law_heap_is_append_only(
    s: MachineState,
    g: GpuView,
    list: u64,
    npages: u64,
    engine: u64,
    offset: u64,
)
    requires
        g.wf(),
        g.heap_npages.len() == 64,
        g.heap_mapped.len() == 64,
        g.heap_dirs.len() == 64,
    ensures
        ({
            let (_, h, ok) = heap_registered(s, g, list, npages, engine, offset);
            &&& ok ==> h.heap_len(engine) == offset + npages && (offset == 0 || offset
                == g.heap_len(engine))
            &&& !ok && offset != 0 ==> h == g
            &&& ok && offset != 0 ==> h.heap_len(engine) == g.heap_len(engine) + npages
        }),
{
}

/// An engine without a window or heap of its own uses the shared one; one that
/// registers its own uses that.
pub proof fn law_own_before_shared(g: GpuView, core: int, list: u64, npages: u64)
    requires
        0 <= core < 64,
        g.window_lists.len() == 64,
        g.window_npages.len() == 64,
        list != 0,
        npages != 0,
    ensures
        g.with_window(core as u64, list, npages).window(core) == (list, npages),
        g.window_lists[core] == 0 ==> g.window(core) == (g.window_list_any, g.window_npages_any),
        g.service_pages[core] != 0 ==> g.service_for(core) == g.service_pages[core],
        g.service_pages[core] == 0 ==> g.service_for(core) == g.service_page,
{
}

} // verus!
