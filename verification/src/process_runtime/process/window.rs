//! What a process finds of the GPU that it was given.
use vstd::prelude::*;
use crate::address;
use crate::gpu::direct;
use crate::gpu::direct::{GpuView, GPU_HEAP_MAX_PAGES, GPU_HEAP_VADDR, SHARED_PAGE_FLAGS};
use crate::gpu::heap;
use crate::memory::machine;
use crate::memory::machine::MachineState;
use crate::process_manager::process_paging::entry;
use crate::process_manager::process_paging::loading;
use crate::process_manager::process_paging::mapping;
use crate::process_manager::process_paging::program;
use crate::process_manager::process_paging::ranges;
use crate::process_manager::process_paging::soundness;
use crate::process_manager::process_paging::walk;
use crate::process_manager::process_paging::widening;
use crate::process_runtime::process::gpu;
use crate::process_runtime::process::gpu::GPU_WINDOW_VADDR;
use crate::sev::utils::VMPL1_RWX;

verus! {

/// The tables that are missing for the pages of a window that are mapped.
pub open spec fn window_takes(
    s: MachineState,
    root: u64,
    list: u64,
    i: nat,
    n: nat,
    granted: nat,
) -> nat
    decreases n - i,
{
    let page = s.rd(list, i as int);
    let va = address::page_above(GPU_WINDOW_VADDR, i as int);
    if i >= n || page == 0 || granted == 0 {
        0
    } else {
        walk::walk_end(s, root, va, 3).0 + window_takes(
            mapping::map_page(s, root, va, page, SHARED_PAGE_FLAGS),
            root,
            list,
            i + 1,
            n,
            (granted - 1) as nat,
        )
    }
}

/// Whether the list of a window has nothing to do with a page table, and names
/// pages that can be mapped.
pub open spec fn list_apart(s: MachineState, root: u64, list: u64) -> bool {
    &&& list % 4096 == 0
    &&& !soundness::in_pool(s.pool, list)
    &&& !soundness::is_table(s, root, list)
    &&& forall|i: int| 0 <= i < 512 ==> entry::strip(s.c_bit, #[trigger] s.rd(list, i)) == s.rd(list, i)
}

/// A list that has nothing to do with a page table is not touched by what is
/// done to it.
proof fn lemma_list_kept(s: MachineState, t: MachineState, root: u64, list: u64)
    requires
        list_apart(s, root, list),
        soundness::others_kept(s, t, root),
    ensures
        list_apart(t, root, list),
        forall|i: int| 0 <= i < 512 ==> #[trigger] t.rd(list, i) == s.rd(list, i),
{
    assert forall|i: int| 0 <= i < 512 implies #[trigger] t.rd(list, i) == s.rd(list, i) by {
    }
    if soundness::in_pool(t.pool, list) {
        assert(soundness::in_pool(s.pool, list));
    }
    if soundness::is_table(t, root, list) {
        assert(soundness::is_table(s, root, list) || soundness::in_pool(s.pool, list));
    }
}

/// A process finds the window that was mapped for it: page `i` of it is the one
/// that the list of the window names in its place, and can be written. As many
/// are mapped as were granted, up to the first that is missing. All else is found
/// where it was.
pub proof fn law_mapped_window_is_found(
    s: MachineState,
    root: u64,
    list: u64,
    from: nat,
    n: nat,
    granted: nat,
)
    requires
        soundness::sound(s, root),
        list_apart(s, root, list),
        n <= 512,
        s.pool.available() >= window_takes(s, root, list, from, n, granted),
    ensures
        ({
            let (t, mapped) = gpu::window_run(s, root, list, from, n, granted);
            &&& soundness::sound(t, root)
            &&& soundness::others_kept(s, t, root)
            &&& mapped <= granted
            &&& from <= n ==> from + mapped <= n
            &&& from < n && mapped < granted && from + mapped < n ==> s.rd(
                list,
                (from + mapped) as int,
            ) == 0
            &&& forall|i: int|
                from <= i < from + mapped ==> #[trigger] page_found(s, t, root, list, i)
            &&& forall|vb: u64|
                !program::in_run(
                    address::page_above(GPU_WINDOW_VADDR, from as int),
                    mapped as int,
                    vb,
                ) ==> #[trigger] walk::leaf_below(t, root, vb, 3) == walk::leaf_below(
                    s,
                    root,
                    vb,
                    3,
                )
        }),
    decreases n - from,
{
    let page = s.rd(list, from as int);
    if from < n && page != 0 && granted > 0 {
        let va = address::page_above(GPU_WINDOW_VADDR, from as int);
        let a = mapping::map_page(s, root, va, page, SHARED_PAGE_FLAGS);
        heap::lemma_shared_flags();
        soundness::law_mapped_page_is_found(s, root, va, page, SHARED_PAGE_FLAGS);
        lemma_list_kept(s, a, root, list);
        law_mapped_window_is_found(a, root, list, from + 1, n, (granted - 1) as nat);
        let (t, mapped) = gpu::window_run(s, root, list, from, n, granted);
        soundness::lemma_others_kept(s, a, t, root);
        lemma_window_joined(s, a, t, root, list, from as int, mapped as int);
    } else {
        assert(gpu::window_run(s, root, list, from, n, granted) == (s, 0nat));
    }
}

/// Whether page `i` of a window is found: it is the one that the list names.
pub open spec fn page_found(
    s: MachineState,
    t: MachineState,
    root: u64,
    list: u64,
    i: int,
) -> bool {
    let va = address::page_above(GPU_WINDOW_VADDR, i);
    &&& s.rd(list, i) != 0
    &&& walk::translate(t, root, va) == s.rd(list, i)
    &&& walk::leaf_below(t, root, va, 3) == Some(
        entry::entry_word(s.c_bit, s.rd(list, i), SHARED_PAGE_FLAGS),
    )
}

proof fn lemma_window_joined(
    s: MachineState,
    a: MachineState,
    t: MachineState,
    root: u64,
    list: u64,
    from: int,
    mapped: int,
)
    requires
        0 <= from,
        0 < mapped,
        from + mapped <= 512,
        a.c_bit == s.c_bit,
        t.c_bit == s.c_bit,
        page_found(s, a, root, list, from),
        forall|i: int| 0 <= i < 512 ==> #[trigger] a.rd(list, i) == s.rd(list, i),
        forall|vb: u64|
            !soundness::same_page(address::page_above(GPU_WINDOW_VADDR, from), vb)
                ==> #[trigger] walk::leaf_below(a, root, vb, 3) == walk::leaf_below(s, root, vb, 3),
        forall|i: int|
            from + 1 <= i < from + mapped ==> #[trigger] page_found(a, t, root, list, i),
        forall|vb: u64|
            !program::in_run(
                address::page_above(GPU_WINDOW_VADDR, from + 1),
                mapped - 1,
                vb,
            ) ==> #[trigger] walk::leaf_below(t, root, vb, 3) == walk::leaf_below(a, root, vb, 3),
    ensures
        forall|i: int|
            from <= i < from + mapped ==> #[trigger] page_found(s, t, root, list, i),
        forall|vb: u64|
            !program::in_run(
                address::page_above(GPU_WINDOW_VADDR, from),
                mapped,
                vb,
            ) ==> #[trigger] walk::leaf_below(t, root, vb, 3) == walk::leaf_below(s, root, vb, 3),
{
    let va = address::page_above(GPU_WINDOW_VADDR, from);
    assert forall|i: int| from <= i < from + mapped implies #[trigger] page_found(
        s,
        t,
        root,
        list,
        i,
    ) by {
        if i > from {
            assert(page_found(a, t, root, list, i));
            assert(a.rd(list, i) == s.rd(list, i));
        } else {
            lemma_behind(from, mapped, va, true);
        }
    }
    assert forall|vb: u64|
        !program::in_run(va, mapped, vb) implies #[trigger] walk::leaf_below(t, root, vb, 3)
        == walk::leaf_below(s, root, vb, 3) by {
        lemma_behind(from, mapped, vb, false);
    }
}

/// What is none of the pages of a run is not its first, and none of those behind
/// it; nor is the first one of those behind it.
proof fn lemma_behind(from: int, mapped: int, vb: u64, first: bool)
    requires
        0 <= from,
        0 < mapped,
        from + mapped <= 512,
        if first {
            vb == address::page_above(GPU_WINDOW_VADDR, from)
        } else {
            !program::in_run(address::page_above(GPU_WINDOW_VADDR, from), mapped, vb)
        },
    ensures
        !program::in_run(address::page_above(GPU_WINDOW_VADDR, from + 1), mapped - 1, vb),
        !first ==> !soundness::same_page(address::page_above(GPU_WINDOW_VADDR, from), vb),
{
    let start = address::page_above(GPU_WINDOW_VADDR, from);
    let next = address::page_above(GPU_WINDOW_VADDR, from + 1);
    if program::in_run(next, mapped - 1, vb) {
        let i = choose|i: int|
            0 <= i < mapped - 1 && soundness::same_page(
                #[trigger] address::page_above(next, i),
                vb,
            );
        widening::lemma_page_from(GPU_WINDOW_VADDR, from + 1, i);
        widening::lemma_page_from(GPU_WINDOW_VADDR, from, i + 1);
        if first {
            ranges::lemma_run_pages_differ(GPU_WINDOW_VADDR, from + 1 + i, from);
        } else {
            assert(soundness::same_page(address::page_above(start, i + 1), vb));
        }
    }
    if !first {
        widening::lemma_page_from(GPU_WINDOW_VADDR, from, 0);
        if soundness::same_page(start, vb) {
            assert(soundness::same_page(address::page_above(start, 0), vb));
        }
    }
}

/// A process finds a page of zeros for its calls where it asked for it. The page
/// is a fresh one, and it is the one that is handed on to be polled.
pub proof fn law_page_for_calls_is_found(s: MachineState, root: u64, va: u64)
    requires
        soundness::sound(s, root),
        s.pool.available() >= loading::put_takes(s, root, va),
    ensures
        ({
            let (t, page) = gpu::page_given(s, root, va);
            &&& soundness::sound(t, root)
            &&& soundness::others_kept(s, t, root)
            &&& soundness::in_pool(s.pool, page)
            &&& walk::translate(t, root, va) == page
            &&& loading::holds(t, root, va, machine::zero_words(), SHARED_PAGE_FLAGS)
            &&& forall|vb: u64|
                !soundness::same_page(va, vb) ==> #[trigger] walk::leaf_below(t, root, vb, 3)
                    == walk::leaf_below(s, root, vb, 3)
        }),
{
    let (u, page) = s.take_page();
    let w = u.grant(page, VMPL1_RWX).zero(page);
    heap::lemma_shared_flags();
    assert(machine::zero_words().len() == 512);
    assert(w == (MachineState { ops: w.ops, ..u.fill(page, machine::zero_words()) }));
    loading::lemma_put_page(s, w, root, va, SHARED_PAGE_FLAGS, machine::zero_words());
}

/// Whether a process can be given the GPU: there are pages for its calls and for
/// the tables that are missing, the window and the heap have nothing to do with
/// its page table, and the address for its calls is none of theirs.
pub open spec fn channel_fits(
    s: MachineState,
    g: GpuView,
    core: int,
    root: u64,
    va: u64,
    granted_window: nat,
    granted_heap: nat,
) -> bool {
    let s1 = gpu::page_given(s, root, va).0;
    let (list, npages) = g.window(core);
    let s2 = gpu::window_given(s1, g, core, root, granted_window).0;
    let (dir, hpages) = g.heap(core);
    &&& soundness::sound(s, root)
    &&& s.pool.available() >= loading::put_takes(s, root, va)
    &&& npages <= 512
    &&& list != 0 ==> list_apart(s1, root, list)
    &&& list != 0 ==> s1.pool.available() >= window_takes(
        s1,
        root,
        list,
        0,
        npages as nat,
        granted_window,
    )
    &&& hpages <= GPU_HEAP_MAX_PAGES
    &&& dir != 0 ==> heap::heap_apart(s2, root, dir)
    &&& dir != 0 ==> heap::heap_mappable(s2, dir, hpages as int)
    &&& dir != 0 ==> s2.pool.available() >= heap::run_takes(
        s2,
        root,
        dir,
        0,
        hpages as nat,
        granted_heap,
    )
    &&& !program::in_run(GPU_WINDOW_VADDR, 512, va)
    &&& heap::beside_heap(0, GPU_HEAP_MAX_PAGES as int, va)
}

/// A process that was given the GPU finds the page that is polled for its calls
/// where it asked for it, clear. It is told of all of the window, which it then
/// finds, or of none; and the same of the heap. No other engine is changed.
pub proof fn law_given_channel_is_polled(
    s: MachineState,
    g: GpuView,
    core: int,
    root: u64,
    va: u64,
    granted_window: nat,
    granted_heap: nat,
)
    requires
        channel_fits(s, g, core, root, va, granted_window, granted_heap),
        0 <= core < 64,
        g.engine_pages.len() == 64,
        g.engine_page_table.len() == 64,
        g.heap_mapped.len() == 64,
        g.engine_is_trustlet.len() == 64,
    ensures
        ({
            let (t, h, window, heap) = gpu::channel_given(
                s,
                g,
                core,
                root,
                va,
                granted_window,
                granted_heap,
            );
            let s1 = gpu::page_given(s, root, va).0;
            let s2 = gpu::window_given(s1, g, core, root, granted_window).0;
            let (list, npages) = g.window(core);
            let (dir, hpages) = g.heap(core);
            &&& walk::translate(t, root, va) == h.engine_pages[core]
            &&& loading::holds(t, root, va, machine::zero_words(), SHARED_PAGE_FLAGS)
            &&& h.engine_page_table[core] == root
            &&& h.engine_is_trustlet[core]
            &&& h.heap_mapped[core] * 4096 == heap
            &&& forall|other: int|
                0 <= other < 64 && other != core ==> #[trigger] h.engine_pages[other]
                    == g.engine_pages[other] && h.engine_page_table[other]
                    == g.engine_page_table[other] && h.heap_mapped[other] == g.heap_mapped[other]
            &&& window != 0 ==> window == npages * 4096 && list != 0 && forall|i: int|
                0 <= i < npages ==> #[trigger] page_found(s1, s2, root, list, i)
            &&& heap != 0 ==> heap == hpages * 4096 && dir != 0 && forall|i: int|
                0 <= i < hpages ==> walk::translate(
                    t,
                    root,
                    #[trigger] address::page_above(GPU_HEAP_VADDR, i),
                ) == direct::heap_entry(s2, dir, i)
        }),
{
    let s1 = gpu::page_given(s, root, va).0;
    let (list, npages) = g.window(core);
    let s2 = gpu::window_given(s1, g, core, root, granted_window).0;
    let (dir, hpages) = g.heap(core);
    let (t, h, window, heap) = gpu::channel_given(
        s,
        g,
        core,
        root,
        va,
        granted_window,
        granted_heap,
    );
    law_page_for_calls_is_found(s, root, va);
    lemma_window_given(s1, g, core, root, granted_window, va);
    loading::lemma_holds_kept(s1, s2, root, va, machine::zero_words(), SHARED_PAGE_FLAGS);
    if dir != 0 && hpages != 0 {
        heap::law_mapped_heap_is_found(s2, root, dir, 0, hpages as nat, granted_heap);
        let n = direct::heap_run(s2, root, dir, 0, hpages as nat, granted_heap).1;
        assert(heap::beside_heap(0, n as int, va));
    }
    loading::lemma_holds_kept(s2, t, root, va, machine::zero_words(), SHARED_PAGE_FLAGS);
}

proof fn lemma_window_given(
    s: MachineState,
    g: GpuView,
    core: int,
    root: u64,
    granted: nat,
    va: u64,
)
    requires
        soundness::sound(s, root),
        ({
            let (list, npages) = g.window(core);
            &&& npages <= 512
            &&& list != 0 ==> list_apart(s, root, list)
            &&& list != 0 ==> s.pool.available() >= window_takes(
                s,
                root,
                list,
                0,
                npages as nat,
                granted,
            )
        }),
        !program::in_run(GPU_WINDOW_VADDR, 512, va),
    ensures
        ({
            let (t, window) = gpu::window_given(s, g, core, root, granted);
            let (list, npages) = g.window(core);
            &&& soundness::sound(t, root)
            &&& soundness::others_kept(s, t, root)
            &&& walk::leaf_below(t, root, va, 3) == walk::leaf_below(s, root, va, 3)
            &&& window != 0 ==> window == npages * 4096 && list != 0 && forall|i: int|
                0 <= i < npages ==> #[trigger] page_found(s, t, root, list, i)
        }),
{
    let (list, npages) = g.window(core);
    if list != 0 && npages != 0 {
        law_mapped_window_is_found(s, root, list, 0, npages as nat, granted);
        let mapped = gpu::window_run(s, root, list, 0, npages as nat, granted).1;
        assert(address::page_above(GPU_WINDOW_VADDR, 0) == GPU_WINDOW_VADDR);
        if program::in_run(GPU_WINDOW_VADDR, mapped as int, va) {
            let i = choose|i: int|
                0 <= i < mapped && soundness::same_page(
                    #[trigger] address::page_above(GPU_WINDOW_VADDR, i),
                    va,
                );
            assert(program::in_run(GPU_WINDOW_VADDR, 512, va));
        }
    }
}

} // verus!
