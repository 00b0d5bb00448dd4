//! What the heaps and windows of engines hold, and where clients find them.
use vstd::prelude::*;
use crate::address;
use crate::gpu::direct;
use crate::gpu::direct::{GpuView, GPU_HEAP_MAX_PAGES, GPU_HEAP_VADDR, SHARED_PAGE_FLAGS};
use crate::memory::machine::MachineState;
use crate::process_manager::process_paging::entry;
use crate::process_manager::process_paging::mapping;
use crate::process_manager::process_paging::ranges;
use crate::process_manager::process_paging::soundness;
use crate::process_manager::process_paging::walk;

verus! {

/// Whether the directory of a heap is sound: it and the lists that it leads to
/// are pages that cannot be handed out, each of them a different one.
pub open spec fn heap_sound(s: MachineState, dir: u64) -> bool {
    &&& soundness::is_page(s, dir)
    &&& !soundness::in_pool(s.pool, dir)
    &&& forall|k: int|
        0 <= k < 512 && #[trigger] s.rd(dir, k) != 0 ==> soundness::is_page(s, s.rd(dir, k))
            && !soundness::in_pool(s.pool, s.rd(dir, k)) && s.rd(dir, k) != dir
    &&& forall|k: int, l: int|
        0 <= k < l < 512 && #[trigger] s.rd(dir, k) != 0 ==> s.rd(dir, k) != #[trigger] s.rd(dir, l)
}

/// Whether a page has nothing to do with a heap: it cannot be handed out, and is
/// neither the directory nor one of the lists.
pub open spec fn foreign(s: MachineState, dir: u64, pa: u64) -> bool {
    &&& pa % 4096 == 0
    &&& !soundness::in_pool(s.pool, pa)
    &&& pa != dir
    &&& forall|k: int| 0 <= k < 512 ==> #[trigger] s.rd(dir, k) != pa
}

/// The lists that are missing for `n` pages from page `offset` on.
pub open spec fn lists_missing(s: MachineState, dir: u64, guest: u64, offset: int, n: nat) -> nat
    decreases n,
{
    if n == 0 {
        0
    } else {
        let t = direct::heap_filled(s, dir, guest, offset, (n - 1) as nat);
        lists_missing(s, dir, guest, offset, (n - 1) as nat) + (if t.rd(
            dir,
            (offset + n - 1) / 512,
        ) == 0 {
            1nat
        } else {
            0
        })
    }
}

/// A page that was taken is clear already.
proof fn lemma_clear_again(s: MachineState)
    requires
        soundness::pool_sound(s),
        s.pool.available() > 0,
    ensures
        ({
            let (t, page) = s.take_page();
            t.zero(page) == t
        }),
{
    let (t, page) = s.take_page();
    soundness::law_taken_page_is_fresh(s);
    assert(t.zero(page).mem =~= t.mem) by {
        assert forall|k: int| 0 <= k < t.mem.len() implies t.zero(page).mem[k] == t.mem[k] by {
            let i = k - page as int / 8;
            if 0 <= i < 512 {
                assert(t.rd(page, i) == 0);
            }
        }
    }
}

/// Whether two machines have the same heap, and the same pages that have nothing
/// to do with it.
spec fn heap_kept(s: MachineState, t: MachineState, dir: u64) -> bool {
    &&& soundness::pool_sound(t)
    &&& heap_sound(t, dir)
    &&& t.c_bit == s.c_bit
    &&& t.mem.len() == s.mem.len()
    &&& forall|pa: u64| soundness::in_pool(t.pool, pa) ==> #[trigger] soundness::in_pool(s.pool, pa)
    &&& forall|pa: u64| foreign(s, dir, pa) ==> #[trigger] foreign(t, dir, pa)
    &&& forall|pa: u64, i: int|
        foreign(s, dir, pa) && 0 <= i < 512 ==> #[trigger] t.rd(pa, i) == s.rd(pa, i)
}

/// What adding a list to the directory does.
proof fn lemma_list_added(s: MachineState, dir: u64, k: int)
    requires
        soundness::pool_sound(s),
        heap_sound(s, dir),
        0 <= k < 512,
        s.rd(dir, k) == 0,
        s.pool.available() > 0,
    ensures
        ({
            let (taken, page) = s.take_page();
            let t = taken.zero(page).wr(dir, k, page);
            &&& heap_kept(s, t, dir)
            &&& t.pool.available() == s.pool.available() - 1
            &&& t.rd(dir, k) != 0
            &&& forall|j: int|
                0 <= j < GPU_HEAP_MAX_PAGES ==> #[trigger] direct::heap_entry(t, dir, j)
                    == direct::heap_entry(s, dir, j)
        }),
{
    let (taken, page) = s.take_page();
    soundness::law_taken_page_is_fresh(s);
    lemma_clear_again(s);
    let t = taken.wr(dir, k, page);
    assert(page != dir);
    assert forall|pa: u64, i: int|
        #![trigger t.rd(pa, i)]
        pa % 4096 == 0 && 0 <= i < 512 implies t.rd(pa, i) == (if pa == dir && i == k {
        page
    } else if pa == page {
        0
    } else {
        s.rd(pa, i)
    }) by {
        if pa != dir {
            soundness::lemma_words_apart(pa, dir, i, k);
        }
        assert(t.rd(pa, i) == (if pa == dir && i == k {
            page
        } else {
            taken.rd(pa, i)
        }));
    }
    assert(soundness::pool_sound(t)) by {
        assert forall|pa: u64|
            pa % 4096 == 0 && #[trigger] soundness::in_region(
                t.pool,
                pa,
            ) implies soundness::is_page(t, pa) by {
            assert(soundness::in_region(taken.pool, pa));
        }
    }
    assert(heap_sound(t, dir)) by {
        assert forall|l: int| 0 <= l < 512 && #[trigger] t.rd(dir, l) != 0 implies soundness::is_page(
            t,
            t.rd(dir, l),
        ) && !soundness::in_pool(t.pool, t.rd(dir, l)) && t.rd(dir, l) != dir by {
            if l != k {
                assert(t.rd(dir, l) == s.rd(dir, l));
                if soundness::in_pool(t.pool, s.rd(dir, l)) {
                    assert(soundness::in_pool(s.pool, s.rd(dir, l)));
                }
            }
        }
        assert forall|a: int, b: int|
            0 <= a < b < 512 && #[trigger] t.rd(dir, a) != 0 implies t.rd(dir, a)
            != #[trigger] t.rd(dir, b) by {
            if a != k {
                assert(!soundness::in_pool(s.pool, s.rd(dir, a)));
            }
            if b != k && s.rd(dir, b) != 0 {
                assert(!soundness::in_pool(s.pool, s.rd(dir, b)));
            }
        }
        if soundness::in_pool(t.pool, dir) {
            assert(soundness::in_pool(s.pool, dir));
        }
    }
    assert forall|pa: u64| foreign(s, dir, pa) implies #[trigger] foreign(t, dir, pa) by {
        if soundness::in_pool(t.pool, pa) {
            assert(soundness::in_pool(s.pool, pa));
        }
        assert forall|l: int| 0 <= l < 512 implies #[trigger] t.rd(dir, l) != pa by {
            assert(s.rd(dir, l) != pa);
        }
    }
    assert forall|j: int| 0 <= j < GPU_HEAP_MAX_PAGES implies #[trigger] direct::heap_entry(
        t,
        dir,
        j,
    ) == direct::heap_entry(s, dir, j) by {
        let l = j / 512;
        if l == k {
            assert(t.rd(page, j % 512) == 0);
        } else {
            assert(t.rd(dir, l) == s.rd(dir, l));
            let list = s.rd(dir, l);
            if list != 0 {
                assert(!soundness::in_pool(s.pool, list) && soundness::is_page(s, list));
                assert(t.rd(list, j % 512) == s.rd(list, j % 512));
            }
        }
    }
}

/// What setting a page of a heap does.
proof fn lemma_entry_set(s: MachineState, dir: u64, idx: int, v: u64)
    requires
        soundness::pool_sound(s),
        heap_sound(s, dir),
        0 <= idx < GPU_HEAP_MAX_PAGES,
        s.rd(dir, idx / 512) != 0,
    ensures
        ({
            let t = s.wr(s.rd(dir, idx / 512), idx % 512, v);
            &&& heap_kept(s, t, dir)
            &&& forall|j: int|
                0 <= j < GPU_HEAP_MAX_PAGES ==> #[trigger] direct::heap_entry(t, dir, j) == (if j
                    == idx {
                    v
                } else {
                    direct::heap_entry(s, dir, j)
                })
            &&& forall|k: int| 0 <= k < 512 ==> #[trigger] t.rd(dir, k) == s.rd(dir, k)
        }),
{
    let list = s.rd(dir, idx / 512);
    let t = s.wr(list, idx % 512, v);
    assert forall|pa: u64, i: int|
        #![trigger t.rd(pa, i)]
        pa % 4096 == 0 && 0 <= i < 512 implies t.rd(pa, i) == (if pa == list && i == idx % 512 {
        v
    } else {
        s.rd(pa, i)
    }) by {
        if pa != list {
            soundness::lemma_words_apart(pa, list, i, idx % 512);
        }
    }
    assert(soundness::pool_sound(t)) by {
        assert forall|pa: u64|
            pa % 4096 == 0 && #[trigger] soundness::in_region(
                t.pool,
                pa,
            ) implies soundness::is_page(t, pa) by {
            assert(soundness::in_region(s.pool, pa));
        }
    }
    assert forall|pa: u64| foreign(s, dir, pa) implies #[trigger] foreign(t, dir, pa) by {
        assert forall|l: int| 0 <= l < 512 implies #[trigger] t.rd(dir, l) != pa by {
            assert(s.rd(dir, l) != pa);
        }
    }
    assert forall|pa: u64, i: int| foreign(s, dir, pa) && 0 <= i < 512 implies #[trigger] t.rd(
        pa,
        i,
    ) == s.rd(pa, i) by {
        assert(s.rd(dir, idx / 512) != pa);
    }
    assert forall|j: int| 0 <= j < GPU_HEAP_MAX_PAGES implies #[trigger] direct::heap_entry(
        t,
        dir,
        j,
    ) == (if j == idx {
        v
    } else {
        direct::heap_entry(s, dir, j)
    }) by {
        assert(t.rd(dir, j / 512) == s.rd(dir, j / 512));
        let other = s.rd(dir, j / 512);
        if other != 0 {
            if j / 512 < idx / 512 {
                assert(s.rd(dir, j / 512) != s.rd(dir, idx / 512));
            } else if j / 512 > idx / 512 {
                assert(s.rd(dir, idx / 512) != s.rd(dir, j / 512));
            }
            assert(t.rd(other, j % 512) == (if other == list && j % 512 == idx % 512 {
                v
            } else {
                s.rd(other, j % 512)
            }));
        }
    }
}

proof fn lemma_heap_kept(s: MachineState, t: MachineState, u: MachineState, dir: u64)
    requires
        heap_kept(s, t, dir),
        heap_kept(t, u, dir),
    ensures
        heap_kept(s, u, dir),
{
    assert forall|pa: u64| soundness::in_pool(u.pool, pa) implies #[trigger] soundness::in_pool(
        s.pool,
        pa,
    ) by {
        assert(soundness::in_pool(t.pool, pa));
    }
    assert forall|pa: u64| foreign(s, dir, pa) implies #[trigger] foreign(u, dir, pa) by {
        assert(foreign(t, dir, pa));
    }
    assert forall|pa: u64, i: int| foreign(s, dir, pa) && 0 <= i < 512 implies #[trigger] u.rd(
        pa,
        i,
    ) == s.rd(pa, i) by {
        assert(foreign(t, dir, pa));
        assert(t.rd(pa, i) == s.rd(pa, i));
    }
}

/// Page `j` of a heap to which `n` pages were added.
spec fn filled_entry(s: MachineState, dir: u64, guest: u64, offset: int, n: int, j: int) -> u64 {
    if offset <= j < offset + n {
        s.rd(guest, j - offset)
    } else {
        direct::heap_entry(s, dir, j)
    }
}

proof fn lemma_filled(s: MachineState, dir: u64, guest: u64, offset: int, n: nat)
    requires
        soundness::pool_sound(s),
        heap_sound(s, dir),
        foreign(s, dir, guest),
        0 <= offset,
        n <= 512,
        offset + n <= GPU_HEAP_MAX_PAGES,
        s.pool.available() >= lists_missing(s, dir, guest, offset, n),
    ensures
        ({
            let t = direct::heap_filled(s, dir, guest, offset, n);
            &&& heap_kept(s, t, dir)
            &&& t.pool.available() == s.pool.available() - lists_missing(s, dir, guest, offset, n)
            &&& forall|j: int|
                0 <= j < GPU_HEAP_MAX_PAGES ==> #[trigger] direct::heap_entry(t, dir, j)
                    == filled_entry(s, dir, guest, offset, n as int, j)
        }),
    decreases n,
{
    if n > 0 {
        let m = (n - 1) as nat;
        lemma_filled(s, dir, guest, offset, m);
        let t = direct::heap_filled(s, dir, guest, offset, m);
        let idx = offset + n - 1;
        let u = if t.rd(dir, idx / 512) == 0 {
            let (taken, page) = t.take_page();
            taken.zero(page).wr(dir, idx / 512, page)
        } else {
            t
        };
        if t.rd(dir, idx / 512) == 0 {
            lemma_list_added(t, dir, idx / 512);
            lemma_heap_kept(s, t, u, dir);
        }
        let v = u.rd(guest, n - 1);
        assert(v == s.rd(guest, n - 1));
        let w = u.wr(u.rd(dir, idx / 512), idx % 512, v);
        assert(w == direct::heap_filled(s, dir, guest, offset, n));
        lemma_entry_set(u, dir, idx, v);
        lemma_heap_kept(s, u, w, dir);
        assert forall|j: int| 0 <= j < GPU_HEAP_MAX_PAGES implies #[trigger] direct::heap_entry(
            w,
            dir,
            j,
        ) == filled_entry(s, dir, guest, offset, n as int, j) by {
            assert(direct::heap_entry(t, dir, j) == filled_entry(
                s,
                dir,
                guest,
                offset,
                m as int,
                j,
            ));
            assert(direct::heap_entry(u, dir, j) == direct::heap_entry(t, dir, j));
        }
    }
}

/// The machine when the directory of the heap in a slot is there, and that
/// directory.
pub open spec fn directory(s: MachineState, g: GpuView, engine: u64) -> (MachineState, u64) {
    if g.heap_dir(engine) == 0 {
        let (taken, page) = s.take_page();
        (taken.zero(page), page)
    } else {
        (s, g.heap_dir(engine))
    }
}

/// Whether there are pages for what a piece of a heap adds: the directory where
/// it is missing, and the lists that are.
pub open spec fn piece_fits(
    s: MachineState,
    g: GpuView,
    list: u64,
    npages: u64,
    engine: u64,
    offset: u64,
) -> bool {
    let (t, dir) = directory(s, g, engine);
    &&& g.heap_dir(engine) == 0 ==> s.pool.available() > 0
    &&& t.pool.available() >= lists_missing(t, dir, list, offset as int, npages as nat)
}

/// Whether the guest's list and the heap in a slot are apart, and the heap is
/// sound, where it has a directory.
pub open spec fn piece_apart(s: MachineState, g: GpuView, list: u64, engine: u64) -> bool {
    if g.heap_dir(engine) == 0 {
        list % 4096 == 0 && !soundness::in_pool(s.pool, list)
    } else {
        heap_sound(s, g.heap_dir(engine)) && foreign(s, g.heap_dir(engine), list)
    }
}

proof fn lemma_directory(s: MachineState, g: GpuView, list: u64, engine: u64)
    requires
        soundness::pool_sound(s),
        list != 0,
        piece_apart(s, g, list, engine),
        g.heap_dir(engine) == 0 ==> s.pool.available() > 0,
    ensures
        ({
            let (t, dir) = directory(s, g, engine);
            &&& soundness::pool_sound(t)
            &&& heap_sound(t, dir)
            &&& foreign(t, dir, list)
            &&& forall|i: int| 0 <= i < 512 ==> #[trigger] t.rd(list, i) == s.rd(list, i)
        }),
{
    let (t, dir) = directory(s, g, engine);
    if g.heap_dir(engine) == 0 {
        soundness::law_taken_page_is_fresh(s);
        lemma_clear_again(s);
        assert(dir != list);
        assert forall|k: int| 0 <= k < 512 implies #[trigger] t.rd(dir, k) == 0 by {
        }
        if soundness::in_pool(t.pool, list) {
            assert(soundness::in_pool(s.pool, list));
        }
    }
}

/// A piece of a heap that was registered is in the heap: its pages are those
/// that the guest listed, behind the pages that the heap had, which stay. What
/// the guest writes to its list later is not seen.
pub proof fn law_registered_heap_is_the_guests(
    s: MachineState,
    g: GpuView,
    list: u64,
    npages: u64,
    engine: u64,
    offset: u64,
)
    requires
        g.wf(),
        g.heap_dirs.len() == 64,
        g.heap_npages.len() == 64,
        g.heap_mapped.len() == 64,
        soundness::pool_sound(s),
        piece_apart(s, g, list, engine),
        piece_fits(s, g, list, npages, engine, offset),
        direct::heap_registered(s, g, list, npages, engine, offset).2,
    ensures
        ({
            let (t, h, _) = direct::heap_registered(s, g, list, npages, engine, offset);
            let dir = h.heap_dir(engine);
            &&& dir != 0
            &&& h.heap_len(engine) == offset + npages
            &&& soundness::pool_sound(t)
            &&& heap_sound(t, dir)
            &&& forall|i: int|
                0 <= i < npages ==> #[trigger] direct::heap_entry(t, dir, offset + i) == s.rd(list, i)
            &&& g.heap_dir(engine) != 0 ==> dir == g.heap_dir(engine) && forall|j: int|
                0 <= j < offset ==> #[trigger] direct::heap_entry(t, dir, j) == direct::heap_entry(
                    s,
                    dir,
                    j,
                )
            &&& forall|k: int, v: u64, j: int|
                0 <= k < 512 && 0 <= j < GPU_HEAP_MAX_PAGES ==> #[trigger] direct::heap_entry(
                    t.wr(list, k, v),
                    dir,
                    j,
                ) == direct::heap_entry(t, dir, j)
        }),
{
    let (a, dir) = directory(s, g, engine);
    lemma_directory(s, g, list, engine);
    lemma_filled(a, dir, list, offset as int, npages as nat);
    let (t, h, _) = direct::heap_registered(s, g, list, npages, engine, offset);
    assert(h.heap_dir(engine) == dir);
    assert(t == direct::heap_filled(a, dir, list, offset as int, npages as nat));
    assert forall|i: int| 0 <= i < npages implies #[trigger] direct::heap_entry(t, dir, offset + i)
        == s.rd(list, i) by {
        assert(direct::heap_entry(t, dir, offset + i) == filled_entry(
            a,
            dir,
            list,
            offset as int,
            npages as int,
            offset + i,
        ));
    }
    assert(foreign(a, dir, list));
    assert(foreign(t, dir, list));
    assert forall|k: int, v: u64, j: int|
        0 <= k < 512 && 0 <= j < GPU_HEAP_MAX_PAGES implies #[trigger] direct::heap_entry(
        t.wr(list, k, v),
        dir,
        j,
    ) == direct::heap_entry(t, dir, j) by {
        let l = j / 512;
        soundness::lemma_words_apart(dir, list, l, k);
        let own = t.rd(dir, l);
        assert(own != list);
        if own != 0 {
            assert(soundness::is_page(t, own));
            soundness::lemma_words_apart(own, list, j % 512, k);
        }
    }
}

/// A window that was registered is the guest's: its pages are those that the
/// guest listed.
pub proof fn law_registered_window_is_the_guests(
    s: MachineState,
    g: GpuView,
    list: u64,
    npages: u64,
    engine: u64,
)
    requires
        soundness::pool_sound(s),
        g.window_lists.len() == 64,
        g.window_npages.len() == 64,
        direct::window_ok(list, npages),
        list % 4096 == 0,
        !soundness::in_pool(s.pool, list),
        if g.window_list(engine) == 0 {
            s.pool.available() > 0
        } else {
            soundness::is_page(s, g.window_list(engine)) && g.window_list(engine) != list
        },
    ensures
        ({
            let (t, h) = direct::window_registered(s, g, list, npages, engine);
            let copy = h.window_list(engine);
            &&& copy != 0
            &&& copy != list
            &&& forall|i: int| 0 <= i < npages ==> #[trigger] t.rd(copy, i) == s.rd(list, i)
            &&& forall|k: int, v: u64, i: int|
                0 <= k < 512 && 0 <= i < 512 ==> #[trigger] t.wr(list, k, v).rd(copy, i) == t.rd(
                    copy,
                    i,
                )
        }),
{
    let slot = g.window_list(engine);
    let (a, copy) = if slot == 0 {
        s.take_page()
    } else {
        (s, slot)
    };
    if slot == 0 {
        soundness::law_taken_page_is_fresh(s);
    }
    assert forall|i: int| 0 <= i < 512 implies #[trigger] a.rd(list, i) == s.rd(list, i) by {
    }
    lemma_words_copied(a, copy, list, npages as nat);
    let t = direct::window_registered(s, g, list, npages, engine).0;
    assert(t == direct::words_copied(a, copy, list, npages as nat));
    assert forall|k: int, v: u64, i: int| 0 <= k < 512 && 0 <= i < 512 implies #[trigger] t.wr(
        list,
        k,
        v,
    ).rd(copy, i) == t.rd(copy, i) by {
        soundness::lemma_words_apart(copy, list, i, k);
    }
}

proof fn lemma_words_copied(s: MachineState, dst: u64, src: u64, n: nat)
    requires
        soundness::is_page(s, dst),
        src % 4096 == 0,
        dst != src,
        n <= 512,
    ensures
        ({
            let t = direct::words_copied(s, dst, src, n);
            &&& t.mem.len() == s.mem.len()
            &&& forall|i: int| 0 <= i < 512 ==> #[trigger] t.rd(src, i) == s.rd(src, i)
            &&& forall|i: int| 0 <= i < n ==> #[trigger] t.rd(dst, i) == s.rd(src, i)
        }),
    decreases n,
{
    if n > 0 {
        lemma_words_copied(s, dst, src, (n - 1) as nat);
        let t = direct::words_copied(s, dst, src, (n - 1) as nat);
        let u = direct::words_copied(s, dst, src, n);
        assert forall|i: int| 0 <= i < 512 implies #[trigger] u.rd(src, i) == s.rd(src, i) by {
            soundness::lemma_words_apart(src, dst, i, n - 1);
            assert(u.rd(src, i) == t.rd(src, i));
        }
        assert forall|i: int| 0 <= i < n implies #[trigger] u.rd(dst, i) == s.rd(src, i) by {
            if i < n - 1 {
                assert(u.rd(dst, i) == t.rd(dst, i));
            } else {
                assert(t.rd(src, n - 1) == s.rd(src, n - 1));
            }
        }
    }
}

/// Whether a heap has nothing to do with a page table: its directory and its
/// lists cannot be handed out and are no tables.
pub open spec fn heap_apart(s: MachineState, root: u64, dir: u64) -> bool {
    &&& dir % 4096 == 0
    &&& !soundness::in_pool(s.pool, dir)
    &&& !soundness::is_table(s, root, dir)
    &&& forall|k: int|
        0 <= k < 512 && #[trigger] s.rd(dir, k) != 0 ==> s.rd(dir, k) % 4096 == 0
            && !soundness::in_pool(s.pool, s.rd(dir, k)) && !soundness::is_table(
            s,
            root,
            s.rd(dir, k),
        )
}

/// The tables that are missing for the pages that `heap_run` maps.
pub open spec fn run_takes(
    s: MachineState,
    root: u64,
    dir: u64,
    idx: nat,
    to: nat,
    granted: nat,
) -> nat
    decreases to - idx,
{
    let page = direct::heap_entry(s, dir, idx as int);
    let va = address::page_above(GPU_HEAP_VADDR, idx as int);
    if idx >= to || page == 0 || granted == 0 {
        0
    } else {
        walk::walk_end(s, root, va, 3).0 + run_takes(
            mapping::map_page(s, root, va, page, SHARED_PAGE_FLAGS),
            root,
            dir,
            idx + 1,
            to,
            (granted - 1) as nat,
        )
    }
}

/// A heap is the same after a change to a page table that it has nothing to do
/// with.
proof fn lemma_heap_untouched(s: MachineState, t: MachineState, root: u64, dir: u64)
    requires
        heap_apart(s, root, dir),
        soundness::others_kept(s, t, root),
    ensures
        heap_apart(t, root, dir),
        forall|j: int|
            0 <= j < GPU_HEAP_MAX_PAGES ==> #[trigger] direct::heap_entry(t, dir, j)
                == direct::heap_entry(s, dir, j),
{
    assert forall|k: int| 0 <= k < 512 implies #[trigger] t.rd(dir, k) == s.rd(dir, k) by {
    }
    lemma_stays_apart(s, t, root, dir);
    assert forall|k: int| 0 <= k < 512 && #[trigger] t.rd(dir, k) != 0 implies t.rd(dir, k) % 4096
        == 0 && !soundness::in_pool(t.pool, t.rd(dir, k)) && !soundness::is_table(
        t,
        root,
        t.rd(dir, k),
    ) by {
        assert(s.rd(dir, k) != 0);
        lemma_stays_apart(s, t, root, s.rd(dir, k));
    }
    assert forall|j: int| 0 <= j < GPU_HEAP_MAX_PAGES implies #[trigger] direct::heap_entry(
        t,
        dir,
        j,
    ) == direct::heap_entry(s, dir, j) by {
        let list = s.rd(dir, j / 512);
        assert(t.rd(dir, j / 512) == list);
        if list != 0 {
            assert(t.rd(list, j % 512) == s.rd(list, j % 512));
        }
    }
}

proof fn lemma_stays_apart(s: MachineState, t: MachineState, root: u64, pa: u64)
    requires
        soundness::others_kept(s, t, root),
        !soundness::in_pool(s.pool, pa),
        !soundness::is_table(s, root, pa),
    ensures
        !soundness::in_pool(t.pool, pa),
        !soundness::is_table(t, root, pa),
{
    if soundness::in_pool(t.pool, pa) {
        assert(soundness::in_pool(s.pool, pa));
    }
    if soundness::is_table(t, root, pa) {
        assert(soundness::is_table(s, root, pa) || soundness::in_pool(s.pool, pa));
    }
}

/// Whether page `i` of a heap can be mapped: an entry can hold its address.
pub open spec fn heap_mappable(s: MachineState, dir: u64, to: int) -> bool {
    forall|i: int|
        0 <= i < to ==> entry::strip(s.c_bit, #[trigger] direct::heap_entry(s, dir, i))
            == direct::heap_entry(s, dir, i)
}

/// Whether an address is none of those of the pages `idx..to` of a heap.
pub open spec fn beside_heap(idx: int, to: int, vb: u64) -> bool {
    forall|i: int|
        idx <= i < to ==> !soundness::same_page(
            #[trigger] address::page_above(GPU_HEAP_VADDR, i),
            vb,
        )
}

/// A client finds the heap that was mapped for it: each page that was mapped
/// leads to that page of the heap, and can be written. As many are mapped as
/// were granted, up to the first that is missing. All other pages of the client
/// are found where they were, and the heap itself is as it was.
pub proof fn law_mapped_heap_is_found(
    s: MachineState,
    root: u64,
    dir: u64,
    from: nat,
    to: nat,
    granted: nat,
)
    requires
        soundness::sound(s, root),
        heap_apart(s, root, dir),
        heap_mappable(s, dir, to as int),
        to <= GPU_HEAP_MAX_PAGES,
        s.pool.available() >= run_takes(s, root, dir, from, to, granted),
    ensures
        ({
            let (t, n) = direct::heap_run(s, root, dir, from, to, granted);
            &&& soundness::sound(t, root)
            &&& heap_apart(t, root, dir)
            &&& soundness::others_kept(s, t, root)
            &&& n <= granted
            &&& from <= to ==> from + n <= to
            &&& from < to && n < granted && from + n < to ==> direct::heap_entry(
                s,
                dir,
                (from + n) as int,
            ) == 0
            &&& forall|i: int|
                from <= i < from + n ==> direct::heap_entry(s, dir, i) != 0 && walk::leaf_below(
                    t,
                    root,
                    #[trigger] address::page_above(GPU_HEAP_VADDR, i),
                    3,
                ) == Some(
                    entry::entry_word(s.c_bit, direct::heap_entry(s, dir, i), SHARED_PAGE_FLAGS),
                )
            &&& forall|i: int|
                from <= i < from + n ==> walk::translate(
                    t,
                    root,
                    #[trigger] address::page_above(GPU_HEAP_VADDR, i),
                ) == direct::heap_entry(s, dir, i)
            &&& forall|vb: u64| #[trigger]
                beside_heap(from as int, (from + n) as int, vb) ==> walk::leaf_below(t, root, vb, 3)
                    == walk::leaf_below(s, root, vb, 3)
            &&& forall|j: int|
                0 <= j < GPU_HEAP_MAX_PAGES ==> #[trigger] direct::heap_entry(t, dir, j)
                    == direct::heap_entry(s, dir, j)
        }),
    decreases to - from,
{
    let page = direct::heap_entry(s, dir, from as int);
    if from < to && page != 0 && granted > 0 {
        let va = address::page_above(GPU_HEAP_VADDR, from as int);
        let a = mapping::map_page(s, root, va, page, SHARED_PAGE_FLAGS);
        lemma_shared_flags();
        soundness::law_mapped_page_is_found(s, root, va, page, SHARED_PAGE_FLAGS);
        lemma_heap_untouched(s, a, root, dir);
        assert(heap_mappable(a, dir, to as int)) by {
            assert forall|i: int| 0 <= i < to implies entry::strip(
                a.c_bit,
                #[trigger] direct::heap_entry(a, dir, i),
            ) == direct::heap_entry(a, dir, i) by {
                assert(direct::heap_entry(a, dir, i) == direct::heap_entry(s, dir, i));
            }
        }
        law_mapped_heap_is_found(a, root, dir, from + 1, to, (granted - 1) as nat);
        let (t, n) = direct::heap_run(s, root, dir, from, to, granted);
        soundness::lemma_others_kept(s, a, t, root);
        lemma_heap_joined(s, a, t, root, dir, from as int, n as int);
        assert forall|j: int| 0 <= j < GPU_HEAP_MAX_PAGES implies #[trigger] direct::heap_entry(
            t,
            dir,
            j,
        ) == direct::heap_entry(s, dir, j) by {
            assert(direct::heap_entry(a, dir, j) == direct::heap_entry(s, dir, j));
        }
        assert forall|i: int| from <= i < from + n implies walk::translate(
            t,
            root,
            #[trigger] address::page_above(GPU_HEAP_VADDR, i),
        ) == direct::heap_entry(s, dir, i) by {
            soundness::lemma_entry_leads(
                s.c_bit,
                direct::heap_entry(s, dir, i),
                SHARED_PAGE_FLAGS,
            );
            assert(entry::strip(s.c_bit, direct::heap_entry(s, dir, i)) == direct::heap_entry(
                s,
                dir,
                i,
            ));
        }
    } else {
        assert(direct::heap_run(s, root, dir, from, to, granted) == (s, 0nat));
    }
}

/// The flags of pages that are shared are those of a page that is there.
pub proof fn lemma_shared_flags()
    ensures
        soundness::page_flags(SHARED_PAGE_FLAGS),
        SHARED_PAGE_FLAGS & 0x1 == 0x1,
{
    assert(0x8000_0000_0000_0027u64 & 0x000F_FFFF_FFFF_F000 == 0 && 0x8000_0000_0000_0027u64 & 0x400
        != 0x400 && 0x8000_0000_0000_0027u64 & 0x1 == 0x1) by (bit_vector);
}

/// A page of a heap that was mapped, and the pages above it, are found.
proof fn lemma_heap_joined(
    s: MachineState,
    a: MachineState,
    t: MachineState,
    root: u64,
    dir: u64,
    from: int,
    n: int,
)
    requires
        0 <= from,
        0 < n,
        from + n <= GPU_HEAP_MAX_PAGES,
        direct::heap_entry(s, dir, from) != 0,
        a.c_bit == s.c_bit,
        walk::leaf_below(a, root, address::page_above(GPU_HEAP_VADDR, from), 3) == Some(
            entry::entry_word(s.c_bit, direct::heap_entry(s, dir, from), SHARED_PAGE_FLAGS),
        ),
        forall|vb: u64|
            !soundness::same_page(address::page_above(GPU_HEAP_VADDR, from), vb)
                ==> #[trigger] walk::leaf_below(a, root, vb, 3) == walk::leaf_below(s, root, vb, 3),
        forall|j: int|
            0 <= j < GPU_HEAP_MAX_PAGES ==> #[trigger] direct::heap_entry(a, dir, j)
                == direct::heap_entry(s, dir, j),
        forall|i: int|
            from + 1 <= i < from + n ==> direct::heap_entry(a, dir, i) != 0 && walk::leaf_below(
                t,
                root,
                #[trigger] address::page_above(GPU_HEAP_VADDR, i),
                3,
            ) == Some(entry::entry_word(a.c_bit, direct::heap_entry(a, dir, i), SHARED_PAGE_FLAGS)),
        forall|vb: u64| #[trigger]
            beside_heap(from + 1, from + n, vb) ==> walk::leaf_below(t, root, vb, 3)
                == walk::leaf_below(a, root, vb, 3),
    ensures
        forall|i: int|
            from <= i < from + n ==> direct::heap_entry(s, dir, i) != 0 && walk::leaf_below(
                t,
                root,
                #[trigger] address::page_above(GPU_HEAP_VADDR, i),
                3,
            ) == Some(entry::entry_word(s.c_bit, direct::heap_entry(s, dir, i), SHARED_PAGE_FLAGS)),
        forall|vb: u64| #[trigger]
            beside_heap(from, from + n, vb) ==> walk::leaf_below(t, root, vb, 3)
                == walk::leaf_below(s, root, vb, 3),
{
    let va = address::page_above(GPU_HEAP_VADDR, from);
    assert(beside_heap(from + 1, from + n, va)) by {
        assert forall|i: int| from + 1 <= i < from + n implies !soundness::same_page(
            #[trigger] address::page_above(GPU_HEAP_VADDR, i),
            va,
        ) by {
            ranges::lemma_run_pages_differ(GPU_HEAP_VADDR, i, from);
        }
    }
    assert forall|i: int| from <= i < from + n implies direct::heap_entry(s, dir, i) != 0
        && walk::leaf_below(t, root, #[trigger] address::page_above(GPU_HEAP_VADDR, i), 3) == Some(
        entry::entry_word(s.c_bit, direct::heap_entry(s, dir, i), SHARED_PAGE_FLAGS),
    ) by {
        if i > from {
            assert(direct::heap_entry(a, dir, i) == direct::heap_entry(s, dir, i));
        }
    }
    assert forall|vb: u64| #[trigger] beside_heap(from, from + n, vb) implies walk::leaf_below(
        t,
        root,
        vb,
        3,
    ) == walk::leaf_below(s, root, vb, 3) by {
        assert(!soundness::same_page(address::page_above(GPU_HEAP_VADDR, from), vb));
        assert(beside_heap(from + 1, from + n, vb));
    }
}

} // verus!
