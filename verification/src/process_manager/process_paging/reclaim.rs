//! What goes back into the pool when a page table is taken apart.
use vstd::prelude::*;
use crate::memory::machine::MachineState;
use crate::process_manager::process_paging::entry;
use crate::process_manager::process_paging::isolation;
use crate::process_manager::process_paging::soundness;
use crate::process_manager::process_paging::teardown;
use crate::process_manager::process_paging::walk;

verus! {

/// Whether the slot of `va` is one that is taken apart: it is in use, it is not
/// passed over, and it is not shared on write, unless nothing shares it.
pub open spec fn own_slot(
    s: MachineState,
    root: u64,
    cow_descend: bool,
    skip: Seq<usize>,
    va: u64,
) -> bool {
    let e = walk::entry_in(s, root, va, 3);
    &&& entry::present(e)
    &&& !skip.contains(entry::table_index(va, 3) as usize)
    &&& entry::cow(e) ==> cow_descend
}

/// Whether a page is a table on the way to `va`, below the root, or the page
/// at `va`, and not one that is kept.
pub open spec fn on_way(s: MachineState, root: u64, keep: Seq<u64>, va: u64, page: u64) -> bool {
    ||| exists|l: int|
        0 <= l <= 2 && #[trigger] soundness::reach(s, root, va, l) && soundness::tab(
            s,
            root,
            va,
            l,
        ) == page
    ||| {
        &&& soundness::reach(s, root, va, 0)
        &&& walk::leaf_below(s, root, va, 3) matches Some(e) && entry::strip(s.c_bit, e) == page
        &&& !teardown::names_page(keep, va as int)
    }
}

/// The address of entry `i` of a table at level `lvl` that covers the
/// addresses from `base` on.
proof fn lemma_child(base: u64, lvl: nat, i: int) -> (va: u64)
    requires
        lvl <= 2,
        0 <= i < 512,
        base as int % entry::level_span(lvl as int + 1) == 0,
        base < 0x1_0000_0000_0000,
    ensures
        va == base + i * entry::level_span(lvl as int),
        va < 0x1_0000_0000_0000,
        va as int % entry::level_span(lvl as int) == 0,
        entry::table_index(va, lvl as int) == i,
        soundness::same_way(base, va, lvl as int),
{
    let b = base as int;
    if lvl == 0 {
        let q = b / 0x20_0000;
        let v = b + i * 0x1000;
        assert(b == q * 0x20_0000);
        assert(v / 0x20_0000 == q);
        assert(v / 0x1000 == q * 512 + i);
        assert(v / 0x4000_0000 == q / 512 && b / 0x4000_0000 == q / 512);
        assert(v / 0x80_0000_0000 == q / 0x4_0000 && b / 0x80_0000_0000 == q / 0x4_0000);
        v as u64
    } else if lvl == 1 {
        let q = b / 0x4000_0000;
        let v = b + i * 0x20_0000;
        assert(b == q * 0x4000_0000);
        assert(v / 0x4000_0000 == q);
        assert(v / 0x20_0000 == q * 512 + i);
        assert(v / 0x80_0000_0000 == q / 512 && b / 0x80_0000_0000 == q / 512);
        v as u64
    } else {
        let q = b / 0x80_0000_0000;
        let v = b + i * 0x4000_0000;
        assert(b == q * 0x80_0000_0000);
        assert(v / 0x80_0000_0000 == q);
        assert(v / 0x4000_0000 == q * 512 + i);
        v as u64
    }
}

proof fn lemma_freed_below(
    s: MachineState,
    root: u64,
    lvl: nat,
    base: u64,
    keep: Seq<u64>,
    n: nat,
    page: u64,
) -> (va: u64)
    requires
        lvl <= 2,
        n <= 512,
        base as int % entry::level_span(lvl as int + 1) == 0,
        base < 0x1_0000_0000_0000,
        soundness::reach(s, root, base, lvl as int),
        teardown::freed_below(
            s,
            soundness::tab(s, root, base, lvl as int),
            lvl,
            base as int,
            keep,
            n,
        ).contains(page),
    ensures
        on_way(s, root, keep, va, page),
        entry::table_index(va, 3) == entry::table_index(base, 3),
    decreases lvl, n,
{
    let table = soundness::tab(s, root, base, lvl as int);
    let all = teardown::freed_below(s, table, lvl, base as int, keep, n);
    let less = teardown::freed_below(s, table, lvl, base as int, keep, (n - 1) as nat);
    if n > 0 && less.contains(page) {
        lemma_freed_below(s, root, lvl, base, keep, (n - 1) as nat, page)
    } else {
        assert(n > 0);
        let i = n - 1;
        let e = s.rd(table, i);
        let va = lemma_child(base, lvl, i);
        soundness::lemma_same_way(s, root, base, va, lvl as int);
        assert(walk::entry_in(s, soundness::tab(s, root, va, lvl as int), va, lvl) == e);
        assert(entry::present(e));
        let k = choose|k: int| 0 <= k < all.len() && all[k] == page;
        if lvl == 0 {
            assert(k == less.len()) by {
                if k < less.len() {
                    assert(less[k] == page);
                }
            }
            assert(entry::strip(s.c_bit, e) == page);
            soundness::lemma_leaf(s, root, va);
            va
        } else {
            let next = entry::strip(s.c_bit, e);
            let below = teardown::freed_below(s, next, (lvl - 1) as nat, va as int, keep, 512);
            assert(soundness::reach(s, root, va, lvl - 1));
            assert(soundness::tab(s, root, va, lvl - 1) == next);
            if k == less.len() + below.len() {
                assert(page == next);
                va
            } else {
                assert(k >= less.len()) by {
                    if k < less.len() {
                        assert(less[k] == page);
                    }
                }
                assert(below[k - less.len()] == page);
                lemma_freed_below(s, root, (lvl - 1) as nat, va, keep, 512, page)
            }
        }
    }
}

proof fn lemma_freed_slots(
    s: MachineState,
    root: u64,
    keep: Seq<u64>,
    cow_descend: bool,
    skip: Seq<usize>,
    n: nat,
    page: u64,
) -> (va: u64)
    requires
        n <= 512,
        teardown::freed_slots(s, root, keep, cow_descend, skip, n).contains(page),
    ensures
        on_way(s, root, keep, va, page),
        own_slot(s, root, cow_descend, skip, va),
    decreases n,
{
    let all = teardown::freed_slots(s, root, keep, cow_descend, skip, n);
    let less = teardown::freed_slots(s, root, keep, cow_descend, skip, (n - 1) as nat);
    if n > 0 && less.contains(page) {
        lemma_freed_slots(s, root, keep, cow_descend, skip, (n - 1) as nat, page)
    } else {
        assert(n > 0);
        let i = n - 1;
        let base = (i * 0x80_0000_0000) as u64;
        let e = s.rd(root, i);
        let next = entry::strip(s.c_bit, e);
        let below = teardown::freed_below(s, next, 2, i * 0x80_0000_0000, keep, 512);
        assert(entry::table_index(base, 3) == i);
        assert(walk::entry_in(s, root, base, 3) == e);
        assert(soundness::tab(s, root, base, 3) == root);
        assert(soundness::reach(s, root, base, 3));
        assert(soundness::reach(s, root, base, 2));
        assert(soundness::tab(s, root, base, 2) == next);
        let k = choose|k: int| 0 <= k < all.len() && all[k] == page;
        if k == less.len() + below.len() {
            assert(page == next);
            base
        } else {
            assert(k >= less.len()) by {
                if k < less.len() {
                    assert(less[k] == page);
                }
            }
            assert(below[k - less.len()] == page);
            lemma_freed_below(s, root, 2, base, keep, 512, page)
        }
    }
}

/// Only what a process has to itself is freed with its page table: the root,
/// the tables below it, and the pages that they lead to. What is passed over,
/// what is shared on write, and the pages that are kept are not.
pub proof fn law_teardown_frees_own_pages(
    s: MachineState,
    root: u64,
    keep: Seq<u64>,
    cow_descend: bool,
    skip: Seq<usize>,
    page: u64,
)
    requires
        teardown::freed_slots(s, root, keep, cow_descend, skip, 512).push(root).contains(page),
        page != root,
    ensures
        exists|va: u64| #[trigger]
            on_way(s, root, keep, va, page) && own_slot(s, root, cow_descend, skip, va),
{
    let freed = teardown::freed_slots(s, root, keep, cow_descend, skip, 512);
    let k = choose|k: int| 0 <= k < freed.push(root).len() && freed.push(root)[k] == page;
    assert(freed[k] == page);
    let va = lemma_freed_slots(s, root, keep, cow_descend, skip, 512, page);
    assert(on_way(s, root, keep, va, page));
}

/// What an entry at index `i` leads to is freed with the first `n` entries of its
/// table, where `i` is below `n`.
proof fn lemma_entry_freed(
    s: MachineState,
    table: u64,
    lvl: nat,
    base: int,
    keep: Seq<u64>,
    n: nat,
    i: int,
)
    requires
        0 <= i < n,
        entry::present(s.rd(table, i)),
    ensures
        ({
            let next = entry::strip(s.c_bit, s.rd(table, i));
            let va = base + i * entry::level_span(lvl as int);
            let freed = teardown::freed_below(s, table, lvl, base, keep, n);
            &&& lvl > 0 ==> freed.contains(next)
            &&& lvl == 0 && !teardown::names_page(keep, va) ==> freed.contains(next)
            &&& lvl > 0 ==> forall|page: u64|
                teardown::freed_below(s, next, (lvl - 1) as nat, va, keep, 512).contains(page)
                    ==> #[trigger] freed.contains(page)
        }),
    decreases n,
{
    let next = entry::strip(s.c_bit, s.rd(table, i));
    let va = base + i * entry::level_span(lvl as int);
    let freed = teardown::freed_below(s, table, lvl, base, keep, n);
    let less = teardown::freed_below(s, table, lvl, base, keep, (n - 1) as nat);
    if i < n - 1 {
        lemma_entry_freed(s, table, lvl, base, keep, (n - 1) as nat, i);
        assert forall|page: u64| less.contains(page) implies #[trigger] freed.contains(page) by {
            let k = choose|k: int| 0 <= k < less.len() && less[k] == page;
            assert(freed[k] == page);
        }
    } else if lvl > 0 {
        let below = teardown::freed_below(s, next, (lvl - 1) as nat, va, keep, 512);
        assert(freed == (less + below).push(next));
        assert(freed[less.len() + below.len() as int] == next);
        assert forall|page: u64| below.contains(page) implies #[trigger] freed.contains(page) by {
            let k = choose|k: int| 0 <= k < below.len() && below[k] == page;
            assert(freed[less.len() + k] == page);
        }
    } else if !teardown::names_page(keep, va) {
        assert(freed[less.len() as int] == next);
    }
}

/// The part of an address below the entry that it is in.
proof fn lemma_entry_of(base: u64, lvl: nat, va: u64) -> (child: u64)
    requires
        lvl <= 2,
        base as int % entry::level_span(lvl as int + 1) == 0,
        base < 0x1_0000_0000_0000,
        va < 0x1_0000_0000_0000,
        soundness::same_way(base, va, lvl as int),
    ensures
        child == base + entry::table_index(va, lvl as int) * entry::level_span(lvl as int),
        child < 0x1_0000_0000_0000,
        child as int % entry::level_span(lvl as int) == 0,
        soundness::same_way(child, va, lvl as int - 1),
        lvl == 0 ==> child as int / 4096 == va as int / 4096,
{
    let child = lemma_child(base, lvl, entry::table_index(va, lvl as int));
    soundness::lemma_same_page(child, va);
    child
}

/// All that is on the way to an address, below a table, is freed with it.
proof fn lemma_way_freed(
    s: MachineState,
    root: u64,
    lvl: nat,
    base: u64,
    keep: Seq<u64>,
    va: u64,
    page: u64,
)
    requires
        lvl <= 2,
        base as int % entry::level_span(lvl as int + 1) == 0,
        base < 0x1_0000_0000_0000,
        va < 0x1_0000_0000_0000,
        soundness::same_way(base, va, lvl as int),
        soundness::reach(s, root, base, lvl as int),
        ({
            ||| exists|l: int|
                0 <= l < lvl && #[trigger] soundness::reach(s, root, va, l) && soundness::tab(
                    s,
                    root,
                    va,
                    l,
                ) == page
            ||| {
                &&& walk::leaf_below(s, root, va, 3) matches Some(e) && entry::strip(s.c_bit, e)
                    == page
                &&& !teardown::names_page(keep, va as int)
            }
        }),
    ensures
        teardown::freed_below(
            s,
            soundness::tab(s, root, base, lvl as int),
            lvl,
            base as int,
            keep,
            512,
        ).contains(page),
    decreases lvl,
{
    let table = soundness::tab(s, root, base, lvl as int);
    let i = entry::table_index(va, lvl as int);
    let child = lemma_entry_of(base, lvl, va);
    soundness::lemma_same_way(s, root, base, va, lvl as int);
    soundness::lemma_leaf(s, root, va);
    let e = s.rd(table, i);
    assert(walk::entry_in(s, soundness::tab(s, root, va, lvl as int), va, lvl) == e);
    if lvl == 0 {
        assert(teardown::names_page(keep, child as int) == teardown::names_page(keep, va as int));
        lemma_entry_freed(s, table, lvl, base as int, keep, 512, i);
    } else {
        assert(soundness::reach(s, root, va, lvl - 1)) by {
            if exists|l: int|
                0 <= l < lvl && #[trigger] soundness::reach(s, root, va, l) && soundness::tab(
                    s,
                    root,
                    va,
                    l,
                ) == page {
                let l = choose|l: int|
                    0 <= l < lvl && #[trigger] soundness::reach(s, root, va, l) && soundness::tab(
                        s,
                        root,
                        va,
                        l,
                    ) == page;
                isolation::lemma_reach_up(s, root, va, l, lvl - 1);
            } else {
                isolation::lemma_reach_up(s, root, va, 0, lvl - 1);
            }
        }
        lemma_entry_freed(s, table, lvl, base as int, keep, 512, i);
        let next = entry::strip(s.c_bit, e);
        soundness::lemma_same_way(s, root, child, va, lvl - 1);
        assert(soundness::tab(s, root, va, lvl - 1) == next);
        if page != next {
            assert(!(exists|l: int|
                0 <= l < lvl && #[trigger] soundness::reach(s, root, va, l) && soundness::tab(
                    s,
                    root,
                    va,
                    l,
                ) == page) || exists|l: int|
                0 <= l < lvl - 1 && #[trigger] soundness::reach(s, root, va, l) && soundness::tab(
                    s,
                    root,
                    va,
                    l,
                ) == page) by {
                if exists|l: int|
                    0 <= l < lvl && #[trigger] soundness::reach(s, root, va, l) && soundness::tab(
                        s,
                        root,
                        va,
                        l,
                    ) == page {
                    let l = choose|l: int|
                        0 <= l < lvl && #[trigger] soundness::reach(s, root, va, l)
                            && soundness::tab(s, root, va, l) == page;
                    assert(l != lvl - 1);
                    assert(soundness::reach(s, root, va, l));
                }
            }
            lemma_way_freed(s, root, (lvl - 1) as nat, child, keep, va, page);
        }
    }
}

/// What is below a slot that is taken apart is freed with the first `n` slots.
proof fn lemma_slot_freed(
    s: MachineState,
    root: u64,
    keep: Seq<u64>,
    cow_descend: bool,
    skip: Seq<usize>,
    n: nat,
    i: int,
)
    requires
        0 <= i < n <= 512,
        entry::present(s.rd(root, i)),
        !skip.contains(i as usize),
        entry::cow(s.rd(root, i)) ==> cow_descend,
    ensures
        ({
            let next = entry::strip(s.c_bit, s.rd(root, i));
            let freed = teardown::freed_slots(s, root, keep, cow_descend, skip, n);
            &&& freed.contains(next)
            &&& forall|page: u64|
                teardown::freed_below(s, next, 2, i * 0x80_0000_0000, keep, 512).contains(page)
                    ==> #[trigger] freed.contains(page)
        }),
    decreases n,
{
    let next = entry::strip(s.c_bit, s.rd(root, i));
    let freed = teardown::freed_slots(s, root, keep, cow_descend, skip, n);
    let less = teardown::freed_slots(s, root, keep, cow_descend, skip, (n - 1) as nat);
    if i < n - 1 {
        lemma_slot_freed(s, root, keep, cow_descend, skip, (n - 1) as nat, i);
        assert forall|page: u64| less.contains(page) implies #[trigger] freed.contains(page) by {
            let k = choose|k: int| 0 <= k < less.len() && less[k] == page;
            assert(freed[k] == page);
        }
    } else {
        let below = teardown::freed_below(s, next, 2, i * 0x80_0000_0000, keep, 512);
        assert(freed == (less + below).push(next));
        assert(freed[less.len() + below.len() as int] == next);
        assert forall|page: u64| below.contains(page) implies #[trigger] freed.contains(page) by {
            let k = choose|k: int| 0 <= k < below.len() && below[k] == page;
            assert(freed[less.len() + k] == page);
        }
    }
}

/// All that a process has to itself is freed with its page table: each table
/// below the root, and each page that is not kept.
pub proof fn law_teardown_frees_all_own_pages(
    s: MachineState,
    root: u64,
    keep: Seq<u64>,
    cow_descend: bool,
    skip: Seq<usize>,
    va: u64,
    page: u64,
)
    requires
        va < 0x1_0000_0000_0000,
        own_slot(s, root, cow_descend, skip, va),
        on_way(s, root, keep, va, page),
    ensures
        teardown::freed_slots(s, root, keep, cow_descend, skip, 512).push(root).contains(page),
{
    let freed = teardown::freed_slots(s, root, keep, cow_descend, skip, 512);
    let i = entry::table_index(va, 3);
    let base = (i * 0x80_0000_0000) as u64;
    let next = entry::strip(s.c_bit, s.rd(root, i));
    assert(entry::table_index(base, 3) == i);
    reveal_with_fuel(soundness::reach, 2);
    reveal_with_fuel(soundness::tab, 2);
    assert(soundness::reach(s, root, base, 2) && soundness::tab(s, root, base, 2) == next);
    soundness::lemma_same_way(s, root, base, va, 2);
    lemma_slot_freed(s, root, keep, cow_descend, skip, 512, i);
    if page != next {
        if exists|l: int|
            0 <= l <= 2 && #[trigger] soundness::reach(s, root, va, l) && soundness::tab(
                s,
                root,
                va,
                l,
            ) == page {
            let l = choose|l: int|
                0 <= l <= 2 && #[trigger] soundness::reach(s, root, va, l) && soundness::tab(
                    s,
                    root,
                    va,
                    l,
                ) == page;
            assert(l < 2);
            assert(soundness::reach(s, root, va, l));
        }
        lemma_way_freed(s, root, 2, base, keep, va, page);
        assert(base as int == i * 0x80_0000_0000);
        assert(teardown::freed_below(s, next, 2, i * 0x80_0000_0000, keep, 512).contains(page));
    }
    assert(freed.contains(page));
    let k = choose|k: int| 0 <= k < freed.len() && freed[k] == page;
    assert(freed.push(root)[k] == page);
}

/// Whether a page is the table at level `k` on the way to `va`, or, for a `k`
/// below 0, the page at `va`, where it is not kept.
spec fn is_part(s: MachineState, root: u64, keep: Seq<u64>, va: u64, k: int, page: u64) -> bool {
    &&& va < 0x1_0000_0000_0000
    &&& if k < 0 {
        &&& walk::leaf_below(s, root, va, 3) matches Some(e) && entry::strip(s.c_bit, e) == page
        &&& !teardown::names_page(keep, va as int)
    } else {
        soundness::reach(s, root, va, k) && soundness::tab(s, root, va, k) == page
    }
}

/// Whether the pages of a process that are freed with it are its own: each has
/// one address, and none is a table.
pub open spec fn pages_apart(
    s: MachineState,
    root: u64,
    keep: Seq<u64>,
    cow_descend: bool,
    skip: Seq<usize>,
) -> bool {
    &&& forall|va: u64|
        own_slot(s, root, cow_descend, skip, va) && #[trigger] walk::leaf_below(s, root, va, 3)
            is Some && !teardown::names_page(keep, va as int) ==> !soundness::is_table(
            s,
            root,
            walk::translate(s, root, va),
        )
    &&& forall|va: u64, vb: u64|
        own_slot(s, root, cow_descend, skip, va) && own_slot(s, root, cow_descend, skip, vb)
            && #[trigger] walk::leaf_below(s, root, va, 3) is Some && #[trigger] walk::leaf_below(
            s,
            root,
            vb,
            3,
        ) is Some && !teardown::names_page(keep, va as int) && !teardown::names_page(
            keep,
            vb as int,
        ) && walk::translate(s, root, va) == walk::translate(s, root, vb) ==> soundness::same_page(
            va,
            vb,
        )
}

/// The same page is the same part of a process.
proof fn lemma_part_of_one(
    s: MachineState,
    root: u64,
    keep: Seq<u64>,
    cow_descend: bool,
    skip: Seq<usize>,
    va: u64,
    k: int,
    vb: u64,
    h: int,
    page: u64,
)
    requires
        soundness::sound(s, root),
        pages_apart(s, root, keep, cow_descend, skip),
        own_slot(s, root, cow_descend, skip, va),
        own_slot(s, root, cow_descend, skip, vb),
        -1 <= k <= 3,
        -1 <= h <= 3,
        is_part(s, root, keep, va, k, page),
        is_part(s, root, keep, vb, h, page),
    ensures
        k == h,
        soundness::same_way(va, vb, k),
{
    if k >= 0 {
        assert(soundness::is_table(s, root, page));
    }
    if h >= 0 {
        assert(soundness::is_table(s, root, page));
    }
    if k < 0 && h < 0 {
        assert(walk::leaf_below(s, root, va, 3) is Some);
        assert(walk::leaf_below(s, root, vb, 3) is Some);
        soundness::lemma_same_page(va, vb);
    } else if k < 0 {
        assert(walk::leaf_below(s, root, va, 3) is Some);
    } else if h < 0 {
        assert(walk::leaf_below(s, root, vb, 3) is Some);
    }
}

/// Whether a list holds different pages, each of them a part of the process,
/// below level `lvl`, on the way through the first `n` entries of the table that
/// `base` leads to at that level.
spec fn lists_own(
    s: MachineState,
    root: u64,
    keep: Seq<u64>,
    base: u64,
    lvl: int,
    n: int,
    list: Seq<u64>,
) -> bool {
    &&& list.no_duplicates()
    &&& forall|page: u64| #[trigger]
        list.contains(page) ==> exists|va: u64, k: int|
            {
                &&& #[trigger] is_part(s, root, keep, va, k, page)
                &&& -1 <= k < lvl
                &&& soundness::same_way(base, va, lvl)
                &&& entry::table_index(va, lvl) < n
            }
}

/// What an entry leads to, the table that it leads to, and what the entries
/// before it lead to have no page in common.
proof fn lemma_own_joined(
    s: MachineState,
    root: u64,
    keep: Seq<u64>,
    cow_descend: bool,
    skip: Seq<usize>,
    base: u64,
    lvl: int,
    n: int,
    child: u64,
    less: Seq<u64>,
    below: Seq<u64>,
)
    requires
        soundness::sound(s, root),
        pages_apart(s, root, keep, cow_descend, skip),
        1 <= lvl <= 2,
        0 < n <= 512,
        child < 0x1_0000_0000_0000,
        soundness::same_way(base, child, lvl),
        entry::table_index(child, lvl) == n - 1,
        soundness::reach(s, root, child, lvl - 1),
        own_slot(s, root, cow_descend, skip, child),
        lists_own(s, root, keep, base, lvl, n - 1, less),
        lists_own(s, root, keep, child, lvl - 1, 512, below),
    ensures
        lists_own(
            s,
            root,
            keep,
            base,
            lvl,
            n,
            (less + below).push(soundness::tab(s, root, child, lvl - 1)),
        ),
{
    let next = soundness::tab(s, root, child, lvl - 1);
    let all = (less + below).push(next);
    assert(is_part(s, root, keep, child, lvl - 1, next));
    assert forall|page: u64| #[trigger] below.contains(page) implies !less.contains(page) && page
        != next by {
        let (va, k) = choose|va: u64, k: int|
            {
                &&& #[trigger] is_part(s, root, keep, va, k, page)
                &&& -1 <= k < lvl - 1
                &&& soundness::same_way(child, va, lvl - 1)
                &&& entry::table_index(va, lvl - 1) < 512
            };
        assert(own_slot(s, root, cow_descend, skip, va));
        if page == next {
            lemma_part_of_one(
                s,
                root,
                keep,
                cow_descend,
                skip,
                va,
                k,
                child,
                lvl - 1,
                page,
            );
        }
        if less.contains(page) {
            let (vb, h) = choose|vb: u64, h: int|
                {
                    &&& #[trigger] is_part(s, root, keep, vb, h, page)
                    &&& -1 <= h < lvl
                    &&& soundness::same_way(base, vb, lvl)
                    &&& entry::table_index(vb, lvl) < n - 1
                };
            assert(own_slot(s, root, cow_descend, skip, vb));
            lemma_part_of_one(s, root, keep, cow_descend, skip, va, k, vb, h, page);
        }
    }
    assert(!less.contains(next)) by {
        if less.contains(next) {
            let (vb, h) = choose|vb: u64, h: int|
                {
                    &&& #[trigger] is_part(s, root, keep, vb, h, next)
                    &&& -1 <= h < lvl
                    &&& soundness::same_way(base, vb, lvl)
                    &&& entry::table_index(vb, lvl) < n - 1
                };
            assert(own_slot(s, root, cow_descend, skip, vb));
            lemma_part_of_one(
                s,
                root,
                keep,
                cow_descend,
                skip,
                child,
                lvl - 1,
                vb,
                h,
                next,
            );
        }
    }
    assert forall|i: int, j: int| 0 <= i < all.len() && 0 <= j < all.len() && i != j implies all[i]
        != all[j] by {
        if i < less.len() {
            assert(less.contains(less[i]));
        } else if i < less.len() + below.len() {
            assert(below.contains(below[i - less.len()]));
        }
        if j < less.len() {
            assert(less.contains(less[j]));
        } else if j < less.len() + below.len() {
            assert(below.contains(below[j - less.len()]));
        }
    }
    assert forall|page: u64| #[trigger] all.contains(page) implies exists|va: u64, k: int|
        {
            &&& #[trigger] is_part(s, root, keep, va, k, page)
            &&& -1 <= k < lvl
            &&& soundness::same_way(base, va, lvl)
            &&& entry::table_index(va, lvl) < n
        } by {
        let i = choose|i: int| 0 <= i < all.len() && all[i] == page;
        if i < less.len() {
            assert(less.contains(less[i]));
            let (va, k) = choose|va: u64, k: int|
                {
                    &&& #[trigger] is_part(s, root, keep, va, k, page)
                    &&& -1 <= k < lvl
                    &&& soundness::same_way(base, va, lvl)
                    &&& entry::table_index(va, lvl) < n - 1
                };
            assert(is_part(s, root, keep, va, k, page));
        } else if i < less.len() + below.len() {
            assert(below.contains(below[i - less.len()]));
            let (va, k) = choose|va: u64, k: int|
                {
                    &&& #[trigger] is_part(s, root, keep, va, k, page)
                    &&& -1 <= k < lvl - 1
                    &&& soundness::same_way(child, va, lvl - 1)
                    &&& entry::table_index(va, lvl - 1) < 512
                };
            assert(is_part(s, root, keep, va, k, page));
        } else {
            assert(is_part(s, root, keep, child, lvl - 1, page));
        }
    }
}

/// What is freed with the first `n` entries of a table are different pages.
proof fn lemma_below_once(
    s: MachineState,
    root: u64,
    keep: Seq<u64>,
    cow_descend: bool,
    skip: Seq<usize>,
    lvl: nat,
    base: u64,
    n: nat,
)
    requires
        soundness::sound(s, root),
        pages_apart(s, root, keep, cow_descend, skip),
        lvl <= 2,
        n <= 512,
        base as int % entry::level_span(lvl as int + 1) == 0,
        base < 0x1_0000_0000_0000,
        soundness::reach(s, root, base, lvl as int),
        own_slot(s, root, cow_descend, skip, base),
    ensures
        lists_own(
            s,
            root,
            keep,
            base,
            lvl as int,
            n as int,
            teardown::freed_below(
                s,
                soundness::tab(s, root, base, lvl as int),
                lvl,
                base as int,
                keep,
                n,
            ),
        ),
    decreases lvl, n,
{
    let table = soundness::tab(s, root, base, lvl as int);
    let all = teardown::freed_below(s, table, lvl, base as int, keep, n);
    if n > 0 {
        lemma_below_once(s, root, keep, cow_descend, skip, lvl, base, (n - 1) as nat);
        let less = teardown::freed_below(s, table, lvl, base as int, keep, (n - 1) as nat);
        let i = n - 1;
        let e = s.rd(table, i);
        let va = lemma_child(base, lvl, i);
        soundness::lemma_same_way(s, root, base, va, lvl as int);
        assert(walk::entry_in(s, soundness::tab(s, root, va, lvl as int), va, lvl) == e);
        if !entry::present(e) {
            lemma_less_own(s, root, keep, base, lvl as int, n as int, less);
        } else if lvl == 0 {
            if teardown::names_page(keep, va as int) {
                lemma_less_own(s, root, keep, base, lvl as int, n as int, less);
            } else {
                soundness::lemma_leaf(s, root, va);
                lemma_leaf_joined(
                    s,
                    root,
                    keep,
                    cow_descend,
                    skip,
                    base,
                    n as int,
                    va,
                    less,
                );
            }
        } else {
            let next = entry::strip(s.c_bit, e);
            let below = teardown::freed_below(s, next, (lvl - 1) as nat, va as int, keep, 512);
            assert(soundness::reach(s, root, va, lvl - 1));
            assert(soundness::tab(s, root, va, lvl - 1) == next);
            lemma_below_once(s, root, keep, cow_descend, skip, (lvl - 1) as nat, va, 512);
            lemma_own_joined(
                s,
                root,
                keep,
                cow_descend,
                skip,
                base,
                lvl as int,
                n as int,
                va,
                less,
                below,
            );
        }
    }
}

proof fn lemma_less_own(
    s: MachineState,
    root: u64,
    keep: Seq<u64>,
    base: u64,
    lvl: int,
    n: int,
    less: Seq<u64>,
)
    requires
        lists_own(s, root, keep, base, lvl, n - 1, less),
    ensures
        lists_own(s, root, keep, base, lvl, n, less),
{
    assert forall|page: u64| #[trigger] less.contains(page) implies exists|va: u64, k: int|
        {
            &&& #[trigger] is_part(s, root, keep, va, k, page)
            &&& -1 <= k < lvl
            &&& soundness::same_way(base, va, lvl)
            &&& entry::table_index(va, lvl) < n
        } by {
        let (va, k) = choose|va: u64, k: int|
            {
                &&& #[trigger] is_part(s, root, keep, va, k, page)
                &&& -1 <= k < lvl
                &&& soundness::same_way(base, va, lvl)
                &&& entry::table_index(va, lvl) < n - 1
            };
        assert(is_part(s, root, keep, va, k, page));
    }
}

/// A page, and the pages before it in its table, are different.
proof fn lemma_leaf_joined(
    s: MachineState,
    root: u64,
    keep: Seq<u64>,
    cow_descend: bool,
    skip: Seq<usize>,
    base: u64,
    n: int,
    va: u64,
    less: Seq<u64>,
)
    requires
        soundness::sound(s, root),
        pages_apart(s, root, keep, cow_descend, skip),
        0 < n <= 512,
        va < 0x1_0000_0000_0000,
        soundness::same_way(base, va, 0),
        entry::table_index(va, 0) == n - 1,
        own_slot(s, root, cow_descend, skip, base),
        walk::leaf_below(s, root, va, 3) is Some,
        !teardown::names_page(keep, va as int),
        lists_own(s, root, keep, base, 0, n - 1, less),
    ensures
        lists_own(s, root, keep, base, 0, n, less.push(walk::translate(s, root, va))),
{
    let page = walk::translate(s, root, va);
    let all = less.push(page);
    assert(is_part(s, root, keep, va, -1, page));
    assert(own_slot(s, root, cow_descend, skip, va));
    assert(!less.contains(page)) by {
        if less.contains(page) {
            let (vb, h) = choose|vb: u64, h: int|
                {
                    &&& #[trigger] is_part(s, root, keep, vb, h, page)
                    &&& -1 <= h < 0
                    &&& soundness::same_way(base, vb, 0)
                    &&& entry::table_index(vb, 0) < n - 1
                };
            assert(own_slot(s, root, cow_descend, skip, vb));
            lemma_part_of_one(s, root, keep, cow_descend, skip, va, -1, vb, h, page);
        }
    }
    lemma_less_own(s, root, keep, base, 0, n, less);
    assert forall|other: u64| #[trigger] all.contains(other) implies exists|vb: u64, k: int|
        {
            &&& #[trigger] is_part(s, root, keep, vb, k, other)
            &&& -1 <= k < 0
            &&& soundness::same_way(base, vb, 0)
            &&& entry::table_index(vb, 0) < n
        } by {
        let i = choose|i: int| 0 <= i < all.len() && all[i] == other;
        if i < less.len() {
            assert(less.contains(less[i]));
        } else {
            assert(is_part(s, root, keep, va, -1, other));
        }
    }
}

/// Whether a page is a part of a process, below the root, in one of the first
/// `n` slots, and that slot is taken apart.
spec fn slot_part(
    s: MachineState,
    root: u64,
    keep: Seq<u64>,
    cow_descend: bool,
    skip: Seq<usize>,
    n: int,
    page: u64,
) -> bool {
    exists|va: u64, k: int|
        {
            &&& #[trigger] is_part(s, root, keep, va, k, page)
            &&& -1 <= k <= 2
            &&& own_slot(s, root, cow_descend, skip, va)
            &&& entry::table_index(va, 3) < n
        }
}

/// What is freed with a slot has no page in common with what is freed with
/// those before it.
proof fn lemma_slot_joined(
    s: MachineState,
    root: u64,
    keep: Seq<u64>,
    cow_descend: bool,
    skip: Seq<usize>,
    n: int,
    base: u64,
    less: Seq<u64>,
    below: Seq<u64>,
)
    requires
        soundness::sound(s, root),
        pages_apart(s, root, keep, cow_descend, skip),
        0 < n <= 512,
        base < 0x1_0000_0000_0000,
        entry::table_index(base, 3) == n - 1,
        soundness::reach(s, root, base, 2),
        own_slot(s, root, cow_descend, skip, base),
        less.no_duplicates(),
        forall|page: u64| #[trigger]
            less.contains(page) ==> slot_part(s, root, keep, cow_descend, skip, n - 1, page),
        lists_own(s, root, keep, base, 2, 512, below),
    ensures
        ({
            let all = (less + below).push(soundness::tab(s, root, base, 2));
            &&& all.no_duplicates()
            &&& forall|page: u64| #[trigger]
                all.contains(page) ==> slot_part(s, root, keep, cow_descend, skip, n, page)
        }),
{
    let next = soundness::tab(s, root, base, 2);
    let all = (less + below).push(next);
    assert(is_part(s, root, keep, base, 2, next));
    assert forall|page: u64| #[trigger] below.contains(page) implies !less.contains(page) && page
        != next && slot_part(s, root, keep, cow_descend, skip, n, page) by {
        let (va, k) = choose|va: u64, k: int|
            {
                &&& #[trigger] is_part(s, root, keep, va, k, page)
                &&& -1 <= k < 2
                &&& soundness::same_way(base, va, 2)
                &&& entry::table_index(va, 2) < 512
            };
        assert(own_slot(s, root, cow_descend, skip, va));
        if page == next {
            lemma_part_of_one(s, root, keep, cow_descend, skip, va, k, base, 2, page);
        }
        if less.contains(page) {
            let (vb, h) = choose|vb: u64, h: int|
                {
                    &&& #[trigger] is_part(s, root, keep, vb, h, page)
                    &&& -1 <= h <= 2
                    &&& own_slot(s, root, cow_descend, skip, vb)
                    &&& entry::table_index(vb, 3) < n - 1
                };
            lemma_part_of_one(s, root, keep, cow_descend, skip, va, k, vb, h, page);
        }
    }
    assert forall|page: u64| #[trigger] less.contains(page) implies page != next && slot_part(
        s,
        root,
        keep,
        cow_descend,
        skip,
        n,
        page,
    ) by {
        let (vb, h) = choose|vb: u64, h: int|
            {
                &&& #[trigger] is_part(s, root, keep, vb, h, page)
                &&& -1 <= h <= 2
                &&& own_slot(s, root, cow_descend, skip, vb)
                &&& entry::table_index(vb, 3) < n - 1
            };
        assert(is_part(s, root, keep, vb, h, page));
        if page == next {
            lemma_part_of_one(s, root, keep, cow_descend, skip, base, 2, vb, h, page);
        }
    }
    assert forall|i: int, j: int| 0 <= i < all.len() && 0 <= j < all.len() && i != j implies all[i]
        != all[j] by {
        if i < less.len() {
            assert(less.contains(less[i]));
        } else if i < less.len() + below.len() {
            assert(below.contains(below[i - less.len()]));
        }
        if j < less.len() {
            assert(less.contains(less[j]));
        } else if j < less.len() + below.len() {
            assert(below.contains(below[j - less.len()]));
        }
    }
    assert forall|page: u64| #[trigger] all.contains(page) implies slot_part(
        s,
        root,
        keep,
        cow_descend,
        skip,
        n,
        page,
    ) by {
        let i = choose|i: int| 0 <= i < all.len() && all[i] == page;
        if i < less.len() {
            assert(less.contains(less[i]));
        } else if i < less.len() + below.len() {
            assert(below.contains(below[i - less.len()]));
        } else {
            assert(is_part(s, root, keep, base, 2, page));
        }
    }
}

proof fn lemma_slots_once(
    s: MachineState,
    root: u64,
    keep: Seq<u64>,
    cow_descend: bool,
    skip: Seq<usize>,
    n: nat,
)
    requires
        soundness::sound(s, root),
        pages_apart(s, root, keep, cow_descend, skip),
        n <= 512,
    ensures
        ({
            let freed = teardown::freed_slots(s, root, keep, cow_descend, skip, n);
            &&& freed.no_duplicates()
            &&& forall|page: u64| #[trigger]
                freed.contains(page) ==> slot_part(
                    s,
                    root,
                    keep,
                    cow_descend,
                    skip,
                    n as int,
                    page,
                )
        }),
    decreases n,
{
    if n > 0 {
        lemma_slots_once(s, root, keep, cow_descend, skip, (n - 1) as nat);
        let less = teardown::freed_slots(s, root, keep, cow_descend, skip, (n - 1) as nat);
        let i = n - 1;
        let base = (i * 0x80_0000_0000) as u64;
        let e = s.rd(root, i);
        assert(entry::table_index(base, 3) == i);
        assert(walk::entry_in(s, root, base, 3) == e);
        if !entry::present(e) || skip.contains(i as usize) || (entry::cow(e) && !cow_descend) {
            assert forall|page: u64| #[trigger] less.contains(page) implies slot_part(
                s,
                root,
                keep,
                cow_descend,
                skip,
                n as int,
                page,
            ) by {
                let (vb, h) = choose|vb: u64, h: int|
                    {
                        &&& #[trigger] is_part(s, root, keep, vb, h, page)
                        &&& -1 <= h <= 2
                        &&& own_slot(s, root, cow_descend, skip, vb)
                        &&& entry::table_index(vb, 3) < n - 1
                    };
                assert(is_part(s, root, keep, vb, h, page));
            }
        } else {
            let next = entry::strip(s.c_bit, e);
            let below = teardown::freed_below(s, next, 2, i * 0x80_0000_0000, keep, 512);
            reveal_with_fuel(soundness::reach, 2);
            reveal_with_fuel(soundness::tab, 2);
            assert(soundness::reach(s, root, base, 2));
            assert(soundness::tab(s, root, base, 2) == next);
            assert(base as int == i * 0x80_0000_0000);
            lemma_below_once(s, root, keep, cow_descend, skip, 2, base, 512);
            lemma_slot_joined(
                s,
                root,
                keep,
                cow_descend,
                skip,
                n as int,
                base,
                less,
                below,
            );
        }
    }
}

/// Nothing is freed twice with a page table that is sound, where each of its own
/// pages has one address.
pub proof fn law_teardown_frees_once(
    s: MachineState,
    root: u64,
    keep: Seq<u64>,
    cow_descend: bool,
    skip: Seq<usize>,
)
    requires
        soundness::sound(s, root),
        pages_apart(s, root, keep, cow_descend, skip),
    ensures
        teardown::freed_slots(s, root, keep, cow_descend, skip, 512).push(root).no_duplicates(),
{
    let freed = teardown::freed_slots(s, root, keep, cow_descend, skip, 512);
    lemma_slots_once(s, root, keep, cow_descend, skip, 512);
    assert(!freed.contains(root)) by {
        if freed.contains(root) {
            let (va, k) = choose|va: u64, k: int|
                {
                    &&& #[trigger] is_part(s, root, keep, va, k, root)
                    &&& -1 <= k <= 2
                    &&& own_slot(s, root, cow_descend, skip, va)
                    &&& entry::table_index(va, 3) < 512
                };
            assert(soundness::reach(s, root, va, 3) && soundness::tab(s, root, va, 3) == root);
            assert(is_part(s, root, keep, va, 3, root));
            lemma_part_of_one(s, root, keep, cow_descend, skip, va, k, va, 3, root);
        }
    }
}

/// The pool is still sound after a page table was taken apart, where the pages
/// that are freed with it are pages in use that never were in the region that is
/// left: each of them can be handed out again, once.
pub proof fn law_teardown_keeps_pool_sound(
    s: MachineState,
    root: u64,
    keep: Seq<u64>,
    cow_descend: bool,
    skip: Seq<usize>,
)
    requires
        soundness::sound(s, root),
        pages_apart(s, root, keep, cow_descend, skip),
        forall|page: u64| #[trigger]
            teardown::freed_slots(s, root, keep, cow_descend, skip, 512).push(root).contains(page)
                ==> soundness::is_page(s, page) && !soundness::in_pool(s.pool, page) && !(
            s.pool.base <= page < s.pool.limit),
    ensures
        ({
            let t = teardown::table_deleted(s, root, keep, cow_descend, skip);
            &&& soundness::pool_sound(t)
            &&& forall|page: u64|
                #![trigger soundness::in_pool(t.pool, page)]
                soundness::in_pool(t.pool, page) <==> soundness::in_pool(s.pool, page)
                    || teardown::freed_slots(s, root, keep, cow_descend, skip, 512).push(
                    root,
                ).contains(page)
        }),
{
    let freed = teardown::freed_slots(s, root, keep, cow_descend, skip, 512).push(root);
    let t = teardown::table_deleted(s, root, keep, cow_descend, skip);
    let was = s.pool.list;
    law_teardown_frees_once(s, root, keep, cow_descend, skip);
    assert(t.pool.list == was + freed);
    assert forall|i: int| 0 <= i < t.pool.list.len() implies soundness::is_page(
        t,
        #[trigger] t.pool.list[i],
    ) && !(t.pool.base <= t.pool.list[i] < t.pool.limit) by {
        if i < was.len() {
            assert(t.pool.list[i] == was[i]);
        } else {
            assert(freed.contains(freed[i - was.len()]));
        }
    }
    assert forall|i: int, j: int| 0 <= i < j < t.pool.list.len() implies t.pool.list[i]
        != t.pool.list[j] by {
        if i < was.len() && j >= was.len() {
            assert(freed.contains(freed[j - was.len()]));
            assert(was.contains(was[i]));
        }
    }
    assert forall|pa: u64|
        pa % 4096 == 0 && #[trigger] soundness::in_region(t.pool, pa) implies soundness::is_page(
        t,
        pa,
    ) by {
        assert(soundness::in_region(s.pool, pa));
    }
    assert forall|page: u64|
        #![trigger soundness::in_pool(t.pool, page)]
        soundness::in_pool(t.pool, page) <==> soundness::in_pool(s.pool, page) || freed.contains(
            page,
        ) by {
        if t.pool.list.contains(page) {
            let i = choose|i: int| 0 <= i < t.pool.list.len() && t.pool.list[i] == page;
            if i < was.len() {
                assert(was.contains(was[i]));
            } else {
                assert(freed.contains(freed[i - was.len()]));
            }
        }
        if was.contains(page) {
            let i = choose|i: int| 0 <= i < was.len() && was[i] == page;
            assert(t.pool.list[i] == page);
        }
        if freed.contains(page) {
            let i = choose|i: int| 0 <= i < freed.len() && freed[i] == page;
            assert(t.pool.list[was.len() + i] == page);
        }
    }
}

/// What is freed goes back into the pool behind what is there, and nothing
/// else changes.
pub proof fn law_teardown_only_grows_the_pool(
    s: MachineState,
    root: u64,
    keep: Seq<u64>,
    cow_descend: bool,
    skip: Seq<usize>,
)
    ensures
        ({
            let t = teardown::table_deleted(s, root, keep, cow_descend, skip);
            &&& t.mem == s.mem
            &&& t.ops == s.ops
            &&& t.pool.list.take(s.pool.list.len() as int) == s.pool.list
            &&& t.pool.list.last() == root
            &&& t.pool.available() > s.pool.available()
        }),
{
    let t = teardown::table_deleted(s, root, keep, cow_descend, skip);
    assert(t.pool.list.take(s.pool.list.len() as int) =~= s.pool.list);
}

} // verus!
