//! What holds of ranges that grow.
use vstd::prelude::*;
use crate::address;
use crate::memory::machine;
use crate::memory::machine::{MachineOp, MachineState};
use crate::process_manager::allocation;
use crate::process_manager::allocation::AllocationRange;
use crate::process_manager::memory_channels;
use crate::process_manager::process_paging::entry;
use crate::process_manager::process_paging::mapping;
use crate::process_manager::process_paging::program;
use crate::process_manager::process_paging::ranges;
use crate::process_manager::process_paging::soundness;
use crate::process_manager::process_paging::transfer;
use crate::process_manager::process_paging::walk;
use crate::sev::utils::VMPL1_RWX;

verus! {

/// Pages that are added to a range behind its first `from` pages are those of a
/// range that starts there.
proof fn lemma_shifted(
    s: MachineState,
    root: u64,
    start: u64,
    from: int,
    n: nat,
    flags: u64,
    own: bool,
)
    ensures
        allocation::range_built(s, root, start, from, n, flags, own) == allocation::range_built(
            s,
            root,
            address::page_above(start, from),
            0,
            n,
            flags,
            own,
        ),
    decreases n,
{
    if n > 0 {
        lemma_shifted(s, root, start, from, (n - 1) as nat, flags, own);
        lemma_page_from(start, from, n - 1);
    }
}

/// Page `i` behind page `from` is page `from + i`.
pub proof fn lemma_page_from(start: u64, from: int, i: int)
    ensures
        address::page_above(address::page_above(start, from), i) == address::page_above(
            start,
            from + i,
        ),
{
    address::lemma_addr_add(start, from * 4096, i * 4096);
    assert((from + i) * 4096 == from * 4096 + i * 4096);
}

/// Mapping a page changes no entry of the root table that leads somewhere.
proof fn lemma_map_root(
    s: MachineState,
    root: u64,
    va: u64,
    lvl: nat,
    addr: u64,
    flags: u64,
    i: int,
)
    requires
        soundness::sound(s, root),
        lvl <= 3,
        soundness::reach(s, root, va, lvl as int),
        lvl > 0 ==> !entry::present(
            walk::entry_in(s, soundness::tab(s, root, va, lvl as int), va, lvl),
        ),
        s.pool.available() >= lvl,
        0 <= i < 512,
        entry::present(s.rd(root, i)),
    ensures
        mapping::map_below(
            s,
            soundness::tab(s, root, va, lvl as int),
            va,
            lvl,
            addr,
            flags,
        ).rd(root, i) == s.rd(root, i),
    decreases lvl,
{
    let table = soundness::tab(s, root, va, lvl as int);
    let idx = entry::table_index(va, lvl as int);
    assert(soundness::reach(s, root, va, 3) && soundness::tab(s, root, va, 3) == root);
    assert(soundness::is_page(s, root) && !soundness::in_pool(s.pool, root));
    assert(soundness::is_page(s, table));
    if lvl == 0 {
        assert(table != root);
        soundness::lemma_words_apart(root, table, i, idx);
    } else {
        let (t, fresh) = mapping::hang_table(s, table, va, lvl);
        let g = s.grant(table, VMPL1_RWX);
        soundness::lemma_hang(s, root, va, lvl);
        soundness::law_taken_page_is_fresh(s);
        assert(soundness::pool_sound(g)) by {
            assert forall|pa: u64|
                pa % 4096 == 0 && #[trigger] soundness::in_region(
                    g.pool,
                    pa,
                ) implies soundness::is_page(g, pa) by {
                assert(soundness::in_region(s.pool, pa));
            }
        }
        soundness::law_taken_page_is_fresh(g);
        let u = if lvl == 2 {
            s.take_page().0
        } else {
            g.take_page().0
        };
        assert(u.rd(root, i) == s.rd(root, i));
        if table == root {
            assert(lvl == 3);
            assert(i != idx);
            assert(t.rd(root, i) == u.rd(root, i));
        } else {
            soundness::lemma_words_apart(root, table, i, idx);
            assert(t.rd(root, i) == u.rd(root, i));
        }
        entry::lemma_empty();
        lemma_map_root(t, root, va, (lvl - 1) as nat, addr, flags, i);
    }
}

/// Building a range changes no entry of the root table that leads somewhere.
proof fn lemma_built_root(
    s: MachineState,
    root: u64,
    start: u64,
    n: nat,
    flags: u64,
    own: bool,
    i: int,
)
    requires
        soundness::sound(s, root),
        n <= 0x10_0000_0000,
        s.pool.available() >= ranges::range_takes(s, root, start, n, flags, own),
        soundness::page_flags(flags),
        flags & 0x1 == 0x1,
        0 <= i < 512,
        entry::present(s.rd(root, i)),
    ensures
        allocation::range_built(s, root, start, 0, n, flags, own).rd(root, i) == s.rd(root, i),
    decreases n,
{
    if n > 0 {
        let k = (n - 1) as nat;
        lemma_built_root(s, root, start, k, flags, own, i);
        ranges::law_built_range(s, root, start, k, flags, own);
        let b = allocation::range_built(s, root, start, 0, k, flags, own);
        let (u, page) = b.take_page();
        soundness::law_taken_page_is_fresh(b);
        ranges::lemma_take_keeps_tables(b, root);
        let w = if own {
            u
        } else {
            u.op(MachineOp::Adjust { page, flags: VMPL1_RWX, required: false })
        };
        ranges::lemma_op_keeps(u, w, root);
        let va = address::page_above(start, k as int);
        ranges::lemma_same_walk_end(b, u, root, va);
        ranges::lemma_same_walk_end(u, w, root, va);
        assert(soundness::reach(b, root, va, 3) && soundness::tab(b, root, va, 3) == root);
        assert(soundness::is_page(b, root) && !soundness::in_pool(b.pool, root));
        assert(u.rd(root, i) == b.rd(root, i));
        let (lvl, table) = walk::walk_end(w, root, va, 3);
        soundness::lemma_walk_end(w, root, va);
        lemma_map_root(w, root, va, lvl, page, flags, i);
    }
}

/// The pages that a range takes to grow to `pages` pages.
pub open spec fn inflate_takes(
    s: MachineState,
    range: AllocationRange,
    root: u64,
    pages: u64,
    start: u64,
) -> nat {
    if range.1 >= pages {
        0
    } else {
        ranges::range_takes(
            s,
            root,
            address::page_above(start, range.1 as int),
            (pages - range.1) as nat,
            0x67,
            false,
        )
    }
}

/// A range that has grown has the pages that it had, where it had them, and fresh
/// pages behind them. Nothing else that is in use is changed but the tables of
/// the process, and no entry of its root table that leads somewhere.
pub proof fn law_grown_range_has_its_pages(
    s: MachineState,
    range: AllocationRange,
    root: u64,
    pages: u64,
    start: u64,
)
    requires
        soundness::sound(s, root),
        pages <= 0x10_0000_0000,
        s.pool.available() >= inflate_takes(s, range, root, pages, start),
    ensures
        ({
            let (t, grown) = memory_channels::inflated(s, range, root, pages, start);
            &&& soundness::sound(t, root)
            &&& soundness::others_kept(s, t, root)
            &&& t.pool.available() == s.pool.available() - inflate_takes(
                s,
                range,
                root,
                pages,
                start,
            )
            &&& grown.0 == range.0
            &&& grown.1 >= pages
            &&& grown.1 >= range.1
            &&& grown.1 == range.1 || grown.1 == pages
            &&& forall|i: int|
                0 <= i < 512 && entry::present(s.rd(root, i)) ==> #[trigger] t.rd(root, i) == s.rd(
                    root,
                    i,
                )
            &&& forall|i: int|
                range.1 <= i < grown.1 ==> #[trigger] fresh_at(s, t, root, start, i)
            &&& forall|i: int, j: int|
                range.1 <= i < grown.1 && range.1 <= j < grown.1 && i != j
                    ==> #[trigger] transfer::other_page(t, root, start, i)
                    != #[trigger] transfer::other_page(t, root, start, j)
            &&& forall|vb: u64|
                !program::in_run(
                    address::page_above(start, range.1 as int),
                    pages - range.1,
                    vb,
                ) ==> #[trigger] walk::leaf_below(t, root, vb, 3) == walk::leaf_below(
                    s,
                    root,
                    vb,
                    3,
                )
        }),
{
    let (t, grown) = memory_channels::inflated(s, range, root, pages, start);
    if range.1 < pages {
        let from = range.1 as int;
        let n = (pages - range.1) as nat;
        let at = address::page_above(start, from);
        lemma_range_flags();
        lemma_shifted(s, root, start, from, n, 0x67, false);
        ranges::law_built_range(s, root, at, n, 0x67, false);
        assert forall|i: int| 0 <= i < 512 && entry::present(s.rd(root, i)) implies #[trigger] t.rd(
            root,
            i,
        ) == s.rd(root, i) by {
            lemma_built_root(s, root, at, n, 0x67, false, i);
        }
        assert forall|i: int| from <= i < pages implies #[trigger] fresh_at(s, t, root, start, i) by {
            lemma_page_from(start, from, i - from);
            assert(transfer::other_page(t, root, at, i - from) == transfer::other_page(
                t,
                root,
                start,
                i,
            ));
            assert(walk::leaf_below(t, root, address::page_above(at, i - from), 3) is Some);
        }
        assert forall|i: int, j: int|
            from <= i < pages && from <= j < pages && i != j implies #[trigger] transfer::other_page(
            t,
            root,
            start,
            i,
        ) != #[trigger] transfer::other_page(t, root, start, j) by {
            lemma_page_from(start, from, i - from);
            lemma_page_from(start, from, j - from);
            assert(transfer::other_page(t, root, at, i - from) != transfer::other_page(
                t,
                root,
                at,
                j - from,
            ));
        }
        assert forall|vb: u64| !program::in_run(at, n as int, vb) implies #[trigger] walk::leaf_below(
            t,
            root,
            vb,
            3,
        ) == walk::leaf_below(s, root, vb, 3) by {
            assert forall|i: int| 0 <= i < n implies !soundness::same_page(
                #[trigger] address::page_above(at, i),
                vb,
            ) by {
                if soundness::same_page(address::page_above(at, i), vb) {
                    assert(program::in_run(at, n as int, vb));
                }
            }
        }
    } else {
        assert(soundness::others_kept(s, t, root));
    }
}

/// Whether page `i` of a range is a fresh page: it was in the pool of `s`, and in
/// `t` it is in use and no table.
pub open spec fn fresh_at(s: MachineState, t: MachineState, root: u64, start: u64, i: int) -> bool {
    let f = transfer::other_page(t, root, start, i);
    &&& walk::leaf_below(t, root, address::page_above(start, i), 3) is Some
    &&& soundness::in_pool(s.pool, f)
    &&& soundness::is_page(s, f)
    &&& !soundness::in_pool(t.pool, f)
    &&& !soundness::is_table(t, root, f)
}

/// Whether an address of another address space has nothing to do with a page
/// table: neither its page nor a table on the way to it can be handed out or is
/// a table of the page table.
pub open spec fn foreign_to(s: MachineState, root: u64, other: u64, va: u64) -> bool {
    &&& other % 4096 == 0
    &&& forall|l: int|
        0 <= l <= 3 && #[trigger] soundness::reach(s, other, va, l) ==> {
            let table = soundness::tab(s, other, va, l);
            !soundness::in_pool(s.pool, table) && !soundness::is_table(s, root, table)
        }
    &&& !soundness::in_pool(s.pool, walk::translate(s, other, va))
    &&& !soundness::is_table(s, root, walk::translate(s, other, va))
}

proof fn lemma_foreign_level(
    s: MachineState,
    t: MachineState,
    root: u64,
    other: u64,
    va: u64,
    l: int,
)
    requires
        foreign_to(s, root, other, va),
        soundness::others_kept(s, t, root),
        0 <= l <= 3,
    ensures
        soundness::reach(t, other, va, l) == soundness::reach(s, other, va, l),
        soundness::reach(s, other, va, l) ==> soundness::tab(t, other, va, l) == soundness::tab(
            s,
            other,
            va,
            l,
        ),
    decreases 3 - l,
{
    if l < 3 {
        lemma_foreign_level(s, t, root, other, va, l + 1);
        if soundness::reach(s, other, va, l + 1) {
            let tb = soundness::tab(s, other, va, l + 1);
            let i = entry::table_index(va, l + 1);
            if l + 1 < 3 {
                entry::lemma_strip_bound(
                    s.c_bit,
                    walk::entry_in(
                        s,
                        soundness::tab(s, other, va, l + 2),
                        va,
                        (l + 2) as nat,
                    ),
                );
            }
            assert(t.rd(tb, i) == s.rd(tb, i));
        }
    }
}

/// What has nothing to do with a page table is not touched by what is done to it.
pub proof fn lemma_foreign_kept(s: MachineState, t: MachineState, root: u64, other: u64, va: u64)
    requires
        foreign_to(s, root, other, va),
        soundness::others_kept(s, t, root),
    ensures
        walk::leaf_below(t, other, va, 3) == walk::leaf_below(s, other, va, 3),
        walk::translate(t, other, va) == walk::translate(s, other, va),
        machine::page_words(t.mem, walk::translate(s, other, va)) == machine::page_words(
            s.mem,
            walk::translate(s, other, va),
        ),
        foreign_to(t, root, other, va),
        forall|l: int|
            0 <= l <= 3 ==> #[trigger] soundness::reach(t, other, va, l) == soundness::reach(
                s,
                other,
                va,
                l,
            ),
        forall|l: int|
            0 <= l <= 3 && #[trigger] soundness::reach(t, other, va, l) ==> soundness::tab(
                t,
                other,
                va,
                l,
            ) == soundness::tab(s, other, va, l),
{
    assert forall|l: int| 0 <= l <= 3 implies #[trigger] soundness::reach(t, other, va, l)
        == soundness::reach(s, other, va, l) && (soundness::reach(s, other, va, l)
        ==> soundness::tab(t, other, va, l) == soundness::tab(s, other, va, l)) by {
        lemma_foreign_level(s, t, root, other, va, l);
    }
    soundness::lemma_leaf(s, other, va);
    soundness::lemma_leaf(t, other, va);
    assert(soundness::reach(t, other, va, 0) == soundness::reach(s, other, va, 0));
    if soundness::reach(s, other, va, 0) {
        let tb = soundness::tab(s, other, va, 0);
        entry::lemma_strip_bound(
            s.c_bit,
            walk::entry_in(s, soundness::tab(s, other, va, 1), va, 1),
        );
        assert(t.rd(tb, entry::table_index(va, 0)) == s.rd(tb, entry::table_index(va, 0)));
    }
    let page = walk::translate(s, other, va);
    match walk::leaf_below(s, other, va, 3) {
        Some(e) => entry::lemma_strip_bound(s.c_bit, e),
        None => {},
    }
    assert forall|i: int| 0 <= i < 512 implies #[trigger] machine::page_words(t.mem, page)[i]
        == machine::page_words(s.mem, page)[i] by {
        assert(t.rd(page, i) == s.rd(page, i));
    }
    assert(machine::page_words(t.mem, page) =~= machine::page_words(s.mem, page));
    assert(foreign_to(t, root, other, va)) by {
        assert forall|l: int| 0 <= l <= 3 && #[trigger] soundness::reach(t, other, va, l) implies {
            let table = soundness::tab(t, other, va, l);
            !soundness::in_pool(t.pool, table) && !soundness::is_table(t, root, table)
        } by {
            assert(soundness::reach(s, other, va, l));
            lemma_out_kept(s, t, root, soundness::tab(s, other, va, l));
        }
        lemma_out_kept(s, t, root, page);
    }
}

/// What is neither in the pool nor a table stays so.
pub proof fn lemma_out_kept(s: MachineState, t: MachineState, root: u64, page: u64)
    requires
        soundness::others_kept(s, t, root),
        !soundness::in_pool(s.pool, page),
        !soundness::is_table(s, root, page),
    ensures
        !soundness::in_pool(t.pool, page),
        !soundness::is_table(t, root, page),
{
    if soundness::in_pool(t.pool, page) {
        assert(soundness::in_pool(s.pool, page));
    }
    if soundness::is_table(t, root, page) {
        assert(soundness::is_table(s, root, page) || soundness::in_pool(s.pool, page));
    }
}

/// A range that was made for a process is found by it: each of its pages is a
/// fresh one of its own, and the root table of the process leads to the range.
/// All other pages are found where they were.
pub proof fn law_range_for_a_process_is_found(s: MachineState, root: u64, pages: u64, start: u64)
    requires
        soundness::sound(s, root),
        pages <= 0x10_0000_0000,
        s.pool.available() >= ranges::range_takes(s, root, start, pages as nat, 0x67, false),
    ensures
        ({
            let (t, range) = allocation::range_for_process(s, root, pages, start);
            &&& range.1 == pages
            &&& range.0 == t.rd(root, entry::table_index(start, 3))
            &&& forall|i: int|
                0 <= i < pages ==> walk::leaf_below(
                    t,
                    root,
                    #[trigger] address::page_above(start, i),
                    3,
                ) is Some
            &&& forall|i: int|
                0 <= i < pages ==> soundness::in_pool(
                    s.pool,
                    #[trigger] transfer::other_page(t, root, start, i),
                )
            &&& forall|i: int, j: int|
                0 <= i < pages && 0 <= j < pages && i != j ==> #[trigger] transfer::other_page(
                    t,
                    root,
                    start,
                    i,
                ) != #[trigger] transfer::other_page(t, root, start, j)
            &&& forall|vb: u64|
                !program::in_run(start, pages as int, vb) ==> #[trigger] walk::leaf_below(
                    t,
                    root,
                    vb,
                    3,
                ) == walk::leaf_below(s, root, vb, 3)
        }),
{
    let b = allocation::range_built(s, root, start, 0, pages as nat, 0x67, false);
    let t = allocation::range_for_process(s, root, pages, start).0;
    lemma_range_flags();
    ranges::law_built_range(s, root, start, pages as nat, 0x67, false);
    ranges::lemma_op_keeps(b, t, root);
    assert forall|i: int| 0 <= i < pages implies #[trigger] transfer::other_page(t, root, start, i)
        == transfer::other_page(b, root, start, i) by {
    }
    assert forall|i: int, j: int| 0 <= i < pages && 0 <= j < pages && i != j implies #[trigger] transfer::other_page(
        t,
        root,
        start,
        i,
    ) != #[trigger] transfer::other_page(t, root, start, j) by {
        assert(transfer::other_page(b, root, start, i) != transfer::other_page(b, root, start, j));
    }
    assert forall|vb: u64| !program::in_run(start, pages as int, vb) implies #[trigger] walk::leaf_below(
        t,
        root,
        vb,
        3,
    ) == walk::leaf_below(s, root, vb, 3) by {
        assert forall|i: int| 0 <= i < pages implies !soundness::same_page(
            #[trigger] address::page_above(start, i),
            vb,
        ) by {
            if soundness::same_page(address::page_above(start, i), vb) {
                assert(program::in_run(start, pages as int, vb));
            }
        }
        assert(walk::leaf_below(b, root, vb, 3) == walk::leaf_below(s, root, vb, 3));
    }
}

/// The flags of the pages of a range are those of a page that is there.
proof fn lemma_range_flags()
    ensures
        soundness::page_flags(0x67),
        0x67u64 & 0x1 == 0x1,
{
    assert(0x67u64 & 0x000F_FFFF_FFFF_F000 == 0 && 0x67u64 & 0x400 != 0x400 && 0x67u64 & 0x1
        == 0x1) by (bit_vector);
}

} // verus!
