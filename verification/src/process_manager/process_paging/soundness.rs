//! What holds of page tables as they are built and changed.
use vstd::prelude::*;
use crate::memory::machine;
use crate::memory::machine::MachineState;
use crate::process_manager::process_memory;
use crate::process_manager::process_memory::PoolState;
use crate::process_manager::process_paging::entry;
use crate::process_manager::process_paging::mapping;
use crate::process_manager::process_paging::walk;

verus! {

/// Whether a page can be a table: it lies in memory, and an entry can lead to
/// it.
pub open spec fn is_page(s: MachineState, pa: u64) -> bool {
    &&& pa % 4096 == 0
    &&& pa != 0
    &&& pa as int / 8 + 512 <= s.mem.len()
    &&& entry::strip(s.c_bit, pa) == pa
}

/// Whether a page is one that was never handed out.
pub open spec fn in_region(pool: PoolState, pa: u64) -> bool {
    pool.base <= pa && pa + 4096 <= pool.limit
}

/// Whether a page can be handed out.
pub open spec fn in_pool(pool: PoolState, pa: u64) -> bool {
    pool.list.contains(pa) || in_region(pool, pa)
}

/// Whether what can be handed out are pages, each of them once.
pub open spec fn pool_sound(s: MachineState) -> bool {
    &&& s.pool.base % 4096 == 0
    &&& forall|i: int|
        0 <= i < s.pool.list.len() ==> is_page(s, #[trigger] s.pool.list[i]) && !(s.pool.base
            <= s.pool.list[i] < s.pool.limit)
    &&& forall|i: int, j: int|
        0 <= i < j < s.pool.list.len() ==> s.pool.list[i] != s.pool.list[j]
    &&& forall|pa: u64|
        pa % 4096 == 0 && #[trigger] in_region(s.pool, pa) ==> is_page(s, pa)
}

/// Different pages have different words.
pub proof fn lemma_words_apart(a: u64, b: u64, i: int, j: int)
    requires
        a % 4096 == 0,
        b % 4096 == 0,
        a != b,
        0 <= i < 512,
        0 <= j < 512,
    ensures
        a as int / 8 + i != b as int / 8 + j,
{
}

/// A page that was taken from the pool is a cleared page that was in the pool
/// and is there no more; no other page is touched.
pub proof fn law_taken_page_is_fresh(s: MachineState)
    requires
        pool_sound(s),
        s.pool.available() > 0,
    ensures
        ({
            let (t, page) = s.take_page();
            &&& in_pool(s.pool, page)
            &&& is_page(s, page)
            &&& !in_pool(t.pool, page)
            &&& forall|pa: u64| in_pool(t.pool, pa) ==> #[trigger] in_pool(s.pool, pa)
            &&& pool_sound(t)
            &&& t.pool.available() == s.pool.available() - 1
            &&& t.c_bit == s.c_bit
            &&& t.cr3 == s.cr3
            &&& t.mem.len() == s.mem.len()
            &&& forall|i: int| 0 <= i < 512 ==> #[trigger] t.rd(page, i) == 0
            &&& forall|pa: u64, i: int|
                pa % 4096 == 0 && pa != page && 0 <= i < 512 ==> #[trigger] t.rd(pa, i) == s.rd(
                    pa,
                    i,
                )
        }),
{
    let (t, page) = s.take_page();
    let list = s.pool.list;
    if list.len() == 0 {
        assert(in_region(s.pool, page));
    } else {
        assert(list[list.len() - 1] == list.last());
        assert(page == list.last());
        assert(list.contains(page));
        assert(t.pool.list =~= list.drop_last());
        assert forall|pa: u64| in_pool(t.pool, pa) implies #[trigger] in_pool(s.pool, pa) by {
            if t.pool.list.contains(pa) {
                let i = choose|i: int| 0 <= i < t.pool.list.len() && t.pool.list[i] == pa;
                assert(list[i] == pa);
            }
        }
        assert(!t.pool.list.contains(page)) by {
            if t.pool.list.contains(page) {
                let i = choose|i: int| 0 <= i < t.pool.list.len() && t.pool.list[i] == page;
                assert(list[i] == list[list.len() - 1]);
            }
        }
    }
    assert(pool_sound(t)) by {
        assert forall|i: int| 0 <= i < t.pool.list.len() implies is_page(
            t,
            #[trigger] t.pool.list[i],
        ) && !(t.pool.base <= t.pool.list[i] < t.pool.limit) by {
            assert(t.pool.list[i] == list[i]);
        }
        assert forall|pa: u64|
            pa % 4096 == 0 && #[trigger] in_region(t.pool, pa) implies is_page(t, pa) by {
            assert(in_region(s.pool, pa));
        }
    }
    assert forall|pa: u64, i: int|
        pa % 4096 == 0 && pa != page && 0 <= i < 512 implies #[trigger] t.rd(pa, i) == s.rd(
        pa,
        i,
    ) by {
        if pa as int / 8 + i >= page as int / 8 && pa as int / 8 + i < page as int / 8 + 512 {
            lemma_words_apart(pa, page, i, pa as int / 8 + i - page as int / 8);
        }
    }
}

/// The table at level `l` on the way to `va`.
pub open spec fn tab(s: MachineState, root: u64, va: u64, l: int) -> u64
    decreases 3 - l,
{
    if l >= 3 {
        root
    } else {
        entry::strip(s.c_bit, walk::entry_in(s, tab(s, root, va, l + 1), va, (l + 1) as nat))
    }
}

/// Whether there is a table at level `l` on the way to `va`.
pub open spec fn reach(s: MachineState, root: u64, va: u64, l: int) -> bool
    decreases 3 - l,
{
    if l >= 3 {
        true
    } else {
        reach(s, root, va, l + 1) && entry::present(
            walk::entry_in(s, tab(s, root, va, l + 1), va, (l + 1) as nat),
        )
    }
}

/// Whether two addresses have the same way down to level `l`.
pub open spec fn same_way(va: u64, vb: u64, l: int) -> bool {
    &&& l < 3 ==> entry::table_index(va, 3) == entry::table_index(vb, 3)
    &&& l < 2 ==> entry::table_index(va, 2) == entry::table_index(vb, 2)
    &&& l < 1 ==> entry::table_index(va, 1) == entry::table_index(vb, 1)
    &&& l < 0 ==> entry::table_index(va, 0) == entry::table_index(vb, 0)
}

/// Whether the tables below a root are pages that cannot be handed out.
pub open spec fn tables_kept(s: MachineState, root: u64) -> bool {
    forall|va: u64, l: int|
        0 <= l <= 3 && #[trigger] reach(s, root, va, l) ==> is_page(s, tab(s, root, va, l))
            && !in_pool(s.pool, tab(s, root, va, l))
}

/// Whether the tables below a root are a tree: each of them has one place.
pub open spec fn tables_tree(s: MachineState, root: u64) -> bool {
    forall|va: u64, l: int, vb: u64, k: int|
        0 <= l <= 3 && 0 <= k <= 3 && #[trigger] reach(s, root, va, l) && #[trigger] reach(
            s,
            root,
            vb,
            k,
        ) && tab(s, root, va, l) == tab(s, root, vb, k) ==> l == k && same_way(va, vb, l)
}

/// Whether a page table is sound: the pool is, and its tables are a tree of
/// pages that cannot be handed out.
pub open spec fn sound(s: MachineState, root: u64) -> bool {
    pool_sound(s) && tables_kept(s, root) && tables_tree(s, root)
}

/// Whether a page is one of the tables below a root.
pub open spec fn is_table(s: MachineState, root: u64, pa: u64) -> bool {
    exists|va: u64, l: int|
        0 <= l <= 3 && #[trigger] reach(s, root, va, l) && tab(s, root, va, l) == pa
}

/// Whether all pages that are in use in `s`, but for the tables below a root,
/// are the same in `t`, and what can be handed out or is a table there could be
/// handed out or was a table before.
pub open spec fn others_kept(s: MachineState, t: MachineState, root: u64) -> bool {
    &&& t.c_bit == s.c_bit
    &&& t.cr3 == s.cr3
    &&& t.mem.len() == s.mem.len()
    &&& forall|pa: u64| in_pool(t.pool, pa) ==> #[trigger] in_pool(s.pool, pa)
    &&& forall|pa: u64|
        #[trigger] is_table(t, root, pa) ==> is_table(s, root, pa) || in_pool(s.pool, pa)
    &&& forall|pa: u64, i: int|
        pa % 4096 == 0 && 0 <= i < 512 && !in_pool(s.pool, pa) && !is_table(s, root, pa)
            ==> #[trigger] t.rd(pa, i) == s.rd(pa, i)
}

/// What is kept by two steps is kept by both.
pub proof fn lemma_others_kept(s: MachineState, t: MachineState, u: MachineState, root: u64)
    requires
        others_kept(s, t, root),
        others_kept(t, u, root),
    ensures
        others_kept(s, u, root),
{
    assert forall|pa: u64| in_pool(u.pool, pa) implies #[trigger] in_pool(s.pool, pa) by {
        assert(in_pool(t.pool, pa));
    }
    assert forall|pa: u64| #[trigger] is_table(u, root, pa) implies is_table(s, root, pa) || in_pool(
        s.pool,
        pa,
    ) by {
        if !is_table(t, root, pa) {
            assert(in_pool(t.pool, pa));
            assert(in_pool(s.pool, pa));
        }
    }
    assert forall|pa: u64, i: int|
        pa % 4096 == 0 && 0 <= i < 512 && !in_pool(s.pool, pa) && !is_table(
            s,
            root,
            pa,
        ) implies #[trigger] u.rd(pa, i) == s.rd(pa, i) by {
        if in_pool(t.pool, pa) {
            assert(in_pool(s.pool, pa));
        }
        assert(t.rd(pa, i) == s.rd(pa, i));
    }
}

/// Whether two addresses lie in one page.
pub open spec fn same_page(va: u64, vb: u64) -> bool {
    va as int % 0x1_0000_0000_0000 / 4096 == vb as int % 0x1_0000_0000_0000 / 4096
}

/// The number of a page is made of its indices.
proof fn lemma_page_number(va: u64)
    ensures
        va as int % 0x1_0000_0000_0000 / 4096 == ((entry::table_index(va, 3) * 512
            + entry::table_index(va, 2)) * 512 + entry::table_index(va, 1)) * 512
            + entry::table_index(va, 0),
{
    let p = va as int / 4096;
    let q1 = p / 512;
    let q2 = q1 / 512;
    let q3 = q2 / 512;
    assert(va as int / 0x20_0000 == q1);
    assert(va as int / 0x4000_0000 == q2);
    assert(va as int / 0x80_0000_0000 == q3);
    assert(va as int % 0x1_0000_0000_0000 / 4096 == p - q3 / 512 * 0x10_0000_0000);
}

/// Two addresses lie in one page exactly where all their indices agree.
pub proof fn lemma_same_page(va: u64, vb: u64)
    ensures
        same_page(va, vb) <==> same_way(va, vb, -1),
{
    lemma_page_number(va);
    lemma_page_number(vb);
}

/// The entry of a page is found at the end of its way.
pub proof fn lemma_leaf(s: MachineState, root: u64, va: u64)
    ensures
        walk::leaf_below(s, root, va, 3) == (if reach(s, root, va, 0) && entry::present(
            walk::entry_in(s, tab(s, root, va, 0), va, 0),
        ) {
            Some(walk::entry_in(s, tab(s, root, va, 0), va, 0))
        } else {
            None
        }),
{
    reveal_with_fuel(walk::leaf_below, 4);
    reveal_with_fuel(tab, 4);
    reveal_with_fuel(reach, 4);
}

/// A walk ends at a table on the way.
pub proof fn lemma_walk_end(s: MachineState, root: u64, va: u64)
    ensures
        ({
            let (lvl, table) = walk::walk_end(s, root, va, 3);
            &&& lvl <= 3
            &&& reach(s, root, va, lvl as int)
            &&& table == tab(s, root, va, lvl as int)
            &&& lvl > 0 ==> !entry::present(walk::entry_in(s, table, va, lvl))
        }),
{
    reveal_with_fuel(walk::walk_end, 4);
    reveal_with_fuel(tab, 4);
    reveal_with_fuel(reach, 4);
}

/// Addresses with the same way have the same tables.
pub proof fn lemma_same_way(s: MachineState, root: u64, va: u64, vb: u64, l: int)
    requires
        0 <= l <= 3,
        same_way(va, vb, l),
    ensures
        tab(s, root, va, l) == tab(s, root, vb, l),
        reach(s, root, va, l) == reach(s, root, vb, l),
    decreases 3 - l,
{
    if l < 3 {
        lemma_same_way(s, root, va, vb, l + 1);
    }
}

/// An entry leads to the page that it was made for.
pub proof fn lemma_entry_leads(c_bit: u64, pa: u64, flags: u64)
    requires
        entry::strip(c_bit, pa) == pa,
        flags & 0x000F_FFFF_FFFF_F000 == 0,
    ensures
        entry::strip(c_bit, entry::entry_word(c_bit, pa, flags)) == pa,
        flags & 0x1 == 0x1 ==> entry::present(entry::entry_word(c_bit, pa, flags)),
{
    assert((pa | flags | c_bit) & 0x000F_FFFF_FFFF_F000 & !c_bit == pa) by (bit_vector)
        requires
            pa & 0x000F_FFFF_FFFF_F000 & !c_bit == pa,
            flags & 0x000F_FFFF_FFFF_F000 == 0,
    ;
    assert(flags & 0x1 == 0x1 ==> (pa | flags | c_bit) & 0x1 == 0x1) by (bit_vector);
}

/// What hanging a fresh table into a sound page table does: it stays sound,
/// the way to `va` is longer by one table, and no page is found elsewhere.
pub proof fn lemma_hang(s: MachineState, root: u64, va: u64, lvl: nat)
    requires
        sound(s, root),
        1 <= lvl <= 3,
        reach(s, root, va, lvl as int),
        !entry::present(walk::entry_in(s, tab(s, root, va, lvl as int), va, lvl)),
        s.pool.available() > 0,
    ensures
        ({
            let (t, fresh) = mapping::hang_table(s, tab(s, root, va, lvl as int), va, lvl);
            &&& sound(t, root)
            &&& reach(t, root, va, lvl - 1)
            &&& tab(t, root, va, lvl - 1) == fresh
            &&& tab(t, root, va, lvl as int) == tab(s, root, va, lvl as int)
            &&& walk::entry_in(t, fresh, va, (lvl - 1) as nat) == 0
            &&& t.pool.available() == s.pool.available() - 1
            &&& others_kept(s, t, root)
            &&& forall|vb: u64, k: int|
                0 <= k <= 3 && #[trigger] reach(s, root, vb, k) ==> reach(t, root, vb, k) && tab(
                    t,
                    root,
                    vb,
                    k,
                ) == tab(s, root, vb, k)
            &&& forall|vb: u64, k: int|
                0 <= k <= 3 && #[trigger] reach(t, root, vb, k) ==> reach(s, root, vb, k) || (k
                    == lvl - 1 && same_way(va, vb, k))
            &&& forall|vb: u64| #[trigger]
                walk::leaf_below(t, root, vb, 3) == walk::leaf_below(s, root, vb, 3)
        }),
{
    let table = tab(s, root, va, lvl as int);
    let (t, fresh) = mapping::hang_table(s, table, va, lvl);
    let idx = entry::table_index(va, lvl as int);
    let word = entry::entry_word(s.c_bit, fresh, entry::TABLE_FLAGS);
    let g = s.grant(table, crate::sev::utils::VMPL1_RWX);
    law_taken_page_is_fresh(s);
    assert(pool_sound(g)) by {
        assert forall|pa: u64|
            pa % 4096 == 0 && #[trigger] in_region(g.pool, pa) implies is_page(g, pa) by {
            assert(in_region(s.pool, pa));
        }
    }
    law_taken_page_is_fresh(g);
    let u = if lvl == 2 {
        s.take_page().0
    } else {
        g.take_page().0
    };
    assert(t.mem == machine::store_word(u.mem, table, idx, word));
    assert(is_page(s, table) && !in_pool(s.pool, table));
    assert(in_pool(s.pool, fresh) && is_page(s, fresh));
    assert forall|pa: u64, i: int|
        #![trigger t.rd(pa, i)]
        pa % 4096 == 0 && 0 <= i < 512 implies t.rd(pa, i) == (if pa == table && i == idx {
        word
    } else if pa == fresh {
        0
    } else {
        s.rd(pa, i)
    }) by {
        if pa == table && i == idx {
        } else {
            if pa == table {
                assert(pa as int / 8 + i != table as int / 8 + idx);
            } else {
                lemma_words_apart(pa, table, i, idx);
            }
            assert(t.rd(pa, i) == u.rd(pa, i));
        }
    }
    assert(0x27u64 & 0x000F_FFFF_FFFF_F000 == 0 && 0x27u64 & 0x1 == 0x1) by (bit_vector);
    lemma_entry_leads(s.c_bit, fresh, entry::TABLE_FLAGS);
    assert(!entry::present(0)) by {
        entry::lemma_empty();
    }
    assert forall|vb: u64, k: int| 0 <= k <= 3 && #[trigger] reach(s, root, vb, k) implies reach(
        t,
        root,
        vb,
        k,
    ) && tab(t, root, vb, k) == tab(s, root, vb, k) by {
        lemma_hang_keeps(s, t, root, va, lvl, fresh, vb, k);
    }
    assert forall|vb: u64, k: int| 0 <= k <= 3 && #[trigger] reach(t, root, vb, k) implies reach(
        s,
        root,
        vb,
        k,
    ) || (k == lvl - 1 && same_way(va, vb, k) && tab(t, root, vb, k) == fresh) by {
        lemma_hang_adds(s, t, root, va, lvl, fresh, vb, k);
    }
    assert(pool_sound(t)) by {
        assert forall|pa: u64|
            pa % 4096 == 0 && #[trigger] in_region(t.pool, pa) implies is_page(t, pa) by {
            assert(in_region(u.pool, pa));
        }
        assert forall|i: int| 0 <= i < t.pool.list.len() implies is_page(
            t,
            #[trigger] t.pool.list[i],
        ) && !(t.pool.base <= t.pool.list[i] < t.pool.limit) by {
            assert(t.pool.list[i] == u.pool.list[i]);
        }
    }
    assert(tables_kept(t, root)) by {
        assert forall|vb: u64, k: int| 0 <= k <= 3 && #[trigger] reach(t, root, vb, k) implies is_page(
            t,
            tab(t, root, vb, k),
        ) && !in_pool(t.pool, tab(t, root, vb, k)) by {
            if reach(s, root, vb, k) {
                assert(is_page(s, tab(s, root, vb, k)) && !in_pool(s.pool, tab(s, root, vb, k)));
                if in_pool(t.pool, tab(s, root, vb, k)) {
                    assert(in_pool(s.pool, tab(s, root, vb, k)));
                }
            }
        }
    }
    assert(tables_tree(t, root)) by {
        assert forall|va1: u64, l: int, vb1: u64, k: int|
            0 <= l <= 3 && 0 <= k <= 3 && #[trigger] reach(t, root, va1, l) && #[trigger] reach(
                t,
                root,
                vb1,
                k,
            ) && tab(t, root, va1, l) == tab(t, root, vb1, k) implies l == k && same_way(
            va1,
            vb1,
            l,
        ) by {
            if reach(s, root, va1, l) {
                assert(!in_pool(s.pool, tab(s, root, va1, l)));
            }
            if reach(s, root, vb1, k) {
                assert(!in_pool(s.pool, tab(s, root, vb1, k)));
            }
        }
    }
    assert(others_kept(s, t, root)) by {
        assert forall|pa: u64| #[trigger] is_table(t, root, pa) implies is_table(s, root, pa)
            || in_pool(s.pool, pa) by {
            let (vb, k) = choose|vb: u64, k: int|
                0 <= k <= 3 && #[trigger] reach(t, root, vb, k) && tab(t, root, vb, k) == pa;
            assert(reach(t, root, vb, k));
        }
        assert(is_table(s, root, table));
    }
    assert(reach(t, root, va, lvl as int) && tab(t, root, va, lvl as int) == table);
    assert(walk::entry_in(t, table, va, lvl) == t.rd(table, idx));
    assert(reach(t, root, va, lvl - 1));
    assert(walk::entry_in(t, fresh, va, (lvl - 1) as nat) == 0) by {
        assert(t.rd(fresh, entry::table_index(va, lvl - 1)) == 0);
    }
    assert forall|vb: u64| #[trigger]
        walk::leaf_below(t, root, vb, 3) == walk::leaf_below(s, root, vb, 3) by {
        lemma_leaf(s, root, vb);
        lemma_leaf(t, root, vb);
        if reach(s, root, vb, 0) {
            let tb = tab(s, root, vb, 0);
            assert(tb != table) by {
                if tb == table {
                    assert(reach(s, root, va, lvl as int));
                }
            }
            assert(is_page(s, tb) && !in_pool(s.pool, tb));
            assert(reach(t, root, vb, 0) && tab(t, root, vb, 0) == tb);
            assert(t.rd(tb, entry::table_index(vb, 0)) == s.rd(tb, entry::table_index(vb, 0)));
        } else if reach(t, root, vb, 0) {
            assert(t.rd(fresh, entry::table_index(vb, 0)) == 0);
        }
    }
}

/// The words of the tables after a fresh table was hung below `table`.
spec fn hung_words(
    s: MachineState,
    t: MachineState,
    table: u64,
    idx: int,
    word: u64,
    fresh: u64,
) -> bool {
    forall|pa: u64, i: int|
        #![trigger t.rd(pa, i)]
        pa % 4096 == 0 && 0 <= i < 512 ==> t.rd(pa, i) == (if pa == table && i == idx {
            word
        } else if pa == fresh {
            0
        } else {
            s.rd(pa, i)
        })
}

proof fn lemma_hang_keeps(
    s: MachineState,
    t: MachineState,
    root: u64,
    va: u64,
    lvl: nat,
    fresh: u64,
    vb: u64,
    k: int,
)
    requires
        sound(s, root),
        1 <= lvl <= 3,
        reach(s, root, va, lvl as int),
        !entry::present(walk::entry_in(s, tab(s, root, va, lvl as int), va, lvl)),
        in_pool(s.pool, fresh),
        t.c_bit == s.c_bit,
        hung_words(
            s,
            t,
            tab(s, root, va, lvl as int),
            entry::table_index(va, lvl as int),
            entry::entry_word(s.c_bit, fresh, entry::TABLE_FLAGS),
            fresh,
        ),
        0 <= k <= 3,
        reach(s, root, vb, k),
    ensures
        reach(t, root, vb, k),
        tab(t, root, vb, k) == tab(s, root, vb, k),
    decreases 3 - k,
{
    if k < 3 {
        lemma_hang_keeps(s, t, root, va, lvl, fresh, vb, k + 1);
        let tb = tab(s, root, vb, k + 1);
        let i = entry::table_index(vb, k + 1);
        assert(reach(s, root, vb, k + 1));
        assert(is_page(s, tb) && !in_pool(s.pool, tb));
        assert(tb != fresh);
        if tb == tab(s, root, va, lvl as int) && i == entry::table_index(va, lvl as int) {
            assert(k + 1 == lvl);
        }
        assert(t.rd(tb, i) == s.rd(tb, i));
    }
}

proof fn lemma_hang_adds(
    s: MachineState,
    t: MachineState,
    root: u64,
    va: u64,
    lvl: nat,
    fresh: u64,
    vb: u64,
    k: int,
)
    requires
        sound(s, root),
        1 <= lvl <= 3,
        reach(s, root, va, lvl as int),
        !entry::present(walk::entry_in(s, tab(s, root, va, lvl as int), va, lvl)),
        in_pool(s.pool, fresh),
        is_page(s, fresh),
        t.c_bit == s.c_bit,
        hung_words(
            s,
            t,
            tab(s, root, va, lvl as int),
            entry::table_index(va, lvl as int),
            entry::entry_word(s.c_bit, fresh, entry::TABLE_FLAGS),
            fresh,
        ),
        entry::strip(s.c_bit, entry::entry_word(s.c_bit, fresh, entry::TABLE_FLAGS)) == fresh,
        !entry::present(0),
        0 <= k <= 3,
        reach(t, root, vb, k),
    ensures
        reach(s, root, vb, k) || (k == lvl - 1 && same_way(va, vb, k) && tab(t, root, vb, k)
            == fresh),
    decreases 3 - k,
{
    if k < 3 {
        lemma_hang_adds(s, t, root, va, lvl, fresh, vb, k + 1);
        let i = entry::table_index(vb, k + 1);
        if reach(s, root, vb, k + 1) {
            lemma_hang_keeps(s, t, root, va, lvl, fresh, vb, k + 1);
            let tb = tab(s, root, vb, k + 1);
            assert(is_page(s, tb) && !in_pool(s.pool, tb));
            assert(t.rd(tb, i) == t.rd(tb, i));
            if tb == tab(s, root, va, lvl as int) && i == entry::table_index(va, lvl as int) {
                assert(k + 1 == lvl && same_way(va, vb, k + 1));
            } else {
                assert(t.rd(tb, i) == s.rd(tb, i));
            }
        } else {
            assert(t.rd(fresh, i) == 0);
        }
    }
}

/// What writing the entry of a page does: the page table stays sound, and only
/// that page is found elsewhere.
pub proof fn lemma_set_leaf(s: MachineState, t: MachineState, root: u64, va: u64, word: u64)
    requires
        sound(s, root),
        reach(s, root, va, 0),
        t.pool == s.pool,
        t.c_bit == s.c_bit,
        t.cr3 == s.cr3,
        t.mem == machine::store_word(
            s.mem,
            tab(s, root, va, 0),
            entry::table_index(va, 0),
            word,
        ),
    ensures
        sound(t, root),
        others_kept(s, t, root),
        reach(t, root, va, 0),
        tab(t, root, va, 0) == tab(s, root, va, 0),
        walk::leaf_below(t, root, va, 3) == (if entry::present(word) {
            Some(word)
        } else {
            None
        }),
        forall|vb: u64|
            !same_page(va, vb) ==> #[trigger] walk::leaf_below(t, root, vb, 3)
                == walk::leaf_below(s, root, vb, 3),
{
    let table = tab(s, root, va, 0);
    let idx = entry::table_index(va, 0);
    assert(is_page(s, table) && !in_pool(s.pool, table));
    assert forall|pa: u64, i: int|
        #![trigger t.rd(pa, i)]
        pa % 4096 == 0 && 0 <= i < 512 implies t.rd(pa, i) == (if pa == table && i == idx {
        word
    } else {
        s.rd(pa, i)
    }) by {
        if pa != table {
            lemma_words_apart(pa, table, i, idx);
        }
    }
    assert forall|vb: u64, k: int| 0 <= k <= 3 implies #[trigger] reach(t, root, vb, k) == reach(
        s,
        root,
        vb,
        k,
    ) && (reach(s, root, vb, k) ==> tab(t, root, vb, k) == tab(s, root, vb, k)) by {
        lemma_leaf_keeps(s, t, root, va, word, vb, k);
    }
    assert(pool_sound(t)) by {
        assert forall|pa: u64|
            pa % 4096 == 0 && #[trigger] in_region(t.pool, pa) implies is_page(t, pa) by {
            assert(in_region(s.pool, pa));
        }
    }
    assert(tables_kept(t, root)) by {
        assert forall|vb: u64, k: int| 0 <= k <= 3 && #[trigger] reach(t, root, vb, k) implies is_page(
            t,
            tab(t, root, vb, k),
        ) && !in_pool(t.pool, tab(t, root, vb, k)) by {
            assert(reach(s, root, vb, k));
        }
    }
    assert(tables_tree(t, root)) by {
        assert forall|va1: u64, l: int, vb1: u64, k: int|
            0 <= l <= 3 && 0 <= k <= 3 && #[trigger] reach(t, root, va1, l) && #[trigger] reach(
                t,
                root,
                vb1,
                k,
            ) && tab(t, root, va1, l) == tab(t, root, vb1, k) implies l == k && same_way(
            va1,
            vb1,
            l,
        ) by {
            assert(reach(s, root, va1, l) && reach(s, root, vb1, k));
        }
    }
    assert(others_kept(s, t, root)) by {
        assert forall|pa: u64| #[trigger] is_table(t, root, pa) implies is_table(s, root, pa)
            || in_pool(s.pool, pa) by {
            let (vb, k) = choose|vb: u64, k: int|
                0 <= k <= 3 && #[trigger] reach(t, root, vb, k) && tab(t, root, vb, k) == pa;
            assert(reach(t, root, vb, k) == reach(s, root, vb, k));
        }
        assert(is_table(s, root, table));
    }
    lemma_leaf(t, root, va);
    assert(reach(t, root, va, 0));
    assert(t.rd(table, idx) == word);
    assert forall|vb: u64| !same_page(va, vb) implies #[trigger] walk::leaf_below(t, root, vb, 3)
        == walk::leaf_below(s, root, vb, 3) by {
        lemma_same_page(va, vb);
        lemma_leaf(s, root, vb);
        lemma_leaf(t, root, vb);
        assert(reach(t, root, vb, 0) == reach(s, root, vb, 0));
        if reach(s, root, vb, 0) {
            let tb = tab(s, root, vb, 0);
            let i = entry::table_index(vb, 0);
            assert(is_page(s, tb));
            assert(t.rd(tb, i) == s.rd(tb, i));
        }
    }
}

/// The tables on the way to a page after an entry of a page was written.
pub proof fn lemma_leaf_way(
    s: MachineState,
    t: MachineState,
    root: u64,
    va: u64,
    word: u64,
    vb: u64,
    k: int,
)
    requires
        sound(s, root),
        reach(s, root, va, 0),
        t.c_bit == s.c_bit,
        t.mem == machine::store_word(
            s.mem,
            tab(s, root, va, 0),
            entry::table_index(va, 0),
            word,
        ),
        0 <= k <= 3,
    ensures
        reach(t, root, vb, k) == reach(s, root, vb, k),
        reach(s, root, vb, k) ==> tab(t, root, vb, k) == tab(s, root, vb, k),
{
    let table = tab(s, root, va, 0);
    let idx = entry::table_index(va, 0);
    assert(is_page(s, table));
    assert forall|pa: u64, i: int|
        #![trigger t.rd(pa, i)]
        pa % 4096 == 0 && 0 <= i < 512 implies t.rd(pa, i) == (if pa == table && i == idx {
        word
    } else {
        s.rd(pa, i)
    }) by {
        if pa != table {
            lemma_words_apart(pa, table, i, idx);
        }
    }
    lemma_leaf_keeps(s, t, root, va, word, vb, k);
}

proof fn lemma_leaf_keeps(
    s: MachineState,
    t: MachineState,
    root: u64,
    va: u64,
    word: u64,
    vb: u64,
    k: int,
)
    requires
        sound(s, root),
        reach(s, root, va, 0),
        t.c_bit == s.c_bit,
        forall|pa: u64, i: int|
            #![trigger t.rd(pa, i)]
            pa % 4096 == 0 && 0 <= i < 512 ==> t.rd(pa, i) == (if pa == tab(s, root, va, 0) && i
                == entry::table_index(va, 0) {
                word
            } else {
                s.rd(pa, i)
            }),
        0 <= k <= 3,
    ensures
        reach(t, root, vb, k) == reach(s, root, vb, k),
        reach(s, root, vb, k) ==> tab(t, root, vb, k) == tab(s, root, vb, k),
    decreases 3 - k,
{
    if k < 3 {
        lemma_leaf_keeps(s, t, root, va, word, vb, k + 1);
        if reach(s, root, vb, k + 1) {
            let tb = tab(s, root, vb, k + 1);
            let i = entry::table_index(vb, k + 1);
            assert(is_page(s, tb));
            if tb == tab(s, root, va, 0) {
                assert(k + 1 == 0);
            }
            assert(t.rd(tb, i) == s.rd(tb, i));
        }
    }
}

proof fn lemma_map_below(
    s: MachineState,
    root: u64,
    va: u64,
    lvl: nat,
    addr: u64,
    flags: u64,
)
    requires
        sound(s, root),
        lvl <= 3,
        reach(s, root, va, lvl as int),
        lvl > 0 ==> !entry::present(walk::entry_in(s, tab(s, root, va, lvl as int), va, lvl)),
        s.pool.available() >= lvl,
    ensures
        ({
            let table = tab(s, root, va, lvl as int);
            let t = mapping::map_below(s, table, va, lvl, addr, flags);
            let e = if lvl == 0 {
                walk::entry_in(s, table, va, 0)
            } else {
                0
            };
            let word = mapping::leaf_word(s.c_bit, e, addr, flags);
            &&& sound(t, root)
            &&& others_kept(s, t, root)
            &&& t.pool.available() == s.pool.available() - lvl
            &&& walk::leaf_below(t, root, va, 3) == (if entry::present(word) {
                Some(word)
            } else {
                None
            })
            &&& forall|vb: u64|
                !same_page(va, vb) ==> #[trigger] walk::leaf_below(t, root, vb, 3)
                    == walk::leaf_below(s, root, vb, 3)
        }),
    decreases lvl,
{
    let table = tab(s, root, va, lvl as int);
    let t = mapping::map_below(s, table, va, lvl, addr, flags);
    if lvl == 0 {
        let word = mapping::leaf_word(
            s.c_bit,
            walk::entry_in(s, table, va, 0),
            addr,
            flags,
        );
        lemma_set_leaf(s, t, root, va, word);
    } else {
        let (u, fresh) = mapping::hang_table(s, table, va, lvl);
        lemma_hang(s, root, va, lvl);
        assert(!entry::present(0)) by {
            entry::lemma_empty();
        }
        lemma_map_below(u, root, va, (lvl - 1) as nat, addr, flags);
        lemma_others_kept(s, u, t, root);
        assert forall|vb: u64| !same_page(va, vb) implies #[trigger] walk::leaf_below(t, root, vb, 3)
            == walk::leaf_below(s, root, vb, 3) by {
            assert(walk::leaf_below(u, root, vb, 3) == walk::leaf_below(s, root, vb, 3));
        }
    }
}

/// Whether flags are those of a page: they hold no part of an address, and do
/// not ask for the flags of the entry.
pub open spec fn page_flags(flags: u64) -> bool {
    flags & 0x000F_FFFF_FFFF_F000 == 0 && flags & 0x400 != 0x400
}

/// A page that was mapped is found at its address, with its flags and in place
/// of a page that was there before, as long as there are pages for the tables
/// that are missing. The pages at all other addresses are found where they were
/// before, the page table stays sound, and no page that is in use is changed but
/// for its tables.
pub proof fn law_mapped_page_is_found(s: MachineState, root: u64, va: u64, addr: u64, flags: u64)
    requires
        sound(s, root),
        s.pool.available() >= walk::walk_end(s, root, va, 3).0,
        entry::strip(s.c_bit, addr) == addr,
        page_flags(flags),
        flags & 0x1 == 0x1,
    ensures
        ({
            let t = mapping::map_page(s, root, va, addr, flags);
            &&& sound(t, root)
            &&& others_kept(s, t, root)
            &&& t.pool.available() == s.pool.available() - walk::walk_end(s, root, va, 3).0
            &&& walk::leaf_below(t, root, va, 3) == Some(entry::entry_word(s.c_bit, addr, flags))
            &&& walk::translate(t, root, va) == addr
            &&& forall|vb: u64|
                !same_page(va, vb) ==> #[trigger] walk::leaf_below(t, root, vb, 3)
                    == walk::leaf_below(s, root, vb, 3)
            &&& forall|vb: u64|
                !same_page(va, vb) ==> #[trigger] walk::translate(t, root, vb) == walk::translate(
                    s,
                    root,
                    vb,
                )
        }),
{
    let (lvl, table) = walk::walk_end(s, root, va, 3);
    let t = mapping::map_page(s, root, va, addr, flags);
    lemma_walk_end(s, root, va);
    lemma_map_below(s, root, va, lvl, addr, flags);
    lemma_entry_leads(s.c_bit, addr, flags);
    assert forall|vb: u64| !same_page(va, vb) implies #[trigger] walk::translate(t, root, vb)
        == walk::translate(s, root, vb) by {
        assert(walk::leaf_below(t, root, vb, 3) == walk::leaf_below(s, root, vb, 3));
    }
}

/// A page that is mapped without the mark of its presence is not found; no
/// other page is touched.
pub proof fn law_absent_page_is_not_found(s: MachineState, root: u64, va: u64, addr: u64, flags: u64)
    requires
        sound(s, root),
        s.pool.available() >= walk::walk_end(s, root, va, 3).0,
        page_flags(flags),
        !entry::present(entry::entry_word(s.c_bit, addr, flags)),
    ensures
        ({
            let t = mapping::map_page(s, root, va, addr, flags);
            &&& sound(t, root)
            &&& others_kept(s, t, root)
            &&& t.pool.available() == s.pool.available() - walk::walk_end(s, root, va, 3).0
            &&& forall|vb: u64|
                !same_page(va, vb) ==> #[trigger] walk::leaf_below(t, root, vb, 3)
                    == walk::leaf_below(s, root, vb, 3)
            &&& walk::leaf_below(t, root, va, 3) is None
            &&& forall|vb: u64|
                !same_page(va, vb) ==> #[trigger] walk::translate(t, root, vb) == walk::translate(
                    s,
                    root,
                    vb,
                )
        }),
{
    let (lvl, table) = walk::walk_end(s, root, va, 3);
    let t = mapping::map_page(s, root, va, addr, flags);
    lemma_walk_end(s, root, va);
    lemma_map_below(s, root, va, lvl, addr, flags);
    assert forall|vb: u64| !same_page(va, vb) implies #[trigger] walk::translate(t, root, vb)
        == walk::translate(s, root, vb) by {
        assert(walk::leaf_below(t, root, vb, 3) == walk::leaf_below(s, root, vb, 3));
    }
}

/// A page that comes later for an entry that waits for it is found, with the
/// flags that the entry has had since it was made; where there was no entry, it
/// is found without any but that of its presence.
pub proof fn law_delivered_page_is_found(s: MachineState, root: u64, va: u64, addr: u64)
    requires
        sound(s, root),
        s.pool.available() >= walk::walk_end(s, root, va, 3).0,
        entry::strip(s.c_bit, addr) == addr,
    ensures
        ({
            let t = mapping::map_page(s, root, va, addr, 0x400);
            let (lvl, table) = walk::walk_end(s, root, va, 3);
            let e = if lvl == 0 {
                walk::entry_in(s, table, va, 0)
            } else {
                0
            };
            &&& sound(t, root)
            &&& others_kept(s, t, root)
            &&& walk::translate(t, root, va) == addr
            &&& walk::leaf_below(t, root, va, 3) == Some(
                entry::entry_word(s.c_bit, addr, entry::flags_of(e) | 0x1),
            )
            &&& forall|vb: u64|
                !same_page(va, vb) ==> #[trigger] walk::leaf_below(t, root, vb, 3)
                    == walk::leaf_below(s, root, vb, 3)
            &&& forall|vb: u64|
                !same_page(va, vb) ==> #[trigger] walk::translate(t, root, vb) == walk::translate(
                    s,
                    root,
                    vb,
                )
        }),
{
    let (lvl, table) = walk::walk_end(s, root, va, 3);
    let t = mapping::map_page(s, root, va, addr, 0x400);
    let e = if lvl == 0 {
        walk::entry_in(s, table, va, 0)
    } else {
        0
    };
    let flags = entry::flags_of(e) | 0x1;
    lemma_walk_end(s, root, va);
    lemma_map_below(s, root, va, lvl, addr, 0x400);
    assert(0x400u64 & 0x400 == 0x400) by (bit_vector);
    assert(((e & 0x8000_0000_0000_07FF) | 0x1) & 0x000F_FFFF_FFFF_F000 == 0 && ((e
        & 0x8000_0000_0000_07FF) | 0x1) & 0x1 == 0x1) by (bit_vector);
    lemma_entry_leads(s.c_bit, addr, flags);
    assert forall|vb: u64| !same_page(va, vb) implies #[trigger] walk::translate(t, root, vb)
        == walk::translate(s, root, vb) by {
        assert(walk::leaf_below(t, root, vb, 3) == walk::leaf_below(s, root, vb, 3));
    }
}

/// A fresh root table is sound, and no page is found below it.
pub proof fn law_fresh_root_is_empty(s: MachineState)
    requires
        pool_sound(s),
        s.pool.available() > 0,
    ensures
        ({
            let (t, root) = mapping::root_made(s);
            &&& sound(t, root)
            &&& forall|va: u64| #[trigger] walk::leaf_below(t, root, va, 3) is None
            &&& forall|va: u64| #[trigger] walk::translate(t, root, va) == 0
        }),
{
    let (t, root) = mapping::root_made(s);
    let u = s.take_page().0;
    law_taken_page_is_fresh(s);
    assert(!entry::present(0)) by {
        entry::lemma_empty();
    }
    assert forall|i: int| 0 <= i < 512 implies #[trigger] t.rd(root, i) == 0 by {
        assert(u.rd(root, i) == 0);
    }
    assert forall|va: u64, l: int| 0 <= l <= 3 && #[trigger] reach(t, root, va, l) implies l == 3 by {
        lemma_nothing_below(t, root, va, l);
    }
    assert(pool_sound(t)) by {
        assert forall|pa: u64|
            pa % 4096 == 0 && #[trigger] in_region(t.pool, pa) implies is_page(t, pa) by {
            assert(in_region(u.pool, pa));
        }
        assert forall|i: int| 0 <= i < t.pool.list.len() implies is_page(
            t,
            #[trigger] t.pool.list[i],
        ) && !(t.pool.base <= t.pool.list[i] < t.pool.limit) by {
            assert(t.pool.list[i] == u.pool.list[i]);
        }
    }
    assert forall|va: u64| #[trigger] walk::leaf_below(t, root, va, 3) is None by {
        lemma_leaf(t, root, va);
    }
    assert forall|va: u64| #[trigger] walk::translate(t, root, va) == 0 by {
        assert(walk::leaf_below(t, root, va, 3) is None);
    }
}

proof fn lemma_nothing_below(t: MachineState, root: u64, va: u64, l: int)
    requires
        0 <= l <= 3,
        forall|i: int| 0 <= i < 512 ==> #[trigger] t.rd(root, i) == 0,
        !entry::present(0),
    ensures
        reach(t, root, va, l) ==> l == 3,
    decreases 3 - l,
{
    if l < 3 {
        lemma_nothing_below(t, root, va, l + 1);
        assert(t.rd(root, entry::table_index(va, 3)) == 0);
    }
}

/// A change of protection keeps all pages where they are, and the page table
/// sound.
pub proof fn law_protection_keeps_pages(
    s: MachineState,
    root: u64,
    va: u64,
    writable: bool,
    executable: bool,
)
    requires
        sound(s, root),
    ensures
        ({
            let t = walk::protect(s, root, va, writable, executable);
            &&& sound(t, root)
            &&& others_kept(s, t, root)
            &&& t.pool == s.pool
            &&& walk::leaf_below(s, root, va, 3) is None ==> walk::leaf_below(t, root, va, 3) is None
            &&& forall|vb: u64| #[trigger]
                walk::translate(t, root, vb) == walk::translate(s, root, vb)
            &&& forall|vb: u64|
                !same_page(va, vb) ==> #[trigger] walk::leaf_below(t, root, vb, 3)
                    == walk::leaf_below(s, root, vb, 3)
            &&& walk::leaf_below(s, root, va, 3) matches Some(e) ==> walk::leaf_below(
                t,
                root,
                va,
                3,
            ) == Some(walk::with_protection(e, writable, executable))
        }),
{
    let (lvl, table) = walk::walk_end(s, root, va, 3);
    let t = walk::protect(s, root, va, writable, executable);
    lemma_walk_end(s, root, va);
    lemma_leaf(s, root, va);
    if lvl == 0 {
        let e = walk::entry_in(s, table, va, 0);
        let word = walk::with_protection(e, writable, executable);
        lemma_set_leaf(s, t, root, va, word);
        lemma_protection_bits(s.c_bit, e, writable, executable);
        assert forall|vb: u64| #[trigger]
            walk::translate(t, root, vb) == walk::translate(s, root, vb) by {
            if same_page(va, vb) {
                lemma_same_page(va, vb);
                lemma_same_way(s, root, va, vb, 0);
                lemma_same_way(t, root, va, vb, 0);
                lemma_leaf(s, root, vb);
                lemma_leaf(t, root, vb);
                lemma_leaf(t, root, va);
            } else {
                assert(walk::leaf_below(t, root, vb, 3) == walk::leaf_below(s, root, vb, 3));
            }
        }
    } else {
        assert(!reach(s, root, va, 0)) by {
            lemma_reach_down(s, root, va, 0, lvl as int - 1);
        }
        assert(others_kept(s, t, root));
    }
}

/// Below a table that is missing there is none.
pub proof fn lemma_reach_down(s: MachineState, root: u64, va: u64, l: int, k: int)
    requires
        0 <= l <= k <= 3,
        !reach(s, root, va, k),
    ensures
        !reach(s, root, va, l),
    decreases k - l,
{
    if l < k {
        lemma_reach_down(s, root, va, l + 1, k);
    }
}

/// A change of protection keeps the address of an entry, and whether it is
/// present; it is then writable and executable as asked for.
pub proof fn lemma_protection_bits(c_bit: u64, e: u64, writable: bool, executable: bool)
    ensures
        ({
            let w = walk::with_protection(e, writable, executable);
            &&& entry::present(w) == entry::present(e)
            &&& entry::strip(c_bit, w) == entry::strip(c_bit, e)
            &&& (w & 0x2 == 0x2) == writable
            &&& (w & 0x8000_0000_0000_0000 == 0) == executable
        }),
{
    let f = if writable {
        e | 0x2
    } else {
        e & !0x2u64
    };
    let w = if executable {
        f & !0x8000_0000_0000_0000u64
    } else {
        f | 0x8000_0000_0000_0000u64
    };
    assert((w & 0x1 == 0x1) == (e & 0x1 == 0x1) && w & 0x000F_FFFF_FFFF_F000 & !c_bit == e
        & 0x000F_FFFF_FFFF_F000 & !c_bit && (w & 0x2 == 0x2) == writable && (w
        & 0x8000_0000_0000_0000 == 0) == executable) by (bit_vector)
        requires
            f == (if writable {
                e | 0x2
            } else {
                e & !0x2u64
            }),
            w == (if executable {
                f & !0x8000_0000_0000_0000u64
            } else {
                f | 0x8000_0000_0000_0000u64
            }),
    ;
}

/// A page that was freed is the next one that is handed out, cleared; the pool
/// is then as it was.
pub proof fn law_freed_page_is_reused(s: MachineState, page: u64)
    requires
        page != 0,
    ensures
        ({
            let (t, taken) = s.release(page).take_page();
            &&& taken == page
            &&& t.pool == s.pool
            &&& t == s.zero(page)
        }),
{
    let r = s.release(page);
    assert(r.pool.list.drop_last() =~= s.pool.list);
    assert(r.take_page().0 =~= s.zero(page));
}

/// The pool stays sound when a page that it does not hold is freed.
pub proof fn law_freeing_keeps_pool_sound(s: MachineState, page: u64)
    requires
        pool_sound(s),
        is_page(s, page),
        !in_pool(s.pool, page),
        !(s.pool.base <= page < s.pool.limit),
    ensures
        pool_sound(s.release(page)),
        s.release(page).pool.available() == s.pool.available() + 1,
{
    let t = s.release(page);
    assert forall|i: int| 0 <= i < t.pool.list.len() implies is_page(t, #[trigger] t.pool.list[i])
        && !(t.pool.base <= t.pool.list[i] < t.pool.limit) by {
        if i < s.pool.list.len() {
            assert(t.pool.list[i] == s.pool.list[i]);
        }
    }
    assert forall|i: int, j: int| 0 <= i < j < t.pool.list.len() implies t.pool.list[i]
        != t.pool.list[j] by {
        if j == s.pool.list.len() {
            assert(s.pool.list.contains(s.pool.list[i]));
        }
    }
    assert forall|pa: u64| pa % 4096 == 0 && #[trigger] in_region(t.pool, pa) implies is_page(t, pa) by {
        assert(in_region(s.pool, pa));
    }
}

/// A page that can be handed out and is not taken can be handed out still.
proof fn lemma_others_stay_in_pool(s: MachineState, pa: u64)
    requires
        pool_sound(s),
        s.pool.available() > 0,
        pa % 4096 == 0,
        in_pool(s.pool, pa),
        pa != s.take_page().1,
    ensures
        in_pool(s.take_page().0.pool, pa),
{
    if s.pool.list.len() > 0 {
        lemma_stay_in_list(s, pa);
    } else {
        lemma_stay_in_region(s, pa);
    }
}

proof fn lemma_stay_in_region(s: MachineState, pa: u64)
    requires
        pool_sound(s),
        s.pool.list.len() == 0,
        s.pool.available() > 0,
        pa % 4096 == 0,
        in_pool(s.pool, pa),
        pa != s.take_page().1,
    ensures
        in_pool(s.take_page().0.pool, pa),
{
    let t = s.take_page().0;
    assert(t.pool.base == s.pool.base + 4096 && t.pool.limit == s.pool.limit);
    assert(in_region(s.pool, pa));
    assert(in_region(t.pool, pa));
}

proof fn lemma_stay_in_list(s: MachineState, pa: u64)
    requires
        pool_sound(s),
        s.pool.list.len() > 0,
        in_pool(s.pool, pa),
        pa != s.take_page().1,
    ensures
        in_pool(s.take_page().0.pool, pa),
{
    let t = s.take_page().0;
    let list = s.pool.list;
    assert(is_page(s, list[list.len() - 1]));
    assert(t.pool.list == list.drop_last());
    assert(t.pool.base == s.pool.base && t.pool.limit == s.pool.limit);
    if list.contains(pa) {
        let i = choose|i: int| 0 <= i < list.len() && list[i] == pa;
        assert(t.pool.list[i] == pa);
    } else {
        assert(in_region(t.pool, pa));
    }
}

/// Whether pages that were rejected can go back into the pool.
spec fn can_go_back(s: MachineState, pages: Seq<u64>) -> bool {
    &&& forall|i: int|
        0 <= i < pages.len() ==> {
            &&& is_page(s, #[trigger] pages[i])
            &&& pages[i] % 0x20_0000 == 0
            &&& !in_pool(s.pool, pages[i])
            &&& !(s.pool.base <= pages[i] < s.pool.limit)
        }
    &&& forall|i: int, j: int| 0 <= i < j < pages.len() ==> pages[i] != pages[j]
}

proof fn lemma_vmsa_search(s: MachineState, rejected: Seq<u64>)
    requires
        pool_sound(s),
        can_go_back(s, rejected),
        rejected.len() <= 8,
    ensures
        process_memory::vmsa_search(s, rejected) matches Some((t, page, pages)) ==> {
            &&& pool_sound(t)
            &&& can_go_back(t, pages)
            &&& pages.len() <= 8
            &&& page % 0x20_0000 != 0
            &&& is_page(s, page)
            &&& in_pool(s.pool, page)
            &&& !in_pool(t.pool, page)
            &&& !pages.contains(page)
            &&& rejected.is_prefix_of(pages)
            &&& pages.len() < 8 ==> forall|pa: u64|
                #![trigger in_pool(s.pool, pa)]
                pa % 4096 == 0 && in_pool(s.pool, pa) && pa != page ==> in_pool(t.pool, pa)
                    || pages.contains(pa)
        },
    decreases s.pool.available(),
{
    let (t, page) = s.take_page();
    if page % 0x20_0000 != 0 {
        law_taken_page_is_fresh(s);
        assert forall|i: int| 0 <= i < rejected.len() implies !in_pool(t.pool, #[trigger] rejected[i])
            && is_page(t, rejected[i]) && rejected[i] % 0x20_0000 == 0 && !(t.pool.base <= rejected[i]
            < t.pool.limit) by {
            if in_pool(t.pool, rejected[i]) {
                assert(in_pool(s.pool, rejected[i]));
            }
        }
        assert forall|pa: u64|
            #![trigger in_pool(s.pool, pa)]
            pa % 4096 == 0 && in_pool(s.pool, pa) && pa != page implies in_pool(t.pool, pa) by {
            lemma_others_stay_in_pool(s, pa);
        }
    } else if t.pool.available() < s.pool.available() {
        law_taken_page_is_fresh(s);
        let more = if rejected.len() < 8 {
            rejected.push(page)
        } else {
            rejected
        };
        assert(can_go_back(t, more)) by {
            assert forall|i: int| 0 <= i < more.len() implies is_page(t, #[trigger] more[i])
                && more[i] % 0x20_0000 == 0 && !in_pool(t.pool, more[i]) && !(t.pool.base <= more[i]
                < t.pool.limit) by {
                if i < rejected.len() {
                    assert(more[i] == rejected[i]);
                    if in_pool(t.pool, rejected[i]) {
                        assert(in_pool(s.pool, rejected[i]));
                    }
                } else if s.pool.list.len() > 0 {
                    assert(s.pool.list[s.pool.list.len() - 1] == page);
                }
            }
            assert forall|i: int, j: int| 0 <= i < j < more.len() implies more[i] != more[j] by {
                if j == rejected.len() {
                    assert(!in_pool(s.pool, rejected[i]));
                }
            }
        }
        lemma_vmsa_search(t, more);
        if let Some((u, found, pages)) = process_memory::vmsa_search(s, rejected) {
            assert(in_pool(t.pool, found));
            assert(in_pool(s.pool, found));
            if pages.len() < 8 {
                let last = rejected.len() as int;
                assert(more.is_prefix_of(pages));
                assert(more[last] == page);
                assert(pages.subrange(0, more.len() as int)[last] == pages[last]);
                assert forall|pa: u64|
                    #![trigger in_pool(s.pool, pa)]
                    pa % 4096 == 0 && in_pool(s.pool, pa) && pa != found implies in_pool(u.pool, pa)
                    || pages.contains(pa) by {
                    if pa != page {
                        lemma_others_stay_in_pool(s, pa);
                        assert(in_pool(t.pool, pa));
                    }
                }
            }
        }
    }
}

/// A page that was found for a VMSA is one of the pool that is not aligned to 2
/// MiB. It has left the pool, which stays sound; where fewer than eight pages
/// were rejected on the way, no other page has left it.
pub proof fn law_vmsa_page_is_not_aligned(s: MachineState)
    requires
        pool_sound(s),
    ensures
        process_memory::vmsa_search(s, Seq::empty()) matches Some((t, page, rejected)) ==> {
            let u = MachineState {
                pool: PoolState { list: t.pool.list + rejected, ..t.pool },
                ..t
            };
            &&& page % 0x20_0000 != 0
            &&& is_page(s, page)
            &&& in_pool(s.pool, page)
            &&& !in_pool(u.pool, page)
            &&& pool_sound(u)
            &&& rejected.len() < 8 ==> forall|pa: u64|
                #![trigger in_pool(s.pool, pa)]
                pa % 4096 == 0 && in_pool(s.pool, pa) && pa != page ==> in_pool(u.pool, pa)
        },
{
    lemma_vmsa_search(s, Seq::empty());
    if let Some((t, page, rejected)) = process_memory::vmsa_search(s, Seq::empty()) {
        let u = MachineState {
            pool: PoolState { list: t.pool.list + rejected, ..t.pool },
            ..t
        };
        let n = t.pool.list.len();
        assert(!u.pool.list.contains(page)) by {
            if u.pool.list.contains(page) {
                let i = choose|i: int| 0 <= i < u.pool.list.len() && u.pool.list[i] == page;
                if i < n {
                    assert(t.pool.list[i] == page);
                } else {
                    assert(rejected[i - n] == page);
                }
            }
        }
        assert(pool_sound(u)) by {
            assert forall|i: int| 0 <= i < u.pool.list.len() implies is_page(
                u,
                #[trigger] u.pool.list[i],
            ) && !(u.pool.base <= u.pool.list[i] < u.pool.limit) by {
                if i < n {
                    assert(u.pool.list[i] == t.pool.list[i]);
                } else {
                    assert(u.pool.list[i] == rejected[i - n]);
                }
            }
            assert forall|i: int, j: int| 0 <= i < j < u.pool.list.len() implies u.pool.list[i]
                != u.pool.list[j] by {
                if j >= n && i < n {
                    assert(!in_pool(t.pool, rejected[j - n]));
                    assert(t.pool.list.contains(t.pool.list[i]));
                }
            }
            assert forall|pa: u64| pa % 4096 == 0 && #[trigger] in_region(u.pool, pa) implies is_page(
                u,
                pa,
            ) by {
                assert(in_region(t.pool, pa));
            }
        }
        if rejected.len() < 8 {
            assert forall|pa: u64|
                #![trigger in_pool(s.pool, pa)]
                pa % 4096 == 0 && in_pool(s.pool, pa) && pa != page implies in_pool(u.pool, pa) by {
                if t.pool.list.contains(pa) {
                    let i = choose|i: int| 0 <= i < n && t.pool.list[i] == pa;
                    assert(u.pool.list[i] == pa);
                } else if rejected.contains(pa) {
                    let i = choose|i: int| 0 <= i < rejected.len() && rejected[i] == pa;
                    assert(u.pool.list[n + i] == pa);
                }
            }
        }
    }
}

/// Two pages that were never handed out are enough for a VMSA.
pub proof fn law_vmsa_page_is_found(s: MachineState)
    requires
        s.pool.list.len() == 0,
        s.pool.base % 4096 == 0,
        s.pool.base + 0x2000 <= s.pool.limit,
    ensures
        process_memory::vmsa_search(s, Seq::empty()) is Some,
{
    reveal_with_fuel(process_memory::vmsa_search, 2);
}

/// Walks of addresses in one page end at the same table.
proof fn lemma_same_end(s: MachineState, root: u64, va: u64, vb: u64)
    requires
        same_page(va, vb),
    ensures
        walk::walk_end(s, root, va, 3) == walk::walk_end(s, root, vb, 3),
{
    lemma_same_page(va, vb);
    reveal_with_fuel(walk::walk_end, 4);
}

/// The two ways to look up a page agree on all pages that are there, as long as
/// their addresses have no more than 48 bits: the frame that an entry holds is
/// that of the page. It is none where a table on the way is missing, starts at a
/// page boundary, and is the same for all addresses in a page.
pub proof fn law_lookups_agree(s: MachineState, root: u64, va: u64, vb: u64)
    requires
        s.c_bit & 0x0000_FFFF_FFFF_F000 == 0,
        walk::translate(s, root, va) <= 0x0000_FFFF_FFFF_F000,
    ensures
        walk::translate(s, root, va) != 0 ==> walk::entry_frame(s, root, va) == walk::translate(
            s,
            root,
            va,
        ),
        !reach(s, root, va, 0) ==> walk::entry_frame(s, root, va) == 0,
        walk::entry_frame(s, root, va) % 4096 == 0,
        same_page(va, vb) ==> walk::entry_frame(s, root, va) == walk::entry_frame(s, root, vb),
{
    let (lvl, table) = walk::walk_end(s, root, va, 3);
    let e = walk::entry_in(s, table, va, 0);
    let c = s.c_bit;
    lemma_walk_end(s, root, va);
    lemma_leaf(s, root, va);
    assert(lvl == 0 <==> reach(s, root, va, 0)) by {
        reveal_with_fuel(reach, 4);
        reveal_with_fuel(tab, 4);
    }
    assert((e & 0x0000_FFFF_FFFF_F000) % 4096 == 0 && (c & 0x0000_FFFF_FFFF_F000 == 0 && e
        & 0x000F_FFFF_FFFF_F000 & !c <= 0x0000_FFFF_FFFF_F000 ==> e & 0x0000_FFFF_FFFF_F000 == e
        & 0x000F_FFFF_FFFF_F000 & !c)) by (bit_vector);
    if same_page(va, vb) {
        lemma_same_end(s, root, va, vb);
        lemma_same_page(va, vb);
    }
}

} // verus!
