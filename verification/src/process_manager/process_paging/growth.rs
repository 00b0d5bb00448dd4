//! What holds of memory that processes ask for and give back.
use vstd::prelude::*;
use crate::address;
use crate::memory::machine;
use crate::memory::machine::MachineState;
use crate::process_manager::process_memory::PoolState;
use crate::process_manager::process_paging::balance;
use crate::process_manager::process_paging::cow;
use crate::process_manager::process_paging::entry;
use crate::process_manager::process_paging::isolation;
use crate::process_manager::process_paging::mapping;
use crate::process_manager::process_paging::ranges;
use crate::process_manager::process_paging::region;
use crate::process_manager::process_paging::region::RunTables;
use crate::process_manager::process_paging::soundness;
use crate::process_manager::process_paging::teardown;
use crate::process_manager::process_paging::teardown::PagePath;
use crate::process_manager::process_paging::transfer;
use crate::process_manager::process_paging::walk;
use crate::sev::utils::VMPL1_RWX;

verus! {

/// Whether `t` is the machine `s` with a way of tables to `va` down to level
/// `l`: the page table stays sound, nothing else that is in use is changed, and
/// all pages are found where they were.
pub open spec fn led(s: MachineState, t: MachineState, root: u64, va: u64, l: int) -> bool {
    &&& soundness::sound(t, root)
    &&& soundness::others_kept(s, t, root)
    &&& soundness::reach(t, root, va, l)
    &&& forall|vb: u64| #[trigger]
        walk::leaf_below(t, root, vb, 3) == walk::leaf_below(s, root, vb, 3)
}

pub proof fn lemma_led(
    s: MachineState,
    t: MachineState,
    u: MachineState,
    root: u64,
    va: u64,
    l: int,
    k: int,
)
    requires
        led(s, t, root, va, l),
        led(t, u, root, va, k),
    ensures
        led(s, u, root, va, k),
{
    soundness::lemma_others_kept(s, t, u, root);
    assert forall|vb: u64| #[trigger]
        walk::leaf_below(u, root, vb, 3) == walk::leaf_below(s, root, vb, 3) by {
        assert(walk::leaf_below(u, root, vb, 3) == walk::leaf_below(t, root, vb, 3));
    }
}

/// An entry with other flags leads where it led.
proof fn lemma_reflagged(c_bit: u64, e: u64)
    requires
        entry::present(e),
    ensures
        entry::present(e | entry::TABLE_FLAGS),
        entry::strip(c_bit, e | entry::TABLE_FLAGS) == entry::strip(c_bit, e),
{
    assert((e | 0x27) & 0x1 == 0x1 && (e | 0x27) & 0x000F_FFFF_FFFF_F000 & !c_bit == e
        & 0x000F_FFFF_FFFF_F000 & !c_bit) by (bit_vector);
}

/// The way after an entry above it was written with other flags.
proof fn lemma_reflagged_way(
    s: MachineState,
    t: MachineState,
    root: u64,
    va: u64,
    l: int,
    vb: u64,
    k: int,
)
    requires
        soundness::sound(s, root),
        1 <= l <= 3,
        soundness::reach(s, root, va, l - 1),
        t.c_bit == s.c_bit,
        t.mem == machine::store_word(
            s.mem,
            soundness::tab(s, root, va, l),
            entry::table_index(va, l),
            walk::entry_in(s, soundness::tab(s, root, va, l), va, l as nat) | entry::TABLE_FLAGS,
        ),
        0 <= k <= 3,
    ensures
        soundness::reach(t, root, vb, k) == soundness::reach(s, root, vb, k),
        soundness::reach(s, root, vb, k) ==> soundness::tab(t, root, vb, k) == soundness::tab(
            s,
            root,
            vb,
            k,
        ),
    decreases 3 - k,
{
    if k < 3 {
        lemma_reflagged_way(s, t, root, va, l, vb, k + 1);
        if soundness::reach(s, root, vb, k + 1) {
            let top = soundness::tab(s, root, va, l);
            let idx = entry::table_index(va, l);
            let tb = soundness::tab(s, root, vb, k + 1);
            let i = entry::table_index(vb, k + 1);
            assert(soundness::reach(s, root, va, l));
            assert(soundness::is_page(s, top) && soundness::is_page(s, tb));
            if tb == top && i == idx {
                assert(k + 1 == l);
                lemma_reflagged(s.c_bit, s.rd(top, idx));
            } else {
                if tb != top {
                    soundness::lemma_words_apart(tb, top, i, idx);
                }
                assert(t.rd(tb, i) == s.rd(tb, i));
            }
        }
    }
}

/// What writing a table entry with other flags does: nothing but that.
proof fn lemma_reflagged_table(s: MachineState, root: u64, va: u64, l: int)
    requires
        soundness::sound(s, root),
        1 <= l <= 3,
        soundness::reach(s, root, va, l - 1),
    ensures
        ({
            let top = soundness::tab(s, root, va, l);
            let e = walk::entry_in(s, top, va, l as nat);
            let t = s.wr(top, entry::table_index(va, l), e | entry::TABLE_FLAGS);
            &&& led(s, t, root, va, l - 1)
            &&& soundness::tab(t, root, va, l) == top
            &&& soundness::tab(t, root, va, l - 1) == soundness::tab(s, root, va, l - 1)
        }),
{
    let top = soundness::tab(s, root, va, l);
    let idx = entry::table_index(va, l);
    let e = walk::entry_in(s, top, va, l as nat);
    let t = s.wr(top, idx, e | entry::TABLE_FLAGS);
    assert(soundness::reach(s, root, va, l));
    assert(soundness::is_page(s, top) && !soundness::in_pool(s.pool, top));
    assert forall|vb: u64, k: int| 0 <= k <= 3 implies #[trigger] soundness::reach(t, root, vb, k)
        == soundness::reach(s, root, vb, k) && (soundness::reach(s, root, vb, k) ==> soundness::tab(
        t,
        root,
        vb,
        k,
    ) == soundness::tab(s, root, vb, k)) by {
        lemma_reflagged_way(s, t, root, va, l, vb, k);
    }
    assert(soundness::pool_sound(t)) by {
        assert forall|pa: u64|
            pa % 4096 == 0 && #[trigger] soundness::in_region(t.pool, pa) implies soundness::is_page(
            t,
            pa,
        ) by {
            assert(soundness::in_region(s.pool, pa));
        }
    }
    assert(soundness::tables_kept(t, root)) by {
        assert forall|vb: u64, k: int|
            0 <= k <= 3 && #[trigger] soundness::reach(t, root, vb, k) implies soundness::is_page(
            t,
            soundness::tab(t, root, vb, k),
        ) && !soundness::in_pool(t.pool, soundness::tab(t, root, vb, k)) by {
            assert(soundness::reach(s, root, vb, k));
            assert(soundness::is_page(s, soundness::tab(s, root, vb, k)));
        }
    }
    assert(soundness::tables_tree(t, root)) by {
        assert forall|va1: u64, k1: int, vb1: u64, k2: int|
            0 <= k1 <= 3 && 0 <= k2 <= 3 && #[trigger] soundness::reach(t, root, va1, k1)
                && #[trigger] soundness::reach(t, root, vb1, k2) && soundness::tab(
                t,
                root,
                va1,
                k1,
            ) == soundness::tab(t, root, vb1, k2) implies k1 == k2 && soundness::same_way(
            va1,
            vb1,
            k1,
        ) by {
            assert(soundness::reach(s, root, va1, k1) && soundness::reach(s, root, vb1, k2));
        }
    }
    assert(soundness::is_table(s, root, top));
    assert(soundness::others_kept(s, t, root)) by {
        assert forall|pa: u64| #[trigger] soundness::is_table(t, root, pa) implies soundness::is_table(
            s,
            root,
            pa,
        ) by {
            let (vb, k) = choose|vb: u64, k: int|
                0 <= k <= 3 && #[trigger] soundness::reach(t, root, vb, k) && soundness::tab(
                    t,
                    root,
                    vb,
                    k,
                ) == pa;
            assert(soundness::reach(s, root, vb, k));
        }
        assert forall|pa: u64, i: int|
            pa % 4096 == 0 && 0 <= i < 512 && !soundness::in_pool(s.pool, pa)
                && !soundness::is_table(s, root, pa) implies #[trigger] t.rd(pa, i) == s.rd(pa, i) by {
            soundness::lemma_words_apart(pa, top, i, idx);
        }
    }
    assert forall|vb: u64| #[trigger]
        walk::leaf_below(t, root, vb, 3) == walk::leaf_below(s, root, vb, 3) by {
        soundness::lemma_leaf(s, root, vb);
        soundness::lemma_leaf(t, root, vb);
        assert(soundness::reach(t, root, vb, 0) == soundness::reach(s, root, vb, 0));
        if soundness::reach(s, root, vb, 0) {
            let tb = soundness::tab(s, root, vb, 0);
            assert(soundness::is_page(s, tb));
            assert(tb != top) by {
                if tb == top {
                    assert(0 == l);
                }
            }
            soundness::lemma_words_apart(tb, top, entry::table_index(vb, 0), idx);
        }
    }
    assert(soundness::reach(t, root, va, l - 1) == soundness::reach(s, root, va, l - 1));
    assert(soundness::reach(t, root, va, l) == soundness::reach(s, root, va, l));
}

/// The flags of an entry without its mark hold no part of an address.
proof fn lemma_unmarked_flags(e: u64)
    requires
        entry::present(e),
    ensures
        (entry::flags_of(e) & !0x200u64) & 0x000F_FFFF_FFFF_F000 == 0,
        (entry::flags_of(e) & !0x200u64) & 0x1 == 0x1,
{
    assert(((e & 0x8000_0000_0000_07FF) & !0x200u64) & 0x000F_FFFF_FFFF_F000 == 0 && (e & 0x1 == 0x1
        ==> ((e & 0x8000_0000_0000_07FF) & !0x200u64) & 0x1 == 0x1)) by (bit_vector);
}

/// What replacing a marked table by a copy does.
proof fn lemma_own_copy(s: MachineState, root: u64, va: u64, l: int)
    requires
        soundness::sound(s, root),
        1 <= l <= 3,
        soundness::reach(s, root, va, l - 1),
        s.pool.available() > 0,
        entry::cow(walk::entry_in(s, soundness::tab(s, root, va, l), va, l as nat)),
    ensures
        ({
            let top = soundness::tab(s, root, va, l);
            let t = region::own_table(s, top, va, l);
            &&& led(s, t, root, va, l - 1)
            &&& soundness::tab(t, root, va, l) == top
            &&& t.pool.available() == s.pool.available() - 1
        }),
{
    let top = soundness::tab(s, root, va, l);
    let idx = entry::table_index(va, l);
    let e = walk::entry_in(s, top, va, l as nat);
    let source = soundness::tab(s, root, va, l - 1);
    let t = region::own_table(s, top, va, l);
    assert(soundness::reach(s, root, va, l));
    assert(soundness::is_page(s, top) && !soundness::in_pool(s.pool, top));
    assert(soundness::is_page(s, source) && !soundness::in_pool(s.pool, source));
    assert(entry::present(e));
    let (u, page) = cow::copy_fresh(s, source);
    isolation::lemma_copy_fresh(s, source);
    assert(isolation::outside(s, u, 0));
    soundness::law_taken_page_is_fresh(s);
    assert(s.take_page().0.rd(top, idx) == e);
    isolation::lemma_copy_touches_one(s, source, top, idx);
    let flags = entry::flags_of(e) & !0x200u64;
    let bare = entry::entry_word(s.c_bit, page, flags);
    let word = bare | entry::TABLE_FLAGS;
    lemma_unmarked_flags(e);
    soundness::lemma_entry_leads(s.c_bit, page, flags);
    lemma_reflagged(s.c_bit, bare);
    let v = u.wr(top, idx, bare);
    assert(v.rd(top, idx) == bare);
    assert(t == v.wr(top, idx, word));
    assert(t.mem =~= machine::store_word(u.mem, top, idx, word));
    assert forall|pa: u64, i: int|
        #![trigger t.rd(pa, i)]
        pa % 4096 == 0 && 0 <= i < 512 implies t.rd(pa, i) == (if pa == top && i == idx {
        word
    } else if pa == page {
        s.rd(source, i)
    } else {
        s.rd(pa, i)
    }) by {
        if !(pa == top && i == idx) {
            if pa != top {
                soundness::lemma_words_apart(pa, top, i, idx);
            }
            assert(t.rd(pa, i) == u.rd(pa, i));
            if pa != page {
                isolation::lemma_copy_touches_one(s, source, pa, i);
            }
        }
    }
    assert(soundness::pool_sound(t)) by {
        assert forall|pa: u64|
            pa % 4096 == 0 && #[trigger] soundness::in_region(t.pool, pa) implies soundness::is_page(
            t,
            pa,
        ) by {
            assert(soundness::in_region(u.pool, pa));
        }
        assert forall|i: int| 0 <= i < t.pool.list.len() implies soundness::is_page(
            t,
            #[trigger] t.pool.list[i],
        ) && !(t.pool.base <= t.pool.list[i] < t.pool.limit) by {
            assert(t.pool.list[i] == u.pool.list[i]);
        }
    }
    assert(isolation::replaced_words(s, t, root, va, l, page, word));
    isolation::lemma_replaced(s, t, root, va, l, page, word);
    assert(soundness::reach(t, root, va, l - 1) == soundness::reach(s, root, va, l - 1));
    assert(soundness::is_table(s, root, top));
    assert(soundness::others_kept(s, t, root)) by {
        assert forall|pa: u64| #[trigger] soundness::is_table(t, root, pa) implies soundness::is_table(
            s,
            root,
            pa,
        ) || soundness::in_pool(s.pool, pa) by {
            let (vb, k) = choose|vb: u64, k: int|
                0 <= k <= 3 && #[trigger] soundness::reach(t, root, vb, k) && soundness::tab(
                    t,
                    root,
                    vb,
                    k,
                ) == pa;
            isolation::lemma_replaced_way(s, t, root, va, l, page, word, vb, k);
            assert(soundness::reach(s, root, vb, k));
        }
    }
}

/// The pages that giving an entry a table of the process's own takes.
pub open spec fn table_takes(s: MachineState, table: u64, va: u64, l: int) -> nat {
    let e = s.rd(table, entry::table_index(va, l));
    if !entry::present(e) || entry::cow(e) {
        1
    } else {
        0
    }
}

/// The pages that making all tables on the way to `va` the process's own takes.
pub open spec fn path_takes(s: MachineState, root: u64, va: u64) -> nat {
    let s3 = region::own_table(s, root, va, 3);
    let pud = entry::strip(s.c_bit, walk::entry_in(s3, root, va, 3));
    let s2 = region::own_table(s3, pud, va, 2);
    let pmd = entry::strip(s.c_bit, walk::entry_in(s2, pud, va, 2));
    table_takes(s, root, va, 3) + table_takes(s3, pud, va, 2) + table_takes(s2, pmd, va, 1)
}

/// What giving an entry a table of the process's own does.
proof fn lemma_own_table(s: MachineState, root: u64, va: u64, l: int)
    requires
        soundness::sound(s, root),
        1 <= l <= 3,
        soundness::reach(s, root, va, l),
        s.pool.available() >= table_takes(s, soundness::tab(s, root, va, l), va, l),
    ensures
        ({
            let top = soundness::tab(s, root, va, l);
            let t = region::own_table(s, top, va, l);
            &&& led(s, t, root, va, l - 1)
            &&& soundness::tab(t, root, va, l) == top
            &&& t.c_bit == s.c_bit
            &&& t.pool.available() == s.pool.available() - table_takes(s, top, va, l)
        }),
{
    let top = soundness::tab(s, root, va, l);
    let idx = entry::table_index(va, l);
    let e = walk::entry_in(s, top, va, l as nat);
    let t = region::own_table(s, top, va, l);
    if !entry::present(e) {
        soundness::lemma_hang(s, root, va, l as nat);
        let (u, fresh) = mapping::hang_table(s, top, va, l as nat);
        assert(t == (MachineState { ops: t.ops, ..u }));
        ranges::lemma_op_keeps(u, t, root);
        soundness::lemma_others_kept(s, u, t, root);
        assert(soundness::reach(t, root, va, l - 1) == soundness::reach(u, root, va, l - 1));
        assert(soundness::reach(u, root, va, l - 1));
        assert(soundness::reach(u, root, va, l));
        assert forall|vb: u64| #[trigger]
            walk::leaf_below(t, root, vb, 3) == walk::leaf_below(s, root, vb, 3) by {
            assert(walk::leaf_below(t, root, vb, 3) == walk::leaf_below(u, root, vb, 3));
        }
        assert(soundness::tab(u, root, va, l) == top);
        assert(soundness::tab(t, root, va, l) == soundness::tab(u, root, va, l));
    } else {
        assert(soundness::reach(s, root, va, l - 1));
        if entry::cow(e) {
            lemma_own_copy(s, root, va, l);
        } else {
            lemma_reflagged_table(s, root, va, l);
        }
    }
}

/// What making all tables on the way to an address the process's own does.
proof fn lemma_own_path(s: MachineState, root: u64, va: u64)
    requires
        soundness::sound(s, root),
        s.pool.available() >= path_takes(s, root, va),
    ensures
        ({
            let (t, table) = region::own_path(s, root, va);
            &&& led(s, t, root, va, 0)
            &&& table == soundness::tab(t, root, va, 0)
            &&& t.pool.available() == s.pool.available() - path_takes(s, root, va)
        }),
{
    reveal_with_fuel(soundness::tab, 4);
    reveal_with_fuel(soundness::reach, 4);
    let s3 = region::own_table(s, root, va, 3);
    lemma_own_table(s, root, va, 3);
    let pud = soundness::tab(s3, root, va, 2);
    assert(pud == entry::strip(s.c_bit, walk::entry_in(s3, root, va, 3)));
    let s2 = region::own_table(s3, pud, va, 2);
    lemma_own_table(s3, root, va, 2);
    let pmd = soundness::tab(s2, root, va, 1);
    assert(pmd == entry::strip(s.c_bit, walk::entry_in(s2, pud, va, 2)));
    let s1 = region::own_table(s2, pmd, va, 1);
    lemma_own_table(s2, root, va, 1);
    lemma_led(s, s3, s2, root, va, 2, 1);
    lemma_led(s, s2, s1, root, va, 1, 0);
}

/// The machine after a cleared page was put into the entry for `va` of a table
/// of pages.
pub open spec fn page_added(s: MachineState, table: u64, va: u64, flags: u64) -> MachineState {
    let (taken, page) = s.take_page();
    taken.zero(page).grant(page, VMPL1_RWX).wr(
        table,
        entry::table_index(va, 0),
        entry::entry_word(s.c_bit, page, flags),
    )
}

pub proof fn lemma_page_added(s: MachineState, root: u64, va: u64, flags: u64)
    requires
        soundness::sound(s, root),
        soundness::reach(s, root, va, 0),
        s.pool.available() > 0,
        soundness::page_flags(flags),
        flags & 0x1 == 0x1,
    ensures
        ({
            let table = soundness::tab(s, root, va, 0);
            let t = page_added(s, table, va, flags);
            let page = walk::translate(t, root, va);
            &&& soundness::sound(t, root)
            &&& soundness::others_kept(s, t, root)
            &&& soundness::reach(t, root, va, 0)
            &&& soundness::tab(t, root, va, 0) == table
            &&& t.pool.available() == s.pool.available() - 1
            &&& walk::leaf_below(t, root, va, 3) == Some(entry::entry_word(s.c_bit, page, flags))
            &&& soundness::in_pool(s.pool, page)
            &&& soundness::is_page(s, page)
            &&& !soundness::in_pool(t.pool, page)
            &&& !soundness::is_table(t, root, page)
            &&& machine::page_words(t.mem, page) =~= machine::zero_words()
            &&& t == region::hang_page(s, table, va, 0, flags)
            &&& !(t.pool.base <= page < t.pool.limit)
            &&& forall|vb: u64, k: int|
                0 <= k <= 3 && #[trigger] soundness::reach(s, root, vb, k) ==> soundness::reach(
                    t,
                    root,
                    vb,
                    k,
                ) && soundness::tab(t, root, vb, k) == soundness::tab(s, root, vb, k)
            &&& forall|vb: u64, k: int|
                0 <= k <= 3 && #[trigger] soundness::reach(t, root, vb, k) ==> soundness::reach(
                    s,
                    root,
                    vb,
                    k,
                )
            &&& forall|vb: u64|
                !soundness::same_page(va, vb) ==> #[trigger] walk::leaf_below(t, root, vb, 3)
                    == walk::leaf_below(s, root, vb, 3)
        }),
{
    let table = soundness::tab(s, root, va, 0);
    let t = page_added(s, table, va, flags);
    let (u, page) = s.take_page();
    soundness::law_taken_page_is_fresh(s);
    ranges::lemma_take_keeps_tables(s, root);
    let w = u.zero(page).grant(page, VMPL1_RWX);
    assert(w.mem =~= u.mem) by {
        assert forall|k: int| 0 <= k < u.mem.len() implies w.mem[k] == u.mem[k] by {
            let i = k - page as int / 8;
            if 0 <= i < 512 {
                assert(u.rd(page, i) == 0);
            }
        }
    }
    ranges::lemma_op_keeps(u, w, root);
    assert(soundness::reach(w, root, va, 0) == soundness::reach(u, root, va, 0));
    assert(soundness::reach(u, root, va, 0) == soundness::reach(s, root, va, 0));
    let word = entry::entry_word(s.c_bit, page, flags);
    soundness::lemma_set_leaf(w, t, root, va, word);
    soundness::lemma_entry_leads(s.c_bit, page, flags);
    assert forall|vb: u64, k: int| 0 <= k <= 3 && #[trigger] soundness::reach(s, root, vb, k) implies soundness::reach(
        t,
        root,
        vb,
        k,
    ) && soundness::tab(t, root, vb, k) == soundness::tab(s, root, vb, k) by {
        soundness::lemma_leaf_way(w, t, root, va, word, vb, k);
        assert(soundness::reach(u, root, vb, k) == soundness::reach(s, root, vb, k));
        assert(soundness::reach(w, root, vb, k) == soundness::reach(u, root, vb, k));
    }
    assert forall|vb: u64, k: int| 0 <= k <= 3 && #[trigger] soundness::reach(t, root, vb, k) implies soundness::reach(
        s,
        root,
        vb,
        k,
    ) by {
        soundness::lemma_leaf_way(w, t, root, va, word, vb, k);
        assert(soundness::reach(w, root, vb, k) == soundness::reach(u, root, vb, k));
        assert(soundness::reach(u, root, vb, k) == soundness::reach(s, root, vb, k));
    }
    soundness::lemma_others_kept(s, u, w, root);
    soundness::lemma_others_kept(s, w, t, root);
    assert(!soundness::in_pool(w.pool, page));
    assert(!(u.pool.base <= page < u.pool.limit)) by {
        if s.pool.list.len() > 0 {
            assert(s.pool.list[s.pool.list.len() - 1] == page);
        }
    }
    assert(!soundness::is_table(w, root, page)) by {
        if soundness::is_table(w, root, page) {
            assert(soundness::is_table(u, root, page) || soundness::in_pool(u.pool, page));
        }
    }
    assert(!soundness::is_table(t, root, page)) by {
        if soundness::is_table(t, root, page) {
            assert(soundness::is_table(w, root, page) || soundness::in_pool(w.pool, page));
        }
    }
    assert forall|i: int| 0 <= i < 512 implies #[trigger] machine::word_at(t.mem, page, i) == 0 by {
        assert(u.rd(page, i) == 0);
        assert(w.rd(page, i) == 0);
        assert(t.rd(page, i) == w.rd(page, i));
    }
    assert forall|vb: u64| !soundness::same_page(va, vb) implies #[trigger] walk::leaf_below(
        t,
        root,
        vb,
        3,
    ) == walk::leaf_below(s, root, vb, 3) by {
        assert(walk::leaf_below(w, root, vb, 3) == walk::leaf_below(u, root, vb, 3));
        assert(walk::leaf_below(u, root, vb, 3) == walk::leaf_below(s, root, vb, 3));
    }
}

/// The page above has the same tables, down to the one that it is not the first
/// page of.
proof fn lemma_next_page(va: u64)
    ensures
        ({
            let vb = address::page_above(va, 1);
            &&& entry::table_index(vb, 0) != 0 ==> soundness::same_way(va, vb, 0)
            &&& entry::table_index(vb, 1) != 0 ==> soundness::same_way(va, vb, 1)
            &&& entry::table_index(vb, 2) != 0 ==> soundness::same_way(va, vb, 2)
        }),
{
    let vb = address::page_above(va, 1);
    if va + 4096 < 0x1_0000_0000_0000_0000 {
        assert(vb == va + 4096);
        let p = va as int / 4096;
        assert(vb as int / 4096 == p + 1);
        let q = p / 512;
        let r = q / 512;
        assert(va as int / 0x20_0000 == q && vb as int / 0x20_0000 == (p + 1) / 512);
        assert(va as int / 0x4000_0000 == r && vb as int / 0x4000_0000 == (p + 1) / 512 / 512);
        assert(va as int / 0x80_0000_0000 == r / 512);
        assert(vb as int / 0x80_0000_0000 == (p + 1) / 512 / 512 / 512);
        if (p + 1) % 512 != 0 {
            assert((p + 1) / 512 == q);
        } else {
            assert((p + 1) / 512 == q + 1);
            if (q + 1) % 512 != 0 {
                assert((q + 1) / 512 == r);
            } else {
                assert((q + 1) / 512 == r + 1);
            }
        }
    } else {
        assert(vb < 4096);
    }
}

/// Whether the first `n` pages from `start` on were not there in `s` and are
/// cleared in `t`, with the given flags.
pub open spec fn cleared_run(
    s: MachineState,
    t: MachineState,
    root: u64,
    start: u64,
    n: int,
    flags: u64,
) -> bool {
    forall|i: int|
        0 <= i < n ==> {
            let va = #[trigger] address::page_above(start, i);
            let page = transfer::other_page(t, root, start, i);
            &&& walk::leaf_below(s, root, va, 3) is None
            &&& walk::leaf_below(t, root, va, 3) == Some(entry::entry_word(s.c_bit, page, flags))
            &&& machine::page_words(t.mem, page) =~= machine::zero_words()
        }
}

/// Whether all pages but the first `n` from `start` on are found in `t` where
/// they were in `s`.
pub open spec fn found_as_before(
    s: MachineState,
    t: MachineState,
    root: u64,
    start: u64,
    n: int,
) -> bool {
    forall|vb: u64|
        (forall|i: int|
            0 <= i < n ==> !soundness::same_page(#[trigger] address::page_above(start, i), vb))
            ==> #[trigger] walk::leaf_below(t, root, vb, 3) == walk::leaf_below(s, root, vb, 3)
}

/// The pages that a run of `n` pages takes: one for each of them, up to the
/// first one that is in the way, and those for the tables on the way to them.
pub open spec fn run_takes(
    s: MachineState,
    root: u64,
    va: u64,
    n: nat,
    flags: u64,
    pte: Option<u64>,
) -> nat
    decreases n,
{
    if n == 0 {
        0
    } else {
        let known = pte is Some && entry::table_index(va, 0) != 0;
        let (b, table) = match pte {
            Some(table) if entry::table_index(va, 0) != 0 => (s, table),
            _ => region::own_path(s, root, va),
        };
        let e = walk::entry_in(b, table, va, 0);
        (if known {
            0
        } else {
            path_takes(s, root, va)
        }) + (if entry::present(e) || entry::cow(e) {
            0
        } else {
            1 + run_takes(
                page_added(b, table, va, flags),
                root,
                address::page_above(va, 1),
                (n - 1) as nat,
                flags,
                Some(table),
            )
        })
    }
}

proof fn lemma_add_run(
    s: MachineState,
    root: u64,
    start: u64,
    n: nat,
    flags: u64,
    pte: Option<u64>,
)
    requires
        soundness::sound(s, root),
        n <= 0x10_0000_0000,
        s.pool.available() >= run_takes(s, root, start, n, flags, pte),
        soundness::page_flags(flags),
        flags & 0x1 == 0x1,
        pte is Some && entry::table_index(start, 0) != 0 ==> soundness::reach(s, root, start, 0)
            && pte->0 == soundness::tab(s, root, start, 0),
    ensures
        ({
            let (t, ok) = region::add_run(s, root, start, n, flags, pte);
            &&& soundness::sound(t, root)
            &&& soundness::others_kept(s, t, root)
            &&& found_as_before(s, t, root, start, n as int)
            &&& ok ==> ranges::fresh_run(s, t, root, start, n as int)
            &&& ok ==> cleared_run(s, t, root, start, n as int, flags)
        }),
    decreases n,
{
    if n > 0 {
        let (t, ok) = region::add_run(s, root, start, n, flags, pte);
        let (b, table) = match pte {
            Some(table) if entry::table_index(start, 0) != 0 => (s, table),
            _ => region::own_path(s, root, start),
        };
        if !(pte is Some && entry::table_index(start, 0) != 0) {
            lemma_own_path(s, root, start);
        }
        assert(led(s, b, root, start, 0) && table == soundness::tab(b, root, start, 0));
        let e = walk::entry_in(b, table, start, 0);
        assert(address::page_above(start, 0) == start);
        soundness::lemma_leaf(b, root, start);
        if !(entry::present(e) || entry::cow(e)) {
            let k = (n - 1) as nat;
            let w = page_added(b, table, start, flags);
            let next = address::page_above(start, 1);
            let first = walk::translate(w, root, start);
            lemma_page_added(b, root, start, flags);
            lemma_next_page(start);
            if entry::table_index(next, 0) != 0 {
                soundness::lemma_same_way(w, root, start, next, 0);
            }
            lemma_add_run(w, root, next, k, flags, Some(table));
            assert((t, ok) == region::add_run(w, root, next, k, flags, Some(table)));
            soundness::lemma_others_kept(s, b, w, root);
            soundness::lemma_others_kept(s, w, t, root);
            lemma_run_joined(s, w, t, root, start, k as int, flags, ok);
        }
    }
}

proof fn lemma_steps(start: u64, i: int)
    ensures
        address::page_above(address::page_above(start, 1), i) == address::page_above(start, i + 1),
{
    address::lemma_addr_add(start, 4096, i * 4096);
    assert((i + 1) * 4096 == 4096 + i * 4096);
}

/// What a page and the pages above it leave alone, the run of both does.
proof fn lemma_found_joined(
    s: MachineState,
    w: MachineState,
    t: MachineState,
    root: u64,
    start: u64,
    k: int,
)
    requires
        0 <= k < 0x10_0000_0000,
        forall|vb: u64|
            !soundness::same_page(start, vb) ==> #[trigger] walk::leaf_below(w, root, vb, 3)
                == walk::leaf_below(s, root, vb, 3),
        found_as_before(w, t, root, address::page_above(start, 1), k),
    ensures
        found_as_before(s, t, root, start, k + 1),
        walk::leaf_below(t, root, start, 3) == walk::leaf_below(w, root, start, 3),
{
    let next = address::page_above(start, 1);
    assert(address::page_above(start, 0) == start);
    assert forall|vb: u64|
        (forall|i: int|
            0 <= i < k + 1 ==> !soundness::same_page(#[trigger] address::page_above(start, i), vb)) implies #[trigger] walk::leaf_below(
        t,
        root,
        vb,
        3,
    ) == walk::leaf_below(s, root, vb, 3) by {
        assert(!soundness::same_page(address::page_above(start, 0), vb));
        assert forall|i: int| 0 <= i < k implies !soundness::same_page(
            #[trigger] address::page_above(next, i),
            vb,
        ) by {
            lemma_steps(start, i);
            assert(!soundness::same_page(address::page_above(start, i + 1), vb));
        }
        assert(walk::leaf_below(t, root, vb, 3) == walk::leaf_below(w, root, vb, 3));
    }
    assert forall|i: int| 0 <= i < k implies !soundness::same_page(
        #[trigger] address::page_above(next, i),
        start,
    ) by {
        lemma_steps(start, i);
        ranges::lemma_run_pages_differ(start, i + 1, 0);
    }
}

/// The pages above `start` are those from the page above it on.
proof fn lemma_pages_above(t: MachineState, root: u64, start: u64, i: int)
    ensures
        address::page_above(start, i) == address::page_above(address::page_above(start, 1), i - 1),
        transfer::other_page(t, root, start, i) == transfer::other_page(
            t,
            root,
            address::page_above(start, 1),
            i - 1,
        ),
{
    lemma_steps(start, i - 1);
}

/// A fresh page, and a run of fresh pages above it, are a run of fresh pages.
proof fn lemma_fresh_joined(
    s: MachineState,
    w: MachineState,
    t: MachineState,
    root: u64,
    start: u64,
    k: int,
)
    requires
        soundness::others_kept(s, w, root),
        walk::leaf_below(t, root, start, 3) is Some,
        soundness::in_pool(s.pool, walk::translate(t, root, start)),
        soundness::is_page(s, walk::translate(t, root, start)),
        !soundness::in_pool(w.pool, walk::translate(t, root, start)),
        !soundness::in_pool(t.pool, walk::translate(t, root, start)),
        !soundness::is_table(t, root, walk::translate(t, root, start)),
        ranges::fresh_run(w, t, root, address::page_above(start, 1), k),
    ensures
        ranges::fresh_run(s, t, root, start, k + 1),
{
    let next = address::page_above(start, 1);
    let first = walk::translate(t, root, start);
    assert(address::page_above(start, 0) == start);
    assert(transfer::other_page(t, root, start, 0) == first);
    assert forall|i: int| 0 <= i < k + 1 implies walk::leaf_below(
        t,
        root,
        #[trigger] address::page_above(start, i),
        3,
    ) is Some by {
        if i > 0 {
            lemma_pages_above(t, root, start, i);
            assert(walk::leaf_below(t, root, address::page_above(next, i - 1), 3) is Some);
        }
    }
    assert forall|i: int| 0 <= i < k + 1 implies {
        &&& soundness::in_pool(s.pool, #[trigger] transfer::other_page(t, root, start, i))
        &&& soundness::is_page(s, transfer::other_page(t, root, start, i))
        &&& !soundness::in_pool(t.pool, transfer::other_page(t, root, start, i))
        &&& !soundness::is_table(t, root, transfer::other_page(t, root, start, i))
    } by {
        if i > 0 {
            lemma_pages_above(t, root, start, i);
            let f = transfer::other_page(t, root, next, i - 1);
            assert(soundness::in_pool(w.pool, f));
            assert(soundness::in_pool(s.pool, f));
        }
    }
    assert forall|i: int, j: int| 0 <= i < k + 1 && 0 <= j < k + 1 && i != j implies #[trigger] transfer::other_page(
        t,
        root,
        start,
        i,
    ) != #[trigger] transfer::other_page(t, root, start, j) by {
        if i > 0 {
            lemma_pages_above(t, root, start, i);
            assert(soundness::in_pool(w.pool, transfer::other_page(t, root, next, i - 1)));
        }
        if j > 0 {
            lemma_pages_above(t, root, start, j);
            assert(soundness::in_pool(w.pool, transfer::other_page(t, root, next, j - 1)));
        }
    }
}

/// A cleared page, and a run of cleared pages above it, are a run of cleared
/// pages.
proof fn lemma_cleared_joined(
    s: MachineState,
    w: MachineState,
    t: MachineState,
    root: u64,
    start: u64,
    k: int,
    flags: u64,
)
    requires
        0 <= k < 0x10_0000_0000,
        w.c_bit == s.c_bit,
        walk::leaf_below(s, root, start, 3) is None,
        walk::leaf_below(t, root, start, 3) == Some(
            entry::entry_word(s.c_bit, walk::translate(t, root, start), flags),
        ),
        machine::page_words(t.mem, walk::translate(t, root, start)) =~= machine::zero_words(),
        forall|vb: u64|
            !soundness::same_page(start, vb) ==> #[trigger] walk::leaf_below(w, root, vb, 3)
                == walk::leaf_below(s, root, vb, 3),
        cleared_run(w, t, root, address::page_above(start, 1), k, flags),
    ensures
        cleared_run(s, t, root, start, k + 1, flags),
{
    let next = address::page_above(start, 1);
    assert(address::page_above(start, 0) == start);
    assert forall|i: int| 0 <= i < k + 1 implies {
        let va = #[trigger] address::page_above(start, i);
        let page = transfer::other_page(t, root, start, i);
        &&& walk::leaf_below(s, root, va, 3) is None
        &&& walk::leaf_below(t, root, va, 3) == Some(entry::entry_word(s.c_bit, page, flags))
        &&& machine::page_words(t.mem, page) =~= machine::zero_words()
    } by {
        if i > 0 {
            let vi = address::page_above(next, i - 1);
            lemma_pages_above(t, root, start, i);
            ranges::lemma_run_pages_differ(start, 0, i);
            assert(walk::leaf_below(w, root, vi, 3) == walk::leaf_below(s, root, vi, 3));
        }
    }
}

/// A page, and a run of pages above it, are a run.
proof fn lemma_run_joined(
    s: MachineState,
    w: MachineState,
    t: MachineState,
    root: u64,
    start: u64,
    k: int,
    flags: u64,
    ok: bool,
)
    requires
        0 <= k < 0x10_0000_0000,
        soundness::others_kept(s, w, root),
        soundness::others_kept(w, t, root),
        walk::leaf_below(s, root, start, 3) is None,
        walk::leaf_below(w, root, start, 3) == Some(
            entry::entry_word(s.c_bit, walk::translate(w, root, start), flags),
        ),
        soundness::in_pool(s.pool, walk::translate(w, root, start)),
        soundness::is_page(s, walk::translate(w, root, start)),
        !soundness::in_pool(w.pool, walk::translate(w, root, start)),
        !soundness::is_table(w, root, walk::translate(w, root, start)),
        machine::page_words(w.mem, walk::translate(w, root, start)) =~= machine::zero_words(),
        forall|vb: u64|
            !soundness::same_page(start, vb) ==> #[trigger] walk::leaf_below(w, root, vb, 3)
                == walk::leaf_below(s, root, vb, 3),
        found_as_before(w, t, root, address::page_above(start, 1), k),
        ok ==> ranges::fresh_run(w, t, root, address::page_above(start, 1), k),
        ok ==> cleared_run(w, t, root, address::page_above(start, 1), k, flags),
    ensures
        found_as_before(s, t, root, start, k + 1),
        ok ==> ranges::fresh_run(s, t, root, start, k + 1),
        ok ==> cleared_run(s, t, root, start, k + 1, flags),
{
    let first = walk::translate(w, root, start);
    lemma_found_joined(s, w, t, root, start, k);
    assert(walk::translate(t, root, start) == first);
    assert(!soundness::in_pool(t.pool, first));
    assert(!soundness::is_table(t, root, first));
    assert(machine::page_words(t.mem, first) =~= machine::page_words(w.mem, first)) by {
        assert forall|i: int| 0 <= i < 512 implies machine::word_at(t.mem, first, i)
            == machine::word_at(w.mem, first, i) by {
            assert(t.rd(first, i) == w.rd(first, i));
        }
    }
    if ok {
        lemma_fresh_joined(s, w, t, root, start, k);
        lemma_cleared_joined(s, w, t, root, start, k, flags);
    }
}

/// Memory that a process asked for consists of cleared pages of its own: where
/// it got what it asked for, none of the pages was there before, each of them
/// is a fresh one that no other address and no table has, it holds zeros, and
/// it has the flags that were asked for. Whether it got it or not, all other
/// pages are found where they were, and nothing else that is in use is changed
/// but the tables of the process.
pub proof fn law_added_pages_belong_to_the_process(
    s: MachineState,
    root: u64,
    start: u64,
    n: nat,
    flags: u64,
)
    requires
        soundness::sound(s, root),
        n <= 0x10_0000_0000,
        s.pool.available() >= run_takes(s, root, start, n, flags, None),
        soundness::page_flags(flags),
        flags & 0x1 == 0x1,
    ensures
        ({
            let (t, ok) = region::add_run(s, root, start, n, flags, None);
            &&& soundness::sound(t, root)
            &&& soundness::others_kept(s, t, root)
            &&& found_as_before(s, t, root, start, n as int)
            &&& ok ==> ranges::fresh_run(s, t, root, start, n as int)
            &&& ok ==> cleared_run(s, t, root, start, n as int, flags)
        }),
{
    lemma_add_run(s, root, start, n, flags, None);
}

/// Ways depend on memory only.
pub proof fn lemma_same_tables(s: MachineState, t: MachineState, root: u64, va: u64, l: int)
    requires
        t.mem == s.mem,
        t.c_bit == s.c_bit,
        0 <= l <= 3,
    ensures
        soundness::reach(t, root, va, l) == soundness::reach(s, root, va, l),
        soundness::tab(t, root, va, l) == soundness::tab(s, root, va, l),
    decreases 3 - l,
{
    if l < 3 {
        lemma_same_tables(s, t, root, va, l + 1);
    }
}

/// Whether a page can be freed: it is a page in use, and no table.
pub open spec fn can_be_freed(s: MachineState, root: u64, page: u64) -> bool {
    &&& soundness::is_page(s, page)
    &&& !soundness::in_pool(s.pool, page)
    &&& !(s.pool.base <= page < s.pool.limit)
    &&& !soundness::is_table(s, root, page)
}

/// What freeing a page that is no table does to a page table: nothing.
proof fn lemma_released(s: MachineState, root: u64, page: u64)
    requires
        soundness::sound(s, root),
        can_be_freed(s, root, page),
    ensures
        ({
            let t = s.release(page);
            &&& soundness::sound(t, root)
            &&& forall|vb: u64, k: int|
                0 <= k <= 3 ==> #[trigger] soundness::reach(t, root, vb, k) == soundness::reach(
                    s,
                    root,
                    vb,
                    k,
                )
            &&& forall|vb: u64, k: int|
                0 <= k <= 3 ==> #[trigger] soundness::tab(t, root, vb, k) == soundness::tab(
                    s,
                    root,
                    vb,
                    k,
                )
            &&& forall|vb: u64| #[trigger]
                walk::leaf_below(t, root, vb, 3) == walk::leaf_below(s, root, vb, 3)
        }),
{
    let t = s.release(page);
    soundness::law_freeing_keeps_pool_sound(s, page);
    assert forall|vb: u64, k: int| 0 <= k <= 3 implies #[trigger] soundness::reach(t, root, vb, k)
        == soundness::reach(s, root, vb, k) by {
        lemma_same_tables(s, t, root, vb, k);
    }
    assert forall|vb: u64, k: int| 0 <= k <= 3 implies #[trigger] soundness::tab(t, root, vb, k)
        == soundness::tab(s, root, vb, k) by {
        lemma_same_tables(s, t, root, vb, k);
    }
    assert(soundness::tables_kept(t, root)) by {
        assert forall|vb: u64, k: int|
            0 <= k <= 3 && #[trigger] soundness::reach(t, root, vb, k) implies soundness::is_page(
            t,
            soundness::tab(t, root, vb, k),
        ) && !soundness::in_pool(t.pool, soundness::tab(t, root, vb, k)) by {
            let table = soundness::tab(t, root, vb, k);
            assert(soundness::reach(s, root, vb, k));
            assert(soundness::tab(s, root, vb, k) == table);
            assert(soundness::is_table(s, root, table));
            assert(!soundness::in_pool(s.pool, table));
            if t.pool.list.contains(table) {
                let i = choose|i: int| 0 <= i < t.pool.list.len() && t.pool.list[i] == table;
                assert(i < s.pool.list.len());
                assert(s.pool.list[i] == table);
            }
        }
    }
    assert(soundness::tables_tree(t, root)) by {
        assert forall|va: u64, l: int, vb: u64, k: int|
            0 <= l <= 3 && 0 <= k <= 3 && #[trigger] soundness::reach(t, root, va, l)
                && #[trigger] soundness::reach(t, root, vb, k) && soundness::tab(t, root, va, l)
                == soundness::tab(t, root, vb, k) implies l == k && soundness::same_way(va, vb, l) by {
            assert(soundness::reach(s, root, va, l) && soundness::reach(s, root, vb, k));
            assert(soundness::tab(s, root, va, l) == soundness::tab(s, root, vb, k));
        }
    }
    assert forall|vb: u64| #[trigger]
        walk::leaf_below(t, root, vb, 3) == walk::leaf_below(s, root, vb, 3) by {
        soundness::lemma_leaf(s, root, vb);
        soundness::lemma_leaf(t, root, vb);
        lemma_same_tables(s, t, root, vb, 0);
    }
}

/// Whether `t` is the machine `s` with other words in the tables below a root
/// only, and with no other tables.
pub open spec fn tables_only(s: MachineState, t: MachineState, root: u64) -> bool {
    &&& t.c_bit == s.c_bit
    &&& t.cr3 == s.cr3
    &&& t.mem.len() == s.mem.len()
    &&& forall|pa: u64| #[trigger] soundness::is_table(t, root, pa) ==> soundness::is_table(s, root, pa)
    &&& forall|pa: u64, i: int|
        pa % 4096 == 0 && 0 <= i < 512 && !soundness::is_table(s, root, pa) ==> #[trigger] t.rd(pa, i)
            == s.rd(pa, i)
}

/// The machine after the page at `va` was freed and its entry cleared.
pub open spec fn page_removed(s: MachineState, root: u64, va: u64) -> MachineState {
    s.release(walk::translate(s, root, va)).wr(
        soundness::tab(s, root, va, 0),
        entry::table_index(va, 0),
        0,
    )
}

proof fn lemma_page_removed(s: MachineState, root: u64, va: u64)
    requires
        soundness::sound(s, root),
        walk::leaf_below(s, root, va, 3) is Some,
        can_be_freed(s, root, walk::translate(s, root, va)),
    ensures
        ({
            let t = page_removed(s, root, va);
            &&& soundness::sound(t, root)
            &&& tables_only(s, t, root)
            &&& soundness::reach(t, root, va, 0)
            &&& soundness::tab(t, root, va, 0) == soundness::tab(s, root, va, 0)
            &&& soundness::tab(t, root, va, 1) == soundness::tab(s, root, va, 1)
            &&& soundness::tab(t, root, va, 2) == soundness::tab(s, root, va, 2)
            &&& walk::leaf_below(t, root, va, 3) is None
            &&& forall|vb: u64|
                !soundness::same_page(va, vb) ==> #[trigger] walk::leaf_below(t, root, vb, 3)
                    == walk::leaf_below(s, root, vb, 3)
        }),
{
    let t = page_removed(s, root, va);
    let page = walk::translate(s, root, va);
    let u = s.release(page);
    soundness::lemma_leaf(s, root, va);
    lemma_released(s, root, page);
    assert(soundness::reach(u, root, va, 0));
    assert(soundness::tab(u, root, va, 0) == soundness::tab(s, root, va, 0));
    assert(!entry::present(0)) by {
        entry::lemma_empty();
    }
    soundness::lemma_set_leaf(u, t, root, va, 0);
    let table = soundness::tab(s, root, va, 0);
    assert forall|vb: u64, k: int| 0 <= k <= 3 implies #[trigger] soundness::reach(t, root, vb, k)
        == soundness::reach(s, root, vb, k) && (soundness::reach(s, root, vb, k) ==> soundness::tab(
        t,
        root,
        vb,
        k,
    ) == soundness::tab(s, root, vb, k)) by {
        soundness::lemma_leaf_way(u, t, root, va, 0, vb, k);
        assert(soundness::reach(u, root, vb, k) == soundness::reach(s, root, vb, k));
        assert(soundness::tab(u, root, vb, k) == soundness::tab(s, root, vb, k));
    }
    reveal_with_fuel(soundness::reach, 4);
    assert(soundness::reach(s, root, va, 1) && soundness::reach(s, root, va, 2));
    assert(soundness::reach(t, root, va, 1) && soundness::reach(t, root, va, 2));
    assert(soundness::is_table(s, root, table));
    assert(tables_only(s, t, root)) by {
        assert forall|pa: u64| #[trigger] soundness::is_table(t, root, pa) implies soundness::is_table(
            s,
            root,
            pa,
        ) by {
            let (vb, k) = choose|vb: u64, k: int|
                0 <= k <= 3 && #[trigger] soundness::reach(t, root, vb, k) && soundness::tab(
                    t,
                    root,
                    vb,
                    k,
                ) == pa;
            assert(soundness::reach(s, root, vb, k));
        }
        assert forall|pa: u64, i: int|
            pa % 4096 == 0 && 0 <= i < 512 && !soundness::is_table(s, root, pa) implies #[trigger] t.rd(
            pa,
            i,
        ) == s.rd(pa, i) by {
            assert(soundness::is_page(s, table)) by {
                assert(soundness::reach(s, root, va, 0));
            }
            soundness::lemma_words_apart(pa, table, i, entry::table_index(va, 0));
        }
    }
    assert forall|vb: u64| !soundness::same_page(va, vb) implies #[trigger] walk::leaf_below(
        t,
        root,
        vb,
        3,
    ) == walk::leaf_below(s, root, vb, 3) by {
        assert(walk::leaf_below(u, root, vb, 3) == walk::leaf_below(s, root, vb, 3));
    }
}

/// The frames of the first `n` pages from `start` on.
pub open spec fn frames(s: MachineState, root: u64, start: u64, n: nat) -> Seq<u64> {
    Seq::new(n, |i: int| transfer::other_page(s, root, start, i))
}

/// Whether the first `n` pages from `start` on are there and can be freed, each
/// of them once.
pub open spec fn run_can_be_freed(s: MachineState, root: u64, start: u64, n: int) -> bool {
    &&& forall|i: int|
        0 <= i < n ==> walk::leaf_below(s, root, #[trigger] address::page_above(start, i), 3) is Some
    &&& forall|i: int|
        0 <= i < n ==> can_be_freed(s, root, #[trigger] transfer::other_page(s, root, start, i))
    &&& forall|i: int, j: int|
        0 <= i < n && 0 <= j < n && i != j ==> #[trigger] transfer::other_page(s, root, start, i)
            != #[trigger] transfer::other_page(s, root, start, j)
}

/// Whether what is known of the tables on the way to a page is so.
spec fn path_known(s: MachineState, root: u64, va: u64, last: Option<PagePath>) -> bool {
    last matches Some(path) ==> {
        &&& entry::table_index(va, 0) != 0 ==> path.pte == soundness::tab(s, root, va, 0)
        &&& entry::table_index(va, 0) != 0 || entry::table_index(va, 1) != 0 ==> path.pmd
            == soundness::tab(s, root, va, 1)
        &&& entry::table_index(va, 0) != 0 || entry::table_index(va, 1) != 0
            || entry::table_index(va, 2) != 0 ==> path.pud == soundness::tab(s, root, va, 2)
    }
}

/// The path to a page is made of the tables on the way to it.
proof fn lemma_path(s: MachineState, root: u64, va: u64, last: Option<PagePath>)
    requires
        path_known(s, root, va, last),
    ensures
        ({
            let path = teardown::page_path(s, root, va, last);
            &&& path.pud == soundness::tab(s, root, va, 2)
            &&& path.pmd == soundness::tab(s, root, va, 1)
            &&& path.pte == soundness::tab(s, root, va, 0)
        }),
{
    reveal_with_fuel(soundness::tab, 4);
}

/// The path to a page is known for the page above.
proof fn lemma_path_above(s: MachineState, root: u64, va: u64, path: PagePath)
    requires
        path.pud == soundness::tab(s, root, va, 2),
        path.pmd == soundness::tab(s, root, va, 1),
        path.pte == soundness::tab(s, root, va, 0),
    ensures
        path_known(s, root, address::page_above(va, 1), Some(path)),
{
    let next = address::page_above(va, 1);
    lemma_next_page(va);
    if entry::table_index(next, 0) != 0 {
        soundness::lemma_same_way(s, root, va, next, 0);
    }
    if entry::table_index(next, 0) != 0 || entry::table_index(next, 1) != 0 {
        soundness::lemma_same_way(s, root, va, next, 1);
    }
    if entry::table_index(next, 0) != 0 || entry::table_index(next, 1) != 0 || entry::table_index(
        next,
        2,
    ) != 0 {
        soundness::lemma_same_way(s, root, va, next, 2);
    }
}

/// What freeing the pages of a run does.
spec fn run_removed(s: MachineState, t: MachineState, root: u64, start: u64, n: nat) -> bool {
    &&& soundness::sound(t, root)
    &&& tables_only(s, t, root)
    &&& t.pool == (PoolState { list: s.pool.list + frames(s, root, start, n), ..s.pool })
    &&& found_as_before(s, t, root, start, n as int)
    &&& forall|i: int|
        0 <= i < n ==> walk::leaf_below(t, root, #[trigger] address::page_above(start, i), 3) is None
}

proof fn lemma_lists_joined(list: Seq<u64>, first: u64, rest: Seq<u64>)
    ensures
        list.push(first) + rest == list + (seq![first] + rest),
{
    assert(list.push(first) + rest =~= list + (seq![first] + rest));
}

proof fn lemma_tables_only(s: MachineState, w: MachineState, t: MachineState, root: u64)
    requires
        tables_only(s, w, root),
        tables_only(w, t, root),
    ensures
        tables_only(s, t, root),
{
    assert forall|pa: u64, i: int|
        pa % 4096 == 0 && 0 <= i < 512 && !soundness::is_table(s, root, pa) implies #[trigger] t.rd(
        pa,
        i,
    ) == s.rd(pa, i) by {
        assert(!soundness::is_table(w, root, pa));
        assert(w.rd(pa, i) == s.rd(pa, i));
    }
}

proof fn lemma_none_joined(t: MachineState, root: u64, start: u64, k: int)
    requires
        walk::leaf_below(t, root, start, 3) is None,
        forall|i: int|
            0 <= i < k ==> walk::leaf_below(
                t,
                root,
                #[trigger] address::page_above(address::page_above(start, 1), i),
                3,
            ) is None,
    ensures
        forall|i: int|
            0 <= i < k + 1 ==> walk::leaf_below(
                t,
                root,
                #[trigger] address::page_above(start, i),
                3,
            ) is None,
{
    let next = address::page_above(start, 1);
    assert(address::page_above(start, 0) == start);
    assert forall|i: int| 0 <= i < k + 1 implies walk::leaf_below(
        t,
        root,
        #[trigger] address::page_above(start, i),
        3,
    ) is None by {
        if i > 0 {
            lemma_steps(start, i - 1);
            assert(walk::leaf_below(t, root, address::page_above(next, i - 1), 3) is None);
        }
    }
}

/// Freeing a page, and the pages above it, frees the run of both.
proof fn lemma_removed_joined(
    s: MachineState,
    w: MachineState,
    t: MachineState,
    root: u64,
    start: u64,
    k: nat,
)
    requires
        k < 0x10_0000_0000,
        frames(s, root, start, k + 1) == seq![transfer::other_page(s, root, start, 0)] + frames(
            w,
            root,
            address::page_above(start, 1),
            k,
        ),
        tables_only(s, w, root),
        w.pool == (PoolState {
            list: s.pool.list.push(transfer::other_page(s, root, start, 0)),
            ..s.pool
        }),
        walk::leaf_below(w, root, start, 3) is None,
        forall|vb: u64|
            !soundness::same_page(start, vb) ==> #[trigger] walk::leaf_below(w, root, vb, 3)
                == walk::leaf_below(s, root, vb, 3),
        run_removed(w, t, root, address::page_above(start, 1), k),
    ensures
        run_removed(s, t, root, start, k + 1),
{
    let next = address::page_above(start, 1);
    lemma_found_joined(s, w, t, root, start, k as int);
    lemma_lists_joined(
        s.pool.list,
        transfer::other_page(s, root, start, 0),
        frames(w, root, next, k),
    );
    lemma_tables_only(s, w, t, root);
    lemma_none_joined(t, root, start, k as int);
}

proof fn lemma_remove_run(
    s: MachineState,
    root: u64,
    start: u64,
    n: nat,
    last: Option<PagePath>,
)
    requires
        soundness::sound(s, root),
        n <= 0x10_0000_0000,
        run_can_be_freed(s, root, start, n as int),
        path_known(s, root, start, last),
    ensures
        run_removed(s, teardown::pages_removed(s, root, start, n, last), root, start, n),
    decreases n,
{
    let t = teardown::pages_removed(s, root, start, n, last);
    if n == 0 {
        assert(t.pool.list =~= s.pool.list + frames(s, root, start, n));
    } else {
        let k = (n - 1) as nat;
        let path = teardown::page_path(s, root, start, last);
        let next = address::page_above(start, 1);
        let w = page_removed(s, root, start);
        assert(address::page_above(start, 0) == start);
        assert(can_be_freed(s, root, transfer::other_page(s, root, start, 0)));
        assert(walk::leaf_below(s, root, address::page_above(start, 0), 3) is Some);
        lemma_path(s, root, start, last);
        soundness::lemma_leaf(s, root, start);
        assert(t == teardown::pages_removed(w, root, next, k, Some(path)));
        lemma_page_removed(s, root, start);
        lemma_path_above(w, root, start, path);
        lemma_rest_can_be_freed(s, w, root, start, k as int);
        lemma_remove_run(w, root, next, k, Some(path));
        lemma_removed_joined(s, w, t, root, start, k);
    }
}

/// When the first page of a run was freed, the others still can be.
proof fn lemma_rest_can_be_freed(s: MachineState, w: MachineState, root: u64, start: u64, k: int)
    requires
        0 <= k < 0x10_0000_0000,
        run_can_be_freed(s, root, start, k + 1),
        tables_only(s, w, root),
        w.pool == (PoolState {
            list: s.pool.list.push(transfer::other_page(s, root, start, 0)),
            ..s.pool
        }),
        forall|vb: u64|
            !soundness::same_page(start, vb) ==> #[trigger] walk::leaf_below(w, root, vb, 3)
                == walk::leaf_below(s, root, vb, 3),
    ensures
        run_can_be_freed(w, root, address::page_above(start, 1), k),
        frames(s, root, start, (k + 1) as nat) == seq![transfer::other_page(s, root, start, 0)]
            + frames(w, root, address::page_above(start, 1), k as nat),
{
    let next = address::page_above(start, 1);
    assert(address::page_above(start, 0) == start);
    assert forall|i: int| 0 <= i < k implies walk::leaf_below(
        w,
        root,
        #[trigger] address::page_above(next, i),
        3,
    ) is Some && transfer::other_page(w, root, next, i) == transfer::other_page(
        s,
        root,
        start,
        i + 1,
    ) by {
        lemma_steps(start, i);
        ranges::lemma_run_pages_differ(start, 0, i + 1);
        assert(walk::leaf_below(s, root, address::page_above(start, i + 1), 3) is Some);
        assert(walk::leaf_below(w, root, address::page_above(next, i), 3) == walk::leaf_below(
            s,
            root,
            address::page_above(start, i + 1),
            3,
        ));
    }
    assert forall|i: int| 0 <= i < k implies #[trigger] transfer::other_page(w, root, next, i)
        == transfer::other_page(s, root, start, i + 1) by {
        let vi = address::page_above(next, i);
    }
    assert(frames(s, root, start, (k + 1) as nat) =~= seq![transfer::other_page(s, root, start, 0)]
        + frames(w, root, next, k as nat)) by {
        assert forall|i: int| 1 <= i < k + 1 implies transfer::other_page(s, root, start, i)
            == #[trigger] frames(w, root, next, k as nat)[i - 1] by {
            assert(transfer::other_page(w, root, next, i - 1) == transfer::other_page(
                s,
                root,
                start,
                i,
            ));
        }
    }
    assert forall|i: int| 0 <= i < k implies can_be_freed(
        w,
        root,
        #[trigger] transfer::other_page(w, root, next, i),
    ) by {
        let f = transfer::other_page(s, root, start, i + 1);
        assert(can_be_freed(s, root, f));
        assert(f != transfer::other_page(s, root, start, 0));
        if w.pool.list.contains(f) {
            let j = choose|j: int| 0 <= j < w.pool.list.len() && w.pool.list[j] == f;
            assert(s.pool.list[j] == f);
        }
    }
    assert forall|i: int, j: int| 0 <= i < k && 0 <= j < k && i != j implies #[trigger] transfer::other_page(
        w,
        root,
        next,
        i,
    ) != #[trigger] transfer::other_page(w, root, next, j) by {
        assert(transfer::other_page(s, root, start, i + 1) != transfer::other_page(
            s,
            root,
            start,
            j + 1,
        ));
    }
}

/// Memory that a process gives back is the process's no more: none of its pages
/// is found, all of them can be handed out again, and all other pages are found
/// where they were, with what they held.
pub proof fn law_removed_pages_are_freed(s: MachineState, root: u64, start: u64, n: nat)
    requires
        soundness::sound(s, root),
        n <= 0x10_0000_0000,
        run_can_be_freed(s, root, start, n as int),
    ensures
        ({
            let t = teardown::pages_removed(s, root, start, n, None);
            &&& soundness::sound(t, root)
            &&& tables_only(s, t, root)
            &&& t.pool == (PoolState {
                list: s.pool.list + frames(s, root, start, n),
                ..s.pool
            })
            &&& found_as_before(s, t, root, start, n as int)
            &&& forall|i: int|
                0 <= i < n ==> walk::leaf_below(t, root, #[trigger] address::page_above(start, i), 3)
                    is None
        }),
{
    lemma_remove_run(s, root, start, n, None);
}

/// Whether what is known of the tables of a page is so.
pub open spec fn run_known(s: MachineState, root: u64, va: u64, last: Option<RunTables>) -> bool {
    last matches Some(tables) ==> {
        &&& entry::table_index(va, 0) != 0 ==> {
            &&& soundness::reach(s, root, va, 0)
            &&& tables.pte == soundness::tab(s, root, va, 0)
        }
        &&& entry::table_index(va, 1) != 0 ==> {
            &&& soundness::reach(s, root, va, 1)
            &&& tables.pud == soundness::tab(s, root, va, 2)
        }
        &&& entry::table_index(va, 2) != 0 ==> soundness::reach(s, root, va, 2)
    }
}

/// Whether the page at `va` is there in `t`: as it was where it was there in
/// `s`, and else as a cleared page that could be handed out in `s`.
pub open spec fn filled_page(s: MachineState, t: MachineState, root: u64, va: u64, flags: u64) -> bool {
    let page = walk::translate(t, root, va);
    if walk::leaf_below(s, root, va, 3) is Some {
        walk::leaf_below(t, root, va, 3) == walk::leaf_below(s, root, va, 3)
    } else {
        &&& walk::leaf_below(t, root, va, 3) == Some(entry::entry_word(s.c_bit, page, flags))
        &&& soundness::in_pool(s.pool, page)
        &&& !soundness::in_pool(t.pool, page)
        &&& !soundness::is_table(t, root, page)
        &&& machine::page_words(t.mem, page) =~= machine::zero_words()
    }
}

/// Whether that holds of the first `n` pages from `start` on.
pub open spec fn filled_run(
    s: MachineState,
    t: MachineState,
    root: u64,
    start: u64,
    n: int,
    flags: u64,
) -> bool {
    forall|i: int|
        0 <= i < n ==> filled_page(s, t, root, #[trigger] address::page_above(start, i), flags)
}

/// Whether the pages among the first `n` from `start` on that were missing in
/// `s` are found at different frames in `t`.
pub open spec fn filled_apart(
    s: MachineState,
    t: MachineState,
    root: u64,
    start: u64,
    n: int,
) -> bool {
    forall|i: int, j: int|
        #![trigger transfer::other_page(t, root, start, i), transfer::other_page(t, root, start, j)]
        0 <= i < n && 0 <= j < n && i != j && walk::leaf_below(
            s,
            root,
            address::page_above(start, i),
            3,
        ) is None && walk::leaf_below(s, root, address::page_above(start, j), 3) is None
            ==> transfer::other_page(t, root, start, i) != transfer::other_page(t, root, start, j)
}

/// The machine after the page at `va` was completed, and the tables that it is
/// in.
pub open spec fn page_completed(
    s: MachineState,
    root: u64,
    va: u64,
    flags: u64,
    last: Option<RunTables>,
) -> (MachineState, RunTables) {
    let (b, tables) = match last {
        Some(tables) if entry::table_index(va, 0) != 0 => (s, tables),
        _ => region::run_tables(s, root, va, last),
    };
    (region::fill_entry(b, tables.pte, va, 0, flags), tables)
}

/// The pages that completing the page at `va` takes: one for each table that is
/// missing on the way to it, and one for the page where it is missing.
pub open spec fn page_missing(s: MachineState, root: u64, va: u64) -> int {
    balance::tables_missing(s, root, va) + balance::missing(
        walk::leaf_below(s, root, va, 3) is Some,
    )
}

/// The pages that completing a run of pages takes.
pub open spec fn fill_takes(
    s: MachineState,
    root: u64,
    va: u64,
    n: nat,
    flags: u64,
    last: Option<RunTables>,
) -> int
    decreases n,
{
    if n == 0 {
        0
    } else {
        let (w, tables) = page_completed(s, root, va, flags, last);
        page_missing(s, root, va) + fill_takes(
            w,
            root,
            address::page_above(va, 1),
            (n - 1) as nat,
            flags,
            Some(tables),
        )
    }
}

proof fn lemma_fill_takes(
    s: MachineState,
    root: u64,
    va: u64,
    n: nat,
    flags: u64,
    last: Option<RunTables>,
)
    ensures
        fill_takes(s, root, va, n, flags, last) >= 0,
    decreases n,
{
    if n > 0 {
        let (w, tables) = page_completed(s, root, va, flags, last);
        lemma_fill_takes(
            w,
            root,
            address::page_above(va, 1),
            (n - 1) as nat,
            flags,
            Some(tables),
        );
    }
}

/// What completing one page does, with the tables on the way to it.
proof fn lemma_fill_page(
    s: MachineState,
    root: u64,
    va: u64,
    flags: u64,
    last: Option<RunTables>,
)
    requires
        soundness::sound(s, root),
        s.pool.available() >= page_missing(s, root, va),
        soundness::page_flags(flags),
        flags & 0x1 == 0x1,
        run_known(s, root, va, last),
        last is Some && entry::table_index(va, 0) != 0 ==> last->0.pud == soundness::tab(
            s,
            root,
            va,
            2,
        ),
    ensures
        ({
            let (w, tables) = page_completed(s, root, va, flags, last);
            &&& soundness::sound(w, root)
            &&& soundness::others_kept(s, w, root)
            &&& w.pool.available() == s.pool.available() - page_missing(s, root, va)
            &&& soundness::reach(w, root, va, 0)
            &&& tables.pte == soundness::tab(w, root, va, 0)
            &&& tables.pud == soundness::tab(w, root, va, 2)
            &&& filled_page(s, w, root, va, flags)
            &&& forall|vb: u64|
                !soundness::same_page(va, vb) ==> #[trigger] walk::leaf_below(w, root, vb, 3)
                    == walk::leaf_below(s, root, vb, 3)
        }),
{
    let known = last is Some && entry::table_index(va, 0) != 0;
    let (b, tables) = match last {
        Some(tables) if entry::table_index(va, 0) != 0 => (s, tables),
        _ => region::run_tables(s, root, va, last),
    };
    assert(soundness::reach(s, root, va, 1) ==> soundness::reach(s, root, va, 2));
    assert(soundness::reach(s, root, va, 0) ==> soundness::reach(s, root, va, 1));
    if !known {
        balance::lemma_tables_taken(s, root, va, last);
    }
    assert(led(s, b, root, va, 0) && tables.pte == soundness::tab(b, root, va, 0));
    assert(soundness::reach(b, root, va, 1));
    assert(soundness::reach(b, root, va, 2));
    let w = region::fill_entry(b, tables.pte, va, 0, flags);
    soundness::lemma_leaf(b, root, va);
    if entry::present(walk::entry_in(b, tables.pte, va, 0)) {
        assert(w == b);
        assert(filled_page(s, w, root, va, flags));
    } else {
        lemma_page_added(b, root, va, flags);
        let page = walk::translate(w, root, va);
        assert(walk::leaf_below(s, root, va, 3) is None);
        assert(soundness::in_pool(b.pool, page));
        assert(soundness::in_pool(s.pool, page));
        assert(filled_page(s, w, root, va, flags));
        soundness::lemma_others_kept(s, b, w, root);
    }
}

proof fn lemma_fill_run(
    s: MachineState,
    root: u64,
    start: u64,
    n: nat,
    flags: u64,
    last: Option<RunTables>,
)
    requires
        soundness::sound(s, root),
        n <= 0x10_0000_0000,
        s.pool.available() >= fill_takes(s, root, start, n, flags, last),
        soundness::page_flags(flags),
        flags & 0x1 == 0x1,
        run_known(s, root, start, last),
        last is Some && entry::table_index(start, 0) != 0 ==> last->0.pud == soundness::tab(
            s,
            root,
            start,
            2,
        ),
    ensures
        ({
            let t = region::fill_run(s, root, start, n, flags, last);
            &&& soundness::sound(t, root)
            &&& soundness::others_kept(s, t, root)
            &&& found_as_before(s, t, root, start, n as int)
            &&& filled_run(s, t, root, start, n as int, flags)
            &&& filled_apart(s, t, root, start, n as int)
        }),
    decreases n,
{
    let t = region::fill_run(s, root, start, n, flags, last);
    if n == 0 {
        assert(t == s);
    } else {
        let k = (n - 1) as nat;
        let (w, tables) = page_completed(s, root, start, flags, last);
        let next = address::page_above(start, 1);
        assert(t == region::fill_run(w, root, next, k, flags, Some(tables)));
        lemma_fill_takes(w, root, next, k, flags, Some(tables));
        lemma_fill_page(s, root, start, flags, last);
        lemma_known_above(w, root, start, tables);
        lemma_fill_run(w, root, next, k, flags, Some(tables));
        soundness::lemma_others_kept(s, w, t, root);
        lemma_found_joined(s, w, t, root, start, k as int);
        lemma_fill_joined(s, w, t, root, start, k as int, flags);
        lemma_apart_joined(s, w, t, root, start, k as int, flags);
    }
}

/// The tables of a page are known for the page above.
pub proof fn lemma_known_above(s: MachineState, root: u64, va: u64, tables: RunTables)
    requires
        soundness::reach(s, root, va, 0),
        tables.pte == soundness::tab(s, root, va, 0),
        tables.pud == soundness::tab(s, root, va, 2),
    ensures
        run_known(s, root, address::page_above(va, 1), Some(tables)),
        entry::table_index(address::page_above(va, 1), 0) != 0 ==> tables.pud == soundness::tab(
            s,
            root,
            address::page_above(va, 1),
            2,
        ),
{
    let next = address::page_above(va, 1);
    lemma_next_page(va);
    assert(soundness::reach(s, root, va, 1));
    assert(soundness::reach(s, root, va, 2));
    if entry::table_index(next, 0) != 0 {
        soundness::lemma_same_way(s, root, va, next, 0);
        soundness::lemma_same_way(s, root, va, next, 2);
    }
    if entry::table_index(next, 1) != 0 {
        soundness::lemma_same_way(s, root, va, next, 1);
        soundness::lemma_same_way(s, root, va, next, 2);
    }
    if entry::table_index(next, 2) != 0 {
        soundness::lemma_same_way(s, root, va, next, 2);
    }
}

/// A completed page, and a run of completed pages above it, are a run.
proof fn lemma_fill_joined(
    s: MachineState,
    w: MachineState,
    t: MachineState,
    root: u64,
    start: u64,
    k: int,
    flags: u64,
)
    requires
        0 <= k < 0x10_0000_0000,
        soundness::others_kept(s, w, root),
        soundness::others_kept(w, t, root),
        filled_page(s, w, root, start, flags),
        walk::leaf_below(t, root, start, 3) == walk::leaf_below(w, root, start, 3),
        forall|vb: u64|
            !soundness::same_page(start, vb) ==> #[trigger] walk::leaf_below(w, root, vb, 3)
                == walk::leaf_below(s, root, vb, 3),
        filled_run(w, t, root, address::page_above(start, 1), k, flags),
    ensures
        filled_run(s, t, root, start, k + 1, flags),
{
    let next = address::page_above(start, 1);
    let first = walk::translate(w, root, start);
    assert(address::page_above(start, 0) == start);
    assert(filled_page(s, t, root, start, flags)) by {
        if walk::leaf_below(s, root, start, 3) is None {
            entry::lemma_strip_bound(s.c_bit, walk::leaf_below(w, root, start, 3)->0);
            if soundness::in_pool(t.pool, first) {
                assert(soundness::in_pool(w.pool, first));
            }
            assert(!soundness::is_table(t, root, first));
            assert forall|j: int| 0 <= j < 512 implies machine::word_at(t.mem, first, j)
                == machine::word_at(w.mem, first, j) by {
                assert(t.rd(first, j) == w.rd(first, j));
            }
            assert(machine::page_words(t.mem, first) =~= machine::page_words(w.mem, first));
        }
    }
    assert forall|i: int| 0 <= i < k + 1 implies filled_page(
        s,
        t,
        root,
        #[trigger] address::page_above(start, i),
        flags,
    ) by {
        if i > 0 {
            let va = address::page_above(start, i);
            let page = walk::translate(t, root, va);
            lemma_steps(start, i - 1);
            assert(filled_page(w, t, root, address::page_above(next, i - 1), flags));
            ranges::lemma_run_pages_differ(start, 0, i);
            assert(walk::leaf_below(w, root, va, 3) == walk::leaf_below(s, root, va, 3));
            if walk::leaf_below(s, root, va, 3) is None {
                assert(soundness::in_pool(w.pool, page));
                assert(soundness::in_pool(s.pool, page));
            }
        }
    }
}

/// The frame of a completed page, and those of the pages above it, are
/// different.
proof fn lemma_apart_joined(
    s: MachineState,
    w: MachineState,
    t: MachineState,
    root: u64,
    start: u64,
    k: int,
    flags: u64,
)
    requires
        0 <= k < 0x10_0000_0000,
        t.c_bit == w.c_bit,
        filled_page(s, w, root, start, flags),
        walk::leaf_below(t, root, start, 3) == walk::leaf_below(w, root, start, 3),
        forall|vb: u64|
            !soundness::same_page(start, vb) ==> #[trigger] walk::leaf_below(w, root, vb, 3)
                == walk::leaf_below(s, root, vb, 3),
        filled_run(w, t, root, address::page_above(start, 1), k, flags),
        filled_apart(w, t, root, address::page_above(start, 1), k),
    ensures
        filled_apart(s, t, root, start, k + 1),
{
    let next = address::page_above(start, 1);
    assert(address::page_above(start, 0) == start);
    assert forall|i: int| 0 < i < k + 1 && walk::leaf_below(
        s,
        root,
        #[trigger] address::page_above(start, i),
        3,
    ) is None implies walk::leaf_below(w, root, address::page_above(next, i - 1), 3) is None
        && soundness::in_pool(w.pool, transfer::other_page(t, root, start, i))
        && transfer::other_page(t, root, start, i) == transfer::other_page(t, root, next, i - 1) by {
        let va = address::page_above(start, i);
        lemma_pages_above(t, root, start, i);
        ranges::lemma_run_pages_differ(start, 0, i);
        assert(walk::leaf_below(w, root, va, 3) == walk::leaf_below(s, root, va, 3));
        assert(filled_page(w, t, root, address::page_above(next, i - 1), flags));
    }
    assert forall|i: int, j: int|
        #![trigger transfer::other_page(t, root, start, i), transfer::other_page(t, root, start, j)]
        0 <= i < k + 1 && 0 <= j < k + 1 && i != j && walk::leaf_below(
            s,
            root,
            address::page_above(start, i),
            3,
        ) is None && walk::leaf_below(
            s,
            root,
            address::page_above(start, j),
            3,
        ) is None implies transfer::other_page(t, root, start, i) != transfer::other_page(
        t,
        root,
        start,
        j,
    ) by {
        if i > 0 && j > 0 {
            assert(transfer::other_page(t, root, next, i - 1) != transfer::other_page(
                t,
                root,
                next,
                j - 1,
            ));
        } else if i == 0 {
            assert(!soundness::in_pool(w.pool, transfer::other_page(t, root, start, 0)));
        } else {
            assert(!soundness::in_pool(w.pool, transfer::other_page(t, root, start, 0)));
        }
    }
}

/// A region that was completed has all of its pages: those that it had stay as
/// they were, the others are cleared pages, each of them another one. All pages
/// elsewhere are found where they were, and nothing else that is in use is
/// changed but the tables of the page table.
pub proof fn law_completed_region_has_all_pages(
    s: MachineState,
    root: u64,
    start: u64,
    n: nat,
    flags: u64,
)
    requires
        soundness::sound(s, root),
        n <= 0x10_0000_0000,
        s.pool.available() >= fill_takes(s, root, start, n, flags, None),
        soundness::page_flags(flags),
        flags & 0x1 == 0x1,
    ensures
        ({
            let t = region::fill_run(s, root, start, n, flags, None);
            &&& soundness::sound(t, root)
            &&& soundness::others_kept(s, t, root)
            &&& found_as_before(s, t, root, start, n as int)
            &&& filled_run(s, t, root, start, n as int, flags)
            &&& filled_apart(s, t, root, start, n as int)
        }),
{
    lemma_fill_run(s, root, start, n, flags, None);
}

/// Whether pages were handed out only: the region that is left is part of what
/// it was.
pub open spec fn handed_out(s: MachineState, t: MachineState) -> bool {
    t.pool.limit == s.pool.limit && t.pool.base >= s.pool.base
}

proof fn lemma_own_path_hands_out(s: MachineState, root: u64, va: u64)
    ensures
        handed_out(s, region::own_path(s, root, va).0),
{
    let s3 = region::own_table(s, root, va, 3);
    lemma_own_table_hands_out(s, root, va, 3);
    let pud = entry::strip(s.c_bit, walk::entry_in(s3, root, va, 3));
    let s2 = region::own_table(s3, pud, va, 2);
    lemma_own_table_hands_out(s3, pud, va, 2);
    let pmd = entry::strip(s.c_bit, walk::entry_in(s2, pud, va, 2));
    lemma_own_table_hands_out(s2, pmd, va, 1);
}

proof fn lemma_own_table_hands_out(s: MachineState, table: u64, va: u64, l: int)
    ensures
        handed_out(s, region::own_table(s, table, va, l)),
{
    assert(handed_out(s, s.take_page().0));
}

proof fn lemma_add_run_hands_out(
    s: MachineState,
    root: u64,
    start: u64,
    n: nat,
    flags: u64,
    pte: Option<u64>,
)
    ensures
        handed_out(s, region::add_run(s, root, start, n, flags, pte).0),
    decreases n,
{
    if n > 0 {
        let (b, table) = match pte {
            Some(table) if entry::table_index(start, 0) != 0 => (s, table),
            _ => region::own_path(s, root, start),
        };
        lemma_own_path_hands_out(s, root, start);
        assert(handed_out(b, b.take_page().0));
        let (taken, page) = b.take_page();
        lemma_add_run_hands_out(
            taken.zero(page).grant(page, VMPL1_RWX).wr(
                table,
                entry::table_index(start, 0),
                entry::entry_word(s.c_bit, page, flags),
            ),
            root,
            address::page_above(start, 1),
            (n - 1) as nat,
            flags,
            Some(table),
        );
    }
}

/// Whether the first `n` pages from `start` on lie outside of the region that is
/// left.
spec fn left_region(t: MachineState, root: u64, start: u64, n: int) -> bool {
    forall|i: int|
        0 <= i < n ==> !(t.pool.base <= #[trigger] transfer::other_page(t, root, start, i)
            < t.pool.limit)
}

proof fn lemma_left_joined(w: MachineState, t: MachineState, root: u64, start: u64, k: int)
    requires
        0 <= k,
        handed_out(w, t),
        !(w.pool.base <= walk::translate(w, root, start) < w.pool.limit),
        t.c_bit == w.c_bit,
        walk::leaf_below(t, root, start, 3) == walk::leaf_below(w, root, start, 3),
        left_region(t, root, address::page_above(start, 1), k),
    ensures
        left_region(t, root, start, k + 1),
{
    let next = address::page_above(start, 1);
    assert(address::page_above(start, 0) == start);
    assert forall|i: int| 0 <= i < k + 1 implies !(t.pool.base <= #[trigger] transfer::other_page(
        t,
        root,
        start,
        i,
    ) < t.pool.limit) by {
        if i > 0 {
            lemma_steps(start, i - 1);
            assert(transfer::other_page(t, root, start, i) == transfer::other_page(
                t,
                root,
                next,
                i - 1,
            ));
        } else {
            assert(transfer::other_page(t, root, start, 0) == walk::translate(w, root, start));
        }
    }
}

/// Pages that were added lie outside of the region that is left.
proof fn lemma_added_left_region(
    s: MachineState,
    root: u64,
    start: u64,
    n: nat,
    flags: u64,
    pte: Option<u64>,
)
    requires
        soundness::sound(s, root),
        n <= 0x10_0000_0000,
        s.pool.available() >= run_takes(s, root, start, n, flags, pte),
        soundness::page_flags(flags),
        flags & 0x1 == 0x1,
        pte is Some && entry::table_index(start, 0) != 0 ==> soundness::reach(s, root, start, 0)
            && pte->0 == soundness::tab(s, root, start, 0),
        region::add_run(s, root, start, n, flags, pte).1,
    ensures
        left_region(
            region::add_run(s, root, start, n, flags, pte).0,
            root,
            start,
            n as int,
        ),
    decreases n,
{
    if n > 0 {
        let t = region::add_run(s, root, start, n, flags, pte).0;
        let (b, table) = match pte {
            Some(table) if entry::table_index(start, 0) != 0 => (s, table),
            _ => region::own_path(s, root, start),
        };
        if !(pte is Some && entry::table_index(start, 0) != 0) {
            lemma_own_path(s, root, start);
        }
        assert(led(s, b, root, start, 0) && table == soundness::tab(b, root, start, 0));
        let k = (n - 1) as nat;
        let w = page_added(b, table, start, flags);
        let next = address::page_above(start, 1);
        lemma_page_added(b, root, start, flags);
        lemma_next_page(start);
        if entry::table_index(next, 0) != 0 {
            soundness::lemma_same_way(w, root, start, next, 0);
        }
        assert((t, true) == region::add_run(w, root, next, k, flags, Some(table)));
        lemma_add_run(w, root, next, k, flags, Some(table));
        lemma_added_left_region(w, root, next, k, flags, Some(table));
        lemma_add_run_hands_out(w, root, next, k, flags, Some(table));
        lemma_found_joined(b, w, t, root, start, k as int);
        lemma_left_joined(w, t, root, start, k as int);
    }
}

/// A page is found at all addresses in it.
pub proof fn lemma_leaf_of_page(s: MachineState, root: u64, va: u64, vb: u64)
    requires
        soundness::same_page(va, vb),
    ensures
        walk::leaf_below(s, root, va, 3) == walk::leaf_below(s, root, vb, 3),
{
    soundness::lemma_same_page(va, vb);
    soundness::lemma_same_way(s, root, va, vb, 0);
    soundness::lemma_leaf(s, root, va);
    soundness::lemma_leaf(s, root, vb);
}

/// Memory that a process asks for and gives back leaves no trace but in its
/// tables: none of its pages is found, all other pages are found where they were
/// from the start, and all pages that it got are in the pool again, each of them
/// once.
pub proof fn law_added_then_removed(s: MachineState, root: u64, start: u64, n: nat, flags: u64)
    requires
        soundness::sound(s, root),
        n <= 0x10_0000_0000,
        s.pool.available() >= run_takes(s, root, start, n, flags, None),
        soundness::page_flags(flags),
        flags & 0x1 == 0x1,
        region::add_run(s, root, start, n, flags, None).1,
    ensures
        ({
            let a = region::add_run(s, root, start, n, flags, None).0;
            let t = teardown::pages_removed(a, root, start, n, None);
            &&& soundness::sound(t, root)
            &&& t.pool.list == a.pool.list + frames(a, root, start, n)
            &&& t.pool.available() == a.pool.available() + n
            &&& forall|i: int|
                0 <= i < n ==> walk::leaf_below(t, root, #[trigger] address::page_above(start, i), 3)
                    is None
            &&& forall|vb: u64| #[trigger]
                walk::leaf_below(t, root, vb, 3) == walk::leaf_below(s, root, vb, 3)
        }),
{
    let a = region::add_run(s, root, start, n, flags, None).0;
    let t = teardown::pages_removed(a, root, start, n, None);
    lemma_add_run(s, root, start, n, flags, None);
    lemma_added_left_region(s, root, start, n, flags, None);
    assert(run_can_be_freed(a, root, start, n as int)) by {
        assert forall|i: int| 0 <= i < n implies can_be_freed(
            a,
            root,
            #[trigger] transfer::other_page(a, root, start, i),
        ) by {
            assert(soundness::is_page(s, transfer::other_page(a, root, start, i)));
        }
    }
    law_removed_pages_are_freed(a, root, start, n);
    assert forall|vb: u64| #[trigger]
        walk::leaf_below(t, root, vb, 3) == walk::leaf_below(s, root, vb, 3) by {
        if exists|i: int|
            0 <= i < n && soundness::same_page(#[trigger] address::page_above(start, i), vb) {
            let i = choose|i: int|
                0 <= i < n && soundness::same_page(#[trigger] address::page_above(start, i), vb);
            lemma_leaf_of_page(t, root, address::page_above(start, i), vb);
            lemma_leaf_of_page(s, root, address::page_above(start, i), vb);
        } else {
            assert(walk::leaf_below(t, root, vb, 3) == walk::leaf_below(a, root, vb, 3));
        }
    }
}

} // verus!
