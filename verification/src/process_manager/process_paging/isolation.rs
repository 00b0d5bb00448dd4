//! Why processes that share pages do not see what the others write.
use vstd::prelude::*;
use crate::memory::machine;
use crate::memory::machine::MachineState;
use crate::process_manager::process_paging::cow;
use crate::process_manager::process_paging::entry;
use crate::process_manager::process_paging::soundness;
use crate::process_manager::process_paging::walk;

verus! {

/// Whether all pages that cannot be handed out in `s`, but for one, are the
/// same in `t`, and nothing can be handed out that could not be before.
pub open spec fn outside(s: MachineState, t: MachineState, one: u64) -> bool {
    &&& t.c_bit == s.c_bit
    &&& t.mem.len() == s.mem.len()
    &&& forall|pa: u64| soundness::in_pool(t.pool, pa) ==> #[trigger] soundness::in_pool(s.pool, pa)
    &&& forall|pa: u64, i: int|
        pa % 4096 == 0 && 0 <= i < 512 && !soundness::in_pool(s.pool, pa) && pa != one
            ==> #[trigger] t.rd(pa, i) == s.rd(pa, i)
}

/// A page table whose tables are untouched is as it was.
pub proof fn lemma_untouched(s: MachineState, t: MachineState, root: u64, one: u64)
    requires
        soundness::sound(s, root),
        soundness::pool_sound(t),
        outside(s, t, one),
        forall|va: u64, l: int|
            0 <= l <= 3 && #[trigger] soundness::reach(s, root, va, l) ==> soundness::tab(
                s,
                root,
                va,
                l,
            ) != one,
    ensures
        soundness::sound(t, root),
        forall|va: u64, l: int|
            0 <= l <= 3 ==> #[trigger] soundness::reach(t, root, va, l) == soundness::reach(
                s,
                root,
                va,
                l,
            ),
        forall|va: u64, l: int|
            0 <= l <= 3 && #[trigger] soundness::reach(s, root, va, l) ==> soundness::tab(
                t,
                root,
                va,
                l,
            ) == soundness::tab(s, root, va, l),
        forall|va: u64| #[trigger]
            walk::leaf_below(t, root, va, 3) == walk::leaf_below(s, root, va, 3),
{
    assert forall|va: u64, l: int| 0 <= l <= 3 implies #[trigger] soundness::reach(t, root, va, l)
        == soundness::reach(s, root, va, l) && (soundness::reach(s, root, va, l) ==> soundness::tab(
        t,
        root,
        va,
        l,
    ) == soundness::tab(s, root, va, l)) by {
        lemma_untouched_way(s, t, root, one, va, l);
    }
    assert forall|va: u64, l: int| 0 <= l <= 3 && #[trigger] soundness::reach(
        s,
        root,
        va,
        l,
    ) implies soundness::tab(t, root, va, l) == soundness::tab(s, root, va, l) by {
        assert(soundness::reach(t, root, va, l) == soundness::reach(s, root, va, l));
    }
    assert(soundness::tables_kept(t, root)) by {
        assert forall|va: u64, l: int|
            0 <= l <= 3 && #[trigger] soundness::reach(t, root, va, l) implies soundness::is_page(
            t,
            soundness::tab(t, root, va, l),
        ) && !soundness::in_pool(t.pool, soundness::tab(t, root, va, l)) by {
            assert(soundness::reach(s, root, va, l));
            let tb = soundness::tab(s, root, va, l);
            assert(soundness::is_page(s, tb) && !soundness::in_pool(s.pool, tb));
            if soundness::in_pool(t.pool, tb) {
                assert(soundness::in_pool(s.pool, tb));
            }
        }
    }
    assert(soundness::tables_tree(t, root)) by {
        assert forall|va: u64, l: int, vb: u64, k: int|
            0 <= l <= 3 && 0 <= k <= 3 && #[trigger] soundness::reach(t, root, va, l)
                && #[trigger] soundness::reach(t, root, vb, k) && soundness::tab(t, root, va, l)
                == soundness::tab(t, root, vb, k) implies l == k && soundness::same_way(va, vb, l) by {
            assert(soundness::reach(s, root, va, l) && soundness::reach(s, root, vb, k));
        }
    }
    assert forall|va: u64| #[trigger]
        walk::leaf_below(t, root, va, 3) == walk::leaf_below(s, root, va, 3) by {
        soundness::lemma_leaf(s, root, va);
        soundness::lemma_leaf(t, root, va);
        assert(soundness::reach(t, root, va, 0) == soundness::reach(s, root, va, 0));
        if soundness::reach(s, root, va, 0) {
            let tb = soundness::tab(s, root, va, 0);
            let i = entry::table_index(va, 0);
            assert(soundness::is_page(s, tb) && !soundness::in_pool(s.pool, tb));
            assert(t.rd(tb, i) == s.rd(tb, i));
        }
    }
}

proof fn lemma_untouched_way(s: MachineState, t: MachineState, root: u64, one: u64, va: u64, l: int)
    requires
        soundness::sound(s, root),
        outside(s, t, one),
        forall|vb: u64, k: int|
            0 <= k <= 3 && #[trigger] soundness::reach(s, root, vb, k) ==> soundness::tab(
                s,
                root,
                vb,
                k,
            ) != one,
        0 <= l <= 3,
    ensures
        soundness::reach(t, root, va, l) == soundness::reach(s, root, va, l),
        soundness::reach(s, root, va, l) ==> soundness::tab(t, root, va, l) == soundness::tab(
            s,
            root,
            va,
            l,
        ),
    decreases 3 - l,
{
    if l < 3 {
        lemma_untouched_way(s, t, root, one, va, l + 1);
        if soundness::reach(s, root, va, l + 1) {
            let tb = soundness::tab(s, root, va, l + 1);
            let i = entry::table_index(va, l + 1);
            assert(soundness::is_page(s, tb) && !soundness::in_pool(s.pool, tb));
            assert(t.rd(tb, i) == s.rd(tb, i));
        }
    }
}

/// What a fresh copy of a page is: a page from the pool with its words.
pub proof fn lemma_copy_fresh(s: MachineState, source: u64)
    requires
        soundness::pool_sound(s),
        s.pool.available() > 0,
        source % 4096 == 0,
        !soundness::in_pool(s.pool, source),
    ensures
        ({
            let (t, page) = cow::copy_fresh(s, source);
            &&& soundness::in_pool(s.pool, page)
            &&& soundness::is_page(s, page)
            &&& !soundness::in_pool(t.pool, page)
            &&& soundness::pool_sound(t)
            &&& t.pool.available() == s.pool.available() - 1
            &&& forall|one: u64| #[trigger] outside(s, t, one)
            &&& forall|i: int| 0 <= i < 512 ==> #[trigger] t.rd(page, i) == s.rd(source, i)
        }),
{
    let (u, page) = s.take_page();
    let (t, copy) = cow::copy_fresh(s, source);
    soundness::law_taken_page_is_fresh(s);
    assert(t.pool == u.pool);
    assert forall|i: int| 0 <= i < 512 implies #[trigger] t.rd(page, i) == s.rd(source, i) by {
        assert(u.rd(source, i) == s.rd(source, i));
        assert(machine::page_words(u.mem, source)[i] == u.rd(source, i));
    }
    assert forall|pa: u64, i: int| pa % 4096 == 0 && pa != page && 0 <= i < 512 implies #[trigger] t.rd(
        pa,
        i,
    ) == s.rd(pa, i) by {
        assert(u.rd(pa, i) == s.rd(pa, i));
        if pa as int / 8 + i >= page as int / 8 && pa as int / 8 + i < page as int / 8 + 512 {
            soundness::lemma_words_apart(pa, page, i, pa as int / 8 + i - page as int / 8);
        }
    }
    assert(soundness::pool_sound(t)) by {
        assert forall|pa: u64|
            pa % 4096 == 0 && #[trigger] soundness::in_region(t.pool, pa) implies soundness::is_page(
            t,
            pa,
        ) by {
            assert(soundness::in_region(u.pool, pa));
        }
        assert forall|i: int| 0 <= i < t.pool.list.len() implies soundness::is_page(
            t,
            #[trigger] t.pool.list[i],
        ) && !(t.pool.base <= t.pool.list[i] < t.pool.limit) by {
            assert(t.pool.list[i] == u.pool.list[i]);
        }
    }
    assert forall|one: u64| #[trigger] outside(s, t, one) by {
        assert forall|pa: u64, i: int|
            pa % 4096 == 0 && 0 <= i < 512 && !soundness::in_pool(s.pool, pa) && pa
                != one implies #[trigger] t.rd(pa, i) == s.rd(pa, i) by {
            assert(pa != page);
        }
    }
}

/// The table at level `k` on the way to `vb` after the one at level `l` on the
/// way to `va` was replaced.
pub open spec fn replaced(s: MachineState, root: u64, va: u64, l: int, fresh: u64, vb: u64, k: int) -> u64 {
    if k == l && soundness::same_way(va, vb, l) {
        fresh
    } else {
        soundness::tab(s, root, vb, k)
    }
}

/// The words after the table at level `l - 1` on the way to `va` was copied to
/// `fresh`, and the entry above it replaced.
pub open spec fn replaced_words(
    s: MachineState,
    t: MachineState,
    root: u64,
    va: u64,
    l: int,
    fresh: u64,
    word: u64,
) -> bool {
    forall|pa: u64, i: int|
        #![trigger t.rd(pa, i)]
        pa % 4096 == 0 && 0 <= i < 512 ==> t.rd(pa, i) == (if pa == soundness::tab(s, root, va, l)
            && i == entry::table_index(va, l) {
            word
        } else if pa == fresh {
            s.rd(soundness::tab(s, root, va, l - 1), i)
        } else {
            s.rd(pa, i)
        })
}

/// The way after a table on it, or on another, was replaced.
pub proof fn lemma_replaced_way(
    s: MachineState,
    t: MachineState,
    root: u64,
    va: u64,
    l: int,
    fresh: u64,
    word: u64,
    vb: u64,
    k: int,
)
    requires
        soundness::sound(s, root),
        1 <= l <= 3,
        soundness::reach(s, root, va, l - 1),
        soundness::in_pool(s.pool, fresh),
        soundness::is_page(s, fresh),
        t.c_bit == s.c_bit,
        entry::present(word),
        entry::strip(s.c_bit, word) == fresh,
        replaced_words(s, t, root, va, l, fresh, word),
        0 <= k <= 3,
    ensures
        soundness::reach(t, root, vb, k) == soundness::reach(s, root, vb, k),
        soundness::reach(s, root, vb, k) ==> soundness::tab(t, root, vb, k) == replaced(
            s,
            root,
            va,
            l - 1,
            fresh,
            vb,
            k,
        ),
    decreases 3 - k,
{
    assert(soundness::reach(s, root, va, l));
    if k < 3 {
        lemma_replaced_way(s, t, root, va, l, fresh, word, vb, k + 1);
        if soundness::reach(s, root, vb, k + 1) {
            let tb = soundness::tab(s, root, vb, k + 1);
            let i = entry::table_index(vb, k + 1);
            assert(soundness::is_page(s, tb) && !soundness::in_pool(s.pool, tb));
            if k + 1 == l - 1 && soundness::same_way(va, vb, l - 1) {
                soundness::lemma_same_way(s, root, va, vb, l - 1);
                let top = soundness::tab(s, root, va, l);
                assert(soundness::is_page(s, top) && !soundness::in_pool(s.pool, top));
                assert(t.rd(fresh, i) == s.rd(tb, i));
            } else {
                assert(soundness::tab(t, root, vb, k + 1) == tb);
                assert(tb != fresh);
                if tb == soundness::tab(s, root, va, l) && i == entry::table_index(va, l) {
                    assert(k + 1 == l && soundness::same_way(va, vb, l));
                    assert(soundness::same_way(va, vb, l - 1));
                    soundness::lemma_same_way(s, root, va, vb, l - 1);
                    assert(t.rd(tb, i) == word);
                } else {
                    assert(t.rd(tb, i) == s.rd(tb, i));
                    if k == l - 1 && soundness::same_way(va, vb, l - 1) {
                        soundness::lemma_same_way(s, root, va, vb, l);
                    }
                }
            }
        }
    }
}

/// What copying a table for one page table does: the page table stays sound,
/// and all its pages are found where they were.
pub proof fn lemma_replaced(
    s: MachineState,
    t: MachineState,
    root: u64,
    va: u64,
    l: int,
    fresh: u64,
    word: u64,
)
    requires
        soundness::sound(s, root),
        1 <= l <= 3,
        soundness::reach(s, root, va, l - 1),
        soundness::in_pool(s.pool, fresh),
        soundness::is_page(s, fresh),
        !soundness::in_pool(t.pool, fresh),
        soundness::pool_sound(t),
        forall|pa: u64| soundness::in_pool(t.pool, pa) ==> #[trigger] soundness::in_pool(s.pool, pa),
        t.c_bit == s.c_bit,
        t.mem.len() == s.mem.len(),
        entry::present(word),
        entry::strip(s.c_bit, word) == fresh,
        replaced_words(s, t, root, va, l, fresh, word),
    ensures
        soundness::sound(t, root),
        forall|vb: u64, k: int|
            0 <= k <= 3 ==> #[trigger] soundness::reach(t, root, vb, k) == soundness::reach(
                s,
                root,
                vb,
                k,
            ),
        soundness::tab(t, root, va, l - 1) == fresh,
        soundness::tab(t, root, va, l) == soundness::tab(s, root, va, l),
        forall|k: int|
            0 <= k < l - 1 && soundness::reach(s, root, va, k) ==> #[trigger] soundness::tab(
                t,
                root,
                va,
                k,
            ) == soundness::tab(s, root, va, k),
        walk::entry_in(t, fresh, va, (l - 1) as nat) == walk::entry_in(
            s,
            soundness::tab(s, root, va, l - 1),
            va,
            (l - 1) as nat,
        ),
        forall|vb: u64| #[trigger]
            walk::leaf_below(t, root, vb, 3) == walk::leaf_below(s, root, vb, 3),
{
    let top = soundness::tab(s, root, va, l);
    let old_table = soundness::tab(s, root, va, l - 1);
    assert(soundness::reach(s, root, va, l));
    assert(soundness::is_page(s, top) && !soundness::in_pool(s.pool, top));
    assert forall|vb: u64, k: int| 0 <= k <= 3 implies #[trigger] soundness::reach(t, root, vb, k)
        == soundness::reach(s, root, vb, k) && (soundness::reach(s, root, vb, k) ==> soundness::tab(
        t,
        root,
        vb,
        k,
    ) == replaced(s, root, va, l - 1, fresh, vb, k)) by {
        lemma_replaced_way(s, t, root, va, l, fresh, word, vb, k);
    }
    assert(soundness::reach(t, root, va, l - 1));
    assert(soundness::reach(t, root, va, l));
    assert forall|k: int| 0 <= k < l - 1 && soundness::reach(s, root, va, k) implies #[trigger] soundness::tab(
        t,
        root,
        va,
        k,
    ) == soundness::tab(s, root, va, k) by {
        assert(soundness::reach(t, root, va, k) == soundness::reach(s, root, va, k));
    }
    assert(soundness::tables_kept(t, root)) by {
        assert forall|vb: u64, k: int|
            0 <= k <= 3 && #[trigger] soundness::reach(t, root, vb, k) implies soundness::is_page(
            t,
            soundness::tab(t, root, vb, k),
        ) && !soundness::in_pool(t.pool, soundness::tab(t, root, vb, k)) by {
            assert(soundness::reach(s, root, vb, k));
            let tb = soundness::tab(s, root, vb, k);
            assert(soundness::is_page(s, tb) && !soundness::in_pool(s.pool, tb));
            if soundness::in_pool(t.pool, tb) {
                assert(soundness::in_pool(s.pool, tb));
            }
        }
    }
    assert(soundness::tables_tree(t, root)) by {
        assert forall|va1: u64, k1: int, vb1: u64, k2: int|
            0 <= k1 <= 3 && 0 <= k2 <= 3 && #[trigger] soundness::reach(t, root, va1, k1)
                && #[trigger] soundness::reach(t, root, vb1, k2) && soundness::tab(
                t,
                root,
                va1,
                k1,
            ) == soundness::tab(t, root, vb1, k2) implies k1 == k2 && soundness::same_way(
            va1,
            vb1,
            k1,
        ) by {
            assert(soundness::reach(s, root, va1, k1) && soundness::reach(s, root, vb1, k2));
            assert(!soundness::in_pool(s.pool, soundness::tab(s, root, va1, k1)));
            assert(!soundness::in_pool(s.pool, soundness::tab(s, root, vb1, k2)));
        }
    }
    assert(soundness::is_page(s, old_table) && !soundness::in_pool(s.pool, old_table));
    assert(t.rd(fresh, entry::table_index(va, l - 1)) == s.rd(
        old_table,
        entry::table_index(va, l - 1),
    ));
    assert forall|vb: u64| #[trigger]
        walk::leaf_below(t, root, vb, 3) == walk::leaf_below(s, root, vb, 3) by {
        soundness::lemma_leaf(s, root, vb);
        soundness::lemma_leaf(t, root, vb);
        assert(soundness::reach(t, root, vb, 0) == soundness::reach(s, root, vb, 0));
        if soundness::reach(s, root, vb, 0) {
            let tb = soundness::tab(s, root, vb, 0);
            let i = entry::table_index(vb, 0);
            assert(soundness::is_page(s, tb) && !soundness::in_pool(s.pool, tb));
            if l == 1 && soundness::same_way(va, vb, 0) {
                soundness::lemma_same_way(s, root, va, vb, 0);
                assert(t.rd(fresh, i) == s.rd(tb, i));
            } else {
                assert(tb != top) by {
                    if tb == top {
                        assert(0 == l);
                    }
                }
                assert(t.rd(tb, i) == s.rd(tb, i));
            }
        }
    }
}

/// 1 where the entry at level `l` on the way to `va` asks for a copy, else 0.
pub open spec fn marked(s: MachineState, root: u64, va: u64, l: int) -> int {
    if entry::cow(walk::entry_in(s, soundness::tab(s, root, va, l), va, l as nat)) {
        1
    } else {
        0
    }
}

/// The pages that a copy on write takes: one for the page, and one for each
/// marked table on the way.
pub open spec fn copy_takes(s: MachineState, root: u64, va: u64) -> int {
    1 + marked(s, root, va, 3) + marked(s, root, va, 2) + marked(s, root, va, 1)
}

/// What splitting a table off does.
proof fn lemma_split(s: MachineState, root: u64, va: u64, l: int, flags: u64)
    requires
        soundness::sound(s, root),
        1 <= l <= 3,
        soundness::reach(s, root, va, 0),
        s.pool.available() >= marked(s, root, va, l),
        flags & 0x1 == 0x1,
        flags & 0x000F_FFFF_FFFF_F000 == 0,
    ensures
        ({
            let top = soundness::tab(s, root, va, l);
            let e = walk::entry_in(s, top, va, l as nat);
            let (t, own) = cow::split_table(
                s,
                top,
                va,
                l as nat,
                e,
                soundness::tab(s, root, va, l - 1),
                flags,
            );
            &&& soundness::sound(t, root)
            &&& soundness::reach(t, root, va, 0)
            &&& own == soundness::tab(t, root, va, l - 1)
            &&& walk::entry_in(t, own, va, (l - 1) as nat) == walk::entry_in(
                s,
                soundness::tab(s, root, va, l - 1),
                va,
                (l - 1) as nat,
            )
            &&& forall|k: int|
                0 <= k < l - 1 ==> #[trigger] soundness::tab(t, root, va, k) == soundness::tab(
                    s,
                    root,
                    va,
                    k,
                )
            &&& t.pool.available() == s.pool.available() - marked(s, root, va, l)
            &&& outside(s, t, top)
            &&& entry::cow(e) ==> soundness::in_pool(s.pool, own)
            &&& !entry::cow(e) ==> t == s
            &&& forall|vb: u64| #[trigger]
                walk::leaf_below(t, root, vb, 3) == walk::leaf_below(s, root, vb, 3)
        }),
{
    let top = soundness::tab(s, root, va, l);
    let source = soundness::tab(s, root, va, l - 1);
    let e = walk::entry_in(s, top, va, l as nat);
    let idx = entry::table_index(va, l);
    lemma_reach_up(s, root, va, 0, l - 1);
    lemma_reach_up(s, root, va, 0, l);
    assert(soundness::is_page(s, top) && !soundness::in_pool(s.pool, top));
    assert(soundness::is_page(s, source) && !soundness::in_pool(s.pool, source));
    let (t, own) = cow::split_table(s, top, va, l as nat, e, source, flags);
    if entry::cow(e) {
        let (u, page) = cow::copy_fresh(s, source);
        lemma_copy_fresh(s, source);
        assert(outside(s, u, 0));
        let word = entry::entry_word(s.c_bit, page, flags | 0x2);
        assert((flags | 0x2) & 0x1 == 0x1 && (flags | 0x2) & 0x000F_FFFF_FFFF_F000 == 0)
            by (bit_vector)
            requires
                flags & 0x1 == 0x1,
                flags & 0x000F_FFFF_FFFF_F000 == 0,
        ;
        soundness::lemma_entry_leads(s.c_bit, page, flags | 0x2);
        assert(t.mem == machine::store_word(u.mem, top, idx, word));
        assert forall|pa: u64, i: int|
            #![trigger t.rd(pa, i)]
            pa % 4096 == 0 && 0 <= i < 512 implies t.rd(pa, i) == (if pa == top && i == idx {
            word
        } else if pa == page {
            s.rd(source, i)
        } else {
            s.rd(pa, i)
        }) by {
            if !(pa == top && i == idx) {
                if pa != top {
                    soundness::lemma_words_apart(pa, top, i, idx);
                }
                assert(t.rd(pa, i) == u.rd(pa, i));
                if pa != page {
                    lemma_copy_touches_one(s, source, pa, i);
                }
            }
        }
        assert(soundness::pool_sound(t)) by {
            assert forall|pa: u64|
                pa % 4096 == 0 && #[trigger] soundness::in_region(
                    t.pool,
                    pa,
                ) implies soundness::is_page(t, pa) by {
                assert(soundness::in_region(u.pool, pa));
            }
            assert forall|i: int| 0 <= i < t.pool.list.len() implies soundness::is_page(
                t,
                #[trigger] t.pool.list[i],
            ) && !(t.pool.base <= t.pool.list[i] < t.pool.limit) by {
                assert(t.pool.list[i] == u.pool.list[i]);
            }
        }
        assert(replaced_words(s, t, root, va, l, page, word));
        lemma_replaced(s, t, root, va, l, page, word);
        assert(soundness::reach(t, root, va, 0) == soundness::reach(s, root, va, 0));
        assert(own == page) by {
            assert(t.rd(top, idx) == word);
        }
        assert forall|k: int| 0 <= k < l - 1 implies #[trigger] soundness::tab(t, root, va, k)
            == soundness::tab(s, root, va, k) by {
            lemma_reach_up(s, root, va, 0, k);
        }
        assert(outside(s, t, top)) by {
            assert forall|pa: u64, i: int|
                pa % 4096 == 0 && 0 <= i < 512 && !soundness::in_pool(s.pool, pa) && pa
                    != top implies #[trigger] t.rd(pa, i) == s.rd(pa, i) by {
                assert(pa != page);
            }
        }
    }
}

/// A fresh copy changes no page but itself.
pub proof fn lemma_copy_touches_one(s: MachineState, source: u64, pa: u64, i: int)
    requires
        soundness::pool_sound(s),
        s.pool.available() > 0,
        pa % 4096 == 0,
        0 <= i < 512,
        pa != cow::copy_fresh(s, source).1,
    ensures
        cow::copy_fresh(s, source).0.rd(pa, i) == s.rd(pa, i),
{
    let (u, page) = s.take_page();
    let t = cow::copy_fresh(s, source).0;
    soundness::law_taken_page_is_fresh(s);
    assert(u.rd(pa, i) == s.rd(pa, i));
    if pa as int / 8 + i >= page as int / 8 && pa as int / 8 + i < page as int / 8 + 512 {
        soundness::lemma_words_apart(pa, page, i, pa as int / 8 + i - page as int / 8);
    }
}

/// Above a table on the way there are tables.
pub proof fn lemma_reach_up(s: MachineState, root: u64, va: u64, l: int, k: int)
    requires
        0 <= l <= k <= 3,
        soundness::reach(s, root, va, l),
    ensures
        soundness::reach(s, root, va, k),
    decreases k - l,
{
    if l < k {
        lemma_reach_up(s, root, va, l + 1, k);
    }
}

/// The table that a copy on write changes: the one with the first marked entry
/// on the way, else the last one.
pub open spec fn changed_table(s: MachineState, root: u64, va: u64) -> u64 {
    if entry::cow(walk::entry_in(s, root, va, 3)) {
        root
    } else if entry::cow(walk::entry_in(s, soundness::tab(s, root, va, 2), va, 2)) {
        soundness::tab(s, root, va, 2)
    } else if entry::cow(walk::entry_in(s, soundness::tab(s, root, va, 1), va, 1)) {
        soundness::tab(s, root, va, 1)
    } else {
        soundness::tab(s, root, va, 0)
    }
}

/// Whether all that a marked entry on the way leads to is marked, too.
pub open spec fn marked_down(s: MachineState, root: u64, va: u64) -> bool {
    let e3 = walk::entry_in(s, root, va, 3);
    let e2 = walk::entry_in(s, soundness::tab(s, root, va, 2), va, 2);
    let e1 = walk::entry_in(s, soundness::tab(s, root, va, 1), va, 1);
    &&& entry::cow(e3) ==> entry::cow(e2)
    &&& entry::cow(e2) ==> entry::cow(e1)
}

proof fn lemma_flags(e: u64)
    requires
        entry::present(e),
    ensures
        entry::flags_of(e) & 0x1 == 0x1,
        entry::flags_of(e) & 0x000F_FFFF_FFFF_F000 == 0,
        (entry::flags_of(e) | 0x2) & 0x1 == 0x1,
        (entry::flags_of(e) | 0x2) & 0x2 == 0x2,
        (entry::flags_of(e) | 0x2) & 0x000F_FFFF_FFFF_F000 == 0,
{
    assert((e & 0x8000_0000_0000_07FF) & 0x1 == 0x1 && (e & 0x8000_0000_0000_07FF)
        & 0x000F_FFFF_FFFF_F000 == 0 && ((e & 0x8000_0000_0000_07FF) | 0x2) & 0x1 == 0x1 && ((e
        & 0x8000_0000_0000_07FF) | 0x2) & 0x2 == 0x2 && ((e & 0x8000_0000_0000_07FF) | 0x2)
        & 0x000F_FFFF_FFFF_F000 == 0) by (bit_vector)
        requires
            e & 0x1 == 0x1,
    ;
}

proof fn lemma_outside_then(a: MachineState, b: MachineState, c: MachineState, one: u64, two: u64)
    requires
        outside(a, b, one),
        outside(b, c, two),
        two == one || soundness::in_pool(a.pool, two),
    ensures
        outside(a, c, one),
{
    assert forall|pa: u64| soundness::in_pool(c.pool, pa) implies #[trigger] soundness::in_pool(
        a.pool,
        pa,
    ) by {
        assert(soundness::in_pool(b.pool, pa));
    }
    assert forall|pa: u64, i: int|
        pa % 4096 == 0 && 0 <= i < 512 && !soundness::in_pool(a.pool, pa) && pa
            != one implies #[trigger] c.rd(pa, i) == a.rd(pa, i) by {
        if soundness::in_pool(b.pool, pa) {
            assert(soundness::in_pool(a.pool, pa));
        }
        assert(b.rd(pa, i) == a.rd(pa, i));
    }
}

/// The machine after every marked table on the way to `va` was replaced by a
/// copy, and the last table on the way.
pub open spec fn tables_split(s: MachineState, root: u64, va: u64) -> (MachineState, u64) {
    let pud = walk::entry_in(s, root, va, 3);
    let pud_table = soundness::tab(s, root, va, 2);
    let pmd = walk::entry_in(s, pud_table, va, 2);
    let pmd_table = soundness::tab(s, root, va, 1);
    let pte = walk::entry_in(s, pmd_table, va, 1);
    let pte_table = soundness::tab(s, root, va, 0);
    let (s3, own_pud) = cow::split_table(s, root, va, 3, pud, pud_table, entry::flags_of(pud));
    let (s2, own_pmd) = cow::split_table(s3, own_pud, va, 2, pmd, pmd_table, entry::flags_of(pmd));
    cow::split_table(s2, own_pmd, va, 1, pte, pte_table, entry::flags_of(pmd))
}

proof fn lemma_tables_split(s: MachineState, root: u64, va: u64)
    requires
        soundness::sound(s, root),
        soundness::reach(s, root, va, 0),
        s.pool.available() >= copy_takes(s, root, va) - 1,
        marked_down(s, root, va),
    ensures
        ({
            let (t, own) = tables_split(s, root, va);
            &&& soundness::sound(t, root)
            &&& soundness::reach(t, root, va, 0)
            &&& soundness::tab(t, root, va, 0) == own
            &&& outside(s, t, changed_table(s, root, va))
            &&& own == changed_table(s, root, va) || soundness::in_pool(s.pool, own)
            &&& forall|vb: u64| #[trigger]
                walk::leaf_below(t, root, vb, 3) == walk::leaf_below(s, root, vb, 3)
        }),
{
    let pud = walk::entry_in(s, root, va, 3);
    let pud_table = soundness::tab(s, root, va, 2);
    let pmd = walk::entry_in(s, pud_table, va, 2);
    let pmd_table = soundness::tab(s, root, va, 1);
    let pte = walk::entry_in(s, pmd_table, va, 1);
    let pte_table = soundness::tab(s, root, va, 0);
    let one = changed_table(s, root, va);
    lemma_reach_up(s, root, va, 0, 1);
    lemma_reach_up(s, root, va, 0, 2);
    lemma_flags(pud);
    lemma_flags(pmd);
    let (s3, own_pud) = cow::split_table(s, root, va, 3, pud, pud_table, entry::flags_of(pud));
    lemma_split(s, root, va, 3, entry::flags_of(pud));
    assert(soundness::tab(s3, root, va, 2) == own_pud);
    assert(soundness::tab(s3, root, va, 1) == pmd_table);
    assert(soundness::tab(s3, root, va, 0) == pte_table);
    assert(walk::entry_in(s3, own_pud, va, 2) == pmd);
    assert(walk::entry_in(s3, pmd_table, va, 1) == pte) by {
        lemma_apart(s, root, va, 1, 3);
        assert(s3.rd(pmd_table, entry::table_index(va, 1)) == s.rd(
            pmd_table,
            entry::table_index(va, 1),
        ));
    }
    let (s2, own_pmd) = cow::split_table(s3, own_pud, va, 2, pmd, pmd_table, entry::flags_of(pmd));
    lemma_split(s3, root, va, 2, entry::flags_of(pmd));
    assert(soundness::tab(s2, root, va, 1) == own_pmd);
    assert(soundness::tab(s2, root, va, 0) == pte_table);
    assert(walk::entry_in(s2, own_pmd, va, 1) == pte);
    let (t, own) = cow::split_table(s2, own_pmd, va, 1, pte, pte_table, entry::flags_of(pmd));
    lemma_split(s2, root, va, 1, entry::flags_of(pmd));
    assert((t, own) == tables_split(s, root, va));
    if entry::cow(pud) {
        lemma_outside_then(s, s3, s2, root, own_pud);
        assert(soundness::in_pool(s3.pool, own_pmd));
        assert(soundness::in_pool(s.pool, own_pmd));
        lemma_outside_then(s, s2, t, root, own_pmd);
        assert(soundness::in_pool(s2.pool, own));
        assert(soundness::in_pool(s.pool, own));
    } else if entry::cow(pmd) {
        assert(soundness::in_pool(s.pool, own_pmd));
        lemma_outside_then(s, s2, t, pud_table, own_pmd);
        assert(soundness::in_pool(s2.pool, own));
        assert(soundness::in_pool(s.pool, own));
    }
    assert forall|vb: u64| #[trigger]
        walk::leaf_below(t, root, vb, 3) == walk::leaf_below(s, root, vb, 3) by {
        assert(walk::leaf_below(s2, root, vb, 3) == walk::leaf_below(s3, root, vb, 3));
        assert(walk::leaf_below(s3, root, vb, 3) == walk::leaf_below(s, root, vb, 3));
    }
}

/// A fresh copy of a page changes nothing about a page table.
proof fn lemma_copy_keeps_tables(s: MachineState, root: u64, source: u64, va: u64)
    requires
        soundness::sound(s, root),
        soundness::reach(s, root, va, 0),
        s.pool.available() > 0,
        source % 4096 == 0,
        !soundness::in_pool(s.pool, source),
    ensures
        ({
            let t = cow::copy_fresh(s, source).0;
            &&& soundness::sound(t, root)
            &&& soundness::reach(t, root, va, 0)
            &&& same_entries(s, t, root, va)
            &&& forall|vb: u64| #[trigger]
                walk::leaf_below(t, root, vb, 3) == walk::leaf_below(s, root, vb, 3)
        }),
{
    let t = cow::copy_fresh(s, source).0;
    lemma_copy_fresh(s, source);
    assert(outside(s, t, 0));
    assert forall|vb: u64, l: int| 0 <= l <= 3 && #[trigger] soundness::reach(s, root, vb, l) implies soundness::tab(
        s,
        root,
        vb,
        l,
    ) != 0 by {
        assert(soundness::is_page(s, soundness::tab(s, root, vb, l)));
    }
    lemma_untouched(s, t, root, 0);
    assert(soundness::reach(t, root, va, 0) == soundness::reach(s, root, va, 0));
    lemma_kept_entry(s, t, root, va, 0);
    lemma_kept_entry(s, t, root, va, 1);
    lemma_kept_entry(s, t, root, va, 2);
    lemma_kept_entry(s, t, root, va, 3);
}

proof fn lemma_kept_entry(s: MachineState, t: MachineState, root: u64, va: u64, l: nat)
    requires
        l <= 3,
        soundness::sound(s, root),
        soundness::reach(s, root, va, 0),
        outside(s, t, 0),
    ensures
        walk::entry_in(t, soundness::tab(s, root, va, l as int), va, l) == walk::entry_in(
            s,
            soundness::tab(s, root, va, l as int),
            va,
            l,
        ),
        soundness::reach(s, root, va, l as int),
{
    lemma_reach_up(s, root, va, 0, l as int);
    let tb = soundness::tab(s, root, va, l as int);
    let i = entry::table_index(va, l as int);
    assert(soundness::is_page(s, tb) && !soundness::in_pool(s.pool, tb));
    assert(t.rd(tb, i) == s.rd(tb, i));
}

/// Whether the tables and the entries on the way to `va` are the same.
spec fn same_entries(s: MachineState, t: MachineState, root: u64, va: u64) -> bool {
    &&& soundness::tab(t, root, va, 2) == soundness::tab(s, root, va, 2)
    &&& soundness::tab(t, root, va, 1) == soundness::tab(s, root, va, 1)
    &&& soundness::tab(t, root, va, 0) == soundness::tab(s, root, va, 0)
    &&& walk::entry_in(t, root, va, 3) == walk::entry_in(s, root, va, 3)
    &&& walk::entry_in(t, soundness::tab(s, root, va, 2), va, 2) == walk::entry_in(
        s,
        soundness::tab(s, root, va, 2),
        va,
        2,
    )
    &&& walk::entry_in(t, soundness::tab(s, root, va, 1), va, 1) == walk::entry_in(
        s,
        soundness::tab(s, root, va, 1),
        va,
        1,
    )
    &&& walk::entry_in(t, soundness::tab(s, root, va, 0), va, 0) == walk::entry_in(
        s,
        soundness::tab(s, root, va, 0),
        va,
        0,
    )
}

/// What a copy on write is made of: a copy of the page, copies of the marked
/// tables, and a new entry.
proof fn lemma_cow_steps(s: MachineState, root: u64, va: u64)
    requires
        soundness::sound(s, root),
        soundness::reach(s, root, va, 0),
        s.pool.available() > 0,
        ({
            let page = walk::entry_in(s, soundness::tab(s, root, va, 0), va, 0);
            &&& page & 0x0000_FFFF_FFFF_F000 == entry::strip(s.c_bit, page)
            &&& entry::strip(s.c_bit, page) % 4096 == 0
            &&& !soundness::in_pool(s.pool, entry::strip(s.c_bit, page))
        }),
    ensures
        ({
            let page = walk::entry_in(s, soundness::tab(s, root, va, 0), va, 0);
            let (s0, copy) = cow::copy_fresh(s, entry::strip(s.c_bit, page));
            let (s1, own) = tables_split(s0, root, va);
            cow::cow_resolved(s, root, va) == s1.wr(
                own,
                entry::table_index(va, 0),
                entry::entry_word(s.c_bit, copy, entry::flags_of(page) | 0x2),
            )
        }),
{
    reveal_with_fuel(soundness::tab, 4);
    let page = walk::entry_in(s, soundness::tab(s, root, va, 0), va, 0);
    let source = entry::strip(s.c_bit, page);
    let s0 = cow::copy_fresh(s, source).0;
    lemma_copy_keeps_tables(s, root, source, va);
}

/// A write to a page that is copied on write gives the process a page of its
/// own: a fresh, writable page with what the shared one holds. All its other
/// pages are found where they were, and of the pages that were in use before
/// only one table is changed: the last one that the process does not share.
pub proof fn law_copy_on_write(s: MachineState, root: u64, va: u64, user_access: bool)
    requires
        soundness::sound(s, root),
        s.pool.available() >= copy_takes(s, root, va),
        cow::cow_applies(s, root, va, user_access),
        marked_down(s, root, va),
        ({
            let e = walk::leaf_below(s, root, va, 3)->0;
            &&& e & 0x0000_FFFF_FFFF_F000 == entry::strip(s.c_bit, e)
            &&& soundness::is_page(s, entry::strip(s.c_bit, e))
            &&& !soundness::in_pool(s.pool, entry::strip(s.c_bit, e))
            &&& entry::strip(s.c_bit, e) != changed_table(s, root, va)
        }),
    ensures
        ({
            let t = cow::cow_resolved(s, root, va);
            let shared = walk::translate(s, root, va);
            let own = walk::translate(t, root, va);
            &&& soundness::sound(t, root)
            &&& soundness::in_pool(s.pool, own)
            &&& walk::leaf_below(t, root, va, 3) matches Some(w) && w & 0x2 == 0x2
            &&& machine::page_words(t.mem, own) == machine::page_words(s.mem, shared)
            &&& machine::page_words(t.mem, shared) == machine::page_words(s.mem, shared)
            &&& forall|vb: u64|
                !soundness::same_page(va, vb) ==> #[trigger] walk::leaf_below(t, root, vb, 3)
                    == walk::leaf_below(s, root, vb, 3)
            &&& outside(s, t, changed_table(s, root, va))
        }),
{
    soundness::lemma_leaf(s, root, va);
    let page = walk::entry_in(s, soundness::tab(s, root, va, 0), va, 0);
    let shared = entry::strip(s.c_bit, page);
    let t = cow::cow_resolved(s, root, va);
    let copy = cow::copy_fresh(s, shared).1;
    lemma_cow_found(s, root, va);
    lemma_cow_contents(s, root, va);
    assert(machine::page_words(t.mem, shared) =~= machine::page_words(s.mem, shared)) by {
        assert forall|i: int| 0 <= i < 512 implies #[trigger] machine::page_words(t.mem, shared)[i]
            == machine::page_words(s.mem, shared)[i] by {
            assert(t.rd(shared, i) == s.rd(shared, i));
        }
    }
    assert(machine::page_words(t.mem, copy) =~= machine::page_words(s.mem, shared)) by {
        assert forall|i: int| 0 <= i < 512 implies #[trigger] machine::page_words(t.mem, copy)[i]
            == machine::page_words(s.mem, shared)[i] by {
            assert(t.rd(copy, i) == s.rd(shared, i));
        }
    }
}

/// Whether a page is one that a copy on write can copy.
spec fn can_copy(s: MachineState, root: u64, va: u64) -> bool {
    let page = walk::entry_in(s, soundness::tab(s, root, va, 0), va, 0);
    &&& soundness::sound(s, root)
    &&& s.pool.available() >= copy_takes(s, root, va)
    &&& soundness::reach(s, root, va, 0)
    &&& entry::present(page)
    &&& marked_down(s, root, va)
    &&& page & 0x0000_FFFF_FFFF_F000 == entry::strip(s.c_bit, page)
    &&& soundness::is_page(s, entry::strip(s.c_bit, page))
    &&& !soundness::in_pool(s.pool, entry::strip(s.c_bit, page))
}

proof fn lemma_cow_found(s: MachineState, root: u64, va: u64)
    requires
        can_copy(s, root, va),
    ensures
        ({
            let t = cow::cow_resolved(s, root, va);
            let page = walk::entry_in(s, soundness::tab(s, root, va, 0), va, 0);
            let copy = cow::copy_fresh(s, entry::strip(s.c_bit, page)).1;
            &&& soundness::sound(t, root)
            &&& t.c_bit == s.c_bit
            &&& walk::translate(t, root, va) == copy
            &&& soundness::in_pool(s.pool, copy)
            &&& walk::leaf_below(t, root, va, 3) matches Some(w) && w & 0x2 == 0x2
            &&& forall|vb: u64|
                !soundness::same_page(va, vb) ==> #[trigger] walk::leaf_below(t, root, vb, 3)
                    == walk::leaf_below(s, root, vb, 3)
        }),
{
    let page = walk::entry_in(s, soundness::tab(s, root, va, 0), va, 0);
    let shared = entry::strip(s.c_bit, page);
    let (s0, copy) = cow::copy_fresh(s, shared);
    lemma_copy_fresh(s, shared);
    lemma_copy_keeps_tables(s, root, shared, va);
    assert(outside(s, s0, 0));
    lemma_tables_split(s0, root, va);
    lemma_cow_steps(s, root, va);
    let (s1, own_pte) = tables_split(s0, root, va);
    let t = cow::cow_resolved(s, root, va);
    let f = entry::flags_of(page) | 0x2;
    let word = entry::entry_word(s.c_bit, copy, f);
    soundness::lemma_set_leaf(s1, t, root, va, word);
    lemma_flags(page);
    soundness::lemma_entry_leads(s.c_bit, copy, f);
    let c = s.c_bit;
    assert((copy | f | c) & 0x2 == 0x2) by (bit_vector)
        requires
            f & 0x2 == 0x2,
    ;
    assert forall|vb: u64| !soundness::same_page(va, vb) implies #[trigger] walk::leaf_below(
        t,
        root,
        vb,
        3,
    ) == walk::leaf_below(s, root, vb, 3) by {
        assert(walk::leaf_below(s1, root, vb, 3) == walk::leaf_below(s0, root, vb, 3));
        assert(walk::leaf_below(s0, root, vb, 3) == walk::leaf_below(s, root, vb, 3));
    }
}

proof fn lemma_cow_contents(s: MachineState, root: u64, va: u64)
    requires
        can_copy(s, root, va),
    ensures
        ({
            let t = cow::cow_resolved(s, root, va);
            let page = walk::entry_in(s, soundness::tab(s, root, va, 0), va, 0);
            let shared = entry::strip(s.c_bit, page);
            let copy = cow::copy_fresh(s, shared).1;
            &&& outside(s, t, changed_table(s, root, va))
            &&& forall|i: int| 0 <= i < 512 ==> #[trigger] t.rd(copy, i) == s.rd(shared, i)
        }),
{
    let page = walk::entry_in(s, soundness::tab(s, root, va, 0), va, 0);
    let shared = entry::strip(s.c_bit, page);
    let one = changed_table(s, root, va);
    let (s0, copy) = cow::copy_fresh(s, shared);
    lemma_copy_fresh(s, shared);
    lemma_copy_keeps_tables(s, root, shared, va);
    assert(outside(s, s0, one));
    lemma_tables_split(s0, root, va);
    lemma_cow_steps(s, root, va);
    lemma_changed_table_kept(s, root, va);
    let (s1, own_pte) = tables_split(s0, root, va);
    let t = cow::cow_resolved(s, root, va);
    let idx = entry::table_index(va, 0);
    if own_pte != one {
        assert(soundness::in_pool(s0.pool, own_pte));
        assert(soundness::in_pool(s.pool, own_pte));
    }
    lemma_outside_then(s, s0, s1, one, one);
    assert(soundness::is_page(s1, own_pte)) by {
        assert(soundness::reach(s1, root, va, 0));
    }
    assert forall|pa: u64, i: int| pa % 4096 == 0 && pa != own_pte && 0 <= i < 512 implies #[trigger] t.rd(
        pa,
        i,
    ) == s1.rd(pa, i) by {
        soundness::lemma_words_apart(pa, own_pte, i, idx);
    }
    assert(outside(s, t, one)) by {
        assert forall|pa: u64, i: int|
            pa % 4096 == 0 && 0 <= i < 512 && !soundness::in_pool(s.pool, pa) && pa
                != one implies #[trigger] t.rd(pa, i) == s.rd(pa, i) by {
            assert(pa != own_pte);
            assert(s1.rd(pa, i) == s.rd(pa, i));
        }
    }
    assert forall|i: int| 0 <= i < 512 implies #[trigger] t.rd(copy, i) == s.rd(shared, i) by {
        assert(s1.rd(copy, i) == s0.rd(copy, i));
        assert(s0.rd(copy, i) == s.rd(shared, i));
    }
}

proof fn lemma_changed_table_kept(s: MachineState, root: u64, va: u64)
    requires
        soundness::sound(s, root),
        soundness::reach(s, root, va, 0),
    ensures
        !soundness::in_pool(s.pool, changed_table(s, root, va)),
{
    lemma_reach_up(s, root, va, 0, 1);
    lemma_reach_up(s, root, va, 0, 2);
    assert(soundness::reach(s, root, va, 3));
}

/// A process does not see what another one writes to pages that they share:
/// after a copy on write of the one, the other finds all its pages where they
/// were. The other must not have the table that is changed.
pub proof fn law_copy_on_write_isolates(
    s: MachineState,
    root: u64,
    va: u64,
    user_access: bool,
    other: u64,
)
    requires
        soundness::sound(s, root),
        s.pool.available() >= copy_takes(s, root, va),
        cow::cow_applies(s, root, va, user_access),
        marked_down(s, root, va),
        ({
            let e = walk::leaf_below(s, root, va, 3)->0;
            &&& e & 0x0000_FFFF_FFFF_F000 == entry::strip(s.c_bit, e)
            &&& soundness::is_page(s, entry::strip(s.c_bit, e))
            &&& !soundness::in_pool(s.pool, entry::strip(s.c_bit, e))
            &&& entry::strip(s.c_bit, e) != changed_table(s, root, va)
        }),
        soundness::sound(s, other),
        forall|vb: u64, l: int|
            0 <= l <= 3 && #[trigger] soundness::reach(s, other, vb, l) ==> soundness::tab(
                s,
                other,
                vb,
                l,
            ) != changed_table(s, root, va),
    ensures
        ({
            let t = cow::cow_resolved(s, root, va);
            &&& soundness::sound(t, other)
            &&& forall|vb: u64| #[trigger]
                walk::leaf_below(t, other, vb, 3) == walk::leaf_below(s, other, vb, 3)
        }),
{
    law_copy_on_write(s, root, va, user_access);
    lemma_untouched(s, cow::cow_resolved(s, root, va), other, changed_table(s, root, va));
}

proof fn lemma_apart(s: MachineState, root: u64, va: u64, l: int, k: int)
    requires
        soundness::sound(s, root),
        soundness::reach(s, root, va, 0),
        0 <= l < k <= 3,
    ensures
        soundness::tab(s, root, va, l) != soundness::tab(s, root, va, k),
        !soundness::in_pool(s.pool, soundness::tab(s, root, va, l)),
        soundness::tab(s, root, va, l) % 4096 == 0,
{
    lemma_reach_up(s, root, va, 0, l);
    lemma_reach_up(s, root, va, 0, k);
}

} // verus!
