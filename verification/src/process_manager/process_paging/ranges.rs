//! What holds of ranges of fresh pages, and of what is copied into them.
use vstd::prelude::*;
use crate::address;
use crate::memory::machine;
use crate::memory::machine::{MachineOp, MachineState};
use crate::process_manager::allocation;
use crate::process_manager::allocation::ALLOCATION_RANGE_VIRT_START;
use crate::process_manager::process_paging::entry;
use crate::process_manager::process_paging::guest_copy;
use crate::process_manager::process_paging::isolation;
use crate::process_manager::process_paging::mapping;
use crate::process_manager::process_paging::soundness;
use crate::process_manager::process_paging::transfer;
use crate::process_manager::process_paging::walk;
use crate::sev::utils::VMPL1_RWX;

verus! {

proof fn lemma_page_number(a: int)
    requires
        0 <= a,
    ensures
        a % 0x1_0000_0000_0000 / 4096 == (a / 4096) % 0x10_0000_0000,
{
    let k = a / 0x1_0000_0000_0000;
    let r = a % 0x1_0000_0000_0000;
    let m = r / 4096;
    assert(0 <= m < 0x10_0000_0000);
    assert(a / 4096 == k * 0x10_0000_0000 + m);
    vstd::arithmetic::div_mod::lemma_mod_multiples_vanish(k, m, 0x10_0000_0000);
    vstd::arithmetic::div_mod::lemma_small_mod(m as nat, 0x10_0000_0000);
}

proof fn lemma_page_above_number(start: u64, i: int)
    requires
        0 <= i,
    ensures
        address::page_above(start, i) as int % 0x1_0000_0000_0000 / 4096 == (start as int / 4096 + i)
            % 0x10_0000_0000,
{
    let a = start + i * 4096;
    let b = a % 0x1_0000_0000_0000_0000;
    let q = a / 0x1_0000_0000_0000_0000;
    assert(a == 0x1_0000_0000_0000 * (q * 0x1_0000) + b);
    vstd::arithmetic::div_mod::lemma_mod_multiples_vanish(q * 0x1_0000, b, 0x1_0000_0000_0000);
    lemma_page_number(a);
    assert(a / 4096 == start as int / 4096 + i);
}

/// Pages of a run that is no longer than the address space are different ones.
pub proof fn lemma_run_pages_differ(start: u64, i: int, j: int)
    requires
        0 <= i < 0x10_0000_0000,
        0 <= j < 0x10_0000_0000,
        i != j,
    ensures
        !soundness::same_page(address::page_above(start, i), address::page_above(start, j)),
{
    lemma_page_above_number(start, i);
    lemma_page_above_number(start, j);
}

/// Taking a page leaves a page table as it is.
pub proof fn lemma_take_keeps_tables(s: MachineState, root: u64)
    requires
        soundness::sound(s, root),
        s.pool.available() > 0,
    ensures
        ({
            let (t, page) = s.take_page();
            &&& soundness::sound(t, root)
            &&& soundness::others_kept(s, t, root)
            &&& !soundness::is_table(t, root, page)
            &&& forall|vb: u64| #[trigger]
                walk::leaf_below(t, root, vb, 3) == walk::leaf_below(s, root, vb, 3)
            &&& forall|vb: u64, l: int|
                0 <= l <= 3 ==> #[trigger] soundness::reach(t, root, vb, l) == soundness::reach(
                    s,
                    root,
                    vb,
                    l,
                )
            &&& forall|vb: u64, l: int|
                0 <= l <= 3 && #[trigger] soundness::reach(s, root, vb, l) ==> soundness::tab(
                    t,
                    root,
                    vb,
                    l,
                ) == soundness::tab(s, root, vb, l)
        }),
{
    let (t, page) = s.take_page();
    soundness::law_taken_page_is_fresh(s);
    assert forall|pa: u64, i: int|
        pa % 4096 == 0 && 0 <= i < 512 && !soundness::in_pool(s.pool, pa) implies #[trigger] t.rd(
        pa,
        i,
    ) == s.rd(pa, i) by {
        assert(pa != page);
    }
    assert(isolation::outside(s, t, 0));
    assert forall|vb: u64, l: int| 0 <= l <= 3 && #[trigger] soundness::reach(s, root, vb, l) implies soundness::tab(
        s,
        root,
        vb,
        l,
    ) != 0 by {
        assert(soundness::is_page(s, soundness::tab(s, root, vb, l)));
    }
    isolation::lemma_untouched(s, t, root, 0);
    assert forall|pa: u64| #[trigger] soundness::is_table(t, root, pa) implies soundness::is_table(
        s,
        root,
        pa,
    ) && !soundness::in_pool(s.pool, pa) by {
        let (vb, k) = choose|vb: u64, k: int|
            0 <= k <= 3 && #[trigger] soundness::reach(t, root, vb, k) && soundness::tab(
                t,
                root,
                vb,
                k,
            ) == pa;
        assert(soundness::reach(t, root, vb, k) == soundness::reach(s, root, vb, k));
        assert(soundness::reach(s, root, vb, k));
    }
}

/// Whether the first `n` pages from `start` on are fresh pages of their own:
/// they were in the pool of `s`, and in `t` they are in use, different from
/// each other, and no tables.
pub open spec fn fresh_run(s: MachineState, t: MachineState, root: u64, start: u64, n: int) -> bool {
    &&& forall|i: int|
        0 <= i < n ==> walk::leaf_below(t, root, #[trigger] address::page_above(start, i), 3) is Some
    &&& forall|i: int|
        0 <= i < n ==> {
            &&& soundness::in_pool(s.pool, #[trigger] transfer::other_page(t, root, start, i))
            &&& soundness::is_page(s, transfer::other_page(t, root, start, i))
            &&& !soundness::in_pool(t.pool, transfer::other_page(t, root, start, i))
            &&& !soundness::is_table(t, root, transfer::other_page(t, root, start, i))
        }
    &&& forall|i: int, j: int|
        0 <= i < n && 0 <= j < n && i != j ==> #[trigger] transfer::other_page(t, root, start, i)
            != #[trigger] transfer::other_page(t, root, start, j)
}

/// The pages that a range of `n` pages takes: one for each of them, and one for
/// each table that is missing on the way to them.
pub open spec fn range_takes(
    s: MachineState,
    root: u64,
    start: u64,
    n: nat,
    flags: u64,
    own: bool,
) -> nat
    decreases n,
{
    if n == 0 {
        0
    } else {
        let k = (n - 1) as nat;
        let b = allocation::range_built(s, root, start, 0, k, flags, own);
        range_takes(s, root, start, k, flags, own) + 1 + walk::walk_end(
            b,
            root,
            address::page_above(start, k as int),
            3,
        ).0
    }
}

/// A walk ends at the same level where the same tables are there.
pub proof fn lemma_same_walk_end(s: MachineState, t: MachineState, root: u64, va: u64)
    requires
        forall|vb: u64, l: int|
            0 <= l <= 3 ==> #[trigger] soundness::reach(t, root, vb, l) == soundness::reach(
                s,
                root,
                vb,
                l,
            ),
    ensures
        walk::walk_end(t, root, va, 3).0 == walk::walk_end(s, root, va, 3).0,
{
    let k = walk::walk_end(s, root, va, 3).0 as int;
    let l = walk::walk_end(t, root, va, 3).0 as int;
    soundness::lemma_walk_end(s, root, va);
    soundness::lemma_walk_end(t, root, va);
    assert(soundness::reach(t, root, va, k) == soundness::reach(s, root, va, k));
    assert(soundness::reach(t, root, va, l) == soundness::reach(s, root, va, l));
    if k < l {
        isolation::lemma_reach_up(t, root, va, k, l - 1);
    } else if l < k {
        isolation::lemma_reach_up(s, root, va, l, k - 1);
    }
}

/// A range that was built consists of fresh pages, each of them found at its
/// address, and nothing else that is in use is changed but the tables of the
/// page table that it is built in.
pub proof fn law_built_range(
    s: MachineState,
    root: u64,
    start: u64,
    n: nat,
    flags: u64,
    own: bool,
)
    requires
        soundness::sound(s, root),
        n <= 0x10_0000_0000,
        s.pool.available() >= range_takes(s, root, start, n, flags, own),
        soundness::page_flags(flags),
        flags & 0x1 == 0x1,
    ensures
        ({
            let t = allocation::range_built(s, root, start, 0, n, flags, own);
            &&& soundness::sound(t, root)
            &&& soundness::others_kept(s, t, root)
            &&& t.pool.available() == s.pool.available() - range_takes(s, root, start, n, flags, own)
            &&& fresh_run(s, t, root, start, n as int)
            &&& forall|vb: u64|
                (forall|i: int|
                    0 <= i < n ==> !soundness::same_page(
                        #[trigger] address::page_above(start, i),
                        vb,
                    )) ==> #[trigger] walk::leaf_below(t, root, vb, 3) == walk::leaf_below(
                    s,
                    root,
                    vb,
                    3,
                )
        }),
    decreases n,
{
    if n == 0 {
        let t = allocation::range_built(s, root, start, 0, n, flags, own);
        assert(t == s);
    } else {
        let k = (n - 1) as nat;
        let b = allocation::range_built(s, root, start, 0, k, flags, own);
        law_built_range(s, root, start, k, flags, own);
        let (u, page) = b.take_page();
        soundness::law_taken_page_is_fresh(b);
        lemma_take_keeps_tables(b, root);
        let w = if own {
            u
        } else {
            u.op(MachineOp::Adjust { page, flags: VMPL1_RWX, required: false })
        };
        lemma_op_keeps(u, w, root);
        let va = address::page_above(start, k as int);
        let t = mapping::map_page(w, root, va, page, flags);
        assert(t == allocation::range_built(s, root, start, 0, n, flags, own));
        soundness::lemma_walk_end(w, root, va);
        lemma_same_walk_end(b, u, root, va);
        lemma_same_walk_end(u, w, root, va);
        soundness::law_mapped_page_is_found(w, root, va, page, flags);
        soundness::lemma_others_kept(s, b, u, root);
        soundness::lemma_others_kept(s, u, w, root);
        soundness::lemma_others_kept(s, w, t, root);
        assert forall|i: int| 0 <= i < n implies walk::leaf_below(
            t,
            root,
            #[trigger] address::page_above(start, i),
            3,
        ) is Some && transfer::other_page(t, root, start, i) == (if i == k {
            page
        } else {
            transfer::other_page(b, root, start, i)
        }) by {
            let vi = address::page_above(start, i);
            if i != k {
                lemma_run_pages_differ(start, k as int, i);
                assert(walk::leaf_below(t, root, vi, 3) == walk::leaf_below(w, root, vi, 3));
                assert(walk::leaf_below(u, root, vi, 3) == walk::leaf_below(b, root, vi, 3));
                assert(walk::leaf_below(b, root, vi, 3) is Some);
            }
        }
        assert forall|i: int| 0 <= i < n implies soundness::in_pool(
            s.pool,
            #[trigger] transfer::other_page(t, root, start, i),
        ) && soundness::is_page(s, transfer::other_page(t, root, start, i)) && !soundness::in_pool(
            t.pool,
            transfer::other_page(t, root, start, i),
        ) && !soundness::is_table(t, root, transfer::other_page(t, root, start, i)) by {
            let vi = address::page_above(start, i);
            let f = transfer::other_page(t, root, start, i);
            if i == k {
                assert(f == page);
                assert(soundness::in_pool(b.pool, page));
                assert(soundness::in_pool(s.pool, page));
            } else {
                assert(f == transfer::other_page(b, root, start, i));
                assert(!soundness::in_pool(b.pool, f));
                if soundness::in_pool(u.pool, f) {
                    assert(soundness::in_pool(b.pool, f));
                }
                if soundness::is_table(u, root, f) {
                    assert(soundness::is_table(b, root, f) || soundness::in_pool(b.pool, f));
                }
            }
            assert(!soundness::in_pool(w.pool, f));
            assert(!soundness::is_table(w, root, f)) by {
                if soundness::is_table(w, root, f) {
                    assert(soundness::is_table(u, root, f) || soundness::in_pool(u.pool, f));
                }
            }
            if soundness::in_pool(t.pool, f) {
                assert(soundness::in_pool(w.pool, f));
            }
        }
        assert forall|i: int, j: int| 0 <= i < n && 0 <= j < n && i != j implies #[trigger] transfer::other_page(
            t,
            root,
            start,
            i,
        ) != #[trigger] transfer::other_page(t, root, start, j) by {
            let vi = address::page_above(start, i);
            let vj = address::page_above(start, j);
            if i < k {
                assert(!soundness::in_pool(b.pool, transfer::other_page(b, root, start, i)));
            }
            if j < k {
                assert(!soundness::in_pool(b.pool, transfer::other_page(b, root, start, j)));
            }
        }
        assert forall|vb: u64|
            (forall|i: int|
                0 <= i < n ==> !soundness::same_page(
                    #[trigger] address::page_above(start, i),
                    vb,
                )) implies #[trigger] walk::leaf_below(t, root, vb, 3) == walk::leaf_below(
            s,
            root,
            vb,
            3,
        ) by {
            assert(!soundness::same_page(va, vb));
            assert(walk::leaf_below(t, root, vb, 3) == walk::leaf_below(w, root, vb, 3));
            assert(walk::leaf_below(u, root, vb, 3) == walk::leaf_below(b, root, vb, 3));
            assert(walk::leaf_below(b, root, vb, 3) == walk::leaf_below(s, root, vb, 3));
        }
    }
}

/// An instruction that is asked for changes no page table.
pub proof fn lemma_op_keeps(s: MachineState, t: MachineState, root: u64)
    requires
        soundness::sound(s, root),
        t == (MachineState { ops: t.ops, ..s }),
    ensures
        soundness::sound(t, root),
        soundness::others_kept(s, t, root),
        forall|vb: u64| #[trigger]
            walk::leaf_below(t, root, vb, 3) == walk::leaf_below(s, root, vb, 3),
        forall|vb: u64, l: int|
            0 <= l <= 3 ==> #[trigger] soundness::reach(t, root, vb, l) == soundness::reach(
                s,
                root,
                vb,
                l,
            ),
        forall|vb: u64, l: int|
            0 <= l <= 3 && #[trigger] soundness::reach(s, root, vb, l) ==> soundness::tab(
                t,
                root,
                vb,
                l,
            ) == soundness::tab(s, root, vb, l),
{
    assert(soundness::pool_sound(t)) by {
        assert forall|pa: u64|
            pa % 4096 == 0 && #[trigger] soundness::in_region(t.pool, pa) implies soundness::is_page(
            t,
            pa,
        ) by {
            assert(soundness::in_region(s.pool, pa));
        }
    }
    assert forall|pa: u64, i: int| #[trigger] t.rd(pa, i) == s.rd(pa, i) by {
    }
    assert(isolation::outside(s, t, 0));
    assert forall|vb: u64, l: int| 0 <= l <= 3 && #[trigger] soundness::reach(s, root, vb, l) implies soundness::tab(
        s,
        root,
        vb,
        l,
    ) != 0 by {
        assert(soundness::is_page(s, soundness::tab(s, root, vb, l)));
    }
    isolation::lemma_untouched(s, t, root, 0);
    assert forall|pa: u64| #[trigger] soundness::is_table(t, root, pa) implies soundness::is_table(
        s,
        root,
        pa,
    ) by {
        let (vb, k) = choose|vb: u64, k: int|
            0 <= k <= 3 && #[trigger] soundness::reach(t, root, vb, k) && soundness::tab(
                t,
                root,
                vb,
                k,
            ) == pa;
        assert(soundness::reach(t, root, vb, k) == soundness::reach(s, root, vb, k));
    }
}

proof fn lemma_cleared_way(s: MachineState, root: u64, i: int, vb: u64, k: int)
    requires
        soundness::sound(s, root),
        0 <= i < 512,
        0 <= k <= 3,
        soundness::reach(s.wr(root, i, 0), root, vb, k),
    ensures
        soundness::reach(s, root, vb, k),
        soundness::tab(s.wr(root, i, 0), root, vb, k) == soundness::tab(s, root, vb, k),
        k < 3 ==> entry::table_index(vb, 3) != i,
    decreases 3 - k,
{
    let t = s.wr(root, i, 0);
    if k < 3 {
        lemma_cleared_way(s, root, i, vb, k + 1);
        let tb = soundness::tab(s, root, vb, k + 1);
        let j = entry::table_index(vb, k + 1);
        assert(soundness::reach(s, root, vb, 3));
        assert(soundness::is_page(s, root));
        assert(soundness::reach(s, root, vb, k + 1));
        assert(soundness::is_page(s, tb));
        assert(!entry::present(0)) by {
            entry::lemma_empty();
        }
        if k + 1 == 3 {
            if j == i {
                assert(t.rd(root, i) == 0);
            }
        } else {
            assert(tb != root) by {
                if tb == root {
                    assert(k + 1 == 3);
                }
            }
            soundness::lemma_words_apart(tb, root, j, i);
        }
        assert(t.rd(tb, j) == s.rd(tb, j));
    }
}

/// A slot of a root table can be cleared: the page table stays sound, and
/// nothing that is in use is changed but its root.
pub proof fn lemma_cleared_slot(s: MachineState, root: u64, i: int)
    requires
        soundness::sound(s, root),
        0 <= i < 512,
    ensures
        soundness::sound(s.wr(root, i, 0), root),
        soundness::others_kept(s, s.wr(root, i, 0), root),
{
    let t = s.wr(root, i, 0);
    assert(soundness::reach(s, root, 0, 3));
    assert(soundness::is_page(s, root) && soundness::is_table(s, root, root));
    assert forall|vb: u64, k: int| 0 <= k <= 3 && #[trigger] soundness::reach(t, root, vb, k) implies soundness::reach(
        s,
        root,
        vb,
        k,
    ) && soundness::tab(t, root, vb, k) == soundness::tab(s, root, vb, k) by {
        lemma_cleared_way(s, root, i, vb, k);
    }
    assert(soundness::pool_sound(t)) by {
        assert forall|pa: u64|
            pa % 4096 == 0 && #[trigger] soundness::in_region(t.pool, pa) implies soundness::is_page(
            t,
            pa,
        ) by {
            assert(soundness::in_region(s.pool, pa));
        }
    }
    assert(soundness::tables_kept(t, root)) by {
        assert forall|vb: u64, k: int|
            0 <= k <= 3 && #[trigger] soundness::reach(t, root, vb, k) implies soundness::is_page(
            t,
            soundness::tab(t, root, vb, k),
        ) && !soundness::in_pool(t.pool, soundness::tab(t, root, vb, k)) by {
            assert(soundness::reach(s, root, vb, k));
        }
    }
    assert(soundness::tables_tree(t, root)) by {
        assert forall|va: u64, l: int, vb: u64, k: int|
            0 <= l <= 3 && 0 <= k <= 3 && #[trigger] soundness::reach(t, root, va, l)
                && #[trigger] soundness::reach(t, root, vb, k) && soundness::tab(t, root, va, l)
                == soundness::tab(t, root, vb, k) implies l == k && soundness::same_way(va, vb, l) by {
            assert(soundness::reach(s, root, va, l) && soundness::reach(s, root, vb, k));
        }
    }
    assert forall|pa: u64| #[trigger] soundness::is_table(t, root, pa) implies soundness::is_table(
        s,
        root,
        pa,
    ) by {
        let (vb, k) = choose|vb: u64, k: int|
            0 <= k <= 3 && #[trigger] soundness::reach(t, root, vb, k) && soundness::tab(
                t,
                root,
                vb,
                k,
            ) == pa;
        assert(soundness::reach(s, root, vb, k));
    }
    assert forall|pa: u64, j: int|
        pa % 4096 == 0 && 0 <= j < 512 && !soundness::in_pool(s.pool, pa) && !soundness::is_table(
            s,
            root,
            pa,
        ) implies #[trigger] t.rd(pa, j) == s.rd(pa, j) by {
        soundness::lemma_words_apart(pa, root, j, i);
    }
}

/// Whether an address of another address space has nothing to do with the
/// monitor's: neither its page nor a table on the way to it is one that can be
/// handed out or a table of the monitor.
pub open spec fn stranger(s: MachineState, root: u64, va: u64) -> bool {
    &&& forall|l: int|
        0 <= l <= 3 && #[trigger] soundness::reach(s, root, va, l) ==> {
            let table = soundness::tab(s, root, va, l);
            !soundness::in_pool(s.pool, table) && !soundness::is_table(s, s.cr3, table)
        }
    &&& !soundness::in_pool(s.pool, walk::translate(s, root, va))
    &&& !soundness::is_table(s, s.cr3, walk::translate(s, root, va))
}

proof fn lemma_stranger_level(s: MachineState, t: MachineState, root: u64, va: u64, l: int)
    requires
        root % 4096 == 0,
        stranger(s, root, va),
        soundness::others_kept(s, t, s.cr3),
        0 <= l <= 3,
    ensures
        soundness::reach(t, root, va, l) == soundness::reach(s, root, va, l),
        soundness::reach(s, root, va, l) ==> soundness::tab(t, root, va, l) == soundness::tab(
            s,
            root,
            va,
            l,
        ),
    decreases 3 - l,
{
    if l < 3 {
        lemma_stranger_level(s, t, root, va, l + 1);
        if soundness::reach(s, root, va, l + 1) {
            let tb = soundness::tab(s, root, va, l + 1);
            let i = entry::table_index(va, l + 1);
            if l + 1 < 3 {
                entry::lemma_strip_bound(
                    s.c_bit,
                    walk::entry_in(
                        s,
                        soundness::tab(s, root, va, l + 2),
                        va,
                        (l + 2) as nat,
                    ),
                );
            }
            assert(t.rd(tb, i) == s.rd(tb, i));
        }
    }
}

/// What has nothing to do with the monitor is not touched by what it does with
/// its own page table.
proof fn lemma_stranger_kept(s: MachineState, t: MachineState, root: u64, va: u64)
    requires
        root % 4096 == 0,
        stranger(s, root, va),
        soundness::others_kept(s, t, s.cr3),
    ensures
        walk::translate(t, root, va) == walk::translate(s, root, va),
        machine::page_words(t.mem, walk::translate(s, root, va)) == machine::page_words(
            s.mem,
            walk::translate(s, root, va),
        ),
        forall|l: int|
            0 <= l <= 3 && #[trigger] soundness::reach(t, root, va, l) ==> {
                let table = soundness::tab(t, root, va, l);
                !soundness::in_pool(s.pool, table) && !soundness::is_table(s, s.cr3, table)
            },
{
    assert forall|l: int| 0 <= l <= 3 implies #[trigger] soundness::reach(t, root, va, l)
        == soundness::reach(s, root, va, l) && (soundness::reach(s, root, va, l) ==> soundness::tab(
        t,
        root,
        va,
        l,
    ) == soundness::tab(s, root, va, l)) by {
        lemma_stranger_level(s, t, root, va, l);
    }
    soundness::lemma_leaf(s, root, va);
    soundness::lemma_leaf(t, root, va);
    assert(soundness::reach(t, root, va, 0) == soundness::reach(s, root, va, 0));
    if soundness::reach(s, root, va, 0) {
        let tb = soundness::tab(s, root, va, 0);
        entry::lemma_strip_bound(
            s.c_bit,
            walk::entry_in(s, soundness::tab(s, root, va, 1), va, 1),
        );
        assert(t.rd(tb, entry::table_index(va, 0)) == s.rd(tb, entry::table_index(va, 0)));
    }
    let page = walk::translate(s, root, va);
    match walk::leaf_below(s, root, va, 3) {
        Some(e) => entry::lemma_strip_bound(s.c_bit, e),
        None => {},
    }
    assert forall|i: int| 0 <= i < 512 implies #[trigger] machine::page_words(t.mem, page)[i]
        == machine::page_words(s.mem, page)[i] by {
        assert(t.rd(page, i) == s.rd(page, i));
    }
    assert(machine::page_words(t.mem, page) =~= machine::page_words(s.mem, page));
}

/// The machine when a fresh range for the monitor is there and mounted.
proof fn lemma_range_for_monitor(s: MachineState, pages: u64)
    requires
        soundness::sound(s, s.cr3),
        pages <= 0x10_0000_0000,
        s.pool.available() >= range_takes(
            allocation::stale_cleared(s),
            s.cr3,
            ALLOCATION_RANGE_VIRT_START,
            pages as nat,
            0x63,
            true,
        ),
    ensures
        ({
            let t = allocation::range_for_monitor(s, pages).0;
            &&& soundness::sound(t, s.cr3)
            &&& soundness::others_kept(s, t, s.cr3)
            &&& fresh_run(s, t, s.cr3, ALLOCATION_RANGE_VIRT_START, pages as int)
        }),
{
    let root = s.cr3;
    let a = allocation::stale_cleared(s);
    if s.rd(root, 6) != 0 {
        lemma_cleared_slot(s, root, 6);
        lemma_op_keeps(s.wr(root, 6, 0), a, root);
        soundness::lemma_others_kept(s, s.wr(root, 6, 0), a, root);
    } else {
        assert(a == s);
    }
    let b = allocation::range_built(
        a,
        root,
        ALLOCATION_RANGE_VIRT_START,
        0,
        pages as nat,
        0x63,
        true,
    );
    let t = b.op(MachineOp::FlushTlb);
    assert(soundness::page_flags(0x63) && 0x63u64 & 0x1 == 0x1) by {
        assert(0x63u64 & 0x000F_FFFF_FFFF_F000 == 0 && 0x63u64 & 0x400 != 0x400 && 0x63u64 & 0x1
            == 0x1) by (bit_vector);
    }
    assert(soundness::others_kept(s, a, root));
    assert(a.pool == s.pool);
    law_built_range(a, root, ALLOCATION_RANGE_VIRT_START, pages as nat, 0x63, true);
    soundness::lemma_others_kept(s, a, b, root);
    lemma_op_keeps(b, t, root);
    soundness::lemma_others_kept(s, b, t, root);
    assert(fresh_run(s, t, root, ALLOCATION_RANGE_VIRT_START, pages as int)) by {
        assert forall|i: int| 0 <= i < pages implies walk::leaf_below(
            t,
            root,
            #[trigger] address::page_above(ALLOCATION_RANGE_VIRT_START, i),
            3,
        ) is Some && transfer::other_page(t, root, ALLOCATION_RANGE_VIRT_START, i)
            == transfer::other_page(b, root, ALLOCATION_RANGE_VIRT_START, i) by {
            let va = address::page_above(ALLOCATION_RANGE_VIRT_START, i);
            assert(walk::leaf_below(t, root, va, 3) == walk::leaf_below(b, root, va, 3));
        }
        assert forall|i: int| 0 <= i < pages implies {
            let f = #[trigger] transfer::other_page(t, root, ALLOCATION_RANGE_VIRT_START, i);
            &&& soundness::in_pool(s.pool, f)
            &&& soundness::is_page(s, f)
            &&& !soundness::in_pool(t.pool, f)
            &&& !soundness::is_table(t, root, f)
        } by {
            let va = address::page_above(ALLOCATION_RANGE_VIRT_START, i);
            let f = transfer::other_page(t, root, ALLOCATION_RANGE_VIRT_START, i);
            assert(f == transfer::other_page(b, root, ALLOCATION_RANGE_VIRT_START, i));
            if soundness::is_table(t, root, f) {
                assert(soundness::is_table(b, root, f) || soundness::in_pool(b.pool, f));
            }
        }
        assert forall|i: int, j: int| 0 <= i < pages && 0 <= j < pages && i != j implies #[trigger] transfer::other_page(
            t,
            root,
            ALLOCATION_RANGE_VIRT_START,
            i,
        ) != #[trigger] transfer::other_page(t, root, ALLOCATION_RANGE_VIRT_START, j) by {
            let vi = address::page_above(ALLOCATION_RANGE_VIRT_START, i);
            let vj = address::page_above(ALLOCATION_RANGE_VIRT_START, j);
            assert(transfer::other_page(t, root, ALLOCATION_RANGE_VIRT_START, i)
                == transfer::other_page(b, root, ALLOCATION_RANGE_VIRT_START, i));
            assert(transfer::other_page(t, root, ALLOCATION_RANGE_VIRT_START, j)
                == transfer::other_page(b, root, ALLOCATION_RANGE_VIRT_START, j));
        }
    }
}

/// Data that was fetched from the guest is what the guest has: page by page,
/// the monitor finds the guest's words in the range that it keeps them in.
pub proof fn law_fetched_data_is_the_guests(s: MachineState, addr: u64, size: u64, guest_root: u64)
    requires
        soundness::sound(s, s.cr3),
        guest_copy::pages_over(size) <= 0x10_0000_0000,
        s.pool.available() >= range_takes(
            allocation::stale_cleared(s),
            s.cr3,
            ALLOCATION_RANGE_VIRT_START,
            guest_copy::pages_over(size),
            0x63,
            true,
        ),
        guest_root % 4096 == 0,
        forall|i: int|
            0 <= i < guest_copy::pages_over(size) ==> stranger(
                s,
                guest_root,
                #[trigger] address::page_above(addr, i),
            ),
    ensures
        ({
            let (t, _) = guest_copy::fetched(s, addr, size, guest_root);
            forall|i: int|
                0 <= i < guest_copy::pages_over(size) ==> walk::mounted_words(
                    t,
                    #[trigger] address::page_above(ALLOCATION_RANGE_VIRT_START, i),
                ) == machine::page_words(
                    s.mem,
                    walk::translate(s, guest_root, address::page_above(addr, i)),
                )
        }),
{
    let n = guest_copy::pages_over(size);
    let root = s.cr3;
    let start = ALLOCATION_RANGE_VIRT_START;
    let (c, _) = allocation::range_for_monitor(s, n as u64);
    lemma_range_for_monitor(s, n as u64);
    assert(c.cr3 == root);
    assert forall|j: int| 0 <= j < n implies walk::translate(
        c,
        guest_root,
        #[trigger] address::page_above(addr, j),
    ) == walk::translate(s, guest_root, address::page_above(addr, j)) by {
        lemma_stranger_kept(s, c, guest_root, address::page_above(addr, j));
    }
    assert(transfer::apart(c, guest_root, addr, root, start, n as int)) by {
        assert(soundness::reach(c, root, 0, 3));
        assert(soundness::is_page(c, root));
        assert forall|i: int| 0 <= i < n implies #[trigger] transfer::other_page(c, root, start, i) as int / 8
            + 512 <= c.mem.len() by {
        }
        assert forall|i: int, j: int| 0 <= i < n && 0 <= j < n && i != j implies #[trigger] transfer::other_page(
            c,
            root,
            start,
            i,
        ) != #[trigger] transfer::other_page(c, root, start, j) by {
        }
        assert forall|i: int, j: int| 0 <= i < n && 0 <= j < n implies #[trigger] transfer::other_page(
            c,
            root,
            start,
            i,
        ) != #[trigger] transfer::other_page(c, guest_root, addr, j) by {
            let va = address::page_above(addr, j);
            assert(stranger(s, guest_root, va));
            assert(walk::translate(c, guest_root, va) == walk::translate(s, guest_root, va));
        }
        assert forall|i: int, j: int| 0 <= i < n && 0 <= j < n implies transfer::way_avoids(
            c,
            c.cr3,
            #[trigger] address::page_above(start, j),
            #[trigger] transfer::other_page(c, root, start, i),
        ) by {
            let f = transfer::other_page(c, root, start, i);
            assert(!soundness::is_table(c, root, f));
        }
        assert forall|i: int, j: int| 0 <= i < n && 0 <= j < n implies transfer::way_avoids(
            c,
            guest_root,
            #[trigger] address::page_above(addr, j),
            #[trigger] transfer::other_page(c, root, start, i),
        ) by {
            let f = transfer::other_page(c, root, start, i);
            assert(soundness::in_pool(s.pool, f));
            lemma_stranger_kept(s, c, guest_root, address::page_above(addr, j));
        }
    }
    transfer::law_copied_in_pages(c, guest_root, addr, start, n);
    let t = guest_copy::copied_in(c, guest_root, addr, start, n);
    assert forall|i: int| 0 <= i < n implies walk::mounted_words(
        t,
        #[trigger] address::page_above(start, i),
    ) == machine::page_words(
        s.mem,
        walk::translate(s, guest_root, address::page_above(addr, i)),
    ) by {
        lemma_stranger_kept(s, c, guest_root, address::page_above(addr, i));
    }
}

} // verus!
