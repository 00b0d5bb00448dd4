//! What a range takes from the pool, and what it gives back.
use vstd::prelude::*;
use crate::address;
use crate::memory::machine::MachineState;
use crate::process_manager::allocation;
use crate::process_manager::allocation::{AllocationRange, ALLOCATION_RANGE_VIRT_START};
use crate::process_manager::process_paging::delivery;
use crate::process_manager::process_paging::entry;
use crate::process_manager::process_paging::growth;
use crate::process_manager::process_paging::mapping;
use crate::process_manager::process_paging::ranges;
use crate::process_manager::process_paging::region;
use crate::process_manager::process_paging::region::RunTables;
use crate::process_manager::process_paging::soundness;
use crate::process_manager::process_paging::teardown;
use crate::process_manager::process_paging::transfer;
use crate::process_manager::process_paging::walk;

verus! {

/// 1 where something is missing, else 0.
pub open spec fn missing(there: bool) -> int {
    if there {
        0
    } else {
        1
    }
}

/// Whether the ways of `t` are those of `s` and the way to `va`, from level
/// `top` down to level `l`.
pub open spec fn ways_added(
    s: MachineState,
    t: MachineState,
    root: u64,
    va: u64,
    top: int,
    l: int,
) -> bool {
    &&& forall|vb: u64, k: int|
        0 <= k <= 3 ==> #[trigger] soundness::reach(t, root, vb, k) == (soundness::reach(
            s,
            root,
            vb,
            k,
        ) || (l <= k <= top && soundness::same_way(va, vb, k)))
    &&& forall|vb: u64, k: int|
        0 <= k <= 3 && #[trigger] soundness::reach(s, root, vb, k) ==> soundness::tab(
            t,
            root,
            vb,
            k,
        ) == soundness::tab(s, root, vb, k)
}

proof fn lemma_ways_joined(
    s: MachineState,
    t: MachineState,
    u: MachineState,
    root: u64,
    va: u64,
    top: int,
    mid: int,
    l: int,
)
    requires
        ways_added(s, t, root, va, top, mid),
        ways_added(t, u, root, va, mid - 1, l),
        l <= mid <= top + 1,
    ensures
        ways_added(s, u, root, va, top, l),
{
    assert forall|vb: u64, k: int| 0 <= k <= 3 implies #[trigger] soundness::reach(u, root, vb, k)
        == (soundness::reach(s, root, vb, k) || (l <= k <= top && soundness::same_way(va, vb, k))) by {
        assert(soundness::reach(t, root, vb, k) == (soundness::reach(s, root, vb, k) || (mid <= k
            <= top && soundness::same_way(va, vb, k))));
    }
    assert forall|vb: u64, k: int| 0 <= k <= 3 && #[trigger] soundness::reach(
        s,
        root,
        vb,
        k,
    ) implies soundness::tab(u, root, vb, k) == soundness::tab(s, root, vb, k) by {
        assert(soundness::reach(t, root, vb, k));
    }
}

/// What completing a table entry takes: a page, where there is no table.
proof fn lemma_table_taken(s: MachineState, root: u64, va: u64, l: int)
    requires
        soundness::sound(s, root),
        1 <= l <= 3,
        soundness::reach(s, root, va, l),
        s.pool.available() >= missing(soundness::reach(s, root, va, l - 1)),
    ensures
        ({
            let top = soundness::tab(s, root, va, l);
            let t = region::fill_entry(s, top, va, l, entry::TABLE_FLAGS);
            &&& growth::led(s, t, root, va, l - 1)
            &&& t.pool.available() == s.pool.available() - missing(
                soundness::reach(s, root, va, l - 1),
            )
            &&& ways_added(s, t, root, va, l - 1, l - 1)
        }),
{
    let top = soundness::tab(s, root, va, l);
    let t = region::fill_entry(s, top, va, l, entry::TABLE_FLAGS);
    if soundness::reach(s, root, va, l - 1) {
        assert(t == s);
        assert forall|vb: u64, k: int| 0 <= k <= 3 implies #[trigger] soundness::reach(
            t,
            root,
            vb,
            k,
        ) == (soundness::reach(s, root, vb, k) || (k == l - 1 && soundness::same_way(va, vb, k))) by {
            if k == l - 1 && soundness::same_way(va, vb, k) {
                soundness::lemma_same_way(s, root, va, vb, k);
            }
        }
        assert(soundness::others_kept(s, t, root));
    } else {
        assert(!entry::present(walk::entry_in(s, top, va, l as nat)));
        soundness::lemma_hang(s, root, va, l as nat);
        let (u, fresh) = mapping::hang_table(s, top, va, l as nat);
        assert(t == (MachineState { ops: t.ops, ..u }));
        ranges::lemma_op_keeps(u, t, root);
        soundness::lemma_others_kept(s, u, t, root);
        assert(soundness::reach(t, root, va, l - 1) == soundness::reach(u, root, va, l - 1));
        assert(soundness::reach(u, root, va, l - 1));
        assert forall|vb: u64| #[trigger]
            walk::leaf_below(t, root, vb, 3) == walk::leaf_below(s, root, vb, 3) by {
            assert(walk::leaf_below(t, root, vb, 3) == walk::leaf_below(u, root, vb, 3));
        }
        assert forall|vb: u64, k: int| 0 <= k <= 3 implies #[trigger] soundness::reach(
            t,
            root,
            vb,
            k,
        ) == (soundness::reach(s, root, vb, k) || (k == l - 1 && soundness::same_way(va, vb, k))) by {
            assert(soundness::reach(t, root, vb, k) == soundness::reach(u, root, vb, k));
            if soundness::reach(s, root, vb, k) {
                assert(soundness::reach(u, root, vb, k));
            } else if k == l - 1 && soundness::same_way(va, vb, k) {
                soundness::lemma_same_way(u, root, va, vb, k);
            }
        }
        assert forall|vb: u64, k: int| 0 <= k <= 3 && #[trigger] soundness::reach(
            s,
            root,
            vb,
            k,
        ) implies soundness::tab(t, root, vb, k) == soundness::tab(s, root, vb, k) by {
            assert(soundness::reach(u, root, vb, k));
        }
    }
}

/// The number of tables that are missing on the way to `va`.
pub open spec fn tables_missing(s: MachineState, root: u64, va: u64) -> int {
    missing(soundness::reach(s, root, va, 2)) + missing(soundness::reach(s, root, va, 1)) + missing(
        soundness::reach(s, root, va, 0),
    )
}

/// What completing the tables on the way to a page takes.
pub proof fn lemma_tables_taken(s: MachineState, root: u64, va: u64, last: Option<RunTables>)
    requires
        soundness::sound(s, root),
        s.pool.available() >= tables_missing(s, root, va),
        growth::run_known(s, root, va, last),
    ensures
        ({
            let (t, tables) = region::run_tables(s, root, va, last);
            &&& growth::led(s, t, root, va, 0)
            &&& t.pool.available() == s.pool.available() - tables_missing(s, root, va)
            &&& ways_added(s, t, root, va, 2, 0)
            &&& tables.pte == soundness::tab(t, root, va, 0)
            &&& tables.pud == soundness::tab(t, root, va, 2)
        }),
{
    reveal(region::run_tables);
    let same_pud = last is Some && entry::table_index(va, 1) != 0;
    let same_pgd = last is Some && (entry::table_index(va, 2) != 0 || same_pud);
    let s3 = region::fill_entry(s, root, va, 3, entry::TABLE_FLAGS);
    assert(soundness::tab(s, root, va, 3) == root);
    assert(soundness::reach(s, root, va, 1) ==> soundness::reach(s, root, va, 2));
    assert(soundness::reach(s, root, va, 0) ==> soundness::reach(s, root, va, 1));
    lemma_table_taken(s, root, va, 3);
    assert(same_pgd ==> s3 == s);
    let pud = soundness::tab(s3, root, va, 2);
    assert(soundness::tab(s3, root, va, 3) == root);
    assert(pud == entry::strip(s.c_bit, walk::entry_in(s3, root, va, 3)));
    let s2 = region::fill_entry(s3, pud, va, 2, entry::TABLE_FLAGS);
    assert(soundness::reach(s3, root, va, 1) == soundness::reach(s, root, va, 1));
    assert(soundness::reach(s3, root, va, 0) == soundness::reach(s, root, va, 0));
    lemma_table_taken(s3, root, va, 2);
    assert(same_pud ==> s2 == s3);
    assert(soundness::tab(s2, root, va, 2) == pud);
    let pmd = soundness::tab(s2, root, va, 1);
    assert(pmd == entry::strip(s.c_bit, walk::entry_in(s2, pud, va, 2)));
    let s1 = region::fill_entry(s2, pmd, va, 1, entry::TABLE_FLAGS);
    assert(soundness::reach(s2, root, va, 0) == soundness::reach(s3, root, va, 0));
    lemma_table_taken(s2, root, va, 1);
    assert(soundness::tab(s1, root, va, 1) == pmd) by {
        assert(soundness::reach(s2, root, va, 1));
    }
    assert(soundness::tab(s1, root, va, 2) == pud) by {
        assert(soundness::reach(s2, root, va, 2));
    }
    assert(soundness::tab(s1, root, va, 0) == entry::strip(
        s.c_bit,
        walk::entry_in(s1, pmd, va, 1),
    ));
    growth::lemma_led(s, s3, s2, root, va, 2, 1);
    growth::lemma_led(s, s2, s1, root, va, 1, 0);
    lemma_ways_joined(s, s3, s2, root, va, 2, 2, 1);
    lemma_ways_joined(s, s2, s1, root, va, 2, 1, 0);
}

/// Whether a page has a frame that was in the pool of `s` and is in use in `w`,
/// and is no table.
spec fn fresh_page(s: MachineState, w: MachineState, root: u64, va: u64) -> bool {
    let page = walk::translate(w, root, va);
    &&& walk::leaf_below(w, root, va, 3) is Some
    &&& soundness::in_pool(s.pool, page)
    &&& soundness::is_page(s, page)
    &&& !soundness::in_pool(w.pool, page)
    &&& !soundness::is_table(w, root, page)
}

/// What completing a page takes, where it is missing.
proof fn lemma_page_taken(s: MachineState, root: u64, va: u64, flags: u64, last: Option<RunTables>)
    requires
        soundness::sound(s, root),
        s.pool.available() >= tables_missing(s, root, va) + 1,
        walk::leaf_below(s, root, va, 3) is None,
        soundness::page_flags(flags),
        flags & 0x1 == 0x1,
        growth::run_known(s, root, va, last),
        last is Some && entry::table_index(va, 0) != 0 ==> last->0.pud == soundness::tab(
            s,
            root,
            va,
            2,
        ),
    ensures
        ({
            let (w, tables) = growth::page_completed(s, root, va, flags, last);
            &&& soundness::sound(w, root)
            &&& soundness::others_kept(s, w, root)
            &&& w.pool.available() == s.pool.available() - tables_missing(s, root, va) - 1
            &&& ways_added(s, w, root, va, 2, 0)
            &&& tables.pte == soundness::tab(w, root, va, 0)
            &&& tables.pud == soundness::tab(w, root, va, 2)
            &&& fresh_page(s, w, root, va)
            &&& forall|vb: u64|
                !soundness::same_page(va, vb) ==> #[trigger] walk::leaf_below(w, root, vb, 3)
                    == walk::leaf_below(s, root, vb, 3)
        }),
{
    let known = last is Some && entry::table_index(va, 0) != 0;
    let (b, tables) = match last {
        Some(tables) if entry::table_index(va, 0) != 0 => (s, tables),
        _ => region::run_tables(s, root, va, last),
    };
    assert(soundness::reach(s, root, va, 1) ==> soundness::reach(s, root, va, 2));
    assert(soundness::reach(s, root, va, 0) ==> soundness::reach(s, root, va, 1));
    if known {
        assert(b == s);
        assert forall|vb: u64, k: int| 0 <= k <= 2 && soundness::same_way(
            va,
            vb,
            k,
        ) implies #[trigger] soundness::reach(s, root, vb, k) by {
            soundness::lemma_same_way(s, root, va, vb, k);
        }
        assert(ways_added(s, b, root, va, 2, 0));
        assert(growth::led(s, b, root, va, 0));
    } else {
        lemma_tables_taken(s, root, va, last);
    }
    assert(growth::led(s, b, root, va, 0) && tables.pte == soundness::tab(b, root, va, 0));
    assert(soundness::reach(b, root, va, 1));
    assert(soundness::reach(b, root, va, 2));
    let w = region::fill_entry(b, tables.pte, va, 0, flags);
    soundness::lemma_leaf(b, root, va);
    assert(walk::leaf_below(b, root, va, 3) is None);
    growth::lemma_page_added(b, root, va, flags);
    soundness::lemma_others_kept(s, b, w, root);
    assert(fresh_page(s, w, root, va)) by {
        assert(soundness::in_pool(b.pool, walk::translate(w, root, va)));
    }
    assert forall|vb: u64, k: int| 0 <= k <= 3 implies #[trigger] soundness::reach(w, root, vb, k)
        == (soundness::reach(s, root, vb, k) || (0 <= k <= 2 && soundness::same_way(va, vb, k))) by {
        assert(soundness::reach(b, root, vb, k) == (soundness::reach(s, root, vb, k) || (0 <= k <= 2
            && soundness::same_way(va, vb, k))));
    }
    assert forall|vb: u64, k: int| 0 <= k <= 3 && #[trigger] soundness::reach(
        s,
        root,
        vb,
        k,
    ) implies soundness::tab(w, root, vb, k) == soundness::tab(s, root, vb, k) by {
        assert(soundness::reach(b, root, vb, k));
    }
    assert forall|vb: u64| !soundness::same_page(va, vb) implies #[trigger] walk::leaf_below(
        w,
        root,
        vb,
        3,
    ) == walk::leaf_below(s, root, vb, 3) by {
        assert(walk::leaf_below(b, root, vb, 3) == walk::leaf_below(s, root, vb, 3));
    }
}

/// Whether page `j` of a slot that holds its first `n` pages is as it should
/// be: the tables for the pages that are there are there, and no others.
spec fn shaped(s: MachineState, root: u64, va: u64, j: int, n: int) -> bool {
    &&& soundness::reach(s, root, va, 2) == (n > 0)
    &&& soundness::reach(s, root, va, 1) == (j / 0x4_0000 * 0x4_0000 < n)
    &&& soundness::reach(s, root, va, 0) == (j / 512 * 512 < n)
    &&& (walk::leaf_below(s, root, va, 3) is Some) == (j < n)
}

/// Whether a slot of a root table holds its first `n` pages, and nothing else.
#[verifier::opaque]
spec fn holds_first(s: MachineState, root: u64, at: u64, n: int) -> bool {
    forall|j: int|
        0 <= j < 0x800_0000 ==> shaped(s, root, #[trigger] address::page_above(at, j), j, n)
}

/// The pages that the first `n` pages of a slot take, with their tables.
#[verifier::opaque]
pub open spec fn range_cost(n: int) -> int {
    n + (n + 511) / 512 + (n + 0x3_FFFF) / 0x4_0000 + (if n > 0 {
        1int
    } else {
        0
    })
}

proof fn lemma_shaped(s: MachineState, root: u64, at: u64, j: int, n: int)
    requires
        holds_first(s, root, at, n),
        0 <= j < 0x800_0000,
    ensures
        shaped(s, root, address::page_above(at, j), j, n),
{
    reveal(holds_first);
}

proof fn lemma_shape_step(s: MachineState, w: MachineState, root: u64, at: u64, n: int)
    requires
        at % 0x80_0000_0000 == 0,
        0 <= n < 0x800_0000,
        holds_first(s, root, at, n),
        ways_added(s, w, root, address::page_above(at, n), 2, 0),
        walk::leaf_below(w, root, address::page_above(at, n), 3) is Some,
        forall|vb: u64|
            !soundness::same_page(address::page_above(at, n), vb) ==> #[trigger] walk::leaf_below(
                w,
                root,
                vb,
                3,
            ) == walk::leaf_below(s, root, vb, 3),
    ensures
        holds_first(w, root, at, n + 1),
{
    reveal(holds_first);
    let va = address::page_above(at, n);
    delivery::lemma_slot_page(at, n);
    assert forall|j: int| 0 <= j < 0x800_0000 implies shaped(
        w,
        root,
        #[trigger] address::page_above(at, j),
        j,
        n + 1,
    ) by {
        let vb = address::page_above(at, j);
        delivery::lemma_slot_page(at, j);
        assert(shaped(s, root, vb, j, n));
        let p = j / 512;
        let q = n / 512;
        assert(j / 0x4_0000 == p / 512 && n / 0x4_0000 == q / 512);
        assert(p / 512 < 512 && q / 512 < 512);
        assert(soundness::same_way(va, vb, 2));
        assert(soundness::same_way(va, vb, 1) == (p / 512 == q / 512));
        assert(soundness::same_way(va, vb, 0) == (p == q));
        assert(soundness::reach(w, root, vb, 2));
        assert(soundness::reach(w, root, vb, 1) == (soundness::reach(s, root, vb, 1) || p / 512 == q
            / 512));
        assert(soundness::reach(w, root, vb, 0) == (soundness::reach(s, root, vb, 0) || p == q));
        if j == n {
        } else {
            ranges::lemma_run_pages_differ(at, n, j);
            assert(walk::leaf_below(w, root, vb, 3) == walk::leaf_below(s, root, vb, 3));
        }
    }
}

/// Whether the tables of `a` are there in `t`.
spec fn tables_stay(a: MachineState, t: MachineState, root: u64) -> bool {
    forall|vb: u64, k: int|
        0 <= k <= 3 && #[trigger] soundness::reach(a, root, vb, k) ==> soundness::reach(
            t,
            root,
            vb,
            k,
        ) && soundness::tab(t, root, vb, k) == soundness::tab(a, root, vb, k)
}

proof fn lemma_tables_stay(
    a: MachineState,
    s: MachineState,
    w: MachineState,
    root: u64,
    va: u64,
)
    requires
        tables_stay(a, s, root),
        ways_added(s, w, root, va, 2, 0),
    ensures
        tables_stay(a, w, root),
{
    assert forall|vb: u64, k: int| 0 <= k <= 3 && #[trigger] soundness::reach(
        a,
        root,
        vb,
        k,
    ) implies soundness::reach(w, root, vb, k) && soundness::tab(w, root, vb, k) == soundness::tab(
        a,
        root,
        vb,
        k,
    ) by {
        assert(soundness::reach(s, root, vb, k));
        assert(soundness::reach(w, root, vb, k) == (soundness::reach(s, root, vb, k) || (0 <= k <= 2
            && soundness::same_way(va, vb, k))));
    }
}

/// The pages of a run stay where they are when the next page is completed.
proof fn lemma_run_stays(s: MachineState, w: MachineState, root: u64, at: u64, i: int)
    requires
        0 <= i < 0x800_0000,
        forall|vb: u64|
            !soundness::same_page(address::page_above(at, i), vb) ==> #[trigger] walk::leaf_below(
                w,
                root,
                vb,
                3,
            ) == walk::leaf_below(s, root, vb, 3),
        w.c_bit == s.c_bit,
    ensures
        forall|j: int|
            0 <= j < i ==> walk::leaf_below(w, root, #[trigger] address::page_above(at, j), 3)
                == walk::leaf_below(s, root, address::page_above(at, j), 3),
        forall|j: int|
            0 <= j < i ==> #[trigger] transfer::other_page(w, root, at, j) == transfer::other_page(
                s,
                root,
                at,
                j,
            ),
{
    assert forall|j: int| 0 <= j < i implies walk::leaf_below(
        w,
        root,
        #[trigger] address::page_above(at, j),
        3,
    ) == walk::leaf_below(s, root, address::page_above(at, j), 3) by {
        ranges::lemma_run_pages_differ(at, i, j);
    }
    assert forall|j: int| 0 <= j < i implies #[trigger] transfer::other_page(w, root, at, j)
        == transfer::other_page(s, root, at, j) by {
        let vj = address::page_above(at, j);
        assert(walk::leaf_below(w, root, vj, 3) == walk::leaf_below(s, root, vj, 3));
    }
}

/// A frame that is in use and no table stays so.
proof fn lemma_stays_in_use(s: MachineState, w: MachineState, root: u64, f: u64)
    requires
        soundness::others_kept(s, w, root),
        !soundness::in_pool(s.pool, f),
        !soundness::is_table(s, root, f),
    ensures
        !soundness::in_pool(w.pool, f),
        !soundness::is_table(w, root, f),
{
    if soundness::in_pool(w.pool, f) {
        assert(soundness::in_pool(s.pool, f));
    }
    if soundness::is_table(w, root, f) {
        assert(soundness::is_table(s, root, f) || soundness::in_pool(s.pool, f));
    }
}

/// A run of fresh pages is one page longer after the next page was completed.
proof fn lemma_fresh_step(
    a: MachineState,
    s: MachineState,
    w: MachineState,
    root: u64,
    at: u64,
    i: int,
)
    requires
        0 <= i < 0x800_0000,
        soundness::others_kept(a, s, root),
        soundness::others_kept(s, w, root),
        ranges::fresh_run(a, s, root, at, i),
        fresh_page(s, w, root, address::page_above(at, i)),
        forall|vb: u64|
            !soundness::same_page(address::page_above(at, i), vb) ==> #[trigger] walk::leaf_below(
                w,
                root,
                vb,
                3,
            ) == walk::leaf_below(s, root, vb, 3),
    ensures
        ranges::fresh_run(a, w, root, at, i + 1),
{
    let page = transfer::other_page(w, root, at, i);
    assert(soundness::in_pool(s.pool, page));
    assert(soundness::in_pool(a.pool, page));
    assert(soundness::is_page(a, page));
    lemma_run_stays(s, w, root, at, i);
    assert forall|j: int| 0 <= j < i + 1 implies walk::leaf_below(
        w,
        root,
        #[trigger] address::page_above(at, j),
        3,
    ) is Some by {
        if j < i {
            assert(walk::leaf_below(s, root, address::page_above(at, j), 3) is Some);
        }
    }
    assert forall|j: int| 0 <= j < i + 1 implies {
        let f = #[trigger] transfer::other_page(w, root, at, j);
        &&& soundness::in_pool(a.pool, f)
        &&& soundness::is_page(a, f)
        &&& !soundness::in_pool(w.pool, f)
        &&& !soundness::is_table(w, root, f)
    } by {
        if j < i {
            assert(transfer::other_page(w, root, at, j) == transfer::other_page(s, root, at, j));
            lemma_stays_in_use(s, w, root, transfer::other_page(s, root, at, j));
        }
    }
    assert forall|j: int, k: int| 0 <= j < i + 1 && 0 <= k < i + 1 && j != k implies #[trigger] transfer::other_page(
        w,
        root,
        at,
        j,
    ) != #[trigger] transfer::other_page(w, root, at, k) by {
        if j < i {
            assert(!soundness::in_pool(s.pool, transfer::other_page(s, root, at, j)));
        }
        if k < i {
            assert(!soundness::in_pool(s.pool, transfer::other_page(s, root, at, k)));
        }
    }
}

proof fn lemma_next_taken(
    a: MachineState,
    s: MachineState,
    root: u64,
    at: u64,
    i: int,
    flags: u64,
    last: Option<RunTables>,
)
    requires
        soundness::sound(s, root),
        soundness::others_kept(a, s, root),
        ranges::fresh_run(a, s, root, at, i),
        tables_stay(a, s, root),
        at % 0x80_0000_0000 == 0,
        0 <= i < 0x800_0000,
        holds_first(s, root, at, i),
        s.pool.available() >= range_cost(i + 1) - range_cost(i),
        soundness::page_flags(flags),
        flags & 0x1 == 0x1,
        growth::run_known(s, root, address::page_above(at, i), last),
        last is Some && entry::table_index(address::page_above(at, i), 0) != 0 ==> last->0.pud
            == soundness::tab(s, root, address::page_above(at, i), 2),
    ensures
        ({
            let next = address::page_above(at, i + 1);
            let (w, tables) = growth::page_completed(
                s,
                root,
                address::page_above(at, i),
                flags,
                last,
            );
            &&& soundness::sound(w, root)
            &&& soundness::others_kept(a, w, root)
            &&& holds_first(w, root, at, i + 1)
            &&& ranges::fresh_run(a, w, root, at, i + 1)
            &&& tables_stay(a, w, root)
            &&& w.pool.available() == s.pool.available() - (range_cost(i + 1) - range_cost(i))
            &&& growth::run_known(w, root, next, Some(tables))
            &&& entry::table_index(next, 0) != 0 ==> tables.pud == soundness::tab(w, root, next, 2)
        }),
{
    let va = address::page_above(at, i);
    let (w, tables) = growth::page_completed(s, root, va, flags, last);
    address::lemma_page_after(at, i);
    lemma_shaped(s, root, at, i, i);
    lemma_cost_step(i, i + 1);
    assert(tables_missing(s, root, va) + 1 == range_cost(i + 1) - range_cost(i));
    lemma_page_taken(s, root, va, flags, last);
    lemma_shape_step(s, w, root, at, i);
    lemma_fresh_step(a, s, w, root, at, i);
    lemma_tables_stay(a, s, w, root, va);
    soundness::lemma_others_kept(a, s, w, root);
    assert(soundness::reach(w, root, va, 0)) by {
        lemma_shaped(w, root, at, i, i + 1);
    }
    growth::lemma_known_above(w, root, va, tables);
}

proof fn lemma_run_taken(
    a: MachineState,
    s: MachineState,
    root: u64,
    at: u64,
    i: int,
    n: nat,
    flags: u64,
    last: Option<RunTables>,
)
    requires
        soundness::sound(s, root),
        soundness::others_kept(a, s, root),
        ranges::fresh_run(a, s, root, at, i),
        tables_stay(a, s, root),
        at % 0x80_0000_0000 == 0,
        0 <= i,
        i + n <= 0x800_0000,
        holds_first(s, root, at, i),
        s.pool.available() >= range_cost(i + n) - range_cost(i),
        soundness::page_flags(flags),
        flags & 0x1 == 0x1,
        growth::run_known(s, root, address::page_above(at, i), last),
        last is Some && entry::table_index(address::page_above(at, i), 0) != 0 ==> last->0.pud
            == soundness::tab(s, root, address::page_above(at, i), 2),
    ensures
        ({
            let t = region::fill_run(s, root, address::page_above(at, i), n, flags, last);
            &&& soundness::sound(t, root)
            &&& soundness::others_kept(a, t, root)
            &&& holds_first(t, root, at, i + n)
            &&& ranges::fresh_run(a, t, root, at, i + n)
            &&& tables_stay(a, t, root)
            &&& t.pool.available() == s.pool.available() - (range_cost(i + n) - range_cost(i))
        }),
    decreases n,
{
    let va = address::page_above(at, i);
    let t = region::fill_run(s, root, va, n, flags, last);
    if n == 0 {
        assert(t == s);
    } else {
        let (w, tables) = growth::page_completed(s, root, va, flags, last);
        let next = address::page_above(at, i + 1);
        address::lemma_page_after(at, i);
        lemma_cost_step(i, i + n);
        lemma_next_taken(a, s, root, at, i, flags, last);
        assert(t == region::fill_run(w, root, next, (n - 1) as nat, flags, Some(tables)));
        lemma_run_taken(a, w, root, at, i + 1, (n - 1) as nat, flags, Some(tables));
    }
}

/// What the next page takes.
proof fn lemma_cost_step(i: int, n: int)
    requires
        0 <= i < n,
    ensures
        range_cost(i + 1) - range_cost(i) == 1 + missing(i > 0) + missing(
            i / 0x4_0000 * 0x4_0000 < i,
        ) + missing(i / 512 * 512 < i),
        range_cost(i + 1) <= range_cost(n),
{
    reveal(range_cost);
    assert((n + 511) / 512 >= (i + 1 + 511) / 512);
    assert((n + 0x3_FFFF) / 0x4_0000 >= (i + 1 + 0x3_FFFF) / 0x4_0000);
}

/// Whether the tables below a root table are the same in `u`.
spec fn same_below(t: MachineState, u: MachineState, root: u64) -> bool {
    &&& u.c_bit == t.c_bit
    &&& forall|vb: u64, l: int, i: int|
        #![trigger soundness::reach(t, root, vb, l), u.rd(soundness::tab(t, root, vb, l), i)]
        0 <= l <= 2 && 0 <= i < 512 && soundness::reach(t, root, vb, l) ==> u.rd(
            soundness::tab(t, root, vb, l),
            i,
        ) == t.rd(soundness::tab(t, root, vb, l), i)
}

/// The pages that an entry of a table at level `l` is for.
spec fn entry_pages(l: int) -> int {
    if l == 0 {
        1
    } else if l == 1 {
        512
    } else {
        0x4_0000
    }
}

/// What entry `i` of a table of a slot is, where the slot holds its first `n`
/// pages and the table is for the pages from `base` on.
proof fn lemma_slot_entry(
    t: MachineState,
    u: MachineState,
    root: u64,
    at: u64,
    n: int,
    l: int,
    base: int,
    i: int,
)
    requires
        at % 0x80_0000_0000 == 0,
        holds_first(t, root, at, n),
        same_below(t, u, root),
        0 <= l <= 2,
        0 <= i < 512,
        0 <= base < n,
        n <= 0x800_0000,
        l == 0 ==> base % 512 == 0,
        l == 1 ==> base % 0x4_0000 == 0,
        l == 2 ==> base == 0,
    ensures
        ({
            let vb = address::page_above(at, base);
            let j = base + i * entry_pages(l);
            let table = soundness::tab(t, root, vb, l);
            let e = u.rd(table, i);
            &&& j < 0x800_0000
            &&& entry::present(e) == (j < n)
            &&& l > 0 && j < n ==> entry::strip(u.c_bit, e) == soundness::tab(
                t,
                root,
                address::page_above(at, j),
                l - 1,
            )
        }),
{
    let vb = address::page_above(at, base);
    let j = base + i * entry_pages(l);
    let va = address::page_above(at, j);
    delivery::lemma_slot_page(at, base);
    lemma_shaped(t, root, at, base, n);
    if l == 0 {
        assert(j / 512 == base / 512 && j % 512 == i);
    } else if l == 1 {
        assert(j / 512 == base / 512 + i && base / 512 % 512 == 0);
        assert(j / 512 / 512 == base / 512 / 512);
        assert(j / 0x4_0000 == base / 0x4_0000);
        assert(j / 512 * 512 == j);
    } else {
        assert(j / 512 == i * 512 && j / 512 / 512 == i);
        assert(j / 0x4_0000 * 0x4_0000 == j);
    }
    delivery::lemma_slot_page(at, j);
    lemma_shaped(t, root, at, j, n);
    assert(soundness::same_way(va, vb, l));
    soundness::lemma_same_way(t, root, va, vb, l);
    assert(entry::table_index(va, l) == i);
    let table = soundness::tab(t, root, vb, l);
    assert(soundness::reach(t, root, vb, l));
    assert(u.rd(table, i) == t.rd(table, i));
    assert(u.rd(table, i) == walk::entry_in(t, soundness::tab(t, root, va, l), va, l as nat));
    soundness::lemma_leaf(t, root, va);
}

/// The smaller of two numbers.
spec fn least(a: int, b: int) -> int {
    if a <= b {
        a
    } else {
        b
    }
}

proof fn lemma_freed_pages(
    t: MachineState,
    u: MachineState,
    root: u64,
    at: u64,
    n: int,
    base: int,
    i: nat,
)
    requires
        at % 0x80_0000_0000 == 0,
        holds_first(t, root, at, n),
        same_below(t, u, root),
        i <= 512,
        0 <= base < n,
        n <= 0x800_0000,
        base % 512 == 0,
    ensures
        ({
            let table = soundness::tab(t, root, address::page_above(at, base), 0);
            let m = least(n - base, 512);
            allocation::freed_run(u, table, 0, i).len() == m - least(m, i as int)
        }),
    decreases 512 - i,
{
    let table = soundness::tab(t, root, address::page_above(at, base), 0);
    if i < 512 {
        lemma_slot_entry(t, u, root, at, n, 0, base, i as int);
        if base + i < n {
            lemma_freed_pages(t, u, root, at, n, base, i + 1);
        }
    }
}

/// The pages that are freed with the first `m` pages below a table at level 1.
#[verifier::opaque]
spec fn freed_middle(m: int) -> int {
    m + (m + 511) / 512
}

proof fn lemma_middle_step(m: int, i: int)
    requires
        0 <= 512 * i < m,
    ensures
        freed_middle(least(m, 512 * (i + 1))) - freed_middle(least(m, 512 * i)) == least(
            m - 512 * i,
            512,
        ) + 1,
        freed_middle(0) == 0,
{
    reveal(freed_middle);
}

proof fn lemma_freed_middle(
    t: MachineState,
    u: MachineState,
    root: u64,
    at: u64,
    n: int,
    base: int,
    i: nat,
)
    requires
        at % 0x80_0000_0000 == 0,
        holds_first(t, root, at, n),
        same_below(t, u, root),
        i <= 512,
        0 <= base < n,
        n <= 0x800_0000,
        base % 0x4_0000 == 0,
    ensures
        ({
            let table = soundness::tab(t, root, address::page_above(at, base), 1);
            let m = least(n - base, 0x4_0000);
            allocation::freed_run(u, table, 1, i).len() == freed_middle(m) - freed_middle(
                least(m, 512 * i as int),
            )
        }),
    decreases 512 - i,
{
    let table = soundness::tab(t, root, address::page_above(at, base), 1);
    if i < 512 {
        lemma_slot_entry(t, u, root, at, n, 1, base, i as int);
        let j = base + i * 512;
        if j < n {
            lemma_middle_step(least(n - base, 0x4_0000), i as int);
            lemma_freed_pages(t, u, root, at, n, j, 0);
            lemma_freed_middle(t, u, root, at, n, base, i + 1);
        }
    }
}

/// The pages that are freed with the first `m` pages below a table at level 2.
#[verifier::opaque]
spec fn freed_upper(m: int) -> int {
    m + (m + 511) / 512 + (m + 0x3_FFFF) / 0x4_0000
}

proof fn lemma_upper_step(m: int, i: int)
    requires
        0 <= 0x4_0000 * i < m,
    ensures
        freed_upper(least(m, 0x4_0000 * (i + 1))) - freed_upper(least(m, 0x4_0000 * i))
            == freed_middle(least(m - 0x4_0000 * i, 0x4_0000)) + 1,
        freed_upper(0) == 0,
{
    reveal(freed_middle);
    reveal(freed_upper);
    let k = least(m - 0x4_0000 * i, 0x4_0000);
    assert((0x4_0000 * i + k + 511) / 512 == 512 * i + (k + 511) / 512);
    assert((0x4_0000 * i + 511) / 512 == 512 * i);
}

proof fn lemma_freed_upper(
    t: MachineState,
    u: MachineState,
    root: u64,
    at: u64,
    n: int,
    i: nat,
)
    requires
        at % 0x80_0000_0000 == 0,
        holds_first(t, root, at, n),
        same_below(t, u, root),
        i <= 512,
        0 < n <= 0x800_0000,
    ensures
        ({
            let table = soundness::tab(t, root, address::page_above(at, 0), 2);
            allocation::freed_run(u, table, 2, i).len() == freed_upper(n) - freed_upper(
                least(n, 0x4_0000 * i as int),
            )
        }),
    decreases 512 - i,
{
    let table = soundness::tab(t, root, address::page_above(at, 0), 2);
    if i < 512 {
        lemma_slot_entry(t, u, root, at, n, 2, 0, i as int);
        let j = i * 0x4_0000;
        if j < n {
            lemma_upper_step(n, i as int);
            lemma_middle_step(least(n - j, 0x4_0000), 0);
            lemma_freed_middle(t, u, root, at, n, j as int, 0);
            lemma_freed_upper(t, u, root, at, n, i + 1);
        }
    }
}

/// The frame of page `j` of a slot, or, at level 0 or above, the table on the
/// way to it.
spec fn part(t: MachineState, root: u64, at: u64, j: int, k: int) -> u64 {
    if k < 0 {
        transfer::other_page(t, root, at, j)
    } else {
        soundness::tab(t, root, address::page_above(at, j), k)
    }
}

/// Whether a page is the frame of one of the pages `lo..hi` of a slot that
/// holds its first `n` pages, or a table on the way to it below level `l`.
spec fn part_of(t: MachineState, root: u64, at: u64, n: int, l: int, lo: int, hi: int, x: u64) -> bool {
    exists|j: int, k: int|
        lo <= j < hi && j < n && -1 <= k < l && #[trigger] part(t, root, at, j, k) == x
}

/// Whether a slot is sound: its frames are different ones and no tables.
spec fn slot_sound(a: MachineState, t: MachineState, root: u64, at: u64, n: int) -> bool {
    &&& at % 0x80_0000_0000 == 0
    &&& 0 < n <= 0x800_0000
    &&& soundness::sound(t, root)
    &&& holds_first(t, root, at, n)
    &&& ranges::fresh_run(a, t, root, at, n)
}

/// The pages of an entry at the level above `k`.
spec fn block(k: int, j: int) -> int {
    if k < 0 {
        j
    } else if k == 0 {
        j / 512
    } else if k == 1 {
        j / 0x4_0000
    } else {
        0
    }
}

/// The same page is the same part of a slot.
proof fn lemma_parts_differ(
    a: MachineState,
    t: MachineState,
    root: u64,
    at: u64,
    n: int,
    j: int,
    k: int,
    i: int,
    h: int,
)
    requires
        slot_sound(a, t, root, at, n),
        0 <= j < n,
        0 <= i < n,
        -1 <= k <= 2,
        -1 <= h <= 2,
        part(t, root, at, j, k) == part(t, root, at, i, h),
    ensures
        k == h,
        block(k, j) == block(k, i),
{
    let va = address::page_above(at, j);
    let vb = address::page_above(at, i);
    lemma_shaped(t, root, at, j, n);
    lemma_shaped(t, root, at, i, n);
    delivery::lemma_slot_page(at, j);
    delivery::lemma_slot_page(at, i);
    if k >= 0 {
        assert(soundness::reach(t, root, va, k));
        assert(soundness::is_table(t, root, part(t, root, at, j, k)));
    }
    if h >= 0 {
        assert(soundness::reach(t, root, vb, h));
        assert(soundness::is_table(t, root, part(t, root, at, i, h)));
    }
    if k < 0 {
        assert(!soundness::is_table(t, root, transfer::other_page(t, root, at, j)));
    }
    if h < 0 {
        assert(!soundness::is_table(t, root, transfer::other_page(t, root, at, i)));
    }
    if k >= 0 && h >= 0 {
        assert(k == h && soundness::same_way(va, vb, k));
        let p = j / 512;
        let q = i / 512;
        assert(j / 0x4_0000 == p / 512 && i / 0x4_0000 == q / 512);
        assert(p / 512 < 512 && q / 512 < 512);
    }
}

/// Pages before and after a place where an entry begins are in different
/// blocks.
proof fn lemma_blocks_differ(l: int, k: int, mid: int, j: int, i: int)
    requires
        0 <= l <= 2,
        -1 <= k < l,
        l == 1 ==> mid % 512 == 0,
        l == 2 ==> mid % 0x4_0000 == 0,
        0 <= j < mid <= i,
    ensures
        block(k, j) != block(k, i),
{
    if l == 2 {
        assert(mid % 512 == 0);
    }
}

/// Lists of different pages, with no page in common, are one list of different
/// pages.
proof fn lemma_joined_differ(a: Seq<u64>, b: Seq<u64>)
    requires
        a.no_duplicates(),
        b.no_duplicates(),
        forall|x: u64| #[trigger] a.contains(x) ==> !b.contains(x),
    ensures
        (a + b).no_duplicates(),
{
    let c = a + b;
    assert forall|i: int, j: int| 0 <= i < c.len() && 0 <= j < c.len() && i != j implies c[i]
        != c[j] by {
        if i < a.len() && j >= a.len() {
            assert(a.contains(a[i]) && b.contains(b[j - a.len()]));
        }
        if j < a.len() && i >= a.len() {
            assert(a.contains(a[j]) && b.contains(b[i - a.len()]));
        }
    }
}

/// Whether a list holds different pages, and each of them is a part of a slot.
spec fn lists_parts(
    t: MachineState,
    root: u64,
    at: u64,
    n: int,
    l: int,
    lo: int,
    hi: int,
    list: Seq<u64>,
) -> bool {
    &&& list.no_duplicates()
    &&& forall|x: u64| #[trigger] list.contains(x) ==> part_of(t, root, at, n, l, lo, hi, x)
}

/// What an entry leads to, and what the entries behind it lead to, have no
/// page in common.
proof fn lemma_parts_joined(
    a: MachineState,
    t: MachineState,
    root: u64,
    at: u64,
    n: int,
    l: int,
    lo: int,
    mid: int,
    hi: int,
    sub: Seq<u64>,
    rest: Seq<u64>,
)
    requires
        slot_sound(a, t, root, at, n),
        0 <= l <= 2,
        l == 1 ==> mid % 512 == 0,
        l == 2 ==> mid % 0x4_0000 == 0,
        0 <= lo < mid <= hi,
        lo < n,
        lists_parts(t, root, at, n, l - 1, lo, mid, sub),
        lists_parts(t, root, at, n, l, mid, hi, rest),
    ensures
        lists_parts(
            t,
            root,
            at,
            n,
            l,
            lo,
            hi,
            sub.push(part(t, root, at, lo, l - 1)) + rest,
        ),
{
    let next = part(t, root, at, lo, l - 1);
    let first = sub.push(next);
    assert(!sub.contains(next)) by {
        if sub.contains(next) {
            let (j, k) = choose|j: int, k: int|
                lo <= j < mid && j < n && -1 <= k < l - 1 && #[trigger] part(t, root, at, j, k)
                    == next;
            lemma_parts_differ(a, t, root, at, n, j, k, lo, l - 1);
        }
    }
    assert(first.no_duplicates());
    assert forall|x: u64| #[trigger] first.contains(x) implies part_of(t, root, at, n, l, lo, mid, x) by {
        let i = choose|i: int| 0 <= i < first.len() && first[i] == x;
        if i < sub.len() {
            assert(sub.contains(sub[i]));
            let (j, k) = choose|j: int, k: int|
                lo <= j < mid && j < n && -1 <= k < l - 1 && #[trigger] part(t, root, at, j, k)
                    == x;
            assert(part(t, root, at, j, k) == x);
        } else {
            assert(part(t, root, at, lo, l - 1) == x);
        }
    }
    assert forall|x: u64| #[trigger] first.contains(x) implies !rest.contains(x) by {
        if rest.contains(x) {
            let (j, k) = choose|j: int, k: int|
                lo <= j < mid && j < n && -1 <= k < l && #[trigger] part(t, root, at, j, k) == x;
            let (i, h) = choose|i: int, h: int|
                mid <= i < hi && i < n && -1 <= h < l && #[trigger] part(t, root, at, i, h) == x;
            lemma_parts_differ(a, t, root, at, n, j, k, i, h);
            lemma_blocks_differ(l, k, mid, j, i);
        }
    }
    lemma_joined_differ(first, rest);
    let all = first + rest;
    assert forall|x: u64| #[trigger] all.contains(x) implies part_of(t, root, at, n, l, lo, hi, x) by {
        let i = choose|i: int| 0 <= i < all.len() && all[i] == x;
        if i < first.len() {
            assert(first.contains(first[i]));
            let (j, k) = choose|j: int, k: int|
                lo <= j < mid && j < n && -1 <= k < l && #[trigger] part(t, root, at, j, k) == x;
            assert(part(t, root, at, j, k) == x);
        } else {
            assert(rest.contains(rest[i - first.len()]));
            let (j, k) = choose|j: int, k: int|
                mid <= j < hi && j < n && -1 <= k < l && #[trigger] part(t, root, at, j, k) == x;
            assert(part(t, root, at, j, k) == x);
        }
    }
}

/// What is freed with a table of a slot are different pages, each of them a
/// part of the slot.
proof fn lemma_freed_parts(
    a: MachineState,
    t: MachineState,
    u: MachineState,
    root: u64,
    at: u64,
    n: int,
    l: int,
    base: int,
    i: nat,
)
    requires
        slot_sound(a, t, root, at, n),
        same_below(t, u, root),
        0 <= l <= 2,
        i <= 512,
        0 <= base < n,
        l == 0 ==> base % 512 == 0,
        l == 1 ==> base % 0x4_0000 == 0,
        l == 2 ==> base == 0,
    ensures
        lists_parts(
            t,
            root,
            at,
            n,
            l,
            base + i * entry_pages(l),
            base + 512 * entry_pages(l),
            allocation::freed_run(
                u,
                soundness::tab(t, root, address::page_above(at, base), l),
                l as nat,
                i,
            ),
        ),
    decreases l, 512 - i,
{
    let table = soundness::tab(t, root, address::page_above(at, base), l);
    let lo = base + i * entry_pages(l);
    let hi = base + 512 * entry_pages(l);
    let freed = allocation::freed_run(u, table, l as nat, i);
    if i < 512 {
        lemma_slot_entry(t, u, root, at, n, l, base, i as int);
    }
    if i < 512 && lo < n {
        let mid = base + (i + 1) * entry_pages(l);
        let sub = if l > 0 {
            allocation::freed_run(u, part(t, root, at, lo, l - 1), (l - 1) as nat, 0)
        } else {
            Seq::empty()
        };
        let rest = allocation::freed_run(u, table, l as nat, i + 1);
        if l > 0 {
            lemma_freed_parts(a, t, u, root, at, n, l - 1, lo, 0);
        }
        lemma_freed_parts(a, t, u, root, at, n, l, base, i + 1);
        assert((i + 1) * entry_pages(l) == i * entry_pages(l) + entry_pages(l))
            by (nonlinear_arith);
        assert(mid == lo + entry_pages(l));
        lemma_leads_to_part(t, u, root, at, n, l, base, i as int);
        lemma_parts_joined(a, t, root, at, n, l, lo, mid, hi, sub, rest);
        assert(freed == sub.push(part(t, root, at, lo, l - 1)) + rest);
    }
}

/// An entry of a table of a slot leads to a part of the slot.
proof fn lemma_leads_to_part(
    t: MachineState,
    u: MachineState,
    root: u64,
    at: u64,
    n: int,
    l: int,
    base: int,
    i: int,
)
    requires
        at % 0x80_0000_0000 == 0,
        holds_first(t, root, at, n),
        same_below(t, u, root),
        0 <= l <= 2,
        0 <= i < 512,
        0 <= base < n,
        n <= 0x800_0000,
        l == 0 ==> base % 512 == 0,
        l == 1 ==> base % 0x4_0000 == 0,
        l == 2 ==> base == 0,
        base + i * entry_pages(l) < n,
    ensures
        entry::strip(
            u.c_bit,
            u.rd(soundness::tab(t, root, address::page_above(at, base), l), i),
        ) == part(t, root, at, base + i * entry_pages(l), l - 1),
{
    let j = base + i * entry_pages(l);
    let va = address::page_above(at, j);
    let vb = address::page_above(at, base);
    lemma_slot_entry(t, u, root, at, n, l, base, i);
    if l == 0 {
        delivery::lemma_slot_page(at, base);
        delivery::lemma_slot_page(at, j);
        assert(j / 512 == base / 512 && j % 512 == i);
        lemma_shaped(t, root, at, base, n);
        lemma_shaped(t, root, at, j, n);
        soundness::lemma_same_way(t, root, va, vb, 0);
        soundness::lemma_leaf(t, root, va);
        assert(soundness::reach(t, root, vb, 0));
        let table = soundness::tab(t, root, vb, 0);
        assert(u.rd(table, i) == t.rd(table, i));
    }
}

/// An empty slot holds its first 0 pages.
proof fn lemma_empty_slot(s: MachineState, root: u64, at: u64)
    requires
        at % 0x80_0000_0000 == 0,
        !entry::present(s.rd(root, entry::table_index(at, 3))),
    ensures
        holds_first(s, root, at, 0),
{
    reveal(holds_first);
    assert forall|j: int| 0 <= j < 0x800_0000 implies shaped(
        s,
        root,
        #[trigger] address::page_above(at, j),
        j,
        0,
    ) by {
        let va = address::page_above(at, j);
        delivery::lemma_slot_page(at, j);
        reveal_with_fuel(soundness::reach, 4);
        soundness::lemma_leaf(s, root, va);
    }
}

/// What clearing the mount leaves below the monitor's root table.
proof fn lemma_unmounted_below(t: MachineState, u: MachineState, root: u64)
    requires
        soundness::sound(t, root),
        u.c_bit == t.c_bit,
        u.mem == t.wr(root, 6, 0).mem,
    ensures
        same_below(t, u, root),
{
    assert forall|vb: u64, l: int, i: int|
        #![trigger soundness::reach(t, root, vb, l), u.rd(soundness::tab(t, root, vb, l), i)]
        0 <= l <= 2 && 0 <= i < 512 && soundness::reach(t, root, vb, l) implies u.rd(
        soundness::tab(t, root, vb, l),
        i,
    ) == t.rd(soundness::tab(t, root, vb, l), i) by {
        let table = soundness::tab(t, root, vb, l);
        assert(soundness::reach(t, root, vb, 3) && soundness::tab(t, root, vb, 3) == root);
        assert(soundness::is_page(t, table) && soundness::is_page(t, root));
        soundness::lemma_words_apart(table, root, i, 6);
    }
}

/// A part of a slot that was empty is in use, and was in the pool before.
proof fn lemma_part_taken(
    a: MachineState,
    t: MachineState,
    root: u64,
    at: u64,
    n: int,
    j: int,
    k: int,
)
    requires
        soundness::sound(a, root),
        holds_first(a, root, at, 0),
        soundness::others_kept(a, t, root),
        tables_stay(a, t, root),
        slot_sound(a, t, root, at, n),
        0 <= j < n,
        -1 <= k <= 2,
    ensures
        ({
            let x = part(t, root, at, j, k);
            &&& soundness::in_pool(a.pool, x)
            &&& soundness::is_page(t, x)
            &&& !soundness::in_pool(t.pool, x)
        }),
{
    let x = part(t, root, at, j, k);
    let va = address::page_above(at, j);
    lemma_shaped(t, root, at, j, n);
    if k < 0 {
        assert(soundness::in_pool(a.pool, transfer::other_page(t, root, at, j)));
        assert(soundness::is_page(a, x));
    } else {
        assert(soundness::reach(t, root, va, k));
        assert(soundness::is_table(t, root, x));
        assert(soundness::is_page(t, x) && !soundness::in_pool(t.pool, x));
        if !soundness::in_pool(a.pool, x) {
            assert(soundness::is_table(a, root, x));
            let (vb, h) = choose|vb: u64, h: int|
                0 <= h <= 3 && #[trigger] soundness::reach(a, root, vb, h) && soundness::tab(
                    a,
                    root,
                    vb,
                    h,
                ) == x;
            assert(soundness::reach(t, root, vb, h) && soundness::tab(t, root, vb, h) == x);
            assert(h == k && soundness::same_way(va, vb, k));
            soundness::lemma_same_way(a, root, va, vb, k);
            lemma_shaped(a, root, at, j, 0);
        }
    }
}

/// Pages that were taken from a sound pool can go back: it is sound again, and
/// holds nothing that it did not hold before.
proof fn lemma_given_back(s: MachineState, t: MachineState, list: Seq<u64>)
    requires
        soundness::pool_sound(s),
        soundness::pool_sound(t),
        t.mem.len() == s.mem.len(),
        t.c_bit == s.c_bit,
        t.pool.limit == s.pool.limit,
        s.pool.base <= t.pool.base,
        forall|pa: u64| soundness::in_pool(t.pool, pa) ==> #[trigger] soundness::in_pool(s.pool, pa),
        list.no_duplicates(),
        forall|x: u64| #[trigger]
            list.contains(x) ==> {
                &&& soundness::in_pool(s.pool, x)
                &&& soundness::is_page(t, x)
                &&& !soundness::in_pool(t.pool, x)
            },
    ensures
        soundness::pool_sound(teardown::released(t, list)),
        forall|pa: u64|
            soundness::in_pool(teardown::released(t, list).pool, pa)
                ==> #[trigger] soundness::in_pool(s.pool, pa),
{
    let u = teardown::released(t, list);
    let was = t.pool.list;
    assert forall|i: int| 0 <= i < u.pool.list.len() implies soundness::is_page(
        u,
        #[trigger] u.pool.list[i],
    ) && !(u.pool.base <= u.pool.list[i] < u.pool.limit) by {
        if i < was.len() {
            assert(u.pool.list[i] == was[i]);
        } else {
            let x = list[i - was.len()];
            assert(list.contains(x));
            assert(!soundness::in_region(t.pool, x));
            if s.pool.list.contains(x) {
                let k = choose|k: int| 0 <= k < s.pool.list.len() && s.pool.list[k] == x;
                assert(!(s.pool.base <= s.pool.list[k] < s.pool.limit));
            } else {
                assert(soundness::in_region(s.pool, x));
            }
        }
    }
    assert forall|i: int, j: int| 0 <= i < j < u.pool.list.len() implies u.pool.list[i]
        != u.pool.list[j] by {
        if i < was.len() && j >= was.len() {
            assert(list.contains(list[j - was.len()]));
            assert(was.contains(was[i]));
        }
    }
    assert forall|pa: u64|
        pa % 4096 == 0 && #[trigger] soundness::in_region(u.pool, pa) implies soundness::is_page(
        u,
        pa,
    ) by {
        assert(soundness::in_region(t.pool, pa));
    }
    assert forall|pa: u64| soundness::in_pool(u.pool, pa) implies #[trigger] soundness::in_pool(
        s.pool,
        pa,
    ) by {
        if u.pool.list.contains(pa) {
            let i = choose|i: int| 0 <= i < u.pool.list.len() && u.pool.list[i] == pa;
            if i < was.len() {
                assert(was.contains(was[i]));
                assert(soundness::in_pool(t.pool, pa));
            } else {
                assert(list.contains(list[i - was.len()]));
            }
        } else {
            assert(soundness::in_pool(t.pool, pa));
        }
    }
}

/// What is freed with a slot: as many pages as it took, all of them different,
/// taken from the pool and in use.
proof fn lemma_slot_freed(
    a: MachineState,
    t: MachineState,
    u: MachineState,
    root: u64,
    at: u64,
    n: int,
)
    requires
        soundness::sound(a, root),
        holds_first(a, root, at, 0),
        soundness::others_kept(a, t, root),
        tables_stay(a, t, root),
        slot_sound(a, t, root, at, n),
        same_below(t, u, root),
    ensures
        ({
            let pud = soundness::tab(t, root, address::page_above(at, 0), 2);
            let freed = allocation::freed_run(u, pud, 2, 0).push(pud);
            &&& freed.len() == range_cost(n)
            &&& freed.no_duplicates()
            &&& forall|x: u64| #[trigger]
                freed.contains(x) ==> {
                    &&& soundness::in_pool(a.pool, x)
                    &&& soundness::is_page(t, x)
                    &&& !soundness::in_pool(t.pool, x)
                }
        }),
{
    let pud = soundness::tab(t, root, address::page_above(at, 0), 2);
    let below = allocation::freed_run(u, pud, 2, 0);
    let freed = below.push(pud);
    lemma_freed_upper(t, u, root, at, n, 0);
    lemma_upper_step(n, 0);
    assert(freed.len() == range_cost(n)) by {
        reveal(range_cost);
        reveal(freed_upper);
    }
    lemma_freed_parts(a, t, u, root, at, n, 2, 0, 0);
    let hi = 512 * entry_pages(2);
    assert(lists_parts(t, root, at, n, 2, 0, hi, below));
    assert(pud == part(t, root, at, 0, 2));
    assert(!below.contains(pud)) by {
        if below.contains(pud) {
            let (j, k) = choose|j: int, k: int|
                0 <= j < hi && j < n && -1 <= k < 2 && #[trigger] part(t, root, at, j, k) == pud;
            lemma_parts_differ(a, t, root, at, n, j, k, 0, 2);
        }
    }
    assert(freed.no_duplicates());
    assert forall|x: u64| #[trigger] freed.contains(x) implies soundness::in_pool(a.pool, x)
        && soundness::is_page(t, x) && !soundness::in_pool(t.pool, x) by {
        let i = choose|i: int| 0 <= i < freed.len() && freed[i] == x;
        if i < below.len() {
            assert(below.contains(below[i]));
            let (j, k) = choose|j: int, k: int|
                0 <= j < hi && j < n && -1 <= k < 2 && #[trigger] part(t, root, at, j, k) == x;
            lemma_part_taken(a, t, root, at, n, j, k);
        } else {
            lemma_part_taken(a, t, root, at, n, 0, 2);
        }
    }
}

proof fn lemma_region_left(
    s: MachineState,
    root: u64,
    va: u64,
    n: nat,
    flags: u64,
    last: Option<RunTables>,
)
    ensures
        growth::handed_out(s, region::fill_run(s, root, va, n, flags, last)),
    decreases n,
{
    if n > 0 {
        reveal(region::run_tables);
        let (b, tables) = match last {
            Some(tables) if entry::table_index(va, 0) != 0 => (s, tables),
            _ => region::run_tables(s, root, va, last),
        };
        assert(growth::handed_out(s, b));
        let w = region::fill_entry(b, tables.pte, va, 0, flags);
        assert(growth::handed_out(b, w));
        lemma_region_left(
            w,
            root,
            address::page_above(va, 1),
            (n - 1) as nat,
            flags,
            Some(tables),
        );
    }
}

/// A range for the guest takes from the pool what its pages and their tables
/// need. When it was unmounted and deleted, the pool has as many pages as
/// before, each of them once, and none that it did not have: each page and each
/// table of the range went back, and nothing else. To delete a range that is
/// none frees nothing.
pub proof fn law_deleted_range_gives_all_back(s: MachineState, pages: u64)
    requires
        soundness::sound(s, s.cr3),
        pages <= 0x800_0000,
        s.pool.available() >= range_cost(pages as int),
    ensures
        ({
            let (t, range) = allocation::range_for_guest(s, pages);
            let u = allocation::range_deleted(allocation::mount_entry(t, 0), range);
            &&& t.pool.available() == s.pool.available() - range_cost(pages as int)
            &&& u.pool.available() == s.pool.available()
            &&& soundness::pool_sound(u)
            &&& forall|pa: u64|
                soundness::in_pool(u.pool, pa) ==> #[trigger] soundness::in_pool(s.pool, pa)
        }),
        forall|x: u64| #[trigger] allocation::range_deleted(s, AllocationRange(0, x)) == s,
{
    let root = s.cr3;
    let at = ALLOCATION_RANGE_VIRT_START;
    let a = allocation::stale_cleared(s);
    let n = pages as int;
    assert(soundness::reach(s, root, 0, 3) && soundness::tab(s, root, 0, 3) == root);
    assert(soundness::is_page(s, root));
    if s.rd(root, 6) != 0 {
        ranges::lemma_cleared_slot(s, root, 6);
        ranges::lemma_op_keeps(s.wr(root, 6, 0), a, root);
    }
    assert(a.rd(root, 6) == 0);
    assert(!entry::present(0)) by {
        entry::lemma_empty();
    }
    assert(entry::table_index(at, 3) == 6 && at % 0x80_0000_0000 == 0);
    lemma_empty_slot(a, root, at);
    let b = region::fill_run(a, root, at, pages as nat, 0x67, None);
    lemma_range_taken(a, root, pages);
    let (t, range) = allocation::range_for_guest(s, pages);
    let v = allocation::mount_entry(t, 0);
    let u = allocation::range_deleted(v, range);
    lemma_range_given_back(a, b, v, root, n);
    if n == 0 {
        assert(b == a);
        assert(range.0 == 0);
        assert(u == v);
    }
}

/// What making a range for the guest in an empty slot leaves.
proof fn lemma_range_taken(a: MachineState, root: u64, pages: u64)
    requires
        soundness::sound(a, root),
        holds_first(a, root, ALLOCATION_RANGE_VIRT_START, 0),
        pages <= 0x800_0000,
        a.pool.available() >= range_cost(pages as int),
    ensures
        ({
            let at = ALLOCATION_RANGE_VIRT_START;
            let b = region::fill_run(a, root, at, pages as nat, 0x67, None);
            &&& soundness::others_kept(a, b, root)
            &&& tables_stay(a, b, root)
            &&& growth::handed_out(a, b)
            &&& pages > 0 ==> slot_sound(a, b, root, at, pages as int)
            &&& soundness::sound(b, root)
            &&& b.pool.available() == a.pool.available() - range_cost(pages as int)
            &&& ranges::fresh_run(a, b, root, at, pages as int)
        }),
{
    let at = ALLOCATION_RANGE_VIRT_START;
    assert(soundness::page_flags(0x67) && 0x67u64 & 0x1 == 0x1) by {
        assert(0x67u64 & 0x000F_FFFF_FFFF_F000 == 0 && 0x67u64 & 0x400 != 0x400 && 0x67u64 & 0x1
            == 0x1) by (bit_vector);
    }
    assert(at % 0x80_0000_0000 == 0);
    assert(address::page_above(at, 0) == at);
    assert(range_cost(0) == 0) by {
        reveal(range_cost);
    }
    assert(soundness::others_kept(a, a, root));
    assert(ranges::fresh_run(a, a, root, at, 0));
    lemma_run_taken(a, a, root, at, 0, pages as nat, 0x67, None);
    lemma_region_left(a, root, at, pages as nat, 0x67, None);
}

/// What making a range for the guest leaves: the monitor has it mounted, and its
/// pages are fresh ones.
pub proof fn lemma_range_for_guest(s: MachineState, pages: u64)
    requires
        soundness::sound(s, s.cr3),
        pages <= 0x800_0000,
        s.pool.available() >= range_cost(pages as int),
    ensures
        ({
            let (t, range) = allocation::range_for_guest(s, pages);
            &&& soundness::sound(t, s.cr3)
            &&& soundness::others_kept(s, t, s.cr3)
            &&& range.0 == t.rd(s.cr3, 6)
            &&& range.1 == pages
            &&& t.cr3 == s.cr3
            &&& ranges::fresh_run(s, t, s.cr3, ALLOCATION_RANGE_VIRT_START, pages as int)
        }),
{
    let root = s.cr3;
    let at = ALLOCATION_RANGE_VIRT_START;
    let a = allocation::stale_cleared(s);
    assert(soundness::reach(s, root, 0, 3) && soundness::tab(s, root, 0, 3) == root);
    assert(soundness::is_page(s, root));
    if s.rd(root, 6) != 0 {
        ranges::lemma_cleared_slot(s, root, 6);
        ranges::lemma_op_keeps(s.wr(root, 6, 0), a, root);
        soundness::lemma_others_kept(s, s.wr(root, 6, 0), a, root);
    } else {
        assert(soundness::others_kept(s, a, root));
    }
    entry::lemma_empty();
    assert(entry::table_index(at, 3) == 6 && at % 0x80_0000_0000 == 0);
    lemma_empty_slot(a, root, at);
    let b = region::fill_run(a, root, at, pages as nat, 0x67, None);
    lemma_range_taken(a, root, pages);
    let t = allocation::range_for_guest(s, pages).0;
    ranges::lemma_op_keeps(b, t, root);
    soundness::lemma_others_kept(s, a, b, root);
    soundness::lemma_others_kept(s, b, t, root);
    lemma_fresh_later(s, a, b, t, root, at, pages as int);
}

proof fn lemma_fresh_later(
    s: MachineState,
    a: MachineState,
    b: MachineState,
    t: MachineState,
    root: u64,
    at: u64,
    n: int,
)
    requires
        ranges::fresh_run(a, b, root, at, n),
        a.pool == s.pool,
        a.c_bit == s.c_bit,
        a.mem.len() == s.mem.len(),
        t == (MachineState { ops: t.ops, ..b }),
        soundness::others_kept(b, t, root),
        forall|vb: u64| #[trigger]
            walk::leaf_below(t, root, vb, 3) == walk::leaf_below(b, root, vb, 3),
    ensures
        ranges::fresh_run(s, t, root, at, n),
{
    assert forall|i: int| 0 <= i < n implies #[trigger] transfer::other_page(t, root, at, i)
        == transfer::other_page(b, root, at, i) by {
    }
    assert forall|i: int| 0 <= i < n implies !soundness::is_table(
        t,
        root,
        #[trigger] transfer::other_page(t, root, at, i),
    ) by {
        let f = transfer::other_page(b, root, at, i);
        assert(transfer::other_page(t, root, at, i) == f);
        if soundness::is_table(t, root, f) {
            assert(soundness::is_table(b, root, f) || soundness::in_pool(b.pool, f));
        }
    }
    assert forall|i: int, j: int| 0 <= i < n && 0 <= j < n && i != j implies #[trigger] transfer::other_page(
        t,
        root,
        at,
        i,
    ) != #[trigger] transfer::other_page(t, root, at, j) by {
        assert(transfer::other_page(b, root, at, i) != transfer::other_page(b, root, at, j));
    }
    assert forall|i: int| 0 <= i < n implies {
        &&& soundness::in_pool(s.pool, #[trigger] transfer::other_page(t, root, at, i))
        &&& soundness::is_page(s, transfer::other_page(t, root, at, i))
        &&& !soundness::in_pool(t.pool, transfer::other_page(t, root, at, i))
    } by {
        assert(transfer::other_page(t, root, at, i) == transfer::other_page(b, root, at, i));
    }
}

/// What deleting a range gives back, after it was unmounted.
proof fn lemma_range_given_back(
    a: MachineState,
    b: MachineState,
    v: MachineState,
    root: u64,
    n: int,
)
    requires
        soundness::sound(a, root),
        holds_first(a, root, ALLOCATION_RANGE_VIRT_START, 0),
        soundness::others_kept(a, b, root),
        tables_stay(a, b, root),
        growth::handed_out(a, b),
        n > 0 ==> slot_sound(a, b, root, ALLOCATION_RANGE_VIRT_START, n),
        v == (MachineState { ops: v.ops, ..b.wr(root, 6, 0) }),
        soundness::sound(b, root),
        b.pool.available() == a.pool.available() - range_cost(n),
    ensures
        n > 0 ==> {
            let u = allocation::range_deleted(v, AllocationRange(b.rd(root, 6), n as u64));
            &&& u.pool.available() == a.pool.available()
            &&& soundness::pool_sound(u)
            &&& forall|pa: u64|
                soundness::in_pool(u.pool, pa) ==> #[trigger] soundness::in_pool(a.pool, pa)
        },
{
    let at = ALLOCATION_RANGE_VIRT_START;
    if n > 0 {
        assert(entry::table_index(at, 3) == 6);
        assert(address::page_above(at, 0) == at);
        lemma_shaped(b, root, at, 0, n);
        reveal_with_fuel(soundness::reach, 2);
        reveal_with_fuel(soundness::tab, 2);
        let pud = soundness::tab(b, root, at, 2);
        let e = b.rd(root, 6);
        assert(pud == entry::strip(b.c_bit, e));
        assert(entry::present(e) && e != 0) by {
            entry::lemma_empty();
        }
        lemma_unmounted_below(b, v, root);
        lemma_slot_freed(a, b, v, root, at, n);
        let freed = allocation::freed_run(v, pud, 2, 0).push(pud);
        assert(soundness::pool_sound(v)) by {
            assert forall|pa: u64|
                pa % 4096 == 0 && #[trigger] soundness::in_region(
                    v.pool,
                    pa,
                ) implies soundness::is_page(v, pa) by {
                assert(soundness::in_region(b.pool, pa));
            }
        }
        lemma_given_back(a, v, freed);
    }
}

} // verus!
