//! What copies between the monitor and other address spaces bring across.
use vstd::prelude::*;
use crate::address;
use crate::memory::machine;
use crate::memory::machine::MachineState;
use crate::process_manager::process_paging::entry;
use crate::process_manager::process_paging::guest_copy;
use crate::process_manager::process_paging::soundness;
use crate::process_manager::process_paging::walk;

verus! {

/// Whether a page is none of the tables on the way to an address.
pub open spec fn way_avoids(s: MachineState, root: u64, va: u64, page: u64) -> bool {
    forall|l: int|
        0 <= l <= 3 && #[trigger] soundness::reach(s, root, va, l) ==> soundness::tab(
            s,
            root,
            va,
            l,
        ) != page
}

/// What is filled, and nothing else, is changed by a page that is filled.
pub proof fn lemma_fill(s: MachineState, page: u64, data: Seq<u64>)
    requires
        page % 4096 == 0,
        page as int / 8 + 512 <= s.mem.len(),
        data.len() == 512,
    ensures
        machine::page_words(s.fill(page, data).mem, page) == data,
        forall|pa: u64, i: int|
            pa % 4096 == 0 && pa != page && 0 <= i < 512 ==> #[trigger] s.fill(page, data).rd(pa, i)
                == s.rd(pa, i),
        forall|pa: u64|
            pa % 4096 == 0 && pa != page ==> #[trigger] machine::page_words(
                s.fill(page, data).mem,
                pa,
            ) == machine::page_words(s.mem, pa),
{
    let t = s.fill(page, data);
    assert(machine::page_words(t.mem, page) =~= data);
    assert forall|pa: u64, i: int| pa % 4096 == 0 && pa != page && 0 <= i < 512 implies #[trigger] t.rd(
        pa,
        i,
    ) == s.rd(pa, i) by {
        if pa as int / 8 + i >= page as int / 8 && pa as int / 8 + i < page as int / 8 + 512 {
            soundness::lemma_words_apart(pa, page, i, pa as int / 8 + i - page as int / 8);
        }
    }
    assert forall|pa: u64| pa % 4096 == 0 && pa != page implies #[trigger] machine::page_words(
        t.mem,
        pa,
    ) == machine::page_words(s.mem, pa) by {
        assert forall|i: int| 0 <= i < 512 implies #[trigger] machine::page_words(t.mem, pa)[i]
            == machine::page_words(s.mem, pa)[i] by {
            assert(t.rd(pa, i) == s.rd(pa, i));
        }
        assert(machine::page_words(t.mem, pa) =~= machine::page_words(s.mem, pa));
    }
}

/// An address is found where it was, as long as no table on the way to it is
/// filled.
pub proof fn lemma_way_kept(s: MachineState, root: u64, va: u64, page: u64, data: Seq<u64>)
    requires
        root % 4096 == 0,
        page % 4096 == 0,
        page as int / 8 + 512 <= s.mem.len(),
        data.len() == 512,
        way_avoids(s, root, va, page),
    ensures
        walk::leaf_below(s.fill(page, data), root, va, 3) == walk::leaf_below(s, root, va, 3),
        forall|other: u64|
            #[trigger] way_avoids(s, root, va, other) ==> way_avoids(
                s.fill(page, data),
                root,
                va,
                other,
            ),
{
    let t = s.fill(page, data);
    lemma_fill(s, page, data);
    assert forall|l: int| 0 <= l <= 3 implies #[trigger] soundness::reach(t, root, va, l)
        == soundness::reach(s, root, va, l) && (soundness::reach(s, root, va, l) ==> soundness::tab(
        t,
        root,
        va,
        l,
    ) == soundness::tab(s, root, va, l)) by {
        lemma_way_level(s, root, va, page, data, l);
    }
    soundness::lemma_leaf(s, root, va);
    soundness::lemma_leaf(t, root, va);
    assert(soundness::reach(t, root, va, 0) == soundness::reach(s, root, va, 0));
    if soundness::reach(s, root, va, 0) {
        let tb = soundness::tab(s, root, va, 0);
        entry::lemma_strip_bound(
            s.c_bit,
            walk::entry_in(s, soundness::tab(s, root, va, 1), va, 1),
        );
        assert(t.rd(tb, entry::table_index(va, 0)) == s.rd(tb, entry::table_index(va, 0)));
    }
    assert forall|other: u64| #[trigger] way_avoids(s, root, va, other) implies way_avoids(
        t,
        root,
        va,
        other,
    ) by {
        assert forall|l: int| 0 <= l <= 3 && #[trigger] soundness::reach(t, root, va, l) implies soundness::tab(
            t,
            root,
            va,
            l,
        ) != other by {
            assert(soundness::reach(s, root, va, l));
        }
    }
}

proof fn lemma_way_level(s: MachineState, root: u64, va: u64, page: u64, data: Seq<u64>, l: int)
    requires
        root % 4096 == 0,
        page % 4096 == 0,
        page as int / 8 + 512 <= s.mem.len(),
        data.len() == 512,
        way_avoids(s, root, va, page),
        0 <= l <= 3,
    ensures
        soundness::reach(s.fill(page, data), root, va, l) == soundness::reach(s, root, va, l),
        soundness::reach(s, root, va, l) ==> soundness::tab(s.fill(page, data), root, va, l)
            == soundness::tab(s, root, va, l),
    decreases 3 - l,
{
    if l < 3 {
        lemma_way_level(s, root, va, page, data, l + 1);
        if soundness::reach(s, root, va, l + 1) {
            let t = s.fill(page, data);
            let tb = soundness::tab(s, root, va, l + 1);
            let i = entry::table_index(va, l + 1);
            lemma_fill(s, page, data);
            if l + 1 < 3 {
                entry::lemma_strip_bound(
                    s.c_bit,
                    walk::entry_in(
                        s,
                        soundness::tab(s, root, va, l + 2),
                        va,
                        (l + 2) as nat,
                    ),
                );
            }
            assert(tb % 4096 == 0);
            assert(t.rd(tb, i) == s.rd(tb, i));
        }
    }
}

/// The page that an address space has for page `i` from `origin` on.
pub open spec fn other_page(s: MachineState, root: u64, origin: u64, i: int) -> u64 {
    walk::translate(s, root, address::page_above(origin, i))
}

/// Whether the pages that the address space below `into` has from `target` on
/// are pages of their own: they lie in memory, no two of them are the same, and
/// none is a page of the address space below `root` from `origin` on, or a
/// table on the way to any of them.
pub open spec fn apart(
    s: MachineState,
    root: u64,
    origin: u64,
    into: u64,
    target: u64,
    n: int,
) -> bool {
    &&& root % 4096 == 0
    &&& into % 4096 == 0
    &&& forall|i: int|
        0 <= i < n ==> walk::leaf_below(s, into, #[trigger] address::page_above(target, i), 3) is Some
    &&& forall|i: int|
        0 <= i < n ==> #[trigger] other_page(s, into, target, i) as int / 8 + 512 <= s.mem.len()
    &&& forall|i: int, j: int|
        0 <= i < n && 0 <= j < n && i != j ==> #[trigger] other_page(s, into, target, i)
            != #[trigger] other_page(s, into, target, j)
    &&& forall|i: int, j: int|
        0 <= i < n && 0 <= j < n ==> #[trigger] other_page(s, into, target, i)
            != #[trigger] other_page(s, root, origin, j)
    &&& forall|i: int, j: int|
        0 <= i < n && 0 <= j < n ==> way_avoids(
            s,
            into,
            #[trigger] address::page_above(target, j),
            #[trigger] other_page(s, into, target, i),
        )
    &&& forall|i: int, j: int|
        0 <= i < n && 0 <= j < n ==> way_avoids(
            s,
            root,
            #[trigger] address::page_above(origin, j),
            #[trigger] other_page(s, into, target, i),
        )
}

/// Pages start at page boundaries.
pub proof fn lemma_page_aligned(s: MachineState, root: u64, origin: u64, i: int)
    ensures
        other_page(s, root, origin, i) % 4096 == 0,
{
    match walk::leaf_below(s, root, address::page_above(origin, i), 3) {
        Some(e) => entry::lemma_strip_bound(s.c_bit, e),
        None => {},
    }
}

/// What is read and written stays where it is.
pub open spec fn stays(
    s: MachineState,
    t: MachineState,
    root: u64,
    origin: u64,
    into: u64,
    target: u64,
    n: int,
) -> bool {
    &&& t.mem.len() == s.mem.len()
    &&& t.cr3 == s.cr3
    &&& forall|i: int|
        0 <= i < n ==> #[trigger] other_page(t, into, target, i) == other_page(s, into, target, i)
    &&& forall|i: int|
        0 <= i < n ==> #[trigger] other_page(t, root, origin, i) == other_page(s, root, origin, i)
}

/// What filling one of the pages does to the pages that are apart: they stay
/// where they are, and apart.
proof fn lemma_fill_keeps_apart(
    s: MachineState,
    root: u64,
    origin: u64,
    into: u64,
    target: u64,
    n: int,
    k: int,
    data: Seq<u64>,
)
    requires
        apart(s, root, origin, into, target, n),
        0 <= k < n,
        data.len() == 512,
    ensures
        apart(s.fill(other_page(s, into, target, k), data), root, origin, into, target, n),
        stays(
            s,
            s.fill(other_page(s, into, target, k), data),
            root,
            origin,
            into,
            target,
            n,
        ),
{
    let page = other_page(s, into, target, k);
    let t = s.fill(page, data);
    lemma_page_aligned(s, into, target, k);
    assert forall|i: int| 0 <= i < n implies #[trigger] other_page(t, into, target, i) == other_page(
        s,
        into,
        target,
        i,
    ) && walk::leaf_below(t, into, address::page_above(target, i), 3) == walk::leaf_below(
        s,
        into,
        address::page_above(target, i),
        3,
    ) by {
        assert(way_avoids(s, into, address::page_above(target, i), page));
        lemma_way_kept(s, into, address::page_above(target, i), page, data);
    }
    assert forall|i: int| 0 <= i < n implies #[trigger] other_page(t, root, origin, i)
        == other_page(s, root, origin, i) by {
        assert(way_avoids(s, root, address::page_above(origin, i), page));
        lemma_way_kept(s, root, address::page_above(origin, i), page, data);
    }
    assert(apart(t, root, origin, into, target, n)) by {
        assert forall|i: int| 0 <= i < n implies walk::leaf_below(
            t,
            into,
            #[trigger] address::page_above(target, i),
            3,
        ) is Some by {
            assert(other_page(t, into, target, i) == other_page(s, into, target, i));
        }
        assert forall|i: int| 0 <= i < n implies #[trigger] other_page(t, into, target, i) as int / 8
            + 512 <= t.mem.len() by {
            assert(other_page(t, into, target, i) == other_page(s, into, target, i));
        }
        assert forall|i: int, j: int| 0 <= i < n && 0 <= j < n implies way_avoids(
            t,
            into,
            #[trigger] address::page_above(target, j),
            #[trigger] other_page(t, into, target, i),
        ) by {
            assert(other_page(t, into, target, i) == other_page(s, into, target, i));
            assert(way_avoids(s, into, address::page_above(target, j), page));
            assert(way_avoids(
                s,
                into,
                address::page_above(target, j),
                other_page(s, into, target, i),
            ));
            lemma_way_kept(s, into, address::page_above(target, j), page, data);
        }
        assert forall|i: int, j: int| 0 <= i < n && 0 <= j < n implies way_avoids(
            t,
            root,
            #[trigger] address::page_above(origin, j),
            #[trigger] other_page(t, into, target, i),
        ) by {
            assert(other_page(t, into, target, i) == other_page(s, into, target, i));
            assert(way_avoids(s, root, address::page_above(origin, j), page));
            assert(way_avoids(
                s,
                root,
                address::page_above(origin, j),
                other_page(s, into, target, i),
            ));
            lemma_way_kept(s, root, address::page_above(origin, j), page, data);
        }
        assert forall|i: int, j: int| 0 <= i < n && 0 <= j < n && i != j implies #[trigger] other_page(
            t,
            into,
            target,
            i,
        ) != #[trigger] other_page(t, into, target, j) by {
            assert(other_page(t, into, target, i) == other_page(s, into, target, i));
            assert(other_page(t, into, target, j) == other_page(s, into, target, j));
        }
        assert forall|i: int, j: int| 0 <= i < n && 0 <= j < n implies #[trigger] other_page(
            t,
            into,
            target,
            i,
        ) != #[trigger] other_page(t, root, origin, j) by {
            assert(other_page(t, into, target, i) == other_page(s, into, target, i));
            assert(other_page(t, root, origin, j) == other_page(s, root, origin, j));
        }
    }
}

/// Whether the way to an address is the same: it ends where it did, and with the
/// same tables.
pub open spec fn way_same(s: MachineState, t: MachineState, root: u64, va: u64) -> bool {
    &&& walk::leaf_below(t, root, va, 3) == walk::leaf_below(s, root, va, 3)
    &&& forall|other: u64|
        #[trigger] way_avoids(s, root, va, other) ==> way_avoids(t, root, va, other)
}

/// Whether none of the pages of an address space from `target` on is a table on
/// the way to an address.
pub open spec fn avoids_all(
    s: MachineState,
    root: u64,
    va: u64,
    into: u64,
    target: u64,
    n: int,
) -> bool {
    forall|i: int|
        0 <= i < n ==> way_avoids(s, root, va, #[trigger] other_page(s, into, target, i))
}

/// Whether all ways stay the same that no page which is written lies on.
pub open spec fn ways_kept(s: MachineState, t: MachineState, into: u64, target: u64, n: int) -> bool {
    &&& t.c_bit == s.c_bit
    &&& t.cr3 == s.cr3
    &&& t.mem.len() == s.mem.len()
    &&& forall|root: u64, va: u64|
        root % 4096 == 0 && avoids_all(s, root, va, into, target, n) ==> #[trigger] way_same(
            s,
            t,
            root,
            va,
        )
}

/// Whether all pages are the same that are not written.
pub open spec fn pages_kept(s: MachineState, t: MachineState, into: u64, target: u64, n: int) -> bool {
    forall|pa: u64|
        pa % 4096 == 0 && (forall|i: int|
            0 <= i < n ==> pa != #[trigger] other_page(s, into, target, i))
            ==> #[trigger] machine::page_words(t.mem, pa) == machine::page_words(s.mem, pa)
}

proof fn lemma_ways_kept(
    s: MachineState,
    t: MachineState,
    into: u64,
    target: u64,
    n: int,
    k: int,
    data: Seq<u64>,
)
    requires
        ways_kept(s, t, into, target, n),
        pages_kept(s, t, into, target, n),
        0 <= k < n,
        other_page(s, into, target, k) as int / 8 + 512 <= s.mem.len(),
        data.len() == 512,
    ensures
        ways_kept(s, t.fill(other_page(s, into, target, k), data), into, target, n),
        pages_kept(s, t.fill(other_page(s, into, target, k), data), into, target, n),
{
    let page = other_page(s, into, target, k);
    let u = t.fill(page, data);
    lemma_page_aligned(s, into, target, k);
    lemma_fill(t, page, data);
    assert forall|root: u64, va: u64|
        root % 4096 == 0 && avoids_all(s, root, va, into, target, n) implies #[trigger] way_same(
        s,
        u,
        root,
        va,
    ) by {
        assert(way_same(s, t, root, va));
        assert(way_avoids(s, root, va, page));
        assert(way_avoids(t, root, va, page));
        lemma_way_kept(t, root, va, page, data);
        assert forall|other: u64| #[trigger] way_avoids(s, root, va, other) implies way_avoids(
            u,
            root,
            va,
            other,
        ) by {
            assert(way_avoids(t, root, va, other));
        }
    }
    assert forall|pa: u64|
        pa % 4096 == 0 && (forall|i: int|
            0 <= i < n ==> pa != #[trigger] other_page(s, into, target, i)) implies #[trigger] machine::page_words(
        u.mem,
        pa,
    ) == machine::page_words(s.mem, pa) by {
        assert(pa != other_page(s, into, target, k));
        assert(machine::page_words(t.mem, pa) == machine::page_words(s.mem, pa));
    }
}

/// Whether the first `k` of the pages that are written hold in `t` what those
/// that are read held in `s`, and whether these hold it still.
pub open spec fn brought(
    s: MachineState,
    t: MachineState,
    root: u64,
    origin: u64,
    into: u64,
    target: u64,
    n: int,
    k: int,
) -> bool {
    &&& forall|i: int|
        0 <= i < n ==> machine::page_words(t.mem, #[trigger] other_page(s, root, origin, i))
            == machine::page_words(s.mem, other_page(s, root, origin, i))
    &&& forall|i: int|
        0 <= i < k ==> machine::page_words(t.mem, #[trigger] other_page(s, into, target, i))
            == machine::page_words(s.mem, other_page(s, root, origin, i))
}

/// One page more is brought across.
proof fn lemma_bring(
    s: MachineState,
    t: MachineState,
    root: u64,
    origin: u64,
    into: u64,
    target: u64,
    n: int,
    k: int,
)
    requires
        apart(s, root, origin, into, target, n),
        apart(t, root, origin, into, target, n),
        stays(s, t, root, origin, into, target, n),
        brought(s, t, root, origin, into, target, n, k),
        0 <= k < n,
    ensures
        ({
            let u = t.fill(
                other_page(t, into, target, k),
                machine::page_words(t.mem, other_page(t, root, origin, k)),
            );
            &&& apart(u, root, origin, into, target, n)
            &&& stays(s, u, root, origin, into, target, n)
            &&& brought(s, u, root, origin, into, target, n, k + 1)
        }),
{
    let page = other_page(t, into, target, k);
    assert(page == other_page(s, into, target, k));
    assert(other_page(t, root, origin, k) == other_page(s, root, origin, k));
    let data = machine::page_words(t.mem, other_page(t, root, origin, k));
    let u = t.fill(page, data);
    lemma_fill_keeps_apart(t, root, origin, into, target, n, k, data);
    lemma_page_aligned(t, into, target, k);
    lemma_fill(t, page, data);
    assert forall|i: int| 0 <= i < n implies #[trigger] other_page(u, into, target, i) == other_page(
        s,
        into,
        target,
        i,
    ) by {
        assert(other_page(t, into, target, i) == other_page(s, into, target, i));
    }
    assert forall|i: int| 0 <= i < n implies #[trigger] other_page(u, root, origin, i) == other_page(
        s,
        root,
        origin,
        i,
    ) by {
        assert(other_page(t, root, origin, i) == other_page(s, root, origin, i));
    }
    assert forall|i: int| 0 <= i < n implies machine::page_words(
        u.mem,
        #[trigger] other_page(s, root, origin, i),
    ) == machine::page_words(s.mem, other_page(s, root, origin, i)) by {
        lemma_page_aligned(s, root, origin, i);
        assert(other_page(s, into, target, k) != other_page(s, root, origin, i));
    }
    assert forall|i: int| 0 <= i < k + 1 implies machine::page_words(
        u.mem,
        #[trigger] other_page(s, into, target, i),
    ) == machine::page_words(s.mem, other_page(s, root, origin, i)) by {
        lemma_page_aligned(s, into, target, i);
        if i != k {
            assert(other_page(s, into, target, i) != other_page(s, into, target, k));
        }
    }
}

/// What the monitor has mounted is what its address space has.
pub proof fn lemma_mounted(s: MachineState, va: u64)
    ensures
        walk::mounted(s, va) is Some ==> walk::mounted(s, va) == Some(
            walk::translate(s, s.cr3, va),
        ),
        walk::mounted(s, va) is Some <==> walk::leaf_below(s, s.cr3, va, 3) is Some,
{
}

/// What copying pages in does.
pub proof fn lemma_copied_in(s: MachineState, root: u64, origin: u64, target: u64, n: int, k: nat)
    requires
        apart(s, root, origin, s.cr3, target, n),
        k <= n,
    ensures
        ({
            let t = guest_copy::copied_in(s, root, origin, target, k);
            &&& apart(t, root, origin, s.cr3, target, n)
            &&& stays(s, t, root, origin, s.cr3, target, n)
            &&& brought(s, t, root, origin, s.cr3, target, n, k as int)
            &&& ways_kept(s, t, s.cr3, target, n)
            &&& pages_kept(s, t, s.cr3, target, n)
        }),
    decreases k,
{
    if k > 0 {
        let t = guest_copy::copied_in(s, root, origin, target, (k - 1) as nat);
        lemma_copied_in(s, root, origin, target, n, (k - 1) as nat);
        let j = k - 1;
        assert(walk::leaf_below(t, s.cr3, address::page_above(target, j), 3) is Some);
        lemma_mounted(t, address::page_above(target, j));
        lemma_bring(s, t, root, origin, s.cr3, target, n, j);
        let data = machine::page_words(t.mem, other_page(t, root, origin, j));
        assert(other_page(t, s.cr3, target, j) == other_page(s, s.cr3, target, j));
        lemma_ways_kept(s, t, s.cr3, target, n, j, data);
    }
}

/// Copies from another address space bring its pages across: afterwards the
/// monitor has what is there, and what is there is what was there before.
pub proof fn law_copied_in_pages(s: MachineState, root: u64, origin: u64, target: u64, n: nat)
    requires
        apart(s, root, origin, s.cr3, target, n as int),
    ensures
        ({
            let t = guest_copy::copied_in(s, root, origin, target, n);
            forall|i: int|
                0 <= i < n ==> walk::mounted_words(t, #[trigger] address::page_above(target, i))
                    == machine::page_words(
                    s.mem,
                    walk::translate(s, root, address::page_above(origin, i)),
                ) && machine::page_words(
                    t.mem,
                    walk::translate(t, root, address::page_above(origin, i)),
                ) == machine::page_words(
                    s.mem,
                    walk::translate(s, root, address::page_above(origin, i)),
                )
        }),
{
    let t = guest_copy::copied_in(s, root, origin, target, n);
    lemma_copied_in(s, root, origin, target, n as int, n);
    assert forall|i: int| 0 <= i < n implies walk::mounted_words(
        t,
        #[trigger] address::page_above(target, i),
    ) == machine::page_words(s.mem, walk::translate(s, root, address::page_above(origin, i)))
        && machine::page_words(t.mem, walk::translate(t, root, address::page_above(origin, i)))
        == machine::page_words(s.mem, walk::translate(s, root, address::page_above(origin, i))) by {
        assert(other_page(t, s.cr3, target, i) == other_page(s, s.cr3, target, i));
        assert(other_page(t, root, origin, i) == other_page(s, root, origin, i));
        lemma_mounted(t, address::page_above(target, i));
        assert(machine::page_words(t.mem, other_page(s, s.cr3, target, i)) == machine::page_words(
            s.mem,
            other_page(s, root, origin, i),
        ));
    }
}

/// What copying pages out does.
pub proof fn lemma_copied_out(
    s: MachineState,
    t: MachineState,
    root: u64,
    dst: u64,
    source: u64,
    k: nat,
    n: nat,
)
    requires
        apart(s, s.cr3, source, root, dst, n as int),
        apart(t, s.cr3, source, root, dst, n as int),
        stays(s, t, s.cr3, source, root, dst, n as int),
        brought(s, t, s.cr3, source, root, dst, n as int, k as int),
        ways_kept(s, t, root, dst, n as int),
        pages_kept(s, t, root, dst, n as int),
        forall|i: int| 0 <= i < n ==> #[trigger] other_page(s, root, dst, i) != 0,
        forall|i: int|
            0 <= i < n ==> walk::leaf_below(t, s.cr3, #[trigger] address::page_above(source, i), 3)
                is Some,
        k <= n,
    ensures
        ({
            let u = guest_copy::copied_out(t, root, dst, source, k, n);
            &&& stays(s, u, s.cr3, source, root, dst, n as int)
            &&& brought(s, u, s.cr3, source, root, dst, n as int, n as int)
            &&& ways_kept(s, u, root, dst, n as int)
            &&& pages_kept(s, u, root, dst, n as int)
        }),
    decreases n - k,
{
    if k < n {
        let page = other_page(t, root, dst, k as int);
        assert(page == other_page(s, root, dst, k as int));
        let data = machine::page_words(t.mem, other_page(t, s.cr3, source, k as int));
        assert(walk::leaf_below(t, s.cr3, address::page_above(source, k as int), 3) is Some);
        lemma_mounted(t, address::page_above(source, k as int));
        let u = t.fill(page, data);
        lemma_bring(s, t, s.cr3, source, root, dst, n as int, k as int);
        lemma_ways_kept(s, t, root, dst, n as int, k as int, data);
        lemma_page_aligned(t, root, dst, k as int);
        assert forall|i: int| 0 <= i < n implies walk::leaf_below(
            u,
            s.cr3,
            #[trigger] address::page_above(source, i),
            3,
        ) is Some by {
            assert(way_avoids(t, s.cr3, address::page_above(source, i), page));
            lemma_way_kept(t, s.cr3, address::page_above(source, i), page, data);
        }
        lemma_copied_out(s, u, root, dst, source, k + 1, n);
    }
}

/// Copies to another address space bring the monitor's pages across: afterwards
/// they are there, where all pages that are copied to are mapped.
pub proof fn law_copied_out_pages(s: MachineState, root: u64, dst: u64, source: u64, n: nat)
    requires
        apart(s, s.cr3, source, root, dst, n as int),
        forall|i: int| 0 <= i < n ==> #[trigger] other_page(s, root, dst, i) != 0,
        forall|i: int|
            0 <= i < n ==> walk::mounted(s, #[trigger] address::page_above(source, i)) is Some,
    ensures
        ({
            let t = guest_copy::copied_out(s, root, dst, source, 0, n);
            forall|i: int|
                0 <= i < n ==> machine::page_words(
                    t.mem,
                    walk::translate(t, root, #[trigger] address::page_above(dst, i)),
                ) == walk::mounted_words(s, address::page_above(source, i))
        }),
{
    assert forall|i: int| 0 <= i < n implies walk::leaf_below(
        s,
        s.cr3,
        #[trigger] address::page_above(source, i),
        3,
    ) is Some by {
        lemma_mounted(s, address::page_above(source, i));
    }
    let t = guest_copy::copied_out(s, root, dst, source, 0, n);
    lemma_copied_out(s, s, root, dst, source, 0, n);
    assert forall|i: int| 0 <= i < n implies machine::page_words(
        t.mem,
        walk::translate(t, root, #[trigger] address::page_above(dst, i)),
    ) == walk::mounted_words(s, address::page_above(source, i)) by {
        lemma_mounted(s, address::page_above(source, i));
        assert(other_page(t, root, dst, i) == other_page(s, root, dst, i));
        assert(machine::page_words(t.mem, other_page(s, root, dst, i)) == machine::page_words(
            s.mem,
            other_page(s, s.cr3, source, i),
        ));
    }
}

} // verus!
