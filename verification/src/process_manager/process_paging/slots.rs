//! What holds of slots of root tables that lead to the same memory.
use vstd::prelude::*;
use crate::address;
use crate::memory::machine;
use crate::memory::machine::MachineState;
use crate::process_manager::process_paging::delivery;
use crate::process_manager::process_paging::entry;
use crate::process_manager::process_paging::growth;
use crate::process_manager::process_paging::loading;
use crate::process_manager::process_paging::soundness;
use crate::process_manager::process_paging::transfer;
use crate::process_manager::process_paging::walk;

verus! {

/// A word that is written changes nothing else, and no way that does not lead
/// through its page.
pub proof fn lemma_word_written(s: MachineState, page: u64, i: int, v: u64)
    requires
        page % 4096 == 0,
        page as int / 8 + 512 <= s.mem.len(),
        0 <= i < 512,
    ensures
        ({
            let t = s.wr(page, i, v);
            &&& t == (MachineState { mem: t.mem, ..s })
            &&& t.mem.len() == s.mem.len()
            &&& t.rd(page, i) == v
            &&& forall|j: int| 0 <= j < 512 && j != i ==> #[trigger] t.rd(page, j) == s.rd(page, j)
            &&& forall|root: u64, va: u64|
                root % 4096 == 0 && transfer::way_avoids(s, root, va, page)
                    ==> #[trigger] transfer::way_same(s, t, root, va)
            &&& forall|pa: u64|
                pa % 4096 == 0 && pa != page ==> #[trigger] machine::page_words(t.mem, pa)
                    == machine::page_words(s.mem, pa)
            &&& forall|pa: u64, j: int|
                pa % 4096 == 0 && pa != page && 0 <= j < 512 ==> #[trigger] t.rd(pa, j) == s.rd(
                    pa,
                    j,
                )
        }),
{
    let t = s.wr(page, i, v);
    let data = machine::page_words(s.mem, page).update(i, v);
    let u = s.fill(page, data);
    transfer::lemma_fill(s, page, data);
    assert(t.mem =~= u.mem) by {
        assert forall|k: int| 0 <= k < s.mem.len() implies t.mem[k] == u.mem[k] by {
            let j = k - page as int / 8;
            if 0 <= j < 512 {
                assert(u.mem[k] == data[j]);
            }
        }
    }
    assert(t == u);
    assert forall|root: u64, va: u64|
        root % 4096 == 0 && transfer::way_avoids(s, root, va, page) implies #[trigger] transfer::way_same(
        s,
        t,
        root,
        va,
    ) by {
        transfer::lemma_way_kept(s, root, va, page, data);
    }
}

/// Slots that lead to the same table lead to the same pages.
pub proof fn lemma_same_slot(s: MachineState, ra: u64, at: u64, rb: u64, bt: u64, i: int)
    requires
        s.rd(ra, entry::table_index(at, 3)) == s.rd(rb, entry::table_index(bt, 3)),
        at % 0x80_0000_0000 == 0,
        bt % 0x80_0000_0000 == 0,
        0 <= i < 0x800_0000,
    ensures
        walk::leaf_below(s, ra, address::page_above(at, i), 3) == walk::leaf_below(
            s,
            rb,
            address::page_above(bt, i),
            3,
        ),
        transfer::other_page(s, ra, at, i) == transfer::other_page(s, rb, bt, i),
        forall|other: u64|
            other != ra && #[trigger] transfer::way_avoids(
                s,
                rb,
                address::page_above(bt, i),
                other,
            ) ==> transfer::way_avoids(s, ra, address::page_above(at, i), other),
{
    delivery::lemma_slot_page(at, i);
    delivery::lemma_slot_page(bt, i);
    delivery::lemma_same_below(
        s,
        ra,
        address::page_above(at, i),
        rb,
        address::page_above(bt, i),
    );
}

/// Slots that lead to the same table lead to the same tables below it, so a way
/// through one of them keeps clear of what the other keeps clear of below its
/// root.
pub proof fn lemma_same_tables(
    s: MachineState,
    ra: u64,
    at: u64,
    rb: u64,
    bt: u64,
    i: int,
    other: u64,
)
    requires
        s.rd(ra, entry::table_index(at, 3)) == s.rd(rb, entry::table_index(bt, 3)),
        at % 0x80_0000_0000 == 0,
        bt % 0x80_0000_0000 == 0,
        0 <= i < 0x800_0000,
        other != ra,
        forall|l: int|
            0 <= l <= 2 && #[trigger] soundness::reach(s, rb, address::page_above(bt, i), l)
                ==> soundness::tab(s, rb, address::page_above(bt, i), l) != other,
    ensures
        transfer::way_avoids(s, ra, address::page_above(at, i), other),
{
    let va = address::page_above(at, i);
    let vb = address::page_above(bt, i);
    delivery::lemma_slot_page(at, i);
    delivery::lemma_slot_page(bt, i);
    assert forall|l: int| 0 <= l <= 3 && #[trigger] soundness::reach(s, ra, va, l) implies soundness::tab(
        s,
        ra,
        va,
        l,
    ) != other by {
        if l < 3 {
            assert(soundness::reach(s, rb, vb, l) == soundness::reach(s, ra, va, l)
                && soundness::tab(s, rb, vb, l) == soundness::tab(s, ra, va, l)) by {
                reveal_with_fuel(soundness::reach, 4);
                reveal_with_fuel(soundness::tab, 4);
            }
        }
    }
}

/// A slot that is given the entry of another leads to the pages that the other
/// leads to.
pub proof fn lemma_slot_given(s: MachineState, ra: u64, at: u64, rb: u64, bt: u64, i: int)
    requires
        ra % 4096 == 0,
        rb % 4096 == 0,
        ra != rb,
        ra as int / 8 + 512 <= s.mem.len(),
        at % 0x80_0000_0000 == 0,
        bt % 0x80_0000_0000 == 0,
        0 <= i < 0x800_0000,
        transfer::way_avoids(s, rb, address::page_above(bt, i), ra),
    ensures
        ({
            let t = s.wr(ra, entry::table_index(at, 3), s.rd(rb, entry::table_index(bt, 3)));
            &&& walk::leaf_below(t, ra, address::page_above(at, i), 3) == walk::leaf_below(
                s,
                rb,
                address::page_above(bt, i),
                3,
            )
            &&& walk::leaf_below(t, rb, address::page_above(bt, i), 3) == walk::leaf_below(
                s,
                rb,
                address::page_above(bt, i),
                3,
            )
        }),
{
    let slot = entry::table_index(at, 3);
    assert(0 <= slot < 512 && 0 <= entry::table_index(bt, 3) < 512);
    let e = s.rd(rb, entry::table_index(bt, 3));
    let t = s.wr(ra, slot, e);
    lemma_word_written(s, ra, slot, e);
    assert(transfer::way_same(s, t, rb, address::page_above(bt, i)));
    lemma_same_slot(t, ra, at, rb, bt, i);
}

/// Whether the first `n` pages from `va` on are pages of their own: they lie in
/// memory, no two of them are the same, and none is a table on the way to any.
pub open spec fn own_pages(s: MachineState, root: u64, va: u64, n: int) -> bool {
    &&& va % 4096 == 0
    &&& root % 4096 == 0
    &&& forall|i: int|
        0 <= i < n ==> walk::leaf_below(s, root, #[trigger] address::page_above(va, i), 3) is Some
    &&& forall|i: int|
        0 <= i < n ==> #[trigger] transfer::other_page(s, root, va, i) as int / 8 + 512
            <= s.mem.len()
    &&& forall|i: int, j: int|
        0 <= i < n && 0 <= j < n && i != j ==> #[trigger] transfer::other_page(s, root, va, i)
            != #[trigger] transfer::other_page(s, root, va, j)
    &&& forall|i: int, j: int|
        0 <= i < n && 0 <= j < n ==> transfer::way_avoids(
            s,
            root,
            #[trigger] address::page_above(va, i),
            #[trigger] transfer::other_page(s, root, va, j),
        )
}

/// Bytes that are stored in a page leave the other pages as they are, and ways
/// that do not lead through it.
proof fn lemma_byte_stored(s: MachineState, page: u64, k: int, b: u8)
    requires
        page % 4096 == 0,
        page as int / 8 + 512 <= s.mem.len(),
        0 <= k < 4096,
    ensures
        ({
            let t = MachineState { mem: machine::store_byte(s.mem, page + k, b), ..s };
            &&& t.mem.len() == s.mem.len()
            &&& forall|x: int|
                0 <= x < 8 * s.mem.len() ==> #[trigger] machine::byte_at(t.mem, x) == (if x == page
                    + k {
                    b
                } else {
                    machine::byte_at(s.mem, x)
                })
            &&& forall|root: u64, va: u64|
                root % 4096 == 0 && transfer::way_avoids(s, root, va, page)
                    ==> #[trigger] transfer::way_same(s, t, root, va)
            &&& forall|pa: u64|
                pa % 4096 == 0 && pa != page ==> #[trigger] machine::page_words(t.mem, pa)
                    == machine::page_words(s.mem, pa)
        }),
{
    let t = MachineState { mem: machine::store_byte(s.mem, page + k, b), ..s };
    let data = machine::page_words(t.mem, page);
    let u = s.fill(page, data);
    assert((page + k) / 8 == page as int / 8 + k / 8);
    assert(t.mem =~= u.mem) by {
        assert forall|w: int| 0 <= w < s.mem.len() implies u.mem[w] == t.mem[w] by {
            let i = w - page as int / 8;
            if 0 <= i < 512 {
                assert(data[i] == t.mem[w]);
            }
        }
    }
    assert(t == u);
    transfer::lemma_fill(s, page, data);
    assert forall|x: int| 0 <= x < 8 * s.mem.len() implies #[trigger] machine::byte_at(t.mem, x)
        == (if x == page + k {
        b
    } else {
        machine::byte_at(s.mem, x)
    }) by {
        machine::law_store_byte(s.mem, page + k, b, x);
    }
    assert forall|root: u64, va: u64|
        root % 4096 == 0 && transfer::way_avoids(s, root, va, page) implies #[trigger] transfer::way_same(
        s,
        t,
        root,
        va,
    ) by {
        transfer::lemma_way_kept(s, root, va, page, data);
    }
}

/// Bytes that the monitor stores are where it stores them; all other pages, and
/// the ways that do not lead through the pages that it stores to, stay.
pub proof fn lemma_mounted_store(s: MachineState, va: u64, bytes: Seq<u8>, n: int)
    requires
        own_pages(s, s.cr3, va, n),
        bytes.len() <= n * 4096,
    ensures
        ({
            let t = walk::mounted_store(s, va, bytes);
            &&& t == (MachineState { mem: t.mem, ..s })
            &&& t.mem.len() == s.mem.len()
            &&& forall|k: int|
                0 <= k < bytes.len() ==> #[trigger] machine::byte_at(
                    t.mem,
                    transfer::other_page(s, s.cr3, va, k / 4096) + k % 4096,
                ) == bytes[k]
            &&& transfer::ways_kept(s, t, s.cr3, va, n)
            &&& transfer::pages_kept(s, t, s.cr3, va, n)
        }),
    decreases bytes.len(),
{
    let t = walk::mounted_store(s, va, bytes);
    if bytes.len() > 0 {
        let u = walk::mounted_store(s, va, bytes.drop_last());
        lemma_mounted_store(s, va, bytes.drop_last(), n);
        lemma_store_step(s, u, va, bytes, n);
    }
}

proof fn lemma_store_step(s: MachineState, u: MachineState, va: u64, bytes: Seq<u8>, n: int)
    requires
        own_pages(s, s.cr3, va, n),
        0 < bytes.len() <= n * 4096,
        u == walk::mounted_store(s, va, bytes.drop_last()),
        u == (MachineState { mem: u.mem, ..s }),
        u.mem.len() == s.mem.len(),
        forall|k: int|
            0 <= k < bytes.len() - 1 ==> #[trigger] machine::byte_at(
                u.mem,
                transfer::other_page(s, s.cr3, va, k / 4096) + k % 4096,
            ) == bytes[k],
        transfer::ways_kept(s, u, s.cr3, va, n),
        transfer::pages_kept(s, u, s.cr3, va, n),
    ensures
        ({
            let t = walk::mounted_store(s, va, bytes);
            &&& t == (MachineState { mem: t.mem, ..s })
            &&& t.mem.len() == s.mem.len()
            &&& forall|k: int|
                0 <= k < bytes.len() ==> #[trigger] machine::byte_at(
                    t.mem,
                    transfer::other_page(s, s.cr3, va, k / 4096) + k % 4096,
                ) == bytes[k]
            &&& transfer::ways_kept(s, t, s.cr3, va, n)
            &&& transfer::pages_kept(s, t, s.cr3, va, n)
        }),
{
    let t = walk::mounted_store(s, va, bytes);
    let last = bytes.len() - 1;
    let i = last / 4096;
    let a = address::addr_add(va, last);
    let page = address::page_above(va, i);
    let f = transfer::other_page(s, s.cr3, va, i);
    assert(0 <= i < n);
    loading::lemma_byte_address(va, last);
    assert(transfer::avoids_all(s, s.cr3, page, s.cr3, va, n));
    assert(transfer::way_same(s, u, s.cr3, page));
    growth::lemma_leaf_of_page(u, s.cr3, page, a);
    assert(walk::leaf_below(s, s.cr3, page, 3) is Some);
    assert(walk::mounted(u, a) == Some(f));
    transfer::lemma_page_aligned(s, s.cr3, va, i);
    lemma_byte_stored(u, f, last % 4096, bytes.last());
    assert(t.mem == machine::store_byte(u.mem, f + last % 4096, bytes.last()));
    assert forall|k: int| 0 <= k < bytes.len() implies #[trigger] machine::byte_at(
        t.mem,
        transfer::other_page(s, s.cr3, va, k / 4096) + k % 4096,
    ) == bytes[k] by {
        lemma_places_differ(s, va, n, k, last);
        if k < last {
            assert(machine::byte_at(
                u.mem,
                transfer::other_page(s, s.cr3, va, k / 4096) + k % 4096,
            ) == bytes[k]);
        }
    }
    lemma_store_keeps(s, u, t, va, n, f);
}

/// Different bytes of pages of their own lie in different places.
proof fn lemma_places_differ(s: MachineState, va: u64, n: int, k: int, l: int)
    requires
        own_pages(s, s.cr3, va, n),
        0 <= k <= l < n * 4096,
    ensures
        ({
            let x = transfer::other_page(s, s.cr3, va, k / 4096) + k % 4096;
            let y = transfer::other_page(s, s.cr3, va, l / 4096) + l % 4096;
            &&& 0 <= x < 8 * s.mem.len()
            &&& k != l ==> x != y
        }),
{
    let g = transfer::other_page(s, s.cr3, va, k / 4096);
    let f = transfer::other_page(s, s.cr3, va, l / 4096);
    assert(0 <= k / 4096 < n && 0 <= l / 4096 < n);
    transfer::lemma_page_aligned(s, s.cr3, va, k / 4096);
    transfer::lemma_page_aligned(s, s.cr3, va, l / 4096);
    assert(g as int / 8 + 512 <= s.mem.len());
    if k != l && k / 4096 != l / 4096 {
        assert(g != f);
    }
}

proof fn lemma_store_keeps(
    s: MachineState,
    u: MachineState,
    t: MachineState,
    va: u64,
    n: int,
    f: u64,
)
    requires
        transfer::ways_kept(s, u, s.cr3, va, n),
        transfer::pages_kept(s, u, s.cr3, va, n),
        t == (MachineState { mem: t.mem, ..u }),
        t.mem.len() == u.mem.len(),
        exists|i: int| 0 <= i < n && f == #[trigger] transfer::other_page(s, s.cr3, va, i),
        forall|root: u64, vb: u64|
            root % 4096 == 0 && transfer::way_avoids(u, root, vb, f)
                ==> #[trigger] transfer::way_same(u, t, root, vb),
        forall|pa: u64|
            pa % 4096 == 0 && pa != f ==> #[trigger] machine::page_words(t.mem, pa)
                == machine::page_words(u.mem, pa),
    ensures
        transfer::ways_kept(s, t, s.cr3, va, n),
        transfer::pages_kept(s, t, s.cr3, va, n),
{
    assert forall|root: u64, vb: u64|
        root % 4096 == 0 && transfer::avoids_all(s, root, vb, s.cr3, va, n) implies #[trigger] transfer::way_same(
        s,
        t,
        root,
        vb,
    ) by {
        assert(transfer::way_same(s, u, root, vb));
        assert(transfer::way_avoids(s, root, vb, f));
        assert(transfer::way_avoids(u, root, vb, f));
        assert(transfer::way_same(u, t, root, vb));
        delivery::lemma_same_memory(s, s, root, vb);
        delivery::lemma_way_joined(s, s, u, t, root, vb);
    }
    assert forall|pa: u64|
        pa % 4096 == 0 && (forall|j: int|
            0 <= j < n ==> pa != #[trigger] transfer::other_page(s, s.cr3, va, j)) implies #[trigger] machine::page_words(
        t.mem,
        pa,
    ) == machine::page_words(s.mem, pa) by {
        assert(pa != f);
        assert(machine::page_words(u.mem, pa) == machine::page_words(s.mem, pa));
    }
}

} // verus!
