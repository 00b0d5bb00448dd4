//! What a process finds at the addresses that something was put at.
use vstd::prelude::*;
use crate::address;
use crate::memory::machine;
use crate::memory::machine::MachineState;
use crate::process_manager::process_paging::entry;
use crate::process_manager::process_paging::growth;
use crate::process_manager::process_paging::isolation;
use crate::process_manager::process_paging::mapping;
use crate::process_manager::process_paging::ranges;
use crate::process_manager::process_paging::soundness;
use crate::process_manager::process_paging::transfer;
use crate::process_manager::process_paging::walk;

verus! {

/// The byte that a process finds at an address; 0 where it has no page there.
pub open spec fn found_byte(s: MachineState, root: u64, va: u64) -> u8 {
    let frame = walk::translate(s, root, va);
    if frame == 0 {
        0
    } else {
        machine::byte_at(s.mem, frame + va % 4096)
    }
}

/// Whether a process finds a page of its own at an address, with the given words
/// and flags: the page is in use, and is no table.
pub open spec fn holds(s: MachineState, root: u64, va: u64, data: Seq<u64>, flags: u64) -> bool {
    let frame = walk::translate(s, root, va);
    &&& walk::leaf_below(s, root, va, 3) == Some(entry::entry_word(s.c_bit, frame, flags))
    &&& soundness::is_page(s, frame)
    &&& !soundness::in_pool(s.pool, frame)
    &&& !soundness::is_table(s, root, frame)
    &&& machine::page_words(s.mem, frame) == data
}

/// What a process finds stays as long as its address leads there and nothing but
/// tables and pages of the pool is changed.
pub proof fn lemma_holds_kept(
    s: MachineState,
    t: MachineState,
    root: u64,
    va: u64,
    data: Seq<u64>,
    flags: u64,
)
    requires
        holds(s, root, va, data, flags),
        soundness::others_kept(s, t, root),
        walk::leaf_below(t, root, va, 3) == walk::leaf_below(s, root, va, 3),
    ensures
        holds(t, root, va, data, flags),
        walk::translate(t, root, va) == walk::translate(s, root, va),
{
    let frame = walk::translate(s, root, va);
    if soundness::in_pool(t.pool, frame) {
        assert(soundness::in_pool(s.pool, frame));
    }
    if soundness::is_table(t, root, frame) {
        assert(soundness::is_table(s, root, frame) || soundness::in_pool(s.pool, frame));
    }
    assert(machine::page_words(t.mem, frame) =~= machine::page_words(s.mem, frame)) by {
        assert forall|i: int| 0 <= i < 512 implies #[trigger] machine::page_words(t.mem, frame)[i]
            == machine::page_words(s.mem, frame)[i] by {
            assert(t.rd(frame, i) == s.rd(frame, i));
        }
    }
}

/// The pages that a page at `va` takes, with the tables that are missing.
pub open spec fn put_takes(s: MachineState, root: u64, va: u64) -> nat {
    1 + walk::walk_end(s, root, va, 3).0
}

/// What a fresh page that was filled and mapped does: it is found, with what it
/// was filled with, and all else is found where it was.
pub proof fn lemma_put_page(
    s: MachineState,
    w: MachineState,
    root: u64,
    va: u64,
    flags: u64,
    data: Seq<u64>,
)
    requires
        soundness::sound(s, root),
        s.pool.available() >= put_takes(s, root, va),
        soundness::page_flags(flags),
        flags & 0x1 == 0x1,
        data.len() == 512,
        ({
            let (u, page) = s.take_page();
            w == (MachineState { ops: w.ops, ..u.fill(page, data) })
        }),
    ensures
        ({
            let page = s.take_page().1;
            let t = mapping::map_page(w, root, va, page, flags);
            &&& soundness::sound(t, root)
            &&& soundness::others_kept(s, t, root)
            &&& t.pool.available() == s.pool.available() - put_takes(s, root, va)
            &&& walk::translate(t, root, va) == page
            &&& soundness::in_pool(s.pool, page)
            &&& holds(t, root, va, data, flags)
            &&& forall|vb: u64|
                !soundness::same_page(va, vb) ==> #[trigger] walk::leaf_below(t, root, vb, 3)
                    == walk::leaf_below(s, root, vb, 3)
        }),
{
    let (u, page) = s.take_page();
    soundness::law_taken_page_is_fresh(s);
    ranges::lemma_take_keeps_tables(s, root);
    lemma_filled(s, w, root, va, data);
    let t = mapping::map_page(w, root, va, page, flags);
    soundness::law_mapped_page_is_found(w, root, va, page, flags);
    soundness::lemma_others_kept(s, w, t, root);
    assert(!soundness::in_pool(w.pool, page));
    assert(!soundness::in_pool(t.pool, page)) by {
        if soundness::in_pool(t.pool, page) {
            assert(soundness::in_pool(w.pool, page));
        }
    }
    assert(!soundness::is_table(t, root, page)) by {
        if soundness::is_table(t, root, page) {
            assert(soundness::is_table(w, root, page) || soundness::in_pool(w.pool, page));
        }
    }
    assert(machine::page_words(t.mem, page) =~= data) by {
        assert forall|i: int| 0 <= i < 512 implies #[trigger] machine::page_words(t.mem, page)[i]
            == data[i] by {
            assert(t.rd(page, i) == w.rd(page, i));
            assert(w.rd(page, i) == machine::page_words(w.mem, page)[i]);
        }
    }
    assert forall|vb: u64| !soundness::same_page(va, vb) implies #[trigger] walk::leaf_below(
        t,
        root,
        vb,
        3,
    ) == walk::leaf_below(s, root, vb, 3) by {
        assert(walk::leaf_below(t, root, vb, 3) == walk::leaf_below(w, root, vb, 3));
        assert(walk::leaf_below(w, root, vb, 3) == walk::leaf_below(s, root, vb, 3));
    }
}

/// What taking a page and filling it does.
pub proof fn lemma_filled(s: MachineState, w: MachineState, root: u64, va: u64, data: Seq<u64>)
    requires
        soundness::sound(s, root),
        s.pool.available() > 0,
        data.len() == 512,
        ({
            let (u, page) = s.take_page();
            w == (MachineState { ops: w.ops, ..u.fill(page, data) })
        }),
    ensures
        soundness::sound(w, root),
        soundness::others_kept(s, w, root),
        !soundness::is_table(w, root, s.take_page().1),
        machine::page_words(w.mem, s.take_page().1) == data,
        walk::walk_end(w, root, va, 3).0 == walk::walk_end(s, root, va, 3).0,
        forall|vb: u64| #[trigger]
            walk::leaf_below(w, root, vb, 3) == walk::leaf_below(s, root, vb, 3),
{
    let (u, page) = s.take_page();
    soundness::law_taken_page_is_fresh(s);
    let v = u.fill(page, data);
    assert(soundness::pool_sound(v)) by {
        assert forall|pa: u64|
            pa % 4096 == 0 && #[trigger] soundness::in_region(
                v.pool,
                pa,
            ) implies soundness::is_page(v, pa) by {
            assert(soundness::in_region(u.pool, pa));
        }
    }
    transfer::lemma_fill(u, page, data);
    assert forall|pa: u64, i: int|
        pa % 4096 == 0 && 0 <= i < 512 && !soundness::in_pool(s.pool, pa) implies #[trigger] v.rd(
        pa,
        i,
    ) == s.rd(pa, i) by {
        assert(pa != page);
        assert(v.rd(pa, i) == u.rd(pa, i));
        assert(u.rd(pa, i) == s.rd(pa, i));
    }
    assert(isolation::outside(s, v, 0));
    assert forall|vb: u64, l: int| 0 <= l <= 3 && #[trigger] soundness::reach(s, root, vb, l) implies soundness::tab(
        s,
        root,
        vb,
        l,
    ) != 0 by {
        assert(soundness::is_page(s, soundness::tab(s, root, vb, l)));
    }
    isolation::lemma_untouched(s, v, root, 0);
    assert forall|pa: u64| #[trigger] soundness::is_table(v, root, pa) implies soundness::is_table(
        s,
        root,
        pa,
    ) && !soundness::in_pool(s.pool, pa) by {
        let (vb, k) = choose|vb: u64, k: int|
            0 <= k <= 3 && #[trigger] soundness::reach(v, root, vb, k) && soundness::tab(
                v,
                root,
                vb,
                k,
            ) == pa;
        assert(soundness::reach(v, root, vb, k) == soundness::reach(s, root, vb, k));
        assert(soundness::reach(s, root, vb, k));
    }
    ranges::lemma_op_keeps(v, w, root);
    soundness::lemma_others_kept(s, v, w, root);
    ranges::lemma_same_walk_end(s, v, root, va);
    ranges::lemma_same_walk_end(v, w, root, va);
    assert(!soundness::is_table(w, root, page)) by {
        if soundness::is_table(w, root, page) {
            assert(soundness::is_table(v, root, page) || soundness::in_pool(v.pool, page));
        }
    }
    assert forall|vb: u64| #[trigger]
        walk::leaf_below(w, root, vb, 3) == walk::leaf_below(s, root, vb, 3) by {
        assert(walk::leaf_below(w, root, vb, 3) == walk::leaf_below(v, root, vb, 3));
    }
}

/// A page that has the words of some bytes has those bytes.
pub proof fn lemma_bytes_of_page(s: MachineState, pa: u64, bytes: Seq<u8>, j: int)
    requires
        bytes.len() == 4096,
        pa % 4096 == 0,
        pa as int / 8 + 512 <= s.mem.len(),
        machine::page_words(s.mem, pa) == machine::words_of(bytes),
        0 <= j < 4096,
    ensures
        machine::byte_at(s.mem, pa + j) == bytes[j],
{
    let t = s.fill(pa, machine::words_of(bytes));
    assert(t.mem =~= s.mem) by {
        assert forall|k: int| 0 <= k < s.mem.len() implies t.mem[k] == s.mem[k] by {
            let i = k - pa as int / 8;
            if 0 <= i < 512 {
                assert(machine::page_words(s.mem, pa)[i] == s.mem[k]);
            }
        }
    }
    machine::law_page_holds_bytes(s, pa, bytes, j);
}

/// A process finds the bytes of a page at the addresses in it.
pub proof fn lemma_found_in_page(
    s: MachineState,
    root: u64,
    va: u64,
    at: u64,
    bytes: Seq<u8>,
    flags: u64,
)
    requires
        holds(s, root, va, machine::words_of(bytes), flags),
        bytes.len() == 4096,
        soundness::same_page(va, at),
    ensures
        found_byte(s, root, at) == bytes[at as int % 4096],
        walk::translate(s, root, at) == walk::translate(s, root, va),
        walk::leaf_below(s, root, at, 3) == walk::leaf_below(s, root, va, 3),
{
    growth::lemma_leaf_of_page(s, root, va, at);
    lemma_bytes_of_page(s, walk::translate(s, root, va), bytes, at as int % 4096);
}

/// The address `k` bytes above the start of a page lies in page `k / 4096` from
/// there on.
pub proof fn lemma_byte_address(start: u64, k: int)
    requires
        start % 4096 == 0,
        0 <= k,
    ensures
        ({
            let at = address::addr_add(start, k);
            &&& at as int % 4096 == k % 4096
            &&& soundness::same_page(address::page_above(start, k / 4096), at)
        }),
{
    let base = address::page_above(start, k / 4096);
    let at = address::addr_add(start, k);
    address::lemma_addr_add(start, k / 4096 * 4096, k % 4096);
    assert(k / 4096 * 4096 + k % 4096 == k);
    assert(at == address::addr_add(base, k % 4096));
    assert(base as int % 4096 == 0) by {
        let a = start + k / 4096 * 4096;
        assert(a % 4096 == 0);
        assert(a % 0x1_0000_0000_0000_0000 % 4096 == 0) by {
            vstd::arithmetic::div_mod::lemma_mod_mod(a, 4096, 0x10_0000_0000_0000);
        }
    }
    assert(base + k % 4096 < 0x1_0000_0000_0000_0000);
    assert(at == base + k % 4096);
}

/// Addresses that follow each other up to the end of a page lie in it.
pub proof fn lemma_near(va: u64, i: int)
    requires
        0 <= i,
        va % 4096 + i < 4096,
    ensures
        va + i <= u64::MAX,
        soundness::same_page(va, (va + i) as u64),
        (va + i) % 4096 == va % 4096 + i,
{
    let vb = (va + i) as u64;
    let p = va as int / 4096;
    assert(va + i <= u64::MAX);
    assert(vb as int / 4096 == p);
    assert(va as int / 0x20_0000 == p / 512 && vb as int / 0x20_0000 == p / 512);
    assert(va as int / 0x4000_0000 == p / 0x4_0000 && vb as int / 0x4000_0000 == p / 0x4_0000);
    assert(va as int / 0x80_0000_0000 == p / 0x800_0000 && vb as int / 0x80_0000_0000 == p
        / 0x800_0000);
    soundness::lemma_same_page(va, vb);
}

} // verus!
