//! What the channels of processes bring across.
use vstd::prelude::*;
use crate::address;
use crate::crypto;
use crate::memory::machine;
use crate::memory::machine::MachineState;
use crate::process_manager::allocation;
use crate::process_manager::allocation::{AllocationRange, ALLOCATION_RANGE_VIRT_START};
use crate::process_manager::memory_channels;
use crate::process_manager::process_paging::entry;
use crate::process_manager::process_paging::growth;
use crate::process_manager::process_paging::guest_copy;
use crate::process_manager::process_paging::loading;
use crate::process_manager::process_paging::soundness;
use crate::process_manager::process_paging::transfer;
use crate::process_manager::process_paging::walk;

verus! {

/// Whether an address space has nothing to do with the root table of the
/// monitor in the first `n` pages from `va` on: it is neither one of the pages
/// nor a table on the way to one.
pub open spec fn clear_of_monitor(s: MachineState, root: u64, va: u64, n: int) -> bool {
    &&& root % 4096 == 0
    &&& s.cr3 % 4096 == 0
    &&& s.cr3 as int / 8 + 512 <= s.mem.len()
    &&& forall|i: int|
        0 <= i < n ==> transfer::way_avoids(s, root, #[trigger] address::page_above(va, i), s.cr3)
    &&& forall|i: int| 0 <= i < n ==> #[trigger] transfer::other_page(s, root, va, i) != s.cr3
}

/// Whether a process has a range of memory at `at`: its root table leads to it,
/// and the first `n` pages are there.
pub open spec fn has_range(
    s: MachineState,
    range: AllocationRange,
    root: u64,
    at: u64,
    n: int,
) -> bool {
    &&& at % 0x80_0000_0000 == 0
    &&& n <= 0x800_0000
    &&& root != s.cr3
    &&& clear_of_monitor(s, root, at, n)
    &&& s.rd(root, entry::table_index(at, 3)) == range.0
    &&& forall|i: int|
        0 <= i < n ==> walk::leaf_below(s, root, #[trigger] address::page_above(at, i), 3) is Some
}

/// Pages of a slot of a root table differ in their place in the slot only.
pub proof fn lemma_slot_page(at: u64, i: int)
    requires
        at % 0x80_0000_0000 == 0,
        0 <= i < 0x800_0000,
    ensures
        entry::table_index(address::page_above(at, i), 0) == i % 512,
        entry::table_index(address::page_above(at, i), 1) == i / 512 % 512,
        entry::table_index(address::page_above(at, i), 2) == i / 512 / 512 % 512,
        entry::table_index(address::page_above(at, i), 3) == entry::table_index(at, 3),
{
    let k = at as int / 0x80_0000_0000;
    let va = address::page_above(at, i);
    assert(at == k * 0x80_0000_0000);
    assert(va == at + i * 4096);
    assert(va as int / 0x1000 == k * 0x800_0000 + i);
    let j = i / 512;
    assert((k * 0x800_0000 + i) / 512 == k * 0x4_0000 + j);
    assert(va as int / 0x20_0000 == k * 0x4_0000 + j);
    assert((k * 0x4_0000 + j) / 512 == k * 0x200 + j / 512);
    assert(va as int / 0x4000_0000 == k * 0x200 + j / 512);
    assert(va as int / 0x80_0000_0000 == k);
}

/// Ways below the same entry are the same.
pub proof fn lemma_same_below(s: MachineState, ra: u64, va: u64, rb: u64, vb: u64)
    requires
        walk::entry_in(s, ra, va, 3) == walk::entry_in(s, rb, vb, 3),
        entry::table_index(va, 2) == entry::table_index(vb, 2),
        entry::table_index(va, 1) == entry::table_index(vb, 1),
        entry::table_index(va, 0) == entry::table_index(vb, 0),
    ensures
        walk::leaf_below(s, ra, va, 3) == walk::leaf_below(s, rb, vb, 3),
        forall|other: u64|
            other != ra && #[trigger] transfer::way_avoids(s, rb, vb, other) ==> transfer::way_avoids(
                s,
                ra,
                va,
                other,
            ),
{
    assert forall|l: int| 0 <= l <= 2 implies #[trigger] soundness::reach(s, ra, va, l)
        == soundness::reach(s, rb, vb, l) && soundness::tab(s, ra, va, l) == soundness::tab(
        s,
        rb,
        vb,
        l,
    ) by {
        reveal_with_fuel(soundness::reach, 4);
        reveal_with_fuel(soundness::tab, 4);
    }
    soundness::lemma_leaf(s, ra, va);
    soundness::lemma_leaf(s, rb, vb);
    assert(soundness::reach(s, ra, va, 0) == soundness::reach(s, rb, vb, 0));
    assert forall|other: u64| other != ra && #[trigger] transfer::way_avoids(s, rb, vb, other) implies transfer::way_avoids(
        s,
        ra,
        va,
        other,
    ) by {
        assert forall|l: int| 0 <= l <= 3 && #[trigger] soundness::reach(s, ra, va, l) implies soundness::tab(
            s,
            ra,
            va,
            l,
        ) != other by {
            if l < 3 {
                assert(soundness::reach(s, rb, vb, l));
            }
        }
    }
}

/// What mounting something does to what has nothing to do with the root table
/// of the monitor: nothing.
pub proof fn lemma_mount_keeps(s: MachineState, e: u64)
    requires
        s.cr3 % 4096 == 0,
        s.cr3 as int / 8 + 512 <= s.mem.len(),
    ensures
        ({
            let t = allocation::mount_entry(s, e);
            &&& t.cr3 == s.cr3
            &&& t.mem.len() == s.mem.len()
            &&& t.rd(t.cr3, 6) == e
            &&& forall|root: u64, va: u64|
                root % 4096 == 0 && transfer::way_avoids(s, root, va, s.cr3)
                    ==> #[trigger] transfer::way_same(s, t, root, va)
            &&& forall|pa: u64|
                pa % 4096 == 0 && pa != s.cr3 ==> #[trigger] machine::page_words(t.mem, pa)
                    == machine::page_words(s.mem, pa)
            &&& forall|pa: u64, i: int|
                pa % 4096 == 0 && pa != s.cr3 && 0 <= i < 512 ==> #[trigger] t.rd(pa, i) == s.rd(pa, i)
        }),
{
    let t = allocation::mount_entry(s, e);
    let data = machine::page_words(s.mem, s.cr3).update(6, e);
    let u = s.fill(s.cr3, data);
    transfer::lemma_fill(s, s.cr3, data);
    assert(t.mem =~= u.mem) by {
        assert forall|k: int| 0 <= k < s.mem.len() implies t.mem[k] == u.mem[k] by {
            let i = k - s.cr3 as int / 8;
            if 0 <= i < 512 {
                assert(u.mem[k] == data[i]);
            }
        }
    }
    assert forall|root: u64, va: u64|
        root % 4096 == 0 && transfer::way_avoids(s, root, va, s.cr3) implies #[trigger] transfer::way_same(
        s,
        t,
        root,
        va,
    ) by {
        transfer::lemma_way_kept(s, root, va, s.cr3, data);
        lemma_same_memory(u, t, root, va);
    }
    assert forall|pa: u64, i: int| pa % 4096 == 0 && pa != s.cr3 && 0 <= i < 512 implies #[trigger] t.rd(
        pa,
        i,
    ) == s.rd(pa, i) by {
        assert(u.rd(pa, i) == s.rd(pa, i));
    }
}

pub proof fn lemma_same_memory(s: MachineState, t: MachineState, root: u64, va: u64)
    requires
        t.mem == s.mem,
        t.c_bit == s.c_bit,
    ensures
        transfer::way_same(s, t, root, va),
{
    assert forall|l: int| 0 <= l <= 3 implies #[trigger] soundness::reach(t, root, va, l)
        == soundness::reach(s, root, va, l) && soundness::tab(t, root, va, l) == soundness::tab(
        s,
        root,
        va,
        l,
    ) by {
        growth::lemma_same_tables(s, t, root, va, l);
    }
    soundness::lemma_leaf(s, root, va);
    soundness::lemma_leaf(t, root, va);
    growth::lemma_same_tables(s, t, root, va, 0);
    assert forall|other: u64| #[trigger] transfer::way_avoids(s, root, va, other) implies transfer::way_avoids(
        t,
        root,
        va,
        other,
    ) by {
        assert forall|l: int| 0 <= l <= 3 && #[trigger] soundness::reach(t, root, va, l) implies soundness::tab(
            t,
            root,
            va,
            l,
        ) != other by {
            assert(soundness::reach(s, root, va, l));
        }
    }
}

/// What of a process is mounted is what the monitor finds.
pub proof fn lemma_mounted_range(
    s: MachineState,
    range: AllocationRange,
    root: u64,
    at: u64,
    n: int,
    i: int,
)
    requires
        has_range(s, range, root, at, n),
        0 <= i < n,
    ensures
        ({
            let t = allocation::mount_entry(s, range.0);
            let va = address::page_above(ALLOCATION_RANGE_VIRT_START, i);
            &&& walk::leaf_below(t, s.cr3, va, 3) == walk::leaf_below(
                s,
                root,
                address::page_above(at, i),
                3,
            )
            &&& transfer::other_page(t, s.cr3, ALLOCATION_RANGE_VIRT_START, i)
                == transfer::other_page(s, root, at, i)
            &&& forall|other: u64|
                other != s.cr3 && #[trigger] transfer::way_avoids(
                    s,
                    root,
                    address::page_above(at, i),
                    other,
                ) ==> transfer::way_avoids(t, s.cr3, va, other)
        }),
{
    let t = allocation::mount_entry(s, range.0);
    let va = address::page_above(ALLOCATION_RANGE_VIRT_START, i);
    let vb = address::page_above(at, i);
    lemma_mount_keeps(s, range.0);
    lemma_slot_page(ALLOCATION_RANGE_VIRT_START, i);
    lemma_slot_page(at, i);
    assert(transfer::way_avoids(s, root, vb, s.cr3));
    assert(transfer::way_same(s, t, root, vb));
    assert(t.rd(root, entry::table_index(at, 3)) == range.0);
    lemma_same_below(t, s.cr3, va, root, vb);
    assert forall|other: u64| other != s.cr3 && #[trigger] transfer::way_avoids(s, root, vb, other) implies transfer::way_avoids(
        t,
        s.cr3,
        va,
        other,
    ) by {
        assert(transfer::way_avoids(t, root, vb, other));
    }
}

/// What has nothing to do with the monitor is the same after a mount.
pub proof fn lemma_clear_kept(s: MachineState, e: u64, root: u64, at: u64, n: int, i: int)
    requires
        clear_of_monitor(s, root, at, n),
        0 <= i < n,
    ensures
        ({
            let t = allocation::mount_entry(s, e);
            &&& transfer::way_same(s, t, root, address::page_above(at, i))
            &&& transfer::other_page(t, root, at, i) == transfer::other_page(s, root, at, i)
        }),
{
    lemma_mount_keeps(s, e);
    assert(transfer::way_avoids(s, root, address::page_above(at, i), s.cr3));
    assert(transfer::way_same(s, allocation::mount_entry(s, e), root, address::page_above(at, i)));
}

/// Pages that are apart from those of a process are apart from what the monitor
/// has mounted of it.
pub proof fn lemma_input_apart(
    s: MachineState,
    range: AllocationRange,
    root: u64,
    at: u64,
    guest_root: u64,
    source: u64,
    n: int,
)
    requires
        has_range(s, range, root, at, n),
        clear_of_monitor(s, guest_root, source, n),
        transfer::apart(s, guest_root, source, root, at, n),
    ensures
        transfer::apart(
            allocation::mount_entry(s, range.0),
            guest_root,
            source,
            s.cr3,
            ALLOCATION_RANGE_VIRT_START,
            n,
        ),
{
    let t = allocation::mount_entry(s, range.0);
    let start = ALLOCATION_RANGE_VIRT_START;
    let own = s.cr3;
    lemma_mount_keeps(s, range.0);
    assert forall|i: int| 0 <= i < n implies #[trigger] transfer::other_page(t, own, start, i)
        == transfer::other_page(s, root, at, i) by {
        lemma_mounted_range(s, range, root, at, n, i);
    }
    assert forall|i: int| 0 <= i < n implies #[trigger] transfer::other_page(t, guest_root, source, i)
        == transfer::other_page(s, guest_root, source, i) by {
        lemma_clear_kept(s, range.0, guest_root, source, n, i);
    }
    assert forall|i: int| 0 <= i < n implies walk::leaf_below(
        t,
        own,
        #[trigger] address::page_above(start, i),
        3,
    ) is Some by {
        lemma_mounted_range(s, range, root, at, n, i);
        assert(walk::leaf_below(s, root, address::page_above(at, i), 3) is Some);
    }
    assert forall|i: int, j: int| 0 <= i < n && 0 <= j < n implies transfer::way_avoids(
        t,
        own,
        #[trigger] address::page_above(start, j),
        #[trigger] transfer::other_page(t, own, start, i),
    ) by {
        lemma_mounted_range(s, range, root, at, n, j);
        assert(transfer::way_avoids(
            s,
            root,
            address::page_above(at, j),
            transfer::other_page(s, root, at, i),
        ));
    }
    assert forall|i: int, j: int| 0 <= i < n && 0 <= j < n implies transfer::way_avoids(
        t,
        guest_root,
        #[trigger] address::page_above(source, j),
        #[trigger] transfer::other_page(t, own, start, i),
    ) by {
        lemma_clear_kept(s, range.0, guest_root, source, n, j);
        assert(transfer::way_avoids(
            s,
            guest_root,
            address::page_above(source, j),
            transfer::other_page(s, root, at, i),
        ));
    }
    assert forall|i: int, j: int| 0 <= i < n && 0 <= j < n && i != j implies #[trigger] transfer::other_page(
        t,
        own,
        start,
        i,
    ) != #[trigger] transfer::other_page(t, own, start, j) by {
        assert(transfer::other_page(s, root, at, i) != transfer::other_page(s, root, at, j));
    }
    assert forall|i: int, j: int| 0 <= i < n && 0 <= j < n implies #[trigger] transfer::other_page(
        t,
        own,
        start,
        i,
    ) != #[trigger] transfer::other_page(t, guest_root, source, j) by {
        assert(transfer::other_page(s, root, at, i) != transfer::other_page(
            s,
            guest_root,
            source,
            j,
        ));
    }
}

/// The input that the guest gives is the input that the process finds, page by
/// page.
pub proof fn law_process_finds_the_input(
    s: MachineState,
    input: AllocationRange,
    root: u64,
    at: u64,
    guest_root: u64,
    source: u64,
    size: u64,
)
    requires
        has_range(s, input, root, at, guest_copy::pages_over(size) as int),
        clear_of_monitor(s, guest_root, source, guest_copy::pages_over(size) as int),
        transfer::apart(s, guest_root, source, root, at, guest_copy::pages_over(size) as int),
    ensures
        ({
            let t = memory_channels::put_input(s, input, source, guest_root, size);
            forall|i: int|
                0 <= i < guest_copy::pages_over(size) ==> machine::page_words(
                    t.mem,
                    walk::translate(t, root, #[trigger] address::page_above(at, i)),
                ) == machine::page_words(
                    s.mem,
                    walk::translate(s, guest_root, address::page_above(source, i)),
                )
        }),
{
    let n = guest_copy::pages_over(size) as int;
    let start = ALLOCATION_RANGE_VIRT_START;
    let own = s.cr3;
    let a = allocation::mount_entry(s, input.0);
    let b = guest_copy::copied_in(a, guest_root, source, start, n as nat);
    let t = allocation::mount_entry(b, 0);
    lemma_mount_keeps(s, input.0);
    lemma_input_apart(s, input, root, at, guest_root, source, n);
    transfer::lemma_copied_in(a, guest_root, source, start, n, n as nat);
    assert(b.cr3 == own);
    lemma_mount_keeps(b, 0);
    assert forall|i: int| 0 <= i < n implies machine::page_words(
        t.mem,
        walk::translate(t, root, #[trigger] address::page_above(at, i)),
    ) == machine::page_words(
        s.mem,
        walk::translate(s, guest_root, address::page_above(source, i)),
    ) by {
        let va = address::page_above(at, i);
        let page = transfer::other_page(s, root, at, i);
        let data = transfer::other_page(s, guest_root, source, i);
        lemma_clear_kept(s, input.0, root, at, n, i);
        lemma_clear_kept(s, input.0, guest_root, source, n, i);
        lemma_mounted_range(s, input, root, at, n, i);
        transfer::lemma_page_aligned(s, root, at, i);
        transfer::lemma_page_aligned(s, guest_root, source, i);
        assert(transfer::avoids_all(a, root, va, own, start, n)) by {
            assert forall|j: int| 0 <= j < n implies transfer::way_avoids(
                a,
                root,
                va,
                #[trigger] transfer::other_page(a, own, start, j),
            ) by {
                lemma_mounted_range(s, input, root, at, n, j);
                assert(transfer::way_avoids(s, root, va, transfer::other_page(s, root, at, j)));
            }
        }
        assert(transfer::way_same(a, b, root, va));
        assert(transfer::way_avoids(s, root, va, own));
        assert(transfer::way_avoids(a, root, va, own));
        assert(transfer::way_avoids(b, root, va, own));
        assert(transfer::way_same(b, t, root, va));
        assert(walk::translate(t, root, va) == page);
        assert(machine::page_words(t.mem, page) == machine::page_words(b.mem, page));
        assert(transfer::other_page(a, own, start, i) == page);
        assert(transfer::other_page(a, guest_root, source, i) == data);
        assert(machine::page_words(b.mem, transfer::other_page(a, own, start, i))
            == machine::page_words(a.mem, transfer::other_page(a, guest_root, source, i)));
        assert(machine::page_words(a.mem, data) == machine::page_words(s.mem, data));
    }
}

proof fn lemma_output_apart(
    s: MachineState,
    range: AllocationRange,
    root: u64,
    at: u64,
    guest_root: u64,
    target: u64,
    n: int,
)
    requires
        has_range(s, range, root, at, n),
        clear_of_monitor(s, guest_root, target, n),
        transfer::apart(s, root, at, guest_root, target, n),
    ensures
        transfer::apart(
            allocation::mount_entry(s, range.0),
            s.cr3,
            ALLOCATION_RANGE_VIRT_START,
            guest_root,
            target,
            n,
        ),
{
    let t = allocation::mount_entry(s, range.0);
    let start = ALLOCATION_RANGE_VIRT_START;
    let own = s.cr3;
    lemma_mount_keeps(s, range.0);
    assert forall|i: int| 0 <= i < n implies #[trigger] transfer::other_page(t, own, start, i)
        == transfer::other_page(s, root, at, i) by {
        lemma_mounted_range(s, range, root, at, n, i);
    }
    assert forall|i: int| 0 <= i < n implies #[trigger] transfer::other_page(t, guest_root, target, i)
        == transfer::other_page(s, guest_root, target, i) by {
        lemma_clear_kept(s, range.0, guest_root, target, n, i);
    }
    assert forall|i: int| 0 <= i < n implies walk::leaf_below(
        t,
        guest_root,
        #[trigger] address::page_above(target, i),
        3,
    ) is Some by {
        lemma_clear_kept(s, range.0, guest_root, target, n, i);
    }
    assert forall|i: int, j: int| 0 <= i < n && 0 <= j < n implies transfer::way_avoids(
        t,
        guest_root,
        #[trigger] address::page_above(target, j),
        #[trigger] transfer::other_page(t, guest_root, target, i),
    ) by {
        lemma_clear_kept(s, range.0, guest_root, target, n, j);
        assert(transfer::way_avoids(
            s,
            guest_root,
            address::page_above(target, j),
            transfer::other_page(s, guest_root, target, i),
        ));
    }
    assert forall|i: int, j: int| 0 <= i < n && 0 <= j < n implies transfer::way_avoids(
        t,
        own,
        #[trigger] address::page_above(start, j),
        #[trigger] transfer::other_page(t, guest_root, target, i),
    ) by {
        lemma_mounted_range(s, range, root, at, n, j);
        assert(transfer::other_page(s, guest_root, target, i) != s.cr3);
        assert(transfer::way_avoids(
            s,
            root,
            address::page_above(at, j),
            transfer::other_page(s, guest_root, target, i),
        ));
    }
    assert forall|i: int, j: int| 0 <= i < n && 0 <= j < n && i != j implies #[trigger] transfer::other_page(
        t,
        guest_root,
        target,
        i,
    ) != #[trigger] transfer::other_page(t, guest_root, target, j) by {
        assert(transfer::other_page(s, guest_root, target, i) != transfer::other_page(
            s,
            guest_root,
            target,
            j,
        ));
    }
    assert forall|i: int, j: int| 0 <= i < n && 0 <= j < n implies #[trigger] transfer::other_page(
        t,
        guest_root,
        target,
        i,
    ) != #[trigger] transfer::other_page(t, own, start, j) by {
        assert(transfer::other_page(s, guest_root, target, i) != transfer::other_page(
            s,
            root,
            at,
            j,
        ));
    }
}

/// The output that a process leaves is the result that the guest finds, page by
/// page, where all pages for it are mapped in the guest.
pub proof fn law_guest_finds_the_output(
    s: MachineState,
    output: AllocationRange,
    root: u64,
    at: u64,
    guest_root: u64,
    target: u64,
    size: u64,
)
    requires
        has_range(s, output, root, at, guest_copy::pages_over(size) as int),
        clear_of_monitor(s, guest_root, target, guest_copy::pages_over(size) as int),
        transfer::apart(s, root, at, guest_root, target, guest_copy::pages_over(size) as int),
        forall|i: int|
            0 <= i < guest_copy::pages_over(size) ==> #[trigger] transfer::other_page(
                s,
                guest_root,
                target,
                i,
            ) != 0,
    ensures
        ({
            let t = memory_channels::got_output(s, output, target, guest_root, size);
            forall|i: int|
                0 <= i < guest_copy::pages_over(size) ==> machine::page_words(
                    t.mem,
                    walk::translate(t, guest_root, #[trigger] address::page_above(target, i)),
                ) == machine::page_words(
                    s.mem,
                    walk::translate(s, root, address::page_above(at, i)),
                )
        }),
{
    let n = guest_copy::pages_over(size) as int;
    let start = ALLOCATION_RANGE_VIRT_START;
    let own = s.cr3;
    let a = allocation::mount_entry(s, output.0);
    let b = guest_copy::copied_out(a, guest_root, target, start, 0, n as nat);
    let t = allocation::mount_entry(b, 0);
    lemma_mount_keeps(s, output.0);
    lemma_output_apart(s, output, root, at, guest_root, target, n);
    assert forall|i: int| 0 <= i < n implies #[trigger] transfer::other_page(a, guest_root, target, i)
        != 0 by {
        lemma_clear_kept(s, output.0, guest_root, target, n, i);
        assert(transfer::other_page(s, guest_root, target, i) != 0);
    }
    assert forall|i: int| 0 <= i < n implies walk::leaf_below(
        a,
        own,
        #[trigger] address::page_above(start, i),
        3,
    ) is Some by {
        lemma_mounted_range(s, output, root, at, n, i);
        assert(walk::leaf_below(s, root, address::page_above(at, i), 3) is Some);
    }
    transfer::lemma_copied_out(a, a, guest_root, target, start, 0, n as nat);
    assert(b.cr3 == own);
    lemma_mount_keeps(b, 0);
    assert forall|i: int| 0 <= i < n implies machine::page_words(
        t.mem,
        walk::translate(t, guest_root, #[trigger] address::page_above(target, i)),
    ) == machine::page_words(s.mem, walk::translate(s, root, address::page_above(at, i))) by {
        let va = address::page_above(target, i);
        let page = transfer::other_page(s, guest_root, target, i);
        let data = transfer::other_page(s, root, at, i);
        lemma_clear_kept(s, output.0, guest_root, target, n, i);
        lemma_mounted_range(s, output, root, at, n, i);
        transfer::lemma_page_aligned(s, root, at, i);
        transfer::lemma_page_aligned(s, guest_root, target, i);
        assert(transfer::avoids_all(a, guest_root, va, guest_root, target, n)) by {
            assert forall|j: int| 0 <= j < n implies transfer::way_avoids(
                a,
                guest_root,
                va,
                #[trigger] transfer::other_page(a, guest_root, target, j),
            ) by {
                lemma_clear_kept(s, output.0, guest_root, target, n, j);
                assert(transfer::way_avoids(
                    s,
                    guest_root,
                    va,
                    transfer::other_page(s, guest_root, target, j),
                ));
            }
        }
        assert(transfer::way_same(a, b, guest_root, va));
        assert(transfer::way_avoids(s, guest_root, va, own));
        assert(transfer::way_avoids(a, guest_root, va, own));
        assert(transfer::way_avoids(b, guest_root, va, own));
        assert(transfer::way_same(b, t, guest_root, va));
        assert(walk::translate(t, guest_root, va) == page);
        assert(machine::page_words(t.mem, page) == machine::page_words(b.mem, page));
        assert(transfer::other_page(a, guest_root, target, i) == page);
        assert(transfer::other_page(a, own, start, i) == data);
        assert(machine::page_words(b.mem, transfer::other_page(a, guest_root, target, i))
            == machine::page_words(a.mem, transfer::other_page(a, own, start, i)));
        assert(machine::page_words(a.mem, data) == machine::page_words(s.mem, data));
    }
}

/// What putting an input does to the whole range that it is put into, of which
/// it may take only the first pages: the process has the range where it had it,
/// and what it finds in the first pages is what the guest has.
pub proof fn lemma_input_put(
    s: MachineState,
    input: AllocationRange,
    root: u64,
    at: u64,
    guest_root: u64,
    source: u64,
    size: u64,
    whole: int,
)
    requires
        guest_copy::pages_over(size) <= whole,
        has_range(s, input, root, at, whole),
        clear_of_monitor(s, guest_root, source, guest_copy::pages_over(size) as int),
        transfer::apart(s, guest_root, source, root, at, guest_copy::pages_over(size) as int),
        forall|i: int, j: int|
            0 <= i < whole && 0 <= j < guest_copy::pages_over(size) ==> transfer::way_avoids(
                s,
                root,
                #[trigger] address::page_above(at, i),
                #[trigger] transfer::other_page(s, root, at, j),
            ),
        forall|j: int|
            0 <= j < guest_copy::pages_over(size) ==> #[trigger] transfer::other_page(
                s,
                root,
                at,
                j,
            ) != root,
    ensures
        ({
            let t = memory_channels::put_input(s, input, source, guest_root, size);
            &&& t.cr3 == s.cr3
            &&& t.c_bit == s.c_bit
            &&& t.mem.len() == s.mem.len()
            &&& has_range(t, input, root, at, whole)
            &&& forall|i: int|
                0 <= i < whole ==> #[trigger] transfer::other_page(t, root, at, i)
                    == transfer::other_page(s, root, at, i)
            &&& forall|i: int|
                0 <= i < guest_copy::pages_over(size) ==> machine::page_words(
                    t.mem,
                    #[trigger] transfer::other_page(t, root, at, i),
                ) == machine::page_words(
                    s.mem,
                    transfer::other_page(s, guest_root, source, i),
                )
        }),
{
    let n = guest_copy::pages_over(size) as int;
    let start = ALLOCATION_RANGE_VIRT_START;
    let own = s.cr3;
    let a = allocation::mount_entry(s, input.0);
    let b = guest_copy::copied_in(a, guest_root, source, start, n as nat);
    let t = allocation::mount_entry(b, 0);
    assert(has_range(s, input, root, at, n));
    lemma_mount_keeps(s, input.0);
    lemma_input_apart(s, input, root, at, guest_root, source, n);
    transfer::lemma_copied_in(a, guest_root, source, start, n, n as nat);
    lemma_mount_keeps(b, 0);
    law_process_finds_the_input(s, input, root, at, guest_root, source, size);
    assert forall|j: int| 0 <= j < n implies #[trigger] transfer::other_page(a, own, start, j)
        == transfer::other_page(s, root, at, j) by {
        lemma_mounted_range(s, input, root, at, n, j);
    }
    assert forall|i: int| 0 <= i < whole implies transfer::way_same(
        s,
        t,
        root,
        #[trigger] address::page_above(at, i),
    ) by {
        let va = address::page_above(at, i);
        lemma_clear_kept(s, input.0, root, at, whole, i);
        assert(transfer::avoids_all(a, root, va, own, start, n)) by {
            assert forall|j: int| 0 <= j < n implies transfer::way_avoids(
                a,
                root,
                va,
                #[trigger] transfer::other_page(a, own, start, j),
            ) by {
                assert(transfer::way_avoids(s, root, va, transfer::other_page(s, root, at, j)));
            }
        }
        assert(transfer::way_same(a, b, root, va));
        assert(transfer::way_avoids(s, root, va, own));
        assert(transfer::way_avoids(a, root, va, own));
        assert(transfer::way_avoids(b, root, va, own));
        assert(transfer::way_same(b, t, root, va));
        lemma_way_joined(s, a, b, t, root, va);
    }
    assert forall|i: int| 0 <= i < whole implies #[trigger] transfer::other_page(t, root, at, i)
        == transfer::other_page(s, root, at, i) by {
        assert(transfer::way_same(s, t, root, address::page_above(at, i)));
    }
    let slot = entry::table_index(at, 3);
    assert(t.rd(root, slot) == input.0) by {
        assert(machine::page_words(b.mem, root) == machine::page_words(a.mem, root));
        assert(a.rd(root, slot) == s.rd(root, slot));
        assert(machine::page_words(b.mem, root)[slot] == b.rd(root, slot));
        assert(machine::page_words(a.mem, root)[slot] == a.rd(root, slot));
        assert(t.rd(root, slot) == b.rd(root, slot));
    }
    assert(has_range(t, input, root, at, whole)) by {
        assert forall|i: int| 0 <= i < whole implies transfer::way_avoids(
            t,
            root,
            #[trigger] address::page_above(at, i),
            t.cr3,
        ) && walk::leaf_below(t, root, address::page_above(at, i), 3) is Some by {
            assert(transfer::way_same(s, t, root, address::page_above(at, i)));
            assert(transfer::way_avoids(s, root, address::page_above(at, i), own));
        }
    }
    assert forall|i: int| 0 <= i < n implies machine::page_words(
        t.mem,
        #[trigger] transfer::other_page(t, root, at, i),
    ) == machine::page_words(s.mem, transfer::other_page(s, guest_root, source, i)) by {
        let va = address::page_above(at, i);
        assert(machine::page_words(t.mem, walk::translate(t, root, va)) == machine::page_words(
            s.mem,
            walk::translate(s, guest_root, address::page_above(source, i)),
        ));
    }
}

pub proof fn lemma_way_joined(
    s: MachineState,
    a: MachineState,
    b: MachineState,
    t: MachineState,
    root: u64,
    va: u64,
)
    requires
        transfer::way_same(s, a, root, va),
        transfer::way_same(a, b, root, va),
        transfer::way_same(b, t, root, va),
    ensures
        transfer::way_same(s, t, root, va),
{
    assert forall|other: u64| #[trigger] transfer::way_avoids(s, root, va, other) implies transfer::way_avoids(
        t,
        root,
        va,
        other,
    ) by {
        assert(transfer::way_avoids(a, root, va, other));
        assert(transfer::way_avoids(b, root, va, other));
    }
}

/// The bytes that a process finds in the first pages of a range.
pub open spec fn range_bytes(s: MachineState, root: u64, at: u64, pages: nat) -> Seq<u8> {
    Seq::new(
        pages * 4096,
        |k: int| loading::found_byte(s, root, address::addr_add(at, k)),
    )
}

/// The digest of a range is that of what the process finds in it, and to measure
/// it changes nothing for the process.
pub proof fn law_digest_is_that_of_the_range(
    s: MachineState,
    range: AllocationRange,
    root: u64,
    at: u64,
)
    requires
        has_range(s, range, root, at, range.1 as int),
        forall|i: int|
            0 <= i < range.1 ==> #[trigger] transfer::other_page(s, root, at, i) != 0,
    ensures
        ({
            let (t, digest) = memory_channels::range_measured(s, range);
            &&& digest == crypto::sha512(range_bytes(s, root, at, range.1 as nat))
            &&& t.cr3 == s.cr3
            &&& t.mem.len() == s.mem.len()
            &&& has_range(t, range, root, at, range.1 as int)
            &&& forall|i: int|
                0 <= i < range.1 ==> #[trigger] transfer::other_page(t, root, at, i)
                    == transfer::other_page(s, root, at, i)
            &&& forall|pa: u64|
                pa % 4096 == 0 && pa != s.cr3 ==> #[trigger] machine::page_words(t.mem, pa)
                    == machine::page_words(s.mem, pa)
        }),
{
    let n = range.1 as int;
    let start = ALLOCATION_RANGE_VIRT_START;
    let a = allocation::mount_entry(s, range.0);
    let t = allocation::mount_entry(a, 0);
    lemma_mount_keeps(s, range.0);
    lemma_mount_keeps(a, 0);
    let bytes = walk::mounted_bytes(a, start, (range.1 * 4096) as nat);
    let found = range_bytes(s, root, at, range.1 as nat);
    assert(bytes =~= found) by {
        assert forall|k: int| 0 <= k < range.1 * 4096 implies bytes[k] == found[k] by {
            lemma_mounted_byte(s, range, root, at, k);
        }
    }
    assert forall|i: int| 0 <= i < n implies transfer::way_same(
        s,
        t,
        root,
        #[trigger] address::page_above(at, i),
    ) by {
        let va = address::page_above(at, i);
        assert(transfer::way_avoids(s, root, va, s.cr3));
        assert(transfer::way_same(s, a, root, va));
        assert(transfer::way_avoids(a, root, va, s.cr3));
        assert(transfer::way_same(a, t, root, va));
        lemma_way_joined(s, s, a, t, root, va);
    }
    assert(has_range(t, range, root, at, n)) by {
        assert forall|i: int| 0 <= i < n implies transfer::way_avoids(
            t,
            root,
            #[trigger] address::page_above(at, i),
            t.cr3,
        ) && walk::leaf_below(t, root, address::page_above(at, i), 3) is Some by {
            assert(transfer::way_same(s, t, root, address::page_above(at, i)));
            assert(transfer::way_avoids(s, root, address::page_above(at, i), s.cr3));
        }
        assert forall|i: int| 0 <= i < n implies #[trigger] transfer::other_page(t, root, at, i)
            != t.cr3 by {
            assert(transfer::way_same(s, t, root, address::page_above(at, i)));
            assert(transfer::other_page(s, root, at, i) != s.cr3);
        }
        let slot = entry::table_index(at, 3);
        assert(a.rd(root, slot) == s.rd(root, slot));
        assert(t.rd(root, slot) == a.rd(root, slot));
    }
    assert forall|i: int| 0 <= i < n implies #[trigger] transfer::other_page(t, root, at, i)
        == transfer::other_page(s, root, at, i) by {
        assert(transfer::way_same(s, t, root, address::page_above(at, i)));
    }
    assert forall|pa: u64| pa % 4096 == 0 && pa != s.cr3 implies #[trigger] machine::page_words(
        t.mem,
        pa,
    ) == machine::page_words(s.mem, pa) by {
        assert(machine::page_words(a.mem, pa) == machine::page_words(s.mem, pa));
    }
}

/// What the monitor reads of a mounted range is what the process finds in it.
proof fn lemma_mounted_byte(s: MachineState, range: AllocationRange, root: u64, at: u64, k: int)
    requires
        has_range(s, range, root, at, range.1 as int),
        forall|i: int|
            0 <= i < range.1 ==> #[trigger] transfer::other_page(s, root, at, i) != 0,
        0 <= k < range.1 * 4096,
    ensures
        walk::mounted_byte(
            allocation::mount_entry(s, range.0),
            address::addr_add(ALLOCATION_RANGE_VIRT_START, k),
        ) == loading::found_byte(s, root, address::addr_add(at, k)),
{
    let start = ALLOCATION_RANGE_VIRT_START;
    let a = allocation::mount_entry(s, range.0);
    let i = k / 4096;
    let frame = transfer::other_page(s, root, at, i);
    let va = address::page_above(start, i);
    let vb = address::page_above(at, i);
    let ka = address::addr_add(start, k);
    let kb = address::addr_add(at, k);
    lemma_mount_keeps(s, range.0);
    lemma_mounted_range(s, range, root, at, range.1 as int, i);
    assert(start % 4096 == 0) by {
        assert(ALLOCATION_RANGE_VIRT_START % 4096 == 0);
    }
    assert(at % 4096 == 0);
    loading::lemma_byte_address(start, k);
    loading::lemma_byte_address(at, k);
    growth::lemma_leaf_of_page(a, s.cr3, va, ka);
    growth::lemma_leaf_of_page(s, root, vb, kb);
    assert(walk::leaf_below(s, root, vb, 3) is Some);
    transfer::lemma_page_aligned(s, root, at, i);
    assert(frame != 0 && frame != s.cr3);
    let j = k % 4096;
    assert(machine::page_words(a.mem, frame) == machine::page_words(s.mem, frame));
    lemma_same_byte(a, s, frame, j);
}

/// Pages with the same words have the same bytes.
pub proof fn lemma_same_byte(a: MachineState, b: MachineState, page: u64, j: int)
    requires
        page % 4096 == 0,
        0 <= j < 4096,
        a.mem.len() == b.mem.len(),
        machine::page_words(a.mem, page) == machine::page_words(b.mem, page),
    ensures
        machine::byte_at(a.mem, page + j) == machine::byte_at(b.mem, page + j),
{
    let i = j / 8;
    assert(0 <= i < 512);
    assert((page + j) / 8 == page as int / 8 + i);
    assert(machine::page_words(a.mem, page)[i] == machine::word_at(a.mem, page, i));
    assert(machine::page_words(b.mem, page)[i] == machine::word_at(b.mem, page, i));
    assert(machine::word_at(a.mem, page, i) == machine::word_at(b.mem, page, i));
    assert(0 <= page + j && (page + j) % 8 == j % 8);
}

/// What giving the output to the guest does: the guest finds it, and the process
/// finds all of its output where it was.
pub proof fn lemma_output_got(
    s: MachineState,
    output: AllocationRange,
    root: u64,
    at: u64,
    guest_root: u64,
    target: u64,
    size: u64,
    whole: int,
)
    requires
        guest_copy::pages_over(size) <= whole,
        has_range(s, output, root, at, whole),
        clear_of_monitor(s, guest_root, target, guest_copy::pages_over(size) as int),
        transfer::apart(s, root, at, guest_root, target, guest_copy::pages_over(size) as int),
        forall|j: int|
            0 <= j < guest_copy::pages_over(size) ==> #[trigger] transfer::other_page(
                s,
                guest_root,
                target,
                j,
            ) != 0,
        forall|j: int|
            0 <= j < guest_copy::pages_over(size) ==> #[trigger] transfer::other_page(
                s,
                guest_root,
                target,
                j,
            ) != root,
        forall|i: int, j: int|
            0 <= i < whole && 0 <= j < guest_copy::pages_over(size) ==> transfer::way_avoids(
                s,
                root,
                #[trigger] address::page_above(at, i),
                #[trigger] transfer::other_page(s, guest_root, target, j),
            ),
        forall|i: int, j: int|
            0 <= i < whole && 0 <= j < guest_copy::pages_over(size) ==> #[trigger] transfer::other_page(
                s,
                root,
                at,
                i,
            ) != #[trigger] transfer::other_page(s, guest_root, target, j),
    ensures
        ({
            let t = memory_channels::got_output(s, output, target, guest_root, size);
            &&& t.cr3 == s.cr3
            &&& t.mem.len() == s.mem.len()
            &&& has_range(t, output, root, at, whole)
            &&& forall|i: int|
                0 <= i < whole ==> #[trigger] transfer::other_page(t, root, at, i)
                    == transfer::other_page(s, root, at, i)
            &&& forall|i: int|
                0 <= i < whole ==> machine::page_words(
                    t.mem,
                    #[trigger] transfer::other_page(t, root, at, i),
                ) == machine::page_words(s.mem, transfer::other_page(s, root, at, i))
            &&& clear_of_monitor(t, guest_root, target, guest_copy::pages_over(size) as int)
        }),
{
    let n = guest_copy::pages_over(size) as int;
    let start = ALLOCATION_RANGE_VIRT_START;
    let own = s.cr3;
    let a = allocation::mount_entry(s, output.0);
    let b = guest_copy::copied_out(a, guest_root, target, start, 0, n as nat);
    let t = allocation::mount_entry(b, 0);
    assert(has_range(s, output, root, at, n));
    lemma_mount_keeps(s, output.0);
    lemma_output_apart(s, output, root, at, guest_root, target, n);
    assert forall|j: int| 0 <= j < n implies #[trigger] transfer::other_page(a, guest_root, target, j)
        == transfer::other_page(s, guest_root, target, j) by {
        lemma_clear_kept(s, output.0, guest_root, target, n, j);
    }
    assert forall|i: int| 0 <= i < n implies walk::leaf_below(
        a,
        own,
        #[trigger] address::page_above(start, i),
        3,
    ) is Some by {
        lemma_mounted_range(s, output, root, at, n, i);
        assert(walk::leaf_below(s, root, address::page_above(at, i), 3) is Some);
    }
    transfer::lemma_copied_out(a, a, guest_root, target, start, 0, n as nat);
    lemma_mount_keeps(b, 0);
    assert forall|i: int| 0 <= i < whole implies transfer::way_same(
        s,
        t,
        root,
        #[trigger] address::page_above(at, i),
    ) by {
        let va = address::page_above(at, i);
        lemma_clear_kept(s, output.0, root, at, whole, i);
        lemma_avoiding_kept(s, a, root, va, guest_root, target, n);
        assert(transfer::way_same(a, b, root, va));
        assert(transfer::way_avoids(s, root, va, own));
        assert(transfer::way_avoids(a, root, va, own));
        assert(transfer::way_avoids(b, root, va, own));
        assert(transfer::way_same(b, t, root, va));
        lemma_way_joined(s, a, b, t, root, va);
    }
    assert forall|i: int| 0 <= i < n implies transfer::way_same(
        s,
        t,
        guest_root,
        #[trigger] address::page_above(target, i),
    ) by {
        let va = address::page_above(target, i);
        lemma_clear_kept(s, output.0, guest_root, target, n, i);
        lemma_avoiding_kept(s, a, guest_root, va, guest_root, target, n);
        assert(transfer::way_same(a, b, guest_root, va));
        assert(transfer::way_avoids(s, guest_root, va, own));
        assert(transfer::way_avoids(a, guest_root, va, own));
        assert(transfer::way_avoids(b, guest_root, va, own));
        assert(transfer::way_same(b, t, guest_root, va));
        lemma_way_joined(s, a, b, t, guest_root, va);
    }
    lemma_output_stays(s, a, b, t, output, root, at, guest_root, target, n, whole);
}

proof fn lemma_avoiding_kept(
    s: MachineState,
    a: MachineState,
    root: u64,
    va: u64,
    guest_root: u64,
    target: u64,
    n: int,
)
    requires
        transfer::way_same(s, a, root, va),
        forall|j: int|
            0 <= j < n ==> #[trigger] transfer::other_page(a, guest_root, target, j)
                == transfer::other_page(s, guest_root, target, j),
        forall|j: int|
            0 <= j < n ==> transfer::way_avoids(
                s,
                root,
                va,
                #[trigger] transfer::other_page(s, guest_root, target, j),
            ),
    ensures
        transfer::avoids_all(a, root, va, guest_root, target, n),
{
    assert forall|j: int| 0 <= j < n implies transfer::way_avoids(
        a,
        root,
        va,
        #[trigger] transfer::other_page(a, guest_root, target, j),
    ) by {
        assert(transfer::way_avoids(s, root, va, transfer::other_page(s, guest_root, target, j)));
    }
}

proof fn lemma_output_stays(
    s: MachineState,
    a: MachineState,
    b: MachineState,
    t: MachineState,
    output: AllocationRange,
    root: u64,
    at: u64,
    guest_root: u64,
    target: u64,
    n: int,
    whole: int,
)
    requires
        has_range(s, output, root, at, whole),
        clear_of_monitor(s, guest_root, target, n),
        t.cr3 == s.cr3,
        b.cr3 == s.cr3,
        a.cr3 == s.cr3,
        t.mem.len() == s.mem.len(),
        forall|pa: u64|
            pa % 4096 == 0 && pa != s.cr3 ==> #[trigger] machine::page_words(a.mem, pa)
                == machine::page_words(s.mem, pa),
        forall|pa: u64|
            pa % 4096 == 0 && pa != s.cr3 ==> #[trigger] machine::page_words(t.mem, pa)
                == machine::page_words(b.mem, pa),
        transfer::pages_kept(a, b, guest_root, target, n),
        forall|j: int|
            0 <= j < n ==> #[trigger] transfer::other_page(a, guest_root, target, j)
                == transfer::other_page(s, guest_root, target, j),
        forall|j: int|
            0 <= j < n ==> #[trigger] transfer::other_page(s, guest_root, target, j) != root,
        forall|i: int, j: int|
            0 <= i < whole && 0 <= j < n ==> #[trigger] transfer::other_page(s, root, at, i)
                != #[trigger] transfer::other_page(s, guest_root, target, j),
        forall|i: int|
            0 <= i < whole ==> transfer::way_same(s, t, root, #[trigger] address::page_above(at, i)),
        forall|i: int|
            0 <= i < n ==> transfer::way_same(
                s,
                t,
                guest_root,
                #[trigger] address::page_above(target, i),
            ),
        t.c_bit == s.c_bit,
    ensures
        has_range(t, output, root, at, whole),
        forall|i: int|
            0 <= i < whole ==> #[trigger] transfer::other_page(t, root, at, i)
                == transfer::other_page(s, root, at, i),
        forall|i: int|
            0 <= i < whole ==> machine::page_words(
                t.mem,
                #[trigger] transfer::other_page(t, root, at, i),
            ) == machine::page_words(s.mem, transfer::other_page(s, root, at, i)),
        clear_of_monitor(t, guest_root, target, n),
{
    assert forall|i: int| 0 <= i < whole implies #[trigger] transfer::other_page(t, root, at, i)
        == transfer::other_page(s, root, at, i) && machine::page_words(
        t.mem,
        transfer::other_page(t, root, at, i),
    ) == machine::page_words(s.mem, transfer::other_page(s, root, at, i)) by {
        let page = transfer::other_page(s, root, at, i);
        assert(transfer::way_same(s, t, root, address::page_above(at, i)));
        assert(transfer::other_page(t, root, at, i) == page);
        transfer::lemma_page_aligned(s, root, at, i);
        assert(page != s.cr3);
        assert(machine::page_words(b.mem, page) == machine::page_words(a.mem, page));
    }
    let slot = entry::table_index(at, 3);
    assert(t.rd(root, slot) == s.rd(root, slot)) by {
        assert(machine::page_words(b.mem, root) == machine::page_words(a.mem, root));
        assert(machine::page_words(t.mem, root)[slot] == t.rd(root, slot));
        assert(machine::page_words(s.mem, root)[slot] == s.rd(root, slot));
    }
    assert forall|i: int| 0 <= i < whole implies transfer::way_avoids(
        t,
        root,
        #[trigger] address::page_above(at, i),
        t.cr3,
    ) && walk::leaf_below(t, root, address::page_above(at, i), 3) is Some by {
        assert(transfer::way_same(s, t, root, address::page_above(at, i)));
        assert(transfer::way_avoids(s, root, address::page_above(at, i), s.cr3));
    }
    assert forall|i: int| 0 <= i < n implies transfer::way_avoids(
        t,
        guest_root,
        #[trigger] address::page_above(target, i),
        t.cr3,
    ) by {
        assert(transfer::way_same(s, t, guest_root, address::page_above(target, i)));
        assert(transfer::way_avoids(s, guest_root, address::page_above(target, i), s.cr3));
    }
    assert forall|i: int| 0 <= i < n implies #[trigger] transfer::other_page(
        t,
        guest_root,
        target,
        i,
    ) != t.cr3 by {
        assert(transfer::way_same(s, t, guest_root, address::page_above(target, i)));
        assert(transfer::other_page(s, guest_root, target, i) != s.cr3);
    }
}

/// Pages that are the same have the same bytes.
pub proof fn lemma_same_range(a: MachineState, b: MachineState, root: u64, at: u64, n: nat)
    requires
        at % 4096 == 0,
        a.mem.len() == b.mem.len(),
        forall|i: int|
            0 <= i < n ==> #[trigger] transfer::other_page(b, root, at, i) == transfer::other_page(
                a,
                root,
                at,
                i,
            ),
        forall|i: int|
            0 <= i < n ==> machine::page_words(
                b.mem,
                #[trigger] transfer::other_page(b, root, at, i),
            ) == machine::page_words(a.mem, transfer::other_page(a, root, at, i)),
    ensures
        range_bytes(b, root, at, n) == range_bytes(a, root, at, n),
{
    assert(range_bytes(b, root, at, n) =~= range_bytes(a, root, at, n)) by {
        assert forall|k: int| 0 <= k < n * 4096 implies range_bytes(b, root, at, n)[k]
            == range_bytes(a, root, at, n)[k] by {
            lemma_same_found(a, b, root, at, n as int, k);
        }
    }
}

/// A byte that is found in pages that are the same is the same.
proof fn lemma_same_found(a: MachineState, b: MachineState, root: u64, at: u64, n: int, k: int)
    requires
        at % 4096 == 0,
        0 <= k < n * 4096,
        a.mem.len() == b.mem.len(),
        forall|i: int|
            0 <= i < n ==> #[trigger] transfer::other_page(b, root, at, i) == transfer::other_page(
                a,
                root,
                at,
                i,
            ),
        forall|i: int|
            0 <= i < n ==> machine::page_words(
                b.mem,
                #[trigger] transfer::other_page(b, root, at, i),
            ) == machine::page_words(a.mem, transfer::other_page(a, root, at, i)),
    ensures
        loading::found_byte(b, root, address::addr_add(at, k)) == loading::found_byte(
            a,
            root,
            address::addr_add(at, k),
        ),
{
    let i = k / 4096;
    let va = address::page_above(at, i);
    let vb = address::addr_add(at, k);
    loading::lemma_byte_address(at, k);
    growth::lemma_leaf_of_page(a, root, va, vb);
    growth::lemma_leaf_of_page(b, root, va, vb);
    transfer::lemma_page_aligned(a, root, at, i);
    let frame = transfer::other_page(a, root, at, i);
    assert(transfer::other_page(b, root, at, i) == frame);
    lemma_same_byte(a, b, frame, k % 4096);
}

} // verus!
