//! What of the guest reaches a process that is run.
use vstd::prelude::*;
use crate::address;
use crate::cpu::vmsa::Vmsa;
use crate::crypto;
use crate::memory::machine;
use crate::memory::machine::MachineState;
use crate::process_manager::allocation;
use crate::process_manager::allocation::{AllocationRange, ALLOCATION_RANGE_VIRT_START};
use crate::process_manager::memory_channels;
use crate::process_manager::memory_channels::{MemoryChannel, INPUT_VADDR, OUTPUT_VADDR};
use crate::process_manager::process::TrustedProcess;
use crate::process_manager::process_paging::delivery;
use crate::process_manager::process_paging::entry;
use crate::process_manager::process_paging::guest_copy;
use crate::process_manager::process_paging::program;
use crate::process_manager::process_paging::ranges;
use crate::process_manager::process_paging::soundness;
use crate::process_manager::process_paging::transfer;
use crate::process_manager::process_paging::walk;
use crate::process_manager::process_paging::widening;
use crate::process_runtime::invoke;
use crate::process_runtime::invoke::{Invocation, TrustletInvocationType};
use crate::RequestParams;

verus! {

/// Whether page `i` of a range is one that the process has to itself: it is in
/// use, no table, and not the root table of the monitor.
pub open spec fn own_page(s: MachineState, root: u64, at: u64, i: int) -> bool {
    let f = transfer::other_page(s, root, at, i);
    &&& walk::leaf_below(s, root, address::page_above(at, i), 3) is Some
    &&& soundness::is_page(s, f)
    &&& !soundness::in_pool(s.pool, f)
    &&& !soundness::is_table(s, root, f)
    &&& f != s.cr3
}

/// Whether a process has a range at `at`: its root table leads to it, and its
/// pages are the process's own, each of them another one.
pub open spec fn owns_range(s: MachineState, range: AllocationRange, root: u64, at: u64) -> bool {
    &&& s.rd(root, entry::table_index(at, 3)) == range.0
    &&& entry::present(range.0)
    &&& forall|i: int| 0 <= i < range.1 ==> #[trigger] own_page(s, root, at, i)
    &&& forall|i: int, j: int|
        0 <= i < range.1 && 0 <= j < range.1 && i != j ==> #[trigger] transfer::other_page(
            s,
            root,
            at,
            i,
        ) != #[trigger] transfer::other_page(s, root, at, j)
}

/// Whether the monitor's root table has nothing to do with a process.
pub open spec fn monitor_apart(s: MachineState, root: u64) -> bool {
    &&& root != s.cr3
    &&& s.cr3 % 4096 == 0
    &&& s.cr3 as int / 8 + 512 <= s.mem.len()
    &&& !soundness::in_pool(s.pool, s.cr3)
    &&& !soundness::is_table(s, root, s.cr3)
}

/// Whether the first `n` pages of the guest from `source` on have nothing to do
/// with the process, with the range that it has at `at`, or with the monitor's
/// root table.
pub open spec fn guest_apart(
    s: MachineState,
    range: AllocationRange,
    root: u64,
    at: u64,
    guest: u64,
    source: u64,
    n: int,
) -> bool {
    &&& guest % 4096 == 0
    &&& forall|i: int|
        0 <= i < n ==> widening::foreign_to(
            s,
            root,
            guest,
            #[trigger] address::page_above(source, i),
        )
    &&& forall|i: int|
        0 <= i < n ==> transfer::way_avoids(
            s,
            guest,
            #[trigger] address::page_above(source, i),
            s.cr3,
        )
    &&& forall|i: int| 0 <= i < n ==> #[trigger] transfer::other_page(s, guest, source, i) != s.cr3
    &&& forall|i: int, j: int|
        0 <= i < n && 0 <= j < range.1 ==> #[trigger] transfer::other_page(s, root, at, j)
            != #[trigger] transfer::other_page(s, guest, source, i)
    &&& forall|i: int, j: int|
        0 <= i < n && 0 <= j < range.1 ==> transfer::way_avoids(
            s,
            guest,
            #[trigger] address::page_above(source, i),
            #[trigger] transfer::other_page(s, root, at, j),
        )
}

/// Page `j` of a range that has grown is the process's own.
proof fn lemma_grown_page(
    s: MachineState,
    range: AllocationRange,
    root: u64,
    pages: u64,
    at: u64,
    j: int,
)
    requires
        soundness::sound(s, root),
        monitor_apart(s, root),
        owns_range(s, range, root, at),
        range.1 <= 0x800_0000,
        pages <= 0x800_0000,
        s.pool.available() >= widening::inflate_takes(s, range, root, pages, at),
        0 <= j < memory_channels::inflated(s, range, root, pages, at).1.1,
    ensures
        same_or_fresh(
            s,
            memory_channels::inflated(s, range, root, pages, at).0,
            range,
            root,
            at,
            j,
        ),
        own_page(memory_channels::inflated(s, range, root, pages, at).0, root, at, j),
{
    let (t, grown) = memory_channels::inflated(s, range, root, pages, at);
    widening::law_grown_range_has_its_pages(s, range, root, pages, at);
    let va = address::page_above(at, j);
    if j < range.1 {
        assert(own_page(s, root, at, j));
        lemma_not_behind(at, range.1 as int, pages - range.1, j);
        assert(walk::leaf_below(t, root, va, 3) == walk::leaf_below(s, root, va, 3));
        widening::lemma_out_kept(s, t, root, transfer::other_page(s, root, at, j));
    } else {
        assert(widening::fresh_at(s, t, root, at, j));
    }
}

/// The pages of a range that has grown differ.
proof fn lemma_grown_pages_differ(
    s: MachineState,
    range: AllocationRange,
    root: u64,
    pages: u64,
    at: u64,
    i: int,
    j: int,
)
    requires
        soundness::sound(s, root),
        monitor_apart(s, root),
        owns_range(s, range, root, at),
        range.1 <= 0x800_0000,
        pages <= 0x800_0000,
        s.pool.available() >= widening::inflate_takes(s, range, root, pages, at),
        0 <= i < j < memory_channels::inflated(s, range, root, pages, at).1.1,
    ensures
        ({
            let t = memory_channels::inflated(s, range, root, pages, at).0;
            transfer::other_page(t, root, at, i) != transfer::other_page(t, root, at, j)
        }),
{
    let (t, grown) = memory_channels::inflated(s, range, root, pages, at);
    lemma_grown_page(s, range, root, pages, at, i);
    lemma_grown_page(s, range, root, pages, at, j);
    if i < range.1 {
        assert(own_page(s, root, at, i));
        if j < range.1 {
            assert(transfer::other_page(s, root, at, i) != transfer::other_page(s, root, at, j));
        }
    } else {
        widening::law_grown_range_has_its_pages(s, range, root, pages, at);
    }
}

/// A range that has grown is the process's own in all of its pages.
proof fn lemma_grown_is_owned(
    s: MachineState,
    range: AllocationRange,
    root: u64,
    pages: u64,
    at: u64,
)
    requires
        soundness::sound(s, root),
        monitor_apart(s, root),
        owns_range(s, range, root, at),
        range.1 <= 0x800_0000,
        pages <= 0x800_0000,
        s.pool.available() >= widening::inflate_takes(s, range, root, pages, at),
    ensures
        ({
            let (t, grown) = memory_channels::inflated(s, range, root, pages, at);
            &&& owns_range(t, grown, root, at)
            &&& monitor_apart(t, root)
            &&& t.cr3 == s.cr3
            &&& forall|j: int|
                0 <= j < grown.1 ==> #[trigger] same_or_fresh(s, t, range, root, at, j)
        }),
{
    let (t, grown) = memory_channels::inflated(s, range, root, pages, at);
    assert forall|j: int| 0 <= j < grown.1 implies #[trigger] same_or_fresh(
        s,
        t,
        range,
        root,
        at,
        j,
    ) by {
        lemma_grown_page(s, range, root, pages, at, j);
    }
    assert forall|j: int| 0 <= j < grown.1 implies #[trigger] own_page(t, root, at, j) by {
        lemma_grown_page(s, range, root, pages, at, j);
    }
    assert forall|i: int, j: int| 0 <= i < grown.1 && 0 <= j < grown.1 && i != j implies #[trigger] transfer::other_page(
        t,
        root,
        at,
        i,
    ) != #[trigger] transfer::other_page(t, root, at, j) by {
        if i < j {
            lemma_grown_pages_differ(s, range, root, pages, at, i, j);
        } else {
            lemma_grown_pages_differ(s, range, root, pages, at, j, i);
        }
    }
    lemma_monitor_stays(s, range, root, pages, at);
}

/// A range that grows leaves the root table of the monitor alone, and the entry
/// that leads to it.
proof fn lemma_monitor_stays(
    s: MachineState,
    range: AllocationRange,
    root: u64,
    pages: u64,
    at: u64,
)
    requires
        soundness::sound(s, root),
        monitor_apart(s, root),
        pages <= 0x800_0000,
        s.pool.available() >= widening::inflate_takes(s, range, root, pages, at),
    ensures
        ({
            let (t, grown) = memory_channels::inflated(s, range, root, pages, at);
            &&& monitor_apart(t, root)
            &&& t.cr3 == s.cr3
            &&& grown.0 == range.0
            &&& entry::present(s.rd(root, entry::table_index(at, 3))) ==> t.rd(
                root,
                entry::table_index(at, 3),
            ) == s.rd(root, entry::table_index(at, 3))
        }),
{
    let t = memory_channels::inflated(s, range, root, pages, at).0;
    widening::law_grown_range_has_its_pages(s, range, root, pages, at);
    widening::lemma_out_kept(s, t, root, s.cr3);
    assert(0 <= entry::table_index(at, 3) < 512);
}

/// Whether page `j` of a range that has grown is the page that was there, or one
/// that came from the pool.
spec fn same_or_fresh(
    s: MachineState,
    t: MachineState,
    range: AllocationRange,
    root: u64,
    at: u64,
    j: int,
) -> bool {
    if j < range.1 {
        transfer::other_page(t, root, at, j) == transfer::other_page(s, root, at, j)
    } else {
        soundness::in_pool(s.pool, transfer::other_page(t, root, at, j))
    }
}

/// A page of a run is none of those behind it.
proof fn lemma_not_behind(at: u64, from: int, n: int, j: int)
    requires
        0 <= j < from,
        from <= 0x800_0000,
        from + n <= 0x800_0000,
    ensures
        !program::in_run(address::page_above(at, from), n, address::page_above(at, j)),
{
    if program::in_run(address::page_above(at, from), n, address::page_above(at, j)) {
        let i = choose|i: int|
            0 <= i < n && soundness::same_page(
                #[trigger] address::page_above(address::page_above(at, from), i),
                address::page_above(at, j),
            );
        widening::lemma_page_from(at, from, i);
        ranges::lemma_run_pages_differ(at, from + i, j);
    }
}

/// What has grown in another slot leaves a range as it is.
proof fn lemma_other_slot(
    s: MachineState,
    range: AllocationRange,
    root: u64,
    at: u64,
    other: AllocationRange,
    pages: u64,
    there: u64,
)
    requires
        soundness::sound(s, root),
        monitor_apart(s, root),
        owns_range(s, range, root, at),
        at % 0x80_0000_0000 == 0,
        there % 0x80_0000_0000 == 0,
        entry::table_index(at, 3) != entry::table_index(there, 3),
        range.1 <= 0x800_0000,
        pages <= 0x800_0000,
        s.pool.available() >= widening::inflate_takes(s, other, root, pages, there),
    ensures
        ({
            let t = memory_channels::inflated(s, other, root, pages, there).0;
            &&& soundness::sound(t, root)
            &&& soundness::others_kept(s, t, root)
            &&& owns_range(t, range, root, at)
            &&& monitor_apart(t, root)
            &&& t.cr3 == s.cr3
            &&& forall|j: int|
                0 <= j < range.1 ==> #[trigger] transfer::other_page(t, root, at, j)
                    == transfer::other_page(s, root, at, j)
        }),
{
    let t = memory_channels::inflated(s, other, root, pages, there).0;
    widening::law_grown_range_has_its_pages(s, other, root, pages, there);
    widening::lemma_out_kept(s, t, root, s.cr3);
    assert forall|j: int| 0 <= j < range.1 implies #[trigger] transfer::other_page(t, root, at, j)
        == transfer::other_page(s, root, at, j) && own_page(t, root, at, j) by {
        let va = address::page_above(at, j);
        assert(own_page(s, root, at, j));
        assert(!program::in_run(
            address::page_above(there, other.1 as int),
            pages - other.1,
            va,
        )) by {
            lemma_other_slot_page(at, j, there, other.1 as int, pages - other.1);
        }
        assert(walk::leaf_below(t, root, va, 3) == walk::leaf_below(s, root, va, 3));
        widening::lemma_out_kept(s, t, root, transfer::other_page(s, root, at, j));
    }
    assert(owns_range(t, range, root, at)) by {
        assert forall|i: int, j: int|
            0 <= i < range.1 && 0 <= j < range.1 && i != j implies #[trigger] transfer::other_page(
            t,
            root,
            at,
            i,
        ) != #[trigger] transfer::other_page(t, root, at, j) by {
            assert(transfer::other_page(t, root, at, i) == transfer::other_page(s, root, at, i));
            assert(transfer::other_page(t, root, at, j) == transfer::other_page(s, root, at, j));
        }
        assert forall|j: int| 0 <= j < range.1 implies #[trigger] own_page(t, root, at, j) by {
            assert(transfer::other_page(t, root, at, j) == transfer::other_page(s, root, at, j));
        }
    }
}

proof fn lemma_other_slot_page(at: u64, j: int, there: u64, from: int, n: int)
    requires
        at % 0x80_0000_0000 == 0,
        there % 0x80_0000_0000 == 0,
        entry::table_index(at, 3) != entry::table_index(there, 3),
        0 <= j < 0x800_0000,
        0 <= from,
        from + n <= 0x800_0000,
    ensures
        !program::in_run(address::page_above(there, from), n, address::page_above(at, j)),
{
    let va = address::page_above(at, j);
    if program::in_run(address::page_above(there, from), n, va) {
        let i = choose|i: int|
            0 <= i < n && soundness::same_page(
                #[trigger] address::page_above(address::page_above(there, from), i),
                va,
            );
        widening::lemma_page_from(there, from, i);
        let vb = address::page_above(there, from + i);
        delivery::lemma_slot_page(at, j);
        delivery::lemma_slot_page(there, from + i);
        soundness::lemma_same_page(vb, va);
    }
}

/// What the guest has is where it was, apart from a range that has grown.
proof fn lemma_guest_stays(
    s: MachineState,
    t: MachineState,
    range: AllocationRange,
    grown: AllocationRange,
    root: u64,
    at: u64,
    guest: u64,
    source: u64,
    n: int,
)
    requires
        soundness::others_kept(s, t, root),
        guest_apart(s, range, root, at, guest, source, n),
        forall|j: int| 0 <= j < grown.1 ==> #[trigger] same_or_fresh(s, t, range, root, at, j),
    ensures
        guest_apart(t, grown, root, at, guest, source, n),
        forall|i: int|
            0 <= i < n ==> #[trigger] transfer::other_page(t, guest, source, i)
                == transfer::other_page(s, guest, source, i),
        forall|i: int|
            0 <= i < n ==> machine::page_words(
                t.mem,
                #[trigger] transfer::other_page(s, guest, source, i),
            ) == machine::page_words(s.mem, transfer::other_page(s, guest, source, i)),
{
    assert forall|i: int| 0 <= i < n implies #[trigger] transfer::other_page(t, guest, source, i)
        == transfer::other_page(s, guest, source, i) && machine::page_words(
        t.mem,
        transfer::other_page(s, guest, source, i),
    ) == machine::page_words(s.mem, transfer::other_page(s, guest, source, i)) by {
        widening::lemma_foreign_kept(s, t, root, guest, address::page_above(source, i));
    }
    assert forall|i: int| 0 <= i < n implies machine::page_words(
        t.mem,
        #[trigger] transfer::other_page(s, guest, source, i),
    ) == machine::page_words(s.mem, transfer::other_page(s, guest, source, i)) by {
        assert(transfer::other_page(t, guest, source, i) == transfer::other_page(
            s,
            guest,
            source,
            i,
        ));
    }
    assert forall|i: int| 0 <= i < n implies widening::foreign_to(
        t,
        root,
        guest,
        #[trigger] address::page_above(source, i),
    ) && transfer::way_avoids(t, guest, address::page_above(source, i), t.cr3) by {
        let va = address::page_above(source, i);
        assert(widening::foreign_to(s, root, guest, va));
        widening::lemma_foreign_kept(s, t, root, guest, va);
        assert(transfer::way_avoids(s, guest, va, s.cr3));
        lemma_avoids_kept(s, t, guest, va, s.cr3);
    }
    assert forall|i: int, j: int| 0 <= i < n && 0 <= j < grown.1 implies #[trigger] transfer::other_page(
        t,
        root,
        at,
        j,
    ) != #[trigger] transfer::other_page(t, guest, source, i) by {
        assert(same_or_fresh(s, t, range, root, at, j));
        assert(widening::foreign_to(s, root, guest, address::page_above(source, i)));
        if j < range.1 {
            assert(transfer::other_page(s, root, at, j) != transfer::other_page(
                s,
                guest,
                source,
                i,
            ));
        }
    }
    assert forall|i: int, j: int| 0 <= i < n && 0 <= j < grown.1 implies transfer::way_avoids(
        t,
        guest,
        #[trigger] address::page_above(source, i),
        #[trigger] transfer::other_page(t, root, at, j),
    ) by {
        let va = address::page_above(source, i);
        let f = transfer::other_page(t, root, at, j);
        assert(same_or_fresh(s, t, range, root, at, j));
        assert(widening::foreign_to(s, root, guest, va));
        widening::lemma_foreign_kept(s, t, root, guest, va);
        if j < range.1 {
            assert(transfer::way_avoids(s, guest, va, transfer::other_page(s, root, at, j)));
        } else {
            assert(transfer::way_avoids(s, guest, va, f)) by {
                assert forall|l: int| 0 <= l <= 3 && #[trigger] soundness::reach(s, guest, va, l) implies soundness::tab(
                    s,
                    guest,
                    va,
                    l,
                ) != f by {
                }
            }
        }
        lemma_avoids_kept(s, t, guest, va, f);
    }
}

proof fn lemma_avoids_kept(s: MachineState, t: MachineState, other: u64, va: u64, page: u64)
    requires
        transfer::way_avoids(s, other, va, page),
        forall|l: int|
            0 <= l <= 3 ==> #[trigger] soundness::reach(t, other, va, l) == soundness::reach(
                s,
                other,
                va,
                l,
            ),
        forall|l: int|
            0 <= l <= 3 && #[trigger] soundness::reach(t, other, va, l) ==> soundness::tab(
                t,
                other,
                va,
                l,
            ) == soundness::tab(s, other, va, l),
    ensures
        transfer::way_avoids(t, other, va, page),
{
    assert forall|l: int| 0 <= l <= 3 && #[trigger] soundness::reach(t, other, va, l) implies soundness::tab(
        t,
        other,
        va,
        l,
    ) != page by {
        assert(soundness::reach(s, other, va, l));
    }
}

/// A range that a process owns is one that it has.
proof fn lemma_owned_is_had(s: MachineState, range: AllocationRange, root: u64, at: u64)
    requires
        soundness::sound(s, root),
        monitor_apart(s, root),
        owns_range(s, range, root, at),
        at % 0x80_0000_0000 == 0,
        range.1 <= 0x800_0000,
    ensures
        delivery::has_range(s, range, root, at, range.1 as int),
        forall|i: int, j: int|
            0 <= i < range.1 && 0 <= j < range.1 ==> transfer::way_avoids(
                s,
                root,
                #[trigger] address::page_above(at, i),
                #[trigger] transfer::other_page(s, root, at, j),
            ),
        forall|j: int|
            0 <= j < range.1 ==> #[trigger] transfer::other_page(s, root, at, j) != root
                && transfer::other_page(s, root, at, j) != 0,
{
    assert(soundness::reach(s, root, at, 3) && soundness::tab(s, root, at, 3) == root);
    assert(soundness::is_page(s, root));
    assert forall|i: int| 0 <= i < range.1 implies walk::leaf_below(
        s,
        root,
        #[trigger] address::page_above(at, i),
        3,
    ) is Some by {
        assert(own_page(s, root, at, i));
    }
    assert forall|j: int| 0 <= j < range.1 implies #[trigger] transfer::other_page(s, root, at, j)
        != root && transfer::other_page(s, root, at, j) != 0 && transfer::other_page(
        s,
        root,
        at,
        j,
    ) != s.cr3 by {
        assert(own_page(s, root, at, j));
        if transfer::other_page(s, root, at, j) == root {
            assert(soundness::is_table(s, root, root));
        }
    }
    assert forall|i: int, j: int| 0 <= i < range.1 && 0 <= j < range.1 implies transfer::way_avoids(
        s,
        root,
        #[trigger] address::page_above(at, i),
        #[trigger] transfer::other_page(s, root, at, j),
    ) by {
        assert(own_page(s, root, at, j));
        lemma_no_table_on_the_way(
            s,
            root,
            address::page_above(at, i),
            transfer::other_page(s, root, at, j),
        );
    }
    assert forall|i: int| 0 <= i < range.1 implies transfer::way_avoids(
        s,
        root,
        #[trigger] address::page_above(at, i),
        s.cr3,
    ) by {
        lemma_no_table_on_the_way(s, root, address::page_above(at, i), s.cr3);
    }
}

proof fn lemma_no_table_on_the_way(s: MachineState, root: u64, va: u64, page: u64)
    requires
        !soundness::is_table(s, root, page),
    ensures
        transfer::way_avoids(s, root, va, page),
{
}

/// What the guest has is found in a range that the process owns, once it was
/// put there; and the digest of the range is that of what is found in it.
proof fn lemma_input_arrives(
    s: MachineState,
    input: AllocationRange,
    root: u64,
    at: u64,
    guest: u64,
    source: u64,
    size: u64,
)
    requires
        soundness::sound(s, root),
        monitor_apart(s, root),
        owns_range(s, input, root, at),
        at % 0x80_0000_0000 == 0,
        input.1 <= 0x800_0000,
        guest_copy::pages_over(size) <= input.1,
        guest_apart(s, input, root, at, guest, source, guest_copy::pages_over(size) as int),
    ensures
        ({
            let put = memory_channels::put_input(s, input, source, guest, size);
            let (t, digest) = memory_channels::range_measured(put, input);
            &&& digest == crypto::sha512(
                delivery::range_bytes(t, root, at, input.1 as nat),
            )
            &&& forall|i: int|
                0 <= i < guest_copy::pages_over(size) ==> machine::page_words(
                    t.mem,
                    #[trigger] transfer::other_page(t, root, at, i),
                ) == machine::page_words(s.mem, transfer::other_page(s, guest, source, i))
        }),
{
    let n = guest_copy::pages_over(size) as int;
    let whole = input.1 as int;
    let put = memory_channels::put_input(s, input, source, guest, size);
    lemma_owned_is_had(s, input, root, at);
    assert(transfer::apart(s, guest, source, root, at, n)) by {
        assert(soundness::reach(s, root, at, 3) && soundness::tab(s, root, at, 3) == root);
        assert forall|i: int| 0 <= i < n implies #[trigger] transfer::other_page(s, root, at, i)
            as int / 8 + 512 <= s.mem.len() by {
            assert(own_page(s, root, at, i));
        }
    }
    delivery::lemma_input_put(s, input, root, at, guest, source, size, whole);
    lemma_measured(s, put, input, root, at);
    let t = memory_channels::range_measured(put, input).0;
    assert forall|i: int| 0 <= i < n implies machine::page_words(
        t.mem,
        #[trigger] transfer::other_page(t, root, at, i),
    ) == machine::page_words(s.mem, transfer::other_page(s, guest, source, i)) by {
        assert(transfer::other_page(put, root, at, i) == transfer::other_page(s, root, at, i));
    }
}

/// What was measured is what is found afterwards.
proof fn lemma_measured(
    s: MachineState,
    put: MachineState,
    range: AllocationRange,
    root: u64,
    at: u64,
)
    requires
        owns_range(s, range, root, at),
        put.cr3 == s.cr3,
        delivery::has_range(put, range, root, at, range.1 as int),
        forall|i: int|
            0 <= i < range.1 ==> #[trigger] transfer::other_page(put, root, at, i)
                == transfer::other_page(s, root, at, i),
    ensures
        ({
            let (t, digest) = memory_channels::range_measured(put, range);
            &&& digest == crypto::sha512(delivery::range_bytes(t, root, at, range.1 as nat))
            &&& forall|i: int|
                0 <= i < range.1 ==> #[trigger] transfer::other_page(t, root, at, i)
                    == transfer::other_page(put, root, at, i)
            &&& forall|i: int|
                0 <= i < range.1 ==> machine::page_words(
                    t.mem,
                    #[trigger] transfer::other_page(t, root, at, i),
                ) == machine::page_words(put.mem, transfer::other_page(put, root, at, i))
        }),
{
    let t = memory_channels::range_measured(put, range).0;
    assert forall|i: int| 0 <= i < range.1 implies #[trigger] transfer::other_page(
        put,
        root,
        at,
        i,
    ) != 0 && transfer::other_page(put, root, at, i) != put.cr3 by {
        assert(transfer::other_page(put, root, at, i) == transfer::other_page(s, root, at, i));
        assert(own_page(s, root, at, i));
    }
    delivery::law_digest_is_that_of_the_range(put, range, root, at);
    assert forall|i: int| 0 <= i < range.1 implies machine::page_words(
        t.mem,
        #[trigger] transfer::other_page(t, root, at, i),
    ) == machine::page_words(put.mem, transfer::other_page(put, root, at, i)) by {
        transfer::lemma_page_aligned(put, root, at, i);
        assert(transfer::other_page(put, root, at, i) != put.cr3);
    }
    delivery::lemma_same_range(put, t, root, at, range.1 as nat);
}

/// Whether an input of the guest can be given to a process: there are pages for
/// it and for the output, the input that the process has is its own, and the
/// guest's pages have nothing to do with the process or with the monitor.
pub open spec fn input_fits(
    inv: Invocation,
    s: MachineState,
    ch: MemoryChannel,
    root: u64,
) -> bool {
    let n = guest_copy::pages_over(inv.function_arg_size);
    let out = guest_copy::pages_over(inv.result_size);
    let s1 = memory_channels::inflated(s, ch.input, root, n as u64, INPUT_VADDR).0;
    &&& soundness::sound(s, root)
    &&& monitor_apart(s, root)
    &&& owns_range(s, ch.input, root, INPUT_VADDR)
    &&& guest_apart(
        s,
        ch.input,
        root,
        INPUT_VADDR,
        inv.guest_page_table,
        inv.function_arg,
        n as int,
    )
    &&& n <= 0x800_0000
    &&& out <= 0x800_0000
    &&& ch.input.1 <= 0x800_0000
    &&& s.pool.available() >= widening::inflate_takes(s, ch.input, root, n as u64, INPUT_VADDR)
    &&& s1.pool.available() >= widening::inflate_takes(
        s1,
        ch.output,
        root,
        out as u64,
        OUTPUT_VADDR,
    )
}

/// A process that was prepared for a new input finds the guest's input: the words
/// of each page from the start of its input on are those that the guest had from
/// its argument on. What was recorded of the input is the digest of the pages
/// that the process finds there.
#[verifier::rlimit(40)]
pub proof fn law_prepared_process_finds_the_input(
    inv: Invocation,
    s: MachineState,
    p: TrustedProcess,
    v: Vmsa,
    t: MachineState,
    q: TrustedProcess,
    w: Vmsa,
)
    requires
        inv.kind == TrustletInvocationType::NORMAL,
        inv.prepared(s, p, v, t, q, w),
        inv.function_arg_size > 1,
        input_fits(inv, s, p.context.channel, v.cr3),
    ensures
        forall|i: int|
            0 <= i && i * 4096 < inv.function_arg_size ==> machine::page_words(
                t.mem,
                walk::translate(t, v.cr3, #[trigger] address::page_above(INPUT_VADDR, i)),
            ) == machine::page_words(
                s.mem,
                walk::translate(
                    s,
                    inv.guest_page_table,
                    address::page_above(inv.function_arg, i),
                ),
            ),
        q.context.channel.input.1 * 4096 >= inv.function_arg_size,
        q.context.channel.output.1 * 4096 >= inv.result_size,
        q.measurements.input_data@ == crypto::sha512(
            delivery::range_bytes(t, v.cr3, INPUT_VADDR, q.context.channel.input.1 as nat),
        ),
{
    let root = v.cr3;
    let ch = p.context.channel;
    let n = guest_copy::pages_over(inv.function_arg_size) as int;
    let guest = inv.guest_page_table;
    let source = inv.function_arg;
    let (s2, input) = lemma_room_made(inv, s, ch, root);
    lemma_input_arrives(s2, input, root, INPUT_VADDR, guest, source, inv.function_arg_size);
    assert(input == q.context.channel.input);
    assert forall|i: int| 0 <= i && i * 4096 < inv.function_arg_size implies machine::page_words(
        t.mem,
        walk::translate(t, root, #[trigger] address::page_above(INPUT_VADDR, i)),
    ) == machine::page_words(s.mem, walk::translate(s, guest, address::page_above(source, i))) by {
        assert(i < n);
        assert(machine::page_words(t.mem, transfer::other_page(t, root, INPUT_VADDR, i))
            == machine::page_words(s2.mem, transfer::other_page(s2, guest, source, i)));
    }
}

/// The machine that has room for an input: the process owns it, and what the
/// guest has is where it was.
#[verifier::rlimit(40)]
proof fn lemma_room_made(inv: Invocation, s: MachineState, ch: MemoryChannel, root: u64) -> (r: (
    MachineState,
    AllocationRange,
))
    requires
        input_fits(inv, s, ch, root),
    ensures
        ({
            let n = guest_copy::pages_over(inv.function_arg_size);
            let out = guest_copy::pages_over(inv.result_size);
            let guest = inv.guest_page_table;
            let source = inv.function_arg;
            let (s1, input) = memory_channels::inflated(s, ch.input, root, n as u64, INPUT_VADDR);
            let (s2, output) = memory_channels::inflated(
                s1,
                ch.output,
                root,
                out as u64,
                OUTPUT_VADDR,
            );
            &&& r == (s2, input)
            &&& soundness::sound(s2, root)
            &&& monitor_apart(s2, root)
            &&& owns_range(s2, input, root, INPUT_VADDR)
            &&& n <= input.1 <= 0x800_0000
            &&& out <= output.1
            &&& guest_apart(s2, input, root, INPUT_VADDR, guest, source, n as int)
            &&& forall|i: int|
                0 <= i < n ==> machine::page_words(
                    s2.mem,
                    #[trigger] transfer::other_page(s2, guest, source, i),
                ) == machine::page_words(s.mem, transfer::other_page(s, guest, source, i))
        }),
{
    let n = guest_copy::pages_over(inv.function_arg_size);
    let out = guest_copy::pages_over(inv.result_size);
    let guest = inv.guest_page_table;
    let source = inv.function_arg;
    let (s1, input) = memory_channels::inflated(s, ch.input, root, n as u64, INPUT_VADDR);
    let s2 = memory_channels::inflated(s1, ch.output, root, out as u64, OUTPUT_VADDR).0;
    lemma_first_room_made(inv, s, ch, root);
    assert(entry::table_index(INPUT_VADDR, 3) == 5 && entry::table_index(OUTPUT_VADDR, 3) == 6);
    lemma_other_slot(s1, input, root, INPUT_VADDR, ch.output, out as u64, OUTPUT_VADDR);
    assert forall|j: int| 0 <= j < input.1 implies #[trigger] same_or_fresh(
        s1,
        s2,
        input,
        root,
        INPUT_VADDR,
        j,
    ) by {
        assert(transfer::other_page(s2, root, INPUT_VADDR, j) == transfer::other_page(
            s1,
            root,
            INPUT_VADDR,
            j,
        ));
    }
    lemma_guest_stays(s1, s2, input, input, root, INPUT_VADDR, guest, source, n as int);
    assert forall|i: int| 0 <= i < n implies machine::page_words(
        s2.mem,
        #[trigger] transfer::other_page(s2, guest, source, i),
    ) == machine::page_words(s.mem, transfer::other_page(s, guest, source, i)) by {
        assert(transfer::other_page(s2, guest, source, i) == transfer::other_page(
            s1,
            guest,
            source,
            i,
        ));
    }
    (s2, input)
}

#[verifier::rlimit(40)]
proof fn lemma_first_room_made(inv: Invocation, s: MachineState, ch: MemoryChannel, root: u64)
    requires
        input_fits(inv, s, ch, root),
    ensures
        ({
            let n = guest_copy::pages_over(inv.function_arg_size);
            let guest = inv.guest_page_table;
            let source = inv.function_arg;
            let (s1, input) = memory_channels::inflated(s, ch.input, root, n as u64, INPUT_VADDR);
            &&& soundness::sound(s1, root)
            &&& monitor_apart(s1, root)
            &&& owns_range(s1, input, root, INPUT_VADDR)
            &&& n <= input.1 <= 0x800_0000
            &&& guest_apart(s1, input, root, INPUT_VADDR, guest, source, n as int)
            &&& forall|i: int|
                0 <= i < n ==> machine::page_words(
                    s1.mem,
                    #[trigger] transfer::other_page(s1, guest, source, i),
                ) == machine::page_words(s.mem, transfer::other_page(s, guest, source, i))
        }),
{
    let n = guest_copy::pages_over(inv.function_arg_size);
    let guest = inv.guest_page_table;
    let source = inv.function_arg;
    let (s1, input) = memory_channels::inflated(s, ch.input, root, n as u64, INPUT_VADDR);
    widening::law_grown_range_has_its_pages(s, ch.input, root, n as u64, INPUT_VADDR);
    lemma_grown_is_owned(s, ch.input, root, n as u64, INPUT_VADDR);
    lemma_guest_stays(s, s1, ch.input, input, root, INPUT_VADDR, guest, source, n as int);
    assert forall|i: int| 0 <= i < n implies machine::page_words(
        s1.mem,
        #[trigger] transfer::other_page(s1, guest, source, i),
    ) == machine::page_words(s.mem, transfer::other_page(s, guest, source, i)) by {
        assert(transfer::other_page(s1, guest, source, i) == transfer::other_page(
            s,
            guest,
            source,
            i,
        ));
    }
}

/// An input of one byte or none is not copied: but for the tables of the process
/// and the root table of the monitor, no page that is in use is changed.
pub proof fn law_small_input_is_not_copied(
    inv: Invocation,
    s: MachineState,
    p: TrustedProcess,
    v: Vmsa,
    t: MachineState,
    q: TrustedProcess,
    w: Vmsa,
    pa: u64,
)
    requires
        inv.kind == TrustletInvocationType::NORMAL,
        inv.prepared(s, p, v, t, q, w),
        inv.function_arg_size <= 1,
        input_fits(inv, s, p.context.channel, v.cr3),
        pa % 4096 == 0,
        pa != s.cr3,
        !soundness::in_pool(s.pool, pa),
        !soundness::is_table(s, v.cr3, pa),
    ensures
        machine::page_words(t.mem, pa) == machine::page_words(s.mem, pa),
{
    let root = v.cr3;
    let ch = p.context.channel;
    let n = guest_copy::pages_over(inv.function_arg_size) as u64;
    let out = guest_copy::pages_over(inv.result_size) as u64;
    let (s1, input) = memory_channels::inflated(s, ch.input, root, n, INPUT_VADDR);
    let s2 = memory_channels::inflated(s1, ch.output, root, out, OUTPUT_VADDR).0;
    widening::law_grown_range_has_its_pages(s, ch.input, root, n, INPUT_VADDR);
    widening::law_grown_range_has_its_pages(s1, ch.output, root, out, OUTPUT_VADDR);
    soundness::lemma_others_kept(s, s1, s2, root);
    let a = allocation::mount_entry(s2, input.0);
    delivery::lemma_mount_keeps(s2, input.0);
    delivery::lemma_mount_keeps(a, 0);
    assert(machine::page_words(s2.mem, pa) =~= machine::page_words(s.mem, pa)) by {
        assert forall|i: int| 0 <= i < 512 implies #[trigger] machine::page_words(s2.mem, pa)[i]
            == machine::page_words(s.mem, pa)[i] by {
            assert(s2.rd(pa, i) == s.rd(pa, i));
        }
    }
    assert(machine::page_words(a.mem, pa) == machine::page_words(s2.mem, pa));
}

/// A request to run a process is read as the guest has written it: its first word
/// says what the run is for, the next ones where the argument lies, its size,
/// where the result goes, its size, and where the data of requests lies and its
/// size. A first word that says nothing is no request.
#[verifier::rlimit(40)]
pub proof fn law_request_is_read_as_written(s: MachineState, params: RequestParams)
    requires
        soundness::sound(s, s.cr3),
        guest_copy::pages_over(params.r9) <= 0x10_0000_0000,
        s.pool.available() >= ranges::range_takes(
            allocation::stale_cleared(s),
            s.cr3,
            ALLOCATION_RANGE_VIRT_START,
            guest_copy::pages_over(params.r9),
            0x63,
            true,
        ),
        params.rdx % 4096 == 0,
        params.rcx <= usize::MAX,
        forall|i: int|
            0 <= i < guest_copy::pages_over(params.r9) ==> ranges::stranger(
                s,
                params.rdx,
                #[trigger] address::page_above(params.r8, i),
            ),
    ensures
        ({
            let page = walk::translate(s, params.rdx, params.r8);
            match invoke::invocation(invoke::request_words(s, params).0, params) {
                None => s.rd(page, 0) > 6,
                Some(inv) => {
                    &&& s.rd(page, 0) == (match inv.kind {
                        TrustletInvocationType::NORMAL => 0u64,
                        TrustletInvocationType::FILEATTR => 1u64,
                        TrustletInvocationType::OPEN => 2u64,
                        TrustletInvocationType::READ => 3u64,
                        TrustletInvocationType::MMAP => 4u64,
                        TrustletInvocationType::INFERREGISTER => 5u64,
                        TrustletInvocationType::INFERPROMPT => 6u64,
                    })
                    &&& inv.id.0 == params.rcx
                    &&& inv.guest_page_table == params.rdx
                    &&& inv.function_arg == s.rd(page, 1)
                    &&& inv.function_arg_size == s.rd(page, 2)
                    &&& inv.result_addr == s.rd(page, 3)
                    &&& inv.result_size == s.rd(page, 4)
                    &&& inv.arg_vaddr == s.rd(page, 5)
                    &&& inv.arg_size == s.rd(page, 6)
                },
            }
        }),
{
    ranges::law_fetched_data_is_the_guests(s, params.r8, params.r9, params.rdx);
    let start = ALLOCATION_RANGE_VIRT_START;
    let t = guest_copy::fetched(s, params.r8, params.r9, params.rdx).0;
    assert(address::page_above(start, 0) == start);
    assert(address::page_above(params.r8, 0) == params.r8);
    let page = walk::translate(s, params.rdx, params.r8);
    let words = machine::page_words(s.mem, page);
    assert(walk::mounted_words(t, address::page_above(start, 0)) == words);
    assert(forall|i: int| 0 <= i < 512 ==> #[trigger] words[i] == s.rd(page, i));
}

} // verus!
