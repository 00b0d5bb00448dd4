//! What the guest gets of a process that has a result.
use vstd::prelude::*;
use crate::address;
use crate::crypto;
use crate::memory::machine;
use crate::memory::machine::MachineState;
use crate::process_manager::allocation;
use crate::process_manager::allocation::AllocationRange;
use crate::process_manager::memory_channels;
use crate::process_manager::memory_channels::OUTPUT_VADDR;
use crate::process_manager::process::TrustedProcess;
use crate::process_manager::process_paging::delivery;
use crate::process_manager::process_paging::guest_copy;
use crate::process_manager::process_paging::transfer;
use crate::process_manager::process_paging::walk;
use crate::process_runtime::PALContext;

verus! {

/// Whether the guest has pages for the result of a process below `root` that
/// have nothing to do with the process or with the monitor.
pub open spec fn result_fits(ctx: PALContext, s: MachineState, output: AllocationRange) -> bool {
    let root = ctx.vmsa.cr3;
    let guest = ctx.guest_page_table;
    let n = guest_copy::pages_over(ctx.result_size) as int;
    &&& delivery::has_range(s, output, root, OUTPUT_VADDR, output.1 as int)
    &&& n <= output.1
    &&& delivery::clear_of_monitor(s, guest, ctx.result_addr, n)
    &&& transfer::apart(s, root, OUTPUT_VADDR, guest, ctx.result_addr, n)
    &&& forall|i: int|
        0 <= i < output.1 ==> #[trigger] transfer::other_page(s, root, OUTPUT_VADDR, i) != 0
    &&& forall|j: int|
        0 <= j < n ==> #[trigger] transfer::other_page(s, guest, ctx.result_addr, j) != 0
    &&& forall|j: int|
        0 <= j < n ==> #[trigger] transfer::other_page(s, guest, ctx.result_addr, j) != root
    &&& forall|i: int, j: int|
        0 <= i < output.1 && 0 <= j < n ==> transfer::way_avoids(
            s,
            root,
            #[trigger] address::page_above(OUTPUT_VADDR, i),
            #[trigger] transfer::other_page(s, guest, ctx.result_addr, j),
        )
    &&& forall|i: int, j: int|
        0 <= i < output.1 && 0 <= j < n ==> #[trigger] transfer::other_page(
            s,
            root,
            OUTPUT_VADDR,
            i,
        ) != #[trigger] transfer::other_page(s, guest, ctx.result_addr, j)
}

/// The guest finds the result where it asked for it: the words of each page are
/// those that the process has in its output. What is recorded is the digest of
/// the whole output.
pub proof fn law_guest_finds_the_result(
    ctx: PALContext,
    s: MachineState,
    p: TrustedProcess,
    t: MachineState,
    q: TrustedProcess,
)
    requires
        ctx.result_given(s, p, t, q),
        !ctx.nested_call,
        result_fits(ctx, s, p.context.channel.output),
    ensures
        forall|i: int|
            0 <= i && i * 4096 < ctx.result_size ==> machine::page_words(
                t.mem,
                walk::translate(
                    t,
                    ctx.guest_page_table,
                    #[trigger] address::page_above(ctx.result_addr, i),
                ),
            ) == machine::page_words(
                s.mem,
                walk::translate(s, ctx.vmsa.cr3, address::page_above(OUTPUT_VADDR, i)),
            ),
        q.measurements.output_data@ == crypto::sha512(
            delivery::range_bytes(
                s,
                ctx.vmsa.cr3,
                OUTPUT_VADDR,
                p.context.channel.output.1 as nat,
            ),
        ),
{
    let root = ctx.vmsa.cr3;
    let guest = ctx.guest_page_table;
    let target = ctx.result_addr;
    let output = p.context.channel.output;
    let size = ctx.result_size;
    let n = guest_copy::pages_over(size) as int;
    let whole = output.1 as int;
    let c = memory_channels::got_output(s, output, target, guest, size);
    assert(delivery::has_range(s, output, root, OUTPUT_VADDR, n));
    delivery::law_guest_finds_the_output(s, output, root, OUTPUT_VADDR, guest, target, size);
    delivery::lemma_output_got(s, output, root, OUTPUT_VADDR, guest, target, size, whole);
    assert forall|i: int| 0 <= i < whole implies #[trigger] transfer::other_page(
        c,
        root,
        OUTPUT_VADDR,
        i,
    ) != 0 by {
        assert(transfer::other_page(c, root, OUTPUT_VADDR, i) == transfer::other_page(
            s,
            root,
            OUTPUT_VADDR,
            i,
        ));
    }
    delivery::law_digest_is_that_of_the_range(c, output, root, OUTPUT_VADDR);
    delivery::lemma_same_range(s, c, root, OUTPUT_VADDR, output.1 as nat);
    assert forall|i: int| 0 <= i && i * 4096 < size implies machine::page_words(
        t.mem,
        walk::translate(t, guest, #[trigger] address::page_above(target, i)),
    ) == machine::page_words(
        s.mem,
        walk::translate(s, root, address::page_above(OUTPUT_VADDR, i)),
    ) by {
        assert(i < n);
        lemma_measuring_keeps(c, output, guest, target, n, i);
        let va = address::page_above(target, i);
        assert(machine::page_words(c.mem, walk::translate(c, guest, va)) == machine::page_words(
            s.mem,
            walk::translate(s, root, address::page_above(OUTPUT_VADDR, i)),
        ));
    }
}

/// To measure a range moves no page of the guest.
proof fn lemma_measuring_keeps(
    s: MachineState,
    range: AllocationRange,
    guest: u64,
    target: u64,
    n: int,
    i: int,
)
    requires
        delivery::clear_of_monitor(s, guest, target, n),
        0 <= i < n,
    ensures
        ({
            let t = memory_channels::range_measured(s, range).0;
            let va = address::page_above(target, i);
            &&& walk::translate(t, guest, va) == walk::translate(s, guest, va)
            &&& machine::page_words(t.mem, walk::translate(s, guest, va)) == machine::page_words(
                s.mem,
                walk::translate(s, guest, va),
            )
        }),
{
    let a = allocation::mount_entry(s, range.0);
    let va = address::page_above(target, i);
    delivery::lemma_mount_keeps(s, range.0);
    delivery::lemma_mount_keeps(a, 0);
    transfer::lemma_page_aligned(s, guest, target, i);
    assert(transfer::way_avoids(s, guest, va, s.cr3));
    assert(transfer::way_same(s, a, guest, va));
    assert(transfer::way_avoids(a, guest, va, s.cr3));
    let t = memory_channels::range_measured(s, range).0;
    assert(transfer::way_same(a, t, guest, va));
    assert(transfer::other_page(s, guest, target, i) != s.cr3);
}

/// A result for a process that has called this one stays where it is: the guest
/// gets nothing of it, and no page but the root table of the monitor is changed.
pub proof fn law_called_process_keeps_its_result(
    ctx: PALContext,
    s: MachineState,
    p: TrustedProcess,
    t: MachineState,
    q: TrustedProcess,
)
    requires
        ctx.result_given(s, p, t, q),
        ctx.nested_call,
        s.cr3 % 4096 == 0,
        s.cr3 as int / 8 + 512 <= s.mem.len(),
    ensures
        forall|pa: u64|
            pa % 4096 == 0 && pa != s.cr3 ==> #[trigger] machine::page_words(t.mem, pa)
                == machine::page_words(s.mem, pa),
        ({
            let output = p.context.channel.output;
            delivery::has_range(s, output, ctx.vmsa.cr3, OUTPUT_VADDR, output.1 as int) && (forall|
                i: int,
            |
                0 <= i < output.1 ==> #[trigger] transfer::other_page(
                    s,
                    ctx.vmsa.cr3,
                    OUTPUT_VADDR,
                    i,
                ) != 0) ==> q.measurements.output_data@ == crypto::sha512(
                delivery::range_bytes(s, ctx.vmsa.cr3, OUTPUT_VADDR, output.1 as nat),
            )
        }),
{
    let output = p.context.channel.output;
    let a = allocation::mount_entry(s, output.0);
    delivery::lemma_mount_keeps(s, output.0);
    delivery::lemma_mount_keeps(a, 0);
    assert forall|pa: u64| pa % 4096 == 0 && pa != s.cr3 implies #[trigger] machine::page_words(
        t.mem,
        pa,
    ) == machine::page_words(s.mem, pa) by {
        assert(machine::page_words(a.mem, pa) == machine::page_words(s.mem, pa));
    }
    if delivery::has_range(s, output, ctx.vmsa.cr3, OUTPUT_VADDR, output.1 as int) && (forall|
        i: int,
    |
        0 <= i < output.1 ==> #[trigger] transfer::other_page(s, ctx.vmsa.cr3, OUTPUT_VADDR, i)
            != 0) {
        delivery::law_digest_is_that_of_the_range(s, output, ctx.vmsa.cr3, OUTPUT_VADDR);
    }
}

} // verus!
