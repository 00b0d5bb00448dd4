//! What holds of the texts that a process and the guest exchange for inference.
use vstd::prelude::*;
use crate::address;
use crate::memory::machine;
use crate::memory::machine::{MachineOp, MachineState};
use crate::process_manager::allocation::AllocationRange;
use crate::process_manager::process::TrustedProcess;
use crate::process_manager::process_paging::delivery;
use crate::process_manager::process_paging::entry;
use crate::process_manager::process_paging::growth;
use crate::process_manager::process_paging::loading;
use crate::process_manager::process_paging::slots;
use crate::process_manager::process_paging::transfer;
use crate::process_manager::process_paging::walk;
use crate::process_runtime::process::inference;
use crate::process_runtime::process::inference::{
    INFERENCE_VADDR, MOUNTED_CONTEXT, MOUNTED_GUEST,
};
use crate::RequestParams;

verus! {

/// The pages that a text of `size` bytes lies in.
pub open spec fn text_pages(size: u64) -> int {
    (size + 4095) / 4096
}

/// Whether an address space has a text at the start of a slot: its pages are
/// there, and have nothing to do with the root table of the monitor.
pub open spec fn has_text(s: MachineState, root: u64, at: u64, n: int) -> bool {
    &&& at % 0x80_0000_0000 == 0
    &&& n <= 0x800_0000
    &&& root != s.cr3
    &&& delivery::clear_of_monitor(s, root, at, n)
    &&& forall|i: int|
        0 <= i < n ==> walk::leaf_below(s, root, #[trigger] address::page_above(at, i), 3) is Some
    &&& forall|i: int| 0 <= i < n ==> #[trigger] transfer::other_page(s, root, at, i) != 0
}

/// Whether two slots of an address space are mounted in `m`.
spec fn is_mounted(s: MachineState, m: MachineState, slot: u64, root: u64, at: u64, n: int) -> bool {
    &&& slot % 0x80_0000_0000 == 0
    &&& m.rd(m.cr3, entry::table_index(slot, 3)) == m.rd(root, entry::table_index(at, 3))
    &&& forall|i: int|
        0 <= i < n ==> transfer::way_same(s, m, root, #[trigger] address::page_above(at, i))
}

/// A page of a text is the page that the monitor has where the text is mounted.
proof fn lemma_text_page(
    s: MachineState,
    m: MachineState,
    slot: u64,
    root: u64,
    at: u64,
    n: int,
    i: int,
)
    requires
        has_text(s, root, at, n),
        is_mounted(s, m, slot, root, at, n),
        m.cr3 == s.cr3,
        m.c_bit == s.c_bit,
        0 <= i < n,
    ensures
        walk::leaf_below(m, m.cr3, address::page_above(slot, i), 3) is Some,
        transfer::other_page(m, m.cr3, slot, i) == transfer::other_page(s, root, at, i),
        transfer::other_page(m, root, at, i) == transfer::other_page(s, root, at, i),
        forall|other: u64|
            other != s.cr3 && #[trigger] transfer::way_avoids(
                s,
                root,
                address::page_above(at, i),
                other,
            ) ==> transfer::way_avoids(m, m.cr3, address::page_above(slot, i), other),
{
    slots::lemma_same_slot(m, m.cr3, slot, root, at, i);
    assert(transfer::way_same(s, m, root, address::page_above(at, i)));
    assert(walk::leaf_below(s, root, address::page_above(at, i), 3) is Some);
    assert forall|other: u64|
        other != s.cr3 && #[trigger] transfer::way_avoids(
            s,
            root,
            address::page_above(at, i),
            other,
        ) implies transfer::way_avoids(m, m.cr3, address::page_above(slot, i), other) by {
        assert(transfer::way_avoids(m, root, address::page_above(at, i), other));
    }
}

/// The pages of a text that is mounted are pages of their own for the monitor.
proof fn lemma_text_is_own(
    s: MachineState,
    m: MachineState,
    slot: u64,
    root: u64,
    at: u64,
    other: u64,
    origin: u64,
    n: int,
)
    requires
        has_text(s, root, at, n),
        is_mounted(s, m, slot, root, at, n),
        transfer::apart(s, other, origin, root, at, n),
        m.cr3 == s.cr3,
        m.c_bit == s.c_bit,
        m.mem.len() == s.mem.len(),
    ensures
        slots::own_pages(m, m.cr3, slot, n),
{
    assert forall|i: int| 0 <= i < n implies walk::leaf_below(
        m,
        m.cr3,
        #[trigger] address::page_above(slot, i),
        3,
    ) is Some by {
        lemma_text_page(s, m, slot, root, at, n, i);
    }
    assert forall|i: int| 0 <= i < n implies #[trigger] transfer::other_page(m, m.cr3, slot, i)
        as int / 8 + 512 <= m.mem.len() by {
        lemma_text_page(s, m, slot, root, at, n, i);
    }
    assert forall|i: int, j: int| 0 <= i < n && 0 <= j < n && i != j implies #[trigger] transfer::other_page(
        m,
        m.cr3,
        slot,
        i,
    ) != #[trigger] transfer::other_page(m, m.cr3, slot, j) by {
        lemma_text_page(s, m, slot, root, at, n, i);
        lemma_text_page(s, m, slot, root, at, n, j);
    }
    assert forall|i: int, j: int| 0 <= i < n && 0 <= j < n implies transfer::way_avoids(
        m,
        m.cr3,
        #[trigger] address::page_above(slot, i),
        #[trigger] transfer::other_page(m, m.cr3, slot, j),
    ) by {
        lemma_text_page(s, m, slot, root, at, n, i);
        lemma_text_page(s, m, slot, root, at, n, j);
        assert(transfer::other_page(s, root, at, j) != s.cr3);
        assert(transfer::way_avoids(
            s,
            root,
            address::page_above(at, i),
            transfer::other_page(s, root, at, j),
        ));
    }
}

/// What the monitor reads of a text that is mounted is what is found in it.
proof fn lemma_text_byte(
    s: MachineState,
    m: MachineState,
    slot: u64,
    root: u64,
    at: u64,
    n: int,
    k: int,
)
    requires
        has_text(s, root, at, n),
        is_mounted(s, m, slot, root, at, n),
        m.cr3 == s.cr3,
        m.c_bit == s.c_bit,
        m.mem.len() == s.mem.len(),
        forall|pa: u64|
            pa % 4096 == 0 && pa != s.cr3 ==> #[trigger] machine::page_words(m.mem, pa)
                == machine::page_words(s.mem, pa),
        0 <= k < n * 4096,
    ensures
        walk::mounted_byte(m, address::addr_add(slot, k)) == loading::found_byte(
            s,
            root,
            address::addr_add(at, k),
        ),
{
    let i = k / 4096;
    let f = transfer::other_page(s, root, at, i);
    lemma_text_page(s, m, slot, root, at, n, i);
    assert(slot % 4096 == 0 && at % 4096 == 0);
    loading::lemma_byte_address(slot, k);
    loading::lemma_byte_address(at, k);
    growth::lemma_leaf_of_page(m, m.cr3, address::page_above(slot, i), address::addr_add(slot, k));
    growth::lemma_leaf_of_page(s, root, address::page_above(at, i), address::addr_add(at, k));
    transfer::lemma_page_aligned(s, root, at, i);
    assert(f != 0 && f != s.cr3);
    delivery::lemma_same_byte(m, s, f, k % 4096);
}

/// A text that the monitor copies from one slot to another is found where it was
/// copied to.
proof fn lemma_text_moved(
    s: MachineState,
    m: MachineState,
    from: u64,
    source: u64,
    origin: u64,
    to: u64,
    into: u64,
    target: u64,
    size: u64,
)
    requires
        has_text(s, source, origin, text_pages(size)),
        has_text(s, into, target, text_pages(size)),
        is_mounted(s, m, from, source, origin, text_pages(size)),
        is_mounted(s, m, to, into, target, text_pages(size)),
        transfer::apart(s, source, origin, into, target, text_pages(size)),
        m.cr3 == s.cr3,
        m.c_bit == s.c_bit,
        m.mem.len() == s.mem.len(),
        forall|pa: u64|
            pa % 4096 == 0 && pa != s.cr3 ==> #[trigger] machine::page_words(m.mem, pa)
                == machine::page_words(s.mem, pa),
    ensures
        ({
            let t = walk::mounted_store(m, to, walk::mounted_bytes(m, from, size as nat));
            forall|k: int|
                0 <= k < size ==> #[trigger] loading::found_byte(
                    t,
                    into,
                    address::addr_add(target, k),
                ) == loading::found_byte(s, source, address::addr_add(origin, k))
        }),
{
    let n = text_pages(size);
    let bytes = walk::mounted_bytes(m, from, size as nat);
    let t = walk::mounted_store(m, to, bytes);
    lemma_text_is_own(s, m, to, into, target, source, origin, n);
    assert(size <= n * 4096);
    slots::lemma_mounted_store(m, to, bytes, n);
    assert forall|k: int| 0 <= k < size implies #[trigger] loading::found_byte(
        t,
        into,
        address::addr_add(target, k),
    ) == loading::found_byte(s, source, address::addr_add(origin, k)) by {
        let i = k / 4096;
        assert(0 <= i < n);
        lemma_text_byte(s, m, from, source, origin, n, k);
        lemma_text_page(s, m, to, into, target, n, i);
        assert(bytes[k] == walk::mounted_byte(m, address::addr_add(from, k)));
        assert(machine::byte_at(t.mem, transfer::other_page(m, m.cr3, to, i) + k % 4096)
            == bytes[k]);
        lemma_target_stays(s, m, t, to, into, target, source, origin, n, i);
        assert(target % 4096 == 0);
        loading::lemma_byte_address(target, k);
        growth::lemma_leaf_of_page(
            t,
            into,
            address::page_above(target, i),
            address::addr_add(target, k),
        );
        assert(transfer::other_page(s, into, target, i) != 0);
    }
}

proof fn lemma_target_stays(
    s: MachineState,
    m: MachineState,
    t: MachineState,
    to: u64,
    into: u64,
    target: u64,
    source: u64,
    origin: u64,
    n: int,
    i: int,
)
    requires
        has_text(s, into, target, n),
        is_mounted(s, m, to, into, target, n),
        transfer::apart(s, source, origin, into, target, n),
        m.cr3 == s.cr3,
        m.c_bit == s.c_bit,
        transfer::ways_kept(m, t, m.cr3, to, n),
        0 <= i < n,
    ensures
        transfer::other_page(t, into, target, i) == transfer::other_page(s, into, target, i),
{
    let va = address::page_above(target, i);
    assert(transfer::way_same(s, m, into, va));
    assert(transfer::avoids_all(m, into, va, m.cr3, to, n)) by {
        assert forall|j: int| 0 <= j < n implies transfer::way_avoids(
            m,
            into,
            va,
            #[trigger] transfer::other_page(m, m.cr3, to, j),
        ) by {
            lemma_text_page(s, m, to, into, target, n, j);
            assert(transfer::way_avoids(s, into, va, transfer::other_page(s, into, target, j)));
        }
    }
    assert(transfer::way_same(m, t, into, va));
}

/// What mounting the two slots does.
proof fn lemma_both_mounted(
    s: MachineState,
    table: u64,
    at: u64,
    context: AllocationRange,
    root: u64,
    n: int,
)
    requires
        has_text(s, root, INFERENCE_VADDR, n),
        has_text(s, table, at, n),
        s.rd(root, entry::table_index(INFERENCE_VADDR, 3)) == context.0,
    ensures
        ({
            let m = inference::both_mounted(s, s.rd(table, entry::table_index(at, 3)), context);
            &&& m.cr3 == s.cr3
            &&& m.c_bit == s.c_bit
            &&& m.mem.len() == s.mem.len()
            &&& is_mounted(s, m, MOUNTED_CONTEXT, root, INFERENCE_VADDR, n)
            &&& is_mounted(s, m, MOUNTED_GUEST, table, at, n)
            &&& forall|pa: u64|
                pa % 4096 == 0 && pa != s.cr3 ==> #[trigger] machine::page_words(m.mem, pa)
                    == machine::page_words(s.mem, pa)
        }),
{
    let g = s.rd(table, entry::table_index(at, 3));
    let a = s.wr(s.cr3, 7, g);
    let b = a.op(MachineOp::FlushTlb);
    let c = b.wr(s.cr3, 6, context.0);
    let m = inference::both_mounted(s, g, context);
    slots::lemma_word_written(s, s.cr3, 7, g);
    slots::lemma_word_written(b, s.cr3, 6, context.0);
    assert(m.mem == c.mem);
    assert(entry::table_index(MOUNTED_CONTEXT, 3) == 6 && entry::table_index(MOUNTED_GUEST, 3)
        == 7);
    assert(c.rd(s.cr3, 7) == b.rd(s.cr3, 7));
    assert(b.rd(s.cr3, 7) == a.rd(s.cr3, 7));
    lemma_way_through(s, a, b, c, m, root, INFERENCE_VADDR, n);
    lemma_way_through(s, a, b, c, m, table, at, n);
    lemma_slot_through(s, a, b, c, m, root, entry::table_index(INFERENCE_VADDR, 3));
    lemma_slot_through(s, a, b, c, m, table, entry::table_index(at, 3));
    assert forall|pa: u64| pa % 4096 == 0 && pa != s.cr3 implies #[trigger] machine::page_words(
        m.mem,
        pa,
    ) == machine::page_words(s.mem, pa) by {
        assert(machine::page_words(a.mem, pa) == machine::page_words(s.mem, pa));
        assert(machine::page_words(c.mem, pa) == machine::page_words(b.mem, pa));
    }
}

proof fn lemma_slot_through(
    s: MachineState,
    a: MachineState,
    b: MachineState,
    c: MachineState,
    m: MachineState,
    root: u64,
    i: int,
)
    requires
        root % 4096 == 0,
        root != s.cr3,
        0 <= i < 512,
        forall|pa: u64, j: int|
            pa % 4096 == 0 && pa != s.cr3 && 0 <= j < 512 ==> #[trigger] a.rd(pa, j) == s.rd(pa, j),
        b.mem == a.mem,
        forall|pa: u64, j: int|
            pa % 4096 == 0 && pa != s.cr3 && 0 <= j < 512 ==> #[trigger] c.rd(pa, j) == b.rd(pa, j),
        m.mem == c.mem,
    ensures
        m.rd(root, i) == s.rd(root, i),
{
    assert(c.rd(root, i) == b.rd(root, i));
    assert(a.rd(root, i) == s.rd(root, i));
}

proof fn lemma_way_through(
    s: MachineState,
    a: MachineState,
    b: MachineState,
    c: MachineState,
    m: MachineState,
    root: u64,
    at: u64,
    n: int,
)
    requires
        delivery::clear_of_monitor(s, root, at, n),
        forall|r: u64, va: u64|
            r % 4096 == 0 && transfer::way_avoids(s, r, va, s.cr3) ==> #[trigger] transfer::way_same(
                s,
                a,
                r,
                va,
            ),
        b.mem == a.mem,
        b.c_bit == a.c_bit,
        forall|r: u64, va: u64|
            r % 4096 == 0 && transfer::way_avoids(b, r, va, s.cr3) ==> #[trigger] transfer::way_same(
                b,
                c,
                r,
                va,
            ),
        m.mem == c.mem,
        m.c_bit == c.c_bit,
    ensures
        forall|i: int|
            0 <= i < n ==> transfer::way_same(s, m, root, #[trigger] address::page_above(at, i)),
{
    assert forall|i: int| 0 <= i < n implies transfer::way_same(
        s,
        m,
        root,
        #[trigger] address::page_above(at, i),
    ) by {
        let va = address::page_above(at, i);
        assert(transfer::way_avoids(s, root, va, s.cr3));
        assert(transfer::way_same(s, a, root, va));
        delivery::lemma_same_memory(a, b, root, va);
        assert(transfer::way_avoids(a, root, va, s.cr3));
        assert(transfer::way_avoids(b, root, va, s.cr3));
        assert(transfer::way_same(b, c, root, va));
        delivery::lemma_same_memory(c, m, root, va);
        delivery::lemma_way_joined(s, a, b, c, root, va);
        delivery::lemma_same_memory(s, s, root, va);
        delivery::lemma_way_joined(s, s, c, m, root, va);
    }
}

/// The guest finds the prompt of a process where it asked for it: each byte, in
/// order. `root` is the root table of the process, `table` that of the guest.
pub proof fn law_guest_finds_the_prompt(
    s: MachineState,
    processes: Seq<TrustedProcess>,
    params: RequestParams,
    table: u64,
    root: u64,
)
    requires
        table == entry::strip(s.c_bit, params.rdx),
        params.r8 % 0x80_0000_0000 == 0,
        params.r9 <= processes[params.rcx as int].infer_context.1 * 4096,
        s.rd(root, entry::table_index(INFERENCE_VADDR, 3)) == processes[params.rcx as int].infer_context.0,
        has_text(s, root, INFERENCE_VADDR, text_pages(params.r9)),
        has_text(s, table, params.r8, text_pages(params.r9)),
        transfer::apart(s, root, INFERENCE_VADDR, table, params.r8, text_pages(params.r9)),
    ensures
        ({
            let (t, answer) = inference::prompt_got(s, processes, params);
            &&& answer == (RequestParams { rcx: params.r9, ..params })
            &&& forall|k: int|
                0 <= k < params.r9 ==> #[trigger] loading::found_byte(
                    t,
                    table,
                    address::addr_add(params.r8, k),
                ) == loading::found_byte(s, root, address::addr_add(INFERENCE_VADDR, k))
        }),
{
    let context = processes[params.rcx as int].infer_context;
    let n = text_pages(params.r9);
    let m = inference::both_mounted(s, s.rd(table, entry::table_index(params.r8, 3)), context);
    lemma_both_mounted(s, table, params.r8, context, root, n);
    lemma_text_moved(
        s,
        m,
        MOUNTED_CONTEXT,
        root,
        INFERENCE_VADDR,
        MOUNTED_GUEST,
        table,
        params.r8,
        params.r9,
    );
}

/// A process finds the answer of the guest in the memory that it shares for
/// inference: each byte, in order.
pub proof fn law_process_finds_the_answer(
    s: MachineState,
    processes: Seq<TrustedProcess>,
    params: RequestParams,
    table: u64,
    root: u64,
)
    requires
        table == params.rdx,
        params.r8 % 0x80_0000_0000 == 0,
        params.r9 <= processes[params.rcx as int].infer_context.1 * 4096,
        s.rd(root, entry::table_index(INFERENCE_VADDR, 3)) == processes[params.rcx as int].infer_context.0,
        has_text(s, root, INFERENCE_VADDR, text_pages(params.r9)),
        has_text(s, table, params.r8, text_pages(params.r9)),
        transfer::apart(s, table, params.r8, root, INFERENCE_VADDR, text_pages(params.r9)),
    ensures
        ({
            let (t, answer) = inference::response_stored(s, processes, params);
            &&& answer == (RequestParams { rcx: params.r9, ..params })
            &&& forall|k: int|
                0 <= k < params.r9 ==> #[trigger] loading::found_byte(
                    t,
                    root,
                    address::addr_add(INFERENCE_VADDR, k),
                ) == loading::found_byte(s, table, address::addr_add(params.r8, k))
        }),
{
    let context = processes[params.rcx as int].infer_context;
    let n = text_pages(params.r9);
    let m = inference::both_mounted(s, s.rd(table, entry::table_index(params.r8, 3)), context);
    lemma_both_mounted(s, table, params.r8, context, root, n);
    lemma_text_moved(
        s,
        m,
        MOUNTED_GUEST,
        table,
        params.r8,
        MOUNTED_CONTEXT,
        root,
        INFERENCE_VADDR,
        params.r9,
    );
}

/// Texts that do not fit what the process shares, or go to a place that is not
/// the start of a slot, are copied nowhere: no page but the root table of the
/// monitor is changed.
pub proof fn law_refused_texts_go_nowhere(
    s: MachineState,
    params: RequestParams,
    table: u64,
    context: AllocationRange,
    from: u64,
    to: u64,
    pa: u64,
)
    requires
        params.r8 % 0x80_0000_0000 != 0 || params.r9 > context.1 * 4096,
        s.cr3 % 4096 == 0,
        s.cr3 as int / 8 + 512 <= s.mem.len(),
        pa % 4096 == 0,
        pa != s.cr3,
    ensures
        ({
            let (t, answer) = inference::text_copied(s, params, table, context, from, to);
            &&& machine::page_words(t.mem, pa) == machine::page_words(s.mem, pa)
            &&& answer.rcx >= 0x8000_0000_0000_0000
            &&& params.r8 % 0x80_0000_0000 != 0 ==> t == s
        }),
{
    let g = s.rd(table, entry::table_index(params.r8, 3));
    let a = s.wr(s.cr3, 7, g);
    let b = a.op(MachineOp::FlushTlb);
    slots::lemma_word_written(s, s.cr3, 7, g);
    slots::lemma_word_written(b, s.cr3, 6, context.0);
    assert(machine::page_words(a.mem, pa) == machine::page_words(s.mem, pa));
    assert(machine::page_words(b.wr(s.cr3, 6, context.0).mem, pa) == machine::page_words(b.mem, pa));
}

} // verus!
