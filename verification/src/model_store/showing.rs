//! What the guest and processes find of the ranges that are shown to them.
use vstd::prelude::*;
use crate::address;
use crate::memory::machine;
use crate::memory::machine::{MachineOp, MachineState};
use crate::model_store;
use crate::model_store::store::StoreEntry;
use crate::model_store::stream;
use crate::model_store::stream::{Stream, INITIAL_PAGES};
use crate::process_manager::allocation;
use crate::process_manager::allocation::{AllocationRange, ALLOCATION_RANGE_VIRT_START};
use crate::process_manager::process_paging::balance;
use crate::process_manager::process_paging::delivery;
use crate::process_manager::process_paging::entry;
use crate::process_manager::process_paging::isolation;
use crate::process_manager::process_paging::ranges;
use crate::process_manager::process_paging::slots;
use crate::process_manager::process_paging::soundness;
use crate::process_manager::process_paging::transfer;
use crate::process_manager::process_paging::walk;
use crate::process_runtime::process::model;
use crate::process_runtime::process::model::MODEL_CHANNEL_VADDR;
use crate::process_runtime::runtime;
use crate::process_runtime::PALContext;
use crate::sev::utils::{VMPL1_READ, VMPL1_RWX, VMPL2_READ, VMPL2_RWX};
use crate::RequestParams;

verus! {

/// Where the guest has what is in the second slot of its root table.
pub const GUEST_RANGE_VADDR: u64 = 0x80_0000_0000;

/// Whether all that is known of a range below an entry is found through a slot:
/// wherever another root table has that range, the slot leads to the same pages.
pub open spec fn leads_to(
    s: MachineState,
    t: MachineState,
    root: u64,
    at: u64,
    range: AllocationRange,
) -> bool {
    forall|other: u64, bt: u64, i: int|
        delivery::has_range(s, range, other, bt, range.1 as int) && other != root && 0 <= i
            < range.1 && transfer::way_avoids(s, other, address::page_above(bt, i), root)
            ==> walk::leaf_below(t, root, address::page_above(at, i), 3) == #[trigger] walk::leaf_below(
            s,
            other,
            address::page_above(bt, i),
            3,
        )
}

/// A slot that was given the entry of a range leads to the range.
proof fn lemma_leads(s: MachineState, root: u64, at: u64, range: AllocationRange)
    requires
        root % 4096 == 0,
        root as int / 8 + 512 <= s.mem.len(),
        at % 0x80_0000_0000 == 0,
    ensures
        leads_to(s, s.wr(root, entry::table_index(at, 3), range.0), root, at, range),
{
    let t = s.wr(root, entry::table_index(at, 3), range.0);
    assert forall|other: u64, bt: u64, i: int|
        delivery::has_range(s, range, other, bt, range.1 as int) && other != root && 0 <= i
            < range.1 && transfer::way_avoids(s, other, address::page_above(bt, i), root) implies walk::leaf_below(
        t,
        root,
        address::page_above(at, i),
        3,
    ) == #[trigger] walk::leaf_below(s, other, address::page_above(bt, i), 3) by {
        slots::lemma_slot_given(s, root, at, other, bt, i);
    }
}

/// Instructions change nothing that is found.
proof fn lemma_leads_later(
    s: MachineState,
    a: MachineState,
    t: MachineState,
    root: u64,
    at: u64,
    range: AllocationRange,
)
    requires
        a.mem == s.mem,
        a.c_bit == s.c_bit,
        a.cr3 == s.cr3,
        leads_to(a, t, root, at, range),
    ensures
        leads_to(s, t, root, at, range),
{
    assert forall|other: u64, bt: u64, i: int|
        delivery::has_range(s, range, other, bt, range.1 as int) && other != root && 0 <= i
            < range.1 && transfer::way_avoids(s, other, address::page_above(bt, i), root) implies walk::leaf_below(
        t,
        root,
        address::page_above(at, i),
        3,
    ) == #[trigger] walk::leaf_below(s, other, address::page_above(bt, i), 3) by {
        delivery::lemma_same_memory(s, a, other, address::page_above(bt, i));
        lemma_same_range_there(s, a, range, other, bt);
    }
}

proof fn lemma_same_range_there(
    s: MachineState,
    a: MachineState,
    range: AllocationRange,
    other: u64,
    bt: u64,
)
    requires
        a.mem == s.mem,
        a.c_bit == s.c_bit,
        a.cr3 == s.cr3,
        delivery::has_range(s, range, other, bt, range.1 as int),
    ensures
        delivery::has_range(a, range, other, bt, range.1 as int),
{
    assert forall|i: int| 0 <= i < range.1 implies transfer::way_avoids(
        a,
        other,
        #[trigger] address::page_above(bt, i),
        a.cr3,
    ) && walk::leaf_below(a, other, address::page_above(bt, i), 3) is Some by {
        delivery::lemma_same_memory(s, a, other, address::page_above(bt, i));
    }
    assert forall|i: int| 0 <= i < range.1 implies #[trigger] transfer::other_page(a, other, bt, i)
        != a.cr3 by {
        delivery::lemma_same_memory(s, a, other, address::page_above(bt, i));
        assert(transfer::other_page(s, other, bt, i) != s.cr3);
    }
}

/// A slot that was cleared leads nowhere.
proof fn lemma_leads_nowhere(s: MachineState, root: u64, at: u64, i: int)
    requires
        root % 4096 == 0,
        root as int / 8 + 512 <= s.mem.len(),
        at % 0x80_0000_0000 == 0,
        0 <= i < 0x800_0000,
    ensures
        walk::leaf_below(
            s.wr(root, entry::table_index(at, 3), 0),
            root,
            address::page_above(at, i),
            3,
        ) is None,
{
    slots::lemma_word_written(s, root, entry::table_index(at, 3), 0);
    delivery::lemma_slot_page(at, i);
    entry::lemma_empty();
}

/// The guest finds an entry of a store in the slot that it asked for: the pages
/// are those of the entry, and the answer is its size. Nothing else is changed. A
/// request that names no entry or no slot changes nothing, and its answer is 0.
pub proof fn law_guest_finds_what_is_shown(
    s: MachineState,
    entries: Seq<StoreEntry>,
    params: RequestParams,
    at: u64,
)
    requires
        params.rdx % 4096 == 0,
        params.rdx as int / 8 + 512 <= s.mem.len(),
        at % 0x80_0000_0000 == 0,
        at as int / 0x80_0000_0000 % 512 == params.r8 as int || params.r8 >= 512,
    ensures
        ({
            let (t, answer) = model_store::shown(s, entries, params);
            let known = params.rcx < entries.len() && !entries[params.rcx as int].state
                && params.r8 < 512;
            let e = entries[params.rcx as int];
            if known {
                &&& leads_to(s, t, params.rdx, at, e.data)
                &&& answer.rcx == e.real_size
                &&& forall|pa: u64|
                    pa % 4096 == 0 && pa != params.rdx ==> #[trigger] machine::page_words(t.mem, pa)
                        == machine::page_words(s.mem, pa)
            } else {
                t == s && answer.rcx == 0
            }
        }),
{
    if model_store::entry_at(entries, params.rcx) is Some && params.r8 < 512 {
        let e = entries[params.rcx as int];
        assert(entry::table_index(at, 3) == params.r8);
        lemma_leads(s, params.rdx, at, e.data);
        slots::lemma_word_written(s, params.rdx, params.r8 as int, e.data.0);
    }
}

/// The guest finds the memory that a process shares for inference, and may write
/// to each of its pages.
pub proof fn law_guest_finds_the_shared_memory(
    s: MachineState,
    range: AllocationRange,
    guest: u64,
)
    requires
        guest % 4096 == 0,
        guest as int / 8 + 512 <= s.mem.len(),
    ensures
        ({
            let t = runtime::context_shown(s, range, guest);
            &&& leads_to(s, t, guest, GUEST_RANGE_VADDR, range)
            &&& forall|i: int|
                0 <= i < range.1 ==> t.ops.contains(
                    #[trigger] may(s, i, VMPL2_RWX),
                )
        }),
{
    let a = allocation::asked(s, allocation::range_table_ops(s, range, VMPL2_RWX));
    let b = allocation::pages_asked(a, 0, range.1 as nat, VMPL2_RWX);
    let t = runtime::context_shown(s, range, guest);
    assert(entry::table_index(GUEST_RANGE_VADDR, 3) == 1);
    lemma_leads(b, guest, GUEST_RANGE_VADDR, range);
    lemma_leads_later(s, b, t, guest, GUEST_RANGE_VADDR, range);
    lemma_pages_asked(s, a, range.1 as nat, VMPL2_RWX);
}

/// The instruction that gives rights to the page that the monitor has at page `i`
/// of where it mounts ranges.
pub open spec fn may(s: MachineState, i: int, flags: u64) -> MachineOp {
    let vaddr = address::page_above(ALLOCATION_RANGE_VIRT_START, i);
    MachineOp::AdjustMounted { vaddr, page: walk::mounted(s, vaddr), flags }
}

proof fn lemma_pages_asked(s: MachineState, a: MachineState, n: nat, flags: u64)
    requires
        a.mem == s.mem,
        a.c_bit == s.c_bit,
        a.cr3 == s.cr3,
    ensures
        forall|i: int|
            0 <= i < n ==> allocation::pages_asked(a, 0, n, flags).ops.contains(
                #[trigger] may(s, i, flags),
            ),
{
    let b = allocation::pages_asked(a, 0, n, flags);
    assert forall|i: int| 0 <= i < n implies b.ops.contains(#[trigger] may(s, i, flags)) by {
        let va = address::page_above(ALLOCATION_RANGE_VIRT_START, i);
        delivery::lemma_same_memory(s, a, s.cr3, va);
        assert(b.ops[a.ops.len() + i] == may(s, i, flags));
    }
}

/// The memory that a process shares for inference is out of the guest's sight,
/// and the guest may only read its pages.
pub proof fn law_hidden_memory_is_not_found(
    s: MachineState,
    range: AllocationRange,
    guest: u64,
)
    requires
        guest % 4096 == 0,
        guest as int / 8 + 512 <= s.mem.len(),
    ensures
        ({
            let t = runtime::context_hidden(s, range, guest);
            &&& forall|i: int|
                0 <= i < 0x800_0000 ==> walk::leaf_below(
                    t,
                    guest,
                    #[trigger] address::page_above(GUEST_RANGE_VADDR, i),
                    3,
                ) is None
            &&& forall|i: int|
                0 <= i < range.1 ==> t.ops.contains(
                    #[trigger] may(s, i, VMPL2_READ),
                )
        }),
{
    let b = allocation::pages_asked(s, 0, range.1 as nat, VMPL2_READ);
    let t = runtime::context_hidden(s, range, guest);
    assert(entry::table_index(GUEST_RANGE_VADDR, 3) == 1);
    lemma_pages_asked(s, s, range.1 as nat, VMPL2_READ);
    assert forall|i: int| 0 <= i < 0x800_0000 implies walk::leaf_below(
        t,
        guest,
        #[trigger] address::page_above(GUEST_RANGE_VADDR, i),
        3,
    ) is None by {
        lemma_leads_nowhere(b, guest, GUEST_RANGE_VADDR, i);
    }
}

/// The guest sees a load that is sealed no more, and may only read each of its
/// pages, which are those below the entry of the load.
pub proof fn law_sealed_load_is_not_found(s: MachineState, e: StoreEntry, guest: u64)
    requires
        guest % 4096 == 0,
        guest as int / 8 + 512 <= s.mem.len(),
    ensures
        ({
            let t = model_store::load_sealed(s, e, guest);
            &&& forall|i: int|
                0 <= i < 0x800_0000 ==> walk::leaf_below(
                    t,
                    guest,
                    #[trigger] address::page_above(GUEST_RANGE_VADDR, i),
                    3,
                ) is None
            &&& forall|other: u64, bt: u64, i: int|
                delivery::has_range(s, e.data, other, bt, e.data.1 as int) && 0 <= i < e.data.1
                    ==> t.ops.contains(
                    MachineOp::AdjustMounted {
                        vaddr: address::page_above(ALLOCATION_RANGE_VIRT_START, i),
                        page: Some(#[trigger] transfer::other_page(s, other, bt, i)),
                        flags: VMPL2_READ,
                    },
                )
        }),
{
    let n = e.data.1 as nat;
    let a = allocation::mount_entry(s, e.data.0);
    let b = allocation::pages_asked(a, 0, n, VMPL2_READ);
    let t = model_store::load_sealed(s, e, guest);
    assert(entry::table_index(GUEST_RANGE_VADDR, 3) == 1);
    assert forall|i: int| 0 <= i < 0x800_0000 implies walk::leaf_below(
        t,
        guest,
        #[trigger] address::page_above(GUEST_RANGE_VADDR, i),
        3,
    ) is None by {
        lemma_leads_nowhere(b, guest, GUEST_RANGE_VADDR, i);
    }
    lemma_pages_asked(a, a, n, VMPL2_READ);
    assert forall|other: u64, bt: u64, i: int|
        delivery::has_range(s, e.data, other, bt, e.data.1 as int) && 0 <= i < e.data.1 implies t.ops.contains(
        MachineOp::AdjustMounted {
            vaddr: address::page_above(ALLOCATION_RANGE_VIRT_START, i),
            page: Some(#[trigger] transfer::other_page(s, other, bt, i)),
            flags: VMPL2_READ,
        },
    ) by {
        lemma_mounted_right(s, e.data, other, bt, i, VMPL2_READ);
        assert(b.ops.contains(may(a, i, VMPL2_READ)));
    }
}

proof fn lemma_mounted_right(
    s: MachineState,
    range: AllocationRange,
    other: u64,
    bt: u64,
    i: int,
    flags: u64,
)
    requires
        delivery::has_range(s, range, other, bt, range.1 as int),
        0 <= i < range.1,
    ensures
        may(allocation::mount_entry(s, range.0), i, flags) == (MachineOp::AdjustMounted {
            vaddr: address::page_above(ALLOCATION_RANGE_VIRT_START, i),
            page: Some(transfer::other_page(s, other, bt, i)),
            flags,
        }),
{
    delivery::lemma_mounted_range(s, range, other, bt, range.1 as int, i);
    assert(walk::leaf_below(s, other, address::page_above(bt, i), 3) is Some);
}

/// A process that asks for a model finds it: the pages are those of the model,
/// which the process may read, and the answer is its size and its address. Where
/// there is no such model the size is 0, and nothing is changed.
pub proof fn law_process_finds_the_model(
    ctx: PALContext,
    s: MachineState,
    models: Seq<StoreEntry>,
)
    requires
        ctx.vmsa.cr3 % 4096 == 0,
        ctx.vmsa.cr3 as int / 8 + 512 <= s.mem.len(),
        entry::strip(s.c_bit, ctx.vmsa.cr3) == ctx.vmsa.cr3,
        ctx.vmsa.cr3 != s.cr3,
    ensures
        ({
            let (after, t) = ctx.model_served(s, models);
            let root = ctx.vmsa.cr3;
            let known = ctx.vmsa.rbx < models.len() && !models[ctx.vmsa.rbx as int].state;
            let e = models[ctx.vmsa.rbx as int];
            &&& after == (PALContext { vmsa: after.vmsa, ..ctx })
            &&& after.vmsa.rdx == MODEL_CHANNEL_VADDR
            &&& if known {
                &&& after.vmsa.rcx == e.real_size
                &&& forall|other: u64, bt: u64, i: int|
                    delivery::has_range(s, e.data, other, bt, e.data.1 as int) && other != root && 0
                        <= i < e.data.1 && transfer::way_avoids(
                        s,
                        other,
                        address::page_above(bt, i),
                        root,
                    ) ==> #[trigger] model_found(s, t, root, other, bt, i)
            } else {
                t == s && after.vmsa.rcx == 0
            }
        }),
{
    let (after, t) = ctx.model_served(s, models);
    let root = ctx.vmsa.cr3;
    if model_store::entry_at(models, ctx.vmsa.rbx) is Some {
        let e = models[ctx.vmsa.rbx as int];
        assert forall|other: u64, bt: u64, i: int|
            delivery::has_range(s, e.data, other, bt, e.data.1 as int) && other != root && 0 <= i
                < e.data.1 && transfer::way_avoids(s, other, address::page_above(bt, i), root) implies #[trigger] model_found(
            s,
            t,
            root,
            other,
            bt,
            i,
        ) by {
            lemma_model_found(s, root, e, other, bt, i);
        }
    }
}

/// Whether a process finds the page that another root table leads to as page `i`
/// of a model, and may read it.
pub open spec fn model_found(
    s: MachineState,
    t: MachineState,
    root: u64,
    other: u64,
    bt: u64,
    i: int,
) -> bool {
    &&& walk::leaf_below(t, root, address::page_above(MODEL_CHANNEL_VADDR, i), 3)
        == walk::leaf_below(s, other, address::page_above(bt, i), 3)
    &&& t.ops.contains(
        MachineOp::AdjustMounted {
            vaddr: address::page_above(ALLOCATION_RANGE_VIRT_START, i),
            page: Some(transfer::other_page(s, other, bt, i)),
            flags: VMPL1_READ,
        },
    )
}

proof fn lemma_model_found(
    s: MachineState,
    root: u64,
    e: StoreEntry,
    other: u64,
    bt: u64,
    i: int,
)
    requires
        root % 4096 == 0,
        root as int / 8 + 512 <= s.mem.len(),
        entry::strip(s.c_bit, root) == root,
        root != s.cr3,
        delivery::has_range(s, e.data, other, bt, e.data.1 as int),
        other != root,
        0 <= i < e.data.1,
        transfer::way_avoids(s, other, address::page_above(bt, i), root),
    ensures
        model_found(
            s,
            model::model_given(s, root, e),
            root,
            other,
            bt,
            i,
        ),
{
    let n = e.data.1 as nat;
    let va = address::page_above(bt, i);
    let a = allocation::asked(s, allocation::range_table_ops(s, e.data, VMPL1_RWX));
    let b = allocation::mount_entry(a, e.data.0);
    let c = allocation::pages_asked(b, 0, n, VMPL1_READ);
    let d = allocation::mount_entry(c, 0);
    let t = d.wr(root, 8, e.data.0);
    lemma_same_range_there(s, a, e.data, other, bt);
    lemma_pages_asked(b, b, n, VMPL1_READ);
    lemma_mounted_right(a, e.data, other, bt, i, VMPL1_READ);
    delivery::lemma_same_memory(s, a, other, va);
    assert(c.ops.contains(may(b, i, VMPL1_READ)));
    let k = choose|k: int| 0 <= k < c.ops.len() && c.ops[k] == may(b, i, VMPL1_READ);
    assert(t.ops[k] == may(b, i, VMPL1_READ));
    delivery::lemma_mount_keeps(a, e.data.0);
    assert(transfer::way_avoids(a, other, va, s.cr3));
    assert(transfer::way_same(a, b, other, va));
    assert(transfer::way_avoids(b, other, va, s.cr3));
    delivery::lemma_same_memory(b, c, other, va);
    assert(transfer::way_avoids(c, other, va, s.cr3));
    delivery::lemma_mount_keeps(c, 0);
    assert(transfer::way_same(c, d, other, va));
    assert(transfer::way_avoids(a, other, va, root));
    assert(transfer::way_avoids(b, other, va, root));
    assert(transfer::way_avoids(c, other, va, root));
    assert(transfer::way_avoids(d, other, va, root));
    let slot = entry::table_index(bt, 3);
    assert(0 <= slot < 512);
    assert(d.rd(other, slot) == e.data.0) by {
        assert(a.rd(other, slot) == e.data.0);
        assert(b.rd(other, slot) == a.rd(other, slot));
        assert(c.rd(other, slot) == b.rd(other, slot));
        assert(d.rd(other, slot) == c.rd(other, slot));
    }
    assert(entry::table_index(MODEL_CHANNEL_VADDR, 3) == 8);
    slots::lemma_slot_given(d, root, MODEL_CHANNEL_VADDR, other, bt, i);
}

/// A range that the monitor has just made is found by the guest, once its root
/// table got the entry of it and the monitor unmounted it.
proof fn lemma_handed_to_guest(b: MachineState, u: MachineState, guest: u64, i: int)
    requires
        soundness::sound(b, b.cr3),
        u == (MachineState { ops: u.ops, ..b }),
        guest % 4096 == 0,
        guest as int / 8 + 512 <= b.mem.len(),
        !soundness::is_table(b, b.cr3, guest),
        0 <= i < 0x800_0000,
    ensures
        ({
            let t = allocation::mount_entry(u.wr(guest, 1, b.rd(b.cr3, 6)), 0);
            walk::leaf_below(t, guest, address::page_above(GUEST_RANGE_VADDR, i), 3)
                == walk::leaf_below(
                b,
                b.cr3,
                address::page_above(ALLOCATION_RANGE_VIRT_START, i),
                3,
            )
        }),
{
    let root = b.cr3;
    let at = GUEST_RANGE_VADDR;
    let bt = ALLOCATION_RANGE_VIRT_START;
    let va = address::page_above(at, i);
    let vb = address::page_above(bt, i);
    let e = b.rd(root, 6);
    let w = u.wr(guest, 1, e);
    let t = allocation::mount_entry(w, 0);
    assert(soundness::reach(b, root, vb, 3) && soundness::tab(b, root, vb, 3) == root);
    assert(soundness::is_page(b, root));
    assert(guest != root);
    assert(entry::table_index(at, 3) == 1 && entry::table_index(bt, 3) == 6);
    ranges::lemma_op_keeps(b, u, root);
    assert(!soundness::is_table(u, root, guest)) by {
        if soundness::is_table(u, root, guest) {
            let (vc, l) = choose|vc: u64, l: int|
                0 <= l <= 3 && #[trigger] soundness::reach(u, root, vc, l) && soundness::tab(
                    u,
                    root,
                    vc,
                    l,
                ) == guest;
            assert(soundness::reach(u, root, vc, l) == soundness::reach(b, root, vc, l));
            assert(soundness::reach(b, root, vc, l));
        }
    }
    assert(transfer::way_avoids(u, root, vb, guest));
    slots::lemma_slot_given(u, guest, at, root, bt, i);
    lemma_below_the_root(u, w, root, guest, e);
    assert(w.rd(root, 6) == e && w.rd(guest, 1) == e) by {
        slots::lemma_word_written(u, guest, 1, e);
    }
    slots::lemma_same_tables(w, guest, at, root, bt, i, root);
    delivery::lemma_mount_keeps(w, 0);
    assert(transfer::way_same(w, t, guest, va));
}

proof fn lemma_below_the_root(u: MachineState, w: MachineState, root: u64, guest: u64, e: u64)
    requires
        soundness::sound(u, root),
        w == u.wr(guest, 1, e),
        guest % 4096 == 0,
        guest as int / 8 + 512 <= u.mem.len(),
        !soundness::is_table(u, root, guest),
    ensures
        forall|va: u64, l: int|
            0 <= l <= 2 && #[trigger] soundness::reach(w, root, va, l) ==> soundness::tab(
                w,
                root,
                va,
                l,
            ) != root,
{
    slots::lemma_word_written(u, guest, 1, e);
    assert(soundness::pool_sound(w)) by {
        assert forall|pa: u64|
            pa % 4096 == 0 && #[trigger] soundness::in_region(
                w.pool,
                pa,
            ) implies soundness::is_page(w, pa) by {
            assert(soundness::in_region(u.pool, pa));
        }
    }
    assert(isolation::outside(u, w, guest));
    isolation::lemma_untouched(u, w, root, guest);
    assert forall|va: u64, l: int| 0 <= l <= 2 && #[trigger] soundness::reach(w, root, va, l) implies soundness::tab(
        w,
        root,
        va,
        l,
    ) != root by {
        assert(soundness::reach(w, root, va, 3) && soundness::tab(w, root, va, 3) == root);
    }
}

/// A load that was started is found by the guest in the second slot of its root
/// table: as many pages as the load needs, or as it starts with, each a fresh one
/// of its own, which the guest may write to. The load knows how far they reach.
pub proof fn law_started_load_is_found(
    s: MachineState,
    st: Stream,
    size: u64,
    guest: u64,
    now: u64,
)
    requires
        soundness::sound(s, s.cr3),
        0 < size,
        stream::pages_for(size) + 1 < s.pool.available_word(),
        s.pool.available() >= balance::range_cost(
            stream::least(stream::pages_for(size), INITIAL_PAGES as int),
        ),
        guest % 4096 == 0,
        guest as int / 8 + 512 <= s.mem.len(),
        !soundness::in_pool(s.pool, guest),
        !soundness::is_table(s, s.cr3, guest),
    ensures
        ({
            let (t, begun, range) = model_store::load_started(s, st, size, guest, now);
            &&& range.1 * 4096 >= size || range.1 == INITIAL_PAGES
            &&& (range.1 - 1) * 4096 < size
            &&& begun.active
            &&& begun.total == size
            &&& begun.range_pages == range.1
            &&& begun.watermark <= range.1 * 4096
            &&& begun.watermark == size || begun.watermark == range.1 * 4096
            &&& begun.watermark <= size
            &&& forall|i: int|
                0 <= i < range.1 ==> #[trigger] page_to_write(s, t, guest, i)
            &&& forall|i: int, j: int|
                0 <= i < range.1 && 0 <= j < range.1 && i != j ==> #[trigger] transfer::other_page(
                    t,
                    guest,
                    GUEST_RANGE_VADDR,
                    i,
                ) != #[trigger] transfer::other_page(t, guest, GUEST_RANGE_VADDR, j)
        }),
{
    let n = stream::least(stream::pages_for(size), INITIAL_PAGES as int) as u64;
    let (b, range) = allocation::range_for_guest(s, n);
    let a = allocation::asked(b, allocation::range_table_ops(b, range, VMPL2_RWX));
    let u = allocation::pages_asked(a, 0, n as nat, VMPL2_RWX);
    let t = model_store::load_started(s, st, size, guest, now).0;
    let root = s.cr3;
    balance::lemma_range_for_guest(s, n);
    assert(!soundness::is_table(b, root, guest)) by {
        if soundness::is_table(b, root, guest) {
            assert(soundness::is_table(s, root, guest) || soundness::in_pool(s.pool, guest));
        }
    }
    lemma_pages_asked(b, a, n as nat, VMPL2_RWX);
    assert forall|i: int| 0 <= i < n implies #[trigger] transfer::other_page(
        t,
        guest,
        GUEST_RANGE_VADDR,
        i,
    ) == transfer::other_page(b, root, ALLOCATION_RANGE_VIRT_START, i) by {
        lemma_handed_to_guest(b, u, guest, i);
    }
    assert forall|i: int| 0 <= i < n implies #[trigger] page_to_write(s, t, guest, i) by {
        let vaddr = address::page_above(ALLOCATION_RANGE_VIRT_START, i);
        let f = transfer::other_page(b, root, ALLOCATION_RANGE_VIRT_START, i);
        assert(transfer::other_page(t, guest, GUEST_RANGE_VADDR, i) == f);
        assert(walk::leaf_below(b, root, vaddr, 3) is Some);
        assert(u.ops.contains(may(b, i, VMPL2_RWX)));
        let k = choose|k: int| 0 <= k < u.ops.len() && u.ops[k] == may(b, i, VMPL2_RWX);
        assert(t.ops[k] == may(b, i, VMPL2_RWX));
    }
    assert forall|i: int, j: int| 0 <= i < n && 0 <= j < n && i != j implies #[trigger] transfer::other_page(
        t,
        guest,
        GUEST_RANGE_VADDR,
        i,
    ) != #[trigger] transfer::other_page(t, guest, GUEST_RANGE_VADDR, j) by {
        assert(transfer::other_page(b, root, ALLOCATION_RANGE_VIRT_START, i)
            != transfer::other_page(b, root, ALLOCATION_RANGE_VIRT_START, j));
    }
}

/// Whether the guest finds a fresh page as page `i` of its second slot, and may
/// write to it.
pub open spec fn page_to_write(s: MachineState, t: MachineState, guest: u64, i: int) -> bool {
    let page = transfer::other_page(t, guest, GUEST_RANGE_VADDR, i);
    &&& soundness::in_pool(s.pool, page)
    &&& !soundness::in_pool(t.pool, page)
    &&& t.ops.contains(
        MachineOp::AdjustMounted {
            vaddr: address::page_above(ALLOCATION_RANGE_VIRT_START, i),
            page: Some(page),
            flags: VMPL2_RWX,
        },
    )
}

} // verus!
