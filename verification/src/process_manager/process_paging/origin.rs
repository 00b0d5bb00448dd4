//! How sound pools and page tables come to be.
use vstd::prelude::*;
use crate::memory::machine::MachineState;
use crate::process_manager::process_memory;
use crate::process_manager::process_memory::MemoryRegion;
use crate::process_manager::process_paging::entry;
use crate::process_manager::process_paging::isolation;
use crate::process_manager::process_paging::mapping;
use crate::process_manager::process_paging::ranges;
use crate::process_manager::process_paging::soundness;
use crate::process_manager::process_paging::walk;
use crate::sev::utils::VMPL1_RWX;

verus! {

/// A new page table is sound and has no pages. Page tables that were sound stay
/// so, with all their pages.
pub proof fn law_new_table_is_sound(s: MachineState, other: u64)
    requires
        soundness::pool_sound(s),
        s.pool.available() > 0,
    ensures
        ({
            let (t, root) = mapping::root_made(s);
            &&& soundness::sound(t, root)
            &&& soundness::in_pool(s.pool, root)
            &&& t.pool.available() == s.pool.available() - 1
            &&& forall|va: u64| #[trigger] walk::leaf_below(t, root, va, 3) is None
            &&& soundness::sound(s, other) ==> {
                &&& soundness::sound(t, other)
                &&& other != root
                &&& forall|va: u64| #[trigger]
                    walk::leaf_below(t, other, va, 3) == walk::leaf_below(s, other, va, 3)
            }
        }),
{
    let (u, root) = s.take_page();
    let t = mapping::root_made(s).0;
    soundness::law_taken_page_is_fresh(s);
    assert(t.mem =~= u.mem) by {
        assert forall|k: int| 0 <= k < u.mem.len() implies t.mem[k] == u.mem[k] by {
            let i = k - root as int / 8;
            if 0 <= i < 512 {
                assert(u.rd(root, i) == 0);
            }
        }
    }
    assert(t == u.grant(root, VMPL1_RWX));
    assert forall|i: int| 0 <= i < 512 implies #[trigger] t.rd(root, i) == 0 by {
        assert(u.rd(root, i) == 0);
    }
    lemma_empty_root(t, root);
    assert(soundness::pool_sound(t)) by {
        assert forall|pa: u64|
            pa % 4096 == 0 && #[trigger] soundness::in_region(
                t.pool,
                pa,
            ) implies soundness::is_page(t, pa) by {
            assert(soundness::in_region(u.pool, pa));
        }
    }
    if soundness::sound(s, other) {
        ranges::lemma_take_keeps_tables(s, other);
        ranges::lemma_op_keeps(u, t, other);
        assert(soundness::reach(s, other, 0, 3) && soundness::tab(s, other, 0, 3) == other);
        assert forall|va: u64| #[trigger]
            walk::leaf_below(t, other, va, 3) == walk::leaf_below(s, other, va, 3) by {
            assert(walk::leaf_below(u, other, va, 3) == walk::leaf_below(s, other, va, 3));
        }
    }
}

/// A cleared root table leads nowhere.
proof fn lemma_empty_root(t: MachineState, root: u64)
    requires
        soundness::is_page(t, root),
        !soundness::in_pool(t.pool, root),
        forall|i: int| 0 <= i < 512 ==> #[trigger] t.rd(root, i) == 0,
    ensures
        soundness::tables_kept(t, root),
        soundness::tables_tree(t, root),
        forall|va: u64| #[trigger] walk::leaf_below(t, root, va, 3) is None,
{
    assert(!entry::present(0)) by {
        entry::lemma_empty();
    }
    assert forall|va: u64, l: int| 0 <= l < 3 implies !#[trigger] soundness::reach(t, root, va, l) by {
        if soundness::reach(t, root, va, l) {
            isolation::lemma_reach_up(t, root, va, l, 2);
            assert(t.rd(root, entry::table_index(va, 3)) == 0);
        }
    }
    assert forall|va: u64| #[trigger] walk::leaf_below(t, root, va, 3) is None by {
        soundness::lemma_leaf(t, root, va);
        assert(!soundness::reach(t, root, va, 0));
    }
}

/// The pool that the monitor starts with is sound, as long as the memory that it
/// is made of is there, and entries can hold its addresses.
pub proof fn law_first_pool_is_sound(
    s: MachineState,
    first: MemoryRegion,
    second: MemoryRegion,
    entry: u64,
)
    requires
        process_memory::regions_ok(first, second),
        !s.pool.initilized,
        s.pool.list.len() == 0,
        second.end as int / 8 <= s.mem.len(),
        forall|pa: u64|
            pa % 4096 == 0 && pa < second.end ==> #[trigger] entry::strip(s.c_bit, pa) == pa,
    ensures
        soundness::pool_sound(process_memory::pool_made(s, second, entry)),
        process_memory::pool_made(s, second, entry).pool.available() > 0,
{
    let t = process_memory::pool_made(s, second, entry);
    let total = second.size() - process_memory::ADDITIONAL_GUEST_MEMORY;
    let start = second.start + process_memory::ADDITIONAL_GUEST_MEMORY;
    let n = (process_memory::list_size(total) / 4096) as nat;
    lemma_list_keeps_memory(s.wr(s.cr3, 1, entry), start, n);
    assert(t.mem.len() == s.mem.len() && t.c_bit == s.c_bit);
    assert(t.pool.base > 0);
    assert forall|pa: u64|
        pa % 4096 == 0 && #[trigger] soundness::in_region(t.pool, pa) implies soundness::is_page(
        t,
        pa,
    ) by {
        assert(entry::strip(s.c_bit, pa) == pa);
    }
}

proof fn lemma_list_keeps_memory(s: MachineState, start: int, n: nat)
    ensures
        ({
            let t = process_memory::list_prepared(s, start, n);
            t.mem.len() == s.mem.len() && t.c_bit == s.c_bit
        }),
    decreases n,
{
    if n > 0 {
        lemma_list_keeps_memory(s, start, (n - 1) as nat);
    }
}

} // verus!
