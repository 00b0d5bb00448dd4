//! Takes pages out of a page table, and page tables apart.
use vstd::prelude::*;
use crate::address;
use crate::address::{PhysAddr, VirtAddr};
use crate::memory::machine::{Machine, MachineState};
use crate::process_manager::process_memory::{free_page, PoolState};
use crate::process_manager::process_paging::entry;
use crate::process_manager::process_paging::entry::{
    is_cow, is_present, strip_paddr, ProcessPageTable, PGD, PMD, PTE, PUD,
};
use crate::process_manager::process_paging::walk;
use crate::process_manager::process_paging::walk::ProcessPageTableRef;

verus! {

/// The tables on the way to a page, below the root.
#[derive(Clone, Copy)]
pub struct PagePath {
    pub pud: PhysAddr,
    pub pmd: PhysAddr,
    pub pte: PhysAddr,
}

/// The tables on the way to `va`. Where `last` has those of the page below
/// `va`, only what differs for `va` is looked up.
pub open spec fn page_path(s: MachineState, root: u64, va: u64, last: Option<PagePath>) -> PagePath {
    let pud = if last is Some && (entry::table_index(va, 0) != 0 || entry::table_index(va, 1) != 0
        || entry::table_index(va, 2) != 0) {
        last->0.pud
    } else {
        entry::strip(s.c_bit, walk::entry_in(s, root, va, 3))
    };
    let pmd = if last is Some && (entry::table_index(va, 0) != 0 || entry::table_index(va, 1)
        != 0) {
        last->0.pmd
    } else {
        entry::strip(s.c_bit, walk::entry_in(s, pud, va, 2))
    };
    let pte = if last is Some && entry::table_index(va, 0) != 0 {
        last->0.pte
    } else {
        entry::strip(s.c_bit, walk::entry_in(s, pmd, va, 1))
    };
    PagePath { pud, pmd, pte }
}

/// The machine after `count` pages from `va` on were freed and their entries
/// cleared.
pub open spec fn pages_removed(
    s: MachineState,
    root: u64,
    va: u64,
    count: nat,
    last: Option<PagePath>,
) -> MachineState
    decreases count,
{
    if count == 0 {
        s
    } else {
        let path = page_path(s, root, va, last);
        pages_removed(
            s.release(entry::strip(s.c_bit, walk::entry_in(s, path.pte, va, 0))).wr(
                path.pte,
                entry::table_index(va, 0),
                0,
            ),
            root,
            address::page_above(va, 1),
            (count - 1) as nat,
            Some(path),
        )
    }
}

/// Whether one of the addresses lies in the page at `va`.
pub open spec fn names_page(keep: Seq<u64>, va: int) -> bool {
    exists|a: int| 0 <= a < keep.len() && #[trigger] keep[a] as int % 0x1_0000_0000_0000 / 4096 == va
        / 4096
}

/// The pages that are freed with the first `n` entries of a table at level
/// `lvl`, in their order: first what an entry leads to, then its table. The
/// table covers the addresses from `base` on; pages at the addresses of
/// `keep` are not freed.
pub open spec fn freed_below(
    s: MachineState,
    table: u64,
    lvl: nat,
    base: int,
    keep: Seq<u64>,
    n: nat,
) -> Seq<u64>
    decreases lvl, n,
{
    if n == 0 {
        Seq::empty()
    } else {
        let freed = freed_below(s, table, lvl, base, keep, (n - 1) as nat);
        let e = s.rd(table, n - 1);
        let va = base + (n - 1) * entry::level_span(lvl as int);
        if !entry::present(e) {
            freed
        } else if lvl == 0 {
            if names_page(keep, va) {
                freed
            } else {
                freed.push(entry::strip(s.c_bit, e))
            }
        } else {
            (freed + freed_below(s, entry::strip(s.c_bit, e), (lvl - 1) as nat, va, keep, 512)).push(
                entry::strip(s.c_bit, e),
            )
        }
    }
}

/// The pages that are freed with the first `n` slots of a root table. Slots of
/// `skip` are passed over; so are slots that are copied on write, unless
/// `cow_descend` says that nothing shares them.
pub open spec fn freed_slots(
    s: MachineState,
    root: u64,
    keep: Seq<u64>,
    cow_descend: bool,
    skip: Seq<usize>,
    n: nat,
) -> Seq<u64>
    decreases n,
{
    if n == 0 {
        Seq::empty()
    } else {
        let freed = freed_slots(s, root, keep, cow_descend, skip, (n - 1) as nat);
        let e = s.rd(root, n - 1);
        if !entry::present(e) || skip.contains((n - 1) as usize) || (entry::cow(e)
            && !cow_descend) {
            freed
        } else {
            (freed + freed_below(
                s,
                entry::strip(s.c_bit, e),
                2,
                (n - 1) * 0x80_0000_0000,
                keep,
                512,
            )).push(entry::strip(s.c_bit, e))
        }
    }
}

/// The machine after pages went back into the pool, in their order.
pub open spec fn released(s: MachineState, pages: Seq<u64>) -> MachineState {
    MachineState { pool: PoolState { list: s.pool.list + pages, ..s.pool }, ..s }
}

/// The machine after a page table was taken apart.
pub open spec fn table_deleted(
    s: MachineState,
    root: u64,
    keep: Seq<u64>,
    cow_descend: bool,
    skip: Seq<usize>,
) -> MachineState {
    released(s, freed_slots(s, root, keep, cow_descend, skip, 512).push(root))
}

fn keeps(keep: &Vec<VirtAddr>, va: u64) -> (r: bool)
    ensures
        r == names_page(keep@, va as int),
{
    let mut a: usize = 0;
    while a < keep.len()
        invariant
            a <= keep.len(),
            forall|b: int|
                0 <= b < a ==> #[trigger] keep@[b] as int % 0x1_0000_0000_0000 / 4096 != va as int
                    / 4096,
        decreases keep.len() - a,
    {
        if keep[a] % 0x1_0000_0000_0000 / 4096 == va / 4096 {
            return true;
        }
        a = a + 1;
    }
    false
}

fn skips(skip: &Vec<usize>, slot: usize) -> (r: bool)
    ensures
        r == skip@.contains(slot),
{
    let mut a: usize = 0;
    while a < skip.len()
        invariant
            a <= skip.len(),
            forall|b: int| 0 <= b < a ==> skip@[b] != slot,
        decreases skip.len() - a,
    {
        if skip[a] == slot {
            return true;
        }
        a = a + 1;
    }
    false
}

fn collect_below(
    m: &Machine,
    table: PhysAddr,
    lvl: usize,
    base: u64,
    keep: &Vec<VirtAddr>,
    out: &mut Vec<PhysAddr>,
)
    requires
        lvl <= 2,
        base + 512 * entry::level_span(lvl as int) <= 0x1_0000_0000_0000,
    ensures
        final(out)@ == old(out)@ + freed_below(m@, table, lvl as nat, base as int, keep@, 512),
    decreases lvl,
{
    let span: u64 = if lvl == PTE {
        0x1000
    } else if lvl == PMD {
        0x20_0000
    } else {
        0x4000_0000
    };
    let ghost before = out@;
    let mut i: u64 = 0;
    while i < 512
        invariant
            i <= 512,
            lvl <= 2,
            span == entry::level_span(lvl as int),
            base + 512 * span <= 0x1_0000_0000_0000,
            out@ == before + freed_below(m@, table, lvl as nat, base as int, keep@, i as nat),
        decreases 512 - i,
    {
        proof {
            reveal_with_fuel(freed_below, 2);
            assert(i * span <= 511 * span) by (nonlinear_arith)
                requires
                    i <= 511,
            ;
            assert(i * span + span <= 512 * span) by (nonlinear_arith)
                requires
                    i <= 511,
            ;
        }
        let found = m.read(table, i);
        if is_present(found) {
            let next = strip_paddr(m.c_bit, found);
            let va: u64 = base + i * span;
            if lvl == PTE {
                if !keeps(keep, va) {
                    out.push(next);
                }
            } else {
                collect_below(m, next, lvl - 1, va, keep, out);
                out.push(next);
            }
        }
        i = i + 1;
        assert(out@ =~= before + freed_below(
            m@,
            table,
            lvl as nat,
            base as int,
            keep@,
            i as nat,
        ));
    }
}

impl ProcessPageTableRef {
    /// Frees `size` pages from `start` on and clears their entries.
    pub fn remove_pages(&self, m: &mut Machine, start: VirtAddr, size: u64)
        ensures
            final(m)@ == pages_removed(old(m)@, self.process_page_table, start, size as nat, None),
    {
        let root = self.process_page_table;
        let mut current = start;
        let mut left: u64 = size;
        let mut last: Option<PagePath> = None;
        while left > 0
            invariant
                root == self.process_page_table,
                pages_removed(old(m)@, root, start, size as nat, None) == pages_removed(
                    m@,
                    root,
                    current,
                    left as nat,
                    last,
                ),
            decreases left,
        {
            let pte_idx = ProcessPageTable::index::<PTE>(current);
            let pmd_idx = ProcessPageTable::index::<PMD>(current);
            let pud_idx = ProcessPageTable::index::<PUD>(current);
            let pud = match last {
                Some(path) if pte_idx != 0 || pmd_idx != 0 || pud_idx != 0 => path.pud,
                _ => strip_paddr(
                    m.c_bit,
                    m.read(root, ProcessPageTable::index::<PGD>(current) as u64),
                ),
            };
            let pmd = match last {
                Some(path) if pte_idx != 0 || pmd_idx != 0 => path.pmd,
                _ => strip_paddr(m.c_bit, m.read(pud, pud_idx as u64)),
            };
            let pte = match last {
                Some(path) if pte_idx != 0 => path.pte,
                _ => strip_paddr(m.c_bit, m.read(pmd, pmd_idx as u64)),
            };
            let page = strip_paddr(m.c_bit, m.read(pte, pte_idx as u64));
            free_page(m, page);
            m.write(pte, pte_idx as u64, 0);
            last = Some(PagePath { pud, pmd, pte });
            left = left - 1;
            current = current.wrapping_add(4096);
        }
    }

    /// Frees the page table, with all pages that it maps but those at the
    /// addresses of `keep`. Slots of the root table that are in `skip` belong
    /// to someone else; so do slots that are copied on write, unless
    /// `cow_descend` is set.
    pub fn delete(
        self,
        m: &mut Machine,
        keep: &Vec<VirtAddr>,
        cow_descend: bool,
        skip: &Vec<usize>,
    )
        ensures
            final(m)@ == table_deleted(
                old(m)@,
                self.process_page_table,
                keep@,
                cow_descend,
                skip@,
            ),
    {
        let root = self.process_page_table;
        let mut freed: Vec<PhysAddr> = Vec::new();
        let mut i: u64 = 0;
        while i < 512
            invariant
                i <= 512,
                root == self.process_page_table,
                freed@ == freed_slots(m@, root, keep@, cow_descend, skip@, i as nat),
            decreases 512 - i,
        {
            let found = m.read(root, i);
            if is_present(found) && !skips(skip, i as usize) && (!is_cow(found) || cow_descend) {
                let next = strip_paddr(m.c_bit, found);
                collect_below(m, next, PUD, i * 0x80_0000_0000, keep, &mut freed);
                freed.push(next);
            }
            i = i + 1;
        }
        freed.push(root);
        free_pages(m, &freed);
    }
}

/// Puts pages back into the pool.
pub fn free_pages(m: &mut Machine, pages: &Vec<PhysAddr>)
    ensures
        final(m)@ == released(old(m)@, pages@),
{
    let ghost before = m@;
    let mut i: usize = 0;
    assert(m@ =~= released(before, pages@.take(0)));
    while i < pages.len()
        invariant
            i <= pages.len(),
            m@ == released(before, pages@.take(i as int)),
        decreases pages.len() - i,
    {
        free_page(m, pages[i]);
        i = i + 1;
        assert(pages@.take(i as int) =~= pages@.take(i - 1).push(pages@[i - 1]));
        assert(m@ =~= released(before, pages@.take(i as int)));
    }
    assert(pages@.take(i as int) =~= pages@);
}

} // verus!
