//! Copies on write, and copies of whole page tables.
use vstd::prelude::*;
use crate::address::{PhysAddr, VirtAddr};
use crate::memory::machine::{Machine, MachineState};
use crate::process_manager::process_memory::allocate_page;
use crate::process_manager::process_paging::entry;
use crate::process_manager::process_paging::entry::{
    is_cow, is_present, make_entry, strip_paddr, ProcessPageFlags, ProcessPageTable, PGD, PMD, PTE,
    PUD,
};
use crate::process_manager::process_paging::walk;
use crate::process_manager::process_paging::walk::ProcessPageTableRef;
use crate::sev::utils::VMPL1_RWX;

verus! {

/// The machine after a fresh copy of the page at `source` was made, and that
/// copy.
pub open spec fn copy_fresh(s: MachineState, source: u64) -> (MachineState, u64) {
    let (t, page) = s.take_page();
    (t.grant(page, VMPL1_RWX).copy(page, source), page)
}

/// The machine after the entry for `va` in a table was replaced by a writable
/// one for a fresh copy of `source`, where `e` asks for a copy; and the table
/// that the entry leads to.
pub open spec fn split_table(
    s: MachineState,
    table: u64,
    va: u64,
    lvl: nat,
    e: u64,
    source: u64,
    flags: u64,
) -> (MachineState, u64) {
    if entry::cow(e) {
        let (t, page) = copy_fresh(s, source);
        let u = t.wr(
            table,
            entry::table_index(va, lvl as int),
            entry::entry_word(s.c_bit, page, flags | 0x2),
        );
        (u, entry::strip(s.c_bit, walk::entry_in(u, table, va, lvl)))
    } else {
        (s, source)
    }
}

/// Whether a write to `va` is one that a copy resolves: the page is present,
/// marked, and, for a write by the process, accessible to it.
pub open spec fn cow_applies(s: MachineState, root: u64, va: u64, user_access: bool) -> bool {
    walk::leaf_below(s, root, va, 3) matches Some(e) && entry::cow(e) && (user_access ==> e & 0x4
        == 0x4)
}

/// The machine after the page at `va`, and every marked table on the way, was
/// replaced by a writable copy.
pub open spec fn cow_resolved(s: MachineState, root: u64, va: u64) -> MachineState {
    let pud = walk::entry_in(s, root, va, 3);
    let pud_table = entry::strip(s.c_bit, pud);
    let pmd = walk::entry_in(s, pud_table, va, 2);
    let pmd_table = entry::strip(s.c_bit, pmd);
    let pte = walk::entry_in(s, pmd_table, va, 1);
    let pte_table = entry::strip(s.c_bit, pte);
    let page = walk::entry_in(s, pte_table, va, 0);
    let (s0, copy) = copy_fresh(s, page & 0x0000_FFFF_FFFF_F000);
    let (s3, own_pud) = split_table(s0, root, va, 3, pud, pud_table, entry::flags_of(pud));
    let (s2, own_pmd) = split_table(s3, own_pud, va, 2, pmd, pmd_table, entry::flags_of(pmd));
    let (s1, own_pte) = split_table(s2, own_pmd, va, 1, pte, pte_table, entry::flags_of(pmd));
    s1.wr(
        own_pte,
        entry::table_index(va, 0),
        entry::entry_word(s.c_bit, copy, entry::flags_of(page) | 0x2),
    )
}

fn copy_to_fresh_page(m: &mut Machine, source: PhysAddr) -> (r: PhysAddr)
    ensures
        (final(m)@, r) == copy_fresh(old(m)@, source),
{
    let page = allocate_page(m);
    m.grant(page, VMPL1_RWX);
    m.copy_page(page, source);
    page
}

fn split_cow_table(
    m: &mut Machine,
    table: PhysAddr,
    va: VirtAddr,
    lvl: usize,
    e: u64,
    source: PhysAddr,
    flags: u64,
) -> (r: PhysAddr)
    requires
        lvl <= 3,
    ensures
        (final(m)@, r) == split_table(old(m)@, table, va, lvl as nat, e, source, flags),
{
    if is_cow(e) {
        let index = ProcessPageTable::index_arg(lvl, va) as u64;
        let page = copy_to_fresh_page(m, source);
        m.write(table, index, make_entry(m.c_bit, page, flags | ProcessPageFlags::WRITABLE));
        strip_paddr(m.c_bit, m.read(table, index))
    } else {
        source
    }
}

impl ProcessPageTableRef {
    /// Resolves a write to a page that is copied on write: the page and the
    /// marked tables on the way to it are replaced by copies. Gives `false`,
    /// and changes nothing, where the write is no such write.
    pub fn handle_cow(&mut self, m: &mut Machine, addr: VirtAddr, user_access: bool) -> (r: bool)
        ensures
            *final(self) == *old(self),
            r == cow_applies(old(m)@, old(self).process_page_table, addr, user_access),
            final(m)@ == (if r {
                cow_resolved(old(m)@, old(self).process_page_table, addr)
            } else {
                old(m)@
            }),
    {
        proof {
            reveal_with_fuel(walk::leaf_below, 4);
        }
        let root = self.process_page_table;
        let pud = m.read(root, ProcessPageTable::index::<PGD>(addr) as u64);
        if !is_present(pud) {
            return false;
        }
        let pud_table = strip_paddr(m.c_bit, pud);
        let pmd = m.read(pud_table, ProcessPageTable::index::<PUD>(addr) as u64);
        if !is_present(pmd) {
            return false;
        }
        let pmd_table = strip_paddr(m.c_bit, pmd);
        let pte = m.read(pmd_table, ProcessPageTable::index::<PMD>(addr) as u64);
        if !is_present(pte) {
            return false;
        }
        let pte_table = strip_paddr(m.c_bit, pte);
        let page = m.read(pte_table, ProcessPageTable::index::<PTE>(addr) as u64);
        if !is_present(page) {
            return false;
        }
        if !is_cow(page) {
            return false;
        }
        if user_access && page & ProcessPageFlags::USER_ACCESSIBLE
            != ProcessPageFlags::USER_ACCESSIBLE {
            return false;
        }
        let all = ProcessPageFlags::ALL;
        let copy = copy_to_fresh_page(m, page & 0x0000_FFFF_FFFF_F000);
        let own_pud = split_cow_table(m, root, addr, PGD, pud, pud_table, pud & all);
        let own_pmd = split_cow_table(m, own_pud, addr, PUD, pmd, pmd_table, pmd & all);
        let own_pte = split_cow_table(m, own_pmd, addr, PMD, pte, pte_table, pmd & all);
        m.write(
            own_pte,
            ProcessPageTable::index::<PTE>(addr) as u64,
            make_entry(m.c_bit, copy, (page & all) | ProcessPageFlags::WRITABLE),
        );
        true
    }

    /// Takes over the root table of another process.
    pub fn copy_pgd(&mut self, m: &mut Machine, other: &ProcessPageTableRef)
        ensures
            *final(self) == *old(self),
            final(m)@ == old(m)@.copy(old(self).process_page_table, other.process_page_table),
    {
        m.copy_page(self.process_page_table, other.process_page_table);
    }

    /// Copies a table of the given level, everything below it and all pages,
    /// into the table at `dst`. Blocks larger than a page cannot be copied,
    /// and the pool has to hold the pages.
    pub fn copy_page_table(&self, m: &mut Machine, src: PhysAddr, dst: PhysAddr, level: u64)
        requires
            1 <= level <= 4,
            table_copy(old(m)@, src, dst, level as nat, 512) is Some,
        ensures
            Some(final(m)@) == table_copy(old(m)@, src, dst, level as nat, 512),
        decreases level,
    {
        let ghost before = m@;
        let mut i: u64 = 0;
        while i < 512
            invariant
                i <= 512,
                1 <= level <= 4,
                table_copy(before, src, dst, level as nat, 512) is Some,
                Some(m@) == table_copy(before, src, dst, level as nat, i as nat),
            decreases 512 - i,
        {
            proof {
                lemma_table_copy_prefix(before, src, dst, level as nat, (i + 1) as nat, 512);
            }
            let found = m.read(src, i);
            let frame = found & 0x0000_FFFF_FFFF_F000;
            if found & 0x1 != 0 {
                let page = allocate_page(m);
                m.write(dst, i, page | (found & !0x0000_FFFF_FFFF_F000u64));
                m.grant(page, VMPL1_RWX);
                if level > 1 {
                    self.copy_page_table(m, frame, page, level - 1);
                } else {
                    m.copy_page(page, frame);
                }
            }
            i = i + 1;
        }
    }
}

/// The machine after the first `n` entries of a table were copied, with all
/// that they lead to; none where an entry maps a block or the pool runs out.
pub open spec fn table_copy(s: MachineState, src: u64, dst: u64, level: nat, n: nat) -> Option<
    MachineState,
>
    decreases level, n,
{
    if n == 0 {
        Some(s)
    } else {
        match table_copy(s, src, dst, level, (n - 1) as nat) {
            None => None,
            Some(t) => {
                let e = t.rd(src, n - 1);
                let frame = e & 0x0000_FFFF_FFFF_F000;
                let (u, page) = t.take_page();
                if e & 0x1 == 0 {
                    Some(t)
                } else if e & 0x80 != 0 || page == 0 {
                    None
                } else {
                    let w = u.wr(dst, n - 1, page | (e & !0x0000_FFFF_FFFF_F000u64)).grant(
                        page,
                        VMPL1_RWX,
                    );
                    if level > 1 {
                        table_copy(w, frame, page, (level - 1) as nat, 512)
                    } else {
                        Some(w.copy(page, frame))
                    }
                }
            },
        }
    }
}

proof fn lemma_table_copy_prefix(s: MachineState, src: u64, dst: u64, level: nat, n: nat, all: nat)
    requires
        n <= all,
        table_copy(s, src, dst, level, all) is Some,
    ensures
        table_copy(s, src, dst, level, n) is Some,
    decreases all,
{
    if n < all {
        lemma_table_copy_prefix(s, src, dst, level, n, (all - 1) as nat);
    }
}

} // verus!
