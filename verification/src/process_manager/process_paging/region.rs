//! Maps runs of fresh pages.
use vstd::prelude::*;
use crate::address;
use crate::address::{PhysAddr, VirtAddr};
use crate::memory::machine::{Machine, MachineState};
use crate::process_manager::process_memory::allocate_page;
use crate::process_manager::process_paging::entry;
use crate::process_manager::process_paging::entry::{
    is_cow, is_present, make_entry, strip_paddr, ProcessPageFlags, ProcessPageTable, PGD, PMD, PTE,
    PUD, TABLE_FLAGS,
};
use crate::process_manager::process_paging::walk;
use crate::process_manager::process_paging::walk::ProcessPageTableRef;
use crate::sev::utils::VMPL1_RWX;

verus! {

/// The machine after a fresh page was hung into a table at the index of `va`,
/// with the given flags.
pub open spec fn hang_page(s: MachineState, table: u64, va: u64, lvl: int, flags: u64) -> MachineState {
    let (t, page) = s.take_page();
    t.grant(page, VMPL1_RWX).wr(
        table,
        entry::table_index(va, lvl),
        entry::entry_word(s.c_bit, page, flags),
    )
}

/// The machine after the table entry for `va` got a table of its own: a fresh
/// one where there was none, a copy where the old one is copied on write.
pub open spec fn own_table(s: MachineState, table: u64, va: u64, lvl: int) -> MachineState {
    let i = entry::table_index(va, lvl);
    let e = s.rd(table, i);
    if !entry::present(e) {
        hang_page(s, table, va, lvl, TABLE_FLAGS)
    } else {
        let t = if entry::cow(e) {
            let (taken, page) = s.take_page();
            let copied = taken.grant(page, VMPL1_RWX).copy(
                page,
                entry::strip(s.c_bit, taken.rd(table, i)),
            );
            copied.wr(
                table,
                i,
                entry::entry_word(
                    s.c_bit,
                    page,
                    entry::flags_of(copied.rd(table, i)) & !0x200u64,
                ),
            )
        } else {
            s
        };
        t.wr(table, i, t.rd(table, i) | TABLE_FLAGS)
    }
}

/// The machine after all tables on the way to `va` became the process's own,
/// and the table of pages for `va`.
pub open spec fn own_path(s: MachineState, root: u64, va: u64) -> (MachineState, u64) {
    let s3 = own_table(s, root, va, 3);
    let pud = entry::strip(s.c_bit, walk::entry_in(s3, root, va, 3));
    let s2 = own_table(s3, pud, va, 2);
    let pmd = entry::strip(s.c_bit, walk::entry_in(s2, pud, va, 2));
    let s1 = own_table(s2, pmd, va, 1);
    (s1, entry::strip(s.c_bit, walk::entry_in(s1, pmd, va, 1)))
}

/// The machine after `count` cleared pages were mapped from `va` on, and
/// whether all of them were. An entry that is in use ends the run. `pte` is
/// the table of pages that the page below `va` was mapped in, if any.
pub open spec fn add_run(
    s: MachineState,
    root: u64,
    va: u64,
    count: nat,
    flags: u64,
    pte: Option<u64>,
) -> (MachineState, bool)
    decreases count,
{
    if count == 0 {
        (s, true)
    } else {
        let (t, table) = match pte {
            Some(table) if entry::table_index(va, 0) != 0 => (s, table),
            _ => own_path(s, root, va),
        };
        let e = walk::entry_in(t, table, va, 0);
        if entry::present(e) || entry::cow(e) {
            (t, false)
        } else {
            let (taken, page) = t.take_page();
            add_run(
                taken.zero(page).grant(page, VMPL1_RWX).wr(
                    table,
                    entry::table_index(va, 0),
                    entry::entry_word(s.c_bit, page, flags),
                ),
                root,
                address::page_above(va, 1),
                (count - 1) as nat,
                flags,
                Some(table),
            )
        }
    }
}

/// The machine after the entry for `va` in a table got a fresh page, where it
/// had none.
pub open spec fn fill_entry(s: MachineState, table: u64, va: u64, lvl: int, flags: u64) -> MachineState {
    if entry::present(s.rd(table, entry::table_index(va, lvl))) {
        s
    } else {
        hang_page(s, table, va, lvl, flags)
    }
}

/// The tables that a run of pages is mapped in: the one below the root, and
/// the table of pages.
#[derive(Clone, Copy)]
pub struct RunTables {
    pub pud: PhysAddr,
    pub pte: PhysAddr,
}

/// The machine after the tables for `va` were completed, and those tables.
/// `last` are the tables of the page below `va`, if any: what they share with
/// those of `va` is not looked up again.
#[verifier::opaque]
pub open spec fn run_tables(
    s: MachineState,
    root: u64,
    va: u64,
    last: Option<RunTables>,
) -> (MachineState, RunTables) {
    let same_pud = last is Some && entry::table_index(va, 1) != 0;
    let same_pgd = last is Some && (entry::table_index(va, 2) != 0 || same_pud);
    let s3 = if same_pgd {
        s
    } else {
        fill_entry(s, root, va, 3, TABLE_FLAGS)
    };
    let pud = if same_pud {
        last->0.pud
    } else {
        entry::strip(s.c_bit, walk::entry_in(s3, root, va, 3))
    };
    let s2 = if same_pud {
        s3
    } else {
        fill_entry(s3, pud, va, 2, TABLE_FLAGS)
    };
    let pmd = entry::strip(s.c_bit, walk::entry_in(s2, pud, va, 2));
    let s1 = fill_entry(s2, pmd, va, 1, TABLE_FLAGS);
    (s1, RunTables { pud, pte: entry::strip(s.c_bit, walk::entry_in(s1, pmd, va, 1)) })
}

/// The machine after every page of a run without a mapping got a fresh page.
pub open spec fn fill_run(
    s: MachineState,
    root: u64,
    va: u64,
    count: nat,
    flags: u64,
    last: Option<RunTables>,
) -> MachineState
    decreases count,
{
    if count == 0 {
        s
    } else {
        let (t, tables) = match last {
            Some(tables) if entry::table_index(va, 0) != 0 => (s, tables),
            _ => run_tables(s, root, va, last),
        };
        fill_run(
            fill_entry(t, tables.pte, va, 0, flags),
            root,
            address::page_above(va, 1),
            (count - 1) as nat,
            flags,
            Some(tables),
        )
    }
}

fn hang_fresh_page(m: &mut Machine, table: PhysAddr, va: VirtAddr, lvl: usize, flags: u64)
    requires
        lvl <= 3,
    ensures
        final(m)@ == hang_page(old(m)@, table, va, lvl as int, flags),
{
    let index = ProcessPageTable::index_arg(lvl, va);
    let page = allocate_page(m);
    m.grant(page, VMPL1_RWX);
    m.write(table, index as u64, make_entry(m.c_bit, page, flags));
}

/// Gives the entry for `va` a table that is the process's own.
fn check_replace_cow_table(m: &mut Machine, table: PhysAddr, va: VirtAddr, lvl: usize) -> (r:
    PhysAddr)
    requires
        lvl <= 3,
    ensures
        final(m)@ == own_table(old(m)@, table, va, lvl as int),
        r == entry::strip(old(m)@.c_bit, walk::entry_in(final(m)@, table, va, lvl as nat)),
{
    let index = ProcessPageTable::index_arg(lvl, va) as u64;
    let found = m.read(table, index);
    if is_present(found) {
        if is_cow(found) {
            let page = allocate_page(m);
            m.grant(page, VMPL1_RWX);
            let source = strip_paddr(m.c_bit, m.read(table, index));
            m.copy_page(page, source);
            let flags = m.read(table, index) & ProcessPageFlags::ALL
                & !ProcessPageFlags::COPY_ON_WRITE;
            m.write(table, index, make_entry(m.c_bit, page, flags));
        }
        m.write(table, index, m.read(table, index) | TABLE_FLAGS);
    } else {
        hang_fresh_page(m, table, va, lvl, TABLE_FLAGS);
    }
    strip_paddr(m.c_bit, m.read(table, index))
}

/// Makes all tables on the way to `va` the process's own; gives the table of
/// pages.
fn replace_cow_tables(m: &mut Machine, root: PhysAddr, va: VirtAddr) -> (r: PhysAddr)
    ensures
        (final(m)@, r) == own_path(old(m)@, root, va),
{
    let pud = check_replace_cow_table(m, root, va, PGD);
    let pmd = check_replace_cow_table(m, pud, va, PUD);
    check_replace_cow_table(m, pmd, va, PMD)
}

fn add_cleared_page(m: &mut Machine, table: PhysAddr, va: VirtAddr, flags: u64)
    ensures
        ({
            let (taken, page) = old(m)@.take_page();
            final(m)@ == taken.zero(page).grant(page, VMPL1_RWX).wr(
                table,
                entry::table_index(va, 0),
                entry::entry_word(old(m)@.c_bit, page, flags),
            )
        }),
{
    let index = ProcessPageTable::index::<PTE>(va) as u64;
    let page = allocate_page(m);
    m.clear_page(page);
    m.grant(page, VMPL1_RWX);
    m.write(table, index, make_entry(m.c_bit, page, flags));
}

fn fill_table_entry(m: &mut Machine, table: PhysAddr, va: VirtAddr, lvl: usize, flags: u64) -> (r:
    PhysAddr)
    requires
        lvl <= 3,
    ensures
        final(m)@ == fill_entry(old(m)@, table, va, lvl as int, flags),
        r == entry::strip(old(m)@.c_bit, walk::entry_in(final(m)@, table, va, lvl as nat)),
{
    let index = ProcessPageTable::index_arg(lvl, va) as u64;
    if !is_present(m.read(table, index)) {
        hang_fresh_page(m, table, va, lvl, flags);
    }
    strip_paddr(m.c_bit, m.read(table, index))
}

fn enter_tables(m: &mut Machine, root: PhysAddr, va: VirtAddr, last: Option<RunTables>) -> (r:
    RunTables)
    ensures
        (final(m)@, r) == run_tables(old(m)@, root, va, last),
{
    reveal(run_tables);
    let pud: PhysAddr;
    let lvl1 = ProcessPageTable::index::<PMD>(va);
    let lvl2 = ProcessPageTable::index::<PUD>(va);
    match last {
        Some(tables) if lvl1 != 0 => {
            pud = tables.pud;
        },
        Some(_) if lvl2 != 0 => {
            pud = strip_paddr(m.c_bit, m.read(root, ProcessPageTable::index::<PGD>(va) as u64));
            let _ = fill_table_entry(m, pud, va, PUD, TABLE_FLAGS);
        },
        _ => {
            pud = fill_table_entry(m, root, va, PGD, TABLE_FLAGS);
            let _ = fill_table_entry(m, pud, va, PUD, TABLE_FLAGS);
        },
    }
    let pmd = strip_paddr(m.c_bit, m.read(pud, lvl2 as u64));
    let pte = fill_table_entry(m, pmd, va, PMD, TABLE_FLAGS);
    RunTables { pud, pte }
}

impl ProcessPageTableRef {
    /// Maps `count` cleared pages from `target` on. Gives `false` at the first
    /// page that is mapped already; the pages below it stay mapped.
    pub fn map_4k_pages(&self, m: &mut Machine, target: VirtAddr, flags: u64, count: u64) -> (r: bool)
        ensures
            (final(m)@, r) == add_run(
                old(m)@,
                self.process_page_table,
                target,
                count as nat,
                flags,
                None,
            ),
    {
        let root = self.process_page_table;
        let mut current = target;
        let mut left: u64 = count;
        let mut pte: Option<PhysAddr> = None;
        while left > 0
            invariant
                root == self.process_page_table,
                add_run(old(m)@, root, target, count as nat, flags, None) == add_run(
                    m@,
                    root,
                    current,
                    left as nat,
                    flags,
                    pte,
                ),
            decreases left,
        {
            let index = ProcessPageTable::index::<PTE>(current) as u64;
            let table = match pte {
                Some(table) if index != 0 => table,
                _ => replace_cow_tables(m, root, current),
            };
            let found = m.read(table, index);
            if is_present(found) {
                return false;
            }
            if is_cow(found) {
                return false;
            }
            add_cleared_page(m, table, current, flags);
            pte = Some(table);
            left = left - 1;
            current = current.wrapping_add(4096);
        }
        true
    }

    /// Adds `size` pages from `start` on; see `map_4k_pages`.
    pub fn add_pages(&self, m: &mut Machine, start: VirtAddr, size: u64, flags: u64) -> (r: bool)
        ensures
            (final(m)@, r) == add_run(
                old(m)@,
                self.process_page_table,
                start,
                size as nat,
                flags,
                None,
            ),
    {
        self.map_4k_pages(m, start, flags, size)
    }

    /// Gives a fresh page to every page of a region that has none. The region
    /// ends at the end of the address space at the latest.
    pub fn map_region(&self, m: &mut Machine, target: VirtAddr, pages: u64, flags: u64)
        requires
            target as int % 0x1_0000_0000_0000 / 4096 + pages <= 0x10_0000_0000,
        ensures
            final(m)@ == fill_run(
                old(m)@,
                self.process_page_table,
                target,
                pages as nat,
                flags,
                None,
            ),
    {
        let root = self.process_page_table;
        let mut current = target;
        let mut left: u64 = pages;
        let mut last: Option<RunTables> = None;
        while left > 0
            invariant
                root == self.process_page_table,
                fill_run(old(m)@, root, target, pages as nat, flags, None) == fill_run(
                    m@,
                    root,
                    current,
                    left as nat,
                    flags,
                    last,
                ),
            decreases left,
        {
            let index = ProcessPageTable::index::<PTE>(current);
            let tables = match last {
                Some(tables) if index != 0 => tables,
                _ => enter_tables(m, root, current, last),
            };
            let _ = fill_table_entry(m, tables.pte, current, PTE, flags);
            last = Some(tables);
            left = left - 1;
            current = current.wrapping_add(4096);
        }
    }
}

} // verus!
