//! Adds pages to a page table.
use vstd::prelude::*;
use crate::address;
use crate::address::{pages_above, PhysAddr, VirtAddr};
use crate::memory::machine;
use crate::memory::machine::{Machine, MachineState};
use crate::process_manager::process_memory::allocate_page;
use crate::process_manager::process_paging::entry;
use crate::process_manager::process_paging::entry::{
    make_entry, ProcessPageFlags, ProcessPageTable, PGD, PMD, PTE, PUD, TABLE_FLAGS,
};
use crate::process_manager::process_paging::walk;
use crate::process_manager::process_paging::walk::{ProcessPageTableRef, ProcessTableLevelMapping};
use crate::sev::utils::VMPL1_RWX;

verus! {

/// Where the stack of a process starts.
pub const TP_STACK_START_VADDR: u64 = 0x80_0000_0000;

/// Where the exception stack of a process starts.
pub const TP_KERN_STACK_START_VADDR: u64 = 0x90_0000_0000;

/// Where the manifest of a process starts.
pub const TP_MANIFEST_START_VADDR: u64 = 0x100_0000_0000;

/// Where the library OS of a process starts.
pub const TP_LIBOS_START_VADDR: u64 = 0x180_0000_0000;

/// Where the function of a process starts.
pub const TP_FUNCTION_START_VADDR: u64 = 0x140_0000_0000;

/// The machine after a fresh table was hung below the entry for `va` in a
/// table at level `lvl`, and that fresh table.
pub open spec fn hang_table(s: MachineState, table: u64, va: u64, lvl: nat) -> (MachineState, u64) {
    let (t, fresh) = if lvl == 2 {
        let (taken, page) = s.take_page();
        (taken.grant(table, VMPL1_RWX), page)
    } else {
        s.grant(table, VMPL1_RWX).take_page()
    };
    (
        t.wr(
            table,
            entry::table_index(va, lvl as int),
            entry::entry_word(s.c_bit, fresh, TABLE_FLAGS),
        ),
        fresh,
    )
}

/// The entry that maps `addr` in place of the entry `e`.
pub open spec fn leaf_word(c_bit: u64, e: u64, addr: u64, flags: u64) -> u64 {
    if flags & ProcessPageFlags::FLAG_REUSE == ProcessPageFlags::FLAG_REUSE {
        entry::entry_word(c_bit, addr, entry::flags_of(e) | ProcessPageFlags::PRESENT)
    } else {
        entry::entry_word(c_bit, addr, flags)
    }
}

/// The machine after `addr` was mapped at `va` below a table at level `lvl`
/// that has no entry for `va`; the tables below it are fresh.
pub open spec fn map_below(
    s: MachineState,
    table: u64,
    va: u64,
    lvl: nat,
    addr: u64,
    flags: u64,
) -> MachineState
    decreases lvl,
{
    if lvl == 0 {
        let t = s.grant(table, VMPL1_RWX);
        t.wr(
            table,
            entry::table_index(va, 0),
            leaf_word(s.c_bit, walk::entry_in(t, table, va, 0), addr, flags),
        )
    } else {
        let (t, fresh) = hang_table(s, table, va, lvl);
        map_below(t, fresh, va, (lvl - 1) as nat, addr, flags)
    }
}

/// The machine after `addr` was mapped at `va`.
pub open spec fn map_page(s: MachineState, root: u64, va: u64, addr: u64, flags: u64) -> MachineState {
    let (lvl, table) = walk::walk_end(s, root, va, 3);
    map_below(s, table, va, lvl, addr, flags)
}

/// Whether a set of flags may be asked for: the mark that the entry keeps its
/// flags stands alone.
pub open spec fn flags_ok(flags: u64) -> bool {
    flags & ProcessPageFlags::FLAG_REUSE == ProcessPageFlags::FLAG_REUSE ==> flags
        == ProcessPageFlags::FLAG_REUSE
}

/// The machine after `count` cleared pages were mapped from `va` on.
pub open spec fn map_cleared(
    s: MachineState,
    root: u64,
    va: u64,
    count: nat,
    flags: u64,
) -> MachineState
    decreases count,
{
    if count == 0 {
        s
    } else {
        let k = (count - 1) as nat;
        let (t, page) = map_cleared(s, root, va, k, flags).take_page();
        map_page(t.zero(page), root, address::page_above(va, k as int), page, flags).grant(
            page,
            VMPL1_RWX,
        )
    }
}

/// Flag sets that do not ask for the flags of the entry.
pub proof fn lemma_plain_flags()
    ensures
        flags_ok(0x8000_0000_0000_0167),
        flags_ok(0x145),
        flags_ok(0x147),
        flags_ok(0x8000_0000_0000_0145),
        flags_ok(0x8000_0000_0000_0147),
        flags_ok(0x63),
        flags_ok(0x67),
        flags_ok(0x165),
        flags_ok(0x8000_0000_0000_0067),
        flags_ok(0x8000_0000_0000_0027),
        flags_ok(0x400),
        flags_ok(0x24),
        flags_ok(0x25),
        flags_ok(0x26),
        flags_ok(0x27),
        flags_ok(0x8000_0000_0000_0024),
        flags_ok(0x8000_0000_0000_0025),
        flags_ok(0x8000_0000_0000_0026),
{
    assert(0x8000_0000_0000_0167u64 & 0x400 != 0x400 && 0x145u64 & 0x400 != 0x400 && 0x147u64
        & 0x400 != 0x400 && 0x8000_0000_0000_0145u64 & 0x400 != 0x400 && 0x8000_0000_0000_0147u64
        & 0x400 != 0x400 && 0x63u64 & 0x400 != 0x400 && 0x67u64 & 0x400 != 0x400 && 0x165u64
        & 0x400 != 0x400 && 0x8000_0000_0000_0067u64 & 0x400 != 0x400 && 0x8000_0000_0000_0027u64
        & 0x400 != 0x400 && 0x24u64 & 0x400 != 0x400 && 0x25u64 & 0x400 != 0x400 && 0x26u64 & 0x400
        != 0x400 && 0x27u64 & 0x400 != 0x400 && 0x8000_0000_0000_0024u64 & 0x400 != 0x400
        && 0x8000_0000_0000_0025u64 & 0x400 != 0x400 && 0x8000_0000_0000_0026u64 & 0x400 != 0x400)
        by (bit_vector);
}

/// The machine after an empty root table was made, and that table.
pub open spec fn root_made(s: MachineState) -> (MachineState, u64) {
    let (t, page) = s.take_page();
    (t.zero(page).grant(page, VMPL1_RWX), page)
}

/// The machine after the first `count` pages of `data` were mapped from `va`
/// on.
pub open spec fn data_mapped(
    s: MachineState,
    root: u64,
    va: u64,
    data: Seq<u8>,
    count: nat,
) -> MachineState
    decreases count,
{
    if count == 0 {
        s
    } else {
        let k = count - 1;
        let (t, page) = data_mapped(s, root, va, data, k as nat).take_page();
        map_page(
            t.fill(page, machine::words_of(machine::padded(data, 4096 * k))),
            root,
            address::page_above(va, k),
            page,
            0x8000_0000_0000_0167,
        ).grant(page, VMPL1_RWX)
    }
}

impl ProcessPageTableRef {
    /// Gives the process an empty root table.
    pub fn init_vmpl1(&mut self, m: &mut Machine)
        ensures
            (final(m)@, final(self).process_page_table) == root_made(old(m)@),
    {
        self.process_page_table = allocate_page(m);
        m.clear_page(self.process_page_table);
        m.grant(self.process_page_table, VMPL1_RWX);
    }

    /// Maps copies of the whole pages of `data` from `vaddr` on.
    fn add_region_vaddr(&self, m: &mut Machine, vaddr: VirtAddr, data: &Vec<u8>)
        ensures
            final(m)@ == data_mapped(
                old(m)@,
                self.process_page_table,
                vaddr,
                data@,
                data@.len() / 4096,
            ),
    {
        let pages: usize = data.len() / 4096;
        let mut i: usize = 0;
        while i < pages
            invariant
                i <= pages,
                pages == data@.len() / 4096,
                m@ == data_mapped(old(m)@, self.process_page_table, vaddr, data@, i as nat),
            decreases pages - i,
        {
            proof {
                lemma_plain_flags();
            }
            let page = allocate_page(m);
            assert(i * 4096 <= data.len());
            m.write_bytes(page, data, i * 4096);
            self.map_4k_page(m, pages_above(vaddr, i as u64), page, ProcessPageFlags::data());
            m.grant(page, VMPL1_RWX);
            i = i + 1;
        }
    }

    /// Maps the manifest of the process.
    pub fn add_manifest(&self, m: &mut Machine, data: &Vec<u8>)
        ensures
            final(m)@ == data_mapped(
                old(m)@,
                self.process_page_table,
                TP_MANIFEST_START_VADDR,
                data@,
                data@.len() / 4096,
            ),
    {
        self.add_region_vaddr(m, TP_MANIFEST_START_VADDR, data);
    }

    /// Maps the library OS of the process.
    pub fn add_libos(&self, m: &mut Machine, data: &Vec<u8>)
        ensures
            final(m)@ == data_mapped(
                old(m)@,
                self.process_page_table,
                TP_LIBOS_START_VADDR,
                data@,
                data@.len() / 4096,
            ),
    {
        self.add_region_vaddr(m, TP_LIBOS_START_VADDR, data);
    }

    /// Maps the function of the process.
    pub fn add_function(&self, m: &mut Machine, data: &Vec<u8>)
        ensures
            final(m)@ == data_mapped(
                old(m)@,
                self.process_page_table,
                TP_FUNCTION_START_VADDR,
                data@,
                data@.len() / 4096,
            ),
    {
        self.add_region_vaddr(m, TP_FUNCTION_START_VADDR, data);
    }

    /// Maps the page at `addr` at the address `target`; tables that are
    /// missing on the way are taken from the pool.
    pub fn map_4k_page(&self, m: &mut Machine, target: VirtAddr, addr: PhysAddr, flags: u64)
        requires
            flags_ok(flags),
        ensures
            final(m)@ == map_page(old(m)@, self.process_page_table, target, addr, flags),
    {
        let found = self.page_walk(m, self.process_page_table, target);
        let ghost c_bit = m@.c_bit;
        let mut level: usize;
        let mut table: PhysAddr;
        match found {
            ProcessTableLevelMapping::PGD(t, _) => {
                level = PGD;
                table = t;
            },
            ProcessTableLevelMapping::PUD(t, _) => {
                level = PUD;
                table = t;
            },
            ProcessTableLevelMapping::PMD(t, _) => {
                level = PMD;
                table = t;
            },
            ProcessTableLevelMapping::PTE(t, _) => {
                level = PTE;
                table = t;
            },
        }
        while level > 0
            invariant
                level <= 3,
                m@.c_bit == c_bit,
                map_page(old(m)@, self.process_page_table, target, addr, flags) == map_below(
                    m@,
                    table,
                    target,
                    level as nat,
                    addr,
                    flags,
                ),
            decreases level,
        {
            proof {
                reveal_with_fuel(map_below, 2);
            }
            let index = ProcessPageTable::index_arg(level, target);
            let fresh: PhysAddr;
            if level == PUD {
                fresh = allocate_page(m);
                m.grant(table, VMPL1_RWX);
            } else {
                m.grant(table, VMPL1_RWX);
                fresh = allocate_page(m);
            }
            m.write(table, index as u64, make_entry(m.c_bit, fresh, TABLE_FLAGS));
            table = fresh;
            level = level - 1;
        }
        m.grant(table, VMPL1_RWX);
        let index = ProcessPageTable::index::<PTE>(target);
        if flags & ProcessPageFlags::FLAG_REUSE == ProcessPageFlags::FLAG_REUSE {
            let kept = m.read(table, index as u64) & ProcessPageFlags::ALL;
            m.write(
                table,
                index as u64,
                make_entry(m.c_bit, addr, kept | ProcessPageFlags::PRESENT),
            );
        } else {
            m.write(table, index as u64, make_entry(m.c_bit, addr, flags));
        }
    }

    /// Maps `size` cleared pages from `start` on, as the stack of a process.
    pub fn add_stack(&self, m: &mut Machine, start: VirtAddr, size: u64)
        ensures
            final(m)@ == map_cleared(
                old(m)@,
                self.process_page_table,
                start,
                size as nat,
                0x8000_0000_0000_0167,
            ),
    {
        let mut i: u64 = 0;
        proof {
            lemma_plain_flags();
        }
        while i < size
            invariant
                i <= size,
                flags_ok(0x8000_0000_0000_0167),
                m@ == map_cleared(
                    old(m)@,
                    self.process_page_table,
                    start,
                    i as nat,
                    0x8000_0000_0000_0167,
                ),
            decreases size - i,
        {
            let page = allocate_page(m);
            m.clear_page(page);
            self.map_4k_page(m, pages_above(start, i), page, ProcessPageFlags::data());
            m.grant(page, VMPL1_RWX);
            i = i + 1;
        }
    }
}

} // verus!
