//! Walks down a page table.
use vstd::prelude::*;
use crate::address;
use crate::address::{PhysAddr, VirtAddr};
use crate::memory::machine;
use crate::memory::machine::{Machine, MachineState};
use crate::process_manager::process_paging::entry;
use crate::process_manager::process_paging::entry::{
    is_present, strip_paddr, ProcessPageFlags, ProcessPageTable, PGD, PMD, PTE, PUD,
};

verus! {

/// Where a walk for an address ended: the table, and the index in it.
#[derive(Clone, Copy, PartialEq, Eq, Structural, Debug)]
pub enum ProcessTableLevelMapping {
    PGD(PhysAddr, usize),
    PUD(PhysAddr, usize),
    PMD(PhysAddr, usize),
    PTE(PhysAddr, usize),
}

impl ProcessTableLevelMapping {
    pub open spec fn level(self) -> nat {
        match self {
            ProcessTableLevelMapping::PGD(_, _) => 3,
            ProcessTableLevelMapping::PUD(_, _) => 2,
            ProcessTableLevelMapping::PMD(_, _) => 1,
            ProcessTableLevelMapping::PTE(_, _) => 0,
        }
    }

    pub open spec fn table(self) -> u64 {
        match self {
            ProcessTableLevelMapping::PGD(t, _) => t,
            ProcessTableLevelMapping::PUD(t, _) => t,
            ProcessTableLevelMapping::PMD(t, _) => t,
            ProcessTableLevelMapping::PTE(t, _) => t,
        }
    }

    pub open spec fn index(self) -> int {
        match self {
            ProcessTableLevelMapping::PGD(_, i) => i as int,
            ProcessTableLevelMapping::PUD(_, i) => i as int,
            ProcessTableLevelMapping::PMD(_, i) => i as int,
            ProcessTableLevelMapping::PTE(_, i) => i as int,
        }
    }
}

/// The entry for `va` in a table at level `lvl`.
pub open spec fn entry_in(s: MachineState, table: u64, va: u64, lvl: nat) -> u64 {
    s.rd(table, entry::table_index(va, lvl as int))
}

/// The entry of the page at `va`, below a table at level `lvl`; none where an
/// entry on the way is not present.
pub open spec fn leaf_below(s: MachineState, table: u64, va: u64, lvl: nat) -> Option<u64>
    decreases lvl,
{
    let e = entry_in(s, table, va, lvl);
    if !entry::present(e) {
        None
    } else if lvl == 0 {
        Some(e)
    } else {
        leaf_below(s, entry::strip(s.c_bit, e), va, (lvl - 1) as nat)
    }
}

/// The frame of the page at `va`, or 0.
pub open spec fn translate(s: MachineState, root: u64, va: u64) -> u64 {
    match leaf_below(s, root, va, 3) {
        Some(e) => entry::strip(s.c_bit, e),
        None => 0,
    }
}

/// The frame of the page that the monitor itself has at `va`, if any.
pub open spec fn mounted(s: MachineState, va: u64) -> Option<u64> {
    match leaf_below(s, s.cr3, va, 3) {
        Some(e) => Some(entry::strip(s.c_bit, e)),
        None => None,
    }
}

/// The words of the page that the monitor has at `va`; zeros where it has
/// none.
pub open spec fn mounted_words(s: MachineState, va: u64) -> Seq<u64> {
    match mounted(s, va) {
        Some(frame) => machine::page_words(s.mem, frame),
        None => machine::zero_words(),
    }
}

/// The byte that the monitor has at `va`; zero where it has none.
pub open spec fn mounted_byte(s: MachineState, va: u64) -> u8 {
    match mounted(s, va) {
        Some(frame) => machine::byte_at(s.mem, frame + va % 4096),
        None => 0,
    }
}

/// The machine after the page that the monitor has at `va` was filled; a store
/// where it has none has no effect.
pub open spec fn mounted_fill(s: MachineState, va: u64, data: Seq<u64>) -> MachineState {
    match mounted(s, va) {
        Some(frame) => s.fill(frame, data),
        None => s,
    }
}

/// Where the walk for `va` below a table ends: the level and the table of the
/// first entry that is not present, or of the entry of the page.
pub open spec fn walk_end(s: MachineState, table: u64, va: u64, lvl: nat) -> (nat, u64)
    decreases lvl,
{
    let e = entry_in(s, table, va, lvl);
    if lvl == 0 || !entry::present(e) {
        (lvl, table)
    } else {
        walk_end(s, entry::strip(s.c_bit, e), va, (lvl - 1) as nat)
    }
}

/// The frame of the 4 KiB page at `va` below a table, where an entry may map a
/// block of its whole span; 0 where an entry is not present.
pub open spec fn frame_below(s: MachineState, table: u64, va: u64, lvl: nat) -> u64
    decreases lvl,
{
    let e = entry_in(s, table, va, lvl);
    let span = entry::level_span(lvl as int);
    if !entry::present(e) {
        0
    } else if lvl == 0 {
        entry::strip(s.c_bit, e)
    } else if lvl < 3 && e & 0x80 == 0x80 {
        (entry::strip(s.c_bit, e) as int / span * span + va as int % span / 4096 * 4096) as u64
    } else {
        frame_below(s, entry::strip(s.c_bit, e), va, (lvl - 1) as nat)
    }
}

/// The frame that the entry of the page at `va` holds, also where that entry
/// is not present; 0 where a table on the way is missing.
pub open spec fn entry_frame(s: MachineState, root: u64, va: u64) -> u64 {
    let (level, table) = walk_end(s, root, va, 3);
    if level == 0 {
        entry_in(s, table, va, 0) & 0x0000_FFFF_FFFF_F000
    } else {
        0
    }
}

/// An entry with the protection that a process asked for.
pub open spec fn with_protection(e: u64, writable: bool, executable: bool) -> u64 {
    let w = if writable {
        e | 0x2
    } else {
        e & !0x2u64
    };
    if executable {
        w & !0x8000_0000_0000_0000u64
    } else {
        w | 0x8000_0000_0000_0000u64
    }
}

/// The page table of a process, named by its root table.
#[derive(Clone, Copy, PartialEq, Eq, Structural, Debug)]
pub struct ProcessPageTableRef {
    pub process_page_table: PhysAddr,
}

impl Default for ProcessPageTableRef {
    fn default() -> (r: Self)
        ensures
            r.process_page_table == 0,
    {
        ProcessPageTableRef { process_page_table: 0 }
    }
}

impl ProcessPageTableRef {
    /// Names the page table with the given root.
    pub fn set_external_table(&mut self, pgd_addr: u64)
        ensures
            final(self).process_page_table == pgd_addr,
    {
        self.process_page_table = pgd_addr;
    }

    /// The page table with the given root.
    pub fn external(pgd_addr: u64) -> (r: Self)
        ensures
            r.process_page_table == pgd_addr,
    {
        let mut r = ProcessPageTableRef::default();
        r.set_external_table(pgd_addr);
        r
    }

    /// The entry of the page at an address. Every entry on the way is taken
    /// for the next table.
    pub fn find_leaf(&self, m: &Machine, addr: VirtAddr) -> (r: Option<u64>)
        ensures
            r == leaf_below(m@, self.process_page_table, addr, 3),
    {
        let mut table: u64 = self.process_page_table;
        let mut found: u64 = m.read(table, ProcessPageTable::index::<PGD>(addr) as u64);
        if !is_present(found) {
            return None;
        }
        let mut level: usize = PGD;
        while level > 0
            invariant
                level <= 3,
                entry::present(found),
                found == entry_in(m@, table, addr, level as nat),
                leaf_below(m@, self.process_page_table, addr, 3) == leaf_below(
                    m@,
                    table,
                    addr,
                    level as nat,
                ),
            decreases level,
        {
            proof {
                reveal_with_fuel(leaf_below, 2);
            }
            table = strip_paddr(m.c_bit, found);
            level = level - 1;
            found = m.read(table, ProcessPageTable::index_arg(level, addr) as u64);
            if !is_present(found) {
                return None;
            }
        }
        Some(found)
    }

    /// The frame of the page at an address, or 0 where none is mapped.
    pub fn get_page(&self, m: &Machine, addr: VirtAddr) -> (r: PhysAddr)
        ensures
            r == translate(m@, self.process_page_table, addr),
    {
        match self.find_leaf(m, addr) {
            None => 0,
            Some(found) => strip_paddr(m.c_bit, found),
        }
    }

    /// The frame of the 4 KiB page that contains `addr`, also where an entry
    /// on the way maps a block of 1 GiB or 2 MiB; 0 where none is mapped.
    pub fn get_page_4k_hugeaware(&self, m: &Machine, addr: VirtAddr) -> (r: PhysAddr)
        ensures
            r == frame_below(m@, self.process_page_table, addr, 3),
    {
        let mut table: u64 = self.process_page_table;
        let mut found: u64 = m.read(table, ProcessPageTable::index::<PGD>(addr) as u64);
        if !is_present(found) {
            return 0;
        }
        let mut level: usize = PGD;
        while level > 0
            invariant
                level <= 3,
                entry::present(found),
                level < 3 && level > 0 ==> found & 0x80 != 0x80,
                found == entry_in(m@, table, addr, level as nat),
                frame_below(m@, self.process_page_table, addr, 3) == frame_below(
                    m@,
                    table,
                    addr,
                    level as nat,
                ),
            decreases level,
        {
            proof {
                reveal_with_fuel(frame_below, 2);
            }
            table = strip_paddr(m.c_bit, found);
            level = level - 1;
            found = m.read(table, ProcessPageTable::index_arg(level, addr) as u64);
            if !is_present(found) {
                return 0;
            }
            if level != PTE && found & ProcessPageFlags::HUGE_PAGE == ProcessPageFlags::HUGE_PAGE {
                let span: u64 = if level == PUD {
                    0x4000_0000
                } else {
                    0x20_0000
                };
                let frame = strip_paddr(m.c_bit, found);
                let base = frame - frame % span;
                let inside = addr % span;
                let offset = inside - inside % 4096;
                proof {
                    entry::lemma_strip_bound(m.c_bit, found);
                }
                return base + offset;
            }
        }
        strip_paddr(m.c_bit, found)
    }

    /// Where the walk for an address ends, from the root table at `paddr`.
    pub fn page_walk(&self, m: &Machine, paddr: PhysAddr, addr: VirtAddr) -> (r:
        ProcessTableLevelMapping)
        ensures
            (r.level(), r.table()) == walk_end(m@, paddr, addr, 3),
            r.index() == entry::table_index(addr, r.level() as int),
            r.index() < 512,
    {
        let mut table: u64 = paddr;
        let mut index: usize = ProcessPageTable::index::<PGD>(addr);
        let mut found: u64 = m.read(table, index as u64);
        if !is_present(found) {
            return ProcessTableLevelMapping::PGD(table, index);
        }
        let mut level: usize = PGD;
        while level > 0
            invariant
                level <= 3,
                level > 0 ==> entry::present(found),
                index < 512,
                index == entry::table_index(addr, level as int),
                found == entry_in(m@, table, addr, level as nat),
                walk_end(m@, paddr, addr, 3) == walk_end(m@, table, addr, level as nat),
            decreases level,
        {
            proof {
                reveal_with_fuel(walk_end, 2);
            }
            table = strip_paddr(m.c_bit, found);
            level = level - 1;
            index = ProcessPageTable::index_arg(level, addr);
            found = m.read(table, index as u64);
            if !is_present(found) {
                if level == PUD {
                    return ProcessTableLevelMapping::PUD(table, index);
                } else if level == PMD {
                    return ProcessTableLevelMapping::PMD(table, index);
                } else {
                    return ProcessTableLevelMapping::PTE(table, index);
                }
            }
        }
        ProcessTableLevelMapping::PTE(table, index)
    }

    /// The frame that the entry of the page at an address holds, also where
    /// that entry is not present; 0 where a table on the way is missing.
    pub fn virt_to_phys(&self, m: &Machine, vaddr: VirtAddr) -> (r: PhysAddr)
        ensures
            r == entry_frame(m@, self.process_page_table, vaddr),
    {
        match self.page_walk(m, self.process_page_table, vaddr) {
            ProcessTableLevelMapping::PTE(table, index) => m.read(table, index as u64)
                & 0x0000_FFFF_FFFF_F000,
            _ => 0,
        }
    }

    /// The entries of the slots of the root table that the monitor writes while
    /// a process lives: its channels, the model, and the GPU.
    pub fn log_pml4_slots(&self, m: &Machine) -> (r: [u64; 4])
        ensures
            r@ == seq![
                m@.rd(self.process_page_table, 5),
                m@.rd(self.process_page_table, 6),
                m@.rd(self.process_page_table, 8),
                m@.rd(self.process_page_table, 9),
            ],
    {
        let root = self.process_page_table;
        [m.read(root, 5), m.read(root, 6), m.read(root, 8), m.read(root, 9)]
    }

    /// Gives the page at an address the protection that its process asked for;
    /// does nothing where a table on the way is missing. All pages stay
    /// readable, and a page that is copied on write is writable.
    pub fn change_attr(
        &self,
        m: &mut Machine,
        vaddr: VirtAddr,
        _readable: bool,
        writable: bool,
        executable: bool,
        writecopy: bool,
    )
        ensures
            final(m)@ == protect(
                old(m)@,
                self.process_page_table,
                vaddr,
                writable || writecopy,
                executable,
            ),
    {
        match self.page_walk(m, self.process_page_table, vaddr) {
            ProcessTableLevelMapping::PTE(table, index) => {
                let mut found: u64 = m.read(table, index as u64);
                if writable || writecopy {
                    found = found | ProcessPageFlags::WRITABLE;
                } else {
                    found = found & !ProcessPageFlags::WRITABLE;
                }
                if executable {
                    found = found & !ProcessPageFlags::NO_EXECUTE;
                } else {
                    found = found | ProcessPageFlags::NO_EXECUTE;
                }
                m.write(table, index as u64, found);
            },
            _ => {},
        }
    }
}

/// A frame lies in the memory that an entry can address, with its whole page.
pub proof fn lemma_frame_bound(s: MachineState, table: u64, va: u64, lvl: nat)
    requires
        lvl <= 3,
    ensures
        frame_below(s, table, va, lvl) <= 0x10_0000_0000_0000,
    decreases lvl,
{
    let e = entry_in(s, table, va, lvl);
    let c = s.c_bit;
    entry::lemma_strip_bound(c, e);
    if entry::present(e) && lvl > 0 {
        let frame = entry::strip(c, e);
        if lvl < 3 && e & 0x80 == 0x80 {
            let span = entry::level_span(lvl as int);
            if lvl == 1 {
                assert(frame as int / 0x20_0000 * 0x20_0000 <= 0x000F_FFFF_FFE0_0000);
            } else {
                assert(frame as int / 0x4000_0000 * 0x4000_0000 <= 0x000F_FFFF_C000_0000);
            }
        } else {
            lemma_frame_bound(s, frame, va, (lvl - 1) as nat);
        }
    }
}

/// The addresses of one page have one frame.
pub proof fn lemma_frame_of_page(s: MachineState, table: u64, va: u64, vb: u64, lvl: nat)
    requires
        lvl <= 3,
        va / 4096 == vb / 4096,
    ensures
        frame_below(s, table, va, lvl) == frame_below(s, table, vb, lvl),
    decreases lvl,
{
    let p = va as int / 4096;
    assert(va as int / 0x20_0000 == p / 512 && vb as int / 0x20_0000 == p / 512);
    assert(va as int / 0x4000_0000 == p / 0x4_0000 && vb as int / 0x4000_0000 == p / 0x4_0000);
    assert(va as int / 0x80_0000_0000 == p / 0x800_0000 && vb as int / 0x80_0000_0000 == p
        / 0x800_0000);
    assert(va as int % 0x20_0000 / 4096 == p % 512 && vb as int % 0x20_0000 / 4096 == p % 512);
    assert(va as int % 0x4000_0000 / 4096 == p % 0x4_0000 && vb as int % 0x4000_0000 / 4096 == p
        % 0x4_0000);
    let e = entry_in(s, table, va, lvl);
    if entry::present(e) && lvl > 0 {
        lemma_frame_of_page(s, entry::strip(s.c_bit, e), va, vb, (lvl - 1) as nat);
    }
}

/// A frame lies in the memory that an entry can address, with its whole page.
pub proof fn lemma_translate_bound(s: MachineState, root: u64, va: u64)
    ensures
        translate(s, root, va) <= 0x000F_FFFF_FFFF_F000,
{
    match leaf_below(s, root, va, 3) {
        Some(e) => entry::lemma_strip_bound(s.c_bit, e),
        None => {},
    }
}

/// The frame of the page that the monitor has at an address.
pub fn mounted_frame(m: &Machine, va: VirtAddr) -> (r: Option<PhysAddr>)
    ensures
        r == mounted(m@, va),
{
    match ProcessPageTableRef::external(m.cr3).find_leaf(m, va) {
        None => None,
        Some(found) => Some(strip_paddr(m.c_bit, found)),
    }
}

/// The words of the page that the monitor has at an address.
pub fn read_mounted_page(m: &Machine, va: VirtAddr) -> (r: Vec<u64>)
    ensures
        r@ == mounted_words(m@, va),
        r@.len() == 512,
{
    match mounted_frame(m, va) {
        None => {
            let zeros: Vec<u64> = vec![0u64; 512];
            assert(zeros@ =~= machine::zero_words());
            zeros
        },
        Some(frame) => m.read_page(frame),
    }
}

/// Fills the page that the monitor has at an address.
pub fn fill_mounted_page(m: &mut Machine, va: VirtAddr, data: &Vec<u64>)
    requires
        data@.len() == 512,
    ensures
        final(m)@ == mounted_fill(old(m)@, va, data@),
{
    match mounted_frame(m, va) {
        None => {},
        Some(frame) => m.write_page(frame, data),
    }
}

/// The `size` bytes that the monitor has from an address on.
pub open spec fn mounted_bytes(s: MachineState, va: u64, size: nat) -> Seq<u8> {
    Seq::new(size, |i: int| mounted_byte(s, address::addr_add(va, i)))
}

fn read_mounted_byte(m: &Machine, a: VirtAddr) -> (r: u8)
    ensures
        r == mounted_byte(m@, a),
{
    match mounted_frame(m, a) {
        None => 0,
        Some(frame) => {
            proof {
                entry::lemma_strip_bound(m.c_bit, leaf_below(m@, m@.cr3, a, 3)->0);
            }
            m.read_byte(frame + a % 4096)
        },
    }
}

/// Reads bytes from the monitor's own address space.
pub fn read_mounted(m: &Machine, va: VirtAddr, size: u64) -> (r: Vec<u8>)
    ensures
        r@ == mounted_bytes(m@, va, size as nat),
{
    let mut r: Vec<u8> = Vec::new();
    let mut i: u64 = 0;
    while i < size
        invariant
            i <= size,
            r@.len() == i,
            forall|k: int|
                0 <= k < i ==> r@[k] == mounted_byte(m@, #[trigger] address::addr_add(va, k)),
        decreases size - i,
    {
        let a = va.wrapping_add(i);
        assert(a == address::addr_add(va, i as int));
        r.push(read_mounted_byte(m, a));
        i = i + 1;
    }
    r
}

/// Reads whole pages from the monitor's own address space.
pub fn read_mounted_pages(m: &Machine, va: VirtAddr, pages: u64) -> (r: Vec<u8>)
    ensures
        r@ == mounted_bytes(m@, va, (pages * 4096) as nat),
{
    let mut r: Vec<u8> = Vec::new();
    let mut p: u64 = 0;
    while p < pages
        invariant
            p <= pages,
            r@.len() == p * 4096,
            forall|k: int|
                0 <= k < p * 4096 ==> r@[k] == mounted_byte(
                    m@,
                    #[trigger] address::addr_add(va, k),
                ),
        decreases pages - p,
    {
        let start = address::pages_above(va, p);
        let mut i: u64 = 0;
        while i < 4096
            invariant
                i <= 4096,
                start == address::page_above(va, p as int),
                r@.len() == p * 4096 + i,
                forall|k: int|
                    0 <= k < p * 4096 + i ==> r@[k] == mounted_byte(
                        m@,
                        #[trigger] address::addr_add(va, k),
                    ),
            decreases 4096 - i,
        {
            let a = start.wrapping_add(i);
            proof {
                address::lemma_addr_add(va, p * 4096, i as int);
            }
            assert(a == address::addr_add(va, p * 4096 + i));
            r.push(read_mounted_byte(m, a));
            i = i + 1;
        }
        p = p + 1;
    }
    r
}

/// The machine after bytes were stored from an address of the monitor on.
/// Where it has no memory, that has no effect.
pub open spec fn mounted_store(s: MachineState, va: u64, bytes: Seq<u8>) -> MachineState
    decreases bytes.len(),
{
    if bytes.len() == 0 {
        s
    } else {
        let t = mounted_store(s, va, bytes.drop_last());
        let a = address::addr_add(va, bytes.len() - 1);
        match mounted(t, a) {
            None => t,
            Some(frame) => MachineState {
                mem: machine::store_byte(t.mem, frame + a % 4096, bytes.last()),
                ..t
            },
        }
    }
}

/// Stores bytes in the monitor's own address space.
pub fn write_mounted(m: &mut Machine, va: VirtAddr, bytes: &Vec<u8>)
    ensures
        final(m)@ == mounted_store(old(m)@, va, bytes@),
{
    let ghost before = m@;
    let mut i: usize = 0;
    assert(bytes@.take(0) =~= Seq::<u8>::empty());
    while i < bytes.len()
        invariant
            i <= bytes.len(),
            m@ == mounted_store(before, va, bytes@.take(i as int)),
        decreases bytes.len() - i,
    {
        let a = va.wrapping_add(i as u64);
        assert(a == address::addr_add(va, i as int));
        proof {
            let next = bytes@.take(i + 1);
            assert(next.drop_last() =~= bytes@.take(i as int));
            assert(next.last() == bytes@[i as int]);
        }
        match mounted_frame(m, a) {
            None => {},
            Some(frame) => {
                proof {
                    entry::lemma_strip_bound(m.c_bit, leaf_below(m@, m@.cr3, a, 3)->0);
                }
                m.write_byte(frame + a % 4096, bytes[i]);
            },
        }
        i = i + 1;
    }
    assert(bytes@.take(i as int) =~= bytes@);
}

/// The machine after the page at `va` got a protection.
pub open spec fn protect(
    s: MachineState,
    root: u64,
    va: u64,
    writable: bool,
    executable: bool,
) -> MachineState {
    let (level, table) = walk_end(s, root, va, 3);
    if level == 0 {
        s.wr(
            table,
            entry::table_index(va, 0),
            with_protection(entry_in(s, table, va, 0), writable, executable),
        )
    } else {
        s
    }
}

} // verus!
