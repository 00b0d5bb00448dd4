//! Table entries, their flags, and the index of an address in a table.
use vstd::prelude::*;
use crate::address::{PhysAddr, VirtAddr};

verus! {

/// Level of the root table.
pub const PGD: usize = 3;

/// Level below the root.
pub const PUD: usize = 2;

/// Level above the tables of pages.
pub const PMD: usize = 1;

/// Level of the tables of pages.
pub const PTE: usize = 0;

/// Protection that a process asks for.
pub struct GraminePalProtFlags;

impl GraminePalProtFlags {
    pub const READ: u64 = 0x1;

    pub const WRITE: u64 = 0x2;

    pub const EXEC: u64 = 0x4;

    pub const WRITECOPY: u64 = 0x8;

    pub const MASK: u64 = 0xF;
}

/// Flags of a table entry.
pub struct ProcessPageFlags;

impl ProcessPageFlags {
    pub const PRESENT: u64 = 0x1;

    pub const WRITABLE: u64 = 0x2;

    pub const USER_ACCESSIBLE: u64 = 0x4;

    pub const WRITE_THROUGH: u64 = 0x8;

    pub const NO_CACHE: u64 = 0x10;

    pub const ACCESSED: u64 = 0x20;

    pub const DIRTY: u64 = 0x40;

    pub const HUGE_PAGE: u64 = 0x80;

    pub const GLOBAL: u64 = 0x100;

    /// Marks what is copied before it is written.
    pub const COPY_ON_WRITE: u64 = 0x200;

    /// Asks for the flags that the entry already has.
    pub const FLAG_REUSE: u64 = 0x400;

    pub const NO_EXECUTE: u64 = 0x8000_0000_0000_0000;

    /// All flags.
    pub const ALL: u64 = 0x8000_0000_0000_07FF;

    /// Shared, executable pages.
    pub fn exec() -> (r: u64)
        ensures
            r == 0x165,
    {
        assert(0x1u64 | 0x100u64 | 0x20u64 | 0x40u64 | 0x4u64 == 0x165u64) by (bit_vector);
        Self::PRESENT | Self::GLOBAL | Self::ACCESSED | Self::DIRTY | Self::USER_ACCESSIBLE
    }

    /// Shared, writable pages that hold no code.
    pub fn data() -> (r: u64)
        ensures
            r == 0x8000_0000_0000_0167,
    {
        assert(0x1u64 | 0x100u64 | 0x2u64 | 0x8000_0000_0000_0000u64 | 0x20u64 | 0x40u64 | 0x4u64
            == 0x8000_0000_0000_0167u64) by (bit_vector);
        Self::PRESENT | Self::GLOBAL | Self::WRITABLE | Self::NO_EXECUTE | Self::ACCESSED
            | Self::DIRTY | Self::USER_ACCESSIBLE
    }

    /// Shared, read-only pages that hold no code.
    pub fn data_ro() -> (r: u64)
        ensures
            r == 0x8000_0000_0000_0165,
    {
        assert(0x1u64 | 0x100u64 | 0x8000_0000_0000_0000u64 | 0x20u64 | 0x40u64 | 0x4u64
            == 0x8000_0000_0000_0165u64) by (bit_vector);
        Self::PRESENT | Self::GLOBAL | Self::NO_EXECUTE | Self::ACCESSED | Self::DIRTY
            | Self::USER_ACCESSIBLE
    }

    /// Executable pages of one process.
    pub fn task_exec() -> (r: u64)
        ensures
            r == 0x65,
    {
        assert(0x1u64 | 0x20u64 | 0x40u64 | 0x4u64 == 0x65u64) by (bit_vector);
        Self::PRESENT | Self::ACCESSED | Self::DIRTY | Self::USER_ACCESSIBLE
    }

    /// Writable pages of one process that hold no code.
    pub fn task_data() -> (r: u64)
        ensures
            r == 0x8000_0000_0000_0067,
    {
        assert(0x1u64 | 0x2u64 | 0x8000_0000_0000_0000u64 | 0x20u64 | 0x40u64 | 0x4u64
            == 0x8000_0000_0000_0067u64) by (bit_vector);
        Self::PRESENT | Self::WRITABLE | Self::NO_EXECUTE | Self::ACCESSED | Self::DIRTY
            | Self::USER_ACCESSIBLE
    }

    /// Read-only pages of one process that hold no code.
    pub fn task_data_ro() -> (r: u64)
        ensures
            r == 0x8000_0000_0000_0065,
    {
        assert(0x1u64 | 0x8000_0000_0000_0000u64 | 0x20u64 | 0x40u64 | 0x4u64
            == 0x8000_0000_0000_0065u64) by (bit_vector);
        Self::PRESENT | Self::NO_EXECUTE | Self::ACCESSED | Self::DIRTY | Self::USER_ACCESSIBLE
    }
}

/// Flags of the entries that lead to lower tables: present, writable, user
/// accessible, accessed.
pub const TABLE_FLAGS: u64 = 0x27;

/// The address in an entry: its frame, without the encryption bit.
pub open spec fn strip(c_bit: u64, e: u64) -> u64 {
    e & 0x000F_FFFF_FFFF_F000 & !c_bit
}

/// An address in an entry is that of a page in the memory that an entry can
/// address.
pub proof fn lemma_strip_bound(c_bit: u64, e: u64)
    ensures
        strip(c_bit, e) <= 0x000F_FFFF_FFFF_F000,
        strip(c_bit, e) % 4096 == 0,
{
    assert(e & 0x000F_FFFF_FFFF_F000 & !c_bit <= 0x000F_FFFF_FFFF_F000 && (e & 0x000F_FFFF_FFFF_F000
        & !c_bit) % 4096 == 0) by (bit_vector);
}

/// The entry that leads to `addr` with the given flags, in encrypted memory.
pub open spec fn entry_word(c_bit: u64, addr: u64, flags: u64) -> u64 {
    addr | flags | c_bit
}

/// Whether an entry has all the bits of `flag`.
pub open spec fn has(e: u64, flag: u64) -> bool {
    e & flag == flag
}

pub open spec fn present(e: u64) -> bool {
    e & 0x1 == 0x1
}

pub open spec fn cow(e: u64) -> bool {
    e & 0x200 == 0x200
}

/// An empty entry leads nowhere and asks for nothing.
pub proof fn lemma_empty()
    ensures
        0u64 & 0x1 == 0,
        0u64 & 0x200 == 0,
        !present(0),
        !cow(0),
        forall|c_bit: u64| #[trigger] strip(c_bit, 0) == 0,
{
    assert(0u64 & 0x1 == 0 && 0u64 & 0x200 == 0) by (bit_vector);
    assert forall|c_bit: u64| #[trigger] strip(c_bit, 0) == 0 by {
        assert(0u64 & 0x000F_FFFF_FFFF_F000 & !c_bit == 0) by (bit_vector);
    }
}

/// What an entry that was made for a page permits is what its flags do.
pub proof fn lemma_permits(c_bit: u64, pa: u64, flags: u64)
    requires
        strip(c_bit, pa) == pa,
        c_bit & 0x8000_0000_0000_0FFF == 0,
    ensures
        entry_word(c_bit, pa, flags) & 0x8000_0000_0000_0FFF == flags & 0x8000_0000_0000_0FFF,
        entry_word(c_bit, pa, flags) & 0x1 == flags & 0x1,
        entry_word(c_bit, pa, flags) & 0x2 == flags & 0x2,
        entry_word(c_bit, pa, flags) & 0x4 == flags & 0x4,
        entry_word(c_bit, pa, flags) & 0x8000_0000_0000_0000 == flags & 0x8000_0000_0000_0000,
{
    assert((pa | flags | c_bit) & 0x8000_0000_0000_0FFF == flags & 0x8000_0000_0000_0FFF && (pa
        | flags | c_bit) & 0x1 == flags & 0x1 && (pa | flags | c_bit) & 0x2 == flags & 0x2 && (pa | flags | c_bit) & 0x4 == flags & 0x4 && (pa
        | flags | c_bit) & 0x8000_0000_0000_0000 == flags & 0x8000_0000_0000_0000) by (bit_vector)
        requires
            pa & 0x000F_FFFF_FFFF_F000 & !c_bit == pa,
            c_bit & 0x8000_0000_0000_0FFF == 0,
    ;
}

/// The flags of an entry.
pub open spec fn flags_of(e: u64) -> u64 {
    e & 0x8000_0000_0000_07FF
}

/// The address in an entry.
pub fn strip_paddr(c_bit: u64, e: u64) -> (r: PhysAddr)
    ensures
        r == strip(c_bit, e),
{
    e & 0x000F_FFFF_FFFF_F000 & !c_bit
}

/// An entry of a page table.
#[derive(Clone, Copy, PartialEq, Eq, Structural, Debug)]
pub struct ProcessPageTableEntry(pub PhysAddr);

impl ProcessPageTableEntry {
    /// The flags of the entry.
    pub fn flags(&self) -> (r: u64)
        ensures
            r == flags_of(self.0),
    {
        self.0 & ProcessPageFlags::ALL
    }

    /// Makes the entry lead to `addr`.
    pub fn set(&mut self, c_bit: u64, addr: PhysAddr, flags: u64)
        ensures
            final(self).0 == entry_word(c_bit, addr, flags),
    {
        self.0 = addr | flags | c_bit;
    }
}

/// Whether an entry is present.
pub fn is_present(e: u64) -> (r: bool)
    ensures
        r == present(e),
{
    let entry = ProcessPageTableEntry(e);
    assert((e & 0x8000_0000_0000_07FFu64) & 0x1u64 == e & 0x1u64) by (bit_vector);
    entry.flags() & ProcessPageFlags::PRESENT == ProcessPageFlags::PRESENT
}

/// Whether an entry is marked to be copied before it is written.
pub fn is_cow(e: u64) -> (r: bool)
    ensures
        r == cow(e),
{
    let entry = ProcessPageTableEntry(e);
    assert((e & 0x8000_0000_0000_07FFu64) & 0x200u64 == e & 0x200u64) by (bit_vector);
    entry.flags() & ProcessPageFlags::COPY_ON_WRITE == ProcessPageFlags::COPY_ON_WRITE
}

/// The entry that leads to `addr` with the given flags.
pub fn make_entry(c_bit: u64, addr: PhysAddr, flags: u64) -> (r: u64)
    ensures
        r == entry_word(c_bit, addr, flags),
{
    let mut entry = ProcessPageTableEntry(0);
    entry.set(c_bit, addr, flags);
    entry.0
}

/// Bytes that one entry of a table at level `lvl` covers.
pub open spec fn level_span(lvl: int) -> int {
    if lvl <= 0 {
        0x1000
    } else if lvl == 1 {
        0x20_0000
    } else if lvl == 2 {
        0x4000_0000
    } else if lvl == 3 {
        0x80_0000_0000
    } else if lvl == 4 {
        0x1_0000_0000_0000
    } else {
        0x200_0000_0000_0000
    }
}

/// The index of the entry for `va` in a table at level `lvl`.
pub open spec fn table_index(va: u64, lvl: int) -> int {
    (va as int / level_span(lvl)) % 512
}

/// A page table.
pub struct ProcessPageTable;

impl ProcessPageTable {
    /// The index of an address in a table at level `L`.
    pub fn index<const L: usize>(addr: VirtAddr) -> (r: usize)
        requires
            L <= 5,
        ensures
            r == table_index(addr, L as int),
            r < 512,
    {
        Self::index_arg(L, addr)
    }

    /// The index of an address in a table at level `i`.
    pub fn index_arg(i: usize, addr: VirtAddr) -> (r: usize)
        requires
            i <= 5,
        ensures
            r == table_index(addr, i as int),
            r < 512,
    {
        let shift: u64 = 12 + i as u64 * 9;
        assert((addr >> 12u64) & 0x1ff == (addr / 0x1000) % 512) by (bit_vector);
        assert((addr >> 21u64) & 0x1ff == (addr / 0x20_0000) % 512) by (bit_vector);
        assert((addr >> 30u64) & 0x1ff == (addr / 0x4000_0000) % 512) by (bit_vector);
        assert((addr >> 39u64) & 0x1ff == (addr / 0x80_0000_0000) % 512) by (bit_vector);
        assert((addr >> 48u64) & 0x1ff == (addr / 0x1_0000_0000_0000) % 512) by (bit_vector);
        assert((addr >> 57u64) & 0x1ff == (addr / 0x200_0000_0000_0000) % 512) by (bit_vector);
        ((addr >> shift) & 0x1ff) as usize
    }
}

} // verus!
