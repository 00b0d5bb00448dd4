//! The descriptor table that processes run with.
use vstd::prelude::*;

verus! {

/// The selector of the task state.
pub const SVSM_TSS: u16 = 48;

/// Entries of the table.
pub const GDT_SIZE: u16 = 8;

/// An entry of the table.
#[derive(Clone, Copy, PartialEq, Eq, Structural, Debug)]
pub struct GDTEntry(pub u64);

impl GDTEntry {
    pub fn from_raw(entry: u64) -> (r: Self)
        ensures
            r.0 == entry,
    {
        GDTEntry(entry)
    }

    pub fn null() -> (r: Self)
        ensures
            r.0 == 0,
    {
        GDTEntry(0)
    }

    pub fn code_64_kernel() -> (r: Self)
        ensures
            r.0 == 0x00af9b000000ffff,
    {
        GDTEntry(0x00af9b000000ffff)
    }

    pub fn data_64_kernel() -> (r: Self)
        ensures
            r.0 == 0x00cf93000000ffff,
    {
        GDTEntry(0x00cf93000000ffff)
    }

    pub fn code_64_user() -> (r: Self)
        ensures
            r.0 == 0x00affb000000ffff,
    {
        GDTEntry(0x00affb000000ffff)
    }

    pub fn data_64_user() -> (r: Self)
        ensures
            r.0 == 0x00cff3000000ffff,
    {
        GDTEntry(0x00cff3000000ffff)
    }
}

/// The table.
#[derive(Clone, Copy, Debug)]
pub struct GDT {
    pub entries: [GDTEntry; 8],
}

impl GDT {
    /// The table without a task state.
    pub fn new() -> (r: Self)
        ensures
            r.entries@ == seq![
                GDTEntry(0),
                GDTEntry(0x00af9b000000ffff),
                GDTEntry(0x00cf93000000ffff),
                GDTEntry(0x00affb000000ffff),
                GDTEntry(0x00cff3000000ffff),
                GDTEntry(0),
                GDTEntry(0),
                GDTEntry(0),
            ],
    {
        GDT {
            entries: [
                GDTEntry::null(),
                GDTEntry::code_64_kernel(),
                GDTEntry::data_64_kernel(),
                GDTEntry::code_64_user(),
                GDTEntry::data_64_user(),
                GDTEntry::null(),
                GDTEntry::null(),
                GDTEntry::null(),
            ],
        }
    }

    /// The address of the table, which is at `base`, and the offset of its
    /// last byte.
    pub fn base_limit(&self, base: u64) -> (r: (u64, u32))
        ensures
            r == (base, 63u32),
    {
        (base, 8 * GDT_SIZE as u32 - 1)
    }

    /// Sets the two entries of the task state.
    pub fn set_tss_entry(&mut self, desc0: GDTEntry, desc1: GDTEntry)
        ensures
            final(self).entries@ == old(self).entries@.update(6, desc0).update(7, desc1),
    {
        let idx: usize = 6;
        assert(idx == SVSM_TSS / 8);
        self.entries[idx] = desc0;
        self.entries[idx + 1] = desc1;
    }
}

} // verus!
