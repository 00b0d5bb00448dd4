//! Copies pages between the monitor and other address spaces.
use vstd::prelude::*;
use crate::address;
use crate::address::{pages_above, VirtAddr};
use crate::memory::machine;
use crate::memory::machine::{Machine, MachineState};
use crate::process_manager::allocation;
use crate::process_manager::allocation::{AllocationRange, ALLOCATION_RANGE_VIRT_START};
use crate::process_manager::process_paging::walk;
use crate::process_manager::process_paging::walk::{
    fill_mounted_page, read_mounted_page, ProcessPageTableRef,
};

verus! {

/// The machine after the first `n` pages from `origin` on in the address space
/// below `root` were copied to `target` in the monitor's.
pub open spec fn copied_in(s: MachineState, root: u64, origin: u64, target: u64, n: nat) -> MachineState
    decreases n,
{
    if n == 0 {
        s
    } else {
        let t = copied_in(s, root, origin, target, (n - 1) as nat);
        walk::mounted_fill(
            t,
            address::page_above(target, n - 1),
            machine::page_words(
                t.mem,
                walk::translate(t, root, address::page_above(origin, n - 1)),
            ),
        )
    }
}

/// The machine after pages of the monitor from page `i` of `source` on were
/// copied to `dst` in the address space below `root`; the first page that is
/// not mapped there ends the copy.
pub open spec fn copied_out(
    s: MachineState,
    root: u64,
    dst: u64,
    source: u64,
    i: nat,
    n: nat,
) -> MachineState
    decreases n - i,
{
    let frame = walk::translate(s, root, address::page_above(dst, i as int));
    if i >= n || frame == 0 {
        s
    } else {
        copied_out(
            s.fill(frame, walk::mounted_words(s, address::page_above(source, i as int))),
            root,
            dst,
            source,
            i + 1,
            n,
        )
    }
}

/// Pages that hold `size` bytes and at least one more.
pub open spec fn pages_over(size: u64) -> nat {
    (size / 4096 + 1) as nat
}

/// The machine after data of the guest was copied into a fresh range of the
/// monitor, which is left mounted.
pub open spec fn fetched(s: MachineState, addr: u64, size: u64, root: u64) -> (
    MachineState,
    AllocationRange,
) {
    let (t, range) = allocation::range_for_monitor(s, pages_over(size) as u64);
    (copied_in(t, root, addr, ALLOCATION_RANGE_VIRT_START, pages_over(size)), range)
}

impl ProcessPageTableRef {
    /// Copies the whole pages of `size` bytes at `origin` to `target` in the
    /// monitor's address space.
    pub fn copy_address_range(&self, m: &mut Machine, origin: VirtAddr, size: u64, target: VirtAddr)
        ensures
            final(m)@ == copied_in(
                old(m)@,
                self.process_page_table,
                origin,
                target,
                (size / 4096) as nat,
            ),
    {
        self.copy_in(m, origin, size / 4096, target);
    }

    fn copy_in(&self, m: &mut Machine, origin: VirtAddr, pages: u64, target: VirtAddr)
        ensures
            final(m)@ == copied_in(old(m)@, self.process_page_table, origin, target, pages as nat),
    {
        let mut i: u64 = 0;
        while i < pages
            invariant
                i <= pages,
                m@ == copied_in(old(m)@, self.process_page_table, origin, target, i as nat),
            decreases pages - i,
        {
            let frame = self.get_page(m, pages_above(origin, i));
            let data = m.read_page(frame);
            fill_mounted_page(m, pages_above(target, i), &data);
            i = i + 1;
        }
    }

    /// Copies the whole pages of `size` bytes at `source` in the monitor's
    /// address space to `dst`, up to the first page that is not mapped there.
    pub fn copy_address_range_to_guest(
        &self,
        m: &mut Machine,
        dst: VirtAddr,
        size: u64,
        source: VirtAddr,
    )
        ensures
            final(m)@ == copied_out(
                old(m)@,
                self.process_page_table,
                dst,
                source,
                0,
                (size / 4096) as nat,
            ),
    {
        self.copy_out_pages(m, dst, size / 4096, source);
    }

    pub(crate) fn copy_out_pages(&self, m: &mut Machine, dst: VirtAddr, pages: u64, source: VirtAddr)
        ensures
            final(m)@ == copied_out(
                old(m)@,
                self.process_page_table,
                dst,
                source,
                0,
                pages as nat,
            ),
    {
        let root = self.process_page_table;
        let ghost all = copied_out(m@, root, dst, source, 0, pages as nat);
        let mut i: u64 = 0;
        while i < pages
            invariant_except_break
                i <= pages,
                root == self.process_page_table,
                copied_out(m@, root, dst, source, i as nat, pages as nat) == all,
            ensures
                m@ == all,
            decreases pages - i,
        {
            let frame = self.get_page(m, pages_above(dst, i));
            if frame == 0 {
                break;
            }
            let data = read_mounted_page(m, pages_above(source, i));
            m.write_page(frame, &data);
            i = i + 1;
        }
    }

    /// Copies `size` bytes of the guest, in whole pages, into a fresh range of
    /// the monitor. Gives the address at which it is mounted, and the range.
    pub fn copy_data_from_guest(m: &mut Machine, addr: u64, size: u64, page_table: u64) -> (r: (
        VirtAddr,
        AllocationRange,
    ))
        ensures
            r.0 == ALLOCATION_RANGE_VIRT_START,
            (final(m)@, r.1) == fetched(old(m)@, addr, size, page_table),
    {
        let pages: u64 = size / 4096 + 1;
        let mut range = AllocationRange(0, 0);
        range.allocate(m, pages);
        let target = ALLOCATION_RANGE_VIRT_START;
        ProcessPageTableRef::external(page_table).copy_in(m, addr, pages, target);
        (target, range)
    }

    /// The same as `copy_data_from_guest`.
    pub fn copy_data_from_guest2(m: &mut Machine, addr: u64, size: u64, page_table: u64) -> (r: (
        VirtAddr,
        AllocationRange,
    ))
        ensures
            r.0 == ALLOCATION_RANGE_VIRT_START,
            (final(m)@, r.1) == fetched(old(m)@, addr, size, page_table),
    {
        Self::copy_data_from_guest(m, addr, size, page_table)
    }

    /// Copies `size` bytes of the guest, in whole pages, to an address of the
    /// monitor.
    pub fn copy_data_from_guest_to(m: &mut Machine, addr: u64, size: u64, page_table: u64, dst: u64)
        ensures
            final(m)@ == copied_in(old(m)@, page_table, addr, dst, pages_over(size)),
    {
        ProcessPageTableRef::external(page_table).copy_in(m, addr, size / 4096 + 1, dst);
    }

    /// Copies the whole pages of `size` bytes of the mounted range to the
    /// guest.
    pub fn copy_data_to_guest(m: &mut Machine, dst_addr: u64, size: u64, page_table: u64)
        ensures
            final(m)@ == copied_out(
                old(m)@,
                page_table,
                dst_addr,
                ALLOCATION_RANGE_VIRT_START,
                0,
                (size / 4096) as nat,
            ),
    {
        ProcessPageTableRef::external(page_table).copy_address_range_to_guest(
            m,
            dst_addr,
            size,
            ALLOCATION_RANGE_VIRT_START,
        );
    }
}

} // verus!
