//! The memory through which a process takes its input and gives its output.
use vstd::prelude::*;
use crate::address;
use crate::address::PAGE_SIZE;
use crate::crypto;
use crate::crypto::measure_pages;
use crate::memory::machine::{Machine, MachineState};
use crate::process_manager::allocation;
use crate::process_manager::allocation::{AllocationRange, ALLOCATION_RANGE_VIRT_START};
use crate::process_manager::process::ProcessID;
use crate::process_manager::process_paging::guest_copy;
use crate::process_manager::process_paging::walk;
use crate::process_manager::process_paging::walk::ProcessPageTableRef;

verus! {

/// Where a process has its input.
pub const INPUT_VADDR: u64 = 0x280_0000_0000;

/// Where a process has its output.
pub const OUTPUT_VADDR: u64 = 0x300_0000_0000;

/// Bytes that a channel can be asked to hold at most.
pub const MAX_CHANNEL_SIZE: u64 = 0xFFFF_FFFF_FFFF_EFFF;

/// The memory channel of a process.
#[derive(Clone, Copy, PartialEq, Eq, Structural, Debug)]
pub struct MemoryChannel {
    pub input: AllocationRange,
    pub output: AllocationRange,
    pub owner: ProcessID,
    /// Whether nothing follows the process in its chain.
    pub last_in_channel: bool,
    /// The process that takes the output as its input.
    pub next: Option<ProcessID>,
    /// Whether the input is the output of another process.
    pub input_borrowed: bool,
}

impl Default for MemoryChannel {
    fn default() -> (r: Self)
        ensures
            r == (MemoryChannel {
                input: AllocationRange(0, 0),
                output: AllocationRange(0, 0),
                owner: ProcessID(0),
                last_in_channel: false,
                next: None,
                input_borrowed: false,
            }),
    {
        MemoryChannel {
            input: AllocationRange(0, 0),
            output: AllocationRange(0, 0),
            owner: ProcessID(0),
            last_in_channel: false,
            next: None,
            input_borrowed: false,
        }
    }
}

/// The machine and the range after a range was brought to `pages` pages.
pub open spec fn inflated(
    s: MachineState,
    range: AllocationRange,
    root: u64,
    pages: u64,
    start: u64,
) -> (MachineState, AllocationRange) {
    if range.1 >= pages {
        (s, range)
    } else {
        (
            allocation::range_built(
                s,
                root,
                start,
                range.1 as int,
                (pages - range.1) as nat,
                0x67,
                false,
            ),
            AllocationRange(range.0, pages),
        )
    }
}

impl MemoryChannel {
    /// Gives the process pages for an input of `size` bytes and more.
    pub fn allocate_input(
        &mut self,
        m: &mut Machine,
        page_table_ref: &mut ProcessPageTableRef,
        size: u64,
    )
        requires
            size <= MAX_CHANNEL_SIZE,
        ensures
            *final(page_table_ref) == *old(page_table_ref),
            *final(self) == (MemoryChannel { input: final(self).input, ..*old(self) }),
            (final(m)@, final(self).input) == allocation::range_for_process(
                old(m)@,
                old(page_table_ref).process_page_table,
                guest_copy::pages_over(size) as u64,
                INPUT_VADDR,
            ),
    {
        self.input = Self::allocate_range(m, page_table_ref, size, INPUT_VADDR);
    }

    /// Gives the process pages for an output of `size` bytes and more.
    pub fn allocate_output(
        &mut self,
        m: &mut Machine,
        page_table_ref: &mut ProcessPageTableRef,
        size: u64,
    )
        requires
            size <= MAX_CHANNEL_SIZE,
        ensures
            *final(page_table_ref) == *old(page_table_ref),
            *final(self) == (MemoryChannel { output: final(self).output, ..*old(self) }),
            (final(m)@, final(self).output) == allocation::range_for_process(
                old(m)@,
                old(page_table_ref).process_page_table,
                guest_copy::pages_over(size) as u64,
                OUTPUT_VADDR,
            ),
    {
        self.output = Self::allocate_range(m, page_table_ref, size, OUTPUT_VADDR);
    }

    /// Grows the input so that it holds `size` bytes and more.
    pub fn inflate_input(&mut self, m: &mut Machine, page_table: u64, size: u64)
        requires
            size <= MAX_CHANNEL_SIZE,
        ensures
            *final(self) == (MemoryChannel { input: final(self).input, ..*old(self) }),
            (final(m)@, final(self).input) == inflated(
                old(m)@,
                old(self).input,
                page_table,
                guest_copy::pages_over(size) as u64,
                INPUT_VADDR,
            ),
    {
        let mut table = ProcessPageTableRef::external(page_table);
        self.input.inflate(m, &mut table, size / PAGE_SIZE + 1, INPUT_VADDR);
    }

    /// Grows the output so that it holds `size` bytes and more.
    pub fn inflate_output(&mut self, m: &mut Machine, page_table: u64, size: u64)
        requires
            size <= MAX_CHANNEL_SIZE,
        ensures
            *final(self) == (MemoryChannel { output: final(self).output, ..*old(self) }),
            (final(m)@, final(self).output) == inflated(
                old(m)@,
                old(self).output,
                page_table,
                guest_copy::pages_over(size) as u64,
                OUTPUT_VADDR,
            ),
    {
        let mut table = ProcessPageTableRef::external(page_table);
        self.output.inflate(m, &mut table, size / PAGE_SIZE + 1, OUTPUT_VADDR);
    }

    /// Copies data of the guest into the input.
    pub fn copy_into(&mut self, m: &mut Machine, source_addr: u64, page_table: u64, size: u64)
        requires
            size <= MAX_CHANNEL_SIZE,
        ensures
            *final(self) == *old(self),
            final(m)@ == put_input(old(m)@, old(self).input, source_addr, page_table, size),
    {
        self.input.mount(m);
        ProcessPageTableRef::copy_data_from_guest_to(
            m,
            source_addr,
            size,
            page_table,
            ALLOCATION_RANGE_VIRT_START,
        );
        self.input.unmount(m);
    }

    /// Copies the output to the guest.
    pub fn copy_out(&mut self, m: &mut Machine, target_addr: u64, page_table: u64, size: u64)
        requires
            size <= MAX_CHANNEL_SIZE,
        ensures
            *final(self) == *old(self),
            final(m)@ == got_output(old(m)@, old(self).output, target_addr, page_table, size),
    {
        self.output.mount(m);
        ProcessPageTableRef::external(page_table).copy_out_pages(
            m,
            target_addr,
            size / PAGE_SIZE + 1,
            ALLOCATION_RANGE_VIRT_START,
        );
        self.output.unmount(m);
    }

    /// The digest of the input.
    pub fn measure_input(&self, m: &mut Machine) -> (r: [u8; 64])
        ensures
            (final(m)@, r@) == range_measured(old(m)@, self.input),
    {
        self.input.mount(m);
        let r = measure_pages(m, ALLOCATION_RANGE_VIRT_START, self.input.1);
        self.input.unmount(m);
        r
    }

    /// The digest of the output.
    pub fn measure_output(&self, m: &mut Machine) -> (r: [u8; 64])
        ensures
            (final(m)@, r@) == range_measured(old(m)@, self.output),
    {
        self.output.mount(m);
        let r = measure_pages(m, ALLOCATION_RANGE_VIRT_START, self.output.1);
        self.output.unmount(m);
        r
    }

    fn allocate_range(
        m: &mut Machine,
        page_table_ref: &mut ProcessPageTableRef,
        size: u64,
        start: u64,
    ) -> (r: AllocationRange)
        requires
            size <= MAX_CHANNEL_SIZE,
        ensures
            *final(page_table_ref) == *old(page_table_ref),
            (final(m)@, r) == allocation::range_for_process(
                old(m)@,
                old(page_table_ref).process_page_table,
                guest_copy::pages_over(size) as u64,
                start,
            ),
    {
        let mut r = AllocationRange::default();
        r.allocate_with_start_addr(m, page_table_ref, size / PAGE_SIZE + 1, start);
        r
    }
}

/// The machine after data of the guest was copied into an input.
pub open spec fn put_input(
    s: MachineState,
    input: AllocationRange,
    source: u64,
    root: u64,
    size: u64,
) -> MachineState {
    allocation::mount_entry(
        guest_copy::copied_in(
            allocation::mount_entry(s, input.0),
            root,
            source,
            ALLOCATION_RANGE_VIRT_START,
            guest_copy::pages_over(size),
        ),
        0,
    )
}

/// The machine after an output was copied to the guest.
pub open spec fn got_output(
    s: MachineState,
    output: AllocationRange,
    target: u64,
    root: u64,
    size: u64,
) -> MachineState {
    allocation::mount_entry(
        guest_copy::copied_out(
            allocation::mount_entry(s, output.0),
            root,
            target,
            ALLOCATION_RANGE_VIRT_START,
            0,
            guest_copy::pages_over(size),
        ),
        0,
    )
}

/// The machine after a range was measured, and its digest.
pub open spec fn range_measured(s: MachineState, range: AllocationRange) -> (MachineState, Seq<u8>) {
    let t = allocation::mount_entry(s, range.0);
    (
        allocation::mount_entry(t, 0),
        crypto::measured(t, ALLOCATION_RANGE_VIRT_START, (range.1 * 4096) as nat),
    )
}

proof fn lemma_in_keeps_root(s: MachineState, root: u64, at: u64, own: u64, n: nat)
    ensures
        guest_copy::copied_in(s, root, at, own, n).cr3 == s.cr3,
    decreases n,
{
    if n > 0 {
        lemma_in_keeps_root(s, root, at, own, (n - 1) as nat);
    }
}

proof fn lemma_out_keeps_root(s: MachineState, root: u64, at: u64, own: u64, i: nat, n: nat)
    ensures
        guest_copy::copied_out(s, root, at, own, i, n).cr3 == s.cr3,
    decreases n - i,
{
    let frame = walk::translate(s, root, address::page_above(at, i as int));
    if !(i >= n || frame == 0) {
        lemma_out_keeps_root(
            s.fill(frame, walk::mounted_words(s, address::page_above(own, i as int))),
            root,
            at,
            own,
            i + 1,
            n,
        );
    }
}

/// A channel is mounted only as long as the monitor works on it: nothing is left
/// mounted when data was put into it, got from it or measured.
pub proof fn law_channels_are_left_unmounted(
    s: MachineState,
    range: AllocationRange,
    addr: u64,
    root: u64,
    size: u64,
)
    ensures
        put_input(s, range, addr, root, size).cr3 == s.cr3,
        put_input(s, range, addr, root, size).rd(s.cr3, 6) == 0,
        got_output(s, range, addr, root, size).cr3 == s.cr3,
        got_output(s, range, addr, root, size).rd(s.cr3, 6) == 0,
        range_measured(s, range).0.cr3 == s.cr3,
        range_measured(s, range).0.rd(s.cr3, 6) == 0,
{
    let t = allocation::mount_entry(s, range.0);
    let n = guest_copy::pages_over(size);
    lemma_in_keeps_root(t, root, addr, ALLOCATION_RANGE_VIRT_START, n);
    lemma_out_keeps_root(t, root, addr, ALLOCATION_RANGE_VIRT_START, 0, n);
}

} // verus!
