//! Ranges of pages that the monitor owns, and their mount in its own address
//! space.
use vstd::prelude::*;
use crate::address;
use crate::address::{pages_above, PhysAddr, VirtAddr};
use crate::memory::machine::{Machine, MachineOp, MachineState};
use crate::process_manager::process_memory::allocate_page;
use crate::process_manager::process_paging::entry;
use crate::process_manager::process_paging::entry::{
    is_present, strip_paddr, ProcessPageTable, PGD,
};
use crate::process_manager::process_paging::mapping;
use crate::process_manager::process_paging::region;
use crate::process_manager::process_paging::teardown;
use crate::process_manager::process_paging::teardown::free_pages;
use crate::process_manager::process_paging::walk;
use crate::process_manager::process_paging::walk::{mounted_frame, ProcessPageTableRef};
use crate::sev::utils::{VMPL1_READ, VMPL1_RWX, VMPL2_READ, VMPL2_RWX};

verus! {

/// Where a mounted range starts in the address space of the monitor.
pub const ALLOCATION_RANGE_VIRT_START: u64 = 0x300_0000_0000;

/// The slot of the root table in which a range is mounted.
pub const DEFAULT_ALLOCATION_RANGE_MOUNT: u64 = 6;

/// A range of pages: the root table entry that leads to it, and the number of
/// its pages.
#[derive(Clone, Copy, PartialEq, Eq, Structural, Debug)]
pub struct AllocationRange(pub u64, pub u64);

impl Default for AllocationRange {
    fn default() -> (r: Self)
        ensures
            r == AllocationRange(0, 0),
    {
        AllocationRange(0, 0)
    }
}

/// The machine after a root table entry was mounted, or the mount cleared.
pub open spec fn mount_entry(s: MachineState, e: u64) -> MachineState {
    s.wr(s.cr3, 6, e).op(MachineOp::FlushTlb)
}

/// The machine after a mount that an earlier call left behind was cleared.
pub open spec fn stale_cleared(s: MachineState) -> MachineState {
    if s.rd(s.cr3, 6) != 0 {
        mount_entry(s, 0)
    } else {
        s
    }
}

/// The machine after the pages `from..from + n` of a range that starts at
/// `start` were added. The pages of a range that is not the monitor's own are
/// given to the processes.
pub open spec fn range_built(
    s: MachineState,
    root: u64,
    start: u64,
    from: int,
    n: nat,
    flags: u64,
    own: bool,
) -> MachineState
    decreases n,
{
    if n == 0 {
        s
    } else {
        let (t, page) = range_built(s, root, start, from, (n - 1) as nat, flags, own).take_page();
        let u = if own {
            t
        } else {
            t.op(MachineOp::Adjust { page, flags: VMPL1_RWX, required: false })
        };
        mapping::map_page(u, root, address::page_above(start, from + n - 1), page, flags)
    }
}

/// What a range for the monitor is, and the machine after it was built.
pub open spec fn range_for_monitor(s: MachineState, pages: u64) -> (MachineState, AllocationRange) {
    let t = range_built(
        stale_cleared(s),
        s.cr3,
        ALLOCATION_RANGE_VIRT_START,
        0,
        pages as nat,
        0x63,
        true,
    );
    (t.op(MachineOp::FlushTlb), AllocationRange(t.rd(s.cr3, 6), pages))
}

/// What a range for a process is, and the machine after it was built.
pub open spec fn range_for_process(s: MachineState, root: u64, pages: u64, start: u64) -> (
    MachineState,
    AllocationRange,
) {
    let t = range_built(s, root, start, 0, pages as nat, 0x67, false);
    (
        t.op(MachineOp::FlushTlb),
        AllocationRange(t.rd(root, entry::table_index(start, 3)), pages),
    )
}

/// What a range for the guest is, and the machine after it was built; it is
/// left mounted.
pub open spec fn range_for_guest(s: MachineState, pages: u64) -> (MachineState, AllocationRange) {
    let t = region::fill_run(
        stale_cleared(s),
        s.cr3,
        ALLOCATION_RANGE_VIRT_START,
        pages as nat,
        0x67,
        None,
    );
    (t.op(MachineOp::FlushTlb), AllocationRange(t.rd(s.cr3, 6), pages))
}

/// The instruction that changes the permissions of a table; a failure is
/// passed over.
pub open spec fn table_op(page: u64, flags: u64) -> MachineOp {
    MachineOp::Adjust { page, flags, required: false }
}

/// The instructions for the tables that the entries from index `i` on of a
/// table at level `lvl` lead to, up to the first entry that is not present,
/// and for those below them.
pub open spec fn table_ops(s: MachineState, table: u64, lvl: nat, i: nat, flags: u64) -> Seq<MachineOp>
    decreases lvl, 512 - i,
{
    if i >= 512 || !entry::present(s.rd(table, i as int)) {
        Seq::empty()
    } else {
        let next = entry::strip(s.c_bit, s.rd(table, i as int));
        seq![table_op(next, flags)] + (if lvl > 1 {
            table_ops(s, next, (lvl - 1) as nat, 0, flags)
        } else {
            Seq::empty()
        }) + table_ops(s, table, lvl, i + 1, flags)
    }
}

/// The instructions for all tables of a range.
pub open spec fn range_table_ops(s: MachineState, range: AllocationRange, flags: u64) -> Seq<MachineOp> {
    let pud = entry::strip(s.c_bit, range.0);
    seq![table_op(pud, flags)] + table_ops(s, pud, 2, 0, flags)
}

/// The instructions for `n` pages of a mounted range, from page `from` on.
pub open spec fn page_ops(s: MachineState, from: int, n: nat, flags: u64) -> Seq<MachineOp> {
    Seq::new(
        n,
        |i: int|
            {
                let vaddr = address::page_above(ALLOCATION_RANGE_VIRT_START, from + i);
                MachineOp::AdjustMounted { vaddr, page: walk::mounted(s, vaddr), flags }
            },
    )
}

/// The machine after the permissions of `n` pages of a mounted range, from page
/// `from` on, were asked for.
pub open spec fn pages_asked(s: MachineState, from: int, n: nat, flags: u64) -> MachineState {
    asked(s, page_ops(s, from, n, flags))
}

/// The machine after instructions were asked for.
pub open spec fn asked(s: MachineState, ops: Seq<MachineOp>) -> MachineState {
    MachineState { ops: s.ops + ops, ..s }
}

/// The pages that are freed with the entries from index `i` on of a table, up
/// to the first that is not present: first what an entry leads to, then its
/// table.
pub open spec fn freed_run(s: MachineState, table: u64, lvl: nat, i: nat) -> Seq<u64>
    decreases lvl, 512 - i,
{
    if i >= 512 || !entry::present(s.rd(table, i as int)) {
        Seq::empty()
    } else {
        let next = entry::strip(s.c_bit, s.rd(table, i as int));
        (if lvl > 0 {
            freed_run(s, next, (lvl - 1) as nat, 0)
        } else {
            Seq::empty()
        }).push(next) + freed_run(s, table, lvl, i + 1)
    }
}

/// The machine after a range was freed.
pub open spec fn range_deleted(s: MachineState, range: AllocationRange) -> MachineState {
    if range.0 == 0 {
        s
    } else {
        let pud = entry::strip(s.c_bit, range.0);
        teardown::released(s, freed_run(s, pud, 2, 0).push(pud))
    }
}

fn set_mount(m: &mut Machine, e: u64)
    ensures
        final(m)@ == mount_entry(old(m)@, e),
{
    let root = m.cr3;
    m.write(root, DEFAULT_ALLOCATION_RANGE_MOUNT, e);
    m.ask(MachineOp::FlushTlb);
}

/// Clears the mount that an earlier call left behind, if any: building through
/// it would add pages to a range that belongs to someone else.
fn clear_stale_mount(m: &mut Machine)
    ensures
        final(m)@ == stale_cleared(old(m)@),
{
    if m.read(m.cr3, DEFAULT_ALLOCATION_RANGE_MOUNT) != 0 {
        set_mount(m, 0);
    }
}

fn build_pages(
    m: &mut Machine,
    table: &ProcessPageTableRef,
    start: VirtAddr,
    from: u64,
    to: u64,
    flags: u64,
    own: bool,
)
    requires
        from <= to,
        mapping::flags_ok(flags),
    ensures
        final(m)@ == range_built(
            old(m)@,
            table.process_page_table,
            start,
            from as int,
            (to - from) as nat,
            flags,
            own,
        ),
{
    let mut i: u64 = from;
    while i < to
        invariant
            from <= i <= to,
            mapping::flags_ok(flags),
            m@ == range_built(
                old(m)@,
                table.process_page_table,
                start,
                from as int,
                (i - from) as nat,
                flags,
                own,
            ),
        decreases to - i,
    {
        let page = allocate_page(m);
        if !own {
            m.ask(MachineOp::Adjust { page, flags: VMPL1_RWX, required: false });
        }
        table.map_4k_page(m, pages_above(start, i), page, flags);
        i = i + 1;
    }
}

fn ask_tables(m: &Machine, table: PhysAddr, lvl: u64, flags: u64, out: &mut Vec<MachineOp>)
    requires
        1 <= lvl <= 2,
    ensures
        final(out)@ == old(out)@ + table_ops(m@, table, lvl as nat, 0, flags),
    decreases lvl,
{
    let ghost all = out@ + table_ops(m@, table, lvl as nat, 0, flags);
    let mut i: u64 = 0;
    while i < 512
        invariant_except_break
            i <= 512,
            1 <= lvl <= 2,
            out@ + table_ops(m@, table, lvl as nat, i as nat, flags) == all,
        ensures
            out@ == all,
        decreases 512 - i,
    {
        proof {
            reveal_with_fuel(table_ops, 2);
        }
        let found = m.read(table, i);
        if !is_present(found) {
            assert(out@ =~= all);
            break;
        }
        let next = strip_paddr(m.c_bit, found);
        let ghost before = out@;
        out.push(MachineOp::Adjust { page: next, flags, required: false });
        if lvl > 1 {
            ask_tables(m, next, lvl - 1, flags, out);
        }
        i = i + 1;
        assert(out@ + table_ops(m@, table, lvl as nat, i as nat, flags) =~= before + table_ops(
            m@,
            table,
            lvl as nat,
            (i - 1) as nat,
            flags,
        ));
        assert(i == 512 ==> out@ =~= all);
    }
}

fn ask_all(m: &mut Machine, ops: &Vec<MachineOp>)
    ensures
        final(m)@ == asked(old(m)@, ops@),
{
    let ghost before = m@;
    let mut i: usize = 0;
    assert(m@ =~= asked(before, ops@.take(0)));
    while i < ops.len()
        invariant
            i <= ops.len(),
            m@ == asked(before, ops@.take(i as int)),
        decreases ops.len() - i,
    {
        m.ask(ops[i]);
        i = i + 1;
        assert(ops@.take(i as int) =~= ops@.take(i - 1).push(ops@[i - 1]));
        assert(m@ =~= asked(before, ops@.take(i as int)));
    }
    assert(ops@.take(i as int) =~= ops@);
}

/// Asks for the permissions of pages of the mounted range.
pub fn ask_pages(m: &mut Machine, from: u64, to: u64, flags: u64)
    requires
        from <= to,
    ensures
        final(m)@ == pages_asked(old(m)@, from as int, (to - from) as nat, flags),
{
    let mut ops: Vec<MachineOp> = Vec::new();
    let mut i: u64 = from;
    while i < to
        invariant
            from <= i <= to,
            ops@ =~= page_ops(m@, from as int, (i - from) as nat, flags),
        decreases to - i,
    {
        let vaddr = pages_above(ALLOCATION_RANGE_VIRT_START, i);
        let page = mounted_frame(m, vaddr);
        ops.push(MachineOp::AdjustMounted { vaddr, page, flags });
        i = i + 1;
    }
    ask_all(m, &ops);
}

fn collect_run(m: &Machine, table: PhysAddr, lvl: u64, out: &mut Vec<PhysAddr>)
    requires
        lvl <= 2,
    ensures
        final(out)@ == old(out)@ + freed_run(m@, table, lvl as nat, 0),
    decreases lvl,
{
    let ghost all = out@ + freed_run(m@, table, lvl as nat, 0);
    let mut i: u64 = 0;
    while i < 512
        invariant_except_break
            i <= 512,
            lvl <= 2,
            out@ + freed_run(m@, table, lvl as nat, i as nat) == all,
        ensures
            out@ == all,
        decreases 512 - i,
    {
        proof {
            reveal_with_fuel(freed_run, 2);
        }
        let found = m.read(table, i);
        if !is_present(found) {
            assert(out@ =~= all);
            break;
        }
        let next = strip_paddr(m.c_bit, found);
        let ghost before = out@;
        if lvl > 0 {
            collect_run(m, next, lvl - 1, out);
        }
        out.push(next);
        i = i + 1;
        assert(out@ + freed_run(m@, table, lvl as nat, i as nat) =~= before + freed_run(
            m@,
            table,
            lvl as nat,
            (i - 1) as nat,
        ));
        assert(i == 512 ==> out@ =~= all);
    }
}

impl AllocationRange {
    /// Makes a range of fresh pages for the monitor and mounts it.
    pub fn allocate(&mut self, m: &mut Machine, pages: u64)
        ensures
            (final(m)@, *final(self)) == range_for_monitor(old(m)@, pages),
    {
        let root = m.cr3;
        let table = ProcessPageTableRef::external(root);
        proof {
            mapping::lemma_plain_flags();
        }
        clear_stale_mount(m);
        build_pages(m, &table, ALLOCATION_RANGE_VIRT_START, 0, pages, 0x63, true);
        self.0 = m.read(root, DEFAULT_ALLOCATION_RANGE_MOUNT);
        self.1 = pages;
        m.ask(MachineOp::FlushTlb);
    }

    /// Makes a range of fresh pages for processes in the monitor's own table.
    pub fn allocate_trustlet(&mut self, m: &mut Machine, pages: u64)
        ensures
            (final(m)@, *final(self)) == range_for_process(
                old(m)@,
                old(m)@.cr3,
                pages,
                ALLOCATION_RANGE_VIRT_START,
            ),
    {
        let mut table = ProcessPageTableRef::external(m.cr3);
        self.allocate_with_start_addr(m, &mut table, pages, ALLOCATION_RANGE_VIRT_START);
    }

    /// Makes a range of fresh pages in the table of a process.
    pub fn allocate_with_start_addr(
        &mut self,
        m: &mut Machine,
        page_table_ref: &mut ProcessPageTableRef,
        pages: u64,
        start_addr: u64,
    )
        ensures
            *final(page_table_ref) == *old(page_table_ref),
            (final(m)@, *final(self)) == range_for_process(
                old(m)@,
                old(page_table_ref).process_page_table,
                pages,
                start_addr,
            ),
    {
        proof {
            mapping::lemma_plain_flags();
        }
        build_pages(m, page_table_ref, start_addr, 0, pages, 0x67, false);
        let slot = ProcessPageTable::index::<PGD>(start_addr);
        self.0 = m.read(page_table_ref.process_page_table, slot as u64);
        self.1 = pages;
        m.ask(MachineOp::FlushTlb);
    }

    /// Makes a range of fresh pages for the guest and mounts it.
    pub fn allocate_for_guest(&mut self, m: &mut Machine, pages: u64)
        requires
            pages <= 0xF_D000_0000,
        ensures
            (final(m)@, *final(self)) == range_for_guest(old(m)@, pages),
    {
        let root = m.cr3;
        let table = ProcessPageTableRef::external(root);
        clear_stale_mount(m);
        table.map_region(m, ALLOCATION_RANGE_VIRT_START, pages, 0x67);
        self.0 = m.read(root, DEFAULT_ALLOCATION_RANGE_MOUNT);
        self.1 = pages;
        m.ask(MachineOp::FlushTlb);
    }

    /// Gives the tables and pages of the mounted range to the guest.
    pub fn guest_write_access(&mut self, m: &mut Machine)
        ensures
            *final(self) == *old(self),
            final(m)@ == pages_asked(
                asked(old(m)@, range_table_ops(old(m)@, *old(self), VMPL2_RWX)),
                0,
                old(self).1 as nat,
                VMPL2_RWX,
            ),
    {
        self.ask_range_tables(m, VMPL2_RWX);
        ask_pages(m, 0, self.1, VMPL2_RWX);
    }

    /// Leaves the guest with the permission to read the mounted range.
    pub fn guest_remove_write_access(&mut self, m: &mut Machine)
        ensures
            *final(self) == *old(self),
            final(m)@ == pages_asked(old(m)@, 0, old(self).1 as nat, VMPL2_READ),
    {
        ask_pages(m, 0, self.1, VMPL2_READ);
    }

    /// Lets processes read the range. Its tables are given to them, as the
    /// walk of a table writes to it.
    pub fn trustlet_read_access(&self, m: &mut Machine)
        ensures
            final(m)@ == mount_entry(
                pages_asked(
                    mount_entry(
                        asked(old(m)@, range_table_ops(old(m)@, *self, VMPL1_RWX)),
                        self.0,
                    ),
                    0,
                    self.1 as nat,
                    VMPL1_READ,
                ),
                0,
            ),
    {
        self.ask_range_tables(m, VMPL1_RWX);
        self.mount(m);
        ask_pages(m, 0, self.1, VMPL1_READ);
        self.unmount(m);
    }

    fn ask_range_tables(&self, m: &mut Machine, flags: u64)
        ensures
            final(m)@ == asked(old(m)@, range_table_ops(old(m)@, *self, flags)),
    {
        let mut ops: Vec<MachineOp> = Vec::new();
        let pud = strip_paddr(m.c_bit, self.0);
        ops.push(MachineOp::Adjust { page: pud, flags, required: false });
        ask_tables(m, pud, 2, flags, &mut ops);
        assert(ops@ =~= range_table_ops(m@, *self, flags));
        ask_all(m, &ops);
    }

    /// Adds pages to a range of a process until it has `pages` of them.
    pub fn inflate(
        &mut self,
        m: &mut Machine,
        page_table_ref: &mut ProcessPageTableRef,
        pages: u64,
        start_addr: u64,
    )
        ensures
            *final(page_table_ref) == *old(page_table_ref),
            old(self).1 >= pages ==> *final(self) == *old(self) && final(m)@ == old(m)@,
            old(self).1 < pages ==> {
                &&& *final(self) == AllocationRange(old(self).0, pages)
                &&& final(m)@ == range_built(
                    old(m)@,
                    old(page_table_ref).process_page_table,
                    start_addr,
                    old(self).1 as int,
                    (pages - old(self).1) as nat,
                    0x67,
                    false,
                )
            },
    {
        if self.1 >= pages {
            return ;
        }
        proof {
            mapping::lemma_plain_flags();
        }
        build_pages(m, page_table_ref, start_addr, self.1, pages, 0x67, false);
        self.1 = pages;
    }

    /// Mounts the range in the address space of the monitor.
    pub fn mount(&self, m: &mut Machine)
        ensures
            final(m)@ == mount_entry(old(m)@, self.0),
    {
        set_mount(m, self.0);
    }

    /// Takes whatever is mounted out of the address space of the monitor.
    pub fn unmount(&self, m: &mut Machine)
        ensures
            final(m)@ == mount_entry(old(m)@, 0),
    {
        set_mount(m, 0);
    }

    /// Frees the pages and tables of the range.
    pub fn delete(self, m: &mut Machine)
        ensures
            final(m)@ == range_deleted(old(m)@, self),
    {
        if self.0 == 0 {
            return ;
        }
        let mut freed: Vec<PhysAddr> = Vec::new();
        let pud = strip_paddr(m.c_bit, self.0);
        collect_run(m, pud, 2, &mut freed);
        freed.push(pud);
        assert(freed@ =~= freed_run(m@, pud, 2, 0).push(pud));
        free_pages(m, &freed);
    }
}

} // verus!
