//! The pool of pages.
use vstd::prelude::*;
use crate::address::PhysAddr;
use crate::error::{MonitorError, MonitorErrorType};
use crate::memory::machine::{Machine, MachineOp, MachineState};
use crate::process_manager::process_paging::entry;
use crate::process_manager::process_paging::entry::ProcessPageTable;
use crate::sev::utils::{SevSnpError, SvsmError};

verus! {

/// The pool that the monitor takes its pages from: a stack of freed pages,
/// and a region of memory that was never handed out.
#[derive(Debug)]
pub struct ProcessMemConfig {
    /// Whether the region has been set up.
    pub initilized: bool,
    /// Bytes of memory that the pool was set up with.
    pub total_size: u64,
    /// Bytes of memory that were free when the pool was set up.
    pub free: u64,
    /// Pages that were freed; the last one is handed out first.
    pub free_page_list: Vec<PhysAddr>,
    /// The first page that was never handed out.
    pub page_base: PhysAddr,
    /// The end of the region.
    pub page_limit: PhysAddr,
    /// The root table entry under which the list of free pages is mapped.
    pub free_page_list_table_entry: u64,
}

/// What a pool holds.
#[verifier::ext_equal]
pub struct PoolState {
    pub initilized: bool,
    pub total_size: u64,
    pub free: u64,
    pub list: Seq<u64>,
    pub base: u64,
    pub limit: u64,
    pub entry: u64,
}

impl View for ProcessMemConfig {
    type V = PoolState;

    open spec fn view(&self) -> PoolState {
        PoolState {
            initilized: self.initilized,
            total_size: self.total_size,
            free: self.free,
            list: self.free_page_list@,
            base: self.page_base,
            limit: self.page_limit,
            entry: self.free_page_list_table_entry,
        }
    }
}

impl PoolState {
    /// Pages of the region that were never handed out.
    pub open spec fn fresh_pages(self) -> int {
        if self.limit > self.base {
            (self.limit - self.base) / 4096
        } else {
            0
        }
    }

    /// Pages that can still be handed out.
    pub open spec fn available(self) -> int {
        self.fresh_pages() + self.list.len()
    }

    /// That number as a register holds it.
    pub open spec fn available_word(self) -> u64 {
        if self.available() <= u64::MAX {
            self.available() as u64
        } else {
            u64::MAX
        }
    }
}

impl ProcessMemConfig {
    /// An empty pool.
    pub fn new() -> (r: ProcessMemConfig)
        ensures
            r@ == (PoolState {
                initilized: false,
                total_size: 0,
                free: 0,
                list: Seq::<u64>::empty(),
                base: 0,
                limit: 0,
                entry: 0,
            }),
    {
        ProcessMemConfig {
            initilized: false,
            total_size: 0,
            free: 0,
            free_page_list: Vec::new(),
            page_base: 0,
            page_limit: 0,
            free_page_list_table_entry: 0,
        }
    }

    /// Pages that can still be handed out: the freed ones and what is left of
    /// the region.
    pub fn pages_available(&self) -> (r: u64)
        ensures
            r == self@.available_word(),
    {
        let fresh: u64 = if self.page_limit > self.page_base {
            (self.page_limit - self.page_base) / 4096
        } else {
            0
        };
        fresh.saturating_add(self.free_page_list.len() as u64)
    }

    /// Puts a page back.
    pub fn add_free_page(&mut self, free: PhysAddr)
        ensures
            final(self)@ == (PoolState { list: old(self)@.list.push(free), ..old(self)@ }),
    {
        self.free_page_list.push(free);
    }

    /// Takes the page that was freed last out of the pool and clears it; gives
    /// 0 where there is none.
    fn check_for_free_page(m: &mut Machine) -> (r: PhysAddr)
        ensures
            old(m)@.pool.list.len() == 0 ==> r == 0 && final(m)@ == old(m)@,
            old(m)@.pool.list.len() > 0 ==> r == old(m)@.pool.list.last() && final(m)@
                == old(m)@.popped(),
    {
        match m.pool.free_page_list.pop() {
            None => 0,
            Some(page) => {
                m.clear_page(page);
                page
            },
        }
    }

    /// Takes a page from the pool, cleared. Gives 0 where the pool is empty.
    pub fn get_free_page(m: &mut Machine) -> (r: PhysAddr)
        ensures
            (final(m)@, r) == old(m)@.take_page(),
    {
        let page = Self::check_for_free_page(m);
        if page != 0 {
            return page;
        }
        Self::get_next_page(m)
    }
}

/// Bytes at the start of the second region that stay with the guest.
pub const ADDITIONAL_GUEST_MEMORY: u64 = 0x8_0000_0000;

/// Pages that are taken out of the region ahead of their use.
pub const PREALLOCATED_SIZE: u64 = 4194304;

/// The slot of the root table under which the list of free pages is mapped.
pub const FREE_PAGE_LIST_SLOT: u64 = 1;

/// A run of memory.
#[derive(Clone, Copy, PartialEq, Eq, Structural, Debug)]
pub struct MemoryRegion {
    pub start: PhysAddr,
    pub end: PhysAddr,
}

impl MemoryRegion {
    pub open spec fn size(self) -> int {
        self.end - self.start
    }
}

/// Bytes of the list of free pages for a pool of `total` bytes: eight for each
/// page.
pub open spec fn list_size(total: int) -> int {
    total / 4096 * 8
}

/// Whether the regions of memory are ones that the pool can be set up with: 2
/// GiB for the guest at least, and a second region that holds 36 GiB at least
/// and leaves the pool aligned to pages.
pub open spec fn regions_ok(first: MemoryRegion, second: MemoryRegion) -> bool {
    &&& first.size() >= 0x8000_0000
    &&& second.size() >= ADDITIONAL_GUEST_MEMORY + 0x1_0000_0000
    &&& (second.start + list_size(second.size() - ADDITIONAL_GUEST_MEMORY)) % 4096 == 0
}

/// The machine after the first `n` pages of the list of free pages were
/// validated and cleared.
pub open spec fn list_prepared(s: MachineState, start: int, n: nat) -> MachineState
    decreases n,
{
    if n == 0 {
        s
    } else {
        let page = (start + (n - 1) * 4096) as u64;
        list_prepared(s, start, (n - 1) as nat).op(MachineOp::Pvalidate { page }).zero(page)
    }
}

/// The machine after the pool was set up. `entry` is the root table entry
/// under which the list of free pages is mapped.
pub open spec fn pool_made(s: MachineState, second: MemoryRegion, entry: u64) -> MachineState {
    if s.pool.initilized {
        s.wr(s.cr3, 1, s.pool.entry)
    } else {
        let total = second.size() - ADDITIONAL_GUEST_MEMORY;
        let start = second.start + ADDITIONAL_GUEST_MEMORY;
        let t = list_prepared(s.wr(s.cr3, 1, entry), start, (list_size(total) / 4096) as nat);
        MachineState {
            pool: PoolState {
                initilized: true,
                total_size: (total - list_size(total)) as u64,
                free: (total - list_size(total)) as u64,
                list: s.pool.list,
                base: (start + list_size(total)) as u64,
                limit: second.end,
                entry,
            },
            ..t
        }
    }
}

/// The machine after up to `n` pages of the region were put into the list of
/// free pages.
pub open spec fn preallocated(s: MachineState, n: nat) -> MachineState
    decreases n,
{
    if n == 0 {
        s
    } else {
        let (t, page) = preallocated(s, (n - 1) as nat).bumped();
        if page == 0 {
            t
        } else {
            t.release(page)
        }
    }
}

/// What a search for a page for a VMSA ends with: the machine, the page, and
/// the pages that were rejected on the way, of which the first eight are
/// remembered. None where the pool holds no page that will do.
pub open spec fn vmsa_search(s: MachineState, rejected: Seq<u64>) -> Option<
    (MachineState, u64, Seq<u64>),
>
    decreases s.pool.available(),
{
    let (t, page) = s.take_page();
    if page % 0x20_0000 != 0 {
        Some((t, page, rejected))
    } else if t.pool.available() >= s.pool.available() {
        None
    } else {
        vmsa_search(
            t,
            if rejected.len() < 8 {
                rejected.push(page)
            } else {
                rejected
            },
        )
    }
}

impl ProcessMemConfig {
    /// Bytes of the second region that are left for the monitor.
    fn check_requirements(first: MemoryRegion, second: MemoryRegion) -> (r: u64)
        requires
            regions_ok(first, second),
        ensures
            r == second.size() - ADDITIONAL_GUEST_MEMORY,
    {
        (second.end - second.start) - ADDITIONAL_GUEST_MEMORY
    }

    /// Bytes of the list of free pages, and the start of the memory behind it.
    fn free_memory_list(total_memory_size: u64, second: MemoryRegion) -> (r: (u64, u64))
        requires
            second.size() - ADDITIONAL_GUEST_MEMORY == total_memory_size,
        ensures
            r.0 == list_size(total_memory_size as int),
            r.1 == second.start + ADDITIONAL_GUEST_MEMORY + list_size(total_memory_size as int),
    {
        let size: u64 = (total_memory_size / 4096) * 8;
        (size, second.start + ADDITIONAL_GUEST_MEMORY + size)
    }

    /// Maps, validates and clears the list of free pages.
    fn prepare_free_memory_list(
        m: &mut Machine,
        free_memory_list_size: u64,
        second: MemoryRegion,
        entry: u64,
    )
        requires
            second.start + ADDITIONAL_GUEST_MEMORY + free_memory_list_size <= u64::MAX,
        ensures
            final(m)@ == list_prepared(
                old(m)@.wr(old(m)@.cr3, 1, entry),
                second.start + ADDITIONAL_GUEST_MEMORY,
                (free_memory_list_size / 4096) as nat,
            ),
    {
        let root = m.cr3;
        m.write(root, FREE_PAGE_LIST_SLOT, entry);
        let ghost mounted = m@;
        let start: u64 = second.start + ADDITIONAL_GUEST_MEMORY;
        let pages: u64 = free_memory_list_size / 4096;
        let mut p: u64 = 0;
        while p < pages
            invariant
                p <= pages,
                start + pages * 4096 <= u64::MAX,
                m@ == list_prepared(mounted, start as int, p as nat),
            decreases pages - p,
        {
            let page: u64 = start + p * 4096;
            m.ask(MachineOp::Pvalidate { page });
            m.clear_page(page);
            p = p + 1;
        }
    }

    /// Sets the pool up over the second region of memory. On a core that
    /// follows the first one only the list of free pages is mapped.
    pub fn init(m: &mut Machine, first: MemoryRegion, second: MemoryRegion, entry: u64)
        requires
            !old(m)@.pool.initilized ==> regions_ok(first, second),
        ensures
            final(m)@ == pool_made(old(m)@, second, entry),
    {
        if m.pool.initilized {
            let root = m.cr3;
            let kept = m.pool.free_page_list_table_entry;
            m.write(root, FREE_PAGE_LIST_SLOT, kept);
            return ;
        }
        let total_size = Self::check_requirements(first, second);
        let (list_bytes, usable) = Self::free_memory_list(total_size, second);
        Self::prepare_free_memory_list(m, list_bytes, second, entry);
        proof {
            lemma_list_keeps_pool(
                old(m)@.wr(old(m)@.cr3, 1, entry),
                second.start + ADDITIONAL_GUEST_MEMORY,
                (list_bytes / 4096) as nat,
            );
        }
        m.pool.free_page_list_table_entry = entry;
        m.pool.total_size = total_size - list_bytes;
        m.pool.free = total_size - list_bytes;
        m.pool.page_base = usable;
        m.pool.page_limit = second.end;
        m.pool.initilized = true;
    }

    /// Takes the first page of the region, cleared. Gives 0 where the region
    /// is used up.
    fn get_next_page(m: &mut Machine) -> (r: PhysAddr)
        ensures
            (final(m)@, r) == old(m)@.bumped(),
    {
        if m.pool.page_limit < 4096 || m.pool.page_base > m.pool.page_limit - 4096 {
            return 0;
        }
        let fresh = m.pool.page_base;
        m.pool.page_base = fresh + 4096;
        m.ask(MachineOp::Pvalidate { page: fresh });
        m.clear_page(fresh);
        fresh
    }

    /// Puts pages of the region into the list of free pages ahead of their
    /// use.
    pub fn preallocate_memory(m: &mut Machine)
        ensures
            final(m)@ == preallocated(old(m)@, PREALLOCATED_SIZE as nat),
    {
        let mut i: u64 = 0;
        while i < PREALLOCATED_SIZE
            invariant
                i <= PREALLOCATED_SIZE,
                m@ == preallocated(old(m)@, i as nat),
            decreases PREALLOCATED_SIZE - i,
        {
            let page = Self::get_next_page(m);
            if page != 0 {
                m.pool.add_free_page(page);
            }
            i = i + 1;
        }
    }

    /// The end of what was taken from the region, less what was given back.
    pub fn allocated_amount(&self) -> (r: u64)
        requires
            self@.list.len() * 4096 <= self@.base,
        ensures
            r == self@.base - self@.list.len() * 4096,
    {
        self.page_base - (self.free_page_list.len() as u64) * 4096
    }
}

proof fn lemma_list_keeps_pool(s: MachineState, start: int, n: nat)
    ensures
        list_prepared(s, start, n).pool == s.pool,
    decreases n,
{
    if n > 0 {
        lemma_list_keeps_pool(s, start, (n - 1) as nat);
    }
}

/// The index of an address in a table at level `lvl`.
pub fn addr_to_idx(addr: u64, lvl: usize) -> (r: usize)
    requires
        lvl <= 5,
    ensures
        r == entry::table_index(addr, lvl as int),
{
    ProcessPageTable::index_arg(lvl, addr)
}

/// Takes a page that can be the VMSA of a guest from the pool. Pages that are
/// aligned to 2 MiB cannot; they go back into the pool afterwards, but for
/// those beyond the eighth.
pub fn allocate_vmsa_page(m: &mut Machine) -> (r: PhysAddr)
    requires
        vmsa_search(old(m)@, Seq::empty()) is Some,
    ensures
        vmsa_search(old(m)@, Seq::empty()) matches Some((t, page, rejected)) && r == page
            && final(m)@ == (MachineState {
            pool: PoolState { list: t.pool.list + rejected, ..t.pool },
            ..t
        }),
{
    let mut rejected: Vec<PhysAddr> = Vec::new();
    let ghost found = vmsa_search(m@, Seq::empty());
    let mut page: PhysAddr = allocate_page(m);
    while page % 0x20_0000 == 0
        invariant
            found is Some,
            exists|s: MachineState| #[trigger]
                s.take_page() == (m@, page) && vmsa_search(s, rejected@) == found,
        decreases m@.pool.available(),
    {
        proof {
            let s = choose|s: MachineState| #[trigger]
                s.take_page() == (m@, page) && vmsa_search(s, rejected@) == found;
            reveal_with_fuel(vmsa_search, 2);
            lemma_take_shrinks(m@);
        }
        if rejected.len() < 8 {
            rejected.push(page);
        }
        page = allocate_page(m);
    }
    let ghost taken = m@;
    let mut i: usize = 0;
    assert(m@.pool.list =~= taken.pool.list + rejected@.take(0));
    while i < rejected.len()
        invariant
            i <= rejected.len(),
            m@ == (MachineState {
                pool: PoolState {
                    list: taken.pool.list + rejected@.take(i as int),
                    ..taken.pool
                },
                ..taken
            }),
        decreases rejected.len() - i,
    {
        free_page(m, rejected[i]);
        i = i + 1;
        assert(rejected@.take(i as int) =~= rejected@.take(i - 1).push(rejected@[i - 1]));
        assert(m@.pool.list =~= taken.pool.list + rejected@.take(i as int));
    }
    assert(rejected@.take(i as int) =~= rejected@);
    page
}

proof fn lemma_take_shrinks(s: MachineState)
    ensures
        s.take_page().0.pool.available() < s.pool.available() || (s.take_page().1 == 0
            && s.take_page().0 == s),
{
}

/// Bytes that were taken from the region and not given back, counted from
/// address 0.
pub fn allocated_amount(m: &Machine) -> (r: u64)
    requires
        m@.pool.list.len() * 4096 <= m@.pool.base,
    ensures
        r == m@.pool.base - m@.pool.list.len() * 4096,
{
    m.pool.allocated_amount()
}

/// Sets the pool up.
pub fn additional_monitor_memory_init(
    m: &mut Machine,
    first: MemoryRegion,
    second: MemoryRegion,
    entry: u64,
) -> (r: Result<(), MonitorError>)
    requires
        !old(m)@.pool.initilized ==> regions_ok(first, second),
    ensures
        r is Ok,
        final(m)@ == pool_made(old(m)@, second, entry),
{
    ProcessMemConfig::init(m, first, second, entry);
    Ok(())
}

/// Puts pages of the region into the list of free pages ahead of their use.
pub fn preallocate_memory(m: &mut Machine)
    ensures
        final(m)@ == preallocated(old(m)@, PREALLOCATED_SIZE as nat),
{
    ProcessMemConfig::preallocate_memory(m)
}

/// Judges what `PVALIDATE` did to a page that is to be valid.
pub fn monitor_pvalidate_vaddr_4k(outcome: Result<(), SvsmError>) -> (r: Result<(), MonitorError>)
    ensures
        r == (if outcome is Ok {
            Ok(())
        } else {
            Err(MonitorError(MonitorErrorType::PvalidateFailed))
        }),
{
    monitor_pvalidate_vaddr(outcome, false)
}

/// Judges what `PVALIDATE` did to a page. That the page was valid already is
/// no failure where `ign_cf` is set.
pub fn monitor_pvalidate_vaddr(outcome: Result<(), SvsmError>, ign_cf: bool) -> (r: Result<
    (),
    MonitorError,
>)
    ensures
        r == (if outcome is Ok || (ign_cf && outcome matches Err(
            SvsmError::SevSnp(SevSnpError::FAIL_UNCHANGED(_)),
        )) {
            Ok(())
        } else {
            Err(MonitorError(MonitorErrorType::PvalidateFailed))
        }),
{
    match outcome {
        Ok(_) => Ok(()),
        Err(SvsmError::SevSnp(SevSnpError::FAIL_UNCHANGED(_))) if ign_cf => Ok(()),
        Err(_) => Err(MonitorError::validate_failed()),
    }
}

/// Takes a page from the pool, cleared. Gives 0 where the pool is empty.
pub fn allocate_page(m: &mut Machine) -> (r: PhysAddr)
    ensures
        (final(m)@, r) == old(m)@.take_page(),
{
    ProcessMemConfig::get_free_page(m)
}

/// Pages that can still be handed out.
pub fn pages_available(m: &Machine) -> (r: u64)
    ensures
        r == m@.pool.available_word(),
{
    m.pool.pages_available()
}

/// Puts a page back into the pool.
pub fn free_page(m: &mut Machine, addr: PhysAddr)
    ensures
        final(m)@ == old(m)@.release(addr),
{
    m.pool.add_free_page(addr);
}

} // verus!
