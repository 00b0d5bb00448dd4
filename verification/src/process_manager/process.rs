//! Trusted processes and the store that holds them.
use vstd::prelude::*;
use crate::address;
use crate::address::{PhysAddr, VirtAddr};
use crate::crypto;
use crate::crypto::digest_of;
use crate::memory::machine;
use crate::memory::machine::{Machine, MachineState};
use crate::process_manager::allocation::AllocationRange;
use crate::process_manager::memory_channels::MemoryChannel;
use crate::process_manager::process_memory::free_page;
use crate::process_manager::process_paging::elf_image;
use crate::process_manager::process_paging::loading;
use crate::process_manager::process_paging::mapping;
use crate::process_manager::process_paging::mapping::{
    TP_LIBOS_START_VADDR, TP_MANIFEST_START_VADDR,
};
use crate::process_manager::process_paging::program;
use crate::process_manager::process_paging::soundness;
use crate::process_manager::process_paging::teardown;
use crate::process_manager::process_paging::walk;
use crate::process_manager::process_paging::walk::{read_mounted, ProcessPageTableRef};
use crate::process_runtime::process::mmap::MmapManager;

verus! {

/// Names a process by its place in the store.
#[derive(Clone, Copy, PartialEq, Eq, Structural, Debug)]
pub struct ProcessID(pub usize);

/// Digests of what a process took and gave.
#[derive(Clone, Copy, Debug)]
pub struct ProcessMeasurements {
    pub input_data: [u8; 64],
    pub output_data: [u8; 64],
}

impl Default for ProcessMeasurements {
    fn default() -> (r: Self)
        ensures
            r == no_measurements(),
    {
        ProcessMeasurements { input_data: [0u8; 64], output_data: [0u8; 64] }
    }
}

pub open spec fn no_measurements() -> ProcessMeasurements {
    ProcessMeasurements {
        input_data: vstd::array::spec_array_fill_for_copy_type::<u8, 64>(0),
        output_data: vstd::array::spec_array_fill_for_copy_type::<u8, 64>(0),
    }
}

/// What a process is.
#[derive(Clone, Copy, PartialEq, Eq, Structural, Debug)]
pub enum TrustedProcessType {
    /// There is no process.
    Undefined,
    /// A process that others are made from.
    Zygote,
    /// A process that runs.
    Trustlet,
}

/// The program of a process.
#[derive(Clone, Copy, PartialEq, Eq, Structural, Debug)]
pub struct ProcessBaseContext {
    pub page_table_ref: ProcessPageTableRef,
    pub entry_point: VirtAddr,
    pub alloc_range: AllocationRange,
    pub alloc_range_manifest: AllocationRange,
    pub alloc_range_libos: AllocationRange,
    pub alloc_range_function: AllocationRange,
}

pub open spec fn no_base() -> ProcessBaseContext {
    ProcessBaseContext {
        page_table_ref: ProcessPageTableRef { process_page_table: 0 },
        entry_point: 0,
        alloc_range: AllocationRange(0, 0),
        alloc_range_manifest: AllocationRange(0, 0),
        alloc_range_libos: AllocationRange(0, 0),
        alloc_range_function: AllocationRange(0, 0),
    }
}

impl Default for ProcessBaseContext {
    fn default() -> (r: Self)
        ensures
            r == no_base(),
    {
        ProcessBaseContext {
            page_table_ref: ProcessPageTableRef::default(),
            entry_point: 0,
            alloc_range: AllocationRange(0, 0),
            alloc_range_manifest: AllocationRange(0, 0),
            alloc_range_libos: AllocationRange(0, 0),
            alloc_range_function: AllocationRange(0, 0),
        }
    }
}

/// What a process runs with.
#[derive(Clone, Copy, Debug)]
pub struct ProcessContext {
    pub base: ProcessBaseContext,
    /// The state page.
    pub vmsa: PhysAddr,
    pub channel: MemoryChannel,
    pub sev_features: u64,
    pub measurements: ProcessMeasurements,
    pub page_table_ref: ProcessPageTableRef,
}

pub open spec fn no_channel() -> MemoryChannel {
    MemoryChannel {
        input: AllocationRange(0, 0),
        output: AllocationRange(0, 0),
        owner: ProcessID(0),
        last_in_channel: false,
        next: None,
        input_borrowed: false,
    }
}

pub open spec fn no_context() -> ProcessContext {
    ProcessContext {
        base: no_base(),
        vmsa: 0,
        channel: no_channel(),
        sev_features: 0,
        measurements: no_measurements(),
        page_table_ref: ProcessPageTableRef { process_page_table: 0 },
    }
}

impl Default for ProcessContext {
    fn default() -> (r: Self)
        ensures
            r == no_context(),
    {
        ProcessContext {
            base: ProcessBaseContext::default(),
            vmsa: 0,
            channel: MemoryChannel::default(),
            sev_features: 0,
            measurements: ProcessMeasurements::default(),
            page_table_ref: ProcessPageTableRef::default(),
        }
    }
}

/// A process.
#[derive(Debug)]
pub struct TrustedProcess {
    pub process_type: TrustedProcessType,
    /// The place of the process in the store.
    pub id: u64,
    /// The process that it was made from.
    pub parent_id: u64,
    pub base: ProcessBaseContext,
    pub measurements: ProcessMeasurements,
    pub context: ProcessContext,
    pub mmap_manager: MmapManager,
    /// The page of a mapped file that the process waits for.
    pub pf_target_vaddr: u64,
    pub infer_context: AllocationRange,
    /// Whether the process has ended for good and cannot be resumed.
    pub dead: bool,
    /// The core that polls for the process; -1 is none.
    pub gpu_core: i64,
    /// Whether a core is running the process.
    pub running: bool,
    /// The core that runs the process.
    pub invoke_owner_apic: u32,
    /// When the core began to run it; 0 is never.
    pub invoke_start_tsc: u64,
    /// The last call of the process.
    pub last_pcall: u64,
    /// Whether that call is being served.
    pub in_pcall: bool,
}

impl TrustedProcess {
    /// Whether this is no process: nothing of it is in use.
    pub open spec fn is_blank(self) -> bool {
        &&& self.process_type == TrustedProcessType::Undefined
        &&& self.id == 0
        &&& self.parent_id == 0
        &&& self.base == no_base()
        &&& self.measurements == no_measurements()
        &&& self.context == no_context()
        &&& self.mmap_manager@.len() == 0
        &&& self.pf_target_vaddr == 0
        &&& self.infer_context == AllocationRange(0, 0)
        &&& !self.dead
        &&& self.gpu_core == -1
        &&& !self.running
        &&& self.invoke_owner_apic == u32::MAX
        &&& self.invoke_start_tsc == 0
        &&& self.last_pcall == 0
        &&& !self.in_pcall
    }

    /// No process.
    pub fn empty() -> (r: Self)
        ensures
            r.is_blank(),
    {
        TrustedProcess {
            process_type: TrustedProcessType::Undefined,
            id: 0,
            parent_id: 0,
            base: ProcessBaseContext::default(),
            measurements: ProcessMeasurements::default(),
            context: ProcessContext::default(),
            mmap_manager: MmapManager::new(),
            pf_target_vaddr: 0,
            infer_context: AllocationRange(0, 0),
            dead: false,
            gpu_core: -1,
            running: false,
            invoke_owner_apic: u32::MAX,
            invoke_start_tsc: 0,
            last_pcall: 0,
            in_pcall: false,
        }
    }

    /// A process that is made from another, in the place `pid`, and runs with
    /// the given context.
    pub fn dublicate(zygote: &TrustedProcess, pid: ProcessID, context: ProcessContext) -> (r: Self)
        ensures
            r.process_type == TrustedProcessType::Trustlet,
            r.id == 0,
            r.parent_id == pid.0,
            r.base == zygote.base,
            r.measurements == zygote.measurements,
            r.context == context,
            r.mmap_manager@.len() == 0,
            r.pf_target_vaddr == 0,
            r.infer_context == AllocationRange(0, 0),
            !r.dead,
            r.gpu_core == -1,
            !r.running,
            r.invoke_owner_apic == u32::MAX,
            r.invoke_start_tsc == 0,
            r.last_pcall == 0,
            !r.in_pcall,
    {
        TrustedProcess {
            process_type: TrustedProcessType::Trustlet,
            id: 0,
            parent_id: pid.0 as u64,
            base: zygote.base,
            measurements: zygote.measurements,
            context,
            mmap_manager: MmapManager::new(),
            pf_target_vaddr: 0,
            infer_context: AllocationRange(0, 0),
            dead: false,
            gpu_core: -1,
            running: false,
            invoke_owner_apic: u32::MAX,
            invoke_start_tsc: 0,
            last_pcall: 0,
            in_pcall: false,
        }
    }

    /// The slots of the root table that belong to a living process at the
    /// other end of a channel: the input, where it is the output of another
    /// process, and the output, where it is the input of one.
    pub open spec fn shared_slots(self) -> Seq<usize> {
        let first = if self.context.channel.input_borrowed {
            seq![5usize]
        } else {
            Seq::empty()
        };
        if self.context.channel.next is Some {
            first.push(6)
        } else {
            first
        }
    }

    /// The machine after the memory of the process was freed. Nothing can
    /// share what a process that others are made from has; the program of a
    /// process that was made from another is not its own. `keep` are the
    /// addresses of pages of the monitor that all processes have. The state
    /// page is freed where it could be taken from the process.
    pub open spec fn torn_down(self, s: MachineState, keep: Seq<u64>, revoked: bool) -> MachineState {
        let t = match self.process_type {
            TrustedProcessType::Undefined => s,
            TrustedProcessType::Zygote => teardown::table_deleted(
                s,
                self.base.page_table_ref.process_page_table,
                keep,
                true,
                Seq::empty(),
            ),
            TrustedProcessType::Trustlet => teardown::table_deleted(
                s,
                self.context.page_table_ref.process_page_table,
                keep,
                false,
                self.shared_slots(),
            ),
        };
        if self.process_type != TrustedProcessType::Undefined && revoked {
            t.release(self.context.vmsa)
        } else {
            t
        }
    }

    /// Frees the memory of the process.
    pub fn teardown(&self, m: &mut Machine, keep: &Vec<VirtAddr>, revoked: bool)
        ensures
            final(m)@ == self.torn_down(old(m)@, keep@, revoked),
    {
        match self.process_type {
            TrustedProcessType::Undefined => {},
            TrustedProcessType::Zygote => {
                let none: Vec<usize> = Vec::new();
                self.base.page_table_ref.delete(m, keep, true, &none);
                if revoked {
                    free_page(m, self.context.vmsa);
                }
            },
            TrustedProcessType::Trustlet => {
                let mut skip: Vec<usize> = Vec::new();
                if self.context.channel.input_borrowed {
                    skip.push(5);
                }
                if self.context.channel.next.is_some() {
                    skip.push(6);
                }
                assert(skip@ =~= self.shared_slots());
                self.context.page_table_ref.delete(m, keep, false, &skip);
                if revoked {
                    free_page(m, self.context.vmsa);
                }
            },
        }
    }
}

/// The processes.
#[derive(Debug)]
pub struct TrustedProcessStore {
    pub processes: Vec<TrustedProcess>,
}

impl View for TrustedProcessStore {
    type V = Seq<TrustedProcess>;

    open spec fn view(&self) -> Seq<TrustedProcess> {
        self.processes@
    }
}

/// The first place without a process; the length where there is none.
pub open spec fn first_free(s: Seq<TrustedProcess>, i: nat) -> nat
    decreases s.len() - i,
{
    if i >= s.len() || s[i as int].process_type == TrustedProcessType::Undefined {
        i
    } else {
        first_free(s, i + 1)
    }
}

impl TrustedProcessStore {
    /// A store without places.
    pub fn new() -> (r: Self)
        ensures
            r@ == Seq::<TrustedProcess>::empty(),
    {
        TrustedProcessStore { processes: Vec::new() }
    }

    fn push(&mut self, process: TrustedProcess)
        ensures
            final(self)@ == old(self)@.push(process),
    {
        self.processes.push(process);
    }

    /// Adds places without a process.
    pub fn init(&mut self, size: u32)
        ensures
            final(self)@.len() == old(self)@.len() + size,
            final(self)@.take(old(self)@.len() as int) == old(self)@,
            forall|i: int|
                old(self)@.len() <= i < final(self)@.len() ==> (#[trigger] final(self)@[i]).is_blank(),
    {
        let ghost before = self@;
        let mut i: u32 = 0;
        while i < size
            invariant
                i <= size,
                self@.len() == before.len() + i,
                self@.take(before.len() as int) =~= before,
                forall|k: int| before.len() <= k < self@.len() ==> (#[trigger] self@[k]).is_blank(),
            decreases size - i,
        {
            let empty_process = TrustedProcess::empty();
            self.push(empty_process);
            i = i + 1;
        }
    }

    /// Puts a process in the first free place; its id is that place. Gives it,
    /// or -1 where there is none.
    pub fn insert(&mut self, p: TrustedProcess) -> (r: i64)
        requires
            old(self)@.len() <= i64::MAX,
        ensures
            ({
                let i = first_free(old(self)@, 0);
                if i < old(self)@.len() {
                    r == i && final(self)@ == old(self)@.update(
                        i as int,
                        TrustedProcess { id: i as u64, ..p },
                    )
                } else {
                    r == -1 && final(self)@ == old(self)@
                }
            }),
    {
        let mut i: usize = 0;
        while i < self.processes.len()
            invariant
                i <= self.processes.len(),
                self@ == old(self)@,
                old(self)@.len() <= i64::MAX,
                first_free(old(self)@, 0) == first_free(old(self)@, i as nat),
            decreases self.processes.len() - i,
        {
            if self.processes[i].process_type == TrustedProcessType::Undefined {
                self.processes[i] = TrustedProcess { id: i as u64, ..p };
                return i as i64;
            }
            i = i + 1;
        }
        -1
    }

    /// Places in the store.
    pub fn len(&self) -> (r: usize)
        ensures
            r == self@.len(),
    {
        self.processes.len()
    }

    /// A process.
    pub fn get(&mut self, pid: ProcessID) -> (r: &mut TrustedProcess)
        requires
            pid.0 < old(self)@.len(),
        ensures
            *r == old(self)@[pid.0 as int],
            final(self)@ == old(self)@.update(pid.0 as int, *final(r)),
    {
        &mut self.processes[pid.0]
    }

    /// A process, to look at.
    pub fn peek(&self, pid: ProcessID) -> (r: &TrustedProcess)
        requires
            pid.0 < self@.len(),
        ensures
            *r == self@[pid.0 as int],
    {
        &self.processes[pid.0]
    }

    /// Removes a process and frees its memory.
    pub fn delete(&mut self, m: &mut Machine, pid: ProcessID, keep: &Vec<VirtAddr>, revoked: bool)
        requires
            pid.0 < old(self)@.len(),
        ensures
            final(m)@ == old(self)@[pid.0 as int].torn_down(old(m)@, keep@, revoked),
            final(self)@ == old(self)@.update(pid.0 as int, final(self)@[pid.0 as int]),
            final(self)@[pid.0 as int].is_blank(),
    {
        self.processes[pid.0].teardown(m, keep, revoked);
        self.processes[pid.0] = TrustedProcess::empty();
    }
}

/// Bytes of a file with the rest of its last page, and a page more where it
/// ends with a page.
pub open spec fn extended(size: u64) -> nat {
    (size / 4096 * 4096 + 4096) as nat
}

/// The bytes that the guest has from an address on.
pub open spec fn guest_bytes(s: MachineState, root: u64, va: u64, size: nat) -> Seq<u8> {
    Seq::new(
        size,
        |i: int|
            machine::byte_at(
                s.mem,
                walk::translate(s, root, address::addr_add(va, i)) + address::addr_add(va, i)
                    % 4096,
            ),
    )
}

fn read_guest(m: &Machine, root: PhysAddr, va: VirtAddr, size: u64) -> (r: Vec<u8>)
    ensures
        r@ == guest_bytes(m@, root, va, size as nat),
{
    let table = ProcessPageTableRef::external(root);
    let mut r: Vec<u8> = Vec::new();
    let mut i: u64 = 0;
    while i < size
        invariant
            i <= size,
            table.process_page_table == root,
            r@.len() == i,
            forall|k: int|
                0 <= k < i ==> r@[k] == guest_bytes(m@, root, va, size as nat)[k],
        decreases size - i,
    {
        let a = va.wrapping_add(i);
        assert(a == address::addr_add(va, i as int));
        let frame = table.get_page(m, a);
        proof {
            walk::lemma_translate_bound(m@, root, a);
        }
        r.push(m.read_byte(frame + a % 4096));
        i = i + 1;
    }
    r
}

impl ProcessBaseContext {
    /// The machine after the manifest in `size` bytes of the monitor was mapped,
    /// with the rest of its last page.
    pub open spec fn with_manifest(self, s: MachineState, manifest: u64, size: u64) -> MachineState {
        mapping::data_mapped(
            s,
            self.page_table_ref.process_page_table,
            TP_MANIFEST_START_VADDR,
            walk::mounted_bytes(s, manifest, extended(size)),
            extended(size) / 4096,
        )
    }

    /// The machine after the library OS in `size` bytes of the monitor was
    /// mapped, with the rest of its last page.
    pub open spec fn with_libos(self, s: MachineState, libos: u64, size: u64) -> MachineState {
        mapping::data_mapped(
            s,
            self.page_table_ref.process_page_table,
            TP_LIBOS_START_VADDR,
            walk::mounted_bytes(s, libos, extended(size)),
            extended(size) / 4096,
        )
    }

    /// The machine after the library OS in `size` bytes of the guest was mapped,
    /// with zeros in the rest of its last page.
    pub open spec fn with_guest_libos(self, s: MachineState, guest_va: u64, size: u64, guest_pgt: u64) -> MachineState {
        mapping::data_mapped(
            s,
            self.page_table_ref.process_page_table,
            TP_LIBOS_START_VADDR,
            guest_bytes(s, guest_pgt, guest_va, size as nat) + Seq::new(
                (extended(size) - size) as nat,
                |i: int| 0u8,
            ),
            extended(size) / 4096,
        )
    }

    /// Loads the program in `size` bytes of the monitor at `elf`. Gives
    /// `false`, with nothing changed, where they are no program.
    pub fn init(&mut self, m: &mut Machine, elf: VirtAddr, size: u64) -> (r: bool)
        ensures
            match elf_image::program(walk::mounted_bytes(old(m)@, elf, size as nat)) {
                None => !r && *final(self) == *old(self) && final(m)@ == old(m)@,
                Some((entry, phdrs)) => r && ({
                    let (t, root) = mapping::root_made(old(m)@);
                    &&& *final(self) == (ProcessBaseContext {
                        page_table_ref: ProcessPageTableRef { process_page_table: root },
                        entry_point: entry,
                        ..*old(self)
                    })
                    &&& final(m)@ == elf_image::program_loaded(
                        t,
                        root,
                        phdrs,
                        walk::mounted_bytes(old(m)@, elf, size as nat),
                    )
                }),
            },
    {
        let data = read_mounted(m, elf, size);
        let mut table = ProcessPageTableRef::default();
        match table.build_from_file(m, &data) {
            None => false,
            Some(entry) => {
                self.entry_point = entry;
                self.page_table_ref = table;
                true
            },
        }
    }

    /// The same as `init`; where the program came from is not remembered.
    pub fn init_with_data(
        &mut self,
        m: &mut Machine,
        elf: VirtAddr,
        size: u64,
        _data: AllocationRange,
    ) -> (r: bool)
        ensures
            match elf_image::program(walk::mounted_bytes(old(m)@, elf, size as nat)) {
                None => !r && *final(self) == *old(self) && final(m)@ == old(m)@,
                Some((entry, phdrs)) => r && ({
                    let (t, root) = mapping::root_made(old(m)@);
                    &&& *final(self) == (ProcessBaseContext {
                        page_table_ref: ProcessPageTableRef { process_page_table: root },
                        entry_point: entry,
                        ..*old(self)
                    })
                    &&& final(m)@ == elf_image::program_loaded(
                        t,
                        root,
                        phdrs,
                        walk::mounted_bytes(old(m)@, elf, size as nat),
                    )
                }),
            },
    {
        self.init(m, elf, size)
    }

    /// Maps the manifest in `size` bytes of the monitor, with the rest of its
    /// last page.
    pub fn add_manifest(
        &mut self,
        m: &mut Machine,
        manifest: VirtAddr,
        size: u64,
        _data: AllocationRange,
    )
        requires
            size <= u64::MAX - 4096,
        ensures
            *final(self) == *old(self),
            final(m)@ == old(self).with_manifest(old(m)@, manifest, size),
    {
        let data = read_mounted(m, manifest, size - size % 4096 + 4096);
        self.page_table_ref.add_manifest(m, &data);
    }

    /// Maps the library OS in `size` bytes of the monitor, with the rest of
    /// its last page.
    pub fn add_libos(&mut self, m: &mut Machine, libos: VirtAddr, size: u64, _data: AllocationRange)
        requires
            size <= u64::MAX - 4096,
        ensures
            *final(self) == *old(self),
            final(m)@ == old(self).with_libos(old(m)@, libos, size),
    {
        let data = read_mounted(m, libos, size - size % 4096 + 4096);
        self.page_table_ref.add_libos(m, &data);
    }

    /// Maps the library OS straight from the guest, with zeros in the rest of
    /// its last page. Gives the digest of its bytes.
    pub fn add_libos_from_guest(
        &mut self,
        m: &mut Machine,
        guest_va: u64,
        size: u64,
        guest_pgt: u64,
    ) -> (r: [u8; 64])
        requires
            size <= u64::MAX - 4096,
        ensures
            *final(self) == *old(self),
            r@ == crypto::sha512(guest_bytes(old(m)@, guest_pgt, guest_va, size as nat)),
            final(m)@ == old(self).with_guest_libos(old(m)@, guest_va, size, guest_pgt),
    {
        let mut data = read_guest(m, guest_pgt, guest_va, size);
        let digest = digest_of(&data);
        let ghost bytes = data@;
        let rest: u64 = 4096 - size % 4096;
        let mut i: u64 = 0;
        while i < rest
            invariant
                i <= rest,
                data@ =~= bytes + Seq::new(i as nat, |k: int| 0u8),
            decreases rest - i,
        {
            data.push(0);
            i = i + 1;
        }
        self.page_table_ref.add_libos(m, &data);
        digest
    }
}

/// What the size of data is extended to are whole pages.
proof fn lemma_extended(size: u64)
    ensures
        extended(size) == 4096 * (extended(size) / 4096),
        size < extended(size) <= size + 4096,
{
}

/// Bytes that the monitor has are found where they were mapped.
#[verifier::rlimit(60)]
proof fn lemma_data_is_found(
    s: MachineState,
    root: u64,
    start: u64,
    from: u64,
    size: u64,
    k: int,
)
    requires
        soundness::sound(s, root),
        s.c_bit & 0x8000_0000_0000_0FFF == 0,
        start % 4096 == 0,
        size <= 0xFFFF_FFFF_FFFF,
        s.pool.available() >= program::data_takes(
            s,
            root,
            start,
            walk::mounted_bytes(s, from, extended(size)),
            extended(size) / 4096,
        ),
        0 <= k < size,
    ensures
        loading::found_byte(
            mapping::data_mapped(
                s,
                root,
                start,
                walk::mounted_bytes(s, from, extended(size)),
                extended(size) / 4096,
            ),
            root,
            address::addr_add(start, k),
        ) == walk::mounted_byte(s, address::addr_add(from, k)),
{
    let data = walk::mounted_bytes(s, from, extended(size));
    lemma_extended(size);
    program::law_mapped_data_is_found(s, root, start, data, extended(size) / 4096);
    assert(data[k] == walk::mounted_byte(s, address::addr_add(from, k)));
}

/// A process finds its manifest at the address for it, byte by byte.
pub proof fn law_process_finds_its_manifest(
    base: ProcessBaseContext,
    s: MachineState,
    manifest: u64,
    size: u64,
)
    requires
        soundness::sound(s, base.page_table_ref.process_page_table),
        s.c_bit & 0x8000_0000_0000_0FFF == 0,
        size <= 0xFFFF_FFFF_FFFF,
        s.pool.available() >= program::data_takes(
            s,
            base.page_table_ref.process_page_table,
            TP_MANIFEST_START_VADDR,
            walk::mounted_bytes(s, manifest, extended(size)),
            extended(size) / 4096,
        ),
    ensures
        forall|k: int|
            0 <= k < size ==> loading::found_byte(
                base.with_manifest(s, manifest, size),
                base.page_table_ref.process_page_table,
                #[trigger] address::addr_add(TP_MANIFEST_START_VADDR, k),
            ) == walk::mounted_byte(s, address::addr_add(manifest, k)),
{
    let root = base.page_table_ref.process_page_table;
    assert forall|k: int| 0 <= k < size implies loading::found_byte(
        base.with_manifest(s, manifest, size),
        root,
        #[trigger] address::addr_add(TP_MANIFEST_START_VADDR, k),
    ) == walk::mounted_byte(s, address::addr_add(manifest, k)) by {
        lemma_data_is_found(s, root, TP_MANIFEST_START_VADDR, manifest, size, k);
    }
}

/// A process finds its library OS at the address for it, byte by byte.
pub proof fn law_process_finds_its_library_os(
    base: ProcessBaseContext,
    s: MachineState,
    libos: u64,
    size: u64,
)
    requires
        soundness::sound(s, base.page_table_ref.process_page_table),
        s.c_bit & 0x8000_0000_0000_0FFF == 0,
        size <= 0xFFFF_FFFF_FFFF,
        s.pool.available() >= program::data_takes(
            s,
            base.page_table_ref.process_page_table,
            TP_LIBOS_START_VADDR,
            walk::mounted_bytes(s, libos, extended(size)),
            extended(size) / 4096,
        ),
    ensures
        forall|k: int|
            0 <= k < size ==> loading::found_byte(
                base.with_libos(s, libos, size),
                base.page_table_ref.process_page_table,
                #[trigger] address::addr_add(TP_LIBOS_START_VADDR, k),
            ) == walk::mounted_byte(s, address::addr_add(libos, k)),
{
    let root = base.page_table_ref.process_page_table;
    assert forall|k: int| 0 <= k < size implies loading::found_byte(
        base.with_libos(s, libos, size),
        root,
        #[trigger] address::addr_add(TP_LIBOS_START_VADDR, k),
    ) == walk::mounted_byte(s, address::addr_add(libos, k)) by {
        lemma_data_is_found(s, root, TP_LIBOS_START_VADDR, libos, size, k);
    }
}

/// A process finds a library OS that came straight from the guest at the address
/// for it: byte `k` is the one that the guest has there. What is behind it, in
/// its last page, is clear.
pub proof fn law_process_finds_the_guests_library_os(
    base: ProcessBaseContext,
    s: MachineState,
    libos: u64,
    size: u64,
    guest_pgt: u64,
    k: int,
)
    requires
        soundness::sound(s, base.page_table_ref.process_page_table),
        s.c_bit & 0x8000_0000_0000_0FFF == 0,
        size <= 0xFFFF_FFFF_FFFF,
        s.pool.available() >= program::data_takes(
            s,
            base.page_table_ref.process_page_table,
            TP_LIBOS_START_VADDR,
            guest_bytes(s, guest_pgt, libos, size as nat) + Seq::new(
                (extended(size) - size) as nat,
                |i: int| 0u8,
            ),
            extended(size) / 4096,
        ),
        0 <= k,
    ensures
        ({
            let found = loading::found_byte(
                base.with_guest_libos(s, libos, size, guest_pgt),
                base.page_table_ref.process_page_table,
                address::addr_add(TP_LIBOS_START_VADDR, k),
            );
            &&& k < size && walk::translate(s, guest_pgt, address::addr_add(libos, k)) != 0
                ==> found == loading::found_byte(s, guest_pgt, address::addr_add(libos, k))
            &&& size <= k < size / 4096 * 4096 + 4096 ==> found == 0
        }),
{
    let root = base.page_table_ref.process_page_table;
    if k < extended(size) {
        let bytes = guest_bytes(s, guest_pgt, libos, size as nat);
        lemma_padded_data_is_found(s, root, TP_LIBOS_START_VADDR, bytes, size, k);
    }
}

/// Bytes that zeros were put behind are found where they were mapped, and the
/// zeros behind them.
#[verifier::rlimit(60)]
proof fn lemma_padded_data_is_found(
    s: MachineState,
    root: u64,
    start: u64,
    bytes: Seq<u8>,
    size: u64,
    k: int,
)
    requires
        soundness::sound(s, root),
        s.c_bit & 0x8000_0000_0000_0FFF == 0,
        start % 4096 == 0,
        size <= 0xFFFF_FFFF_FFFF,
        bytes.len() == size,
        s.pool.available() >= program::data_takes(
            s,
            root,
            start,
            bytes + Seq::new((extended(size) - size) as nat, |i: int| 0u8),
            extended(size) / 4096,
        ),
        0 <= k < extended(size),
    ensures
        loading::found_byte(
            mapping::data_mapped(
                s,
                root,
                start,
                bytes + Seq::new((extended(size) - size) as nat, |i: int| 0u8),
                extended(size) / 4096,
            ),
            root,
            address::addr_add(start, k),
        ) == (if k < size {
            bytes[k]
        } else {
            0
        }),
{
    let data = bytes + Seq::new((extended(size) - size) as nat, |i: int| 0u8);
    lemma_extended(size);
    program::law_mapped_data_is_found(s, root, start, data, extended(size) / 4096);
    assert(data[k] == (if k < size {
        bytes[k]
    } else {
        0
    }));
}

proof fn lemma_first_free(s: Seq<TrustedProcess>, i: nat)
    requires
        i <= s.len(),
    ensures
        i <= first_free(s, i) <= s.len(),
        first_free(s, i) < s.len() ==> s[first_free(s, i) as int].process_type
            == TrustedProcessType::Undefined,
        forall|k: int|
            i <= k < first_free(s, i) ==> (#[trigger] s[k]).process_type
                != TrustedProcessType::Undefined,
    decreases s.len() - i,
{
    if i < s.len() {
        lemma_first_free(s, i + 1);
    }
}

/// A process takes the first place that is free, and only that; the store is
/// full exactly when every place has a process.
pub proof fn law_insert_takes_first_free_place(s: Seq<TrustedProcess>)
    ensures
        ({
            let i = first_free(s, 0);
            &&& i <= s.len()
            &&& i < s.len() ==> s[i as int].process_type == TrustedProcessType::Undefined
            &&& i == s.len() <==> forall|k: int|
                0 <= k < s.len() ==> (#[trigger] s[k]).process_type
                    != TrustedProcessType::Undefined
        }),
{
    lemma_first_free(s, 0);
}

/// What a living process at the other end of a channel shares is not freed
/// with a process: the slots of its channel are passed over.
pub proof fn law_shared_slots_survive(p: TrustedProcess)
    ensures
        p.context.channel.input_borrowed <==> p.shared_slots().contains(5),
        p.context.channel.next is Some <==> p.shared_slots().contains(6),
        forall|slot: usize| p.shared_slots().contains(slot) ==> slot == 5 || slot == 6,
{
    let s = p.shared_slots();
    if p.context.channel.input_borrowed {
        assert(s[0] == 5);
    }
    if p.context.channel.next is Some {
        assert(s.last() == 6);
    }
}

} // verus!
