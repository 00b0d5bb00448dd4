//! All that the monitor knows.
use vstd::prelude::*;
use crate::crypto;
use crate::crypto::Hasher;
use crate::exclusive::{ExclusiveState, ExclusiveView};
use crate::gpu::direct::{GpuState, GpuView};
use crate::memory::machine::{Machine, MachineState};
use crate::model_store;
use crate::model_store::store::{Store, StoreEntry, StoreTrait};
use crate::model_store::stream::Stream;
use crate::process_manager::process::{TrustedProcess, TrustedProcessStore};
use crate::process_manager::process_memory;
use crate::process_manager::process_memory::{additional_monitor_memory_init, MemoryRegion};
use crate::process_manager::PROCESS_STORE_SIZE;
use crate::process_runtime::process::call;
use crate::process_runtime::process::call::CallStack;

verus! {

/// Places in the stores of models, of adapters and of engines.
pub const MODEL_STORE_SIZE: u32 = 10;

/// The monitor.
#[derive(Debug)]
pub struct Monitor {
    pub machine: Machine,
    pub processes: TrustedProcessStore,
    pub models: Store<StoreEntry>,
    pub loras: Store<StoreEntry>,
    pub engines: Store<StoreEntry>,
    /// The load that is under way.
    pub stream: Stream,
    /// The hash of that load.
    pub hasher: Hasher,
    pub gpu: GpuState,
    /// The cores that the guest has given to the monitor.
    pub exclusive: ExclusiveState,
    /// The calls between processes that are under way.
    pub calls: CallStack,
    /// Whether the stores have their places.
    pub ready: bool,
}

/// What a `Monitor` holds.
#[verifier::ext_equal]
pub struct MonitorView {
    pub machine: MachineState,
    pub processes: Seq<TrustedProcess>,
    pub models: Seq<StoreEntry>,
    pub loras: Seq<StoreEntry>,
    pub engines: Seq<StoreEntry>,
    pub stream: Stream,
    /// The bytes that the hash of the load has gathered.
    pub absorbed: Seq<u8>,
    pub gpu: GpuView,
    pub exclusive: ExclusiveView,
    pub calls: Seq<u64>,
    pub ready: bool,
}

impl View for Monitor {
    type V = MonitorView;

    open spec fn view(&self) -> MonitorView {
        MonitorView {
            machine: self.machine@,
            processes: self.processes@,
            models: self.models@,
            loras: self.loras@,
            engines: self.engines@,
            stream: self.stream,
            absorbed: crypto::absorbed(self.hasher),
            gpu: self.gpu@,
            exclusive: self.exclusive@,
            calls: self.calls@,
            ready: self.ready,
        }
    }
}

impl MonitorView {
    /// The places of the stores can be told apart by a register, what is
    /// registered for the GPU is no larger than it may be, no process is called
    /// by itself, and the hash of a load is that of its bytes.
    pub open spec fn wf(self) -> bool {
        &&& self.processes.len() <= i64::MAX
        &&& model_store::store_wf(self.models)
        &&& model_store::store_wf(self.loras)
        &&& model_store::store_wf(self.engines)
        &&& self.stream.wf()
        &&& self.stream.follows(self.absorbed)
        &&& self.gpu.wf()
        &&& call::calls_wf(self.calls)
    }
}

/// Empty places of a store.
pub open spec fn empty_places() -> Seq<StoreEntry> {
    Seq::new(10, |i: int| StoreEntry::blank())
}

impl Monitor {
    /// A monitor that has nothing but the machine.
    pub fn new(machine: Machine) -> (r: Monitor)
        ensures
            r@.machine == machine@,
            r@.processes.len() == 0,
            r@.models.len() == 0,
            r@.loras.len() == 0,
            r@.engines.len() == 0,
            r@.stream == Stream::blank(r@.stream.digest),
            r@.absorbed.len() == 0,
            r@.exclusive == ExclusiveView::blank(),
            r@.gpu == GpuView::blank(),
            r@.calls.len() == 0,
            !r@.ready,
            r@.wf(),
    {
        Monitor {
            machine,
            processes: TrustedProcessStore::new(),
            models: Store::new(),
            loras: Store::new(),
            engines: Store::new(),
            stream: Stream::new(),
            hasher: Hasher::new(),
            gpu: GpuState::new(),
            exclusive: ExclusiveState::new(),
            calls: CallStack::new(),
            ready: false,
        }
    }
}

/// Whether `t` is the monitor after `s` was set up.
pub open spec fn initialized(s: MonitorView, second: MemoryRegion, entry: u64, t: MonitorView) -> bool {
    let made = MonitorView {
        machine: process_memory::pool_made(s.machine, second, entry),
        ..s
    };
    if s.ready {
        t == made
    } else {
        &&& t.processes.len() == PROCESS_STORE_SIZE
        &&& forall|i: int| 0 <= i < t.processes.len() ==> (#[trigger] t.processes[i]).is_blank()
        &&& t == (MonitorView {
            processes: t.processes,
            models: empty_places(),
            loras: empty_places(),
            engines: empty_places(),
            ready: true,
            ..made
        })
    }
}

/// Sets the monitor up: the pool, and the places of the stores. Where it was
/// done before, nothing is changed but a pool that is still missing.
pub fn monitor_init(mon: &mut Monitor, first: MemoryRegion, second: MemoryRegion, entry: u64)
    requires
        !old(mon)@.machine.pool.initilized ==> process_memory::regions_ok(first, second),
        old(mon)@.wf(),
        !old(mon)@.ready ==> old(mon)@.processes.len() == 0 && old(mon)@.models.len() == 0 && old(
            mon,
        )@.loras.len() == 0 && old(mon)@.engines.len() == 0,
    ensures
        final(mon)@.wf(),
        initialized(old(mon)@, second, entry, final(mon)@),
{
    let _ = additional_monitor_memory_init(&mut mon.machine, first, second, entry);
    if mon.ready {
        return ;
    }
    mon.processes.init(PROCESS_STORE_SIZE);
    mon.models.init(MODEL_STORE_SIZE);
    mon.loras.init(MODEL_STORE_SIZE);
    mon.engines.init(MODEL_STORE_SIZE);
    mon.ready = true;
    assert(mon.models@ =~= empty_places());
    assert(mon.loras@ =~= empty_places());
    assert(mon.engines@ =~= empty_places());
}

} // verus!
