//! Models for processes.
use vstd::prelude::*;
use crate::cpu::vmsa::Vmsa;
use crate::memory::machine::{Machine, MachineState};
use crate::model_store;
use crate::model_store::store::{Store, StoreEntry};
use crate::process_manager::allocation;
use crate::process_manager::process_paging::entry;
use crate::process_manager::process_paging::entry::strip_paddr;
use crate::process_runtime::{PALContext, ReturnTarget, RETURN_TO_PROCESS};
use crate::sev::utils::{VMPL1_READ, VMPL1_RWX};

verus! {

/// Where a process has a model.
pub const MODEL_CHANNEL_VADDR: u64 = 0x400_0000_0000;

/// The slot of its root table for it.
pub const MODEL_CHANNEL_PML4_IDX: u64 = 8;

/// Gives models to processes.
pub trait ProcessRuntimeModel {
    fn pal_svsm_model_channel(&mut self, m: &mut Machine, models: &Store<StoreEntry>) -> ReturnTarget;
}

/// The machine after a process got a model to read.
pub open spec fn model_given(s: MachineState, root: u64, e: StoreEntry) -> MachineState {
    allocation::mount_entry(
        allocation::pages_asked(
            allocation::mount_entry(
                allocation::asked(s, allocation::range_table_ops(s, e.data, VMPL1_RWX)),
                e.data.0,
            ),
            0,
            e.data.1 as nat,
            VMPL1_READ,
        ),
        0,
    ).wr(entry::strip(s.c_bit, root), 8, e.data.0)
}

impl PALContext {
    /// The context and the machine after a request for a model was served.
    pub open spec fn model_served(self, s: MachineState, models: Seq<StoreEntry>) -> (
        PALContext,
        MachineState,
    ) {
        let (size, t) = match model_store::entry_at(models, self.vmsa.rbx) {
            None => (0, s),
            Some(e) => (e.real_size, model_given(s, self.vmsa.cr3, e)),
        };
        (
            PALContext {
                vmsa: Vmsa { rdx: MODEL_CHANNEL_VADDR, rcx: size, ..self.vmsa },
                ..self
            },
            t,
        )
    }
}

impl ProcessRuntimeModel for PALContext {
    /// Gives the model in `rbx` to the process to read. The answer is its size
    /// and its address; size 0 where there is no such model.
    fn pal_svsm_model_channel(&mut self, m: &mut Machine, models: &Store<StoreEntry>) -> (r:
        ReturnTarget)
        ensures
            r == RETURN_TO_PROCESS,
            (*final(self), final(m)@) == old(self).model_served(old(m)@, models@),
    {
        let id = self.vmsa.rbx;
        self.vmsa.rdx = MODEL_CHANNEL_VADDR;
        if id >= models.len() as u64 {
            self.vmsa.rcx = 0;
            return RETURN_TO_PROCESS;
        }
        let e = models.get(id as usize);
        if e.state {
            self.vmsa.rcx = 0;
            return RETURN_TO_PROCESS;
        }
        e.data.trustlet_read_access(m);
        let root = strip_paddr(m.c_bit, self.vmsa.cr3);
        m.write(root, MODEL_CHANNEL_PML4_IDX, e.data.0);
        self.vmsa.rcx = e.real_size;
        RETURN_TO_PROCESS
    }
}

} // verus!
