//! Inference for processes.
use vstd::prelude::*;
use crate::address;
use crate::address::status_to_word;
use crate::cpu::vmsa::Vmsa;
use crate::error::MonitorError;
use crate::memory::machine;
use crate::memory::machine::{Machine, MachineOp, MachineState};
use crate::model_store;
use crate::model_store::store;
use crate::model_store::store::{Store, StoreEntry};
use crate::process_manager;
use crate::process_manager::allocation;
use crate::process_manager::allocation::AllocationRange;
use crate::process_manager::process::{ProcessID, TrustedProcess, TrustedProcessStore};
use crate::process_manager::process_paging::entry;
use crate::process_manager::process_paging::entry::{strip_paddr, ProcessPageTable, PGD};
use crate::process_manager::process_paging::walk;
use crate::process_manager::process_paging::walk::{
    read_mounted, write_mounted, ProcessPageTableRef,
};
use crate::process_manager::{reject, STATUS_BAD_ARGS};
use crate::process_runtime::{
    PALContext, ReturnTarget, ReturnValues, TrustletReturnType, RETURN_TO_GUEST, RETURN_TO_PROCESS,
};
use crate::RequestParams;

verus! {

/// Where a process has the memory that it shares for inference.
pub const INFERENCE_VADDR: u64 = 0x380_0000_0000;

/// Where the monitor has that memory while it is mounted.
pub const MOUNTED_CONTEXT: u64 = 0x300_0000_0000;

/// Where the monitor has the memory of the guest that a prompt goes to.
pub const MOUNTED_GUEST: u64 = 0x380_0000_0000;

/// The slot of the monitor's root table for that memory.
pub const GUEST_SLOT: u64 = 7;

/// What a process asks for.
#[derive(Clone, Copy, PartialEq, Eq, Structural, Debug)]
pub enum PalInferenceRequestType {
    REGISTER,
    INFERENCE,
}

/// What a number asks for.
pub open spec fn inference_of(number: u64) -> Option<PalInferenceRequestType> {
    if number == 0 {
        Some(PalInferenceRequestType::REGISTER)
    } else if number == 2 {
        Some(PalInferenceRequestType::INFERENCE)
    } else {
        None
    }
}

/// What a process registers for inference with: the measurements of a model,
/// an adapter and an engine.
#[derive(Clone, Copy, Debug)]
pub struct InferContextData {
    pub model: [u8; 64],
    pub lora: [u8; 64],
    pub engine: [u8; 64],
    pub id: u64,
}

/// A request for inference: the prompt, which has no fixed size.
#[derive(Clone, Copy, Debug)]
pub struct InferRequestData {
    pub prompt: [u8; 0],
}

/// Where a request for inference leads.
#[derive(Clone, Copy, PartialEq, Eq, Structural, Debug)]
pub enum InferenceStep {
    Return(ReturnTarget),
    /// Another process serves it; its status is the answer.
    Call { callee: ProcessID },
}

/// Serves inference.
pub trait ProcessRuntimeInference {
    /// Whether a request is known.
    spec fn can_infer(&self) -> bool;

    fn pal_inference(
        &mut self,
        m: &mut Machine,
        p: &TrustedProcess,
        models: &Store<StoreEntry>,
        loras: &Store<StoreEntry>,
        engines: &Store<StoreEntry>,
    ) -> InferenceStep
        requires
            old(self).can_infer(),
            model_store::store_wf(models@),
            model_store::store_wf(loras@),
            model_store::store_wf(engines@),
    ;
}

/// The 64 bytes at an address.
pub open spec fn digest_at(mem: Seq<u64>, a: int) -> Seq<u8> {
    Seq::new(64, |i: int| machine::byte_at(mem, a + i))
}

/// The place of the first entry of a store with the measurement at an address,
/// or -1.
pub open spec fn place_measured(entries: Seq<StoreEntry>, mem: Seq<u64>, a: int) -> i64 {
    store::place(store::first_measured(entries, digest_at(mem, a), 0), entries.len())
}

fn read_digest(m: &Machine, a: u64) -> (r: [u8; 64])
    requires
        a <= u64::MAX - 64,
    ensures
        r@ == digest_at(m@.mem, a as int),
{
    let mut r = [0u8; 64];
    let mut i: usize = 0;
    while i < 64
        invariant
            i <= 64,
            a <= u64::MAX - 64,
            forall|k: int| 0 <= k < i ==> r@[k] == machine::byte_at(m@.mem, a + k),
        decreases 64 - i,
    {
        r[i] = m.read_byte(a + i as u64);
        i = i + 1;
    }
    assert(r@ =~= digest_at(m@.mem, a as int));
    r
}

impl PALContext {
    /// Where the process registers, in physical memory.
    pub open spec fn inference_page(self, s: MachineState) -> u64 {
        walk::translate(s, self.vmsa.cr3, INFERENCE_VADDR)
    }

    /// The context and the machine after a request was served, and where it
    /// leads.
    pub open spec fn inference_served(
        self,
        s: MachineState,
        p: TrustedProcess,
        models: Seq<StoreEntry>,
        loras: Seq<StoreEntry>,
        engines: Seq<StoreEntry>,
    ) -> (PALContext, MachineState, InferenceStep) {
        let page = self.inference_page(s);
        let mid = place_measured(models, s.mem, page as int);
        let lid = place_measured(loras, s.mem, page + 64);
        let eid = place_measured(engines, s.mem, page + 128);
        if self.vmsa.rcx == 0 {
            if mid == -1 || eid == -1 {
                (
                    PALContext { vmsa: Vmsa { rdx: 0, ..self.vmsa }, ..self },
                    s.wr(page, 24, 0),
                    InferenceStep::Return(RETURN_TO_PROCESS),
                )
            } else {
                (
                    PALContext {
                        return_values: ReturnValues {
                            rcx: 12,
                            rdx: address::status_word(mid),
                            r8: address::status_word(lid),
                            r9: address::status_word(eid),
                        },
                        ..self
                    },
                    s,
                    InferenceStep::Return(RETURN_TO_GUEST),
                )
            }
        } else {
            match p.context.channel.next {
                Some(callee) => (self, s, InferenceStep::Call { callee }),
                None => (
                    PALContext {
                        return_values: ReturnValues {
                            rcx: 13,
                            rdx: self.vmsa.rdx,
                            r8: self.vmsa.rbx,
                            ..self.return_values
                        },
                        ..self
                    },
                    s,
                    InferenceStep::Return(RETURN_TO_GUEST),
                ),
            }
        }
    }

    /// What a process registers with.
    pub fn infer_context_data(&self, m: &Machine) -> (r: InferContextData)
        ensures
            ({
                let page = self.inference_page(m@);
                &&& r.model@ == digest_at(m@.mem, page as int)
                &&& r.lora@ == digest_at(m@.mem, page + 64)
                &&& r.engine@ == digest_at(m@.mem, page + 128)
                &&& r.id == m@.rd(page, 24)
            }),
    {
        let page = ProcessPageTableRef::external(self.vmsa.cr3).get_page(m, INFERENCE_VADDR);
        proof {
            walk::lemma_translate_bound(m@, self.vmsa.cr3, INFERENCE_VADDR);
        }
        InferContextData {
            model: read_digest(m, page),
            lora: read_digest(m, page + 64),
            engine: read_digest(m, page + 128),
            id: m.read(page, 24),
        }
    }
}

impl ProcessRuntimeInference for PALContext {
    open spec fn can_infer(&self) -> bool {
        inference_of(self.vmsa.rcx) is Some
    }

    /// Registers the process for inference, or asks for inference. A process
    /// registers with what is stored: the guest is told the places of the
    /// model, the adapter and the engine. Without a model or an engine the
    /// process is told that there is none. Inference is served by the process
    /// that the guest has linked, else by the guest.
    fn pal_inference(
        &mut self,
        m: &mut Machine,
        p: &TrustedProcess,
        models: &Store<StoreEntry>,
        loras: &Store<StoreEntry>,
        engines: &Store<StoreEntry>,
    ) -> (r: InferenceStep)
        ensures
            (*final(self), final(m)@, r) == old(self).inference_served(
                old(m)@,
                *p,
                models@,
                loras@,
                engines@,
            ),
    {
        if self.vmsa.rcx == 0 {
            let data = self.infer_context_data(m);
            let page = ProcessPageTableRef::external(self.vmsa.cr3).get_page(m, INFERENCE_VADDR);
            let mid = models.find(data.model);
            let lid = loras.find(data.lora);
            let eid = engines.find(data.engine);
            if mid == -1 || eid == -1 {
                m.write(page, 24, 0);
                self.vmsa.rdx = 0;
                return InferenceStep::Return(RETURN_TO_PROCESS);
            }
            self.return_values.result(TrustletReturnType::INFERENCEREGISTER.code());
            self.return_values.set_rdx(status_to_word(mid));
            self.return_values.set_r8(status_to_word(lid));
            self.return_values.set_r9(status_to_word(eid));
            return InferenceStep::Return(RETURN_TO_GUEST);
        }
        match p.context.channel.next {
            Some(callee) => InferenceStep::Call { callee },
            None => {
                self.return_values.result(TrustletReturnType::INFERENCE.code());
                self.return_values.set_rdx(self.vmsa.rdx);
                self.return_values.set_r8(self.vmsa.rbx);
                InferenceStep::Return(RETURN_TO_GUEST)
            },
        }
    }
}

/// The machine after an entry of the guest's root table, and the memory that a
/// process shares for inference, were mounted.
pub open spec fn both_mounted(s: MachineState, guest_entry: u64, context: AllocationRange) -> MachineState {
    allocation::mount_entry(
        s.wr(s.cr3, 7, guest_entry).op(MachineOp::FlushTlb),
        context.0,
    )
}

/// The machine after a prompt or an answer was copied between a process and
/// the guest, and the answer to the request: the bytes that were copied. A
/// request for a place that is not the start of a slot, or for more than the
/// process shares, is refused.
pub open spec fn text_copied(
    s: MachineState,
    params: RequestParams,
    table: u64,
    context: AllocationRange,
    from: u64,
    to: u64,
) -> (MachineState, RequestParams) {
    let mounted = both_mounted(s, s.rd(table, entry::table_index(params.r8, 3)), context);
    let refused = process_manager::rejected(params, STATUS_BAD_ARGS);
    if params.r8 % 0x80_0000_0000 != 0 {
        (s, refused)
    } else if context.1 * 4096 < params.r9 {
        (mounted, refused)
    } else {
        (
            walk::mounted_store(mounted, to, walk::mounted_bytes(mounted, from, params.r9 as nat)),
            RequestParams { rcx: params.r9, ..params },
        )
    }
}

/// The machine and the answer after the prompt of a process was copied to the
/// guest.
pub open spec fn prompt_got(
    s: MachineState,
    processes: Seq<TrustedProcess>,
    params: RequestParams,
) -> (MachineState, RequestParams) {
    text_copied(
        s,
        params,
        entry::strip(s.c_bit, params.rdx),
        processes[params.rcx as int].infer_context,
        MOUNTED_CONTEXT,
        MOUNTED_GUEST,
    )
}

/// The machine and the answer after an answer of the guest was copied to a
/// process.
pub open spec fn response_stored(
    s: MachineState,
    processes: Seq<TrustedProcess>,
    params: RequestParams,
) -> (MachineState, RequestParams) {
    text_copied(
        s,
        params,
        params.rdx,
        processes[params.rcx as int].infer_context,
        MOUNTED_GUEST,
        MOUNTED_CONTEXT,
    )
}

fn copy_text(
    m: &mut Machine,
    params: &mut RequestParams,
    table: u64,
    context: AllocationRange,
    from: u64,
    to: u64,
) -> (r: Result<(), MonitorError>)
    ensures
        r is Ok,
        (final(m)@, *final(params)) == text_copied(old(m)@, *old(params), table, context, from, to),
{
    let addr = params.r8;
    let size = params.r9;
    if addr % 0x80_0000_0000 != 0 {
        return reject(params, STATUS_BAD_ARGS);
    }
    let idx = ProcessPageTable::index::<PGD>(addr);
    let pgd_entry = m.read(table, idx as u64);
    let root = m.cr3;
    m.write(root, GUEST_SLOT, pgd_entry);
    m.ask(MachineOp::FlushTlb);
    context.mount(m);
    if size > 0 && (size - 1) / 4096 >= context.1 {
        return reject(params, STATUS_BAD_ARGS);
    }
    let bytes = read_mounted(m, from, size);
    write_mounted(m, to, &bytes);
    params.rcx = size;
    Ok(())
}

/// Copies the prompt of a process to the guest. The guest names the process,
/// its own root table, the place in a slot of its own, and the bytes.
pub fn prompt_get(m: &mut Machine, store: &TrustedProcessStore, params: &mut RequestParams) -> (r:
    Result<(), MonitorError>)
    requires
        old(params).rcx < store@.len(),
    ensures
        r is Ok,
        (final(m)@, *final(params)) == prompt_got(old(m)@, store@, *old(params)),
{
    assert(store.processes.len() == store@.len());
    let context = store.peek(ProcessID(params.rcx as usize)).infer_context;
    let table = strip_paddr(m.c_bit, params.rdx);
    copy_text(m, params, table, context, MOUNTED_CONTEXT, MOUNTED_GUEST)
}

/// Copies an answer of the guest to a process; see `prompt_get`.
pub fn response_store(m: &mut Machine, store: &TrustedProcessStore, params: &mut RequestParams) -> (r:
    Result<(), MonitorError>)
    requires
        old(params).rcx < store@.len(),
    ensures
        r is Ok,
        (final(m)@, *final(params)) == response_stored(old(m)@, store@, *old(params)),
{
    assert(store.processes.len() == store@.len());
    let context = store.peek(ProcessID(params.rcx as usize)).infer_context;
    copy_text(m, params, params.rdx, context, MOUNTED_GUEST, MOUNTED_CONTEXT)
}

/// A process that registers is told of no model, or the guest is told the first
/// places at which the stores have what the process has named: the model, the
/// adapter (-1 where there is none) and the engine.
pub proof fn law_registration_names_what_is_stored(
    ctx: PALContext,
    s: MachineState,
    p: TrustedProcess,
    models: Seq<StoreEntry>,
    loras: Seq<StoreEntry>,
    engines: Seq<StoreEntry>,
)
    requires
        ctx.vmsa.rcx == 0,
        model_store::store_wf(models),
        model_store::store_wf(loras),
        model_store::store_wf(engines),
    ensures
        ({
            let (after, t, step) = ctx.inference_served(s, p, models, loras, engines);
            let page = walk::translate(s, ctx.vmsa.cr3, INFERENCE_VADDR);
            let model = digest_at(s.mem, page as int);
            let lora = digest_at(s.mem, page + 64);
            let engine = digest_at(s.mem, page + 128);
            let told = after.return_values;
            if !stored(models, model) || !stored(engines, engine) {
                &&& step == InferenceStep::Return(RETURN_TO_PROCESS)
                &&& after == (PALContext { vmsa: after.vmsa, ..ctx })
                &&& after.vmsa.rdx == 0
            } else {
                &&& step == InferenceStep::Return(RETURN_TO_GUEST)
                &&& t == s
                &&& after == (PALContext { return_values: told, ..ctx })
                &&& told.rcx == TrustletReturnType::INFERENCEREGISTER.number()
                &&& is_first(models, model, told.rdx)
                &&& is_first(engines, engine, told.r9)
                &&& if stored(loras, lora) {
                    is_first(loras, lora, told.r8)
                } else {
                    told.r8 == 0xFFFF_FFFF_FFFF_FFFF
                }
            }
        }),
{
    let page = walk::translate(s, ctx.vmsa.cr3, INFERENCE_VADDR);
    lemma_place(models, digest_at(s.mem, page as int));
    lemma_place(loras, digest_at(s.mem, page + 64));
    lemma_place(engines, digest_at(s.mem, page + 128));
}

/// Whether a store has an entry with a measurement.
pub open spec fn stored(entries: Seq<StoreEntry>, digest: Seq<u8>) -> bool {
    exists|i: int|
        0 <= i < entries.len() && !(#[trigger] entries[i]).state && entries[i].measurement@
            == digest
}

/// Whether a place is the first at which a store has an entry with a
/// measurement.
pub open spec fn is_first(entries: Seq<StoreEntry>, digest: Seq<u8>, i: u64) -> bool {
    &&& i < entries.len()
    &&& !entries[i as int].state
    &&& entries[i as int].measurement@ == digest
    &&& forall|k: int|
        0 <= k < i ==> (#[trigger] entries[k]).state || entries[k].measurement@ != digest
}

proof fn lemma_place(entries: Seq<StoreEntry>, digest: Seq<u8>)
    requires
        model_store::store_wf(entries),
    ensures
        ({
            let found = store::place(store::first_measured(entries, digest, 0), entries.len());
            if stored(entries, digest) {
                found >= 0 && is_first(entries, digest, address::status_word(found))
            } else {
                found == -1
            }
        }),
{
    store::lemma_first(entries, digest, 0);
    let f = store::first_measured(entries, digest, 0);
    if stored(entries, digest) {
        let i = choose|i: int|
            0 <= i < entries.len() && !(#[trigger] entries[i]).state && entries[i].measurement@
                == digest;
        assert(f <= i) by {
            if f > i {
                assert(entries[i].state || entries[i].measurement@ != digest);
            }
        }
    }
    assert forall|k: int| 0 <= k < f && k < entries.len() implies (#[trigger] entries[k]).state
        || entries[k].measurement@ != digest by {
    }
}

} // verus!
