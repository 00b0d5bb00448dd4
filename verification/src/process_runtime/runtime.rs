//! Serves the calls of processes.
use vstd::prelude::*;
use crate::cpu::vmsa::Vmsa;
use crate::error::MonitorError;
use crate::memory::machine::{Machine, MachineState};
use crate::process_manager::allocation;
use crate::process_manager::allocation::AllocationRange;
use crate::process_manager::memory_channels::MAX_CHANNEL_SIZE;
use crate::process_manager::monitor::{Monitor, MonitorView};
use crate::process_manager::process::{ProcessID, TrustedProcess, TrustedProcessStore};
use crate::process_manager::process_paging::finalize;
use crate::process_runtime;
use crate::process_runtime::process::call;
use crate::process_runtime::process::call::{run_nested, NestedCall, ProcessRuntimeCall};
use crate::process_runtime::process::channel::ProcessRuntimeChannel;
use crate::process_runtime::process::exception::ProcessRuntimeException;
use crate::process_runtime::process::exit::ProcessRuntimeExit;
use crate::process_runtime::process::fin::ProcessRuntimeFin;
use crate::process_runtime::process::gpu::ProcessRuntimeGpu;
use crate::process_runtime::process::inference::{InferenceStep, ProcessRuntimeInference};
use crate::process_runtime::process::memory::ProcessRuntimeMemory;
use crate::process_runtime::process::misc::ProcessRuntimeMisc;
use crate::process_runtime::process::model::ProcessRuntimeModel;
use crate::process_runtime::process::print;
use crate::process_runtime::process::print::ProcessRuntimePrint;
use crate::process_runtime::process::request::ProcessRuntimeGuestRequest;
use crate::process_runtime::{
    PALContext, ReturnTarget, TrustletReturnType, RETURN_TO_GUEST, RETURN_TO_PROCESS,
};
use crate::sev::utils::{VMPL2_READ, VMPL2_RWX};
use crate::RequestParams;

verus! {

/// The privilege level of processes.
pub const TRUSTLET_VMPL: u64 = 1;

/// The calls of processes.
#[derive(Clone, Copy, PartialEq, Eq, Structural, Debug)]
pub enum ProcessCallType {
    Fail,
    Exit,
    DebugPrint,
    VirtAlloc,
    MapFile,
    SetTcb,
    Mprotect,
    GetResult,
    GuestRequest,
    VirtFree,
    Nop,
    Finalize,
    Inference,
    GpuChannel,
    CallTrustlet,
    ModelChannel,
    Exception,
    HandleDf,
    CallOutb,
    CallExit,
    CallOutbWithValue,
    CallInflateChannel,
    TbrDebug,
    TbrDebugPrint,
}

/// Where a call leads.
#[derive(Clone, Copy, PartialEq, Eq, Structural, Debug)]
pub enum Dispatch {
    Return(ReturnTarget),
    /// Look a leaf up, then answer with `pal_svsm_cpuid`.
    Cpuid { eax: u32, ecx: u32 },
    /// Give the process the window and the heap of the engine, then answer
    /// with `pal_svsm_gpu_channel`.
    GpuChannel { core: usize },
    /// Run another process, then answer with `call_answered`.
    Call(NestedCall),
    /// The call makes no sense; the monitor cannot go on.
    Halt,
}

/// Whether a number is that of a leaf that a process may ask for.
pub open spec fn is_leaf(rax: u64) -> bool {
    rax <= 0x24 || 0x8000_0000 <= rax <= 0x8000_0021
}

impl PALContext {
    /// The context when a call is served: the process goes on behind it.
    pub open spec fn stepped(self) -> PALContext {
        PALContext { vmsa: Vmsa { rip: self.vmsa.rip.wrapping_add(2), ..self.vmsa }, ..self }
    }

    /// What a request for another process's work comes to.
    pub open spec fn call_begun(self, s: MonitorView, callee_id: u64) -> (
        PALContext,
        Seq<u64>,
        Dispatch,
    ) {
        let p = s.processes[self.process.0 as int];
        match call::call_refusal(s.calls, s.processes, p.id, callee_id) {
            Some(status) => (
                self.with_rcx(crate::address::status_word(status)),
                s.calls,
                Dispatch::Return(RETURN_TO_PROCESS),
            ),
            None => {
                let q = s.processes[callee_id as int];
                (
                    self,
                    s.calls.push(callee_id),
                    Dispatch::Call(
                        NestedCall {
                            callee: ProcessID(callee_id as usize),
                            vmsa: q.context.vmsa,
                            sev_features: q.context.sev_features,
                        },
                    ),
                )
            },
        }
    }

    /// Whether a call is one that can be served.
    pub open spec fn can_serve(self, s: MonitorView, call: Option<ProcessCallType>) -> bool {
        let p = s.processes[self.process.0 as int];
        match call {
            Some(ProcessCallType::MapFile) => self.can_map(s.machine),
            Some(ProcessCallType::Mprotect) => self.can_protect(),
            Some(ProcessCallType::GetResult) => self.can_give_result(),
            Some(ProcessCallType::Inference) => self.can_infer(),
            Some(ProcessCallType::Exception) => self.can_handle(p),
            Some(ProcessCallType::CallInflateChannel) => self.can_inflate(),
            Some(ProcessCallType::TbrDebug) => self.vmsa.rbx % 0x1_0000_0000 <= 9,
            Some(ProcessCallType::TbrDebugPrint) => self.can_show(),
            _ => true,
        }
    }
}

/// The monitor after a call changed the machine, the process that made it, and
/// the engines.
pub open spec fn changed(
    s: MonitorView,
    pid: ProcessID,
    machine: MachineState,
    q: TrustedProcess,
) -> MonitorView {
    MonitorView { machine, processes: s.processes.update(pid.0 as int, q), ..s }
}

/// Whether a call was served: `c` and `s` are the context and the monitor when
/// it was made, `d` and `t` those after it, and `r` is where it leads.
pub open spec fn served(
    call: Option<ProcessCallType>,
    c: PALContext,
    s: MonitorView,
    d: PALContext,
    t: MonitorView,
    r: Dispatch,
) -> bool {
    let pid = c.process;
    let p = s.processes[pid.0 as int];
    let q = t.processes[pid.0 as int];
    match call {
        Some(ProcessCallType::Fail) | Some(ProcessCallType::HandleDf) => {
            &&& r == Dispatch::Return(RETURN_TO_GUEST)
            &&& d == c.returning(TrustletReturnType::ERROR)
            &&& t == (MonitorView {
                gpu: process_runtime::engine_freed(s.gpu, p),
                ..changed(s, pid, s.machine, process_runtime::died(p))
            })
        },
        Some(ProcessCallType::Exit) => {
            &&& r == Dispatch::Return(RETURN_TO_GUEST)
            &&& d == c.returning(TrustletReturnType::EXIT)
            &&& t == (MonitorView {
                gpu: process_runtime::engine_freed(s.gpu, p),
                ..changed(s, pid, s.machine, process_runtime::died(p))
            })
        },
        Some(ProcessCallType::DebugPrint) => {
            &&& r == Dispatch::Return(RETURN_TO_PROCESS)
            &&& c.printed_to(d)
            &&& t == s
        },
        Some(ProcessCallType::VirtAlloc) => {
            &&& r == Dispatch::Return(RETURN_TO_PROCESS)
            &&& (d, t) == (
                c.alloc_served(s.machine).0,
                MonitorView { machine: c.alloc_served(s.machine).1, ..s },
            )
        },
        Some(ProcessCallType::VirtFree) => {
            &&& r == Dispatch::Return(RETURN_TO_PROCESS)
            &&& (d, t) == (
                c.free_served(s.machine).0,
                MonitorView { machine: c.free_served(s.machine).1, ..s },
            )
        },
        Some(ProcessCallType::Mprotect) => {
            &&& r == Dispatch::Return(RETURN_TO_PROCESS)
            &&& (d, t) == (
                c.protect_served(s.machine).0,
                MonitorView { machine: c.protect_served(s.machine).1, ..s },
            )
        },
        Some(ProcessCallType::MapFile) => {
            &&& r == Dispatch::Return(RETURN_TO_PROCESS)
            &&& c.map_served(s.machine, p, d, t.machine, q)
            &&& t == changed(s, pid, t.machine, q)
        },
        Some(ProcessCallType::SetTcb) => {
            &&& r == Dispatch::Return(RETURN_TO_PROCESS)
            &&& d == (PALContext { vmsa: Vmsa { gs_base: c.vmsa.rbx, ..c.vmsa }, ..c })
            &&& t == s
        },
        Some(ProcessCallType::GetResult) => {
            &&& r == Dispatch::Return(RETURN_TO_GUEST)
            &&& d == c.returning(TrustletReturnType::GETRESULT)
            &&& c.result_given(s.machine, p, t.machine, q)
            &&& t == changed(s, pid, t.machine, q)
        },
        Some(ProcessCallType::GuestRequest) => {
            let (after, machine, target) = c.request_served(s.machine);
            &&& r == Dispatch::Return(target)
            &&& d == after
            &&& t == (MonitorView { machine, ..s })
        },
        Some(ProcessCallType::Finalize) => {
            &&& r == Dispatch::Return(RETURN_TO_GUEST)
            &&& d == c
            &&& t == (MonitorView { machine: finalize::finalized(s.machine, c.vmsa.cr3), ..s })
        },
        Some(ProcessCallType::Inference) => {
            let (after, machine, step) = c.inference_served(
                s.machine,
                p,
                s.models,
                s.loras,
                s.engines,
            );
            match step {
                InferenceStep::Return(target) => {
                    &&& r == Dispatch::Return(target)
                    &&& d == after
                    &&& t == (MonitorView { machine, ..s })
                },
                InferenceStep::Call { callee } => {
                    let (answered, calls, dispatch) = c.call_begun(s, callee.0 as u64);
                    &&& r == dispatch
                    &&& d == answered
                    &&& t == (MonitorView { calls, ..s })
                },
            }
        },
        Some(ProcessCallType::GpuChannel) => {
            let (after, exclusive, core) = c.channel_begun(s.gpu, s.exclusive);
            &&& d == after
            &&& t == (MonitorView { exclusive, ..s })
            &&& match core {
                Some(n) => r is GpuChannel && r->GpuChannel_core == n && n < 64,
                None => r == Dispatch::Return(RETURN_TO_PROCESS),
            }
        },
        Some(ProcessCallType::CallTrustlet) => {
            let (answered, calls, dispatch) = c.call_begun(s, c.vmsa.rbx);
            &&& r == dispatch
            &&& d == answered
            &&& t == (MonitorView { calls, ..s })
        },
        Some(ProcessCallType::ModelChannel) => {
            &&& r == Dispatch::Return(RETURN_TO_PROCESS)
            &&& (d, t) == (
                c.model_served(s.machine, s.models).0,
                MonitorView { machine: c.model_served(s.machine, s.models).1, ..s },
            )
        },
        Some(ProcessCallType::Exception) => {
            &&& r is Return
            &&& c.fault_handled(s.machine, p, s.gpu, d, t.machine, q, t.gpu, r->Return_0)
            &&& t == (MonitorView { gpu: t.gpu, ..changed(s, pid, t.machine, q) })
        },
        Some(ProcessCallType::CallInflateChannel) => {
            &&& r == Dispatch::Return(RETURN_TO_PROCESS)
            &&& d == c
            &&& t == changed(
                s,
                pid,
                c.inflate_served(s.machine, p).0,
                c.inflate_served(s.machine, p).1,
            )
        },
        Some(ProcessCallType::CallExit) => r == Dispatch::Return(RETURN_TO_GUEST) && d == c && t == s,
        Some(ProcessCallType::Nop)
        | Some(ProcessCallType::CallOutb)
        | Some(ProcessCallType::CallOutbWithValue)
        | Some(ProcessCallType::TbrDebug)
        | Some(ProcessCallType::TbrDebugPrint) => r == Dispatch::Return(RETURN_TO_PROCESS) && d == c
            && t == s,
        None => {
            &&& d == c
            &&& t == s
            &&& if is_leaf(c.vmsa.rax) {
                r is Cpuid && r->Cpuid_eax == c.vmsa.rax && r->Cpuid_ecx == (
                if crate::interop::cpuid::has_subleaf(r->Cpuid_eax) {
                    c.vmsa.rcx as int % 0x1_0000_0000
                } else {
                    0
                })
            } else {
                r == Dispatch::Return(RETURN_TO_GUEST)
            }
        },
    }
}

/// The monitor while it serves a call.
pub open spec fn entered(s: MonitorView, pid: ProcessID, rax: u64) -> MonitorView {
    MonitorView {
        processes: s.processes.update(
            pid.0 as int,
            TrustedProcess { last_pcall: rax, in_pcall: true, ..s.processes[pid.0 as int] },
        ),
        ..s
    }
}

/// Serves all calls of processes.
pub trait ProcessRuntime:
    ProcessRuntimePrint
    + ProcessRuntimeException
    + ProcessRuntimeMemory
    + ProcessRuntimeMisc
    + ProcessRuntimeChannel
    + ProcessRuntimeFin
    + ProcessRuntimeExit
    + ProcessRuntimeGuestRequest
    + ProcessRuntimeInference
    + ProcessRuntimeGpu
    + ProcessRuntimeModel {
    /// The process that makes the call.
    spec fn caller(&self) -> ProcessID;

    fn handle_process_request(
        &mut self,
        mon: &mut Monitor,
        call: Option<ProcessCallType>,
        shown: &mut Vec<u8>,
    ) -> Dispatch
        requires
            old(mon)@.wf(),
            old(self).caller().0 < old(mon)@.processes.len(),
    ;
}

impl PALContext {
    /// Serves a call about memory.
    fn serve_memory(&mut self, mon: &mut Monitor, call: Option<ProcessCallType>) -> (r: Dispatch)
        requires
            old(mon)@.wf(),
            old(self).process.0 < old(mon)@.processes.len(),
            call == Some(ProcessCallType::VirtAlloc)
                || call == Some(ProcessCallType::MapFile)
                || call == Some(ProcessCallType::Mprotect)
                || call == Some(ProcessCallType::VirtFree)
                || call == Some(ProcessCallType::Finalize)
                || call == Some(ProcessCallType::ModelChannel)
                || call == Some(ProcessCallType::CallInflateChannel),
        ensures
            old(self).can_serve(old(mon)@, call) ==> served(
                call,
                *old(self),
                old(mon)@,
                *final(self),
                final(mon)@,
                r,
            ) && final(mon)@.wf(),
            !old(self).can_serve(old(mon)@, call) ==> r == Dispatch::Halt,
    {
        let pid = self.process;
        match call {
            Some(ProcessCallType::VirtAlloc) => Dispatch::Return(
                self.pal_svsm_virt_alloc(&mut mon.machine),
            ),
            Some(ProcessCallType::MapFile) => {
                let p = mon.processes.get(pid);
                match self.serve_map(&mut mon.machine, p) {
                    Some(target) => Dispatch::Return(target),
                    None => Dispatch::Halt,
                }
            },
            Some(ProcessCallType::Mprotect) => {
                if self.vmsa.rcx > u64::MAX - 4095 - self.vmsa.rbx % 4096 {
                    return Dispatch::Halt;
                }
                Dispatch::Return(self.pal_svsm_mprotect(&mut mon.machine))
            },
            Some(ProcessCallType::VirtFree) => Dispatch::Return(
                self.pal_svsm_virt_free(&mut mon.machine),
            ),
            Some(ProcessCallType::Finalize) => Dispatch::Return(
                self.pal_svsm_finalize(&mut mon.machine),
            ),
            Some(ProcessCallType::ModelChannel) => Dispatch::Return(
                self.pal_svsm_model_channel(&mut mon.machine, &mon.models),
            ),
            Some(ProcessCallType::CallInflateChannel) => {
                if self.vmsa.rdx > MAX_CHANNEL_SIZE {
                    return Dispatch::Halt;
                }
                let p = mon.processes.get(pid);
                Dispatch::Return(self.pal_svsm_inflate_channel(&mut mon.machine, p))
            },
            _ => Dispatch::Halt,
        }
    }

    /// Serves a call that ends the run of the process, or may do so.
    fn serve_guest_bound(&mut self, mon: &mut Monitor, call: Option<ProcessCallType>) -> (r: Dispatch)
        requires
            old(mon)@.wf(),
            old(self).process.0 < old(mon)@.processes.len(),
            call == Some(ProcessCallType::Fail)
                || call == Some(ProcessCallType::Exit)
                || call == Some(ProcessCallType::GetResult)
                || call == Some(ProcessCallType::GuestRequest)
                || call == Some(ProcessCallType::Exception)
                || call == Some(ProcessCallType::HandleDf),
        ensures
            old(self).can_serve(old(mon)@, call) ==> served(
                call,
                *old(self),
                old(mon)@,
                *final(self),
                final(mon)@,
                r,
            ) && final(mon)@.wf(),
            !old(self).can_serve(old(mon)@, call) ==> r == Dispatch::Halt,
    {
        let pid = self.process;
        match call {
            Some(ProcessCallType::Fail) => {
                let p = mon.processes.get(pid);
                Dispatch::Return(self.pal_svsm_fail(p, &mut mon.gpu))
            },
            Some(ProcessCallType::Exit) => {
                let p = mon.processes.get(pid);
                Dispatch::Return(self.pal_svsm_exit(p, &mut mon.gpu))
            },
            Some(ProcessCallType::GetResult) => {
                if !self.nested_call && self.result_size > MAX_CHANNEL_SIZE {
                    return Dispatch::Halt;
                }
                let p = mon.processes.get(pid);
                Dispatch::Return(self.pal_svsm_get_result(&mut mon.machine, p))
            },
            Some(ProcessCallType::GuestRequest) => Dispatch::Return(
                self.pal_svsm_guest_request(&mut mon.machine),
            ),
            Some(ProcessCallType::Exception) => {
                let p = mon.processes.get(pid);
                match self.serve_exception(&mut mon.machine, p, &mut mon.gpu) {
                    Some(target) => Dispatch::Return(target),
                    None => Dispatch::Halt,
                }
            },
            Some(ProcessCallType::HandleDf) => {
                let p = mon.processes.get(pid);
                Dispatch::Return(self.handle_df(p, &mut mon.gpu))
            },
            _ => Dispatch::Halt,
        }
    }

    /// Begins a call of another process.
    fn begin_call(&mut self, mon: &mut Monitor, callee_id: u64) -> (r: Dispatch)
        requires
            old(mon)@.wf(),
            old(self).process.0 < old(mon)@.processes.len(),
        ensures
            (*final(self), final(mon)@.calls, r) == old(self).call_begun(old(mon)@, callee_id),
            final(mon)@ == (MonitorView { calls: final(mon)@.calls, ..old(mon)@ }),
            final(mon)@.wf(),
    {
        let caller_id = mon.processes.peek(self.process).id;
        match run_nested(&mut mon.calls, &mon.processes, caller_id, callee_id) {
            Ok(nested) => Dispatch::Call(nested),
            Err(status) => Dispatch::Return(self.call_answered(status)),
        }
    }
}

impl ProcessRuntime for PALContext {
    open spec fn caller(&self) -> ProcessID {
        self.process
    }

    /// Serves a call of the process. A call is a `CPUID` with a number of its
    /// own; all others are what they seem. `shown` gets the memory that a
    /// process wants to show.
    fn handle_process_request(
        &mut self,
        mon: &mut Monitor,
        call: Option<ProcessCallType>,
        shown: &mut Vec<u8>,
    ) -> (r: Dispatch)
        ensures
            ({
                let c = old(self).stepped();
                let s = entered(old(mon)@, old(self).process, old(self).vmsa.rax);
                &&& c.can_serve(s, call) ==> served(call, c, s, *final(self), final(mon)@, r)
                    && final(mon)@.wf()
                &&& !c.can_serve(s, call) ==> r == Dispatch::Halt
                &&& final(shown)@ == (if call == Some(ProcessCallType::TbrDebugPrint) && c.can_show() {
                    old(shown)@ + print::process_bytes(
                        s.machine,
                        c.vmsa.cr3,
                        c.vmsa.rbx,
                        c.vmsa.rcx as nat,
                    )
                } else {
                    old(shown)@
                })
            }),
    {
        let rax = self.vmsa.rax;
        self.vmsa.rip = self.vmsa.rip.wrapping_add(2);
        let pid = self.process;
        let entry = mon.processes.get(pid);
        entry.last_pcall = rax;
        entry.in_pcall = true;
        let ghost s = mon@;
        assert(s =~= entered(old(mon)@, old(self).process, rax));
        match call {
            Some(ProcessCallType::DebugPrint) => Dispatch::Return(self.pal_svsm_debug_print()),
            Some(ProcessCallType::SetTcb) => Dispatch::Return(self.pal_svsm_set_tcb()),
            Some(ProcessCallType::Nop) => Dispatch::Return(self.pal_nop()),
            Some(ProcessCallType::Inference) => {
                if self.vmsa.rcx != 0 && self.vmsa.rcx != 2 {
                    return Dispatch::Halt;
                }
                let p = mon.processes.peek(pid);
                let step = self.pal_inference(
                    &mut mon.machine,
                    p,
                    &mon.models,
                    &mon.loras,
                    &mon.engines,
                );
                match step {
                    InferenceStep::Return(target) => Dispatch::Return(target),
                    InferenceStep::Call { callee } => self.begin_call(mon, callee.0 as u64),
                }
            },
            Some(ProcessCallType::GpuChannel) => {
                match self.gpu_channel_begin(&mon.gpu, &mut mon.exclusive) {
                    Some(core) => Dispatch::GpuChannel { core },
                    None => Dispatch::Return(RETURN_TO_PROCESS),
                }
            },
            Some(ProcessCallType::CallTrustlet) => {
                let callee_id = self.vmsa.rbx;
                self.begin_call(mon, callee_id)
            },
            Some(ProcessCallType::CallOutb) => Dispatch::Return(self.pal_svsm_call_outb()),
            Some(ProcessCallType::CallExit) => Dispatch::Return(self.pal_svsm_call_exit()),
            Some(ProcessCallType::CallOutbWithValue) => Dispatch::Return(
                self.pal_svsm_call_outb_with_value(),
            ),
            Some(ProcessCallType::TbrDebug) => {
                if self.vmsa.rbx % 0x1_0000_0000 > 9 {
                    return Dispatch::Halt;
                }
                Dispatch::Return(RETURN_TO_PROCESS)
            },
            Some(ProcessCallType::TbrDebugPrint) => {
                let len = self.vmsa.rcx;
                if len % 8 != 0 || len > 4096 || self.vmsa.rbx % 4096 + len > 4096 {
                    return Dispatch::Halt;
                }
                Dispatch::Return(self.pal_svsm_print_info(&mon.machine, shown))
            },
            Some(ProcessCallType::Fail)
            | Some(ProcessCallType::Exit)
            | Some(ProcessCallType::GetResult)
            | Some(ProcessCallType::GuestRequest)
            | Some(ProcessCallType::Exception)
            | Some(ProcessCallType::HandleDf) => self.serve_guest_bound(mon, call),
            Some(_) => self.serve_memory(mon, call),
            None => {
                if rax <= 0x24 || (0x8000_0000 <= rax && rax <= 0x8000_0021) {
                    let (eax, ecx) = self.cpuid_request();
                    return Dispatch::Cpuid { eax, ecx };
                }
                Dispatch::Return(RETURN_TO_GUEST)
            },
        }
    }
}

/// The machine after the memory that a process shares for inference was shown to
/// the guest, to write to.
pub open spec fn context_shown(s: MachineState, range: AllocationRange, guest: u64) -> MachineState {
    allocation::pages_asked(
        allocation::asked(s, allocation::range_table_ops(s, range, VMPL2_RWX)),
        0,
        range.1 as nat,
        VMPL2_RWX,
    ).wr(guest, 1, range.0)
}

/// The machine after that memory was taken out of the guest's sight.
pub open spec fn context_hidden(s: MachineState, range: AllocationRange, guest: u64) -> MachineState {
    allocation::pages_asked(s, 0, range.1 as nat, VMPL2_READ).wr(guest, 1, 0)
}

/// Shows the memory that a process shares for inference to the guest, to
/// write to.
pub fn infer_call(m: &mut Machine, store: &mut TrustedProcessStore, params: &RequestParams) -> (r:
    Result<(), MonitorError>)
    requires
        params.rcx < old(store)@.len(),
    ensures
        r is Ok,
        final(store)@ == old(store)@,
        final(m)@ == context_shown(
            old(m)@,
            old(store)@[params.rcx as int].infer_context,
            params.rdx,
        ),
{
    assert(store.processes.len() == store@.len());
    let mut range = store.peek(ProcessID(params.rcx as usize)).infer_context;
    range.guest_write_access(m);
    m.write(params.rdx, 1, range.0);
    Ok(())
}

/// Takes the memory that a process shares for inference out of the guest's
/// sight; the guest can write to it no more.
pub fn infer_call_ret(m: &mut Machine, store: &mut TrustedProcessStore, params: &RequestParams) -> (r:
    Result<(), MonitorError>)
    requires
        params.rcx < old(store)@.len(),
    ensures
        r is Ok,
        final(store)@ == old(store)@,
        final(m)@ == context_hidden(
            old(m)@,
            old(store)@[params.rcx as int].infer_context,
            params.rdx,
        ),
{
    assert(store.processes.len() == store@.len());
    let mut range = store.peek(ProcessID(params.rcx as usize)).infer_context;
    range.guest_remove_write_access(m);
    m.write(params.rdx, 1, 0);
    Ok(())
}

} // verus!
