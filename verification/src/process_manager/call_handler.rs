//! Serves the requests of the guest.
use vstd::prelude::*;
use crate::error::MonitorError;
use crate::exclusive::scheduling;
use crate::exclusive::scheduling::{run_exit, run_sleep, run_wakeup, SchedStep};
use crate::gpu::direct;
use crate::gpu::direct::{register_engine, register_heap, register_service, register_window};
use crate::gpu::handle_api_call;
use crate::gpu::relay::run;
use crate::model_store;
use crate::model_store::engine::{
    engine_delete, engine_get, engine_get_undo, engine_load_data, engine_load_init,
};
use crate::model_store::lora::{lora_delete, lora_get, lora_get_undo, lora_load_data, lora_load_init};
use crate::model_store::model::{
    model_delete, model_get, model_get_undo, model_load_data, model_load_init,
};
use crate::model_store::stream;
use crate::model_store::LoadStep;
use crate::process_manager;
use crate::process_manager::monitor::{Monitor, MonitorView};
use crate::process_manager::process::{ProcessID, TrustedProcessType};
use crate::process_manager::{reject, STATUS_UNSUPPORTED};
use crate::process_runtime::invoke;
use crate::process_runtime::invoke::{invoke_trustlet, Invocation, InvokeStep};
use crate::process_runtime::process::inference;
use crate::process_runtime::process::inference::{prompt_get, response_store};
use crate::process_runtime::runtime;
use crate::process_runtime::runtime::{infer_call, infer_call_ret};
use crate::process_runtime::TrustletReturnType;
use crate::RequestParams;

verus! {

/// The requests of the guest.
#[derive(Clone, Copy, PartialEq, Eq, Structural, Debug)]
pub enum MonitorCallType {
    InitMonitor,
    AttestMonitor,
    LoadPolicy,
    CreateZygote,
    DeleteZygote,
    CreateTrustlet,
    DeleteTrustlet,
    InvokeTrustlet,
    WaitForTrustletResult,
    CreateChannel,
    DeleteChannel,
    GetPublicKey,
    SendPolicy,
    ExecuteElf,
    InferCall,
    InferCallRet,
    GetStat,
    ResetStat,
    TestCall,
    ArgTest,
    ModelStoreLoadInit,
    ModelStoreLoadData,
    ModelStoreDelete,
    ModelStoreGet,
    ModelStoreGetUndo,
    LoraStoreLoadInit,
    LoraStoreLoadData,
    LoraStoreDelete,
    LoraStoreGet,
    LoraStoreGetUndo,
    EngineStoreLoadInit,
    EngineStoreLoadData,
    EngineStoreDelete,
    EngineStoreGet,
    EngineStoreGetUndo,
    ModelStreamUpdate,
    PromptGet,
    ResponseStore,
    GpuApi,
    GpuSetup,
    GpuRun,
    DonateCpu,
    RunCpu,
    PauseCpu,
    ReturnCpu,
    RegisterCpuClient,
    RegisterGpuWindow,
    RegisterGpuHeap,
}

/// The stores that loads go to.
#[derive(Clone, Copy, PartialEq, Eq, Structural, Debug)]
pub enum StoreKind {
    Model,
    Lora,
    Engine,
}

/// What is left to be done for a request.
#[derive(Clone, Copy, PartialEq, Eq, Structural, Debug)]
pub enum CallAction {
    /// Nothing: it is answered.
    Done,
    /// Nothing: it has failed.
    Failed(MonitorError),
    /// Attest the monitor; with `init`, as part of its initialization.
    Attest { init: bool },
    /// Make a process.
    Create { kind: TrustedProcessType },
    /// Delete a process.
    Delete,
    /// Give the guest the public key.
    PublicKey,
    /// Take a policy of the guest.
    Policy,
    /// Prepare a process and run it.
    Invoke(Invocation),
    /// Find the root tables of two processes and link them with
    /// `create_channel`.
    Channel { first: ProcessID, second: ProcessID },
    /// Wait for the digest of a load, then end it with `load_fin_end`.
    WaitLoad { store: StoreKind, store_id: u64 },
    /// Poll the engine of a core until its session ends.
    Poll { core: usize },
    /// Take the core from the guest with `run_exclusive`.
    Donate,
    /// Go on with a command to a core.
    Schedule(SchedStep),
    /// The request makes no sense; the monitor cannot go on.
    Halt,
}

/// What a load that was to be ended comes to.
pub open spec fn load_action(store: StoreKind, step: LoadStep) -> CallAction {
    match step {
        LoadStep::Done => CallAction::Done,
        LoadStep::Waiting { store_id } => CallAction::WaitLoad { store, store_id },
    }
}

fn after_load(store: StoreKind, step: LoadStep) -> (r: CallAction)
    ensures
        r == load_action(store, step),
{
    match step {
        LoadStep::Done => CallAction::Done,
        LoadStep::Waiting { store_id } => CallAction::WaitLoad { store, store_id },
    }
}

/// What a command to a core comes to.
pub open spec fn sched_action(step: SchedStep) -> CallAction {
    match step {
        SchedStep::Done => CallAction::Done,
        _ => CallAction::Schedule(step),
    }
}

fn after_command(step: SchedStep) -> (r: CallAction)
    ensures
        r == sched_action(step),
{
    match step {
        SchedStep::Done => CallAction::Done,
        _ => CallAction::Schedule(step),
    }
}

/// What a request that ended with a result comes to.
pub open spec fn result_action(result: Result<(), MonitorError>) -> CallAction {
    match result {
        Ok(_) => CallAction::Done,
        Err(e) => CallAction::Failed(e),
    }
}

fn after_result(result: Result<(), MonitorError>) -> (r: CallAction)
    ensures
        r == result_action(result),
{
    match result {
        Ok(_) => CallAction::Done,
        Err(e) => CallAction::Failed(e),
    }
}

/// Whether a request on a store was served.
pub open spec fn store_served(
    call: MonitorCallType,
    s: MonitorView,
    params: RequestParams,
    now: u64,
    t: MonitorView,
    answer: RequestParams,
    r: CallAction,
) -> bool {
    match call {
        MonitorCallType::ModelStoreLoadInit => {
            let (machine, begun, models, rcx) = model_store::load_requested(
                s.machine,
                s.stream,
                s.models,
                params.rcx,
                params.rdx,
                now,
            );
            &&& r == CallAction::Done
            &&& answer == (RequestParams { rcx, ..params })
            &&& t == (MonitorView { machine, stream: begun, models, ..s })
        },
        MonitorCallType::ModelStoreLoadData => {
            &&& t == (MonitorView {
                machine: t.machine,
                stream: t.stream,
                models: t.models,
                ..s
            })
            &&& exists|step: LoadStep|
                r == #[trigger] load_action(StoreKind::Model, step) && model_store::load_ended(
                    s.machine,
                    s.stream,
                    s.models,
                    params,
                    t.machine,
                    t.stream,
                    t.models,
                    answer,
                    step,
                )
        },
        MonitorCallType::ModelStoreDelete => {
            let (machine, models, a) = model_store::deleted(s.machine, s.models, params);
            r == CallAction::Done && answer == a && t == (MonitorView { machine, models, ..s })
        },
        MonitorCallType::ModelStoreGet => {
            let (machine, a) = model_store::shown(s.machine, s.models, params);
            r == CallAction::Done && answer == a && t == (MonitorView { machine, ..s })
        },
        MonitorCallType::ModelStoreGetUndo => {
            let (machine, a) = model_store::unshown(s.machine, s.models, params);
            r == CallAction::Done && answer == a && t == (MonitorView { machine, ..s })
        },
        MonitorCallType::LoraStoreLoadInit => {
            let (machine, begun, loras, rcx) = model_store::load_requested(
                s.machine,
                s.stream,
                s.loras,
                params.rcx,
                params.rdx,
                now,
            );
            &&& r == CallAction::Done
            &&& answer == (RequestParams { rcx, ..params })
            &&& t == (MonitorView { machine, stream: begun, loras, ..s })
        },
        MonitorCallType::LoraStoreLoadData => {
            &&& t == (MonitorView {
                machine: t.machine,
                stream: t.stream,
                loras: t.loras,
                ..s
            })
            &&& exists|step: LoadStep|
                r == #[trigger] load_action(StoreKind::Lora, step) && model_store::load_ended(
                    s.machine,
                    s.stream,
                    s.loras,
                    params,
                    t.machine,
                    t.stream,
                    t.loras,
                    answer,
                    step,
                )
        },
        MonitorCallType::LoraStoreDelete => {
            let (machine, loras, a) = model_store::deleted(s.machine, s.loras, params);
            r == CallAction::Done && answer == a && t == (MonitorView { machine, loras, ..s })
        },
        MonitorCallType::LoraStoreGet => {
            let (machine, a) = model_store::shown(s.machine, s.loras, params);
            r == CallAction::Done && answer == a && t == (MonitorView { machine, ..s })
        },
        MonitorCallType::LoraStoreGetUndo => {
            let (machine, a) = model_store::unshown(s.machine, s.loras, params);
            r == CallAction::Done && answer == a && t == (MonitorView { machine, ..s })
        },
        MonitorCallType::EngineStoreLoadInit => {
            let (machine, begun, engines, rcx) = model_store::load_requested(
                s.machine,
                s.stream,
                s.engines,
                params.rcx,
                params.rdx,
                now,
            );
            &&& r == CallAction::Done
            &&& answer == (RequestParams { rcx, ..params })
            &&& t == (MonitorView { machine, stream: begun, engines, ..s })
        },
        MonitorCallType::EngineStoreLoadData => {
            &&& t == (MonitorView {
                machine: t.machine,
                stream: t.stream,
                engines: t.engines,
                ..s
            })
            &&& exists|step: LoadStep|
                r == #[trigger] load_action(StoreKind::Engine, step) && model_store::load_ended(
                    s.machine,
                    s.stream,
                    s.engines,
                    params,
                    t.machine,
                    t.stream,
                    t.engines,
                    answer,
                    step,
                )
        },
        MonitorCallType::EngineStoreDelete => {
            let (machine, engines, a) = model_store::deleted(s.machine, s.engines, params);
            r == CallAction::Done && answer == a && t == (MonitorView { machine, engines, ..s })
        },
        MonitorCallType::EngineStoreGet => {
            let (machine, a) = model_store::shown(s.machine, s.engines, params);
            r == CallAction::Done && answer == a && t == (MonitorView { machine, ..s })
        },
        MonitorCallType::EngineStoreGetUndo => {
            let (machine, a) = model_store::unshown(s.machine, s.engines, params);
            r == CallAction::Done && answer == a && t == (MonitorView { machine, ..s })
        },
        MonitorCallType::ModelStreamUpdate => {
            let (machine, updated, rcx) = stream::updated(
                s.machine,
                s.stream,
                params.rcx,
                params.rdx & stream::REQUEST_EAGER != 0,
            );
            &&& r == CallAction::Done
            &&& answer == (RequestParams { rcx, ..params })
            &&& t == (MonitorView { machine, stream: updated, ..s })
        },
        _ => false,
    }
}

/// Whether a request on the GPU or on a core was served.
pub open spec fn device_served(
    call: MonitorCallType,
    s: MonitorView,
    params: RequestParams,
    apic_id: u32,
    t: MonitorView,
    answer: RequestParams,
    r: CallAction,
) -> bool {
    match call {
        MonitorCallType::GpuApi => r == CallAction::Done && answer == params && t == s,
        MonitorCallType::GpuSetup => if apic_id < 64 || params.r8 < 64 {
            let (gpu, a) = direct::engine_registered_for(s.gpu, s.exclusive, params, apic_id);
            r == CallAction::Done && answer == a && t == (MonitorView { gpu, ..s })
        } else {
            r == CallAction::Halt && answer == params && t == s
        },
        MonitorCallType::GpuRun => {
            &&& answer == params
            &&& t == s
            &&& r == (if apic_id >= 64 {
                CallAction::Halt
            } else if s.gpu.engaged(apic_id as int) {
                CallAction::Poll { core: apic_id as usize }
            } else {
                CallAction::Done
            })
        },
        MonitorCallType::DonateCpu => r == CallAction::Donate && answer == params && t == s,
        MonitorCallType::RunCpu => {
            let (machine, a, step) = scheduling::awakened(s.machine, s.exclusive, params);
            r == sched_action(step) && answer == a && t == (MonitorView { machine, ..s })
        },
        MonitorCallType::PauseCpu => {
            let (machine, a, step) = scheduling::halted(s.machine, s.exclusive, params);
            r == sched_action(step) && answer == a && t == (MonitorView { machine, ..s })
        },
        MonitorCallType::ReturnCpu => {
            let (machine, a, step) = scheduling::recalled(s.machine, s.exclusive, params);
            r == sched_action(step) && answer == a && t == (MonitorView { machine, ..s })
        },
        MonitorCallType::RegisterCpuClient => {
            let (gpu, a) = direct::service_registered_for(s.gpu, params);
            r == CallAction::Done && answer == a && t == (MonitorView { gpu, ..s })
        },
        MonitorCallType::RegisterGpuWindow => {
            let (machine, gpu, a) = direct::window_requested(s.machine, s.gpu, params);
            r == CallAction::Done && answer == a && t == (MonitorView { machine, gpu, ..s })
        },
        MonitorCallType::RegisterGpuHeap => {
            let (machine, gpu, a) = direct::heap_requested(s.machine, s.gpu, params);
            r == CallAction::Done && answer == a && t == (MonitorView { machine, gpu, ..s })
        },
        _ => false,
    }
}

/// Whether a request on a process was served.
pub open spec fn process_served(
    call: MonitorCallType,
    s: MonitorView,
    params: RequestParams,
    t: MonitorView,
    answer: RequestParams,
    r: CallAction,
) -> bool {
    let known = params.rcx < s.processes.len();
    let context = s.processes[params.rcx as int].infer_context;
    match call {
        MonitorCallType::InvokeTrustlet => {
            let (words, machine) = invoke::request_words(s.machine, params);
            if !invoke::can_resume(s.processes, params.rcx) {
                &&& r == CallAction::Done
                &&& answer == (RequestParams { rcx: TrustletReturnType::ERROR.number(), ..params })
                &&& t == s
            } else {
                &&& answer == params
                &&& match invoke::invocation(words, params) {
                    Some(inv) => r == CallAction::Invoke(inv) && t == (MonitorView { machine, ..s }),
                    None => r == CallAction::Halt,
                }
            }
        },
        MonitorCallType::CreateChannel => {
            &&& answer == params
            &&& t == s
            &&& r == (if known && params.rdx < s.processes.len() {
                CallAction::Channel {
                    first: ProcessID(params.rcx as usize),
                    second: ProcessID(params.rdx as usize),
                }
            } else {
                CallAction::Halt
            })
        },
        MonitorCallType::InferCall => if known {
            &&& r == CallAction::Done
            &&& answer == params
            &&& t == (MonitorView {
                machine: runtime::context_shown(s.machine, context, params.rdx),
                ..s
            })
        } else {
            r == CallAction::Halt && answer == params && t == s
        },
        MonitorCallType::InferCallRet => if known {
            &&& r == CallAction::Done
            &&& answer == params
            &&& t == (MonitorView {
                machine: runtime::context_hidden(s.machine, context, params.rdx),
                ..s
            })
        } else {
            r == CallAction::Halt && answer == params && t == s
        },
        MonitorCallType::PromptGet => if known {
            let (machine, a) = inference::prompt_got(s.machine, s.processes, params);
            r == CallAction::Done && answer == a && t == (MonitorView { machine, ..s })
        } else {
            r == CallAction::Halt && answer == params && t == s
        },
        MonitorCallType::ResponseStore => if known {
            let (machine, a) = inference::response_stored(s.machine, s.processes, params);
            r == CallAction::Done && answer == a && t == (MonitorView { machine, ..s })
        } else {
            r == CallAction::Halt && answer == params && t == s
        },
        _ => false,
    }
}

/// What is left to be done for a request that the monitor itself does nothing
/// for.
pub open spec fn plain_action(call: MonitorCallType) -> Option<CallAction> {
    match call {
        MonitorCallType::InitMonitor => Some(CallAction::Attest { init: true }),
        MonitorCallType::AttestMonitor => Some(CallAction::Attest { init: false }),
        MonitorCallType::CreateZygote => Some(
            CallAction::Create { kind: TrustedProcessType::Zygote },
        ),
        MonitorCallType::CreateTrustlet => Some(
            CallAction::Create { kind: TrustedProcessType::Trustlet },
        ),
        MonitorCallType::DeleteZygote | MonitorCallType::DeleteTrustlet => Some(CallAction::Delete),
        MonitorCallType::GetPublicKey => Some(CallAction::PublicKey),
        MonitorCallType::SendPolicy => Some(CallAction::Policy),
        MonitorCallType::LoadPolicy
        | MonitorCallType::WaitForTrustletResult
        | MonitorCallType::DeleteChannel
        | MonitorCallType::ExecuteElf
        | MonitorCallType::GetStat
        | MonitorCallType::ResetStat
        | MonitorCallType::TestCall
        | MonitorCallType::ArgTest => Some(CallAction::Done),
        _ => None,
    }
}

/// The registers after such a request. The initialization starts with a report
/// on the monitor; its place in the answer is cleared.
pub open spec fn plain_answer(call: MonitorCallType, params: RequestParams) -> RequestParams {
    match call {
        MonitorCallType::InitMonitor => RequestParams { rcx: 0, ..params },
        _ => params,
    }
}

/// Whether a request was served: `s` and `params` are the monitor and the
/// request before it, `t` and `answer` those after it, and `r` is what is left
/// to be done.
pub open spec fn answered(
    call: Option<MonitorCallType>,
    s: MonitorView,
    params: RequestParams,
    now: u64,
    apic_id: u32,
    t: MonitorView,
    answer: RequestParams,
    r: CallAction,
) -> bool {
    match call {
        None => {
            &&& r == CallAction::Done
            &&& answer == process_manager::rejected(params, STATUS_UNSUPPORTED)
            &&& t == s
        },
        Some(c) => match plain_action(c) {
            Some(action) => r == action && answer == plain_answer(c, params) && t == s,
            None => {
                ||| store_served(c, s, params, now, t, answer, r)
                ||| device_served(c, s, params, apic_id, t, answer, r)
                ||| process_served(c, s, params, t, answer, r)
            },
        },
    }
}

/// No request of the guest ends in an error, which the guest would answer by
/// making the request again: one that is refused is answered by a status.
pub proof fn law_no_request_fails(
    call: Option<MonitorCallType>,
    s: MonitorView,
    params: RequestParams,
    now: u64,
    apic_id: u32,
    t: MonitorView,
    answer: RequestParams,
    r: CallAction,
)
    requires
        answered(call, s, params, now, apic_id, t, answer, r),
    ensures
        !(r is Failed),
{
}

/// Answers a request for counters, which are shown elsewhere.
pub fn get_stat(_params: &RequestParams) -> (r: Result<(), MonitorError>)
    ensures
        r is Ok,
{
    Ok(())
}

/// Answers a request to reset counters, which are kept elsewhere.
pub fn reset_stat(_params: &RequestParams) -> (r: Result<(), MonitorError>)
    ensures
        r is Ok,
{
    Ok(())
}

/// Serves a request on a store.
fn serve_store(mon: &mut Monitor, call: MonitorCallType, params: &mut RequestParams, now: u64) -> (r:
    Option<CallAction>)
    requires
        old(mon)@.wf(),
    ensures
        final(mon)@.wf(),
        match r {
            Some(action) => store_served(
                call,
                old(mon)@,
                *old(params),
                now,
                final(mon)@,
                *final(params),
                action,
            ),
            None => final(mon)@ == old(mon)@ && *final(params) == *old(params),
        },
        r is None <==> !is_store_call(call),
{
    proof {
        let s = mon@;
        model_store::lemma_loads_stay_wf(s.machine, s.stream, s.absorbed, s.models, *params, now);
        model_store::lemma_loads_stay_wf(s.machine, s.stream, s.absorbed, s.loras, *params, now);
        model_store::lemma_loads_stay_wf(s.machine, s.stream, s.absorbed, s.engines, *params, now);
    }
    match call {
        MonitorCallType::ModelStoreLoadInit => Some(
            after_result(
                model_load_init(&mut mon.machine, &mut mon.stream, &mut mon.models, params, now),
            ),
        ),
        MonitorCallType::ModelStoreLoadData => {
            let step = model_load_data(&mut mon.machine, &mut mon.stream, &mut mon.models, params);
            Some(after_load(StoreKind::Model, step))
        },
        MonitorCallType::ModelStoreDelete => Some(
            after_result(model_delete(&mut mon.machine, &mut mon.models, params)),
        ),
        MonitorCallType::ModelStoreGet => Some(
            after_result(model_get(&mut mon.machine, &mon.models, params)),
        ),
        MonitorCallType::ModelStoreGetUndo => Some(
            after_result(model_get_undo(&mut mon.machine, &mon.models, params)),
        ),
        MonitorCallType::LoraStoreLoadInit => Some(
            after_result(
                lora_load_init(&mut mon.machine, &mut mon.stream, &mut mon.loras, params, now),
            ),
        ),
        MonitorCallType::LoraStoreLoadData => {
            let step = lora_load_data(&mut mon.machine, &mut mon.stream, &mut mon.loras, params);
            Some(after_load(StoreKind::Lora, step))
        },
        MonitorCallType::LoraStoreDelete => Some(
            after_result(lora_delete(&mut mon.machine, &mut mon.loras, params)),
        ),
        MonitorCallType::LoraStoreGet => Some(
            after_result(lora_get(&mut mon.machine, &mon.loras, params)),
        ),
        MonitorCallType::LoraStoreGetUndo => Some(
            after_result(lora_get_undo(&mut mon.machine, &mon.loras, params)),
        ),
        MonitorCallType::EngineStoreLoadInit => Some(
            after_result(
                engine_load_init(&mut mon.machine, &mut mon.stream, &mut mon.engines, params, now),
            ),
        ),
        MonitorCallType::EngineStoreLoadData => {
            let step = engine_load_data(&mut mon.machine, &mut mon.stream, &mut mon.engines, params);
            Some(after_load(StoreKind::Engine, step))
        },
        MonitorCallType::EngineStoreDelete => Some(
            after_result(engine_delete(&mut mon.machine, &mut mon.engines, params)),
        ),
        MonitorCallType::EngineStoreGet => Some(
            after_result(engine_get(&mut mon.machine, &mon.engines, params)),
        ),
        MonitorCallType::EngineStoreGetUndo => Some(
            after_result(engine_get_undo(&mut mon.machine, &mon.engines, params)),
        ),
        MonitorCallType::ModelStreamUpdate => Some(
            after_result(stream::update(&mut mon.stream, &mut mon.machine, params)),
        ),
        _ => None,
    }
}

/// Whether a request is one on a store.
pub open spec fn is_store_call(call: MonitorCallType) -> bool {
    match call {
        MonitorCallType::ModelStoreLoadInit
        | MonitorCallType::ModelStoreLoadData
        | MonitorCallType::ModelStoreDelete
        | MonitorCallType::ModelStoreGet
        | MonitorCallType::ModelStoreGetUndo
        | MonitorCallType::LoraStoreLoadInit
        | MonitorCallType::LoraStoreLoadData
        | MonitorCallType::LoraStoreDelete
        | MonitorCallType::LoraStoreGet
        | MonitorCallType::LoraStoreGetUndo
        | MonitorCallType::EngineStoreLoadInit
        | MonitorCallType::EngineStoreLoadData
        | MonitorCallType::EngineStoreDelete
        | MonitorCallType::EngineStoreGet
        | MonitorCallType::EngineStoreGetUndo
        | MonitorCallType::ModelStreamUpdate => true,
        _ => false,
    }
}

/// Whether a request is one on the GPU or on a core.
pub open spec fn is_device_call(call: MonitorCallType) -> bool {
    match call {
        MonitorCallType::GpuApi
        | MonitorCallType::GpuSetup
        | MonitorCallType::GpuRun
        | MonitorCallType::DonateCpu
        | MonitorCallType::RunCpu
        | MonitorCallType::PauseCpu
        | MonitorCallType::ReturnCpu
        | MonitorCallType::RegisterCpuClient
        | MonitorCallType::RegisterGpuWindow
        | MonitorCallType::RegisterGpuHeap => true,
        _ => false,
    }
}

/// Serves a request on the GPU or on a core.
fn serve_device(
    mon: &mut Monitor,
    call: MonitorCallType,
    params: &mut RequestParams,
    apic_id: u32,
) -> (r: Option<CallAction>)
    requires
        old(mon)@.wf(),
    ensures
        final(mon)@.wf(),
        match r {
            Some(action) => device_served(
                call,
                old(mon)@,
                *old(params),
                apic_id,
                final(mon)@,
                *final(params),
                action,
            ),
            None => final(mon)@ == old(mon)@ && *final(params) == *old(params),
        },
        r is None <==> !is_device_call(call),
{
    match call {
        MonitorCallType::GpuApi => Some(after_result(handle_api_call(&mut mon.machine, params))),
        MonitorCallType::GpuSetup => {
            if apic_id >= 64 && params.r8 >= 64 {
                return Some(CallAction::Halt);
            }
            Some(after_result(register_engine(&mut mon.gpu, &mon.exclusive, params, apic_id)))
        },
        MonitorCallType::GpuRun => {
            if apic_id >= 64 {
                return Some(CallAction::Halt);
            }
            match run(&mon.gpu, apic_id) {
                Some(core) => Some(CallAction::Poll { core }),
                None => Some(CallAction::Done),
            }
        },
        MonitorCallType::DonateCpu => Some(CallAction::Donate),
        MonitorCallType::RunCpu => Some(
            after_command(run_wakeup(&mon.exclusive, &mut mon.machine, params)),
        ),
        MonitorCallType::PauseCpu => Some(
            after_command(run_sleep(&mon.exclusive, &mut mon.machine, params)),
        ),
        MonitorCallType::ReturnCpu => Some(
            after_command(run_exit(&mon.exclusive, &mut mon.machine, params)),
        ),
        MonitorCallType::RegisterCpuClient => Some(
            after_result(register_service(&mut mon.gpu, params)),
        ),
        MonitorCallType::RegisterGpuWindow => Some(
            after_result(register_window(&mut mon.gpu, &mut mon.machine, params)),
        ),
        MonitorCallType::RegisterGpuHeap => Some(
            after_result(register_heap(&mut mon.gpu, &mut mon.machine, params)),
        ),
        _ => None,
    }
}

fn knows_process(mon: &Monitor, id: u64) -> (r: bool)
    ensures
        r == (id < mon@.processes.len()),
        r ==> id <= usize::MAX,
{
    id < mon.processes.len() as u64
}

/// Serves a request on a process.
fn serve_process(mon: &mut Monitor, call: MonitorCallType, params: &mut RequestParams) -> (r:
    CallAction)
    requires
        old(mon)@.wf(),
        plain_action(call) is None,
        !is_store_call(call),
        !is_device_call(call),
    ensures
        process_served(call, old(mon)@, *old(params), final(mon)@, *final(params), r),
        final(mon)@.wf(),
{
    match call {
        MonitorCallType::InvokeTrustlet => {
            match invoke_trustlet(&mut mon.machine, &mon.processes, params) {
                InvokeStep::Answered => CallAction::Done,
                InvokeStep::Run(inv) => CallAction::Invoke(inv),
                InvokeStep::Halt => CallAction::Halt,
            }
        },
        MonitorCallType::CreateChannel => {
            if !knows_process(mon, params.rcx) || !knows_process(mon, params.rdx) {
                return CallAction::Halt;
            }
            CallAction::Channel {
                first: ProcessID(params.rcx as usize),
                second: ProcessID(params.rdx as usize),
            }
        },
        MonitorCallType::InferCall => {
            if !knows_process(mon, params.rcx) {
                return CallAction::Halt;
            }
            after_result(infer_call(&mut mon.machine, &mut mon.processes, params))
        },
        MonitorCallType::InferCallRet => {
            if !knows_process(mon, params.rcx) {
                return CallAction::Halt;
            }
            after_result(infer_call_ret(&mut mon.machine, &mut mon.processes, params))
        },
        MonitorCallType::PromptGet => {
            if !knows_process(mon, params.rcx) {
                return CallAction::Halt;
            }
            after_result(prompt_get(&mut mon.machine, &mon.processes, params))
        },
        _ => {
            if !knows_process(mon, params.rcx) {
                return CallAction::Halt;
            }
            after_result(response_store(&mut mon.machine, &mon.processes, params))
        },
    }
}

fn plain_request(call: MonitorCallType, params: &mut RequestParams) -> (r: Option<CallAction>)
    ensures
        r == plain_action(call),
        *final(params) == plain_answer(call, *old(params)),
{
    match call {
        MonitorCallType::InitMonitor => {
            params.rcx = 0;
            Some(CallAction::Attest { init: true })
        },
        MonitorCallType::AttestMonitor => Some(CallAction::Attest { init: false }),
        MonitorCallType::CreateZygote => Some(
            CallAction::Create { kind: TrustedProcessType::Zygote },
        ),
        MonitorCallType::CreateTrustlet => Some(
            CallAction::Create { kind: TrustedProcessType::Trustlet },
        ),
        MonitorCallType::DeleteZygote | MonitorCallType::DeleteTrustlet => Some(CallAction::Delete),
        MonitorCallType::GetPublicKey => Some(CallAction::PublicKey),
        MonitorCallType::SendPolicy => Some(CallAction::Policy),
        MonitorCallType::GetStat => Some(after_result(get_stat(params))),
        MonitorCallType::ResetStat => Some(after_result(reset_stat(params))),
        MonitorCallType::LoadPolicy
        | MonitorCallType::WaitForTrustletResult
        | MonitorCallType::DeleteChannel
        | MonitorCallType::ExecuteElf
        | MonitorCallType::TestCall
        | MonitorCallType::ArgTest => Some(CallAction::Done),
        _ => None,
    }
}

/// Serves a request of the guest that comes from the core `apic_id`. One that
/// the monitor does not know is refused.
pub fn monitor_call_handler(
    mon: &mut Monitor,
    call: Option<MonitorCallType>,
    params: &mut RequestParams,
    now: u64,
    apic_id: u32,
) -> (r: CallAction)
    requires
        old(mon)@.wf(),
    ensures
        answered(call, old(mon)@, *old(params), now, apic_id, final(mon)@, *final(params), r),
        final(mon)@.wf(),
{
    let c = match call {
        None => {
            return after_result(reject(params, STATUS_UNSUPPORTED));
        },
        Some(c) => c,
    };
    match plain_request(c, params) {
        Some(action) => {
            return action;
        },
        None => {},
    }
    match serve_store(mon, c, params, now) {
        Some(action) => {
            return action;
        },
        None => {},
    }
    match serve_device(mon, c, params, apic_id) {
        Some(action) => {
            return action;
        },
        None => {},
    }
    serve_process(mon, c, params)
}

} // verus!
