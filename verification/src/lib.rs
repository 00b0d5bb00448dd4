//! A monitor for trusted processes: the rules by which it hands out memory,
//! builds and shares page tables, runs processes on behalf of a guest and
//! serves their calls.
use vstd::prelude::*;
use process_manager::call_handler;
use process_manager::call_handler::{monitor_call_handler, CallAction, MonitorCallType};
use process_manager::monitor;
use process_manager::monitor::{monitor_init, Monitor};
use process_manager::process_memory;
use process_manager::process_memory::MemoryRegion;

pub mod address;
pub mod attestation;
pub mod cpu;
pub mod crypto;
pub mod error;
pub mod exclusive;
pub mod gpu;
pub mod interop;
pub mod memory;
pub mod model_store;
pub mod process_manager;
pub mod process_runtime;
pub mod sev;
pub mod utils;

verus! {

/// The registers of a request of the guest.
#[derive(Clone, Copy, PartialEq, Eq, Structural, Debug)]
pub struct RequestParams {
    pub sev_features: u64,
    pub rcx: u64,
    pub rdx: u64,
    pub r8: u64,
    pub r9: u64,
}

impl Default for RequestParams {
    fn default() -> (r: Self)
        ensures
            r == (RequestParams { sev_features: 0, rcx: 0, rdx: 0, r8: 0, r9: 0 }),
    {
        RequestParams { sev_features: 0, rcx: 0, rdx: 0, r8: 0, r9: 0 }
    }
}

/// What the guest is told of a request.
#[derive(Clone, Copy, PartialEq, Eq, Structural, Debug)]
pub enum Reply {
    /// 0, or -1 where the request has failed.
    Status(i64),
    /// Nothing yet: something is left to be done.
    Pending(CallAction),
}

/// Sets the monitor up; see `monitor_init`.
pub fn wallet_memory_init(mon: &mut Monitor, first: MemoryRegion, second: MemoryRegion, entry: u64)
    requires
        !old(mon)@.machine.pool.initilized ==> process_memory::regions_ok(first, second),
        old(mon)@.wf(),
        !old(mon)@.ready ==> old(mon)@.processes.len() == 0 && old(mon)@.models.len() == 0 && old(
            mon,
        )@.loras.len() == 0 && old(mon)@.engines.len() == 0,
    ensures
        final(mon)@.wf(),
        monitor::initialized(old(mon)@, second, entry, final(mon)@),
{
    monitor_init(mon, first, second, entry);
}

/// Serves a request of the guest; see `monitor_call_handler`.
pub fn wallet_process_protocol_request(
    mon: &mut Monitor,
    call: Option<MonitorCallType>,
    params: &mut RequestParams,
    now: u64,
    apic_id: u32,
) -> (r: Reply)
    requires
        old(mon)@.wf(),
    ensures
        final(mon)@.wf(),
        exists|action: CallAction|
            #[trigger] call_handler::answered(
                call,
                old(mon)@,
                *old(params),
                now,
                apic_id,
                final(mon)@,
                *final(params),
                action,
            ) && r == (match action {
                CallAction::Done => Reply::Status(0),
                CallAction::Failed(_) => Reply::Status(-1i64),
                _ => Reply::Pending(action),
            }),
{
    let action = monitor_call_handler(mon, call, params, now, apic_id);
    match action {
        CallAction::Done => Reply::Status(0),
        CallAction::Failed(_) => Reply::Status(-1),
        _ => Reply::Pending(action),
    }
}

} // verus!
