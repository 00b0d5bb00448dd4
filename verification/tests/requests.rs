//! Requests of the guest, and the memory that the monitor starts with.
use wallet::error::{MonitorError, MonitorErrorType};
use wallet::exclusive::exclusive_loop::run_exclusive;
use wallet::exclusive::scheduling::SchedStep;
use wallet::memory::machine::Machine;
use wallet::process_manager::allocation::AllocationRange;
use wallet::process_manager::call_handler::{
    get_stat, monitor_call_handler, reset_stat, CallAction, MonitorCallType, StoreKind,
};
use wallet::process_manager::monitor::Monitor;
use wallet::process_manager::{STATUS_BAD_ARGS, STATUS_UNSUPPORTED};
use wallet::process_manager::process::{ProcessID, TrustedProcess, TrustedProcessType};
use wallet::process_manager::process_memory::{
    addr_to_idx, allocate_page, allocate_vmsa_page, allocated_amount, free_page,
    monitor_pvalidate_vaddr, monitor_pvalidate_vaddr_4k, pages_available, preallocate_memory,
    MemoryRegion,
};
use wallet::sev::utils::{SevSnpError, SvsmError};
use wallet::{wallet_memory_init, wallet_process_protocol_request, Reply, RequestParams};

const C_BIT: u64 = 0x8_0000_0000_0000;

const FIRST: MemoryRegion = MemoryRegion { start: 0, end: 0x8000_0000 };

/// The least memory that the second region may have.
const SECOND: MemoryRegion = MemoryRegion { start: 0x1_0000_0000, end: 0xA_0000_0000 };

fn monitor() -> Monitor {
    let mut mon = Monitor::new(Machine::new(vec![0u64; 0x8_0000], C_BIT, 0x1000));
    wallet_memory_init(&mut mon, FIRST, SECOND, 0x55);
    mon.machine.pool.page_base = 0x10_0000;
    mon.machine.pool.page_limit = 0x30_0000;
    mon
}

fn request(rcx: u64, rdx: u64, r8: u64, r9: u64) -> RequestParams {
    RequestParams { sev_features: 0, rcx, rdx, r8, r9 }
}

fn call(mon: &mut Monitor, kind: MonitorCallType, params: &mut RequestParams) -> CallAction {
    monitor_call_handler(mon, Some(kind), params, 0, 3)
}

#[test]
fn the_monitor_is_set_up_once() {
    let mut mon = Monitor::new(Machine::new(vec![0u64; 0x8_0000], C_BIT, 0x1000));
    assert!(!mon.ready);
    wallet_memory_init(&mut mon, FIRST, SECOND, 0x55);
    assert!(mon.ready);
    assert_eq!(mon.processes.len(), 64);
    assert_eq!(mon.models.len(), 10);
    assert_eq!(mon.loras.len(), 10);
    assert_eq!(mon.engines.len(), 10);
    // 4 GiB are left, of which each page takes eight bytes of the list.
    let list: u64 = 0x1_0000_0000 / 4096 * 8;
    assert_eq!(mon.machine.pool.page_base, 0x9_0000_0000 + list);
    assert_eq!(mon.machine.pool.page_limit, 0xA_0000_0000);
    assert_eq!(mon.machine.pool.total_size, 0x1_0000_0000 - list);
    assert_eq!(mon.machine.read(0x1000, 1), 0x55);
    assert_eq!(pages_available(&mon.machine), (0x1_0000_0000 - list) / 4096);
    // A core that follows only maps the list.
    mon.machine.cr3 = 0x3000;
    wallet_memory_init(&mut mon, FIRST, SECOND, 0x77);
    assert_eq!(mon.machine.read(0x3000, 1), 0x55);
    assert_eq!(mon.processes.len(), 64);
}

#[test]
fn pages_for_states_are_not_aligned() {
    let mut mon = monitor();
    let m = &mut mon.machine;
    m.pool.page_base = 0x20_0000;
    assert_eq!(allocate_vmsa_page(m), 0x20_1000);
    assert_eq!(m.pool.free_page_list, vec![0x20_0000]);
    assert_eq!(allocate_page(m), 0x20_0000);
    assert_eq!(allocate_vmsa_page(m), 0x20_2000);
    free_page(m, 0x20_2000);
    assert_eq!(allocated_amount(m), 0x20_2000);
    assert_eq!(addr_to_idx(0x20_3000, 0), 3);
    assert_eq!(addr_to_idx(0x20_3000, 1), 1);
}

#[test]
fn pages_can_be_taken_out_of_the_region_ahead() {
    let mut mon = monitor();
    let m = &mut mon.machine;
    m.pool.page_limit = 0x10_3000;
    preallocate_memory(m);
    assert_eq!(m.pool.free_page_list, vec![0x10_0000, 0x10_1000, 0x10_2000]);
    assert_eq!(pages_available(m), 3);
    assert_eq!(allocate_page(m), 0x10_2000);
}

#[test]
fn validation_is_judged() {
    let unchanged: Result<(), SvsmError> = Err(SvsmError::SevSnp(SevSnpError::FAIL_UNCHANGED(16)));
    let failed = Err(MonitorError(MonitorErrorType::PvalidateFailed));
    assert_eq!(monitor_pvalidate_vaddr_4k(Ok(())), Ok(()));
    assert_eq!(monitor_pvalidate_vaddr_4k(unchanged), failed);
    assert_eq!(monitor_pvalidate_vaddr(unchanged, true), Ok(()));
    assert_eq!(
        monitor_pvalidate_vaddr(Err(SvsmError::SevSnp(SevSnpError::FAIL_INPUT(1))), true),
        failed
    );
}

#[test]
fn requests_lead_to_work() {
    let mut mon = monitor();
    let plain: [(MonitorCallType, CallAction); 16] = [
        (MonitorCallType::InitMonitor, CallAction::Attest { init: true }),
        (MonitorCallType::AttestMonitor, CallAction::Attest { init: false }),
        (
            MonitorCallType::CreateZygote,
            CallAction::Create { kind: TrustedProcessType::Zygote },
        ),
        (
            MonitorCallType::CreateTrustlet,
            CallAction::Create { kind: TrustedProcessType::Trustlet },
        ),
        (MonitorCallType::DeleteZygote, CallAction::Delete),
        (MonitorCallType::DeleteTrustlet, CallAction::Delete),
        (MonitorCallType::GetPublicKey, CallAction::PublicKey),
        (MonitorCallType::SendPolicy, CallAction::Policy),
        (MonitorCallType::LoadPolicy, CallAction::Done),
        (MonitorCallType::WaitForTrustletResult, CallAction::Done),
        (MonitorCallType::DeleteChannel, CallAction::Done),
        (MonitorCallType::ExecuteElf, CallAction::Done),
        (MonitorCallType::GetStat, CallAction::Done),
        (MonitorCallType::ResetStat, CallAction::Done),
        (MonitorCallType::TestCall, CallAction::Done),
        (MonitorCallType::ArgTest, CallAction::Done),
    ];
    for (kind, action) in plain {
        let mut params = request(1, 2, 3, 4);
        assert_eq!(call(&mut mon, kind, &mut params), action);
        let rcx = if kind == MonitorCallType::InitMonitor { 0 } else { 1 };
        assert_eq!(params, request(rcx, 2, 3, 4));
    }
    assert_eq!(get_stat(&request(0, 0, 0, 0)), Ok(()));
    assert_eq!(reset_stat(&request(0, 0, 0, 0)), Ok(()));
}

#[test]
fn the_guest_gets_a_status() {
    let mut mon = monitor();
    let mut params = request(1, 2, 3, 4);
    assert_eq!(
        wallet_process_protocol_request(&mut mon, None, &mut params, 0, 0),
        Reply::Status(0)
    );
    assert_eq!(params, request(STATUS_UNSUPPORTED as u64, 2, 3, 4));
    let mut params = request(1, 2, 3, 4);
    assert_eq!(monitor_call_handler(&mut mon, None, &mut params, 0, 0), CallAction::Done);
    assert_eq!(params.rcx, 0xFFFF_FFFF_FFFF_FFFA);
    let test = Some(MonitorCallType::TestCall);
    assert_eq!(
        wallet_process_protocol_request(&mut mon, test, &mut params, 0, 0),
        Reply::Status(0)
    );
    let donate = Some(MonitorCallType::DonateCpu);
    assert_eq!(
        wallet_process_protocol_request(&mut mon, donate, &mut params, 0, 0),
        Reply::Pending(CallAction::Donate)
    );
}

#[test]
fn stores_are_served() {
    let mut mon = monitor();
    for (load, data, get, undo, delete) in [
        (
            MonitorCallType::ModelStoreLoadInit,
            MonitorCallType::ModelStoreLoadData,
            MonitorCallType::ModelStoreGet,
            MonitorCallType::ModelStoreGetUndo,
            MonitorCallType::ModelStoreDelete,
        ),
        (
            MonitorCallType::LoraStoreLoadInit,
            MonitorCallType::LoraStoreLoadData,
            MonitorCallType::LoraStoreGet,
            MonitorCallType::LoraStoreGetUndo,
            MonitorCallType::LoraStoreDelete,
        ),
        (
            MonitorCallType::EngineStoreLoadInit,
            MonitorCallType::EngineStoreLoadData,
            MonitorCallType::EngineStoreGet,
            MonitorCallType::EngineStoreGetUndo,
            MonitorCallType::EngineStoreDelete,
        ),
    ] {
        let mut params = request(100, 0x2000, 0, 0);
        assert_eq!(call(&mut mon, load, &mut params), CallAction::Done);
        assert_eq!(params.rcx, 0);
        let mut params = request(50, 0, 0, 0);
        assert_eq!(call(&mut mon, MonitorCallType::ModelStreamUpdate, &mut params), CallAction::Done);
        assert_eq!(params.rcx & 0xFF_FFFF_FFFF_FFFF, 100);
        let mut params = request(0, 0x2000, 0, 0);
        assert_eq!(call(&mut mon, data, &mut params), CallAction::Done);
        let mut params = request(0, 0x2000, 7, 0);
        assert_eq!(call(&mut mon, get, &mut params), CallAction::Done);
        assert_eq!(params.rcx, 100);
        assert_ne!(mon.machine.read(0x2000, 7), 0);
        let mut params = request(0, 0x2000, 7, 0);
        assert_eq!(call(&mut mon, undo, &mut params), CallAction::Done);
        assert_eq!(params.rcx, 100);
        assert_eq!(mon.machine.read(0x2000, 7), 0);
        let mut params = request(0, 0, 0, 0);
        assert_eq!(call(&mut mon, delete, &mut params), CallAction::Done);
        let mut params = request(0, 0x2000, 7, 0);
        assert_eq!(call(&mut mon, get, &mut params), CallAction::Done);
        assert_eq!(params.rcx, 0);
    }
    // A core that hashes is waited for.
    let mut params = request(100, 0x2000, 0, 0);
    call(&mut mon, MonitorCallType::EngineStoreLoadInit, &mut params);
    mon.stream.worker = 5;
    let mut params = request(0, 0x2000, 0, 0);
    assert_eq!(
        call(&mut mon, MonitorCallType::EngineStoreLoadData, &mut params),
        CallAction::WaitLoad { store: StoreKind::Engine, store_id: 0 }
    );
}

#[test]
fn devices_are_served() {
    let mut mon = monitor();
    let mut params = request(0x8000, 0x9000, 64, 0);
    assert_eq!(call(&mut mon, MonitorCallType::GpuRun, &mut params), CallAction::Done);
    assert_eq!(call(&mut mon, MonitorCallType::GpuSetup, &mut params), CallAction::Done);
    assert_eq!(params.rcx, 0);
    assert_eq!(mon.gpu.engine_pages[3], 0x8000);
    assert_eq!(call(&mut mon, MonitorCallType::GpuRun, &mut params), CallAction::Poll { core: 3 });
    let mut params = request(0x8000, 0x9000, 64, 0);
    assert_eq!(
        monitor_call_handler(&mut mon, Some(MonitorCallType::GpuSetup), &mut params, 0, 64),
        CallAction::Halt
    );
    assert_eq!(
        monitor_call_handler(&mut mon, Some(MonitorCallType::GpuRun), &mut params, 0, 64),
        CallAction::Halt
    );
    assert_eq!(call(&mut mon, MonitorCallType::GpuApi, &mut params), CallAction::Done);
    let mut params = request(0xA000, 0, 64, 0);
    assert_eq!(call(&mut mon, MonitorCallType::RegisterCpuClient, &mut params), CallAction::Done);
    assert_eq!(mon.gpu.service_page, 0xA000);
    let mut params = request(0x31_0000, 1, 64, 0);
    assert_eq!(call(&mut mon, MonitorCallType::RegisterGpuWindow, &mut params), CallAction::Done);
    assert_eq!(params.rcx, 0);
    let mut params = request(0x31_0000, 1, 64, 0);
    assert_eq!(call(&mut mon, MonitorCallType::RegisterGpuHeap, &mut params), CallAction::Done);
    assert_eq!(params.rcx, 0);
    assert_eq!(mon.gpu.heap_npages_any, 1);

    let control = run_exclusive(&mut mon.exclusive, &mut mon.machine, 5, 0x7000, 1);
    let mut params = request(5, 0, 0, 0);
    assert_eq!(call(&mut mon, MonitorCallType::PauseCpu, &mut params), CallAction::Done);
    let mut params = request(5, 0, 0, 0);
    assert_eq!(
        call(&mut mon, MonitorCallType::PauseCpu, &mut params),
        CallAction::Schedule(SchedStep::Retry)
    );
    mon.machine.write(control, 0, 0);
    mon.machine.write(control, 1, 1);
    let mut params = request(5, 0, 0, 0);
    assert_eq!(
        call(&mut mon, MonitorCallType::RunCpu, &mut params),
        CallAction::Schedule(SchedStep::Run { vmsa: 0x7000, features: 1, cpu: 5 })
    );
    mon.machine.write(control, 0, 0);
    let mut params = request(5, 0, 0, 0);
    assert_eq!(
        call(&mut mon, MonitorCallType::ReturnCpu, &mut params),
        CallAction::Schedule(SchedStep::Wake { id: 5 })
    );
    let mut params = request(64, 0, 0, 0);
    assert_eq!(call(&mut mon, MonitorCallType::ReturnCpu, &mut params), CallAction::Done);
    assert_eq!(params.rcx as i64, -2);
}

#[test]
fn processes_are_served() {
    let mut mon = monitor();
    // There is no such process yet.
    let mut params = request(0, 0x2000, 0x8000, 56);
    assert_eq!(call(&mut mon, MonitorCallType::InvokeTrustlet, &mut params), CallAction::Done);
    assert_eq!(params.rcx, 2);
    let mut p = TrustedProcess::empty();
    p.process_type = TrustedProcessType::Trustlet;
    assert_eq!(mon.processes.insert(p), 0);
    let mut params = request(0, 0x2000, 0x8000, 56);
    match call(&mut mon, MonitorCallType::InvokeTrustlet, &mut params) {
        CallAction::Invoke(inv) => assert_eq!(inv.id, ProcessID(0)),
        _ => panic!("the process can be run"),
    }
    let mut params = request(0, 1, 0, 0);
    assert_eq!(
        call(&mut mon, MonitorCallType::CreateChannel, &mut params),
        CallAction::Channel { first: ProcessID(0), second: ProcessID(1) }
    );
    let mut params = request(0, 64, 0, 0);
    assert_eq!(call(&mut mon, MonitorCallType::CreateChannel, &mut params), CallAction::Halt);

    let mut range = AllocationRange(0, 0);
    range.allocate_for_guest(&mut mon.machine, 1);
    range.unmount(&mut mon.machine);
    mon.processes.get(ProcessID(0)).infer_context = range;
    let mut params = request(0, 0x2000, 0, 0);
    assert_eq!(call(&mut mon, MonitorCallType::InferCall, &mut params), CallAction::Done);
    assert_eq!(mon.machine.read(0x2000, 1), range.0);
    assert_eq!(call(&mut mon, MonitorCallType::InferCallRet, &mut params), CallAction::Done);
    assert_eq!(mon.machine.read(0x2000, 1), 0);
    let mut params = request(0, 0x2000, 1, 1);
    assert_eq!(call(&mut mon, MonitorCallType::PromptGet, &mut params), CallAction::Done);
    assert_eq!(params.rcx as i64, STATUS_BAD_ARGS);
    let mut params = request(0, 0x2000, 0, 4097);
    assert_eq!(call(&mut mon, MonitorCallType::ResponseStore, &mut params), CallAction::Done);
    assert_eq!(params.rcx as i64, STATUS_BAD_ARGS);
    for kind in [
        MonitorCallType::InferCall,
        MonitorCallType::InferCallRet,
        MonitorCallType::PromptGet,
        MonitorCallType::ResponseStore,
    ] {
        let mut params = request(64, 0x2000, 0, 1);
        assert_eq!(call(&mut mon, kind, &mut params), CallAction::Halt);
    }
}
