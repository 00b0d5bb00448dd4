//! Cores that the guest gives to the monitor, and the engines that they poll.
use wallet::exclusive::exclusive_loop::{
    exclusive_step, handle_command, leave_exclusive, run_exclusive, sleep_is_over, take_command,
    ExclusiveAction,
};
use wallet::exclusive::scheduling::{
    run_exit, run_sleep, run_wakeup, set_next, sleep_begin, sleep_end, wakeup, SchedStep, WakeStep,
};
use wallet::exclusive::{
    donated_core, free_donated_core, is_donated, replacement_donated_core, ExclusiveState,
    LOOP_CLEAR, LOOP_EXIT, LOOP_SLEEP, LOOP_WAKEUP, LOOP_YIELD,
};
use wallet::gpu::direct::{
    engine_registered, engine_slot_owes_stop, free_engine_slot, heap_for, heap_frames,
    map_heap_for_trustlet, map_heap_range, register_engine, register_engine_page, register_heap,
    register_service, register_window, service_page_for, service_registered, window_for, GpuState,
    GPU_HEAP_VADDR, REFUSED,
};
use wallet::gpu::handle_api_call;
use wallet::gpu::relay::{
    answer_error, bulk_memcpy, complete_call, end_session, forward_call, forward_spec,
    poll_engine, run, BulkStep, CommunicationPage, CudaCallIds, PollAction,
    CUDA_ERROR_INVALID_VALUE, CUDA_ERROR_SYSTEM_NOT_READY,
};
use wallet::memory::machine::Machine;
use wallet::process_manager::process_paging::walk::ProcessPageTableRef;
use wallet::process_manager::reject;
use wallet::RequestParams;

const C_BIT: u64 = 0x8_0000_0000_0000;

const IDS: CudaCallIds = CudaCallIds {
    get_device_count: 1,
    malloc: 2,
    free: 3,
    device_synchronize: 4,
    launch_kernel: 5,
    get_device_properties: 6,
    mem_get_info: 7,
    memset: 8,
    func_set_attribute: 9,
    occupancy_max_active_blocks: 10,
    stream_create_with_flags: 11,
    stream_destroy: 12,
    stream_synchronize: 13,
    stream_begin_capture: 14,
    stream_end_capture: 15,
    graph_instantiate: 16,
    graph_exec_update: 17,
    graph_launch: 18,
    graph_destroy: 19,
    graph_exec_destroy: 20,
    memcpy: 121,
};

fn machine() -> Machine {
    let mut m = Machine::new(vec![0u64; 0x8_0000], C_BIT, 0x1000);
    m.pool.initilized = true;
    m.pool.page_base = 0x10_0000;
    m.pool.page_limit = 0x20_0000;
    m
}

fn request(rcx: u64, rdx: u64, r8: u64, r9: u64) -> RequestParams {
    RequestParams { sev_features: 0, rcx, rdx, r8, r9 }
}

fn page(lock: u8, id: u32) -> CommunicationPage {
    CommunicationPage { lock, id, data: [0u8; 4088] }
}

fn put(page: &mut CommunicationPage, at: usize, bytes: &[u8]) {
    page.data[at..at + bytes.len()].copy_from_slice(bytes);
}

fn word(page: &CommunicationPage, at: usize) -> u64 {
    let mut b: [u8; 8] = [0; 8];
    b.copy_from_slice(&page.data[at..at + 8]);
    u64::from_le_bytes(b)
}

#[test]
fn cores_are_given_and_given_back() {
    let mut m = machine();
    let mut ex = ExclusiveState::new();
    assert_eq!(donated_core(&ex), None);
    let control = run_exclusive(&mut ex, &mut m, 5, 0x7000, 9);
    assert!(is_donated(&ex, 5));
    assert!(!is_donated(&ex, 4));
    assert!(!is_donated(&ex, 64));
    assert_eq!(donated_core(&ex), Some(5));
    leave_exclusive(&mut ex, &mut m, 5, control);
    assert!(!is_donated(&ex, 5));
    assert_eq!(m.pool.free_page_list, vec![control]);
    assert_eq!(ex.vmsa_phys[5], 0);
}

#[test]
fn commands_come_first() {
    let mut m = machine();
    let mut ex = ExclusiveState::new();
    let mut gpu = GpuState::new();
    let control = run_exclusive(&mut ex, &mut m, 5, 0x7000, 9);
    assert_eq!(exclusive_step(&ex, &mut m, &gpu, 5, control), ExclusiveAction::Work);
    register_engine_page(&mut gpu, 5, 0x8000, 0x9000);
    assert_eq!(exclusive_step(&ex, &mut m, &gpu, 5, control), ExclusiveAction::PollEngine);
    m.write(control, 0, LOOP_EXIT);
    assert_eq!(exclusive_step(&ex, &mut m, &gpu, 5, control), ExclusiveAction::Exit);
    assert_eq!(m.read(control, 0), LOOP_CLEAR);
    assert_eq!(handle_command(LOOP_SLEEP), ExclusiveAction::Sleep);
    assert_eq!(handle_command(LOOP_WAKEUP), ExclusiveAction::Continue);
    assert_eq!(handle_command(LOOP_YIELD), ExclusiveAction::Continue);
    free_engine_slot(&mut gpu, 5);
    assert!(engine_slot_owes_stop(&gpu, 5));
    assert_eq!(exclusive_step(&ex, &mut m, &gpu, 5, control), ExclusiveAction::PollEngine);
}

#[test]
fn halted_cores_go_on_after_a_wakeup_only() {
    let mut m = machine();
    let mut ex = ExclusiveState::new();
    let control = run_exclusive(&mut ex, &mut m, 5, 0x7000, 9);
    assert_eq!(set_next(0, 0, 3), Some(3));
    assert_eq!(set_next(1, 0, 3), None);

    let mut params = request(5, 0, 0, 0);
    assert_eq!(run_wakeup(&ex, &mut m, &mut params), SchedStep::Done);
    assert_eq!(params.rcx as i64, -3);
    let mut params = request(5, 0, 0, 0);
    assert_eq!(run_sleep(&ex, &mut m, &mut params), SchedStep::Done);
    assert_eq!(params.rcx, 0);
    // A command that was not taken yet is not overwritten.
    let mut params = request(5, 0, 0, 0);
    assert_eq!(run_sleep(&ex, &mut m, &mut params), SchedStep::Retry);
    assert_eq!(params, request(5, 0, 0, 0));
    assert_eq!(take_command(&mut m, control), LOOP_SLEEP);
    sleep_begin(&mut m, control);
    let mut params = request(5, 0, 0, 0);
    assert_eq!(run_sleep(&ex, &mut m, &mut params), SchedStep::Done);
    assert_eq!(params.rcx as i64, -3);
    assert!(!sleep_is_over(&mut m, control));

    let mut params = request(5, 0, 0, 0);
    assert_eq!(
        run_wakeup(&ex, &mut m, &mut params),
        SchedStep::Run { vmsa: 0x7000, features: 9, cpu: 5 }
    );
    assert_eq!(params.rcx, 0);
    assert_eq!(wakeup(&ex, &mut m, 5), WakeStep::Retry);
    assert!(sleep_is_over(&mut m, control));
    sleep_end(&mut m, control);
    assert_eq!(wakeup(&ex, &mut m, 5), WakeStep::Refused);
    assert_eq!(wakeup(&ex, &mut m, 6), WakeStep::Refused);
}

#[test]
fn cores_are_asked_back() {
    let mut m = machine();
    let mut ex = ExclusiveState::new();
    for id in [64u64, u64::MAX] {
        let mut params = request(id, 0, 0, 0);
        assert_eq!(run_exit(&ex, &mut m, &mut params), SchedStep::Done);
        assert_eq!(params.rcx as i64, -2);
        let mut params = request(id, 0, 0, 0);
        assert_eq!(run_sleep(&ex, &mut m, &mut params), SchedStep::Done);
        assert_eq!(params.rcx as i64, -2);
        let mut params = request(id, 0, 0, 0);
        assert_eq!(run_wakeup(&ex, &mut m, &mut params), SchedStep::Done);
        assert_eq!(params.rcx as i64, -2);
    }
    let mut params = request(5, 0, 0, 0);
    assert_eq!(run_exit(&ex, &mut m, &mut params), SchedStep::Done);
    assert_eq!(params.rcx as i64, -3);
    let control = run_exclusive(&mut ex, &mut m, 5, 0x7000, 9);
    let mut params = request(5, 0, 0, 0);
    assert_eq!(run_exit(&ex, &mut m, &mut params), SchedStep::Done);
    assert_eq!(params.rcx, 0);
    assert_eq!(take_command(&mut m, control), LOOP_EXIT);
    sleep_begin(&mut m, control);
    let mut params = request(5, 0, 0, 0);
    assert_eq!(run_exit(&ex, &mut m, &mut params), SchedStep::Wake { id: 5 });
}

#[test]
fn new_engines_get_the_best_core() {
    let mut m = machine();
    let mut ex = ExclusiveState::new();
    let mut gpu = GpuState::new();
    assert_eq!(free_donated_core(&ex, &gpu), None);
    for core in [3usize, 5, 7] {
        run_exclusive(&mut ex, &mut m, core, 0x7000, 0);
    }
    assert_eq!(free_donated_core(&ex, &gpu), Some(3));
    gpu.service_pages[5] = 0xA000;
    gpu.service_pages[7] = 0xB000;
    assert_eq!(free_donated_core(&ex, &gpu), Some(5));
    gpu.engine_owes_stop[5] = true;
    assert_eq!(free_donated_core(&ex, &gpu), Some(7));
    register_engine_page(&mut gpu, 7, 0x8000, 0x9000);
    assert_eq!(free_donated_core(&ex, &gpu), Some(5));
    register_engine_page(&mut gpu, 5, 0x8000, 0x9000);
    assert_eq!(free_donated_core(&ex, &gpu), Some(3));
    register_engine_page(&mut gpu, 3, 0x8000, 0x9000);
    assert_eq!(free_donated_core(&ex, &gpu), None);
    // Engines are replaced in turn, those with a service first.
    assert_eq!(replacement_donated_core(&mut ex, &gpu), Some(5));
    assert_eq!(replacement_donated_core(&mut ex, &gpu), Some(7));
    assert_eq!(replacement_donated_core(&mut ex, &gpu), Some(5));
    gpu.service_pages = [0; 64];
    assert_eq!(replacement_donated_core(&mut ex, &gpu), Some(3));
    assert_eq!(replacement_donated_core(&mut ExclusiveState::new(), &gpu), None);
}

#[test]
fn own_registrations_come_before_shared_ones() {
    let mut m = machine();
    let mut gpu = GpuState::new();
    let ex = ExclusiveState::new();
    let mut params = request(0xA000, 0, 64, 0);
    assert_eq!(register_service(&mut gpu, &mut params), Ok(()));
    assert_eq!(params.rcx, 0);
    let mut params = request(0xB000, 0, 3, 0);
    assert_eq!(register_service(&mut gpu, &mut params), Ok(()));
    assert_eq!(service_page_for(&gpu, 3), 0xB000);
    assert_eq!(service_page_for(&gpu, 4), 0xA000);
    assert!(service_registered(&gpu, 63));
    assert!(!service_registered(&gpu, 64));

    let mut params = request(0xC000, 0xD000, 64, 0);
    assert_eq!(register_engine(&mut gpu, &ex, &mut params, 9), Ok(()));
    assert_eq!(params.rcx, 0);
    assert!(engine_registered(&gpu, 9));
    assert!(!engine_registered(&gpu, 8));
    assert_eq!(run(&gpu, 9), Some(9));
    assert_eq!(run(&gpu, 8), None);
    let mut ex = ex;
    run_exclusive(&mut ex, &mut m, 8, 0x7000, 0);
    let mut params = request(0xC000, 0xD000, 8, 0);
    assert_eq!(register_engine(&mut gpu, &ex, &mut params, 9), Ok(()));
    assert_eq!(params.rcx, 1);
    assert_eq!(gpu.engine_page_table[8], 0xD000);
    assert!(!gpu.engine_is_trustlet[8]);
}

#[test]
fn windows_are_copied_when_registered() {
    let mut m = machine();
    let mut gpu = GpuState::new();
    for (list, npages) in [(0u64, 1u64), (0x30_0000, 0), (0x30_0000, 513)] {
        let mut params = request(list, npages, 64, 0);
        assert_eq!(register_window(&mut gpu, &mut m, &mut params), Ok(()));
        assert_eq!(params.rcx, REFUSED);
    }
    m.write(0x30_0000, 0, 0x31_0000);
    m.write(0x30_0000, 1, 0x32_0000);
    let mut params = request(0x30_0000, 2, 64, 0);
    assert_eq!(register_window(&mut gpu, &mut m, &mut params), Ok(()));
    assert_eq!(params.rcx, 0);
    let (copy, npages) = window_for(&gpu, 5);
    assert_eq!(npages, 2);
    assert_ne!(copy, 0x30_0000);
    m.write(0x30_0000, 1, 0);
    assert_eq!(m.read(copy, 1), 0x32_0000);
    let mut params = request(0x30_0000, 1, 5, 0);
    assert_eq!(register_window(&mut gpu, &mut m, &mut params), Ok(()));
    assert_ne!(window_for(&gpu, 5).0, copy);
    assert_eq!(window_for(&gpu, 6), (copy, 2));
}

#[test]
fn heaps_grow_at_their_end_only() {
    let mut m = machine();
    let mut gpu = GpuState::new();
    for i in 0..4u64 {
        m.write(0x30_0000, i, 0x31_0000 + i * 0x1000);
    }
    let mut params = request(0x30_0000, 2, 5, 1);
    assert_eq!(register_heap(&mut gpu, &mut m, &mut params), Ok(()));
    assert_eq!(params.rcx, REFUSED);
    let mut params = request(0x30_0000, 2, 5, 0);
    assert_eq!(register_heap(&mut gpu, &mut m, &mut params), Ok(()));
    assert_eq!(params.rcx, 0);
    let mut params = request(0x30_0000, 4, 5, 2);
    assert_eq!(register_heap(&mut gpu, &mut m, &mut params), Ok(()));
    assert_eq!(params.rcx, 0);
    let (dir, npages) = heap_for(&gpu, 5);
    assert_eq!(npages, 6);
    assert_eq!(
        heap_frames(&m, dir, 0, 6),
        vec![0x31_0000, 0x31_1000, 0x31_0000, 0x31_1000, 0x31_2000, 0x31_3000]
    );
    assert_eq!(heap_for(&gpu, 6), (0, 0));
    for params in [request(0, 1, 5, 6), request(1, 0, 5, 6), request(1, 513, 5, 6)] {
        let mut params = params;
        assert_eq!(register_heap(&mut gpu, &mut m, &mut params), Ok(()));
        assert_eq!(params.rcx, REFUSED);
    }

    // A process gets the heap in its own address space.
    let mut t = ProcessPageTableRef::external(0);
    t.init_vmpl1(&mut m);
    assert_eq!(map_heap_range(&mut m, t.process_page_table, dir, 0, 6, 1), 1);
    assert_eq!(t.get_page(&m, GPU_HEAP_VADDR), 0x31_0000);
    assert_eq!(t.get_page(&m, GPU_HEAP_VADDR + 0x1000), 0);
    assert_eq!(map_heap_for_trustlet(&mut gpu, &mut m, 5, t.process_page_table, 6), 6 * 4096);
    assert_eq!(t.get_page(&m, GPU_HEAP_VADDR + 5 * 0x1000), 0x31_3000);
    assert_eq!(gpu.heap_mapped[5], 6);
    assert_eq!(map_heap_for_trustlet(&mut gpu, &mut m, 5, t.process_page_table, 5), 0);
    assert_eq!(gpu.heap_mapped[5], 0);
    assert_eq!(map_heap_for_trustlet(&mut gpu, &mut m, 6, t.process_page_table, 5), 0);
}

#[test]
fn calls_have_their_sizes() {
    let mut d: [u8; 4088] = [0; 4088];
    let fixed: [(u32, (usize, usize)); 22] = [
        (1, (0, 8)),
        (2, (8, 16)),
        (3, (8, 4)),
        (4, (0, 4)),
        (6, (4, 4088)),
        (7, (0, 24)),
        (8, (20, 4)),
        (9, (16, 4)),
        (10, (28, 8)),
        (11, (4, 16)),
        (12, (8, 4)),
        (13, (8, 4)),
        (14, (12, 4)),
        (15, (8, 16)),
        (17, (16, 8)),
        (18, (16, 4)),
        (20, (8, 4)),
        (501, (4088, 4088)),
        (600, (0, 16)),
        (604, (144, 4)),
        (702, (8, 8)),
        (703, (28, 4)),
    ];
    for (id, sizes) in fixed {
        assert_eq!(forward_spec(&IDS, id, &d), Some(sizes));
    }
    assert_eq!(forward_spec(&IDS, 999, &d), None);
    d[48] = 100;
    assert_eq!(forward_spec(&IDS, 5, &d), Some((156, 4)));
    d[51] = 1;
    assert_eq!(forward_spec(&IDS, 5, &d), Some((4088, 4)));
    d[16] = 10;
    d[24] = 1;
    assert_eq!(forward_spec(&IDS, 121, &d), Some((42, 4)));
    d[24] = 2;
    assert_eq!(forward_spec(&IDS, 121, &d), Some((32, 42)));
    d[23] = 1;
    assert_eq!(forward_spec(&IDS, 121, &d), Some((32, 4088)));
}

#[test]
fn calls_are_relayed() {
    let mut m = machine();
    let mut gpu = GpuState::new();
    let mut args = page(1, 2);
    let mut service = page(0, 0);
    assert_eq!(
        poll_engine(&mut gpu, &IDS, 5, LOOP_EXIT, &mut args, &mut service),
        PollAction::Return(LOOP_EXIT)
    );
    assert_eq!(poll_engine(&mut gpu, &IDS, 5, 0, &mut args, &mut service), PollAction::Return(0));
    register_engine_page(&mut gpu, 5, 0x8000, 0x9000);
    args.lock = 0;
    assert_eq!(poll_engine(&mut gpu, &IDS, 5, 0, &mut args, &mut service), PollAction::Idle);
    // No service: the answer is an error.
    args.lock = 1;
    put(&mut args, 0, &[9; 20]);
    assert_eq!(poll_engine(&mut gpu, &IDS, 5, 0, &mut args, &mut service), PollAction::Answered);
    assert_eq!(args.lock, 0);
    assert_eq!(word(&args, 0), CUDA_ERROR_SYSTEM_NOT_READY as u64);
    assert_eq!(word(&args, 8), 0);
    assert_eq!(args.data[16], 9);
    // With a service the request is handed over, and its answer back.
    gpu.service_page = 0xA000;
    args.lock = 1;
    put(&mut args, 0, &[1, 2, 3, 4, 5, 6, 7, 8, 9]);
    assert_eq!(
        poll_engine(&mut gpu, &IDS, 5, 0, &mut args, &mut service),
        PollAction::Forward { resp_len: 16 }
    );
    assert_eq!((service.lock, service.id), (1, 2));
    assert_eq!(service.data[..9], [1, 2, 3, 4, 5, 6, 7, 8, 0]);
    put(&mut service, 0, &[7; 20]);
    complete_call(&mut gpu, &mut m, 5, &mut args, &service, 16, 0);
    assert_eq!(args.lock, 0);
    assert_eq!(args.data[15], 7);
    assert_eq!(args.data[16], 9);
    // An unknown call is answered, a large copy is carried out elsewhere.
    args = page(1, 999);
    assert_eq!(poll_engine(&mut gpu, &IDS, 5, 0, &mut args, &mut service), PollAction::Answered);
    assert_eq!(args.lock, 0);
    args = page(1, 700);
    assert_eq!(poll_engine(&mut gpu, &IDS, 5, 0, &mut args, &mut service), PollAction::Bulk);
    answer_error(&mut args, 0x0102_0304);
    assert_eq!(args.data[..5], [4, 3, 2, 1, 0]);
    assert_eq!(args.lock, 0);
}

#[test]
fn sessions_end() {
    let mut gpu = GpuState::new();
    register_engine_page(&mut gpu, 5, 0x8000, 0x9000);
    let mut args = page(1, 500);
    let mut service = page(0, 0);
    assert_eq!(poll_engine(&mut gpu, &IDS, 5, 0, &mut args, &mut service), PollAction::Return(0));
    assert_eq!(args.lock, 0);
    assert!(!engine_registered(&gpu, 5));
    register_engine_page(&mut gpu, 5, 0x8000, 0x9000);
    gpu.service_page = 0xA000;
    args.lock = 1;
    assert_eq!(poll_engine(&mut gpu, &IDS, 5, 0, &mut args, &mut service), PollAction::Stop);
    assert_eq!((service.lock, service.id), (1, 500));
    assert!(engine_registered(&gpu, 5));
    end_session(&mut gpu, 5, &mut args);
    assert!(!engine_registered(&gpu, 5));
    assert_eq!(args.lock, 0);
    forward_call(&mut service, 77);
    assert_eq!((service.lock, service.id), (1, 77));
}

#[test]
fn a_grown_heap_is_mapped_before_the_answer() {
    let mut m = machine();
    let mut gpu = GpuState::new();
    for i in 0..3u64 {
        m.write(0x30_0000, i, 0x31_0000 + i * 0x1000);
    }
    let mut params = request(0x30_0000, 3, 5, 0);
    assert_eq!(register_heap(&mut gpu, &mut m, &mut params), Ok(()));
    let mut t = ProcessPageTableRef::external(0);
    t.init_vmpl1(&mut m);
    register_engine_page(&mut gpu, 5, 0x8000, t.process_page_table);
    gpu.engine_is_trustlet[5] = true;
    let mut args = page(1, 702);
    let mut service = page(0, 702);
    put(&mut service, 0, &(3u64 * 4096).to_le_bytes());
    complete_call(&mut gpu, &mut m, 5, &mut args, &service, 8, 2);
    assert_eq!(word(&args, 0), 2 * 4096);
    assert_eq!(t.get_page(&m, GPU_HEAP_VADDR + 0x1000), 0x31_1000);
    complete_call(&mut gpu, &mut m, 5, &mut args, &service, 8, 2);
    assert_eq!(word(&args, 0), 3 * 4096);
    assert_eq!(t.get_page(&m, GPU_HEAP_VADDR + 0x2000), 0x31_2000);
}

fn bulk_args(dst: u64, src: u64, count: u64, kind: u32) -> CommunicationPage {
    let mut args = page(1, 700);
    put(&mut args, 0, &dst.to_le_bytes());
    put(&mut args, 8, &src.to_le_bytes());
    put(&mut args, 16, &count.to_le_bytes());
    put(&mut args, 24, &kind.to_le_bytes());
    args
}

#[test]
fn large_copies_to_the_device() {
    let mut m = machine();
    let mut gpu = GpuState::new();
    let mut t = ProcessPageTableRef::external(0);
    t.init_vmpl1(&mut m);
    t.map_4k_page(&mut m, 0x5000, 0x30_0000, 0x67);
    t.map_4k_page(&mut m, 0x6000, 0x30_5000, 0x67);
    m.write_byte(0x30_0FFF, 11);
    m.write_byte(0x30_5000, 22);
    let args = bulk_args(0x9000, 0x5FFF, 4100, 1);
    assert_eq!(bulk_memcpy(&gpu, 5, &args), Err(CUDA_ERROR_SYSTEM_NOT_READY));
    gpu.service_page = 0xA000;
    assert_eq!(bulk_memcpy(&gpu, 5, &args), Err(CUDA_ERROR_INVALID_VALUE));
    register_engine_page(&mut gpu, 5, 0x8000, t.process_page_table);
    assert_eq!(
        bulk_memcpy(&gpu, 5, &bulk_args(1, 2, 3, 4)),
        Err(CUDA_ERROR_INVALID_VALUE)
    );
    let mut copy = bulk_memcpy(&gpu, 5, &args).unwrap();
    let mut service = page(0, 0);
    assert_eq!(copy.send(&m, &mut service), BulkStep::Forward);
    assert_eq!((service.lock, service.id), (1, 121));
    assert_eq!(word(&service, 0), 0x9000);
    assert_eq!(word(&service, 8), 0x5FFF);
    assert_eq!(word(&service, 16), 4056);
    assert_eq!(word(&service, 24) as u32, 1);
    assert_eq!(service.data[32], 11);
    assert_eq!(service.data[33], 22);
    put(&mut service, 0, &0u32.to_le_bytes());
    assert_eq!(copy.receive(&mut m, &service), None);
    assert_eq!(copy.done, 4056);
    // The rest lies behind the memory of the client.
    assert_eq!(copy.send(&m, &mut service), BulkStep::Finish(CUDA_ERROR_INVALID_VALUE));
    t.map_4k_page(&mut m, 0x7000, 0x30_6000, 0x67);
    assert_eq!(copy.send(&m, &mut service), BulkStep::Forward);
    assert_eq!(word(&service, 0), 0x9000 + 4056);
    assert_eq!(word(&service, 16), 44);
    put(&mut service, 0, &5u32.to_le_bytes());
    assert_eq!(copy.receive(&mut m, &service), Some(5));
    put(&mut service, 0, &0u32.to_le_bytes());
    assert_eq!(copy.receive(&mut m, &service), None);
    assert_eq!(copy.send(&m, &mut service), BulkStep::Finish(0));
}

#[test]
fn large_copies_from_the_device() {
    let mut m = machine();
    let mut gpu = GpuState::new();
    let mut t = ProcessPageTableRef::external(0);
    t.init_vmpl1(&mut m);
    t.map_4k_page(&mut m, 0x5000, 0x30_0000, 0x67);
    gpu.service_page = 0xA000;
    register_engine_page(&mut gpu, 5, 0x8000, t.process_page_table);
    let mut copy = bulk_memcpy(&gpu, 5, &bulk_args(0x5FFE, 0x9000, 2, 2)).unwrap();
    let mut service = page(0, 0);
    assert_eq!(copy.send(&m, &mut service), BulkStep::Forward);
    assert_eq!(word(&service, 0), 0x5FFE);
    assert_eq!(word(&service, 8), 0x9000);
    put(&mut service, 0, &0u32.to_le_bytes());
    put(&mut service, 32, &[7, 8, 9]);
    assert_eq!(copy.receive(&mut m, &service), None);
    assert_eq!(m.read_byte(0x30_0FFE), 7);
    assert_eq!(m.read_byte(0x30_0FFF), 8);
    assert_eq!(copy.send(&m, &mut service), BulkStep::Finish(0));
    let mut gone = bulk_memcpy(&gpu, 5, &bulk_args(0x5FFF, 0x9000, 2, 2)).unwrap();
    put(&mut service, 0, &0u32.to_le_bytes());
    assert_eq!(gone.receive(&mut m, &service), Some(CUDA_ERROR_INVALID_VALUE));
}

#[test]
fn probes_and_refusals_are_no_errors() {
    let mut m = machine();
    let mut params = request(1, 2, 3, 4);
    assert_eq!(handle_api_call(&mut m, &params), Ok(()));
    assert_eq!(reject(&mut params, -1), Ok(()));
}

#[test]
fn a_round_of_replacements_gives_each_core_once() {
    let mut m = machine();
    let mut ex = ExclusiveState::new();
    let mut gpu = GpuState::new();
    for core in [3usize, 5, 7] {
        run_exclusive(&mut ex, &mut m, core, 0x7000, 0);
        gpu.service_pages[core] = 0xA000;
        register_engine_page(&mut gpu, core, 0x8000, 0x9000);
    }
    let mut round = Vec::new();
    for _ in 0..3 {
        round.push(replacement_donated_core(&mut ex, &gpu).unwrap());
    }
    let first = round[0];
    round.sort();
    assert_eq!(round, vec![3, 5, 7]);
    assert_eq!(replacement_donated_core(&mut ex, &gpu), Some(first));
}

#[test]
fn a_heap_range_that_ends_before_it_starts_is_empty() {
    let mut m = machine();
    let mut gpu = GpuState::new();
    for i in 0..4u64 {
        m.write(0x30_0000, i, 0x31_0000 + i * 0x1000);
    }
    let mut params = request(0x30_0000, 4, 5, 0);
    assert_eq!(register_heap(&mut gpu, &mut m, &mut params), Ok(()));
    let (dir, _) = heap_for(&gpu, 5);
    assert_eq!(heap_frames(&m, dir, 3, 1), Vec::<u64>::new());
    let mut t = ProcessPageTableRef::external(0);
    t.init_vmpl1(&mut m);
    let before = m.words.clone();
    assert_eq!(map_heap_range(&mut m, t.process_page_table, dir, 3, 1, 4), 0);
    assert_eq!(m.words, before);
}

#[test]
fn a_named_core_is_registered_from_any_core() {
    let mut gpu = GpuState::new();
    let ex = ExclusiveState::new();
    let mut params = request(0xC000, 0xD000, 8, 0);
    assert_eq!(register_engine(&mut gpu, &ex, &mut params, 200), Ok(()));
    assert_eq!(params.rcx, 0);
    assert_eq!(gpu.engine_pages[8], 0xC000);
}

#[test]
fn large_copies_move_every_byte_once() {
    let mut m = machine();
    let mut gpu = GpuState::new();
    let mut t = ProcessPageTableRef::external(0);
    t.init_vmpl1(&mut m);
    let frames = [0x30_0000u64, 0x30_5000, 0x30_3000, 0x30_1000];
    for i in 0..4usize {
        t.map_4k_page(&mut m, 0x5000 + 0x1000 * i as u64, frames[i], 0x67);
    }
    let count = 10_000u64;
    let start = 0x5123u64;
    let place = |i: u64| {
        let va = start + i;
        frames[(va / 4096 - 5) as usize] + va % 4096
    };
    for i in 0..count {
        m.write_byte(place(i), (i % 251) as u8);
    }
    gpu.service_page = 0xA000;
    register_engine_page(&mut gpu, 5, 0x8000, t.process_page_table);
    let mut copy = bulk_memcpy(&gpu, 5, &bulk_args(0x9000, start, count, 1)).unwrap();
    let mut service = page(0, 0);
    let mut sent = Vec::new();
    while copy.send(&m, &mut service) == BulkStep::Forward {
        assert_eq!(word(&service, 0), 0x9000 + sent.len() as u64);
        let n = word(&service, 16) as usize;
        sent.extend_from_slice(&service.data[32..32 + n]);
        put(&mut service, 0, &0u32.to_le_bytes());
        assert_eq!(copy.receive(&mut m, &service), None);
    }
    assert_eq!(copy.done, count);
    let expected: Vec<u8> = (0..count).map(|i| (i % 251) as u8).collect();
    assert_eq!(sent, expected);

    let mut back = bulk_memcpy(&gpu, 5, &bulk_args(start, 0x9000, count, 2)).unwrap();
    let mut answered = 0u64;
    while back.send(&m, &mut service) == BulkStep::Forward {
        let n = word(&service, 16);
        for i in 0..n {
            service.data[32 + i as usize] = ((answered + i) % 241) as u8;
        }
        answered += n;
        put(&mut service, 0, &0u32.to_le_bytes());
        assert_eq!(back.receive(&mut m, &service), None);
    }
    assert_eq!(answered, count);
    for i in 0..count {
        assert_eq!(m.read_byte(place(i)), (i % 241) as u8);
    }
    assert_eq!(m.read_byte(0x30_0122), 0);
    assert_eq!(m.read_byte(place(count)), 0);
}

#[test]
fn services_learn_that_a_client_is_gone() {
    let mut gpu = GpuState::new();
    gpu.service_pages[5] = 0xA000;
    // Nobody is registered: nothing is owed.
    free_engine_slot(&mut gpu, 5);
    assert!(!engine_slot_owes_stop(&gpu, 5));
    free_engine_slot(&mut gpu, 64);
    register_engine_page(&mut gpu, 5, 0x8000, 0x9000);
    free_engine_slot(&mut gpu, 5);
    assert!(!engine_registered(&gpu, 5));
    assert!(engine_slot_owes_stop(&gpu, 5));
    assert!(!engine_slot_owes_stop(&gpu, 4));
    // The next client makes a call; the service hears of the stop first.
    register_engine_page(&mut gpu, 5, 0x8800, 0x9000);
    let mut args = page(1, 2);
    put(&mut args, 0, &[3; 8]);
    let mut service = page(0, 0);
    assert_eq!(
        poll_engine(&mut gpu, &IDS, 5, LOOP_EXIT, &mut args, &mut service),
        PollAction::Return(LOOP_EXIT)
    );
    assert!(engine_slot_owes_stop(&gpu, 5));
    assert_eq!(poll_engine(&mut gpu, &IDS, 5, 0, &mut args, &mut service), PollAction::OwedStop);
    assert_eq!((service.lock, service.id), (1, 500));
    assert_eq!((args.lock, args.id, args.data[0]), (1, 2, 3));
    assert!(engine_registered(&gpu, 5));
    assert!(!engine_slot_owes_stop(&gpu, 5));
    service.lock = 0;
    assert_eq!(
        poll_engine(&mut gpu, &IDS, 5, 0, &mut args, &mut service),
        PollAction::Forward { resp_len: 16 }
    );
    assert_eq!(service.id, 2);
}

#[test]
fn what_is_owed_to_no_service_is_settled() {
    let mut gpu = GpuState::new();
    register_engine_page(&mut gpu, 5, 0x8000, 0x9000);
    free_engine_slot(&mut gpu, 5);
    let mut args = page(0, 0);
    let mut service = page(0, 0);
    assert_eq!(poll_engine(&mut gpu, &IDS, 5, 0, &mut args, &mut service), PollAction::Return(0));
    assert!(!engine_slot_owes_stop(&gpu, 5));
    assert_eq!(service.lock, 0);
}

#[test]
fn a_dead_client_makes_its_core_second_choice() {
    let mut m = machine();
    let mut ex = ExclusiveState::new();
    let mut gpu = GpuState::new();
    for core in [3usize, 5] {
        run_exclusive(&mut ex, &mut m, core, 0x7000, 0);
        gpu.service_pages[core] = 0xA000;
    }
    register_engine_page(&mut gpu, 3, 0x8000, 0x9000);
    free_engine_slot(&mut gpu, 3);
    assert_eq!(free_donated_core(&ex, &gpu), Some(5));
    let mut args = page(0, 0);
    let mut service = page(0, 0);
    assert_eq!(poll_engine(&mut gpu, &IDS, 3, 0, &mut args, &mut service), PollAction::OwedStop);
    assert_eq!(free_donated_core(&ex, &gpu), Some(3));
}

#[test]
fn registered_heaps_are_those_of_the_guest() {
    let mut m = machine();
    let mut gpu = GpuState::new();
    for i in 0..512u64 {
        m.write(0x30_0000, i, 0x100_0000 + i * 0x1000);
        m.write(0x30_1000, i, 0x200_0000 + i * 0x1000);
    }
    let mut params = request(0x30_0000, 510, 5, 0);
    assert_eq!(register_heap(&mut gpu, &mut m, &mut params), Ok(()));
    let mut params = request(0x30_1000, 10, 5, 510);
    assert_eq!(register_heap(&mut gpu, &mut m, &mut params), Ok(()));
    assert_eq!(params.rcx, 0);
    // What the guest writes later is not seen.
    m.write(0x30_1000, 3, 0xBAD_0000);
    let (dir, npages) = heap_for(&gpu, 5);
    assert_eq!(npages, 520);
    let mut t = ProcessPageTableRef::external(0);
    t.init_vmpl1(&mut m);
    assert_eq!(map_heap_range(&mut m, t.process_page_table, dir, 0, 520, 520), 520);
    for i in 0..520u64 {
        let page = if i < 510 { 0x100_0000 + i * 0x1000 } else { 0x200_0000 + (i - 510) * 0x1000 };
        assert_eq!(t.get_page(&m, GPU_HEAP_VADDR + i * 0x1000), page);
    }
    assert_eq!(t.get_page(&m, GPU_HEAP_VADDR + 520 * 0x1000), 0);
}
