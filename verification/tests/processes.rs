//! Processes: how they are made, run and served.
use wallet::attestation::process::hash_process;
use wallet::cpu::vmsa::Vmsa;
use wallet::crypto::sha512_single;
use wallet::gpu::direct::GpuState;
use wallet::interop::cpuid::CpuidResult;
use wallet::memory::machine::{Machine, MachineOp};
use wallet::model_store::store::StoreEntry;
use wallet::process_manager::allocation::AllocationRange;
use wallet::process_manager::memory_channels::{MemoryChannel, INPUT_VADDR, OUTPUT_VADDR};
use wallet::process_manager::monitor::Monitor;
use wallet::process_manager::process::{
    ProcessBaseContext, ProcessContext, ProcessID, TrustedProcess, TrustedProcessStore,
    TrustedProcessType,
};
use wallet::process_manager::process_memory::allocate_page;
use wallet::process_manager::process_paging::mapping::{
    TP_LIBOS_START_VADDR, TP_MANIFEST_START_VADDR,
};
use wallet::process_manager::process_paging::walk::{write_mounted, ProcessPageTableRef};
use wallet::process_manager::STATUS_BAD_ARGS;
use wallet::process_runtime::channels::create_channel;
use wallet::process_runtime::early_invoke::early_invoke;
use wallet::process_runtime::invoke::{
    invoke_end, invoke_enter, invoke_step, invoke_trustlet, InvokeStep, TrustletInvocationType,
};
use wallet::process_runtime::process::call::{
    nested_abort, nested_end, nested_enter, nested_step, run_nested, CallStack, NestedCall,
    ProcessRuntimeCall,
};
use wallet::process_runtime::process::gpu::{window_frames, ProcessRuntimeGpu, GPU_WINDOW_VADDR};
use wallet::process_runtime::process::inference::{prompt_get, response_store, INFERENCE_VADDR};
use wallet::process_runtime::process::misc::ProcessRuntimeMisc;
use wallet::process_runtime::process::mmap::MmapManager;
use wallet::process_runtime::runtime::{Dispatch, ProcessCallType, ProcessRuntime};
use wallet::process_runtime::{
    log_overbudget_invokes, PALContext, TrustletReturnType, RETURN_TO_GUEST, RETURN_TO_PROCESS,
};
use wallet::RequestParams;

const C_BIT: u64 = 0x8_0000_0000_0000;

const GUEST_ROOT: u64 = 0x2000;

const WINDOW: u64 = 0x300_0000_0000;

const SECOND: u64 = 2_400_008_000;

fn machine() -> Machine {
    let mut m = Machine::new(vec![0u64; 0x8_0000], C_BIT, 0x1000);
    m.pool.initilized = true;
    m.pool.page_base = 0x10_0000;
    m.pool.page_limit = 0x30_0000;
    m
}

fn trustlet() -> TrustedProcess {
    let mut p = TrustedProcess::empty();
    p.process_type = TrustedProcessType::Trustlet;
    p
}

/// A monitor with three processes, and the root table of the first.
fn monitor() -> (Monitor, u64) {
    let mut mon = Monitor::new(machine());
    mon.processes.init(4);
    for _ in 0..3 {
        assert!(mon.processes.insert(trustlet()) >= 0);
    }
    mon.models.init(2);
    mon.loras.init(2);
    mon.engines.init(2);
    let mut t = ProcessPageTableRef::external(0);
    t.init_vmpl1(&mut mon.machine);
    (mon, t.process_page_table)
}

fn context(cr3: u64, rbx: u64, rcx: u64, rdx: u64) -> PALContext {
    PALContext::new(ProcessID(0), Vmsa { cr3, rbx, rcx, rdx, ..Vmsa::default() }, false)
}

fn serve(mon: &mut Monitor, ctx: &mut PALContext, call: ProcessCallType) -> Dispatch {
    ctx.handle_process_request(mon, Some(call), &mut Vec::new())
}

#[test]
fn processes_take_the_first_free_place() {
    let mut m = machine();
    let mut store = TrustedProcessStore::new();
    assert_eq!(store.insert(trustlet()), -1);
    store.init(2);
    assert_eq!(store.len(), 2);
    assert_eq!(store.insert(trustlet()), 0);
    assert_eq!(store.insert(trustlet()), 1);
    assert_eq!(store.peek(ProcessID(1)).id, 1);
    assert_eq!(store.insert(trustlet()), -1);
    store.delete(&mut m, ProcessID(0), &Vec::new(), false);
    assert_eq!(store.peek(ProcessID(0)).process_type, TrustedProcessType::Undefined);
    store.get(ProcessID(1)).last_pcall = 5;
    assert_eq!(store.peek(ProcessID(1)).last_pcall, 5);
    assert_eq!(store.insert(trustlet()), 0);
    hash_process(store.get(ProcessID(0)));
    assert_eq!(store.peek(ProcessID(0)).id, 0);
}

#[test]
fn processes_are_made_from_others() {
    let mut zygote = TrustedProcess::empty();
    zygote.process_type = TrustedProcessType::Zygote;
    zygote.base.entry_point = 0x40_0000;
    zygote.measurements.input_data[0] = 9;
    zygote.dead = true;
    let mut context = ProcessContext::default();
    context.vmsa = 0x7000;
    let p = TrustedProcess::dublicate(&zygote, ProcessID(3), context);
    assert_eq!(p.process_type, TrustedProcessType::Trustlet);
    assert_eq!(p.parent_id, 3);
    assert_eq!(p.base.entry_point, 0x40_0000);
    assert_eq!(p.measurements.input_data[0], 9);
    assert_eq!(p.context.vmsa, 0x7000);
    assert!(!p.dead);
    assert_eq!(p.gpu_core, -1);
}

#[test]
fn teardown_leaves_channels_to_the_other_end() {
    let mut m = machine();
    let mut t = ProcessPageTableRef::external(0);
    t.init_vmpl1(&mut m);
    let mut pages: Vec<u64> = Vec::new();
    for slot in [4u64, 5, 6] {
        let page = allocate_page(&mut m);
        t.map_4k_page(&mut m, slot * 0x80_0000_0000, page, 0x67);
        pages.push(page);
    }
    let mut p = trustlet();
    p.context.page_table_ref = t;
    p.context.vmsa = 0x9000;
    p.context.channel.input_borrowed = true;
    p.context.channel.next = Some(ProcessID(1));
    p.teardown(&mut m, &Vec::new(), true);
    assert!(m.pool.free_page_list.contains(&pages[0]));
    assert!(!m.pool.free_page_list.contains(&pages[1]));
    assert!(!m.pool.free_page_list.contains(&pages[2]));
    assert_eq!(m.pool.free_page_list.last(), Some(&0x9000));
    let before = m.pool.free_page_list.len();
    TrustedProcess::empty().teardown(&mut m, &Vec::new(), true);
    assert_eq!(m.pool.free_page_list.len(), before);
}

#[test]
fn programs_need_a_file_and_files_fill_pages() {
    let mut m = machine();
    let own = ProcessPageTableRef::external(m.cr3);
    own.map_4k_page(&mut m, WINDOW, 0x31_0000, 0x67);
    own.map_4k_page(&mut m, WINDOW + 0x1000, 0x31_1000, 0x67);
    let mut base = ProcessBaseContext::default();
    assert!(!base.init(&mut m, WINDOW, 100));
    assert!(!base.init_with_data(&mut m, WINDOW, 100, AllocationRange(0, 0)));
    base.page_table_ref.init_vmpl1(&mut m);
    write_mounted(&mut m, WINDOW, &b"manifest".to_vec());
    base.add_manifest(&mut m, WINDOW, 8, AllocationRange(0, 0));
    base.add_libos(&mut m, WINDOW, 4096, AllocationRange(0, 0));
    let t = base.page_table_ref;
    assert_eq!(m.read_byte(t.get_page(&m, TP_MANIFEST_START_VADDR)), b'm');
    assert_eq!(t.get_page(&m, TP_MANIFEST_START_VADDR + 0x1000), 0);
    assert_ne!(t.get_page(&m, TP_LIBOS_START_VADDR + 0x1000), 0);
    assert_eq!(t.get_page(&m, TP_LIBOS_START_VADDR + 0x2000), 0);
}

#[test]
fn the_library_os_comes_straight_from_the_guest() {
    let mut m = machine();
    let guest = ProcessPageTableRef::external(GUEST_ROOT);
    guest.map_4k_page(&mut m, 0x5000, 0x31_0000, 0x67);
    for (i, b) in b"abc".iter().enumerate() {
        m.write_byte(0x31_0000 + i as u64, *b);
    }
    m.write_byte(0x31_0003, 99);
    let mut base = ProcessBaseContext::default();
    base.page_table_ref.init_vmpl1(&mut m);
    let digest = base.add_libos_from_guest(&mut m, 0x5000, 3, GUEST_ROOT);
    let mut h: Vec<u8> = vec![0; 64];
    sha512_single(&b"abc".to_vec(), &mut h);
    assert_eq!(digest.to_vec(), h);
    let page = base.page_table_ref.get_page(&m, TP_LIBOS_START_VADDR);
    assert_eq!(m.read(page, 0), 0x0063_6261);
}

#[test]
fn messages_are_printed_character_by_character() {
    let (mut mon, root) = monitor();
    let mut ctx = context(root, 0, 0, 0);
    for c in b"hi\0" {
        ctx.vmsa.rbx = *c as u64;
        assert_eq!(
            serve(&mut mon, &mut ctx, ProcessCallType::DebugPrint),
            Dispatch::Return(RETURN_TO_PROCESS)
        );
    }
    assert_eq!(ctx.printed.len(), 1);
    assert_eq!(ctx.printed[0].text[..3], *b"hi\0");
    assert!(!ctx.printed[0].partial);
    assert_eq!(ctx.string_pos, 0);
    for _ in 0..256 {
        ctx.vmsa.rbx = b'x' as u64;
        serve(&mut mon, &mut ctx, ProcessCallType::DebugPrint);
    }
    assert_eq!(ctx.printed.len(), 2);
    assert!(ctx.printed[1].partial);
    assert_eq!(ctx.printed[1].text[254], b'x');
    assert_eq!(ctx.printed[1].text[255], 0);
    // The process goes on behind each call.
    assert_eq!(ctx.vmsa.rip, 2 * 259);
}

#[test]
fn cpuid_is_answered() {
    let (mut mon, root) = monitor();
    let mut ctx = context(root, 0, 9, 0);
    ctx.vmsa.rax = 4;
    assert_eq!(
        ctx.handle_process_request(&mut mon, None, &mut Vec::new()),
        Dispatch::Cpuid { eax: 4, ecx: 9 }
    );
    assert_eq!(mon.processes.peek(ProcessID(0)).last_pcall, 4);
    assert!(mon.processes.peek(ProcessID(0)).in_pcall);
    ctx.vmsa.rax = 1;
    assert_eq!(
        ctx.handle_process_request(&mut mon, None, &mut Vec::new()),
        Dispatch::Cpuid { eax: 1, ecx: 0 }
    );
    ctx.pal_svsm_cpuid(Some(CpuidResult { eax: 1, ebx: 2, ecx: 3, edx: 4 }));
    assert_eq!(
        (ctx.vmsa.rax, ctx.vmsa.rbx, ctx.vmsa.rcx, ctx.vmsa.rdx),
        (1, 2, 0x800_0003, 4)
    );
    ctx.vmsa.rax = 7;
    ctx.pal_svsm_cpuid(None);
    assert_eq!((ctx.vmsa.rax, ctx.vmsa.rcx), (0, 0));
    ctx.vmsa.rax = 0x25;
    assert_eq!(
        ctx.handle_process_request(&mut mon, None, &mut Vec::new()),
        Dispatch::Return(RETURN_TO_GUEST)
    );
}

#[test]
fn small_calls() {
    let (mut mon, root) = monitor();
    let back = Dispatch::Return(RETURN_TO_PROCESS);
    let mut ctx = context(root, 0x1234, 0, 0);
    assert_eq!(serve(&mut mon, &mut ctx, ProcessCallType::SetTcb), back);
    assert_eq!(ctx.vmsa.gs_base, 0x1234);
    assert_eq!(serve(&mut mon, &mut ctx, ProcessCallType::Nop), back);
    assert_eq!(serve(&mut mon, &mut ctx, ProcessCallType::CallOutb), back);
    assert_eq!(serve(&mut mon, &mut ctx, ProcessCallType::CallOutbWithValue), back);
    assert_eq!(
        serve(&mut mon, &mut ctx, ProcessCallType::CallExit),
        Dispatch::Return(RETURN_TO_GUEST)
    );
    ctx.vmsa.rbx = 9;
    assert_eq!(serve(&mut mon, &mut ctx, ProcessCallType::TbrDebug), back);
    ctx.vmsa.rbx = 10;
    assert_eq!(serve(&mut mon, &mut ctx, ProcessCallType::TbrDebug), Dispatch::Halt);
}

#[test]
fn memory_is_shown() {
    let (mut mon, root) = monitor();
    let t = ProcessPageTableRef::external(root);
    t.map_4k_page(&mut mon.machine, 0x5000, 0x31_0000, 0x67);
    mon.machine.write(0x31_0000, 1, 0x0807_0605_0403_0201);
    let mut shown: Vec<u8> = Vec::new();
    let mut ctx = context(root, 0x5008, 8, 0);
    let call = Some(ProcessCallType::TbrDebugPrint);
    assert_eq!(
        ctx.handle_process_request(&mut mon, call, &mut shown),
        Dispatch::Return(RETURN_TO_PROCESS)
    );
    assert_eq!(shown, vec![1, 2, 3, 4, 5, 6, 7, 8]);
    ctx.vmsa.rcx = 7;
    assert_eq!(ctx.handle_process_request(&mut mon, call, &mut shown), Dispatch::Halt);
    ctx.vmsa.rcx = 4096;
    assert_eq!(ctx.handle_process_request(&mut mon, call, &mut shown), Dispatch::Halt);
    mon.machine.write_byte(0x31_0000, b'e');
    ctx.vmsa.rbx = 0x5000;
    assert_eq!(ctx.fail_message(&mon.machine), b"e".to_vec());
}

#[test]
fn memory_is_given_protected_and_taken() {
    let (mut mon, root) = monitor();
    let t = ProcessPageTableRef::external(root);
    let mut ctx = context(root, 0x5000, 0x2000, 0x3);
    assert_eq!(
        serve(&mut mon, &mut ctx, ProcessCallType::VirtAlloc),
        Dispatch::Return(RETURN_TO_PROCESS)
    );
    assert_eq!(ctx.vmsa.rcx, 0);
    let page = t.get_page(&mon.machine, 0x6000);
    assert_ne!(page, 0);
    let leaf = t.find_leaf(&mon.machine, 0x6000).unwrap();
    assert_eq!(leaf, page | C_BIT | 0x8000_0000_0000_0167);
    // A page that is in use is not given again.
    let mut ctx = context(root, 0x6000, 0x1000, 0x4);
    serve(&mut mon, &mut ctx, ProcessCallType::VirtAlloc);
    assert_eq!(ctx.vmsa.rcx, u64::MAX);
    assert_eq!(t.get_page(&mon.machine, 0x6000), page);
    for (rbx, rcx) in [(0x5001u64, 0x1000u64), (0x5000, 0x1001)] {
        let mut ctx = context(root, rbx, rcx, 0);
        serve(&mut mon, &mut ctx, ProcessCallType::VirtAlloc);
        assert_eq!(ctx.vmsa.rcx, u64::MAX);
        let mut ctx = context(root, rbx, rcx, 0);
        serve(&mut mon, &mut ctx, ProcessCallType::VirtFree);
        assert_eq!(ctx.vmsa.rcx, u64::MAX);
    }
    // Protection of the pages that the bytes lie in.
    let mut ctx = context(root, 0x5FFF, 2, 0x4);
    serve(&mut mon, &mut ctx, ProcessCallType::Mprotect);
    assert_eq!(ctx.vmsa.rcx, 0);
    assert_eq!(t.find_leaf(&mon.machine, 0x6000), Some(page | C_BIT | 0x165));
    assert_eq!(t.find_leaf(&mon.machine, 0x5000).unwrap() & 0x8000_0000_0000_0002, 0);
    let mut ctx = context(root, 0x5FFF, u64::MAX, 0x4);
    assert_eq!(serve(&mut mon, &mut ctx, ProcessCallType::Mprotect), Dispatch::Halt);
    let mut ctx = context(root, 0x6000, 0x1000, 0);
    serve(&mut mon, &mut ctx, ProcessCallType::VirtFree);
    assert_eq!(t.get_page(&mon.machine, 0x6000), 0);
    assert_eq!(mon.machine.pool.free_page_list, vec![page]);
}

#[test]
fn files_come_page_by_page() {
    let (mut mon, root) = monitor();
    let t = ProcessPageTableRef::external(root);
    let mut ctx = context(root, 0x50_0000, 0x2000, 0x1);
    ctx.vmsa.r8 = 7;
    ctx.vmsa.r9 = 0x3000;
    serve(&mut mon, &mut ctx, ProcessCallType::MapFile);
    assert_eq!(ctx.vmsa.rcx, 0);
    let info = mon.processes.peek(ProcessID(0)).mmap_manager.lookup(0x50_1FFF).unwrap();
    assert_eq!((info.fd, info.offset, info.addr, info.size), (7, 0x3000, 0x50_0000, 0x2000));
    assert_eq!(t.get_page(&mon.machine, 0x50_0000), 0);

    // A fault asks the guest for the page.
    let guest = ProcessPageTableRef::external(GUEST_ROOT);
    guest.map_4k_page(&mut mon.machine, 0x8000, 0x31_0000, 0x67);
    guest.map_4k_page(&mut mon.machine, 0x9000, 0x31_5000, 0x67);
    let mut ctx = context(root, 4, 14, 0);
    ctx.vmsa.cr2 = 0x50_1234;
    ctx.guest_page_table = GUEST_ROOT;
    ctx.invocation_arg_guest_vaddr = 0x8000;
    assert_eq!(
        serve(&mut mon, &mut ctx, ProcessCallType::Exception),
        Dispatch::Return(RETURN_TO_GUEST)
    );
    assert_eq!(ctx.return_values.rcx, TrustletReturnType::MMAP.code());
    assert_eq!(mon.machine.read_page(0x31_0000)[..4], [7, 0x3000, 0x2000, 0x1000]);
    assert_eq!(mon.processes.peek(ProcessID(0)).pf_target_vaddr, 0x50_1000);

    // The guest delivers it.
    mon.machine.write(0x31_0000, 0, 4);
    mon.machine.write(0x31_0000, 4, 0x9000);
    mon.machine.write(0x31_0000, 5, 0x8000);
    mon.machine.write(0x31_5000, 3, 77);
    let mut params = RequestParams { sev_features: 0, rcx: 0, rdx: GUEST_ROOT, r8: 0x8000, r9: 56 };
    let step = invoke_trustlet(&mut mon.machine, &mon.processes, &mut params);
    let inv = match step {
        InvokeStep::Run(inv) => inv,
        _ => panic!("the process can be run"),
    };
    assert_eq!(inv.kind, TrustletInvocationType::MMAP);
    let vmsa = ctx.vmsa;
    let p = mon.processes.get(ProcessID(0));
    let ctx = inv.prepare(&mut mon.machine, p, vmsa, &params).unwrap();
    let page = t.get_page(&mon.machine, 0x50_1000);
    assert_ne!(page, 0);
    assert_eq!(mon.machine.read(page, 3), 77);
    // The flags are those that the file was mapped with.
    assert_eq!(
        t.find_leaf(&mon.machine, 0x50_1000),
        Some(page | C_BIT | 0x8000_0000_0000_0025)
    );
    assert_eq!(ctx.vmsa.rip, vmsa.rip);
}

#[test]
fn the_library_os_is_mapped_at_once() {
    let (mut mon, root) = monitor();
    let t = ProcessPageTableRef::external(root);
    t.map_4k_page(&mut mon.machine, TP_LIBOS_START_VADDR + 0x1000, 0x31_0000, 0x67);
    mon.machine.write(0x31_0000, 0, 5);
    let mut ctx = context(root, 0x50_0000, 0x1000, 0x5);
    ctx.vmsa.r8 = 0xFFFF_FFFF_FFFF_FFFE;
    ctx.vmsa.r9 = 0x1000;
    serve(&mut mon, &mut ctx, ProcessCallType::MapFile);
    assert_eq!(ctx.vmsa.rcx, 0);
    assert_eq!(t.find_leaf(&mon.machine, 0x50_0000), Some(0x31_0000 | C_BIT | 0x25));
    // Copied on write: the process gets a copy.
    let mut ctx = context(root, 0x51_0000, 0x1000, 0xB);
    ctx.vmsa.r8 = 0xFFFF_FFFF_FFFF_FFFE;
    ctx.vmsa.r9 = 0x1000;
    serve(&mut mon, &mut ctx, ProcessCallType::MapFile);
    let copy = t.get_page(&mon.machine, 0x51_0000);
    assert_ne!(copy, 0x31_0000);
    assert_eq!(mon.machine.read(copy, 0), 5);
    for (rbx, rcx, r9) in [(1u64, 0u64, 0u64), (0, 1, 0), (0, 0, 1), (0, 0x1000_0000, 0)] {
        let mut ctx = context(root, rbx, rcx, 0);
        ctx.vmsa.r9 = r9;
        serve(&mut mon, &mut ctx, ProcessCallType::MapFile);
        assert_eq!(ctx.vmsa.rcx, u64::MAX);
    }
}

#[test]
fn mappings_are_found_by_address() {
    let mut manager = MmapManager::new();
    assert!(manager.lookup(0x1000).is_none());
    manager.add_mapping(0x1000, 0x2000, 3, 0);
    manager.add_mapping(0x5000, 0x1000, 4, 0x1000);
    assert_eq!(manager.lookup(0x1000).unwrap().fd, 3);
    assert_eq!(manager.lookup(0x2FFF).unwrap().fd, 3);
    assert!(manager.lookup(0x3000).is_none());
    assert_eq!(manager.lookup(0x5FFF).unwrap().offset, 0x1000);
    assert!(manager.lookup(0xFFF).is_none());
}

#[test]
fn the_greatest_range_with_the_address_is_found() {
    let mut manager = MmapManager::new();
    manager.add_mapping(0x2000, 0x3000, 1, 0);
    manager.add_mapping(0x1000, 0x9000, 2, 0);
    manager.add_mapping(0x2000, 0x1000, 3, 0);
    assert_eq!(manager.lookup(0x1FFF).unwrap().fd, 2);
    // Of ranges with the same start the longer one is the greater.
    assert_eq!(manager.lookup(0x2000).unwrap().fd, 1);
    assert_eq!(manager.lookup(0x5000).unwrap().fd, 2);
    // What was added last for a range replaces what was there.
    manager.add_mapping(0x2000, 0x3000, 7, 0x4000);
    assert_eq!(manager.mappings.len(), 3);
    assert_eq!(manager.lookup(0x4FFF).unwrap().fd, 7);
    assert_eq!(manager.lookup(0x4FFF).unwrap().offset, 0x4000);
    assert_eq!(manager.lookup(0x1FFF).unwrap().fd, 2);
}

#[test]
fn writes_to_shared_pages_are_copied() {
    let (mut mon, root) = monitor();
    let t = ProcessPageTableRef::external(root);
    t.map_4k_page(&mut mon.machine, 0x5000, 0x31_0000, 0x67);
    mon.machine.write(0x31_0000, 0, 8);
    let mut ctx = context(root, 0, 0, 0);
    assert_eq!(
        serve(&mut mon, &mut ctx, ProcessCallType::Finalize),
        Dispatch::Return(RETURN_TO_GUEST)
    );
    let mut ctx = context(root, 7, 14, 0);
    ctx.vmsa.cr2 = 0x5008;
    assert_eq!(
        serve(&mut mon, &mut ctx, ProcessCallType::Exception),
        Dispatch::Return(RETURN_TO_PROCESS)
    );
    let own = t.get_page(&mon.machine, 0x5000);
    assert_ne!(own, 0x31_0000);
    assert_eq!(mon.machine.read(own, 0), 8);
    assert!(!mon.processes.peek(ProcessID(0)).dead);
}

#[test]
fn other_faults_end_the_process() {
    for (call, rcx) in [
        (ProcessCallType::Exception, 13u64),
        (ProcessCallType::Exception, 14),
        (ProcessCallType::HandleDf, 8),
        (ProcessCallType::Fail, 0),
    ] {
        let (mut mon, root) = monitor();
        mon.processes.get(ProcessID(0)).gpu_core = 5;
        mon.gpu.engine_pages[5] = 0x8000;
        let mut ctx = context(root, 0, rcx, 0);
        assert_eq!(serve(&mut mon, &mut ctx, call), Dispatch::Return(RETURN_TO_GUEST));
        assert_eq!(ctx.return_values.rcx, TrustletReturnType::ERROR.code());
        assert!(mon.processes.peek(ProcessID(0)).dead);
        assert_eq!(mon.processes.peek(ProcessID(0)).gpu_core, -1);
        assert_eq!(mon.gpu.engine_pages[5], 0);
        // It is never resumed.
        let mut params = RequestParams { rcx: 0, ..RequestParams::default() };
        assert_eq!(
            invoke_trustlet(&mut mon.machine, &mon.processes, &mut params),
            InvokeStep::Answered
        );
        assert_eq!(params.rcx, TrustletReturnType::ERROR.code());
    }
    let (mut mon, root) = monitor();
    let mut ctx = context(root, 0, 6, 0);
    assert_eq!(serve(&mut mon, &mut ctx, ProcessCallType::Exception), Dispatch::Halt);
    let mut ctx = context(root, 0, 0, 0);
    assert_eq!(
        serve(&mut mon, &mut ctx, ProcessCallType::Exit),
        Dispatch::Return(RETURN_TO_GUEST)
    );
    assert_eq!(ctx.return_values.rcx, TrustletReturnType::EXIT.code());
    assert!(mon.processes.peek(ProcessID(0)).dead);
}

#[test]
fn requests_go_to_the_guest() {
    let (mut mon, root) = monitor();
    let t = ProcessPageTableRef::external(root);
    t.map_4k_page(&mut mon.machine, 0x5000, 0x31_0000, 0x67);
    let guest = ProcessPageTableRef::external(GUEST_ROOT);
    guest.map_4k_page(&mut mon.machine, 0x8000, 0x31_5000, 0x67);
    mon.machine.write_byte(0x31_0010, 42);
    for (kind, why) in [
        (0u64, TrustletReturnType::FILEATTR),
        (1, TrustletReturnType::OPEN),
        (2, TrustletReturnType::READ),
    ] {
        let mut ctx = context(root, kind, 0x5010, 4);
        ctx.guest_page_table = GUEST_ROOT;
        ctx.invocation_arg_guest_vaddr = 0x8000;
        ctx.invocation_arg_size = 4;
        assert_eq!(
            serve(&mut mon, &mut ctx, ProcessCallType::GuestRequest),
            Dispatch::Return(RETURN_TO_GUEST)
        );
        assert_eq!(ctx.return_values.rcx, why.code());
        assert_eq!(mon.machine.read_byte(0x31_5000), 42);
    }
    // Unknown requests, data without room and data across pages are refused.
    for (kind, ptr, size, room) in [
        (3u64, 0x5010u64, 4u64, 4u64),
        (0, 0x5010, 5, 4),
        (0, 0x5FFF, 2, 4),
        (0, 0x7000, 2, 4),
    ] {
        let mut ctx = context(root, kind, ptr, size);
        ctx.guest_page_table = GUEST_ROOT;
        ctx.invocation_arg_guest_vaddr = 0x8000;
        ctx.invocation_arg_size = room;
        assert_eq!(
            serve(&mut mon, &mut ctx, ProcessCallType::GuestRequest),
            Dispatch::Return(RETURN_TO_PROCESS)
        );
        assert_eq!(ctx.vmsa.rcx, u64::MAX);
    }
}

#[test]
fn input_goes_in_and_the_result_comes_out() {
    let (mut mon, root) = monitor();
    let t = ProcessPageTableRef::external(root);
    let guest = ProcessPageTableRef::external(GUEST_ROOT);
    guest.map_4k_page(&mut mon.machine, 0x8000, 0x31_0000, 0x67);
    guest.map_4k_page(&mut mon.machine, 0x9000, 0x31_5000, 0x67);
    guest.map_4k_page(&mut mon.machine, 0xA000, 0x31_6000, 0x67);
    for (i, w) in [0u64, 0x9000, 100, 0xA000, 200, 0x8000, 300].iter().enumerate() {
        mon.machine.write(0x31_0000, i as u64, *w);
    }
    mon.machine.write(0x31_5000, 0, 123);
    let mut params = RequestParams { sev_features: 0, rcx: 0, rdx: GUEST_ROOT, r8: 0x8000, r9: 56 };
    let inv = match invoke_trustlet(&mut mon.machine, &mon.processes, &mut params) {
        InvokeStep::Run(inv) => inv,
        _ => panic!("the process can be run"),
    };
    assert_eq!(inv.kind, TrustletInvocationType::NORMAL);
    assert_eq!((inv.function_arg, inv.function_arg_size), (0x9000, 100));
    let p = mon.processes.get(ProcessID(0));
    let vmsa = Vmsa { cr3: root, ..Vmsa::default() };
    let mut ctx = inv.prepare(&mut mon.machine, p, vmsa, &params).unwrap();
    assert_eq!(p.context.channel.input.1, 1);
    assert_eq!((ctx.result_addr, ctx.result_size, ctx.invocation_arg_size), (0xA000, 200, 300));
    assert!(!ctx.nested_call);
    let _ = t.get_page(&mon.machine, INPUT_VADDR);
    let output = t.get_page(&mon.machine, OUTPUT_VADDR);
    assert_ne!(output, 0);
    mon.machine.write(output, 0, 321);
    mon.processes.get(ProcessID(0)).context.channel.output.0 =
        mon.machine.read(root, OUTPUT_VADDR / 0x80_0000_0000);
    assert_eq!(
        serve(&mut mon, &mut ctx, ProcessCallType::GetResult),
        Dispatch::Return(RETURN_TO_GUEST)
    );
    assert_eq!(ctx.return_values.rcx, TrustletReturnType::GETRESULT.code());
    assert_eq!(mon.machine.read(0x31_6000, 0), 321);
    let mut page: Vec<u8> = vec![0; 4096];
    page[..8].copy_from_slice(&321u64.to_le_bytes());
    let mut h: Vec<u8> = vec![0; 64];
    sha512_single(&page, &mut h);
    assert_eq!(mon.processes.peek(ProcessID(0)).measurements.output_data.to_vec(), h);

    // A process that another one called gives nothing to the guest.
    mon.machine.write(0x31_6000, 0, 0);
    let mut nested = PALContext::new(ProcessID(0), ctx.vmsa, true);
    nested.result_addr = 0xA000;
    nested.result_size = 200;
    nested.guest_page_table = GUEST_ROOT;
    serve(&mut mon, &mut nested, ProcessCallType::GetResult);
    assert_eq!(mon.machine.read(0x31_6000, 0), 0);
}

#[test]
fn data_of_the_guest_resumes_a_process() {
    let (mut mon, root) = monitor();
    let t = ProcessPageTableRef::external(root);
    t.map_4k_page(&mut mon.machine, 0x5000, 0x31_0000, 0x67);
    let guest = ProcessPageTableRef::external(GUEST_ROOT);
    guest.map_4k_page(&mut mon.machine, 0x8000, 0x31_5000, 0x67);
    guest.map_4k_page(&mut mon.machine, 0x9000, 0x31_6000, 0x67);
    for (i, w) in [3u64, 0, 0, 0, 0, 0x9000, 2].iter().enumerate() {
        mon.machine.write(0x31_5000, i as u64, *w);
    }
    mon.machine.write(0x31_6000, 0, 0x0B0A);
    let mut params = RequestParams { sev_features: 0, rcx: 0, rdx: GUEST_ROOT, r8: 0x8000, r9: 56 };
    let inv = match invoke_trustlet(&mut mon.machine, &mon.processes, &mut params) {
        InvokeStep::Run(inv) => inv,
        _ => panic!("the process can be run"),
    };
    let vmsa = Vmsa { cr3: root, rcx: 0x5007, ..Vmsa::default() };
    let p = mon.processes.get(ProcessID(0));
    assert!(inv.prepare(&mut mon.machine, p, vmsa, &params).is_some());
    assert_eq!(mon.machine.read_byte(0x31_0007), 0x0A);
    assert_eq!(mon.machine.read_byte(0x31_0008), 0x0B);
    let across = Vmsa { cr3: root, rcx: 0x5FFF, ..Vmsa::default() };
    assert!(inv.prepare(&mut mon.machine, p, across, &params).is_none());
    // The answer of the guest to a request for inference.
    mon.machine.write(0x31_5000, 0, 6);
    let inv = match invoke_trustlet(&mut mon.machine, &mon.processes, &mut params) {
        InvokeStep::Run(inv) => inv,
        _ => panic!("the process can be run"),
    };
    let p = mon.processes.get(ProcessID(0));
    assert_eq!(inv.prepare(&mut mon.machine, p, vmsa, &params).unwrap().vmsa.rdx, 0x0B0A);
    // An unknown reason makes no sense.
    mon.machine.write(0x31_5000, 0, 7);
    assert_eq!(
        invoke_trustlet(&mut mon.machine, &mon.processes, &mut params),
        InvokeStep::Halt
    );
}

#[test]
fn processes_that_take_too_long_end() {
    let mut gpu = GpuState::new();
    let mut p = trustlet();
    let mut ctx = early_invoke(ProcessID(0), Vmsa::default());
    invoke_enter(&mut p, 6, 100);
    assert!(p.running);
    assert_eq!((p.invoke_owner_apic, p.invoke_start_tsc), (6, 100));
    p.in_pcall = true;
    assert!(!invoke_step(&mut ctx, &mut p, &mut gpu, RETURN_TO_PROCESS, 100, 100 + 600 * SECOND));
    assert!(!p.in_pcall);
    assert!(invoke_step(&mut ctx, &mut p, &mut gpu, RETURN_TO_GUEST, 100, 200));
    assert!(!p.dead);
    assert!(invoke_step(&mut ctx, &mut p, &mut gpu, RETURN_TO_PROCESS, 100, 101 + 600 * SECOND));
    assert!(p.dead);
    assert_eq!(ctx.return_values.rcx, TrustletReturnType::ERROR.code());
    let mut params = RequestParams { sev_features: 7, ..RequestParams::default() };
    ctx.return_values.set_rdx(1);
    ctx.return_values.set_r8(2);
    ctx.return_values.set_r9(3);
    invoke_end(&ctx, &mut p, &mut params);
    assert!(!p.running);
    assert_eq!((p.invoke_owner_apic, p.invoke_start_tsc), (u32::MAX, 0));
    assert_eq!(params, RequestParams { sev_features: 7, rcx: 2, rdx: 1, r8: 2, r9: 3 });
}

#[test]
fn late_processes_are_found() {
    let mut store = TrustedProcessStore::new();
    store.init(3);
    for i in 0..3usize {
        assert_eq!(store.insert(trustlet()), i as i64);
    }
    invoke_enter(store.get(ProcessID(0)), 1, 10 * SECOND);
    invoke_enter(store.get(ProcessID(2)), 2, 5);
    let now: u64 = 605 * SECOND;
    assert!(log_overbudget_invokes(&store.processes, 64, now, 0).is_none());
    assert!(log_overbudget_invokes(&store.processes, 3, now, now - 10 * SECOND + 1).is_none());
    let (at, late) = log_overbudget_invokes(&store.processes, 3, now, 0).unwrap();
    assert_eq!(at, now);
    assert_eq!(late, vec![2]);
}

#[test]
fn processes_call_each_other() {
    let (mut mon, root) = monitor();
    mon.processes.get(ProcessID(1)).context.vmsa = 0x7000;
    mon.processes.get(ProcessID(1)).context.sev_features = 3;
    let mut ctx = context(root, 1, 0, 0);
    assert_eq!(
        serve(&mut mon, &mut ctx, ProcessCallType::CallTrustlet),
        Dispatch::Call(NestedCall { callee: ProcessID(1), vmsa: 0x7000, sev_features: 3 })
    );
    assert_eq!(mon.calls.stack, vec![1]);
    ctx.call_answered(0);
    assert_eq!(ctx.vmsa.rcx, 0);
    // Itself, no process, a place without one.
    for (callee, status) in [(0u64, -2i64), (4, -1), (3, -1)] {
        let mut ctx = context(root, callee, 0, 0);
        assert_eq!(
            serve(&mut mon, &mut ctx, ProcessCallType::CallTrustlet),
            Dispatch::Return(RETURN_TO_PROCESS)
        );
        assert_eq!(ctx.vmsa.rcx as i64, status);
    }
    nested_end(&mut mon.calls, mon.processes.get(ProcessID(1)));
    assert!(mon.calls.stack.is_empty());
}

#[test]
fn calls_are_refused_for_a_reason() {
    let mut store = TrustedProcessStore::new();
    store.init(8);
    for _ in 0..8 {
        assert!(store.insert(trustlet()) >= 0);
    }
    let mut calls = CallStack::new();
    assert!(run_nested(&mut calls, &store, 0, 1).is_ok());
    assert_eq!(run_nested(&mut calls, &store, 2, 1), Err(-4));
    nested_enter(store.get(ProcessID(3)), 0, 0);
    assert_eq!(run_nested(&mut calls, &store, 1, 3), Err(-1));
    store.get(ProcessID(4)).dead = true;
    assert_eq!(run_nested(&mut calls, &store, 1, 4), Err(-1));
    for callee in [2u64, 5, 6] {
        assert!(run_nested(&mut calls, &store, 1, callee).is_ok());
    }
    assert_eq!(run_nested(&mut calls, &store, 6, 7), Err(-3));
    assert_eq!(nested_abort(&mut calls), -1);
    assert!(run_nested(&mut calls, &store, 6, 7).is_ok());

    let mut gpu = GpuState::new();
    let p = store.get(ProcessID(7));
    assert_eq!(nested_step(p, &mut gpu, RETURN_TO_GUEST, 0, 9), Some(0));
    assert_eq!(nested_step(p, &mut gpu, RETURN_TO_PROCESS, 0, 9), None);
    assert_eq!(nested_step(p, &mut gpu, RETURN_TO_PROCESS, 0, 601 * SECOND), Some(-5));
    assert!(p.dead);
    let mut ctx = context(0, 7, 0, 0);
    assert_eq!(ctx.pal_call_trustlet(&mut calls, &store, 1), Err(RETURN_TO_PROCESS));
    assert_eq!(ctx.vmsa.rcx as i64, -1);
}

#[test]
fn channels_link_processes() {
    let (mut mon, root) = monitor();
    let mut second = ProcessPageTableRef::external(0);
    second.init_vmpl1(&mut mon.machine);
    let mut first = ProcessPageTableRef::external(root);
    let channel = &mut mon.processes.get(ProcessID(0)).context.channel;
    channel.allocate_output(&mut mon.machine, &mut first, 5000);
    assert_eq!(channel.output.1, 2);
    let params = RequestParams { rcx: 0, rdx: 1, ..RequestParams::default() };
    let cr3_2 = second.process_page_table;
    assert_eq!(
        create_channel(&mut mon.machine, &mut mon.processes, &params, root, cr3_2),
        Ok(())
    );
    assert_eq!(
        first.get_page(&mon.machine, OUTPUT_VADDR),
        second.get_page(&mon.machine, INPUT_VADDR)
    );
    let p = mon.processes.peek(ProcessID(0));
    let q = mon.processes.peek(ProcessID(1));
    assert_eq!(p.context.channel.next, Some(ProcessID(1)));
    assert_eq!(q.context.channel.input, p.context.channel.output);
    assert!(q.context.channel.input_borrowed);
    // Inference goes to the process that is linked.
    let mut ctx = context(root, 0, 2, 0);
    assert_eq!(
        serve(&mut mon, &mut ctx, ProcessCallType::Inference),
        Dispatch::Call(NestedCall { callee: ProcessID(1), vmsa: 0, sev_features: 0 })
    );
}

#[test]
fn channels_grow_and_are_measured() {
    let mut m = machine();
    let mut t = ProcessPageTableRef::external(0);
    t.init_vmpl1(&mut m);
    let mut channel = MemoryChannel::default();
    channel.allocate_input(&mut m, &mut t, 0);
    assert_eq!(channel.input.1, 1);
    channel.inflate_input(&mut m, t.process_page_table, 8192);
    assert_eq!(channel.input.1, 3);
    channel.inflate_input(&mut m, t.process_page_table, 0);
    assert_eq!(channel.input.1, 3);
    assert_ne!(t.get_page(&m, INPUT_VADDR + 0x2000), 0);
    channel.allocate_output(&mut m, &mut t, 0);
    channel.inflate_output(&mut m, t.process_page_table, 4096);
    assert_eq!(channel.output.1, 2);

    let guest = ProcessPageTableRef::external(GUEST_ROOT);
    guest.map_4k_page(&mut m, 0x8000, 0x31_0000, 0x67);
    m.write(0x31_0000, 0, 55);
    channel.copy_into(&mut m, 0x8000, GUEST_ROOT, 8);
    assert_eq!(m.read(t.get_page(&m, INPUT_VADDR), 0), 55);
    let mut bytes: Vec<u8> = vec![0; 3 * 4096];
    bytes[0] = 55;
    let mut h: Vec<u8> = vec![0; 64];
    sha512_single(&bytes, &mut h);
    assert_eq!(channel.measure_input(&mut m).to_vec(), h);
    sha512_single(&vec![0u8; 2 * 4096], &mut h);
    assert_eq!(channel.measure_output(&mut m).to_vec(), h);
    m.write(t.get_page(&m, OUTPUT_VADDR), 0, 66);
    channel.copy_out(&mut m, 0x8000, GUEST_ROOT, 8);
    assert_eq!(m.read(0x31_0000, 0), 66);
    assert_eq!(m.read(m.cr3, 6), 0);

    let (mut mon, root) = monitor();
    let mut ctx = context(root, 0, 1, 100);
    serve(&mut mon, &mut ctx, ProcessCallType::CallInflateChannel);
    assert_eq!(mon.processes.peek(ProcessID(0)).context.channel.output.1, 1);
    let mut ctx = context(root, 0, 0, u64::MAX);
    assert_eq!(serve(&mut mon, &mut ctx, ProcessCallType::CallInflateChannel), Dispatch::Halt);
}

#[test]
fn models_are_given_to_read() {
    let (mut mon, root) = monitor();
    let mut range = AllocationRange(0, 0);
    range.allocate_for_guest(&mut mon.machine, 1);
    let page = ProcessPageTableRef::external(mon.machine.cr3).get_page(&mon.machine, WINDOW);
    range.unmount(&mut mon.machine);
    let e = StoreEntry { measurement: [1; 64], data: range, real_size: 77, state: false };
    assert_eq!(mon.models.insert(e), 0);
    let mut ctx = context(root, 0, 0, 0);
    serve(&mut mon, &mut ctx, ProcessCallType::ModelChannel);
    assert_eq!((ctx.vmsa.rcx, ctx.vmsa.rdx), (77, 0x400_0000_0000));
    assert_eq!(mon.machine.read(root, 8), range.0);
    let read = MachineOp::AdjustMounted { vaddr: WINDOW, page: Some(page), flags: 0x101 };
    assert!(mon.machine.ops.contains(&read));
    for id in [1u64, 2, u64::MAX] {
        let mut ctx = context(root, id, 9, 0);
        serve(&mut mon, &mut ctx, ProcessCallType::ModelChannel);
        assert_eq!(ctx.vmsa.rcx, 0);
    }
}

#[test]
fn processes_register_for_inference() {
    let (mut mon, root) = monitor();
    let t = ProcessPageTableRef::external(root);
    t.map_4k_page(&mut mon.machine, INFERENCE_VADDR, 0x31_0000, 0x67);
    for i in 0..64u64 {
        mon.machine.write_byte(0x31_0000 + i, 1);
        mon.machine.write_byte(0x31_0080 + i, 3);
    }
    mon.machine.write(0x31_0000, 24, 9);
    let mut ctx = context(root, 0, 0, 5);
    assert_eq!(
        serve(&mut mon, &mut ctx, ProcessCallType::Inference),
        Dispatch::Return(RETURN_TO_PROCESS)
    );
    assert_eq!(ctx.vmsa.rdx, 0);
    assert_eq!(mon.machine.read(0x31_0000, 24), 0);
    let data = AllocationRange(0, 0);
    mon.models.insert(StoreEntry { measurement: [1; 64], data, real_size: 1, state: false });
    mon.engines.insert(StoreEntry { measurement: [2; 64], data, real_size: 1, state: false });
    mon.engines.insert(StoreEntry { measurement: [3; 64], data, real_size: 1, state: false });
    let mut ctx = context(root, 0, 0, 5);
    assert_eq!(ctx.infer_context_data(&mon.machine).engine, [3; 64]);
    assert_eq!(
        serve(&mut mon, &mut ctx, ProcessCallType::Inference),
        Dispatch::Return(RETURN_TO_GUEST)
    );
    let r = ctx.return_values;
    assert_eq!((r.rcx, r.rdx, r.r8, r.r9), (12, 0, u64::MAX, 1));
    // Without a link the guest serves it.
    let mut ctx = context(root, 8, 2, 7);
    assert_eq!(
        serve(&mut mon, &mut ctx, ProcessCallType::Inference),
        Dispatch::Return(RETURN_TO_GUEST)
    );
    assert_eq!((ctx.return_values.rcx, ctx.return_values.rdx, ctx.return_values.r8), (13, 7, 8));
    let mut ctx = context(root, 8, 1, 7);
    assert_eq!(serve(&mut mon, &mut ctx, ProcessCallType::Inference), Dispatch::Halt);
}

#[test]
fn prompts_and_responses_are_copied() {
    let (mut mon, _) = monitor();
    let mut range = AllocationRange(0, 0);
    range.allocate_for_guest(&mut mon.machine, 1);
    write_mounted(&mut mon.machine, WINDOW, &b"prompt".to_vec());
    range.unmount(&mut mon.machine);
    mon.processes.get(ProcessID(1)).infer_context = range;
    let guest = ProcessPageTableRef::external(GUEST_ROOT);
    guest.map_4k_page(&mut mon.machine, 0x400_0000_0000, 0x31_0000, 0x67);
    let mut params =
        RequestParams { sev_features: 0, rcx: 1, rdx: GUEST_ROOT, r8: 0x400_0000_0000, r9: 6 };
    assert_eq!(prompt_get(&mut mon.machine, &mon.processes, &mut params), Ok(()));
    assert_eq!(params.rcx, 6);
    assert_eq!(mon.machine.read_byte(0x31_0005), b't');
    mon.machine.write_byte(0x31_0000, b'P');
    params.rcx = 1;
    assert_eq!(response_store(&mut mon.machine, &mon.processes, &mut params), Ok(()));
    let own = ProcessPageTableRef::external(mon.machine.cr3);
    assert_eq!(mon.machine.read_byte(own.get_page(&mon.machine, WINDOW)), b'P');
    params.rcx = 1;
    params.r8 = 0x400_0000_1000;
    assert_eq!(prompt_get(&mut mon.machine, &mon.processes, &mut params), Ok(()));
    assert_eq!(params.rcx as i64, STATUS_BAD_ARGS);
    params = RequestParams { rcx: 1, r8: 0x400_0000_0000, r9: 4097, ..params };
    assert_eq!(response_store(&mut mon.machine, &mon.processes, &mut params), Ok(()));
    assert_eq!(params.rcx as i64, STATUS_BAD_ARGS);
}

#[test]
fn processes_get_the_gpu() {
    let (mut mon, root) = monitor();
    let t = ProcessPageTableRef::external(root);
    let mut ctx = context(root, 0x5001, 0, 0);
    ctx.vmsa.vmpl = 1;
    assert_eq!(
        serve(&mut mon, &mut ctx, ProcessCallType::GpuChannel),
        Dispatch::Return(RETURN_TO_PROCESS)
    );
    assert_eq!((ctx.vmsa.rcx as i64, ctx.vmsa.rdx), (-2, 1));
    ctx.vmsa.rbx = 0x5000;
    serve(&mut mon, &mut ctx, ProcessCallType::GpuChannel);
    assert_eq!(ctx.vmsa.rcx as i64, -1);
    mon.exclusive.control[5] = 0x9000;
    mon.machine.write(0x31_0000, 0, 0x31_5000);
    mon.gpu.window_list_any = 0x31_0000;
    mon.gpu.window_npages_any = 1;
    assert_eq!(
        serve(&mut mon, &mut ctx, ProcessCallType::GpuChannel),
        Dispatch::GpuChannel { core: 5 }
    );
    assert_eq!(window_frames(&mon.machine, &mon.gpu, 5), vec![0x31_5000]);
    let p = mon.processes.get(ProcessID(0));
    assert_eq!(
        ctx.pal_svsm_gpu_channel(&mut mon.machine, p, &mut mon.gpu, 5, 1, 0),
        RETURN_TO_PROCESS
    );
    assert_eq!((ctx.vmsa.rcx, ctx.vmsa.r8, ctx.vmsa.r9, ctx.vmsa.rbx), (0, 5, 4096, 0));
    assert_eq!(p.gpu_core, 5);
    assert_eq!(t.get_page(&mon.machine, 0x5000), mon.gpu.engine_pages[5]);
    assert_eq!(t.get_page(&mon.machine, GPU_WINDOW_VADDR), 0x31_5000);
    assert_eq!(mon.gpu.engine_page_table[5], root);
    assert!(mon.gpu.engine_is_trustlet[5]);
}

#[test]
fn return_reasons_have_numbers() {
    let all: [(TrustletReturnType, u64); 9] = [
        (TrustletReturnType::EXIT, 0),
        (TrustletReturnType::GETRESULT, 1),
        (TrustletReturnType::ERROR, 2),
        (TrustletReturnType::FILEATTR, 3),
        (TrustletReturnType::OPEN, 4),
        (TrustletReturnType::READ, 5),
        (TrustletReturnType::MMAP, 6),
        (TrustletReturnType::INFERENCEREGISTER, 12),
        (TrustletReturnType::INFERENCE, 13),
    ];
    for (why, number) in all {
        assert_eq!(why.code(), number);
    }
}
