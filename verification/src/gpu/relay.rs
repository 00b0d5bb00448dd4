//! Relays the calls of clients to the services that carry them out.
use vstd::prelude::*;
use crate::address;
use crate::gpu::direct;
use crate::gpu::direct::{
    engine_registered, engine_slot_owes_stop, heap_for, map_heap_range, service_page_for,
    settle_stop, GpuState, GpuView,
};
use crate::memory::machine;
use crate::memory::machine::{split_byte, Machine, MachineState};
use crate::process_manager::process_paging::walk;
use crate::process_manager::process_paging::walk::ProcessPageTableRef;

verus! {

/// Bytes of a page of calls that carry data.
pub const COMM_DATA_SIZE: usize = 4088;

/// A page through which calls are made: one side fills in a call and sets the
/// lock, the other carries it out and clears the lock.
#[derive(Clone, Copy, Debug)]
pub struct CommunicationPage {
    pub lock: u8,
    pub id: u32,
    pub data: [u8; 4088],
}

/// The call by which a client ends its session.
pub const STOP_ID: u32 = 500;

/// The call that copies any amount of memory.
pub const BULK_MEMCPY: u64 = 700;

/// The call that copies memory through the window.
pub const WINDOW_MEMCPY: u64 = 701;

/// The call that asks for more heap.
pub const HEAP_GROW: u64 = 702;

/// The call that copies memory in the heap.
pub const HEAP_MEMCPY: u64 = 703;

/// The call that a piece of a large copy is made with.
pub const MEMCPY_ID: u32 = 121;

/// Bytes in front of the data of a copy.
pub const MEMCPY_HDR: usize = 32;

/// Bytes of data that a copy carries at most.
pub const MEMCPY_MAX_PAYLOAD: usize = 4056;

pub const MEMCPY_HOST_TO_DEVICE: u32 = 1;

pub const MEMCPY_DEVICE_TO_HOST: u32 = 2;

/// The error of a call with arguments that make no sense.
pub const CUDA_ERROR_INVALID_VALUE: u32 = 1;

/// The error of a call that no service can carry out.
pub const CUDA_ERROR_SYSTEM_NOT_READY: u32 = 802;

/// No command.
pub const LOOP_CLEAR: u64 = 0;

/// The numbers of the calls that a service carries out.
#[derive(Clone, Copy, PartialEq, Eq, Structural, Debug)]
pub struct CudaCallIds {
    pub get_device_count: u64,
    pub malloc: u64,
    pub free: u64,
    pub device_synchronize: u64,
    pub launch_kernel: u64,
    pub get_device_properties: u64,
    pub mem_get_info: u64,
    pub memset: u64,
    pub func_set_attribute: u64,
    pub occupancy_max_active_blocks: u64,
    pub stream_create_with_flags: u64,
    pub stream_destroy: u64,
    pub stream_synchronize: u64,
    pub stream_begin_capture: u64,
    pub stream_end_capture: u64,
    pub graph_instantiate: u64,
    pub graph_exec_update: u64,
    pub graph_launch: u64,
    pub graph_destroy: u64,
    pub graph_exec_destroy: u64,
    pub memcpy: u64,
}

/// Four bytes as a number, the least significant first.
pub open spec fn le32(d: Seq<u8>, at: int) -> u32 {
    (d[at] + 0x100 * d[at + 1] + 0x1_0000 * d[at + 2] + 0x100_0000 * d[at + 3]) as u32
}

/// Eight bytes as a number, the least significant first.
pub open spec fn le64(d: Seq<u8>, at: int) -> u64 {
    machine::word_of(d.subrange(at, at + 8))
}

/// The first `n` bytes of a number, the least significant first.
pub open spec fn le_bytes(w: u64, n: nat) -> Seq<u8> {
    Seq::new(n, |i: int| machine::byte_of(w, i))
}

/// Data with some of its bytes replaced.
pub open spec fn with_bytes(d: Seq<u8>, at: int, bytes: Seq<u8>) -> Seq<u8> {
    Seq::new(
        d.len(),
        |i: int|
            if at <= i < at + bytes.len() {
                bytes[i - at]
            } else {
                d[i]
            },
    )
}

/// Data whose first `n` bytes are those of other data.
pub open spec fn with_prefix(d: Seq<u8>, other: Seq<u8>, n: int) -> Seq<u8> {
    Seq::new(
        d.len(),
        |i: int|
            if i < n {
                other[i]
            } else {
                d[i]
            },
    )
}

/// Bytes of the request and of the answer of a call; none where no service
/// carries it out.
pub open spec fn call_sizes(ids: CudaCallIds, call_id: u32, d: Seq<u8>) -> Option<(int, int)> {
    let id = call_id as u64;
    if id == ids.get_device_count {
        Some((0, 8))
    } else if id == ids.malloc {
        Some((8, 16))
    } else if id == ids.free {
        Some((8, 4))
    } else if id == ids.device_synchronize {
        Some((0, 4))
    } else if id == ids.launch_kernel {
        Some((
            56 + (if le32(d, 48) <= 4032 {
                le32(d, 48) as int
            } else {
                4032
            }),
            4,
        ))
    } else if 501 <= id <= 504 {
        Some((4088, 4088))
    } else if id == ids.get_device_properties {
        Some((4, 4088))
    } else if id == ids.mem_get_info {
        Some((0, 24))
    } else if id == ids.memset {
        Some((20, 4))
    } else if id == ids.func_set_attribute {
        Some((16, 4))
    } else if id == ids.occupancy_max_active_blocks {
        Some((28, 8))
    } else if id == ids.stream_create_with_flags {
        Some((4, 16))
    } else if id == ids.stream_destroy || id == ids.stream_synchronize {
        Some((8, 4))
    } else if id == ids.stream_begin_capture {
        Some((12, 4))
    } else if id == ids.stream_end_capture || id == ids.graph_instantiate {
        Some((8, 16))
    } else if id == ids.graph_exec_update {
        Some((16, 8))
    } else if id == ids.graph_launch {
        Some((16, 4))
    } else if id == ids.graph_destroy || id == ids.graph_exec_destroy {
        Some((8, 4))
    } else if id == 600 {
        Some((0, 16))
    } else if id == 601 {
        Some((8, 4))
    } else if id == 602 {
        Some((16, 4))
    } else if id == 603 {
        Some((12, 4))
    } else if id == 604 {
        Some((144, 4))
    } else if id == HEAP_GROW {
        Some((8, 8))
    } else if id == HEAP_MEMCPY {
        Some((28, 4))
    } else if id == WINDOW_MEMCPY {
        Some((28, 4))
    } else if id == ids.memcpy {
        let payload = if le64(d, 16) <= 4056 {
            le64(d, 16) as int
        } else {
            4056
        };
        Some((
            32 + (if le32(d, 24) == MEMCPY_HOST_TO_DEVICE {
                payload
            } else {
                0
            }),
            if le32(d, 24) == MEMCPY_DEVICE_TO_HOST {
                32 + payload
            } else {
                4
            },
        ))
    } else {
        None
    }
}

/// What a request or an answer takes always has room on a page.
pub proof fn law_calls_fit_their_page(ids: CudaCallIds, call_id: u32, d: Seq<u8>)
    ensures
        call_sizes(ids, call_id, d) matches Some((req, resp)) ==> 0 <= req <= COMM_DATA_SIZE && 4
            <= resp <= COMM_DATA_SIZE,
{
}

fn get_u32(data: &[u8; 4088], at: usize) -> (r: u32)
    requires
        at <= 4084,
    ensures
        r == le32(data@, at as int),
{
    data[at] as u32 + 0x100 * data[at + 1] as u32 + 0x1_0000 * data[at + 2] as u32 + 0x100_0000
        * data[at + 3] as u32
}

fn get_u64(data: &[u8; 4088], at: usize) -> (r: u64)
    requires
        at <= 4080,
    ensures
        r == le64(data@, at as int),
{
    data[at] as u64 + 0x100 * data[at + 1] as u64 + 0x1_0000 * data[at + 2] as u64 + 0x100_0000
        * data[at + 3] as u64 + 0x1_0000_0000 * data[at + 4] as u64 + 0x100_0000_0000 * data[at
        + 5] as u64 + 0x1_0000_0000_0000 * data[at + 6] as u64 + 0x100_0000_0000_0000 * data[at
        + 7] as u64
}

fn put_number(data: &mut [u8; 4088], at: usize, w: u64, n: usize)
    requires
        n <= 8,
        at + n <= 4088,
    ensures
        final(data)@ == with_bytes(old(data)@, at as int, le_bytes(w, n as nat)),
{
    let ghost before = data@;
    let mut i: usize = 0;
    while i < n
        invariant
            i <= n <= 8,
            at + n <= 4088,
            data@ =~= with_bytes(before, at as int, le_bytes(w, i as nat)),
        decreases n - i,
    {
        data[at + i] = split_byte(w, i as u64);
        i = i + 1;
    }
}

fn copy_prefix(data: &mut [u8; 4088], other: &[u8; 4088], n: usize)
    requires
        n <= 4088,
    ensures
        final(data)@ == with_prefix(old(data)@, other@, n as int),
{
    let ghost before = data@;
    let mut i: usize = 0;
    while i < n
        invariant
            i <= n <= 4088,
            data@ =~= with_prefix(before, other@, i as int),
        decreases n - i,
    {
        data[i] = other[i];
        i = i + 1;
    }
}

/// Bytes of the request and of the answer of a call; none where no service
/// carries it out.
pub fn forward_spec(ids: &CudaCallIds, call_id: u32, data: &[u8; 4088]) -> (r: Option<
    (usize, usize),
>)
    ensures
        match r {
            None => call_sizes(*ids, call_id, data@) is None,
            Some((req, resp)) => call_sizes(*ids, call_id, data@) == Some((req as int, resp as int))
                && req <= 4088 && 4 <= resp <= 4088,
        },
{
    let id = call_id as u64;
    if id == ids.get_device_count {
        Some((0, 8))
    } else if id == ids.malloc {
        Some((8, 16))
    } else if id == ids.free {
        Some((8, 4))
    } else if id == ids.device_synchronize {
        Some((0, 4))
    } else if id == ids.launch_kernel {
        let args_len = get_u32(data, 48);
        let taken: usize = if args_len <= 4032 {
            args_len as usize
        } else {
            4032
        };
        Some((56 + taken, 4))
    } else if id >= 501 && id <= 504 {
        Some((4088, 4088))
    } else if id == ids.get_device_properties {
        Some((4, 4088))
    } else if id == ids.mem_get_info {
        Some((0, 24))
    } else if id == ids.memset {
        Some((20, 4))
    } else if id == ids.func_set_attribute {
        Some((16, 4))
    } else if id == ids.occupancy_max_active_blocks {
        Some((28, 8))
    } else if id == ids.stream_create_with_flags {
        Some((4, 16))
    } else if id == ids.stream_destroy || id == ids.stream_synchronize {
        Some((8, 4))
    } else if id == ids.stream_begin_capture {
        Some((12, 4))
    } else if id == ids.stream_end_capture || id == ids.graph_instantiate {
        Some((8, 16))
    } else if id == ids.graph_exec_update {
        Some((16, 8))
    } else if id == ids.graph_launch {
        Some((16, 4))
    } else if id == ids.graph_destroy || id == ids.graph_exec_destroy {
        Some((8, 4))
    } else if id == 600 {
        Some((0, 16))
    } else if id == 601 {
        Some((8, 4))
    } else if id == 602 {
        Some((16, 4))
    } else if id == 603 {
        Some((12, 4))
    } else if id == 604 {
        Some((144, 4))
    } else if id == HEAP_GROW {
        Some((8, 8))
    } else if id == HEAP_MEMCPY {
        Some((28, 4))
    } else if id == WINDOW_MEMCPY {
        Some((28, 4))
    } else if id == ids.memcpy {
        let count = get_u64(data, 16);
        let kind = get_u32(data, 24);
        let payload: usize = if count <= 4056 {
            count as usize
        } else {
            4056
        };
        let req: usize = if kind == MEMCPY_HOST_TO_DEVICE {
            MEMCPY_HDR + payload
        } else {
            MEMCPY_HDR
        };
        let resp: usize = if kind == MEMCPY_DEVICE_TO_HOST {
            MEMCPY_HDR + payload
        } else {
            4
        };
        Some((req, resp))
    } else {
        None
    }
}

/// What a core that polls an engine does next.
#[derive(Clone, Copy, PartialEq, Eq, Structural, Debug)]
pub enum PollAction {
    /// Stop polling; the command is handled by the loop around it.
    Return(u64),
    /// Look again.
    Idle,
    /// The call was answered; look again.
    Answered,
    /// Wait for the service, then end the session.
    Stop,
    /// The service is told of the end of an earlier session; wait for it, then
    /// look again.
    OwedStop,
    /// Carry out a large copy, then answer with its error.
    Bulk,
    /// Wait for the service, then complete the call.
    Forward { resp_len: usize },
}

/// A page with a call for the other side.
pub open spec fn is_call(page: CommunicationPage, id: u32, d: Seq<u8>) -> bool {
    page.id == id && page.lock == 1 && page.data@ == d
}

/// Whether the page of a client was answered: it is the page as it was, with
/// the given data.
pub open spec fn is_answer(page: CommunicationPage, before: CommunicationPage, d: Seq<u8>) -> bool {
    page.lock == 0 && page.id == before.id && page.data@ == d
}

/// Whether a call that the client of an engine made was looked at.
pub open spec fn call_polled(
    g: GpuView,
    ids: CudaCallIds,
    core: int,
    a: CommunicationPage,
    sv: CommunicationPage,
    g1: GpuView,
    a1: CommunicationPage,
    sv1: CommunicationPage,
    r: PollAction,
) -> bool {
    let served = g.service_for(core) != 0;
    if a.id == STOP_ID {
        if served {
            r == PollAction::Stop && g1 == g && a1 == a && is_call(sv1, STOP_ID, sv.data@)
        } else {
            r == PollAction::Return(LOOP_CLEAR) && sv1 == sv && session_ended(g, a, core, g1, a1)
        }
    } else if a.id as u64 == BULK_MEMCPY {
        r == PollAction::Bulk && g1 == g && a1 == a && sv1 == sv
    } else {
        &&& g1 == g
        &&& match call_sizes(ids, a.id, a.data@) {
            None => r == PollAction::Answered && sv1 == sv && is_answer(a1, a, a.data@),
            Some((req, resp)) => if served {
                &&& r is Forward
                &&& r->resp_len == resp
                &&& a1 == a
                &&& is_call(sv1, a.id, with_prefix(sv.data@, a.data@, req))
            } else {
                &&& r == PollAction::Answered
                &&& sv1 == sv
                &&& is_answer(
                    a1,
                    a,
                    with_bytes(
                        with_bytes(a.data@, 0, Seq::new(resp as nat, |i: int| 0u8)),
                        0,
                        le_bytes(CUDA_ERROR_SYSTEM_NOT_READY as u64, 4),
                    ),
                )
            },
        }
    }
}

/// Whether an engine was polled once: `g`, `a` and `sv` are the engines, the
/// page of the client and that of the service before, `g1`, `a1` and `sv1` those
/// after, and `r` is what is done next. A command comes first, then the end of
/// an earlier session that the service has to be told of, if there is one, then
/// the client.
pub open spec fn polled(
    g: GpuView,
    ids: CudaCallIds,
    core: int,
    cmd: u64,
    a: CommunicationPage,
    sv: CommunicationPage,
    g1: GpuView,
    a1: CommunicationPage,
    sv1: CommunicationPage,
    r: PollAction,
) -> bool {
    let settled = direct::stop_settled(g, core);
    if cmd != LOOP_CLEAR {
        r == PollAction::Return(cmd) && g1 == g && a1 == a && sv1 == sv
    } else if g.owes_stop(core) && g.service_for(core) != 0 {
        r == PollAction::OwedStop && g1 == settled && a1 == a && is_call(sv1, STOP_ID, sv.data@)
    } else if !g.engaged(core) {
        r == PollAction::Return(LOOP_CLEAR) && g1 == settled && a1 == a && sv1 == sv
    } else if a.lock == 0 {
        r == PollAction::Idle && g1 == settled && a1 == a && sv1 == sv
    } else {
        call_polled(settled, ids, core, a, sv, g1, a1, sv1, r)
    }
}

/// Looks at the page of the client of an engine once; see `polled`. `cmd` is the
/// command that was taken off the control page of the core, if any; `service` is
/// the page of the service, and is used only where there is one.
pub fn poll_engine(
    gpu: &mut GpuState,
    ids: &CudaCallIds,
    core: usize,
    cmd: u64,
    args: &mut CommunicationPage,
    service: &mut CommunicationPage,
) -> (r: PollAction)
    requires
        core < 64,
    ensures
        old(gpu)@.wf() ==> final(gpu)@.wf(),
        polled(
            old(gpu)@,
            *ids,
            core as int,
            cmd,
            *old(args),
            *old(service),
            final(gpu)@,
            *final(args),
            *final(service),
            r,
        ),
{
    if cmd != LOOP_CLEAR {
        return PollAction::Return(cmd);
    }
    let served = service_page_for(gpu, core) != 0;
    if engine_slot_owes_stop(gpu, core) {
        settle_stop(gpu, core);
        if served {
            forward_call(service, STOP_ID);
            return PollAction::OwedStop;
        }
    }
    if !engine_registered(gpu, core) {
        return PollAction::Return(LOOP_CLEAR);
    }
    if args.lock == 0 {
        return PollAction::Idle;
    }
    let call_id = args.id;
    if call_id == STOP_ID {
        if served {
            forward_call(service, call_id);
            return PollAction::Stop;
        }
        end_session(gpu, core, args);
        return PollAction::Return(LOOP_CLEAR);
    }
    if call_id as u64 == BULK_MEMCPY {
        return PollAction::Bulk;
    }
    match forward_spec(ids, call_id, &args.data) {
        Some((req_len, resp_len)) => {
            if served {
                copy_prefix(&mut service.data, &args.data, req_len);
                forward_call(service, call_id);
                return PollAction::Forward { resp_len };
            }
            clear_prefix(&mut args.data, resp_len);
            put_number(&mut args.data, 0, CUDA_ERROR_SYSTEM_NOT_READY as u64, 4);
        },
        None => {},
    }
    args.lock = 0;
    PollAction::Answered
}

/// The end of a session whose client was taken out reaches the service once,
/// and before any call of the next client: whoever is registered for the engine
/// by then, the first poll tells the service, leaves the call of the new client
/// alone, and settles what was owed. No other engine owes anything for it.
pub proof fn law_owed_stop_comes_first(
    g: GpuView,
    core: int,
    page: u64,
    table: u64,
    ids: CudaCallIds,
    a: CommunicationPage,
    sv: CommunicationPage,
    g1: GpuView,
    a1: CommunicationPage,
    sv1: CommunicationPage,
    r: PollAction,
)
    requires
        g.engine_pages.len() == 64,
        g.engine_owes_stop.len() == 64,
        g.engaged(core),
        g.service_for(core) != 0,
        ({
            let freed = direct::slot_freed(g, core);
            let next = GpuView {
                engine_pages: freed.engine_pages.update(core, page),
                engine_page_table: freed.engine_page_table.update(core, table),
                ..freed
            };
            polled(next, ids, core, LOOP_CLEAR, a, sv, g1, a1, sv1, r)
        }),
    ensures
        !direct::slot_freed(g, core).engaged(core),
        direct::slot_freed(g, core).owes_stop(core),
        r == PollAction::OwedStop,
        is_call(sv1, STOP_ID, sv.data@),
        a1 == a,
        g1.engaged(core) == (page != 0),
        !g1.owes_stop(core),
        forall|other: int|
            other != core ==> #[trigger] g1.owes_stop(other) == g.owes_stop(other)
                && g1.engaged(other) == g.engaged(other),
{
}

fn clear_prefix(data: &mut [u8; 4088], n: usize)
    requires
        n <= 4088,
    ensures
        final(data)@ == with_bytes(old(data)@, 0, Seq::new(n as nat, |i: int| 0u8)),
{
    let ghost before = data@;
    let mut i: usize = 0;
    while i < n
        invariant
            i <= n <= 4088,
            data@ =~= with_bytes(before, 0, Seq::new(i as nat, |k: int| 0u8)),
        decreases n - i,
    {
        data[i] = 0;
        i = i + 1;
    }
}

/// The engine that a thread of the guest polls when it lends its core: that of
/// the core, where a client is registered.
pub fn run(gpu: &GpuState, apic_id: u32) -> (r: Option<usize>)
    requires
        apic_id < 64,
    ensures
        r == (if gpu@.engaged(apic_id as int) {
            Some(apic_id as usize)
        } else {
            None
        }),
{
    let id = apic_id as usize;
    if !engine_registered(gpu, id) {
        return None;
    }
    Some(id)
}

/// Hands a call to a service. Its request has to be in the data already.
pub fn forward_call(service: &mut CommunicationPage, call_id: u32)
    ensures
        is_call(*final(service), call_id, old(service).data@),
{
    service.id = call_id;
    service.lock = 1;
}

/// The end of a session: the client is answered and taken out.
pub open spec fn session_ended(
    g: GpuView,
    a: CommunicationPage,
    core: int,
    g1: GpuView,
    a1: CommunicationPage,
) -> bool {
    &&& g1 == (GpuView { engine_pages: g.engine_pages.update(core, 0), ..g })
    &&& a1.lock == 0
    &&& a1.id == a.id
    &&& a1.data@ == a.data@
}

/// Ends the session of a client.
pub fn end_session(gpu: &mut GpuState, core: usize, args: &mut CommunicationPage)
    requires
        core < 64,
    ensures
        session_ended(old(gpu)@, *old(args), core as int, final(gpu)@, *final(args)),
        old(gpu)@.wf() ==> final(gpu)@.wf(),
{
    args.lock = 0;
    gpu.engine_pages[core] = 0;
}

/// What is mapped for a process after its service has added to the heap: the
/// machine, the state, and the number of pages that it can use, where that is
/// not all of them.
pub open spec fn heap_grown(s: MachineState, g: GpuView, core: int, granted: nat) -> (
    MachineState,
    GpuView,
    Option<int>,
) {
    let (dir, npages) = g.heap(core);
    let had = g.heap_mapped[core];
    if !g.engine_is_trustlet[core] || dir == 0 || npages <= had {
        (s, g, None)
    } else {
        let (t, mapped) = direct::heap_run(
            s,
            g.engine_page_table[core],
            dir,
            had as nat,
            npages as nat,
            granted,
        );
        let h = GpuView { heap_mapped: g.heap_mapped.update(core, (had + mapped) as u64), ..g };
        (
            t,
            h,
            if had + mapped == npages {
                None
            } else {
                Some(had + mapped)
            },
        )
    }
}

/// Whether a call was completed: `s`, `g` and `a` are the machine, the engines
/// and the page of the client before, `t`, `g1` and `a1` those after, and `sv` is
/// the page of the service.
pub open spec fn call_completed(
    s: MachineState,
    g: GpuView,
    core: int,
    a: CommunicationPage,
    sv: CommunicationPage,
    resp_len: int,
    granted: nat,
    t: MachineState,
    g1: GpuView,
    a1: CommunicationPage,
) -> bool {
    let d = with_prefix(a.data@, sv.data@, resp_len);
    &&& a1.lock == 0
    &&& a1.id == a.id
    &&& if a.id as u64 == HEAP_GROW {
        let (grown, h, usable) = heap_grown(s, g, core, granted);
        &&& t == grown
        &&& g1 == h
        &&& a1.data@ == (match usable {
            None => d,
            Some(pages) => with_bytes(d, 0, le_bytes((pages * 4096) as u64, 8)),
        })
    } else {
        t == s && g1 == g && a1.data@ == d
    }
}

/// Completes a call that the service has answered. Where it has added to the
/// heap, the new pages are mapped for a process before it learns of them; if
/// not all could be, the answer is the size that it can use.
pub fn complete_call(
    gpu: &mut GpuState,
    m: &mut Machine,
    core: usize,
    args: &mut CommunicationPage,
    service: &CommunicationPage,
    resp_len: usize,
    granted: u64,
)
    requires
        core < 64,
        resp_len <= 4088,
        old(gpu)@.wf(),
    ensures
        final(gpu)@.wf(),
        call_completed(
            old(m)@,
            old(gpu)@,
            core as int,
            *old(args),
            *service,
            resp_len as int,
            granted as nat,
            final(m)@,
            final(gpu)@,
            *final(args),
        ),
{
    copy_prefix(&mut args.data, &service.data, resp_len);
    if args.id as u64 == HEAP_GROW && gpu.engine_is_trustlet[core] {
        let (dir, npages) = heap_for(gpu, core);
        let had = gpu.heap_mapped[core];
        if dir != 0 && npages > had {
            let cr3 = gpu.engine_page_table[core];
            let mapped = map_heap_range(m, cr3, dir, had, npages, granted);
            gpu.heap_mapped[core] = had + mapped;
            if had + mapped != npages {
                put_number(&mut args.data, 0, (had + mapped) * 4096, 8);
            }
        }
    }
    assert(gpu@.window_npages =~= old(gpu)@.window_npages);
    assert(gpu@.heap_npages =~= old(gpu)@.heap_npages);
    assert(gpu@.wf());
    args.lock = 0;
}

/// Answers a call with an error.
pub fn answer_error(args: &mut CommunicationPage, err: u32)
    ensures
        final(args).lock == 0,
        final(args).id == old(args).id,
        final(args).data@ == with_bytes(old(args).data@, 0, le_bytes(err as u64, 4)),
{
    put_number(&mut args.data, 0, err as u64, 4);
    args.lock = 0;
}

/// A large copy that is carried out piece by piece.
#[derive(Clone, Copy, PartialEq, Eq, Structural, Debug)]
pub struct BulkCopy {
    /// The address in the memory of the client.
    pub host: u64,
    /// The address in the memory of the device.
    pub device: u64,
    pub count: u64,
    pub kind: u32,
    /// The page table of the client.
    pub table: u64,
    /// Bytes that were copied.
    pub done: u64,
}

/// What a large copy does next.
#[derive(Clone, Copy, PartialEq, Eq, Structural, Debug)]
pub enum BulkStep {
    /// Wait for the service, then take its answer.
    Forward,
    /// The copy has ended with this error; 0 is none.
    Finish(u32),
}

/// The large copy that a call asks for, or the error that it ends in at once.
pub open spec fn bulk_request(g: GpuView, core: int, d: Seq<u8>) -> Result<BulkCopy, u32> {
    let dst = le64(d, 0);
    let src = le64(d, 8);
    let kind = le32(d, 24);
    if g.service_for(core) == 0 {
        Err(CUDA_ERROR_SYSTEM_NOT_READY)
    } else if g.engine_page_table[core] == 0 {
        Err(CUDA_ERROR_INVALID_VALUE)
    } else if kind != MEMCPY_HOST_TO_DEVICE && kind != MEMCPY_DEVICE_TO_HOST {
        Err(CUDA_ERROR_INVALID_VALUE)
    } else {
        Ok(
            BulkCopy {
                host: if kind == MEMCPY_HOST_TO_DEVICE {
                    src
                } else {
                    dst
                },
                device: if kind == MEMCPY_HOST_TO_DEVICE {
                    dst
                } else {
                    src
                },
                count: le64(d, 16),
                kind,
                table: g.engine_page_table[core],
                done: 0,
            },
        )
    }
}

/// Takes a call for a large copy.
pub fn bulk_memcpy(gpu: &GpuState, core: usize, args: &CommunicationPage) -> (r: Result<
    BulkCopy,
    u32,
>)
    requires
        core < 64,
    ensures
        r == bulk_request(gpu@, core as int, args.data@),
{
    let dst = get_u64(&args.data, 0);
    let src = get_u64(&args.data, 8);
    let count = get_u64(&args.data, 16);
    let kind = get_u32(&args.data, 24);
    if service_page_for(gpu, core) == 0 {
        return Err(CUDA_ERROR_SYSTEM_NOT_READY);
    }
    let table = gpu.engine_page_table[core];
    if table == 0 {
        return Err(CUDA_ERROR_INVALID_VALUE);
    }
    if kind != MEMCPY_HOST_TO_DEVICE && kind != MEMCPY_DEVICE_TO_HOST {
        return Err(CUDA_ERROR_INVALID_VALUE);
    }
    let (host, device) = if kind == MEMCPY_HOST_TO_DEVICE {
        (src, dst)
    } else {
        (dst, src)
    };
    Ok(BulkCopy { host, device, count, kind, table, done: 0 })
}

/// The byte that a client has at an address; none where it has no memory
/// there.
pub open spec fn client_byte(s: MachineState, table: u64, va: u64) -> Option<u8> {
    let frame = walk::frame_below(s, table, va, 3);
    if frame == 0 {
        None
    } else {
        Some(machine::byte_at(s.mem, frame + va % 4096))
    }
}

/// The frame of the page at `va`, where `before` is that of the page of the
/// address before, if it is not the first one.
fn frame_at(m: &Machine, pages: &ProcessPageTableRef, va: u64, first: bool, before: u64) -> (r: u64)
    requires
        !first && va % 4096 != 0 ==> before == walk::frame_below(
            m@,
            pages.process_page_table,
            (va - 1) as u64,
            3,
        ),
    ensures
        r == walk::frame_below(m@, pages.process_page_table, va, 3),
        r <= 0x10_0000_0000_0000,
{
    proof {
        walk::lemma_frame_bound(m@, pages.process_page_table, va, 3);
        if !first && va % 4096 != 0 {
            let last = (va - 1) as u64;
            walk::lemma_frame_of_page(m@, pages.process_page_table, last, va, 3);
        }
    }
    if first || va % 4096 == 0 {
        pages.get_page_4k_hugeaware(m, va)
    } else {
        before
    }
}

impl BulkCopy {
    /// Bytes of the next piece.
    pub open spec fn piece(self) -> int {
        if self.count - self.done <= 4056 {
            self.count - self.done
        } else {
            4056
        }
    }

    /// The address of the next piece in the memory of the client.
    pub open spec fn host_addr(self) -> u64 {
        address::addr_add(self.host, self.done as int)
    }

    /// The address of the next piece in the memory of the device.
    pub open spec fn device_addr(self) -> u64 {
        address::addr_add(self.device, self.done as int)
    }

    /// The head of the message for the next piece: destination, source, size
    /// and direction.
    pub open spec fn head(self, d: Seq<u8>) -> Seq<u8> {
        let (to, from) = if self.kind == MEMCPY_HOST_TO_DEVICE {
            (self.device_addr(), self.host_addr())
        } else {
            (self.host_addr(), self.device_addr())
        };
        with_bytes(
            with_bytes(
                with_bytes(with_bytes(d, 0, le_bytes(to, 8)), 8, le_bytes(from, 8)),
                16,
                le_bytes(self.piece() as u64, 8),
            ),
            24,
            le_bytes(self.kind as u64, 4),
        )
    }

    /// Whether data got the head of the message for the next piece.
    pub open spec fn has_head(self, before: Seq<u8>, after: Seq<u8>) -> bool {
        after == self.head(before)
    }

    /// Whether the client has memory for the first `n` bytes of the next
    /// piece.
    pub open spec fn has_memory(self, s: MachineState, n: int) -> bool {
        forall|i: int|
            0 <= i < n ==> client_byte(
                s,
                self.table,
                #[trigger] address::addr_add(self.host_addr(), i),
            ) is Some
    }

    /// The first `n` bytes of the client that the next piece is made of.
    pub open spec fn payload(self, s: MachineState, n: int) -> Seq<u8> {
        Seq::new(
            n as nat,
            |i: int| client_byte(s, self.table, address::addr_add(self.host_addr(), i))->0,
        )
    }

    /// The head of the message for the next piece, and for a copy to the device
    /// the first `n` bytes of the client.
    #[verifier::opaque]
    spec fn gathered(self, s: MachineState, d: Seq<u8>, n: int) -> Seq<u8> {
        if self.kind == MEMCPY_HOST_TO_DEVICE {
            with_bytes(self.head(d), 32, self.payload(s, n))
        } else {
            self.head(d)
        }
    }

    /// The data of the message for the next piece: the head, and for a copy to
    /// the device the bytes of the client.
    pub open spec fn message(self, s: MachineState, d: Seq<u8>) -> Seq<u8> {
        if self.kind == MEMCPY_HOST_TO_DEVICE {
            with_bytes(self.head(d), 32, self.payload(s, self.piece()))
        } else {
            self.head(d)
        }
    }

    proof fn lemma_message(self, s: MachineState, d: Seq<u8>)
        ensures
            self.gathered(s, d, self.piece()) == self.message(s, d),
    {
        reveal(BulkCopy::gathered);
    }

    proof fn lemma_gathers(self, s: MachineState, d: Seq<u8>, n: int)
        requires
            0 <= n < 4056,
            d.len() == 4088,
        ensures
            self.gathered(s, d, n + 1) == (if self.kind == MEMCPY_HOST_TO_DEVICE {
                self.gathered(s, d, n).update(
                    32 + n,
                    client_byte(s, self.table, address::addr_add(self.host_addr(), n))->0,
                )
            } else {
                self.gathered(s, d, n)
            }),
            self.gathered(s, d, n).len() == 4088,
            self.gathered(s, d, 0) == self.head(d),
    {
        reveal(BulkCopy::gathered);
        assert(self.head(d).len() == 4088);
        assert(self.gathered(s, d, 0) =~= self.head(d));
        if self.kind == MEMCPY_HOST_TO_DEVICE {
            assert(self.gathered(s, d, n + 1) =~= self.gathered(s, d, n).update(
                32 + n,
                client_byte(s, self.table, address::addr_add(self.host_addr(), n))->0,
            ));
        }
    }

    fn next_piece(&self) -> (r: usize)
        requires
            self.done <= self.count,
        ensures
            r == self.piece(),
    {
        let left = self.count - self.done;
        if left <= 4056 {
            left as usize
        } else {
            4056
        }
    }

    fn write_head(&self, data: &mut [u8; 4088])
        requires
            self.done <= self.count,
        ensures
            self.has_head(old(data)@, final(data)@),
    {
        let chunk = self.next_piece();
        let dev_addr = self.device.wrapping_add(self.done);
        let host_addr = self.host.wrapping_add(self.done);
        if self.kind == MEMCPY_HOST_TO_DEVICE {
            put_number(data, 0, dev_addr, 8);
            put_number(data, 8, host_addr, 8);
        } else {
            put_number(data, 0, host_addr, 8);
            put_number(data, 8, dev_addr, 8);
        }
        put_number(data, 16, chunk as u64, 8);
        put_number(data, 24, self.kind as u64, 4);
    }

    /// Makes the message for the next piece, or ends the copy: when all is
    /// copied, or when the client has no memory for the piece.
    #[verifier::rlimit(40)]
    pub fn send(&self, m: &Machine, service: &mut CommunicationPage) -> (r: BulkStep)
        requires
            self.done <= self.count,
        ensures
            if self.done == self.count {
                r == BulkStep::Finish(0) && *final(service) == *old(service)
            } else if self.has_memory(m@, self.piece()) {
                r == BulkStep::Forward && is_call(
                    *final(service),
                    MEMCPY_ID,
                    self.message(m@, old(service).data@),
                )
            } else {
                r == BulkStep::Finish(CUDA_ERROR_INVALID_VALUE)
            },
    {
        if self.done == self.count {
            return BulkStep::Finish(0);
        }
        let chunk = self.next_piece();
        let host_addr = self.host.wrapping_add(self.done);
        let ghost d = service.data@;
        self.write_head(&mut service.data);
        let table = ProcessPageTableRef::external(self.table);
        proof {
            self.lemma_gathers(m@, d, 0);
        }
        let mut frame: u64 = 0;
        let mut filled: usize = 0;
        while filled < chunk
            invariant
                filled <= chunk <= 4056,
                chunk == self.piece(),
                host_addr == self.host_addr(),
                table.process_page_table == self.table,
                self.has_memory(m@, filled as int),
                filled > 0 ==> frame != 0 && frame == walk::frame_below(
                    m@,
                    self.table,
                    address::addr_add(self.host_addr(), filled - 1),
                    3,
                ),
                d.len() == 4088,
                service.data@ == self.gathered(m@, d, filled as int),
            decreases chunk - filled,
        {
            proof {
                self.lemma_gathers(m@, d, filled as int);
            }
            let va = host_addr.wrapping_add(filled as u64);
            assert(va == address::addr_add(self.host_addr(), filled as int));
            proof {
                if filled > 0 && va % 4096 != 0 {
                    assert(address::addr_add(self.host_addr(), filled - 1) == va - 1);
                }
            }
            frame = frame_at(m, &table, va, filled == 0, frame);
            if frame == 0 {
                assert(client_byte(
                    m@,
                    self.table,
                    address::addr_add(self.host_addr(), filled as int),
                ) is None);
                assert(!self.has_memory(m@, self.piece()));
                return BulkStep::Finish(CUDA_ERROR_INVALID_VALUE);
            }
            if self.kind == MEMCPY_HOST_TO_DEVICE {
                service.data[MEMCPY_HDR + filled] = m.read_byte(frame + va % 4096);
            }
            filled = filled + 1;
        }
        proof {
            self.lemma_message(m@, d);
        }
        forward_call(service, MEMCPY_ID);
        BulkStep::Forward
    }

    /// Takes the answer of the service to a piece. Gives the error that the
    /// copy ends in, if any: that of the service, or that the client has no
    /// memory for what was copied from the device.
    pub fn receive(&mut self, m: &mut Machine, service: &CommunicationPage) -> (r: Option<u32>)
        requires
            old(self).done < old(self).count,
        ensures
            ({
                let err = le32(service.data@, 0);
                let next = BulkCopy { done: (old(self).done + old(self).piece()) as u64, ..*old(self) };
                if err != 0 {
                    r == Some(err) && final(m)@ == old(m)@ && *final(self) == *old(self)
                } else if old(self).kind == MEMCPY_DEVICE_TO_HOST {
                    let (t, ok) = scattered(
                        old(m)@,
                        old(self).table,
                        old(self).host_addr(),
                        service.data@.subrange(32, 32 + old(self).piece()),
                        0,
                        0,
                    );
                    &&& final(m)@ == t
                    &&& if ok {
                        r is None && *final(self) == next
                    } else {
                        r == Some(CUDA_ERROR_INVALID_VALUE) && *final(self) == *old(self)
                    }
                } else {
                    r is None && final(m)@ == old(m)@ && *final(self) == next
                }
            }),
            final(self).done <= final(self).count,
            r is None ==> final(self).done > old(self).done,
    {
        let err = get_u32(&service.data, 0);
        if err != 0 {
            return Some(err);
        }
        let chunk = self.next_piece();
        if self.kind == MEMCPY_DEVICE_TO_HOST {
            let host_addr = self.host.wrapping_add(self.done);
            if !scatter(m, self.table, host_addr, &service.data, chunk) {
                return Some(CUDA_ERROR_INVALID_VALUE);
            }
        }
        self.done = self.done + chunk as u64;
        None
    }
}

/// The frame for the byte at `va`: the client's table is walked for the first
/// byte and where a page begins; else it is the frame of the byte before.
pub open spec fn next_frame(s: MachineState, table: u64, va: u64, first: bool, frame: u64) -> u64 {
    if first || va % 4096 == 0 {
        walk::frame_below(s, table, va, 3)
    } else {
        frame
    }
}

/// The machine after bytes were written to the memory of a client from byte
/// `i` on, and whether it had memory for all of them; `frame` is that of the
/// byte before. The bytes up to the first page that it has no memory for are
/// written.
pub open spec fn scattered(
    s: MachineState,
    table: u64,
    host: u64,
    bytes: Seq<u8>,
    i: nat,
    frame: u64,
) -> (MachineState, bool)
    decreases bytes.len() - i,
{
    if i >= bytes.len() {
        (s, true)
    } else {
        let va = address::addr_add(host, i as int);
        let own = next_frame(s, table, va, i == 0, frame);
        if own == 0 {
            (s, false)
        } else {
            scattered(
                MachineState {
                    mem: machine::store_byte(s.mem, own + va % 4096, bytes[i as int]),
                    ..s
                },
                table,
                host,
                bytes,
                i + 1,
                own,
            )
        }
    }
}

fn scatter(m: &mut Machine, table: u64, host: u64, data: &[u8; 4088], n: usize) -> (r: bool)
    requires
        n <= 4056,
    ensures
        (final(m)@, r) == scattered(
            old(m)@,
            table,
            host,
            data@.subrange(32, 32 + n as int),
            0,
            0,
        ),
{
    let ghost bytes = data@.subrange(32, 32 + n as int);
    let ghost all = scattered(m@, table, host, bytes, 0, 0);
    let pages = ProcessPageTableRef::external(table);
    let mut frame: u64 = 0;
    let mut i: usize = 0;
    while i < n
        invariant
            i <= n <= 4056,
            bytes == data@.subrange(32, 32 + n as int),
            pages.process_page_table == table,
            all == scattered(old(m)@, table, host, bytes, 0, 0),
            scattered(m@, table, host, bytes, i as nat, frame) == all,
            frame <= 0x10_0000_0000_0000,
            i > 0 ==> frame != 0,
        decreases n - i,
    {
        let va = host.wrapping_add(i as u64);
        assert(va == address::addr_add(host, i as int));
        if i == 0 || va % 4096 == 0 {
            frame = pages.get_page_4k_hugeaware(m, va);
            proof {
                walk::lemma_frame_bound(m@, table, va, 3);
            }
            if frame == 0 {
                return false;
            }
        }
        m.write_byte(frame + va % 4096, data[MEMCPY_HDR + i]);
        i = i + 1;
    }
    true
}

/// The pieces of a large copy cover it from its start to its end: each starts
/// where the last one ended and holds at least a byte, and the last one ends
/// where the copy ends.
pub proof fn law_pieces_cover_the_copy(c: BulkCopy)
    requires
        c.done < c.count,
    ensures
        0 < c.piece() <= MEMCPY_MAX_PAYLOAD,
        c.done + c.piece() <= c.count,
        c.piece() < MEMCPY_MAX_PAYLOAD ==> c.done + c.piece() == c.count,
{
}

} // verus!
