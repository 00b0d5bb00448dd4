//! What of a call travels between a client and a service.
use vstd::prelude::*;
use crate::address;
use crate::exclusive::LOOP_CLEAR;
use crate::gpu::direct;
use crate::gpu::direct::{GpuView, GPU_HEAP_VADDR, SHARED_PAGE_FLAGS};
use crate::gpu::relay;
use crate::gpu::relay::{
    CommunicationPage, CudaCallIds, PollAction, BULK_MEMCPY, CUDA_ERROR_SYSTEM_NOT_READY, HEAP_GROW,
    HEAP_MEMCPY, MEMCPY_DEVICE_TO_HOST, MEMCPY_HOST_TO_DEVICE, STOP_ID, WINDOW_MEMCPY,
};
use crate::memory::machine;
use crate::memory::machine::MachineState;
use crate::process_manager::process_paging::mapping;

verus! {

/// The numbers of the calls of the runtime.
pub open spec fn numbers(ids: CudaCallIds) -> Seq<u64> {
    seq![
        ids.get_device_count,
        ids.malloc,
        ids.free,
        ids.device_synchronize,
        ids.launch_kernel,
        ids.get_device_properties,
        ids.mem_get_info,
        ids.memset,
        ids.func_set_attribute,
        ids.occupancy_max_active_blocks,
        ids.stream_create_with_flags,
        ids.stream_destroy,
        ids.stream_synchronize,
        ids.stream_begin_capture,
        ids.stream_end_capture,
        ids.graph_instantiate,
        ids.graph_exec_update,
        ids.graph_launch,
        ids.graph_destroy,
        ids.graph_exec_destroy,
        ids.memcpy,
    ]
}

/// Whether a number is one of those that are set aside for calls that are not of
/// the runtime.
pub open spec fn set_aside(id: u64) -> bool {
    500 <= id <= 504 || 600 <= id <= 604 || 700 <= id <= 703
}

/// Whether the calls of the runtime have numbers of their own.
pub open spec fn told_apart(ids: CudaCallIds) -> bool {
    &&& forall|i: int, j: int|
        0 <= i < j < 21 ==> #[trigger] numbers(ids)[i] != #[trigger] numbers(ids)[j]
    &&& forall|i: int| 0 <= i < 21 ==> !set_aside(#[trigger] numbers(ids)[i])
}

/// Whether the first `n` bytes of data are those of other data, and all others
/// are as they were.
pub open spec fn carried(from: Seq<u8>, before: Seq<u8>, after: Seq<u8>, n: int) -> bool {
    &&& after.len() == before.len()
    &&& forall|i: int| 0 <= i < n ==> #[trigger] after[i] == from[i]
    &&& forall|i: int| n <= i < before.len() ==> #[trigger] after[i] == before[i]
}

/// Whether a call was handed to the service with a request of `req` bytes, and
/// waits for an answer of `resp` bytes. The client does not see anything of it
/// yet.
pub open spec fn handed_on(
    a: CommunicationPage,
    sv: CommunicationPage,
    a1: CommunicationPage,
    sv1: CommunicationPage,
    r: PollAction,
    req: nat,
    resp: nat,
) -> bool {
    &&& r is Forward
    &&& r->resp_len == resp
    &&& a1 == a
    &&& sv1.id == a.id
    &&& sv1.lock == 1
    &&& carried(a.data@, sv.data@, sv1.data@, req as int)
}

/// Whether an engine is one whose client has made a call that a service can
/// carry out.
pub open spec fn calls(g: GpuView, core: int, a: CommunicationPage) -> bool {
    &&& g.engaged(core)
    &&& !g.owes_stop(core)
    &&& g.service_for(core) != 0
    &&& a.lock != 0
}

proof fn lemma_apart(ids: CudaCallIds)
    requires
        told_apart(ids),
    ensures
        forall|i: int, j: int|
            0 <= i < 21 && 0 <= j < 21 && i != j ==> #[trigger] numbers(ids)[i]
                != #[trigger] numbers(ids)[j],
        numbers(ids)[0] == ids.get_device_count,
        numbers(ids)[1] == ids.malloc,
        numbers(ids)[2] == ids.free,
        numbers(ids)[3] == ids.device_synchronize,
        numbers(ids)[4] == ids.launch_kernel,
        numbers(ids)[5] == ids.get_device_properties,
        numbers(ids)[6] == ids.mem_get_info,
        numbers(ids)[7] == ids.memset,
        numbers(ids)[8] == ids.func_set_attribute,
        numbers(ids)[9] == ids.occupancy_max_active_blocks,
        numbers(ids)[10] == ids.stream_create_with_flags,
        numbers(ids)[11] == ids.stream_destroy,
        numbers(ids)[12] == ids.stream_synchronize,
        numbers(ids)[13] == ids.stream_begin_capture,
        numbers(ids)[14] == ids.stream_end_capture,
        numbers(ids)[15] == ids.graph_instantiate,
        numbers(ids)[16] == ids.graph_exec_update,
        numbers(ids)[17] == ids.graph_launch,
        numbers(ids)[18] == ids.graph_destroy,
        numbers(ids)[19] == ids.graph_exec_destroy,
        numbers(ids)[20] == ids.memcpy,
{
}

/// What a call of the runtime needs reaches the service, and no more: all fields
/// of its request, one behind the other. So many bytes come back as its answer
/// has. Each number below is the width of a field.
pub proof fn law_runtime_calls_reach_the_service(
    g: GpuView,
    ids: CudaCallIds,
    core: int,
    a: CommunicationPage,
    sv: CommunicationPage,
    g1: GpuView,
    a1: CommunicationPage,
    sv1: CommunicationPage,
    r: PollAction,
)
    requires
        told_apart(ids),
        calls(g, core, a),
        relay::polled(g, ids, core, LOOP_CLEAR, a, sv, g1, a1, sv1, r),
    ensures
        // Nothing; an error and a count.
        a.id == ids.get_device_count ==> handed_on(a, sv, a1, sv1, r, 0, 4 + 4),
        // A size; an error, a gap and a pointer.
        a.id == ids.malloc ==> handed_on(a, sv, a1, sv1, r, 8, 4 + 4 + 8),
        // A pointer; an error.
        a.id == ids.free ==> handed_on(a, sv, a1, sv1, r, 8, 4),
        // Nothing; an error.
        a.id == ids.device_synchronize ==> handed_on(a, sv, a1, sv1, r, 0, 4),
        // A device; a page of properties.
        a.id == ids.get_device_properties ==> handed_on(a, sv, a1, sv1, r, 4, 4088),
        // Nothing; an error, a gap, what is free and what there is.
        a.id == ids.mem_get_info ==> handed_on(a, sv, a1, sv1, r, 0, 4 + 4 + 8 + 8),
        // A pointer, a count and a value; an error.
        a.id == ids.memset ==> handed_on(a, sv, a1, sv1, r, 8 + 8 + 4, 4),
        // A function, an attribute and its value; an error.
        a.id == ids.func_set_attribute ==> handed_on(a, sv, a1, sv1, r, 8 + 4 + 4, 4),
        // A function, a size of blocks, a gap, shared memory and flags; an error
        // and a number of blocks.
        a.id == ids.occupancy_max_active_blocks ==> handed_on(
            a,
            sv,
            a1,
            sv1,
            r,
            8 + 4 + 4 + 8 + 4,
            4 + 4,
        ),
        // Flags; an error, a gap and a stream.
        a.id == ids.stream_create_with_flags ==> handed_on(a, sv, a1, sv1, r, 4, 4 + 4 + 8),
        // A stream; an error.
        a.id == ids.stream_destroy ==> handed_on(a, sv, a1, sv1, r, 8, 4),
        a.id == ids.stream_synchronize ==> handed_on(a, sv, a1, sv1, r, 8, 4),
        // A stream and a mode; an error.
        a.id == ids.stream_begin_capture ==> handed_on(a, sv, a1, sv1, r, 8 + 4, 4),
        // A stream; an error, a gap and a graph.
        a.id == ids.stream_end_capture ==> handed_on(a, sv, a1, sv1, r, 8, 4 + 4 + 8),
        // A graph; an error, a gap and what can be launched.
        a.id == ids.graph_instantiate ==> handed_on(a, sv, a1, sv1, r, 8, 4 + 4 + 8),
        // What can be launched and a graph; an error and a result.
        a.id == ids.graph_exec_update ==> handed_on(a, sv, a1, sv1, r, 8 + 8, 4 + 4),
        // What can be launched and a stream; an error.
        a.id == ids.graph_launch ==> handed_on(a, sv, a1, sv1, r, 8 + 8, 4),
        // A graph, or what can be launched; an error.
        a.id == ids.graph_destroy ==> handed_on(a, sv, a1, sv1, r, 8, 4),
        a.id == ids.graph_exec_destroy ==> handed_on(a, sv, a1, sv1, r, 8, 4),
{
    lemma_apart(ids);
    assert(forall|i: int| 0 <= i < 21 ==> !set_aside(#[trigger] numbers(ids)[i]));
}

/// What the other calls need reaches the service, and no more: all fields of the
/// request, one behind the other. So many bytes come back as the answer has.
/// Each number below is the width of a field. A call that no service carries out
/// is answered with nothing done.
pub proof fn law_other_calls_reach_the_service(
    g: GpuView,
    ids: CudaCallIds,
    core: int,
    a: CommunicationPage,
    sv: CommunicationPage,
    g1: GpuView,
    a1: CommunicationPage,
    sv1: CommunicationPage,
    r: PollAction,
)
    requires
        told_apart(ids),
        calls(g, core, a),
        relay::polled(g, ids, core, LOOP_CLEAR, a, sv, g1, a1, sv1, r),
    ensures
        // The whole page, both ways.
        501 <= a.id <= 504 ==> handed_on(a, sv, a1, sv1, r, 4088, 4088),
        // Nothing; an error, a gap and a handle.
        a.id == 600 ==> handed_on(a, sv, a1, sv1, r, 0, 4 + 4 + 8),
        // A handle; an error.
        a.id == 601 ==> handed_on(a, sv, a1, sv1, r, 8, 4),
        // A handle and a stream; an error.
        a.id == 602 ==> handed_on(a, sv, a1, sv1, r, 8 + 8, 4),
        // A handle and a mode; an error.
        a.id == 603 ==> handed_on(a, sv, a1, sv1, r, 8 + 4, 4),
        // A product of matrices; an error.
        a.id == 604 ==> handed_on(a, sv, a1, sv1, r, 144, 4),
        // The bytes that are needed; the bytes that there are.
        a.id as u64 == HEAP_GROW ==> handed_on(a, sv, a1, sv1, r, 8, 8),
        // A pointer, a count, a place in the heap and a direction; an error.
        a.id as u64 == HEAP_MEMCPY ==> handed_on(a, sv, a1, sv1, r, 8 + 8 + 8 + 4, 4),
        // A pointer, a count, a place in the window and a direction; an error.
        a.id as u64 == WINDOW_MEMCPY ==> handed_on(a, sv, a1, sv1, r, 8 + 8 + 8 + 4, 4),
        a.id as u64 == BULK_MEMCPY ==> r == PollAction::Bulk && a1 == a && sv1 == sv,
        a.id == STOP_ID ==> r == PollAction::Stop && sv1.id == STOP_ID && sv1.lock == 1 && a1 == a,
        !set_aside(a.id as u64) && !numbers(ids).contains(a.id as u64) ==> {
            &&& r == PollAction::Answered
            &&& sv1 == sv
            &&& a1.lock == 0
            &&& a1.id == a.id
            &&& a1.data@ == a.data@
        },
{
    lemma_apart(ids);
    assert(forall|i: int| 0 <= i < 21 ==> !set_aside(#[trigger] numbers(ids)[i]));
    assert(forall|i: int|
        0 <= i < 21 ==> numbers(ids).contains(#[trigger] numbers(ids)[i]));
}

/// A kernel is launched with all of its arguments, as far as they have room: they
/// follow a head of 56 bytes, which says how long they are. A copy of memory
/// takes its bytes along to the device, or back from it, behind a head of 32
/// bytes, as far as they have room.
pub proof fn law_launches_and_copies_are_whole(
    g: GpuView,
    ids: CudaCallIds,
    core: int,
    a: CommunicationPage,
    sv: CommunicationPage,
    g1: GpuView,
    a1: CommunicationPage,
    sv1: CommunicationPage,
    r: PollAction,
)
    requires
        told_apart(ids),
        calls(g, core, a),
        relay::polled(g, ids, core, LOOP_CLEAR, a, sv, g1, a1, sv1, r),
    ensures
        a.id == ids.launch_kernel ==> {
            let args = relay::le32(a.data@, 48) as nat;
            handed_on(
                a,
                sv,
                a1,
                sv1,
                r,
                if 56 + args <= 4088 {
                    56 + args
                } else {
                    4088
                },
                4,
            )
        },
        a.id == ids.memcpy ==> {
            let count = relay::le64(a.data@, 16) as nat;
            let kind = relay::le32(a.data@, 24);
            let whole = if 32 + count <= 4088 {
                32 + count
            } else {
                4088
            };
            &&& kind == MEMCPY_HOST_TO_DEVICE ==> handed_on(a, sv, a1, sv1, r, whole, 4)
            &&& kind == MEMCPY_DEVICE_TO_HOST ==> handed_on(a, sv, a1, sv1, r, 32, whole)
            &&& kind != MEMCPY_HOST_TO_DEVICE && kind != MEMCPY_DEVICE_TO_HOST ==> handed_on(
                a,
                sv,
                a1,
                sv1,
                r,
                32,
                4,
            )
        },
{
    lemma_apart(ids);
    assert(forall|i: int| 0 <= i < 21 ==> !set_aside(#[trigger] numbers(ids)[i]));
}

/// The answer of the service reaches the client: as many bytes as the answer has,
/// and no more. The client is free to go on. Only where more heap was asked for
/// and not all of it could be had is the answer the size that can be used.
pub proof fn law_answers_reach_the_client(
    s: MachineState,
    g: GpuView,
    core: int,
    a: CommunicationPage,
    sv: CommunicationPage,
    resp_len: int,
    granted: nat,
    t: MachineState,
    g1: GpuView,
    a1: CommunicationPage,
)
    requires
        0 <= resp_len <= 4088,
        0 <= core < 64,
        g.wf(),
        g.heap_mapped.len() == 64,
        g.heap_npages.len() == 64,
        relay::call_completed(s, g, core, a, sv, resp_len, granted, t, g1, a1),
    ensures
        a1.lock == 0,
        a1.id == a.id,
        a.id as u64 != HEAP_GROW ==> carried(sv.data@, a.data@, a1.data@, resp_len) && t == s && g1
            == g,
        a.id as u64 == HEAP_GROW && !g.engine_is_trustlet[core] ==> carried(
            sv.data@,
            a.data@,
            a1.data@,
            resp_len,
        ) && t == s && g1 == g,
        a.id as u64 == HEAP_GROW && g.engine_is_trustlet[core] && g.heap(core).0 != 0
            && g.heap_mapped[core] < g.heap(core).1 ==> if g1.heap_mapped[core] == g.heap(core).1 {
            carried(sv.data@, a.data@, a1.data@, resp_len)
        } else {
            &&& g.heap_mapped[core] <= g1.heap_mapped[core] < g.heap(core).1
            &&& relay::le64(a1.data@, 0) == g1.heap_mapped[core] * 4096
            &&& forall|i: int| 8 <= i < 4088 ==> #[trigger] a1.data@[i] == (if i < resp_len {
                sv.data@[i]
            } else {
                a.data@[i]
            })
        },
{
    if a.id as u64 == HEAP_GROW && g.engine_is_trustlet[core] && g.heap(core).0 != 0
        && g.heap_mapped[core] < g.heap(core).1 {
        let had = g.heap_mapped[core] as nat;
        let npages = g.heap(core).1 as nat;
        let mapped = direct::heap_run(
            s,
            g.engine_page_table[core],
            g.heap(core).0,
            had,
            npages,
            granted,
        ).1;
        lemma_run_bound(s, g.engine_page_table[core], g.heap(core).0, had, npages, granted);
        assert(npages <= 0x4_0000);
        let bytes = ((had + mapped) * 4096) as u64;
        assert(g1.heap_mapped[core] == had + mapped);
        if had + mapped != npages {
            lemma_number(relay::with_prefix(a.data@, sv.data@, resp_len), bytes);
        }
    }
}

proof fn lemma_run_bound(s: MachineState, root: u64, dir: u64, idx: nat, to: nat, granted: nat)
    requires
        idx <= to,
    ensures
        direct::heap_run(s, root, dir, idx, to, granted).1 <= to - idx,
    decreases to - idx,
{
    let page = direct::heap_entry(s, dir, idx as int);
    if !(idx >= to || page == 0 || granted == 0) {
        let t = mapping::map_page(
            s,
            root,
            address::page_above(GPU_HEAP_VADDR, idx as int),
            page,
            SHARED_PAGE_FLAGS,
        );
        lemma_run_bound(t, root, dir, idx + 1, to, (granted - 1) as nat);
    }
}

/// A number that was put into data is read back.
pub proof fn lemma_number(d: Seq<u8>, w: u64)
    requires
        d.len() >= 8,
    ensures
        relay::le64(relay::with_bytes(d, 0, relay::le_bytes(w, 8)), 0) == w,
{
    let e = relay::with_bytes(d, 0, relay::le_bytes(w, 8));
    let b = e.subrange(0, 8);
    machine::law_bytes_make_word(w);
    assert(b =~= relay::le_bytes(w, 8));
}

/// Without a service a call fails: the client is told so in the first bytes of
/// the answer, and the rest of the answer is clear.
pub proof fn law_calls_fail_without_a_service(
    g: GpuView,
    ids: CudaCallIds,
    core: int,
    a: CommunicationPage,
    sv: CommunicationPage,
    g1: GpuView,
    a1: CommunicationPage,
    sv1: CommunicationPage,
    r: PollAction,
)
    requires
        told_apart(ids),
        g.engaged(core),
        !g.owes_stop(core),
        g.service_for(core) == 0,
        a.lock != 0,
        a.id == ids.malloc || a.id == ids.free || a.id == ids.memset || a.id == ids.launch_kernel
            || a.id as u64 == WINDOW_MEMCPY || a.id as u64 == HEAP_MEMCPY,
        relay::polled(g, ids, core, LOOP_CLEAR, a, sv, g1, a1, sv1, r),
    ensures
        r == PollAction::Answered,
        sv1 == sv,
        g1 == g,
        a1.lock == 0,
        a1.id == a.id,
        relay::le32(a1.data@, 0) == CUDA_ERROR_SYSTEM_NOT_READY,
        a.id == ids.malloc ==> forall|i: int| 4 <= i < 16 ==> #[trigger] a1.data@[i] == 0,
        forall|i: int| 16 <= i < 4088 ==> #[trigger] a1.data@[i] == a.data@[i],
{
    lemma_apart(ids);
    assert(forall|i: int| 0 <= i < 21 ==> !set_aside(#[trigger] numbers(ids)[i]));
}

} // verus!
