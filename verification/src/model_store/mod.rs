//! What the guest stores with the monitor for its processes: models, adapters
//! and engines.
use vstd::prelude::*;
use crate::address;
use crate::address::status_to_word;
use crate::crypto;
use crate::crypto::measure;
use crate::error::MonitorError;
use crate::memory::machine::{Machine, MachineState};
use crate::process_manager::allocation;
use crate::process_manager::allocation::{AllocationRange, ALLOCATION_RANGE_VIRT_START};
use crate::process_manager::process_memory::pages_available;
use crate::process_manager::process_paging::walk;
use crate::sev::utils::{VMPL2_READ, VMPL2_RWX};
use crate::RequestParams;

pub mod engine;
pub mod lora;
pub mod model;
pub mod showing;
pub mod store;
pub mod stream;

use store::{Store, StoreEntry, StoreTrait};
use stream::{Stream, INITIAL_PAGES};

verus! {

/// The slot of the guest's root table in which a load appears.
pub const GUEST_LOAD_SLOT: u64 = 1;

/// Whether a store can be used: its places can be told apart by a register.
pub open spec fn store_wf(s: Seq<StoreEntry>) -> bool {
    s.len() <= i64::MAX
}

/// The entry of a request that names its place; none where there is no such
/// place or it is empty.
pub open spec fn entry_at(s: Seq<StoreEntry>, id: u64) -> Option<StoreEntry> {
    if id < s.len() && !s[id as int].state {
        Some(s[id as int])
    } else {
        None
    }
}

/// The machine, the load and the range after a load of `size` bytes was
/// started for the guest with root table `guest_pgd`. No range is made for an
/// empty load, nor for one that the pool does not hold.
pub open spec fn load_started(
    s: MachineState,
    st: Stream,
    size: u64,
    guest_pgd: u64,
    now: u64,
) -> (MachineState, Stream, AllocationRange) {
    let pages = stream::pages_for(size);
    if size == 0 || pages + 1 >= s.pool.available_word() {
        (s, st, AllocationRange(0, 0))
    } else {
        let initial = stream::least(pages, INITIAL_PAGES as int) as u64;
        let (t, range) = allocation::range_for_guest(s, initial);
        let u = allocation::pages_asked(
            allocation::asked(t, allocation::range_table_ops(t, range, VMPL2_RWX)),
            0,
            range.1 as nat,
            VMPL2_RWX,
        );
        (
            allocation::mount_entry(u.wr(guest_pgd, 1, range.0), 0),
            st.begun(range, size, now),
            range,
        )
    }
}

/// The entry of a load that was started.
pub open spec fn loading(range: AllocationRange, size: u64) -> StoreEntry {
    StoreEntry {
        measurement: vstd::array::spec_array_fill_for_copy_type::<u8, 64>(0),
        data: range,
        real_size: size,
        state: false,
    }
}

/// What a request to start a load changes, and its answer: the place of the
/// entry, or -1.
pub open spec fn load_requested(
    s: MachineState,
    st: Stream,
    entries: Seq<StoreEntry>,
    size: u64,
    guest_pgd: u64,
    now: u64,
) -> (MachineState, Stream, Seq<StoreEntry>, u64) {
    let (t, begun, range) = load_started(s, st, size, guest_pgd, now);
    (
        t,
        begun,
        store::inserted(entries, loading(range, size)),
        address::status_word(store::place(store::first_vacant(entries, 0), entries.len())),
    )
}

/// The entry of a load whose bytes are complete: it has the pages that the
/// load has grown to.
pub open spec fn complete(e: StoreEntry, st: Stream) -> StoreEntry {
    if st.active && st.range_pages > e.data.1 {
        StoreEntry { data: AllocationRange(e.data.0, st.range_pages), ..e }
    } else {
        e
    }
}

/// The machine after the guest lost the permission to write to a load that is
/// to be measured; it is left mounted.
pub open spec fn load_sealed(s: MachineState, e: StoreEntry, guest_pgd: u64) -> MachineState {
    allocation::pages_asked(
        allocation::mount_entry(s, e.data.0),
        0,
        e.data.1 as nat,
        VMPL2_READ,
    ).wr(guest_pgd, 1, 0)
}

/// The measurement of a mounted load: the digest that was computed along the
/// way, else that of its bytes.
pub open spec fn load_digest(s: MachineState, st: Stream, e: StoreEntry) -> Seq<u8> {
    if st.active && st.done {
        st.digest@
    } else {
        crypto::measured(s, ALLOCATION_RANGE_VIRT_START, e.real_size as nat)
    }
}

/// What is shown to the guest and taken out of its sight again leaves the slot
/// of its root table empty, and the rest of memory as it was.
pub proof fn law_shown_then_unshown(
    s: MachineState,
    entries: Seq<StoreEntry>,
    params: RequestParams,
)
    requires
        entry_at(entries, params.rcx) is Some,
        params.r8 < 512,
    ensures
        ({
            let (t, _) = shown(s, entries, params);
            let (u, _) = unshown(t, entries, params);
            u == s.wr(params.rdx, params.r8 as int, 0)
        }),
{
    let (t, _) = shown(s, entries, params);
    let (u, _) = unshown(t, entries, params);
    assert(u.mem =~= s.wr(params.rdx, params.r8 as int, 0).mem);
}

/// A load that was ended can be found by the digest of its bytes: that is what
/// its entry is stored with.
pub proof fn law_ended_load_is_stored(
    s: MachineState,
    st: Stream,
    entries: Seq<StoreEntry>,
    params: RequestParams,
    t: MachineState,
    st_after: Stream,
    after: Seq<StoreEntry>,
    answer: RequestParams,
)
    requires
        load_ended(s, st, entries, params, t, st_after, after, answer, LoadStep::Done),
        entry_at(entries, params.rcx) is Some,
    ensures
        ({
            let e = complete(entry_at(entries, params.rcx)->0, st);
            let digest = load_digest(load_sealed(s, e, params.rdx), st, e);
            &&& entry_at(after, params.rcx) is Some
            &&& after[params.rcx as int].measures(digest)
            &&& after[params.rcx as int].data == e.data
            &&& answer.rcx == 0
        }),
{
}

/// The measurement of a load is that of its bytes, whether it was computed along
/// the way or at the end: where what was hashed is still there, it is the digest
/// of what is there.
pub proof fn law_measurement_is_that_of_the_bytes(
    s: MachineState,
    st: Stream,
    bytes: Seq<u8>,
    e: StoreEntry,
)
    requires
        st.wf(),
        st.follows(bytes),
        st.active && st.done ==> e.real_size == st.total && bytes == walk::mounted_bytes(
            s,
            ALLOCATION_RANGE_VIRT_START,
            st.hashed as nat,
        ),
    ensures
        load_digest(s, st, e) == crypto::measured(
            s,
            ALLOCATION_RANGE_VIRT_START,
            e.real_size as nat,
        ),
{
}

/// What a load changes keeps the load well formed.
pub(crate) proof fn lemma_loads_stay_wf(
    s: MachineState,
    st: Stream,
    bytes: Seq<u8>,
    entries: Seq<StoreEntry>,
    params: RequestParams,
    now: u64,
)
    requires
        st.wf(),
        st.follows(bytes),
    ensures
        ({
            let begun = load_requested(s, st, entries, params.rcx, params.rdx, now).1;
            begun.wf() && begun.follows(bytes)
        }),
        forall|t: MachineState,
            after: Stream,
            kept: Seq<StoreEntry>,
            answer: RequestParams,
            step: LoadStep| #[trigger]
            load_ended(s, st, entries, params, t, after, kept, answer, step) ==> after.wf()
                && after.follows(bytes),
{
    let (_, begun, range) = load_started(s, st, params.rcx, params.rdx, now);
    stream::lemma_begun(st, range, params.rcx, now, bytes);
    stream::lemma_finished(st, st.finish || st.active, bytes);
}

/// An answer as a register carries it.
pub fn convert(num: i64) -> (r: u64)
    ensures
        r == address::status_word(num),
{
    status_to_word(num)
}

fn store_id_ok(store_id: u64, store: &Store<StoreEntry>) -> (r: bool)
    ensures
        r == (store_id < store@.len()),
        r ==> store_id <= usize::MAX,
{
    store_id < store.len() as u64
}

fn pgd_idx_ok(idx: u64) -> (r: bool)
    ensures
        r == (idx < 512),
{
    idx < 512
}

/// Starts a load and shows its memory to the guest.
pub fn load_init(m: &mut Machine, stream: &mut Stream, params: &RequestParams, now: u64) -> (r:
    AllocationRange)
    ensures
        (final(m)@, *final(stream), r) == load_started(
            old(m)@,
            *old(stream),
            params.rcx,
            params.rdx,
            now,
        ),
{
    let size = params.rcx;
    let guest_pgd = params.rdx;
    if size == 0 {
        return AllocationRange(0, 0);
    }
    let pages: u64 = if size % 4096 == 0 {
        size / 4096
    } else {
        size / 4096 + 1
    };
    if pages + 1 >= pages_available(m) {
        return AllocationRange(0, 0);
    }
    let mut range = AllocationRange(0, 0);
    let initial = if pages < INITIAL_PAGES {
        pages
    } else {
        INITIAL_PAGES
    };
    range.allocate_for_guest(m, initial);
    range.guest_write_access(m);
    m.write(guest_pgd, GUEST_LOAD_SLOT, range.0);
    stream::begin(stream, &range, size, now);
    range.unmount(m);
    range
}

/// Starts a load into a store.
pub fn load_into(
    m: &mut Machine,
    stream: &mut Stream,
    store: &mut Store<StoreEntry>,
    params: &mut RequestParams,
    now: u64,
)
    requires
        store_wf(old(store)@),
    ensures
        store_wf(final(store)@),
        (final(m)@, *final(stream), final(store)@, final(params).rcx) == load_requested(
            old(m)@,
            *old(stream),
            old(store)@,
            old(params).rcx,
            old(params).rdx,
            now,
        ),
        *final(params) == (RequestParams { rcx: final(params).rcx, ..*old(params) }),
{
    let range = load_init(m, stream, params, now);
    let e = StoreEntry {
        measurement: [0u8; 64],
        data: range,
        real_size: params.rcx,
        state: false,
    };
    params.rcx = convert(store.insert(e));
}

/// Begins the end of a load: the guest can write no more and sees it no more,
/// and the core that hashes is told to finish. Gives `false` where the request
/// names no load.
pub fn load_fin_begin(
    m: &mut Machine,
    stream: &mut Stream,
    store: &mut Store<StoreEntry>,
    params: &mut RequestParams,
) -> (r: bool)
    ensures
        match entry_at(old(store)@, old(params).rcx) {
            None => !r && final(m)@ == old(m)@ && *final(stream) == *old(stream) && final(store)@
                == old(store)@ && *final(params) == (RequestParams { rcx: 1, ..*old(params) }),
            Some(e) => {
                &&& r
                &&& *final(params) == *old(params)
                &&& final(store)@ == old(store)@.update(
                    old(params).rcx as int,
                    complete(e, *old(stream)),
                )
                &&& final(m)@ == load_sealed(
                    old(m)@,
                    complete(e, *old(stream)),
                    old(params).rdx,
                )
                &&& *final(stream) == (Stream {
                    finish: old(stream).finish || old(stream).active,
                    ..*old(stream)
                })
            },
        },
{
    let guest_pgd = params.rdx;
    let store_id = params.rcx;
    if !store_id_ok(store_id, store) {
        params.rcx = 1;
        return false;
    }
    let mut e: StoreEntry = *store.get(store_id as usize);
    if e.state {
        params.rcx = 1;
        return false;
    }
    if stream::is_active(stream) {
        let grown = stream::final_pages(stream);
        if grown > e.data.1 {
            e.data.1 = grown;
        }
    }
    store.set(store_id as usize, e);
    e.data.mount(m);
    e.data.guest_remove_write_access(m);
    m.write(guest_pgd, GUEST_LOAD_SLOT, 0);
    stream::request_finish(stream);
    true
}

/// Ends a load that `load_fin_begin` sealed: it is measured.
pub fn load_fin_end(
    m: &mut Machine,
    stream: &mut Stream,
    store: &mut Store<StoreEntry>,
    store_id: u64,
    params: &mut RequestParams,
)
    requires
        store_id < old(store)@.len(),
    ensures
        ({
            let e = old(store)@[store_id as int];
            let after = final(store)@[store_id as int];
            &&& final(m)@ == allocation::mount_entry(old(m)@, 0)
            &&& *final(stream) == old(stream).finished()
            &&& final(store)@ == old(store)@.update(store_id as int, after)
            &&& after == (StoreEntry { measurement: after.measurement, ..e })
            &&& after.measurement@ == load_digest(old(m)@, *old(stream), e)
            &&& *final(params) == (RequestParams { rcx: 0, ..*old(params) })
        }),
{
    assert(store.data.len() == store@.len());
    let id = store_id as usize;
    let mut e: StoreEntry = *store.get(id);
    e.measurement = match stream::finish(stream) {
        Some(digest) => digest,
        None => measure(m, ALLOCATION_RANGE_VIRT_START, e.real_size),
    };
    store.set(id, e);
    e.data.unmount(m);
    params.rcx = 0;
}

/// How far a request to end a load got.
#[derive(Clone, Copy, PartialEq, Eq, Structural, Debug)]
pub enum LoadStep {
    /// The request is answered.
    Done,
    /// A core is about to hand in the digest. When it has, or when it takes
    /// too long, `load_fin_end` ends the load.
    Waiting { store_id: u64 },
}

/// Whether a request to end a load was served: `s`, `st`, `entries` and
/// `params` are what was before it, `t`, `st_after`, `after` and `answer` what
/// is after it, and `step` is how far it got.
pub open spec fn load_ended(
    s: MachineState,
    st: Stream,
    entries: Seq<StoreEntry>,
    params: RequestParams,
    t: MachineState,
    st_after: Stream,
    after: Seq<StoreEntry>,
    answer: RequestParams,
    step: LoadStep,
) -> bool {
    match entry_at(entries, params.rcx) {
        None => {
            &&& step == LoadStep::Done
            &&& t == s
            &&& st_after == st
            &&& after == entries
            &&& answer == (RequestParams { rcx: 1, ..params })
        },
        Some(found) => {
            let id = params.rcx;
            let e = complete(found, st);
            let sealed = load_sealed(s, e, params.rdx);
            let asked = Stream { finish: st.finish || st.active, ..st };
            if st.active && !st.done && st.worker != stream::WORKER_NONE {
                &&& step == LoadStep::Waiting { store_id: id }
                &&& t == sealed
                &&& st_after == asked
                &&& after == entries.update(id as int, e)
                &&& answer == params
            } else {
                let stored = after[id as int];
                &&& step == LoadStep::Done
                &&& t == allocation::mount_entry(sealed, 0)
                &&& st_after == asked.finished()
                &&& after == entries.update(id as int, stored)
                &&& stored == (StoreEntry { measurement: stored.measurement, ..e })
                &&& stored.measurement@ == load_digest(sealed, st, e)
                &&& answer == (RequestParams { rcx: 0, ..params })
            }
        },
    }
}

/// Ends a load, unless a core still has to hand in its digest.
pub fn load_fin(
    m: &mut Machine,
    stream: &mut Stream,
    store: &mut Store<StoreEntry>,
    params: &mut RequestParams,
) -> (r: LoadStep)
    ensures
        load_ended(
            old(m)@,
            *old(stream),
            old(store)@,
            *old(params),
            final(m)@,
            *final(stream),
            final(store)@,
            *final(params),
            r,
        ),
{
    if !load_fin_begin(m, stream, store, params) {
        return LoadStep::Done;
    }
    let store_id = params.rcx;
    if stream::finish_pending(stream, 0, 0) {
        return LoadStep::Waiting { store_id };
    }
    load_fin_end(m, stream, store, store_id, params);
    assert(final(store)@ =~= old(store)@.update(
        store_id as int,
        final(store)@[store_id as int],
    ));
    LoadStep::Done
}

/// The entry after its data was freed.
pub open spec fn dropped(e: StoreEntry) -> StoreEntry {
    StoreEntry {
        measurement: vstd::array::spec_array_fill_for_copy_type::<u8, 64>(0),
        data: e.data,
        real_size: 0,
        state: true,
    }
}

/// The machine, the store and the answer after a request to free an entry.
pub open spec fn deleted(s: MachineState, entries: Seq<StoreEntry>, params: RequestParams) -> (
    MachineState,
    Seq<StoreEntry>,
    RequestParams,
) {
    match entry_at(entries, params.rcx) {
        None => (s, entries, RequestParams { rcx: 1, ..params }),
        Some(e) => (
            allocation::range_deleted(s, e.data),
            entries.update(params.rcx as int, dropped(e)),
            params,
        ),
    }
}

/// The machine and the answer after an entry was shown to the guest.
pub open spec fn shown(s: MachineState, entries: Seq<StoreEntry>, params: RequestParams) -> (
    MachineState,
    RequestParams,
) {
    match entry_at(entries, params.rcx) {
        Some(e) if params.r8 < 512 => (
            s.wr(params.rdx, params.r8 as int, e.data.0),
            RequestParams { rcx: e.real_size, ..params },
        ),
        _ => (s, RequestParams { rcx: 0, ..params }),
    }
}

/// The machine and the answer after an entry was taken out of the guest's
/// sight.
pub open spec fn unshown(s: MachineState, entries: Seq<StoreEntry>, params: RequestParams) -> (
    MachineState,
    RequestParams,
) {
    match entry_at(entries, params.rcx) {
        Some(e) if params.r8 < 512 => (
            s.wr(params.rdx, params.r8 as int, 0),
            RequestParams { rcx: e.real_size, ..params },
        ),
        _ => (s, RequestParams { rcx: 0, ..params }),
    }
}

/// Frees an entry. The answer is 1 where the request names none.
pub fn delete(m: &mut Machine, params: &mut RequestParams, store: &mut Store<StoreEntry>) -> (r:
    Result<(), MonitorError>)
    ensures
        r is Ok,
        (final(m)@, final(store)@, *final(params)) == deleted(old(m)@, old(store)@, *old(params)),
{
    let store_id = params.rcx;
    if !store_id_ok(store_id, store) {
        params.rcx = 1;
        return Ok(());
    }
    let mut e: StoreEntry = *store.get(store_id as usize);
    if e.state {
        params.rcx = 1;
        return Ok(());
    }
    e.data.delete(m);
    e.set_empty();
    e.real_size = 0;
    e.measurement = [0u8; 64];
    store.set(store_id as usize, e);
    Ok(())
}

/// Shows an entry to the guest: its root table gets an entry for it in the
/// slot of the request. The answer is the size, or 0 where the request names
/// no entry or no slot.
pub fn get(m: &mut Machine, params: &mut RequestParams, store: &Store<StoreEntry>) -> (r: Result<
    (),
    MonitorError,
>)
    ensures
        r is Ok,
        (final(m)@, *final(params)) == shown(old(m)@, store@, *old(params)),
{
    let store_id = params.rcx;
    let guest_pgd = params.rdx;
    if !store_id_ok(store_id, store) || !pgd_idx_ok(params.r8) {
        params.rcx = 0;
        return Ok(());
    }
    let e = store.get(store_id as usize);
    if e.state {
        params.rcx = 0;
        return Ok(());
    }
    m.write(guest_pgd, params.r8, e.data.0);
    params.rcx = e.real_size;
    Ok(())
}

/// Takes an entry out of the guest's sight: the slot of the request is
/// cleared. The answer is the size, or 0 where the request names no entry or
/// no slot.
pub fn get_undo(m: &mut Machine, params: &mut RequestParams, store: &Store<StoreEntry>) -> (r:
    Result<(), MonitorError>)
    ensures
        r is Ok,
        (final(m)@, *final(params)) == unshown(old(m)@, store@, *old(params)),
{
    let store_id = params.rcx;
    let guest_pgd = params.rdx;
    if !store_id_ok(store_id, store) || !pgd_idx_ok(params.r8) {
        params.rcx = 0;
        return Ok(());
    }
    let e = store.get(store_id as usize);
    if e.state {
        params.rcx = 0;
        return Ok(());
    }
    m.write(guest_pgd, params.r8, 0);
    params.rcx = e.real_size;
    Ok(())
}

} // verus!
