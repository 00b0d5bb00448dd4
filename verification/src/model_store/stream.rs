//! Loads a model while the guest is still writing it: a core that the guest
//! gave to the monitor grows the window ahead of the writer and hashes behind
//! it.
use vstd::prelude::*;
use crate::address;
use crate::crypto;
use crate::crypto::{sha512_create, sha512_digest, sha512_update, Hasher};
use crate::error::MonitorError;
use crate::memory::machine::{Machine, MachineState};
use crate::process_manager::allocation;
use crate::process_manager::allocation::{
    ask_pages, AllocationRange, ALLOCATION_RANGE_VIRT_START,
};
use crate::process_manager::process_memory::pages_available;
use crate::process_manager::process_paging::walk;
use crate::process_manager::process_paging::walk::{read_mounted, ProcessPageTableRef};
use crate::sev::utils::VMPL2_RWX;
use crate::utils::tsc;
use crate::utils::tsc::{ticks_for_secs, TSC_HZ};
use crate::RequestParams;

verus! {

/// Asks for all memory at once.
pub const REQUEST_EAGER: u64 = 1;

/// Bit of an answer: a load is going on.
pub const STATE_ACTIVE: u64 = 0x100_0000_0000_0000;

/// Bit of an answer: a core works for the load, or has finished it.
pub const STATE_CLAIMED: u64 = 0x200_0000_0000_0000;

/// Bit of an answer: memory ran short.
pub const STATE_FAILED: u64 = 0x400_0000_0000_0000;

/// The bits of an answer that hold the watermark.
pub const WATERMARK_MASK: u64 = 0xFF_FFFF_FFFF_FFFF;

/// Pages that a load starts with.
pub const INITIAL_PAGES: u64 = 65536;

/// Pages by which the window is kept ahead of the writer.
pub const LOOKAHEAD_PAGES: u64 = 16384;

/// Bytes that are hashed at a time.
pub const HASH_BITE: u64 = 0x100_0000;

/// Pages that a load leaves to others.
pub const ALLOC_MARGIN_PAGES: u64 = 1024;

/// No core works for the load.
pub const WORKER_NONE: i64 = -1;

/// The core that the guest runs on.
pub const WORKER_EAGER: i64 = 1000;

/// Seconds that the end of a load waits for its digest.
pub const FINISH_SECS: u64 = 120;

/// A load.
#[derive(Clone, Copy, Debug)]
pub struct Stream {
    /// Counts loads and their ends.
    pub epoch: u64,
    pub active: bool,
    /// The range that is loaded into.
    pub range0: u64,
    pub range_pages: u64,
    /// Bytes of the load.
    pub total: u64,
    /// Bytes that the guest can write.
    pub watermark: u64,
    /// Bytes that the guest has written.
    pub written: u64,
    /// Bytes that have been hashed.
    pub hashed: u64,
    /// Ticks that were spent on hashing.
    pub hash_tsc: u64,
    /// Ticks that were spent on adding memory.
    pub alloc_tsc: u64,
    pub begin_tsc: u64,
    pub failed: bool,
    pub done: bool,
    /// Whether the guest waits for the digest.
    pub finish: bool,
    /// The core that works for the load.
    pub worker: i64,
    pub digest: [u8; 64],
    pub worker_mounted: bool,
    pub worker_epoch: u64,
    /// Whether a core left the load, and the next one goes on with its hash.
    pub detached: bool,
}

/// The number by which a load knows a core.
pub open spec fn worker_number(core: u64) -> i64 {
    if core <= i64::MAX {
        core as i64
    } else {
        (core - 0x1_0000_0000_0000_0000) as i64
    }
}

/// How far a load has got.
#[derive(Clone, Copy, PartialEq, Eq, Structural, Debug)]
pub struct Progress {
    pub epoch: u64,
    pub active: bool,
    pub pages: u64,
    pub hashed: u64,
    pub done: bool,
}

/// What a load took: its bytes, the milliseconds that were spent on hashing, on
/// adding memory and altogether, and whether its digest was computed along the
/// way.
#[derive(Clone, Copy, PartialEq, Eq, Structural, Debug)]
pub struct LoadReport {
    pub total: u64,
    pub hash_ms: u64,
    pub alloc_ms: u64,
    pub wall_ms: u64,
    pub streamed: bool,
}

/// The lesser of two numbers.
pub open spec fn least(a: int, b: int) -> int {
    if a <= b {
        a
    } else {
        b
    }
}

/// Milliseconds in a number of ticks.
pub open spec fn millis(ticks: u64) -> u64 {
    (ticks as int / 2_400_008) as u64
}

/// Pages that hold a number of bytes.
pub open spec fn pages_for(bytes: u64) -> int {
    (bytes + 4095) / 4096
}

impl Stream {
    /// No load.
    pub fn new() -> (r: Stream)
        ensures
            r == Stream::blank(r.digest),
            r.digest@ == Seq::new(64, |i: int| 0u8),
            r.wf(),
            forall|bytes: Seq<u8>| #[trigger] r.follows(bytes),
    {
        Stream {
            epoch: 0,
            active: false,
            range0: 0,
            range_pages: 0,
            total: 0,
            watermark: 0,
            written: 0,
            hashed: 0,
            hash_tsc: 0,
            alloc_tsc: 0,
            begin_tsc: 0,
            failed: false,
            done: false,
            finish: false,
            worker: WORKER_NONE,
            digest: [0u8; 64],
            worker_mounted: false,
            worker_epoch: 0,
            detached: false,
        }
    }

    /// The state before the first load.
    pub open spec fn blank(digest: [u8; 64]) -> Stream {
        Stream {
            epoch: 0,
            active: false,
            range0: 0,
            range_pages: 0,
            total: 0,
            watermark: 0,
            written: 0,
            hashed: 0,
            hash_tsc: 0,
            alloc_tsc: 0,
            begin_tsc: 0,
            failed: false,
            done: false,
            finish: false,
            worker: WORKER_NONE,
            digest,
            worker_mounted: false,
            worker_epoch: 0,
            detached: false,
        }
    }

    /// What holds of every load: the guest can write what has memory, has
    /// written no more than the load has, and no more is hashed than was
    /// written and has memory. While it goes on, a core that works for it works
    /// for no other, nothing is hashed before a core works for it, and it is
    /// done only when all bytes are hashed.
    pub open spec fn wf(self) -> bool {
        &&& self.watermark == least(self.range_pages * 4096, self.total as int)
        &&& self.written <= self.total
        &&& self.hashed <= least(self.written as int, self.range_pages * 4096)
        &&& self.active && self.worker != WORKER_NONE ==> self.worker_epoch == self.epoch
            && !self.done
        &&& self.active && !self.claimed() && !self.done && !self.failed ==> self.hashed == 0
        &&& self.active && self.done ==> self.hashed == self.total && !self.detached
    }

    /// Whether a core works for the load, or worked for it and left its hash to
    /// the next one.
    pub open spec fn claimed(self) -> bool {
        self.worker != WORKER_NONE || self.detached
    }

    /// Whether a hash that has gathered `bytes` is that of the load: it has
    /// gathered as many bytes as are hashed, and a digest that was computed is
    /// theirs.
    pub open spec fn follows(self, bytes: Seq<u8>) -> bool {
        &&& self.active && !self.failed && (self.claimed() || self.done) ==> bytes.len()
            == self.hashed
        &&& self.active && self.done ==> bytes.len() == self.hashed && self.digest@
            == crypto::sha512(bytes)
    }

    /// The digest that the end of the load gives.
    pub open spec fn result(self) -> Option<[u8; 64]> {
        if self.active && self.done {
            Some(self.digest)
        } else {
            None
        }
    }

    /// The load of `total` bytes that starts with `range`.
    pub open spec fn begun(self, range: AllocationRange, total: u64, now: u64) -> Stream {
        Stream {
            epoch: self.epoch.wrapping_add(1),
            active: true,
            range0: range.0,
            range_pages: range.1,
            total,
            watermark: least(range.1 * 4096, total as int) as u64,
            written: 0,
            hashed: 0,
            hash_tsc: 0,
            alloc_tsc: 0,
            begin_tsc: now,
            failed: false,
            done: false,
            finish: false,
            worker: WORKER_NONE,
            digest: self.digest,
            worker_mounted: self.worker_mounted,
            worker_epoch: self.worker_epoch,
            detached: false,
        }
    }

    /// The answer about the load.
    pub open spec fn answer(self) -> u64 {
        let active = if self.active {
            STATE_ACTIVE
        } else {
            0
        };
        let claimed = if self.worker != WORKER_NONE || self.done {
            STATE_CLAIMED
        } else {
            0
        };
        let failed = if self.failed {
            STATE_FAILED
        } else {
            0
        };
        (self.watermark & WATERMARK_MASK) | (active | claimed | failed)
    }

    /// The load after the guest announced that it had written `bytes`.
    pub open spec fn announced(self, bytes: u64) -> Stream {
        let seen = least(bytes as int, self.total as int) as u64;
        Stream {
            written: if seen > self.written {
                seen
            } else {
                self.written
            },
            ..self
        }
    }

    /// How far the load has got.
    pub open spec fn progress(self) -> Progress {
        Progress {
            epoch: self.epoch,
            active: self.active,
            pages: self.range_pages,
            hashed: self.hashed,
            done: self.done,
        }
    }

    /// The load after the ticks of a step were added up: to those for memory
    /// where the window has grown by the step, to those for hashing where bytes
    /// were hashed or the digest was computed. A step that belongs to another
    /// load, or that did neither, counts for nothing.
    pub open spec fn charged(self, before: Progress, ticks: u64) -> Stream {
        if self.epoch != before.epoch {
            self
        } else if self.range_pages > before.pages {
            Stream { alloc_tsc: self.alloc_tsc.wrapping_add(ticks), ..self }
        } else if self.hashed > before.hashed || (self.done && !before.done) {
            Stream { hash_tsc: self.hash_tsc.wrapping_add(ticks), ..self }
        } else {
            self
        }
    }

    /// What the load took, once it is over.
    pub open spec fn report(self, now: u64) -> LoadReport {
        LoadReport {
            total: self.total,
            hash_ms: millis(self.hash_tsc),
            alloc_ms: millis(self.alloc_tsc),
            wall_ms: millis(now.wrapping_sub(self.begin_tsc)),
            streamed: self.done,
        }
    }

    /// The load without its worker.
    pub open spec fn unclaimed(self) -> Stream {
        Stream { worker_mounted: false, worker: WORKER_NONE, ..self }
    }
}

/// The machine, the load and the success after the window was grown to
/// `new_pages` pages.
pub open spec fn grown(s: MachineState, st: Stream, new_pages: u64) -> (MachineState, Stream, bool) {
    if new_pages <= st.range_pages {
        (s, st, true)
    } else if s.pool.available_word() < new_pages - st.range_pages + ALLOC_MARGIN_PAGES {
        (s, Stream { failed: true, ..st }, false)
    } else {
        let n = (new_pages - st.range_pages) as nat;
        let t = allocation::range_built(
            s,
            s.cr3,
            ALLOCATION_RANGE_VIRT_START,
            st.range_pages as int,
            n,
            0x67,
            false,
        );
        (
            allocation::pages_asked(t, st.range_pages as int, n, VMPL2_RWX),
            Stream {
                range_pages: new_pages,
                watermark: least(new_pages * 4096, st.total as int) as u64,
                ..st
            },
            true,
        )
    }
}

/// The machine and the load after all memory was added at once.
pub open spec fn grown_eagerly(s: MachineState, st: Stream) -> (MachineState, Stream) {
    let (t, g, _) = grown(
        allocation::mount_entry(s, st.range0),
        Stream { worker: WORKER_EAGER, ..st },
        pages_for(st.total) as u64,
    );
    (allocation::mount_entry(t, 0), Stream { worker: WORKER_NONE, ..g })
}

/// The machine, the load and the answer after the guest announced progress.
pub open spec fn updated(s: MachineState, st: Stream, bytes: u64, eager: bool) -> (
    MachineState,
    Stream,
    u64,
) {
    if !st.active {
        (s, st, 0)
    } else {
        let a = st.announced(bytes);
        if eager && a.worker == WORKER_NONE {
            let (t, b) = grown_eagerly(s, a);
            (t, b, b.answer())
        } else {
            (s, a, a.answer())
        }
    }
}

/// The machine after a worker left the load.
pub open spec fn worker_left(s: MachineState, st: Stream) -> MachineState {
    if st.worker_mounted {
        allocation::mount_entry(s, 0)
    } else {
        s
    }
}

/// The bytes that a core adds to the hash next: what is mounted behind those
/// that are hashed.
pub open spec fn next_bite(s: MachineState, st: Stream) -> Seq<u8> {
    walk::mounted_bytes(
        s,
        ALLOCATION_RANGE_VIRT_START.wrapping_add(st.hashed),
        least(
            HASH_BITE as int,
            least(st.written as int, st.range_pages * 4096) - st.hashed,
        ) as nat,
    )
}

/// The machine, the load, and the bytes that the hash has gathered, after a core
/// looked for work once. The digest of a load that is done by it is that of
/// `bytes`.
pub open spec fn worked(s: MachineState, st: Stream, bytes: Seq<u8>, core: u64) -> (
    MachineState,
    Stream,
    Seq<u8>,
) {
    if !st.active || st.failed || st.done {
        (s, st, bytes)
    } else if st.worker == WORKER_NONE {
        (
            allocation::mount_entry(s, st.range0),
            Stream {
                worker: worker_number(core),
                worker_mounted: true,
                worker_epoch: st.epoch,
                detached: st.detached && worker_number(core) == WORKER_NONE,
                ..st
            },
            if st.detached {
                bytes
            } else {
                Seq::empty()
            },
        )
    } else if st.worker != worker_number(core) {
        (s, st, bytes)
    } else if st.epoch != st.worker_epoch {
        (worker_left(s, st), st.unclaimed(), bytes)
    } else if st.range_pages * 4096 < st.total && pages_for(st.written) + LOOKAHEAD_PAGES
        >= st.range_pages {
        let target = least(pages_for(st.total), st.range_pages + LOOKAHEAD_PAGES) as u64;
        let (t, g, ok) = grown(s, st, target);
        if ok {
            (t, g, bytes)
        } else {
            (worker_left(t, g), g.unclaimed(), bytes)
        }
    } else if st.hashed < least(st.written as int, st.range_pages * 4096) {
        let bite = next_bite(s, st);
        (s, Stream { hashed: (st.hashed + bite.len()) as u64, ..st }, bytes + bite)
    } else if st.finish && st.hashed == st.total {
        (worker_left(s, st), Stream { done: true, detached: false, ..st.unclaimed() }, bytes)
    } else {
        (s, st, bytes)
    }
}

fn number_of(core: u64) -> (r: i64)
    ensures
        r == worker_number(core),
{
    if core <= 0x7FFF_FFFF_FFFF_FFFF {
        core as i64
    } else {
        -((u64::MAX - core) as i64) - 1
    }
}

fn pages_of(bytes: u64) -> (r: u64)
    ensures
        r == pages_for(bytes),
        r <= 0x10_0000_0000_0000,
{
    if bytes % 4096 == 0 {
        bytes / 4096
    } else {
        bytes / 4096 + 1
    }
}

/// The bytes of a number of pages, up to `bytes`.
fn covered(pages: u64, bytes: u64) -> (r: u64)
    ensures
        r == least(pages * 4096, bytes as int),
{
    if pages >= pages_of(bytes) {
        bytes
    } else {
        pages * 4096
    }
}

impl Stream {
    /// The load after its end.
    pub open spec fn finished(self) -> Stream {
        if self.active {
            Stream { finish: true, active: false, epoch: self.epoch.wrapping_add(1), ..self }
        } else {
            self
        }
    }
}

/// A load that starts is well formed, whatever a hash has gathered before.
pub proof fn lemma_begun(st: Stream, range: AllocationRange, total: u64, now: u64, bytes: Seq<u8>)
    ensures
        st.begun(range, total, now).wf(),
        st.begun(range, total, now).follows(bytes),
{
}

/// A load stays well formed when its end is asked for, and when it ends.
pub proof fn lemma_finished(st: Stream, finish: bool, bytes: Seq<u8>)
    requires
        st.wf(),
        st.follows(bytes),
    ensures
        (Stream { finish, ..st }).wf(),
        (Stream { finish, ..st }).follows(bytes),
        (Stream { finish, ..st }).finished().wf(),
        (Stream { finish, ..st }).finished().follows(bytes),
{
}

/// Starts a load. A core that still works for an earlier one notices that
/// the epoch has passed.
pub fn begin(st: &mut Stream, range: &AllocationRange, total_bytes: u64, now: u64)
    ensures
        *final(st) == old(st).begun(*range, total_bytes, now),
        final(st).wf(),
        forall|bytes: Seq<u8>| #[trigger] final(st).follows(bytes),
{
    st.epoch = st.epoch.wrapping_add(1);
    st.range0 = range.0;
    st.range_pages = range.1;
    st.total = total_bytes;
    st.watermark = covered(range.1, total_bytes);
    st.written = 0;
    st.hashed = 0;
    st.hash_tsc = 0;
    st.alloc_tsc = 0;
    st.begin_tsc = now;
    st.failed = false;
    st.done = false;
    st.finish = false;
    st.worker = WORKER_NONE;
    st.detached = false;
    st.active = true;
}

/// Grows the window, which is mounted, and gives the new pages to the
/// guest. Gives `false`, and ends the load, where memory is short.
fn grow_to(st: &mut Stream, m: &mut Machine, new_pages: u64) -> (r: bool)
    requires
        new_pages <= 0x10_0000_0000_0000,
    ensures
        (final(m)@, *final(st), r) == grown(old(m)@, *old(st), new_pages),
        old(st).wf() ==> final(st).wf(),
{
    let cur = st.range_pages;
    if new_pages <= cur {
        return true;
    }
    let need: u64 = new_pages - cur;
    if pages_available(m) < need + ALLOC_MARGIN_PAGES {
        st.failed = true;
        return false;
    }
    let mut range = AllocationRange(st.range0, cur);
    let mut table = ProcessPageTableRef::external(m.cr3);
    range.inflate(m, &mut table, new_pages, ALLOCATION_RANGE_VIRT_START);
    ask_pages(m, cur, new_pages, VMPL2_RWX);
    st.range_pages = new_pages;
    st.watermark = covered(new_pages, st.total);
    true
}

fn grow_eagerly(st: &mut Stream, m: &mut Machine)
    requires
        old(st).worker == WORKER_NONE,
    ensures
        (final(m)@, *final(st)) == grown_eagerly(old(m)@, *old(st)),
        old(st).wf() ==> final(st).wf(),
{
    st.worker = WORKER_EAGER;
    let range = AllocationRange(st.range0, st.range_pages);
    range.mount(m);
    let _ = grow_to(st, m, pages_of(st.total));
    range.unmount(m);
    st.worker = WORKER_NONE;
    assert(st.range_pages >= old(st).range_pages);
    assert(old(st).wf() ==> st.wf());
}

fn reply(st: &Stream, params: &mut RequestParams)
    ensures
        *final(params) == (RequestParams { rcx: st.answer(), ..*old(params) }),
{
    let active = if st.active {
        STATE_ACTIVE
    } else {
        0
    };
    let claimed = if st.worker != WORKER_NONE || st.done {
        STATE_CLAIMED
    } else {
        0
    };
    let failed = if st.failed {
        STATE_FAILED
    } else {
        0
    };
    params.rcx = (st.watermark & WATERMARK_MASK) | (active | claimed | failed);
}

/// Takes note of what the guest has written and answers how far it can
/// write. Where it asks for it and no core works for the load, all memory
/// is added at once.
pub fn update(st: &mut Stream, m: &mut Machine, params: &mut RequestParams) -> (r: Result<
    (),
    MonitorError,
>)
    ensures
        r is Ok,
        (final(m)@, *final(st), final(params).rcx) == updated(
            old(m)@,
            *old(st),
            old(params).rcx,
            old(params).rdx & REQUEST_EAGER != 0,
        ),
        *final(params) == (RequestParams { rcx: final(params).rcx, ..*old(params) }),
        old(st).wf() ==> final(st).wf(),
        forall|bytes: Seq<u8>|
            old(st).wf() && old(st).follows(bytes) ==> #[trigger] final(st).follows(bytes),
{
    if !st.active {
        params.rcx = 0;
        return Ok(());
    }
    let announced = if params.rcx < st.total {
        params.rcx
    } else {
        st.total
    };
    if announced > st.written {
        st.written = announced;
    }
    if params.rdx & REQUEST_EAGER != 0 {
        if st.worker == WORKER_NONE {
            grow_eagerly(st, m);
        }
    }
    reply(st, params);
    Ok(())
}

/// Lets a core do one bounded piece of work for the load: take it on, grow the
/// window, hash a piece, or compute the digest, once everything is hashed and
/// the guest waits for it. A load that is done is left alone.
pub fn poll_worker(st: &mut Stream, hasher: &mut Hasher, m: &mut Machine, core: u64)
    requires
        old(st).wf(),
        old(st).follows(crypto::absorbed(*old(hasher))),
    ensures
        ({
            let bytes = crypto::absorbed(*old(hasher));
            let (t, after, gathered) = worked(old(m)@, *old(st), bytes, core);
            &&& final(m)@ == t
            &&& crypto::absorbed(*final(hasher)) == gathered
            &&& *final(st) == (Stream { digest: final(st).digest, ..after })
            &&& if after.done && !old(st).done {
                final(st).digest@ == crypto::sha512(bytes)
            } else {
                final(st).digest == old(st).digest
            }
        }),
        final(st).wf(),
        final(st).follows(crypto::absorbed(*final(hasher))),
{
    if !st.active || st.failed || st.done {
        return ;
    }
    let me = number_of(core);
    if st.worker == WORKER_NONE {
        st.worker = me;
        let range = AllocationRange(st.range0, st.range_pages);
        range.mount(m);
        st.worker_mounted = true;
        st.worker_epoch = st.epoch;
        if !st.detached {
            *hasher = sha512_create();
        }
        st.detached = st.detached && me == WORKER_NONE;
        return ;
    }
    if st.worker != me {
        return ;
    }
    if st.epoch != st.worker_epoch {
        leave(st, m);
        return ;
    }
    let all = pages_of(st.total);
    let cur = st.range_pages;
    if cur < all && pages_of(st.written) + LOOKAHEAD_PAGES >= cur {
        let target = if all < cur + LOOKAHEAD_PAGES {
            all
        } else {
            cur + LOOKAHEAD_PAGES
        };
        if !grow_to(st, m, target) {
            leave(st, m);
        }
        return ;
    }
    let limit = covered(cur, st.written);
    let hashed = st.hashed;
    if hashed < limit {
        let len = if HASH_BITE < limit - hashed {
            HASH_BITE
        } else {
            limit - hashed
        };
        let bite = read_mounted(m, ALLOCATION_RANGE_VIRT_START.wrapping_add(hashed), len);
        sha512_update(hasher, &bite);
        st.hashed = hashed + len;
        return ;
    }
    if st.finish && hashed == st.total {
        st.digest = sha512_digest(hasher);
        leave(st, m);
        st.detached = false;
        st.done = true;
    }
}

fn leave(st: &mut Stream, m: &mut Machine)
    ensures
        *final(st) == old(st).unclaimed(),
        final(m)@ == worker_left(old(m)@, *old(st)),
{
    if st.worker_mounted {
        AllocationRange(st.range0, st.range_pages).unmount(m);
    }
    st.worker_mounted = false;
    st.worker = WORKER_NONE;
}

/// Takes a core off the load. The next core goes on with its hash.
pub fn detach_core(st: &mut Stream, m: &mut Machine, core: u64)
    ensures
        old(st).worker == WORKER_NONE || old(st).worker != worker_number(core) ==> *final(st)
            == *old(st) && final(m)@ == old(m)@,
        old(st).worker != WORKER_NONE && old(st).worker == worker_number(core) ==> {
            &&& *final(st) == (Stream { detached: true, ..old(st).unclaimed() })
            &&& final(m)@ == worker_left(old(m)@, *old(st))
        },
        old(st).wf() ==> final(st).wf(),
        forall|bytes: Seq<u8>|
            old(st).wf() && old(st).follows(bytes) ==> #[trigger] final(st).follows(bytes),
{
    if st.worker != WORKER_NONE && st.worker == number_of(core) {
        leave(st, m);
        st.detached = true;
    }
}

/// Pages of the window.
pub fn final_pages(st: &Stream) -> (r: u64)
    ensures
        r == st.range_pages,
{
    st.range_pages
}

/// Whether a load is going on.
pub fn is_active(st: &Stream) -> (r: bool)
    ensures
        r == st.active,
{
    st.active
}

/// Tells the core that works for the load that the guest waits.
pub fn request_finish(st: &mut Stream)
    ensures
        *final(st) == (Stream {
            finish: old(st).finish || old(st).active,
            ..*old(st)
        }),
        old(st).wf() ==> final(st).wf(),
        forall|bytes: Seq<u8>| old(st).follows(bytes) ==> #[trigger] final(st).follows(bytes),
{
    if st.active {
        st.finish = true;
    }
}

/// When the end of a load stops to wait for its digest.
pub fn finish_deadline(now: u64) -> (r: u64)
    ensures
        r == now.wrapping_add(tsc::saturated(TSC_HZ * FINISH_SECS)),
{
    now.wrapping_add(ticks_for_secs(FINISH_SECS))
}

/// How far the load has got.
pub fn progress(st: &Stream) -> (r: Progress)
    ensures
        r == st.progress(),
{
    Progress {
        epoch: st.epoch,
        active: st.active,
        pages: st.range_pages,
        hashed: st.hashed,
        done: st.done,
    }
}

/// Adds up the ticks that a step took; `before` is how far the load had got
/// before it.
pub fn charge(st: &mut Stream, before: &Progress, ticks: u64)
    ensures
        *final(st) == old(st).charged(*before, ticks),
        old(st).wf() ==> final(st).wf(),
        forall|bytes: Seq<u8>| old(st).follows(bytes) ==> #[trigger] final(st).follows(bytes),
{
    if st.epoch != before.epoch {
        return ;
    }
    if st.range_pages > before.pages {
        st.alloc_tsc = st.alloc_tsc.wrapping_add(ticks);
    } else if st.hashed > before.hashed || (st.done && !before.done) {
        st.hash_tsc = st.hash_tsc.wrapping_add(ticks);
    }
}

/// What a load took, where it has ended since it had got to `before`.
pub fn load_report(st: &Stream, before: &Progress, now: u64) -> (r: Option<LoadReport>)
    ensures
        r == (if before.active && !st.active {
            Some(st.report(now))
        } else {
            None
        }),
{
    if !before.active || st.active {
        return None;
    }
    let ms: u64 = TSC_HZ / 1000;
    Some(
        LoadReport {
            total: st.total,
            hash_ms: st.hash_tsc / ms,
            alloc_ms: st.alloc_tsc / ms,
            wall_ms: now.wrapping_sub(st.begin_tsc) / ms,
            streamed: st.done,
        },
    )
}

/// Whether the digest may still come: a core works for the load and has
/// not handed in, and the deadline has not passed.
pub fn finish_pending(st: &Stream, now: u64, deadline: u64) -> (r: bool)
    ensures
        r == (st.active && !st.done && st.worker != WORKER_NONE && now <= deadline),
{
    st.active && !st.done && st.worker != WORKER_NONE && now <= deadline
}

/// Ends the load. Gives the digest, where a core has handed it in.
pub fn finish(st: &mut Stream) -> (r: Option<[u8; 64]>)
    ensures
        r == old(st).result(),
        *final(st) == old(st).finished(),
        old(st).wf() ==> final(st).wf(),
        forall|bytes: Seq<u8>| old(st).follows(bytes) ==> #[trigger] final(st).follows(bytes),
{
    if !st.active {
        return None;
    }
    st.finish = true;
    let digest = if st.done {
        Some(st.digest)
    } else {
        None
    };
    st.active = false;
    st.epoch = st.epoch.wrapping_add(1);
    digest
}

/// From an answer the guest can take the watermark, and each of the three
/// states of the load.
pub proof fn law_answer_unpacks(st: Stream)
    ensures
        st.watermark <= WATERMARK_MASK ==> st.answer() & WATERMARK_MASK == st.watermark,
        st.answer() & STATE_ACTIVE != 0 <==> st.active,
        st.answer() & STATE_CLAIMED != 0 <==> st.worker != WORKER_NONE || st.done,
        st.answer() & STATE_FAILED != 0 <==> st.failed,
{
    let w = st.watermark;
    let a = if st.active {
        STATE_ACTIVE
    } else {
        0
    };
    let c = if st.worker != WORKER_NONE || st.done {
        STATE_CLAIMED
    } else {
        0
    };
    let f = if st.failed {
        STATE_FAILED
    } else {
        0
    };
    let r = (w & 0xFF_FFFF_FFFF_FFFF) | (a | c | f);
    assert((w <= 0xFF_FFFF_FFFF_FFFF ==> r & 0xFF_FFFF_FFFF_FFFF == w) && ((r
        & 0x100_0000_0000_0000 != 0) == (a != 0)) && ((r & 0x200_0000_0000_0000 != 0) == (c != 0))
        && ((r & 0x400_0000_0000_0000 != 0) == (f != 0))) by (bit_vector)
        requires
            r == (w & 0xFF_FFFF_FFFF_FFFF) | (a | c | f),
            a == 0 || a == 0x100_0000_0000_0000,
            c == 0 || c == 0x200_0000_0000_0000,
            f == 0 || f == 0x400_0000_0000_0000,
    ;
}

/// A core hashes what was written from its start to its end, without gaps and
/// without repetition: as long as what was hashed stays as it is, what the hash
/// has gathered is what is there.
#[verifier::rlimit(60)]
pub proof fn law_hash_covers_the_load(s: MachineState, st: Stream, bytes: Seq<u8>, core: u64)
    requires
        st.wf(),
        st.follows(bytes),
        st.active && !st.failed && st.claimed() ==> bytes == walk::mounted_bytes(
            s,
            ALLOCATION_RANGE_VIRT_START,
            st.hashed as nat,
        ),
    ensures
        ({
            let (t, after, gathered) = worked(s, st, bytes, core);
            after.hashed > st.hashed ==> t == s && gathered == walk::mounted_bytes(
                s,
                ALLOCATION_RANGE_VIRT_START,
                after.hashed as nat,
            )
        }),
        ({
            let (t, after, gathered) = worked(s, st, bytes, core);
            after.active && !after.failed && after.claimed() && t == s ==> gathered
                == walk::mounted_bytes(s, ALLOCATION_RANGE_VIRT_START, after.hashed as nat)
        }),
{
    let (t, after, gathered) = worked(s, st, bytes, core);
    if after.hashed > st.hashed {
        let bite = next_bite(s, st);
        assert(gathered == bytes + bite && after.hashed == st.hashed + bite.len());
        lemma_bite_joined(s, ALLOCATION_RANGE_VIRT_START, st.hashed, bite.len());
    }
    assert(walk::mounted_bytes(s, ALLOCATION_RANGE_VIRT_START, 0) =~= Seq::<u8>::empty());
}

/// Bytes and those that follow them are one run of bytes.
proof fn lemma_bite_joined(s: MachineState, start: u64, from: u64, n: nat)
    ensures
        walk::mounted_bytes(s, start, from as nat) + walk::mounted_bytes(
            s,
            start.wrapping_add(from),
            n,
        ) == walk::mounted_bytes(s, start, from as nat + n),
{
    let next = start.wrapping_add(from);
    let bite = walk::mounted_bytes(s, next, n);
    let all = walk::mounted_bytes(s, start, from as nat + n);
    assert(next == address::addr_add(start, from as int));
    assert forall|i: int| 0 <= i < n implies bite[i] == all[from + i] by {
        address::lemma_addr_add(start, from as int, i);
    }
    assert(walk::mounted_bytes(s, start, from as nat) + bite =~= all);
}

/// The digest that the end of a load gives is that of all its bytes: the hash
/// has gathered as many as the load has, and where they are still there, it is
/// what a measurement of the load gives. The load is over then, and ends once.
pub proof fn law_streamed_digest_is_that_of_the_load(s: MachineState, st: Stream, bytes: Seq<u8>)
    requires
        st.wf(),
        st.follows(bytes),
    ensures
        !st.finished().active,
        st.finished().result() is None,
        !st.active ==> st.result() is None,
        st.result() matches Some(d) ==> {
            &&& st.hashed == st.total
            &&& bytes.len() == st.total
            &&& d@ == crypto::sha512(bytes)
            &&& bytes == walk::mounted_bytes(s, ALLOCATION_RANGE_VIRT_START, st.total as nat) ==> d@
                == crypto::measured(s, ALLOCATION_RANGE_VIRT_START, st.total as nat)
        },
{
}

/// What a core does for a load at a time is bounded, and of one kind: it adds up
/// to 64 MiB to the window or hashes up to 16 MiB, never both, and takes nothing
/// back. What was hashed stays within what was written and has memory. The load
/// is done only when the guest waits and all of it is hashed. A load that is not
/// going on, that has failed, or that another core works for is left alone.
pub proof fn law_worker_step(s: MachineState, st: Stream, bytes: Seq<u8>, core: u64)
    requires
        st.hashed <= least(st.written as int, st.range_pages * 4096),
        st.written <= st.total,
    ensures
        ({
            let (t, after, gathered) = worked(s, st, bytes, core);
            &&& after.hashed <= least(after.written as int, after.range_pages * 4096)
            &&& after.written <= after.total
            &&& st.hashed <= after.hashed <= st.hashed + HASH_BITE
            &&& st.range_pages <= after.range_pages <= st.range_pages + LOOKAHEAD_PAGES
            &&& after.hashed == st.hashed || after.range_pages == st.range_pages
            &&& !st.done && after.done ==> st.finish && st.hashed == st.total
            &&& !st.active || st.failed || (st.worker != WORKER_NONE && st.worker != worker_number(
                core,
            )) ==> t == s && after == st && gathered == bytes
        }),
{
}

/// The time of a step of a core is charged once: to memory where the step has
/// grown the window, to hashing where it has hashed or made the digest, and
/// else to nothing. A load that starts has been charged nothing.
pub proof fn law_steps_are_charged_once(
    s: MachineState,
    st: Stream,
    bytes: Seq<u8>,
    core: u64,
    ticks: u64,
    range: AllocationRange,
    total: u64,
    now: u64,
)
    requires
        st.hashed <= least(st.written as int, st.range_pages * 4096),
        st.written <= st.total,
    ensures
        ({
            let after = worked(s, st, bytes, core).1;
            let hashing = after.hashed > st.hashed || (after.done && !st.done);
            let charged = after.charged(st.progress(), ticks);
            &&& !(hashing && after.range_pages > st.range_pages)
            &&& charged.alloc_tsc == (if after.range_pages > st.range_pages {
                st.alloc_tsc.wrapping_add(ticks)
            } else {
                st.alloc_tsc
            })
            &&& charged.hash_tsc == (if hashing {
                st.hash_tsc.wrapping_add(ticks)
            } else {
                st.hash_tsc
            })
        }),
        st.begun(range, total, now).report(now) == (LoadReport {
            total,
            hash_ms: 0,
            alloc_ms: 0,
            wall_ms: 0,
            streamed: false,
        }),
{
}

/// The watermark never falls while a load goes on.
pub proof fn law_watermark_grows(
    s: MachineState,
    st: Stream,
    gathered: Seq<u8>,
    core: u64,
    bytes: u64,
    eager: bool,
)
    requires
        st.wf(),
    ensures
        worked(s, st, gathered, core).1.watermark >= st.watermark,
        updated(s, st, bytes, eager).1.watermark >= st.watermark,
        updated(s, st, bytes, eager).1.written >= st.written,
{
}

} // verus!
