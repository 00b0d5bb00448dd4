//! What a large copy does as a whole.
use vstd::prelude::*;
use crate::address;
use crate::gpu::relay;
use crate::gpu::relay::BulkCopy;
use crate::memory::machine;
use crate::memory::machine::MachineState;
use crate::process_manager::process_paging::entry;
use crate::process_manager::process_paging::walk;

verus! {

/// A large copy after `k` pieces.
pub open spec fn advanced(c: BulkCopy, k: nat) -> BulkCopy
    decreases k,
{
    if k == 0 {
        c
    } else {
        let last = advanced(c, (k - 1) as nat);
        BulkCopy { done: (last.done + last.piece()) as u64, ..last }
    }
}

/// The number of pieces of a large copy.
pub open spec fn pieces(c: BulkCopy) -> nat {
    ((c.count + 4055) / 4056) as nat
}

/// Each piece starts where the one before ended.
proof fn lemma_advanced(c: BulkCopy, k: nat)
    requires
        c.done == 0,
        k <= pieces(c),
    ensures
        advanced(c, k) == (BulkCopy { done: advanced(c, k).done, ..c }),
        advanced(c, k).done == (if 4056 * k <= c.count {
            4056 * k as int
        } else {
            c.count as int
        }),
    decreases k,
{
    if k > 0 {
        lemma_advanced(c, (k - 1) as nat);
    }
}

/// The bytes that the messages for the first `k` pieces of a copy to the device
/// carry.
pub open spec fn sent(s: MachineState, c: BulkCopy, k: nat) -> Seq<u8>
    decreases k,
{
    if k == 0 {
        Seq::empty()
    } else {
        let last = advanced(c, (k - 1) as nat);
        sent(s, c, (k - 1) as nat) + last.payload(s, last.piece())
    }
}

/// The first `n` bytes of the client's buffer.
pub open spec fn buffer(s: MachineState, c: BulkCopy, n: int) -> Seq<u8> {
    Seq::new(
        n as nat,
        |i: int| relay::client_byte(s, c.table, address::addr_add(c.host, i))->0,
    )
}

proof fn lemma_sent(s: MachineState, c: BulkCopy, k: nat)
    requires
        c.done == 0,
        k <= pieces(c),
    ensures
        sent(s, c, k) == buffer(s, c, advanced(c, k).done as int),
    decreases k,
{
    lemma_advanced(c, k);
    if k == 0 {
        assert(sent(s, c, k) =~= buffer(s, c, 0));
    } else {
        lemma_sent(s, c, (k - 1) as nat);
        lemma_advanced(c, (k - 1) as nat);
        let last = advanced(c, (k - 1) as nat);
        let n = last.done as int;
        let whole = buffer(s, c, advanced(c, k).done as int);
        assert(sent(s, c, k).len() == whole.len());
        assert forall|i: int| 0 <= i < whole.len() implies sent(s, c, k)[i] == whole[i] by {
            if i >= n {
                assert(address::addr_add(last.host_addr(), i - n) == address::addr_add(c.host, i));
            }
        }
        assert(sent(s, c, k) =~= whole);
    }
}

/// The messages of a copy to the device carry the whole buffer of the client,
/// each byte once and in order: as long as bytes are left there is a piece, it
/// goes to where the one before ended, and the last one ends the copy.
pub proof fn law_copy_to_device_sends_all(s: MachineState, c: BulkCopy)
    requires
        c.done == 0,
    ensures
        advanced(c, pieces(c)).done == c.count,
        forall|k: nat|
            k < pieces(c) ==> {
                let p = #[trigger] advanced(c, k);
                &&& p.done == 4056 * k
                &&& p.done < p.count
                &&& p.device_addr() == address::addr_add(c.device, 4056 * k as int)
            },
        sent(s, c, pieces(c)) == buffer(s, c, c.count as int),
{
    lemma_advanced(c, pieces(c));
    lemma_sent(s, c, pieces(c));
    assert forall|k: nat| k < pieces(c) implies {
        let p = #[trigger] advanced(c, k);
        &&& p.done == 4056 * k
        &&& p.done < p.count
        &&& p.device_addr() == address::addr_add(c.device, 4056 * k as int)
    } by {
        lemma_advanced(c, k);
    }
}

/// Whether an entry leads to a table: it is present and maps no block.
pub open spec fn leads_on(e: u64, lvl: nat) -> bool {
    entry::present(e) && !(lvl < 3 && e & 0x80 == 0x80)
}

/// Whether a walk to `va` reads word `w` of memory.
pub open spec fn walk_reads(s: MachineState, table: u64, va: u64, lvl: nat, w: int) -> bool
    decreases lvl,
{
    let e = walk::entry_in(s, table, va, lvl);
    ||| w == table as int / 8 + entry::table_index(va, lvl as int)
    ||| lvl > 0 && leads_on(e, lvl) && walk_reads(
        s,
        entry::strip(s.c_bit, e),
        va,
        (lvl - 1) as nat,
        w,
    )
}

/// Where the memory for byte `i` of the client's buffer lies.
pub open spec fn place(s: MachineState, c: BulkCopy, i: int) -> int {
    let va = address::addr_add(c.host, i);
    walk::frame_below(s, c.table, va, 3) + va % 4096
}

/// Whether a byte of memory is one of the client's buffer.
pub open spec fn in_buffer(s: MachineState, c: BulkCopy, x: int) -> bool {
    exists|i: int| 0 <= i < c.count && #[trigger] place(s, c, i) == x
}

/// Whether the client has memory of its own for each byte of its buffer, and
/// none of it is read to find that memory.
pub open spec fn buffer_sound(s: MachineState, c: BulkCopy) -> bool {
    &&& forall|i: int|
        0 <= i < c.count ==> walk::frame_below(s, c.table, address::addr_add(c.host, i), 3) != 0
            && #[trigger] place(s, c, i) < 8 * s.mem.len()
    &&& forall|i: int, j: int|
        0 <= i < j < c.count ==> #[trigger] place(s, c, i) != #[trigger] place(s, c, j)
    &&& forall|i: int, j: int|
        0 <= i < c.count && 0 <= j < c.count ==> !walk_reads(
            s,
            c.table,
            #[trigger] address::addr_add(c.host, j),
            3,
            #[trigger] place(s, c, i) / 8,
        )
}

/// Whether what is read to find the client's buffer is the same in `t`.
spec fn agrees(s: MachineState, c: BulkCopy, t: MachineState) -> bool {
    &&& t == MachineState { mem: t.mem, ..s }
    &&& t.mem.len() == s.mem.len()
    &&& forall|j: int, w: int|
        0 <= j < c.count && 0 <= w < s.mem.len() && #[trigger] walk_reads(
            s,
            c.table,
            address::addr_add(c.host, j),
            3,
            w,
        ) ==> t.mem[w] == s.mem[w]
}

proof fn lemma_walk_kept(s: MachineState, t: MachineState, table: u64, va: u64, lvl: nat)
    requires
        t.c_bit == s.c_bit,
        t.mem.len() == s.mem.len(),
        forall|w: int|
            0 <= w < s.mem.len() && #[trigger] walk_reads(s, table, va, lvl, w) ==> t.mem[w]
                == s.mem[w],
    ensures
        walk::frame_below(t, table, va, lvl) == walk::frame_below(s, table, va, lvl),
    decreases lvl,
{
    let k = table as int / 8 + entry::table_index(va, lvl as int);
    assert(walk_reads(s, table, va, lvl, k));
    assert(walk::entry_in(t, table, va, lvl) == walk::entry_in(s, table, va, lvl));
    if lvl > 0 && leads_on(walk::entry_in(s, table, va, lvl), lvl) {
        let next = entry::strip(s.c_bit, walk::entry_in(s, table, va, lvl));
        assert forall|w: int|
            0 <= w < s.mem.len() && #[trigger] walk_reads(
                s,
                next,
                va,
                (lvl - 1) as nat,
                w,
            ) implies t.mem[w] == s.mem[w] by {
            assert(walk_reads(s, table, va, lvl, w));
        }
        lemma_walk_kept(s, t, next, va, (lvl - 1) as nat);
    }
}

proof fn lemma_frame_kept(s: MachineState, c: BulkCopy, t: MachineState, i: int)
    requires
        agrees(s, c, t),
        0 <= i < c.count,
    ensures
        walk::frame_below(t, c.table, address::addr_add(c.host, i), 3) == walk::frame_below(
            s,
            c.table,
            address::addr_add(c.host, i),
            3,
        ),
{
    lemma_walk_kept(s, t, c.table, address::addr_add(c.host, i), 3);
}

/// What a piece that was written to the client leaves.
spec fn piece_written(
    s: MachineState,
    c: BulkCopy,
    t: MachineState,
    r: MachineState,
    at: int,
    bytes: Seq<u8>,
    i: int,
) -> bool {
    &&& agrees(s, c, r)
    &&& forall|k: int|
        i <= k < bytes.len() ==> machine::byte_at(r.mem, #[trigger] place(s, c, at + k)) == bytes[k]
    &&& forall|x: int|
        0 <= x < 8 * s.mem.len() && (forall|k: int|
            i <= k < bytes.len() ==> x != #[trigger] place(s, c, at + k))
            ==> #[trigger] machine::byte_at(r.mem, x) == machine::byte_at(t.mem, x)
}

proof fn lemma_byte_written(s: MachineState, c: BulkCopy, t: MachineState, i: int, b: u8)
    requires
        buffer_sound(s, c),
        agrees(s, c, t),
        0 <= i < c.count,
    ensures
        ({
            let u = MachineState { mem: machine::store_byte(t.mem, place(s, c, i), b), ..t };
            &&& agrees(s, c, u)
            &&& machine::byte_at(u.mem, place(s, c, i)) == b
            &&& forall|x: int|
                0 <= x < 8 * s.mem.len() && x != place(s, c, i) ==> #[trigger] machine::byte_at(
                    u.mem,
                    x,
                ) == machine::byte_at(t.mem, x)
        }),
{
    let a = place(s, c, i);
    let u = MachineState { mem: machine::store_byte(t.mem, a, b), ..t };
    assert(a < 8 * s.mem.len());
    machine::law_store_byte(t.mem, a, b, a);
    assert forall|x: int| 0 <= x < 8 * s.mem.len() && x != a implies #[trigger] machine::byte_at(
        u.mem,
        x,
    ) == machine::byte_at(t.mem, x) by {
        machine::law_store_byte(t.mem, a, b, x);
    }
    assert forall|j: int, w: int|
        0 <= j < c.count && 0 <= w < s.mem.len() && #[trigger] walk_reads(
            s,
            c.table,
            address::addr_add(c.host, j),
            3,
            w,
        ) implies u.mem[w] == s.mem[w] by {
        assert(!walk_reads(s, c.table, address::addr_add(c.host, j), 3, a / 8));
    }
}

proof fn lemma_piece_written(
    s: MachineState,
    c: BulkCopy,
    t: MachineState,
    at: int,
    bytes: Seq<u8>,
    i: nat,
    frame: u64,
)
    requires
        buffer_sound(s, c),
        agrees(s, c, t),
        0 <= at,
        at + bytes.len() <= c.count,
        i <= bytes.len(),
        0 < i < bytes.len() && address::addr_add(c.host, at + i) % 4096 != 0 ==> frame
            == walk::frame_below(s, c.table, address::addr_add(c.host, at + i), 3),
    ensures
        ({
            let (r, ok) = relay::scattered(
                t,
                c.table,
                address::addr_add(c.host, at),
                bytes,
                i,
                frame,
            );
            ok && piece_written(s, c, t, r, at, bytes, i as int)
        }),
    decreases bytes.len() - i,
{
    let host = address::addr_add(c.host, at);
    if i < bytes.len() {
        let va = address::addr_add(host, i as int);
        address::lemma_addr_add(c.host, at, i as int);
        let own = relay::next_frame(t, c.table, va, i == 0, frame);
        lemma_frame_kept(s, c, t, at + i);
        assert(own == walk::frame_below(s, c.table, va, 3));
        let a = place(s, c, at + i);
        assert(a == own + va % 4096 && own != 0);
        let u = MachineState { mem: machine::store_byte(t.mem, a, bytes[i as int]), ..t };
        lemma_byte_written(s, c, t, at + i, bytes[i as int]);
        lemma_frame_goes_on(s, c, at + i);
        lemma_piece_written(s, c, u, at, bytes, i + 1, own);
        let r = relay::scattered(t, c.table, host, bytes, i, frame).0;
        assert(relay::scattered(t, c.table, host, bytes, i, frame) == relay::scattered(
            u,
            c.table,
            host,
            bytes,
            i + 1,
            own,
        ));
        lemma_bytes_joined(s, c, t, u, r, at, bytes, i as int);
    }
}

/// Addresses that follow each other in a page have one frame.
proof fn lemma_frame_goes_on(s: MachineState, c: BulkCopy, i: int)
    requires
        0 <= i,
    ensures
        ({
            let va = address::addr_add(c.host, i);
            let vb = address::addr_add(c.host, i + 1);
            vb % 4096 != 0 ==> walk::frame_below(s, c.table, vb, 3) == walk::frame_below(
                s,
                c.table,
                va,
                3,
            )
        }),
{
    let va = address::addr_add(c.host, i);
    let vb = address::addr_add(c.host, i + 1);
    address::lemma_addr_add(c.host, i, 1);
    if vb % 4096 != 0 {
        assert(vb == va + 1);
        walk::lemma_frame_of_page(s, c.table, va, vb, 3);
    }
}

/// A byte that was written, and the bytes behind it, are written.
proof fn lemma_bytes_joined(
    s: MachineState,
    c: BulkCopy,
    t: MachineState,
    u: MachineState,
    r: MachineState,
    at: int,
    bytes: Seq<u8>,
    i: int,
)
    requires
        buffer_sound(s, c),
        0 <= at,
        0 <= i < bytes.len(),
        at + bytes.len() <= c.count,
        machine::byte_at(u.mem, place(s, c, at + i)) == bytes[i],
        forall|x: int|
            0 <= x < 8 * s.mem.len() && x != place(s, c, at + i) ==> #[trigger] machine::byte_at(
                u.mem,
                x,
            ) == machine::byte_at(t.mem, x),
        piece_written(s, c, u, r, at, bytes, i + 1),
    ensures
        piece_written(s, c, t, r, at, bytes, i),
{
    let a = place(s, c, at + i);
    assert(0 <= a < 8 * s.mem.len());
    assert(machine::byte_at(r.mem, a) == bytes[i]) by {
        assert forall|n: int| i + 1 <= n < bytes.len() implies a != #[trigger] place(
            s,
            c,
            at + n,
        ) by {
            assert(place(s, c, at + i) != place(s, c, at + n));
        }
        assert(machine::byte_at(r.mem, a) == machine::byte_at(u.mem, a));
    }
    assert forall|x: int|
        0 <= x < 8 * s.mem.len() && (forall|k: int|
            i <= k < bytes.len() ==> x != #[trigger] place(
                s,
                c,
                at + k,
            )) implies #[trigger] machine::byte_at(r.mem, x) == machine::byte_at(t.mem, x) by {
        assert(x != place(s, c, at + i));
        assert(machine::byte_at(r.mem, x) == machine::byte_at(u.mem, x));
    }
}

/// The machine after the answers to the first `k` pieces of a copy from the
/// device were written to the client; `all` are the bytes of all answers, in
/// their order.
pub open spec fn received(s: MachineState, c: BulkCopy, all: Seq<u8>, k: nat) -> MachineState
    decreases k,
{
    if k == 0 {
        s
    } else {
        let last = advanced(c, (k - 1) as nat);
        relay::scattered(
            received(s, c, all, (k - 1) as nat),
            last.table,
            last.host_addr(),
            all.subrange(last.done as int, last.done + last.piece()),
            0,
            0,
        ).0
    }
}

/// Whether the first `n` bytes of the client's buffer are those of `all`, and
/// all bytes of memory that are not among them are as they were.
spec fn written(s: MachineState, c: BulkCopy, all: Seq<u8>, t: MachineState, n: int) -> bool {
    &&& agrees(s, c, t)
    &&& forall|i: int|
        0 <= i < n ==> machine::byte_at(t.mem, #[trigger] place(s, c, i)) == all[i]
    &&& forall|x: int|
        0 <= x < 8 * s.mem.len() && !in_buffer(s, c, x) ==> #[trigger] machine::byte_at(t.mem, x)
            == machine::byte_at(s.mem, x)
}

proof fn lemma_received(s: MachineState, c: BulkCopy, all: Seq<u8>, k: nat)
    requires
        c.done == 0,
        all.len() == c.count,
        buffer_sound(s, c),
        k <= pieces(c),
    ensures
        written(s, c, all, received(s, c, all, k), advanced(c, k).done as int),
    decreases k,
{
    lemma_advanced(c, k);
    if k > 0 {
        lemma_received(s, c, all, (k - 1) as nat);
        lemma_advanced(c, (k - 1) as nat);
        let last = advanced(c, (k - 1) as nat);
        let t = received(s, c, all, (k - 1) as nat);
        let r = received(s, c, all, k);
        let n = last.done as int;
        let bytes = all.subrange(n, n + last.piece());
        lemma_piece_written(s, c, t, n, bytes, 0, 0);
        assert forall|i: int| 0 <= i < n + last.piece() implies machine::byte_at(
            r.mem,
            #[trigger] place(s, c, i),
        ) == all[i] by {
            if i < n {
                let x = place(s, c, i);
                assert forall|j: int| 0 <= j < bytes.len() implies x != #[trigger] place(
                    s,
                    c,
                    n + j,
                ) by {
                    assert(place(s, c, i) != place(s, c, n + j));
                }
                assert(0 <= x < 8 * s.mem.len());
                assert(machine::byte_at(r.mem, x) == machine::byte_at(t.mem, x));
            } else {
                assert(place(s, c, n + (i - n)) == place(s, c, i));
                assert(bytes[i - n] == all[i]);
            }
        }
        assert forall|x: int| 0 <= x < 8 * s.mem.len() && !in_buffer(
            s,
            c,
            x,
        ) implies #[trigger] machine::byte_at(r.mem, x) == machine::byte_at(s.mem, x) by {
            assert forall|j: int| 0 <= j < bytes.len() implies x != #[trigger] place(
                s,
                c,
                n + j,
            ) by {
                assert(0 <= n + j < c.count);
            }
            assert(machine::byte_at(r.mem, x) == machine::byte_at(t.mem, x));
        }
    }
}

/// After a copy from the device the whole buffer of the client holds what the
/// service answered, each byte once and in order, and no other byte of memory
/// is changed.
pub proof fn law_copy_to_client_writes_all(s: MachineState, c: BulkCopy, all: Seq<u8>)
    requires
        c.done == 0,
        all.len() == c.count,
        buffer_sound(s, c),
    ensures
        ({
            let t = received(s, c, all, pieces(c));
            &&& t == MachineState { mem: t.mem, ..s }
            &&& forall|i: int|
                0 <= i < c.count ==> relay::client_byte(
                    t,
                    c.table,
                    #[trigger] address::addr_add(c.host, i),
                ) == Some(all[i])
            &&& forall|x: int|
                0 <= x < 8 * s.mem.len() && !in_buffer(s, c, x) ==> #[trigger] machine::byte_at(
                    t.mem,
                    x,
                ) == machine::byte_at(s.mem, x)
        }),
        forall|k: nat|
            k < pieces(c) ==> {
                let p = #[trigger] advanced(c, k);
                relay::scattered(
                    received(s, c, all, k),
                    p.table,
                    p.host_addr(),
                    all.subrange(p.done as int, p.done + p.piece()),
                    0,
                    0,
                ).1
            },
{
    let t = received(s, c, all, pieces(c));
    lemma_received(s, c, all, pieces(c));
    lemma_advanced(c, pieces(c));
    assert forall|i: int| 0 <= i < c.count implies relay::client_byte(
        t,
        c.table,
        #[trigger] address::addr_add(c.host, i),
    ) == Some(all[i]) by {
        lemma_frame_kept(s, c, t, i);
        assert(machine::byte_at(t.mem, place(s, c, i)) == all[i]);
    }
    assert forall|k: nat| k < pieces(c) implies {
        let p = #[trigger] advanced(c, k);
        relay::scattered(
            received(s, c, all, k),
            p.table,
            p.host_addr(),
            all.subrange(p.done as int, p.done + p.piece()),
            0,
            0,
        ).1
    } by {
        let p = advanced(c, k);
        lemma_advanced(c, k);
        lemma_received(s, c, all, k);
        lemma_piece_written(
            s,
            c,
            received(s, c, all, k),
            p.done as int,
            all.subrange(p.done as int, p.done + p.piece()),
            0,
            0,
        );
    }
}

} // verus!
