//! Requests of processes to the guest.
use vstd::prelude::*;
use crate::memory::machine;
use crate::memory::machine::{Machine, MachineState};
use crate::process_manager::process_paging::entry;
use crate::process_manager::process_paging::growth;
use crate::process_manager::process_paging::loading;
use crate::process_manager::process_paging::transfer;
use crate::process_manager::process_paging::walk;
use crate::process_manager::process_paging::walk::ProcessPageTableRef;
use crate::process_runtime::{
    PALContext, ReturnTarget, TrustletReturnType, RETURN_TO_GUEST, RETURN_TO_PROCESS,
};

verus! {

/// What a process asks the guest for.
#[derive(Clone, Copy, PartialEq, Eq, Structural, Debug)]
pub enum PalSvsmGuestRequestType {
    FILEATTR,
    OPEN,
    READ,
}

/// What a number asks for.
pub open spec fn request_of(number: u64) -> Option<PalSvsmGuestRequestType> {
    if number == 0 {
        Some(PalSvsmGuestRequestType::FILEATTR)
    } else if number == 1 {
        Some(PalSvsmGuestRequestType::OPEN)
    } else if number == 2 {
        Some(PalSvsmGuestRequestType::READ)
    } else {
        None
    }
}

/// How the guest is told of a request.
pub open spec fn told(request: PalSvsmGuestRequestType) -> TrustletReturnType {
    match request {
        PalSvsmGuestRequestType::FILEATTR => TrustletReturnType::FILEATTR,
        PalSvsmGuestRequestType::OPEN => TrustletReturnType::OPEN,
        PalSvsmGuestRequestType::READ => TrustletReturnType::READ,
    }
}

/// Asks the guest.
pub trait ProcessRuntimeGuestRequest {
    fn pal_svsm_guest_request(&mut self, m: &mut Machine) -> ReturnTarget;
}

/// The machine after `n` bytes were copied, one after the other.
pub open spec fn bytes_copied(s: MachineState, dst: int, src: int, n: nat) -> MachineState
    decreases n,
{
    if n == 0 {
        s
    } else {
        let t = bytes_copied(s, dst, src, (n - 1) as nat);
        MachineState {
            mem: machine::store_byte(t.mem, dst + n - 1, machine::byte_at(t.mem, src + n - 1)),
            ..t
        }
    }
}

/// Copies bytes, one after the other.
pub(crate) fn copy_bytes(m: &mut Machine, dst: u64, src: u64, n: u64)
    requires
        dst + n <= u64::MAX,
        src + n <= u64::MAX,
    ensures
        final(m)@ == bytes_copied(old(m)@, dst as int, src as int, n as nat),
{
    let mut i: u64 = 0;
    while i < n
        invariant
            i <= n,
            dst + n <= u64::MAX,
            src + n <= u64::MAX,
            m@ == bytes_copied(old(m)@, dst as int, src as int, i as nat),
        decreases n - i,
    {
        let b = m.read_byte(src + i);
        m.write_byte(dst + i, b);
        i = i + 1;
    }
}

impl PALContext {
    /// Whether the data of a request can be handed to the guest: there is room
    /// for it, and it lies within one page of the process.
    pub open spec fn request_fits(self, s: MachineState) -> bool {
        &&& self.vmsa.rdx <= self.invocation_arg_size
        &&& walk::translate(s, self.vmsa.cr3, self.vmsa.rcx) != 0
        &&& self.vmsa.rcx % 4096 + self.vmsa.rdx <= 4096
    }

    /// The context and the machine after a request was served, and where it
    /// leads.
    pub open spec fn request_served(self, s: MachineState) -> (
        PALContext,
        MachineState,
        ReturnTarget,
    ) {
        match request_of(self.vmsa.rbx) {
            Some(request) if self.request_fits(s) => (
                self.returning(told(request)),
                bytes_copied(
                    s,
                    walk::translate(
                        s,
                        self.guest_page_table,
                        self.invocation_arg_guest_vaddr,
                    ) as int,
                    walk::translate(s, self.vmsa.cr3, self.vmsa.rcx) + self.vmsa.rcx % 4096,
                    self.vmsa.rdx as nat,
                ),
                RETURN_TO_GUEST,
            ),
            _ => (self.refused(), s, RETURN_TO_PROCESS),
        }
    }
}

impl ProcessRuntimeGuestRequest for PALContext {
    /// Asks the guest for what `rbx` says, with the `rdx` bytes at `rcx`. The
    /// process goes on when the guest has done it. The answer is -1 where the
    /// request is unknown or its data cannot be handed over.
    fn pal_svsm_guest_request(&mut self, m: &mut Machine) -> (r: ReturnTarget)
        ensures
            (*final(self), final(m)@, r) == old(self).request_served(old(m)@),
    {
        let request_type = match self.vmsa.rbx {
            0 => PalSvsmGuestRequestType::FILEATTR,
            1 => PalSvsmGuestRequestType::OPEN,
            2 => PalSvsmGuestRequestType::READ,
            _ => {
                return self.refuse();
            },
        };
        let data_ptr = self.vmsa.rcx;
        let data_size = self.vmsa.rdx;
        if data_size > self.invocation_arg_size {
            return self.refuse();
        }
        let data_page = ProcessPageTableRef::external(self.vmsa.cr3).get_page(m, data_ptr);
        let offset = data_ptr % 4096;
        if data_page == 0 || data_size > 4096 || offset + data_size > 4096 {
            return self.refuse();
        }
        let arg_page = ProcessPageTableRef::external(self.guest_page_table).get_page(
            m,
            self.invocation_arg_guest_vaddr,
        );
        proof {
            walk::lemma_translate_bound(m@, self.vmsa.cr3, data_ptr);
            walk::lemma_translate_bound(
                m@,
                self.guest_page_table,
                self.invocation_arg_guest_vaddr,
            );
        }
        copy_bytes(m, arg_page, data_page + offset, data_size);
        let why = match request_type {
            PalSvsmGuestRequestType::FILEATTR => TrustletReturnType::FILEATTR,
            PalSvsmGuestRequestType::OPEN => TrustletReturnType::OPEN,
            PalSvsmGuestRequestType::READ => TrustletReturnType::READ,
        };
        self.return_values.result(why.code());
        RETURN_TO_GUEST
    }
}

/// Bytes that were copied to another place are there as they were, and no other
/// byte of memory is changed.
pub proof fn law_copied_bytes_arrive(s: MachineState, dst: int, src: int, n: nat)
    requires
        0 <= dst,
        0 <= src,
        dst + n <= 8 * s.mem.len(),
        src + n <= 8 * s.mem.len(),
        dst + n <= src || src + n <= dst,
    ensures
        ({
            let t = bytes_copied(s, dst, src, n);
            &&& t == (MachineState { mem: t.mem, ..s })
            &&& t.mem.len() == s.mem.len()
            &&& forall|x: int|
                0 <= x < 8 * s.mem.len() ==> #[trigger] machine::byte_at(t.mem, x) == (if dst <= x
                    < dst + n {
                    machine::byte_at(s.mem, src + (x - dst))
                } else {
                    machine::byte_at(s.mem, x)
                })
            &&& forall|w: int|
                0 <= w < s.mem.len() && (8 * w + 8 <= dst || dst + n <= 8 * w)
                    ==> #[trigger] t.mem[w] == s.mem[w]
        }),
    decreases n,
{
    if n > 0 {
        let k = n - 1;
        law_copied_bytes_arrive(s, dst, src, k as nat);
        let u = bytes_copied(s, dst, src, k as nat);
        let b = machine::byte_at(u.mem, src + k);
        assert(b == machine::byte_at(s.mem, src + k));
        let t = bytes_copied(s, dst, src, n);
        assert(t.mem == machine::store_byte(u.mem, dst + k, b));
        assert forall|x: int| 0 <= x < 8 * s.mem.len() implies #[trigger] machine::byte_at(t.mem, x)
            == (if dst <= x < dst + n {
            machine::byte_at(s.mem, src + (x - dst))
        } else {
            machine::byte_at(s.mem, x)
        }) by {
            machine::law_store_byte(u.mem, dst + k, b, x);
            assert(machine::byte_at(u.mem, x) == (if dst <= x < dst + k {
                machine::byte_at(s.mem, src + (x - dst))
            } else {
                machine::byte_at(s.mem, x)
            }));
        }
    }
}

/// Copying bytes into a page changes no other page, and no address leads
/// elsewhere, as long as the page is no table on the way.
pub proof fn lemma_copy_keeps_ways(s: MachineState, page: u64, dst: int, src: int, n: nat, root: u64, va: u64)
    requires
        page % 4096 == 0,
        page as int / 8 + 512 <= s.mem.len(),
        page <= dst,
        dst + n <= page + 4096,
        0 <= src,
        src + n <= 8 * s.mem.len(),
        dst + n <= src || src + n <= dst,
        root % 4096 == 0,
        transfer::way_avoids(s, root, va, page),
    ensures
        ({
            let t = bytes_copied(s, dst, src, n);
            &&& walk::leaf_below(t, root, va, 3) == walk::leaf_below(s, root, va, 3)
            &&& walk::translate(t, root, va) == walk::translate(s, root, va)
        }),
{
    let t = bytes_copied(s, dst, src, n);
    law_copied_bytes_arrive(s, dst, src, n);
    let data = machine::page_words(t.mem, page);
    let u = s.fill(page, data);
    assert(u.mem =~= t.mem) by {
        assert forall|w: int| 0 <= w < s.mem.len() implies u.mem[w] == t.mem[w] by {
            let i = w - page as int / 8;
            if 0 <= i < 512 {
                assert(data[i] == t.mem[w]);
            } else {
                assert(t.mem[w] == s.mem[w]);
            }
        }
    }
    assert(u == t);
    transfer::lemma_way_kept(s, root, va, page, data);
}

/// The guest gets the data of a request as the process has it: each byte of it,
/// in order, from the start of the page that the guest keeps for it on. No other
/// byte of memory is changed. The guest is told what the request is for. A
/// request that is unknown, or whose data cannot be handed over, reaches nobody:
/// the process is answered with -1.
pub proof fn law_guest_gets_the_request(ctx: PALContext, s: MachineState)
    requires
        ({
            let data = walk::translate(s, ctx.vmsa.cr3, ctx.vmsa.rcx);
            let page = walk::translate(s, ctx.guest_page_table, ctx.invocation_arg_guest_vaddr);
            &&& data + 4096 <= 8 * s.mem.len()
            &&& page + 4096 <= 8 * s.mem.len()
            &&& data != page
        }),
    ensures
        ({
            let (after, t, target) = ctx.request_served(s);
            let v = ctx.vmsa;
            let page = walk::translate(s, ctx.guest_page_table, ctx.invocation_arg_guest_vaddr);
            let handed_over = v.rbx <= 2 && v.rdx <= ctx.invocation_arg_size && walk::translate(
                s,
                v.cr3,
                v.rcx,
            ) != 0 && v.rcx % 4096 + v.rdx <= 4096;
            if handed_over {
                &&& target == RETURN_TO_GUEST
                &&& after == (PALContext { return_values: after.return_values, ..ctx })
                &&& after.return_values.rcx == (if v.rbx == 0 {
                    TrustletReturnType::FILEATTR.number()
                } else if v.rbx == 1 {
                    TrustletReturnType::OPEN.number()
                } else {
                    TrustletReturnType::READ.number()
                })
                &&& t == (MachineState { mem: t.mem, ..s })
                &&& forall|i: int|
                    0 <= i < v.rdx ==> #[trigger] machine::byte_at(t.mem, page + i)
                        == loading::found_byte(s, v.cr3, (v.rcx + i) as u64)
                &&& forall|x: int|
                    0 <= x < 8 * s.mem.len() && !(page <= x < page + v.rdx)
                        ==> #[trigger] machine::byte_at(t.mem, x) == machine::byte_at(s.mem, x)
            } else {
                &&& target == RETURN_TO_PROCESS
                &&& t == s
                &&& after == (PALContext { vmsa: after.vmsa, ..ctx })
                &&& after.vmsa.rcx == 0xFFFF_FFFF_FFFF_FFFF
            }
        }),
{
    let v = ctx.vmsa;
    let data = walk::translate(s, v.cr3, v.rcx);
    let page = walk::translate(s, ctx.guest_page_table, ctx.invocation_arg_guest_vaddr);
    lemma_aligned(s, v.cr3, v.rcx);
    lemma_aligned(s, ctx.guest_page_table, ctx.invocation_arg_guest_vaddr);
    if request_of(v.rbx) is Some && ctx.request_fits(s) {
        lemma_handed_over(s, v.cr3, v.rcx, page, v.rdx);
    }
}

proof fn lemma_handed_over(s: MachineState, root: u64, va: u64, page: u64, n: u64)
    requires
        page % 4096 == 0,
        walk::translate(s, root, va) != 0,
        walk::translate(s, root, va) + 4096 <= 8 * s.mem.len(),
        page + 4096 <= 8 * s.mem.len(),
        walk::translate(s, root, va) != page,
        va % 4096 + n <= 4096,
    ensures
        ({
            let t = bytes_copied(
                s,
                page as int,
                walk::translate(s, root, va) + va % 4096,
                n as nat,
            );
            &&& t == (MachineState { mem: t.mem, ..s })
            &&& forall|i: int|
                0 <= i < n ==> #[trigger] machine::byte_at(t.mem, page + i) == loading::found_byte(
                    s,
                    root,
                    (va + i) as u64,
                )
            &&& forall|x: int|
                0 <= x < 8 * s.mem.len() && !(page <= x < page + n) ==> #[trigger] machine::byte_at(
                    t.mem,
                    x,
                ) == machine::byte_at(s.mem, x)
        }),
{
    let data = walk::translate(s, root, va);
    let src = data + va % 4096;
    let t = bytes_copied(s, page as int, src, n as nat);
    lemma_aligned(s, root, va);
    assert(page + n <= src || src + n <= page) by {
        lemma_pages_apart(page, data);
    }
    law_copied_bytes_arrive(s, page as int, src, n as nat);
    assert forall|i: int| 0 <= i < n implies #[trigger] machine::byte_at(t.mem, page + i)
        == loading::found_byte(s, root, (va + i) as u64) by {
        lemma_found_near(s, root, va, i);
        assert(machine::byte_at(t.mem, page + i) == machine::byte_at(s.mem, src + i));
    }
}

/// Different pages do not overlap.
pub proof fn lemma_pages_apart(a: u64, b: u64)
    requires
        a % 4096 == 0,
        b % 4096 == 0,
        a != b,
    ensures
        a + 4096 <= b || b + 4096 <= a,
{
}

/// What a process finds behind an address, in the same page.
pub proof fn lemma_found_near(s: MachineState, root: u64, va: u64, i: int)
    requires
        0 <= i,
        va % 4096 + i < 4096,
        walk::translate(s, root, va) != 0,
    ensures
        loading::found_byte(s, root, (va + i) as u64) == machine::byte_at(
            s.mem,
            walk::translate(s, root, va) + va % 4096 + i,
        ),
{
    loading::lemma_near(va, i);
    growth::lemma_leaf_of_page(s, root, va, (va + i) as u64);
}

/// Pages start at page boundaries.
pub proof fn lemma_aligned(s: MachineState, root: u64, va: u64)
    ensures
        walk::translate(s, root, va) % 4096 == 0,
{
    match walk::leaf_below(s, root, va, 3) {
        Some(e) => entry::lemma_strip_bound(s.c_bit, e),
        None => {},
    }
}

} // verus!
