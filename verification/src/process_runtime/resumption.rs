//! What a process finds that goes on after the guest has served a request of it.
use vstd::prelude::*;
use crate::cpu::vmsa::Vmsa;
use crate::memory::machine;
use crate::memory::machine::MachineState;
use crate::process_manager::process::TrustedProcess;
use crate::process_manager::process_paging::entry;
use crate::process_manager::process_paging::expected;
use crate::process_manager::process_paging::isolation;
use crate::process_manager::process_paging::loading;
use crate::process_manager::process_paging::mapping;
use crate::process_manager::process_paging::soundness;
use crate::process_manager::process_paging::transfer;
use crate::process_manager::process_paging::walk;
use crate::process_runtime::invoke::{Invocation, TrustletInvocationType};
use crate::process_runtime::process::request;
use crate::sev::utils::VMPL1_RWX;

verus! {

/// A process whose request for a file was served finds the guest's answer, each
/// byte of it in order, where it asked for it. No other byte is changed, and
/// neither is the process or a register of it.
pub proof fn law_resumed_process_finds_the_answer(
    inv: Invocation,
    s: MachineState,
    p: TrustedProcess,
    v: Vmsa,
    t: MachineState,
    q: TrustedProcess,
    w: Vmsa,
)
    requires
        inv.kind == TrustletInvocationType::FILEATTR || inv.kind == TrustletInvocationType::OPEN
            || inv.kind == TrustletInvocationType::READ,
        inv.can_prepare(p, v),
        inv.prepared(s, p, v, t, q, w),
        v.cr3 % 4096 == 0,
        walk::translate(s, v.cr3, v.rcx) != 0,
        walk::translate(s, v.cr3, v.rcx) + 4096 <= 8 * s.mem.len(),
        walk::translate(s, inv.guest_page_table, inv.arg_vaddr) + 4096 <= 8 * s.mem.len(),
        walk::translate(s, inv.guest_page_table, inv.arg_vaddr) != walk::translate(
            s,
            v.cr3,
            v.rcx,
        ),
        transfer::way_avoids(s, v.cr3, v.rcx, walk::translate(s, v.cr3, v.rcx)),
    ensures
        w == v,
        q == p,
        forall|i: int|
            0 <= i < inv.arg_size ==> #[trigger] loading::found_byte(t, v.cr3, (v.rcx + i) as u64)
                == machine::byte_at(
                s.mem,
                walk::translate(s, inv.guest_page_table, inv.arg_vaddr) + i,
            ),
        forall|x: int|
            0 <= x < 8 * s.mem.len() && !(walk::translate(s, v.cr3, v.rcx) + v.rcx % 4096 <= x
                < walk::translate(s, v.cr3, v.rcx) + v.rcx % 4096 + inv.arg_size)
                ==> #[trigger] machine::byte_at(t.mem, x) == machine::byte_at(s.mem, x),
{
    let page = walk::translate(s, inv.guest_page_table, inv.arg_vaddr);
    request::lemma_aligned(s, inv.guest_page_table, inv.arg_vaddr);
    lemma_answer_copied(s, v.cr3, v.rcx, page, inv.arg_size);
}

proof fn lemma_answer_copied(s: MachineState, root: u64, va: u64, page: u64, n: u64)
    requires
        root % 4096 == 0,
        page % 4096 == 0,
        walk::translate(s, root, va) != 0,
        walk::translate(s, root, va) + 4096 <= 8 * s.mem.len(),
        page + 4096 <= 8 * s.mem.len(),
        walk::translate(s, root, va) != page,
        va % 4096 + n <= 4096,
        transfer::way_avoids(s, root, va, walk::translate(s, root, va)),
    ensures
        ({
            let dst = walk::translate(s, root, va) + va % 4096;
            let t = request::bytes_copied(s, dst, page as int, n as nat);
            &&& forall|i: int|
                0 <= i < n ==> #[trigger] loading::found_byte(t, root, (va + i) as u64)
                    == machine::byte_at(s.mem, page + i)
            &&& forall|x: int|
                0 <= x < 8 * s.mem.len() && !(dst <= x < dst + n) ==> #[trigger] machine::byte_at(
                    t.mem,
                    x,
                ) == machine::byte_at(s.mem, x)
        }),
{
    let data = walk::translate(s, root, va);
    let dst = data + va % 4096;
    let t = request::bytes_copied(s, dst, page as int, n as nat);
    request::lemma_aligned(s, root, va);
    assert(dst + n <= page || page + n <= dst) by {
        request::lemma_pages_apart(page, data);
    }
    request::law_copied_bytes_arrive(s, dst, page as int, n as nat);
    request::lemma_copy_keeps_ways(s, data, dst, page as int, n as nat, root, va);
    assert forall|i: int| 0 <= i < n implies #[trigger] loading::found_byte(
        t,
        root,
        (va + i) as u64,
    ) == machine::byte_at(s.mem, page + i) by {
        request::lemma_found_near(t, root, va, i);
        assert(machine::byte_at(t.mem, dst + i) == machine::byte_at(s.mem, page + i));
    }
}

/// A process that waited for the page of a file finds the page that the guest
/// has at the address in the fifth word of its answer. The page is the process's
/// own, with the protection that the process asked for; all else is found where
/// it was.
pub proof fn law_awaited_file_page_arrives(
    inv: Invocation,
    s: MachineState,
    p: TrustedProcess,
    v: Vmsa,
    t: MachineState,
    q: TrustedProcess,
    w: Vmsa,
)
    requires
        inv.kind == TrustletInvocationType::MMAP,
        inv.prepared(s, p, v, t, q, w),
        soundness::sound(s, v.cr3),
        s.pool.available() >= loading::put_takes(s, v.cr3, p.pf_target_vaddr),
        !soundness::in_pool(
            s.pool,
            walk::translate(
                s,
                inv.guest_page_table,
                s.rd(walk::translate(s, inv.guest_page_table, inv.arg_vaddr), 4),
            ),
        ),
    ensures
        w == v,
        q == p,
        soundness::sound(t, v.cr3),
        soundness::others_kept(s, t, v.cr3),
        machine::page_words(t.mem, walk::translate(t, v.cr3, p.pf_target_vaddr))
            == machine::page_words(
            s.mem,
            walk::translate(
                s,
                inv.guest_page_table,
                s.rd(walk::translate(s, inv.guest_page_table, inv.arg_vaddr), 4),
            ),
        ),
        soundness::in_pool(s.pool, walk::translate(t, v.cr3, p.pf_target_vaddr)),
        !soundness::in_pool(t.pool, walk::translate(t, v.cr3, p.pf_target_vaddr)),
        forall|word: u64| #[trigger]
            expected::has_slot(s, v.cr3, p.pf_target_vaddr, word) ==> walk::leaf_below(
                t,
                v.cr3,
                p.pf_target_vaddr,
                3,
            ) == Some(
                entry::entry_word(
                    s.c_bit,
                    walk::translate(t, v.cr3, p.pf_target_vaddr),
                    entry::flags_of(word) | 0x1,
                ),
            ),
        forall|vb: u64|
            !soundness::same_page(p.pf_target_vaddr, vb) ==> #[trigger] walk::leaf_below(
                t,
                v.cr3,
                vb,
                3,
            ) == walk::leaf_below(s, v.cr3, vb, 3),
{
    let root = v.cr3;
    let va = p.pf_target_vaddr;
    let buf = s.rd(walk::translate(s, inv.guest_page_table, inv.arg_vaddr), 4);
    let source = walk::translate(s, inv.guest_page_table, buf);
    request::lemma_aligned(s, inv.guest_page_table, buf);
    lemma_page_delivered(s, root, va, source);
    assert forall|word: u64| #[trigger] expected::has_slot(s, root, va, word) implies walk::leaf_below(
        t,
        root,
        va,
        3,
    ) == Some(
        entry::entry_word(s.c_bit, walk::translate(t, root, va), entry::flags_of(word) | 0x1),
    ) by {
        lemma_protection_kept(s, root, va, source, word);
    }
}

/// A process whose request for an inference was served has the first word of the
/// guest's answer in its register; nothing else is changed.
pub proof fn law_inference_answer_reaches_the_process(
    inv: Invocation,
    s: MachineState,
    p: TrustedProcess,
    v: Vmsa,
    t: MachineState,
    q: TrustedProcess,
    w: Vmsa,
)
    requires
        inv.kind == TrustletInvocationType::INFERREGISTER || inv.kind
            == TrustletInvocationType::INFERPROMPT,
        inv.prepared(s, p, v, t, q, w),
    ensures
        w.rdx == machine::page_words(
            s.mem,
            walk::translate(s, inv.guest_page_table, inv.arg_vaddr),
        )[0],
        w == (Vmsa { rdx: w.rdx, ..v }),
        q == p,
        t == s,
{
}

/// The machine in which a fresh page holds what another one holds.
spec fn taken_over(s: MachineState, source: u64) -> MachineState {
    let (u, page) = s.take_page();
    u.grant(page, VMPL1_RWX).copy(page, source)
}

proof fn lemma_taken_over(s: MachineState, root: u64, source: u64)
    requires
        soundness::sound(s, root),
        s.pool.available() > 0,
        source % 4096 == 0,
        !soundness::in_pool(s.pool, source),
    ensures
        ({
            let (u, page) = s.take_page();
            let c = taken_over(s, source);
            c == (MachineState {
                ops: c.ops,
                ..u.fill(page, machine::page_words(s.mem, source))
            })
        }),
{
    let (u, page) = s.take_page();
    let g = u.grant(page, VMPL1_RWX);
    let data = machine::page_words(s.mem, source);
    soundness::law_taken_page_is_fresh(s);
    assert(machine::page_words(g.mem, source) =~= data) by {
        assert forall|i: int| 0 <= i < 512 implies #[trigger] machine::page_words(g.mem, source)[i]
            == data[i] by {
            assert(u.rd(source, i) == s.rd(source, i));
        }
    }
}

proof fn lemma_page_delivered(s: MachineState, root: u64, va: u64, source: u64)
    requires
        soundness::sound(s, root),
        s.pool.available() >= loading::put_takes(s, root, va),
        source % 4096 == 0,
        !soundness::in_pool(s.pool, source),
    ensures
        ({
            let page = s.take_page().1;
            let t = mapping::map_page(taken_over(s, source), root, va, page, 0x400);
            &&& soundness::sound(t, root)
            &&& soundness::others_kept(s, t, root)
            &&& walk::translate(t, root, va) == page
            &&& machine::page_words(t.mem, page) == machine::page_words(s.mem, source)
            &&& soundness::in_pool(s.pool, page)
            &&& !soundness::in_pool(t.pool, page)
            &&& forall|vb: u64|
                !soundness::same_page(va, vb) ==> #[trigger] walk::leaf_below(t, root, vb, 3)
                    == walk::leaf_below(s, root, vb, 3)
        }),
{
    let (u, page) = s.take_page();
    let c = taken_over(s, source);
    let t = mapping::map_page(c, root, va, page, 0x400);
    soundness::law_taken_page_is_fresh(s);
    lemma_taken_over(s, root, source);
    loading::lemma_filled(s, c, root, va, machine::page_words(s.mem, source));
    soundness::law_delivered_page_is_found(c, root, va, page);
    soundness::lemma_others_kept(s, c, t, root);
    lemma_page_kept(c, t, root, page);
}

proof fn lemma_protection_kept(s: MachineState, root: u64, va: u64, source: u64, word: u64)
    requires
        soundness::sound(s, root),
        s.pool.available() > 0,
        source % 4096 == 0,
        !soundness::in_pool(s.pool, source),
        expected::has_slot(s, root, va, word),
    ensures
        ({
            let page = s.take_page().1;
            let t = mapping::map_page(taken_over(s, source), root, va, page, 0x400);
            &&& walk::translate(t, root, va) == page
            &&& walk::leaf_below(t, root, va, 3) == Some(
                entry::entry_word(s.c_bit, page, entry::flags_of(word) | 0x1),
            )
        }),
{
    let (u, page) = s.take_page();
    let c = taken_over(s, source);
    soundness::law_taken_page_is_fresh(s);
    lemma_taken_over(s, root, source);
    let data = machine::page_words(s.mem, source);
    loading::lemma_filled(s, c, root, va, data);
    lemma_slot_kept(s, c, root, va, word);
    expected::law_awaited_page_is_found(c, root, va, page, word);
}

/// A page that is in use and no table is as it was.
proof fn lemma_page_kept(s: MachineState, t: MachineState, root: u64, page: u64)
    requires
        soundness::others_kept(s, t, root),
        page % 4096 == 0,
        !soundness::in_pool(s.pool, page),
        !soundness::is_table(s, root, page),
    ensures
        machine::page_words(t.mem, page) == machine::page_words(s.mem, page),
        !soundness::in_pool(t.pool, page),
{
    if soundness::in_pool(t.pool, page) {
        assert(soundness::in_pool(s.pool, page));
    }
    assert(machine::page_words(t.mem, page) =~= machine::page_words(s.mem, page)) by {
        assert forall|i: int| 0 <= i < 512 implies #[trigger] machine::page_words(t.mem, page)[i]
            == machine::page_words(s.mem, page)[i] by {
            assert(t.rd(page, i) == s.rd(page, i));
        }
    }
}

/// A slot is where it was once another page was taken and filled.
proof fn lemma_slot_kept(s: MachineState, w: MachineState, root: u64, va: u64, word: u64)
    requires
        expected::has_slot(s, root, va, word),
        soundness::sound(s, root),
        soundness::pool_sound(w),
        s.pool.available() > 0,
        ({
            let (u, page) = s.take_page();
            exists|data: Seq<u64>|
                data.len() == 512 && w == (MachineState { ops: w.ops, ..#[trigger] u.fill(page, data) })
        }),
    ensures
        expected::has_slot(w, root, va, word),
{
    let (u, page) = s.take_page();
    let data = choose|data: Seq<u64>|
        data.len() == 512 && w == (MachineState { ops: w.ops, ..#[trigger] u.fill(page, data) });
    soundness::law_taken_page_is_fresh(s);
    transfer::lemma_fill(u, page, data);
    assert forall|pa: u64, i: int|
        pa % 4096 == 0 && 0 <= i < 512 && !soundness::in_pool(s.pool, pa) implies #[trigger] w.rd(
        pa,
        i,
    ) == s.rd(pa, i) by {
        assert(pa != page);
        assert(u.fill(page, data).rd(pa, i) == u.rd(pa, i));
        assert(u.rd(pa, i) == s.rd(pa, i));
    }
    assert(isolation::outside(s, w, 0));
    assert forall|vb: u64, l: int| 0 <= l <= 3 && #[trigger] soundness::reach(s, root, vb, l) implies soundness::tab(
        s,
        root,
        vb,
        l,
    ) != 0 by {
        assert(soundness::is_page(s, soundness::tab(s, root, vb, l)));
    }
    isolation::lemma_untouched(s, w, root, 0);
    let table = soundness::tab(s, root, va, 0);
    assert(soundness::is_page(s, table) && !soundness::in_pool(s.pool, table));
    assert(w.rd(table, entry::table_index(va, 0)) == s.rd(table, entry::table_index(va, 0)));
}

} // verus!
