//! What a program that was loaded finds in its memory.
use vstd::prelude::*;
use crate::address;
use crate::memory::machine;
use crate::memory::machine::MachineState;
use crate::process_manager::process_paging::elf_image;
use crate::process_manager::process_paging::elf_image::{Elf64Phdr, PT_LOAD, STACK_PAGES};
use crate::process_manager::process_paging::entry;
use crate::process_manager::process_paging::loading;
use crate::process_manager::process_paging::mapping;
use crate::process_manager::process_paging::mapping::TP_STACK_START_VADDR;
use crate::process_manager::process_paging::origin;
use crate::process_manager::process_paging::ranges;
use crate::process_manager::process_paging::soundness;
use crate::process_manager::process_paging::walk;
use crate::sev::utils::VMPL1_RWX;

verus! {

/// The pages that the first `n` pages of a segment take.
pub open spec fn segment_takes(
    s: MachineState,
    root: u64,
    hdr: Elf64Phdr,
    elf: Seq<u8>,
    n: nat,
) -> nat
    decreases n,
{
    if n == 0 {
        0
    } else {
        let k = (n - 1) as nat;
        segment_takes(s, root, hdr, elf, k) + loading::put_takes(
            elf_image::segment_loaded(s, root, hdr, elf, k),
            root,
            address::page_above(hdr.p_vaddr, k as int),
        )
    }
}

/// The pages that the segments of the first `n` program headers take.
pub open spec fn segments_take(
    s: MachineState,
    root: u64,
    phdrs: Seq<Elf64Phdr>,
    elf: Seq<u8>,
    n: nat,
) -> nat
    decreases n,
{
    if n == 0 {
        0
    } else {
        let k = (n - 1) as nat;
        let hdr = phdrs[k as int];
        segments_take(s, root, phdrs, elf, k) + (if hdr.p_type == PT_LOAD {
            segment_takes(
                elf_image::segments_loaded(s, root, phdrs, elf, k),
                root,
                hdr,
                elf,
                hdr.pages() as nat,
            )
        } else {
            0
        })
    }
}

/// The pages that a run of `n` cleared pages takes.
pub open spec fn cleared_takes(s: MachineState, root: u64, va: u64, n: nat, flags: u64) -> nat
    decreases n,
{
    if n == 0 {
        0
    } else {
        let k = (n - 1) as nat;
        cleared_takes(s, root, va, k, flags) + loading::put_takes(
            mapping::map_cleared(s, root, va, k, flags),
            root,
            address::page_above(va, k as int),
        )
    }
}

/// Whether an address lies in one of the first `n` pages from `start` on.
pub open spec fn in_run(start: u64, n: int, va: u64) -> bool {
    exists|i: int|
        0 <= i < n && soundness::same_page(#[trigger] address::page_above(start, i), va)
}

/// Whether a segment is loaded at an address.
pub open spec fn loads_at(hdr: Elf64Phdr, va: u64) -> bool {
    hdr.p_type == PT_LOAD && in_run(hdr.p_vaddr, hdr.pages(), va)
}

proof fn lemma_page_flags(hdr: Elf64Phdr)
    ensures
        soundness::page_flags(hdr.page_flags()),
        hdr.page_flags() & 0x1 == 0x1,
        hdr.page_flags() & 0x2 != 0 <==> hdr.p_flags & 0x2 != 0,
        hdr.page_flags() & 0x4 != 0,
        hdr.page_flags() & 0x8000_0000_0000_0000 == 0 <==> hdr.p_flags & 0x1 != 0,
        0x8000_0000_0000_0167u64 & 0x2 != 0,
        0x8000_0000_0000_0167u64 & 0x8000_0000_0000_0000 != 0,
        soundness::page_flags(0x8000_0000_0000_0167),
        0x8000_0000_0000_0167u64 & 0x1 == 0x1,
{
    assert(0x147u64 & 0x000F_FFFF_FFFF_F000 == 0 && 0x147u64 & 0x400 != 0x400 && 0x147u64 & 0x1
        == 0x1 && 0x145u64 & 0x000F_FFFF_FFFF_F000 == 0 && 0x145u64 & 0x400 != 0x400 && 0x145u64
        & 0x1 == 0x1 && 0x8000_0000_0000_0147u64 & 0x000F_FFFF_FFFF_F000 == 0
        && 0x8000_0000_0000_0147u64 & 0x400 != 0x400 && 0x8000_0000_0000_0147u64 & 0x1 == 0x1
        && 0x8000_0000_0000_0145u64 & 0x000F_FFFF_FFFF_F000 == 0 && 0x8000_0000_0000_0145u64 & 0x400
        != 0x400 && 0x8000_0000_0000_0145u64 & 0x1 == 0x1 && 0x8000_0000_0000_0167u64
        & 0x000F_FFFF_FFFF_F000 == 0 && 0x8000_0000_0000_0167u64 & 0x400 != 0x400
        && 0x8000_0000_0000_0167u64 & 0x1 == 0x1 && 0x147u64 & 0x2 != 0 && 0x145u64 & 0x2 == 0
        && 0x8000_0000_0000_0147u64 & 0x2 != 0 && 0x8000_0000_0000_0145u64 & 0x2 == 0
        && 0x8000_0000_0000_0167u64 & 0x2 != 0 && 0x147u64 & 0x4 != 0 && 0x145u64 & 0x4 != 0
        && 0x8000_0000_0000_0147u64 & 0x4 != 0 && 0x8000_0000_0000_0145u64 & 0x4 != 0 && 0x147u64
        & 0x8000_0000_0000_0000 == 0 && 0x145u64 & 0x8000_0000_0000_0000 == 0
        && 0x8000_0000_0000_0147u64 & 0x8000_0000_0000_0000 != 0 && 0x8000_0000_0000_0145u64
        & 0x8000_0000_0000_0000 != 0 && 0x8000_0000_0000_0167u64 & 0x8000_0000_0000_0000 != 0)
        by (bit_vector);
    let f = hdr.p_flags;
    assert((f & 0x1 == 0x1 <==> f & 0x1 != 0) && (f & 0x2 == 0x2 <==> f & 0x2 != 0))
        by (bit_vector);
}

proof fn lemma_segment(s: MachineState, root: u64, hdr: Elf64Phdr, elf: Seq<u8>, n: nat)
    requires
        soundness::sound(s, root),
        n <= 0x10_0000_0000,
        s.pool.available() >= segment_takes(s, root, hdr, elf, n),
    ensures
        ({
            let t = elf_image::segment_loaded(s, root, hdr, elf, n);
            &&& soundness::sound(t, root)
            &&& soundness::others_kept(s, t, root)
            &&& t.pool.available() == s.pool.available() - segment_takes(s, root, hdr, elf, n)
            &&& forall|i: int|
                0 <= i < n ==> loading::holds(
                    t,
                    root,
                    #[trigger] address::page_above(hdr.p_vaddr, i),
                    machine::words_of(hdr.page(elf, i)),
                    hdr.page_flags(),
                )
            &&& forall|vb: u64|
                !in_run(hdr.p_vaddr, n as int, vb) ==> #[trigger] walk::leaf_below(t, root, vb, 3)
                    == walk::leaf_below(s, root, vb, 3)
        }),
    decreases n,
{
    let t = elf_image::segment_loaded(s, root, hdr, elf, n);
    if n == 0 {
        assert(t == s);
        assert(soundness::others_kept(s, t, root));
    } else {
        let k = n - 1;
        lemma_segment(s, root, hdr, elf, k as nat);
        let b = elf_image::segment_loaded(s, root, hdr, elf, k as nat);
        let va = address::page_above(hdr.p_vaddr, k);
        let (u, page) = b.take_page();
        let data = machine::words_of(hdr.page(elf, k));
        let w = u.grant(page, VMPL1_RWX).fill(page, data);
        lemma_page_flags(hdr);
        loading::lemma_put_page(b, w, root, va, hdr.page_flags(), data);
        assert(t == mapping::map_page(w, root, va, page, hdr.page_flags()));
        soundness::lemma_others_kept(s, b, t, root);
        assert forall|i: int| 0 <= i < n implies loading::holds(
            t,
            root,
            #[trigger] address::page_above(hdr.p_vaddr, i),
            machine::words_of(hdr.page(elf, i)),
            hdr.page_flags(),
        ) by {
            if i < k {
                let vi = address::page_above(hdr.p_vaddr, i);
                ranges::lemma_run_pages_differ(hdr.p_vaddr, k, i);
                assert(walk::leaf_below(t, root, vi, 3) == walk::leaf_below(b, root, vi, 3));
                loading::lemma_holds_kept(
                    b,
                    t,
                    root,
                    vi,
                    machine::words_of(hdr.page(elf, i)),
                    hdr.page_flags(),
                );
            }
        }
        assert forall|vb: u64| !in_run(hdr.p_vaddr, n as int, vb) implies #[trigger] walk::leaf_below(
            t,
            root,
            vb,
            3,
        ) == walk::leaf_below(s, root, vb, 3) by {
            lemma_in_run(hdr.p_vaddr, k, vb);
            assert(walk::leaf_below(b, root, vb, 3) == walk::leaf_below(s, root, vb, 3));
        }
    }
}

/// What lies in no page of a run lies in no page of a shorter one.
pub proof fn lemma_in_run(start: u64, k: int, vb: u64)
    requires
        0 <= k,
        !in_run(start, k + 1, vb),
    ensures
        !in_run(start, k, vb),
        !soundness::same_page(address::page_above(start, k), vb),
{
    if in_run(start, k, vb) {
        let i = choose|i: int|
            0 <= i < k && soundness::same_page(#[trigger] address::page_above(start, i), vb);
        assert(soundness::same_page(address::page_above(start, i), vb));
    }
}

/// Whether page `i` of segment `h` is found as the file has it.
spec fn segment_found(
    t: MachineState,
    root: u64,
    phdrs: Seq<Elf64Phdr>,
    elf: Seq<u8>,
    h: int,
    i: int,
) -> bool {
    loading::holds(
        t,
        root,
        address::page_above(phdrs[h].p_vaddr, i),
        machine::words_of(phdrs[h].page(elf, i)),
        phdrs[h].page_flags(),
    )
}

/// Whether none of the segments from `from` up to `to` is loaded at an address.
pub open spec fn spared_by(phdrs: Seq<Elf64Phdr>, from: int, to: int, va: u64) -> bool {
    forall|h: int| from <= h < to ==> !loads_at(#[trigger] phdrs[h], va)
}

proof fn lemma_segments(s: MachineState, root: u64, phdrs: Seq<Elf64Phdr>, elf: Seq<u8>, n: nat)
    requires
        soundness::sound(s, root),
        n <= phdrs.len(),
        forall|h: int| 0 <= h < phdrs.len() ==> (#[trigger] phdrs[h]).pages() <= 0x10_0000_0000,
        s.pool.available() >= segments_take(s, root, phdrs, elf, n),
    ensures
        ({
            let t = elf_image::segments_loaded(s, root, phdrs, elf, n);
            &&& soundness::sound(t, root)
            &&& soundness::others_kept(s, t, root)
            &&& t.pool.available() == s.pool.available() - segments_take(s, root, phdrs, elf, n)
            &&& forall|h: int, i: int|
                0 <= h < n && phdrs[h].p_type == PT_LOAD && 0 <= i < phdrs[h].pages() && spared_by(
                    phdrs,
                    h + 1,
                    n as int,
                    address::page_above(phdrs[h].p_vaddr, i),
                ) ==> #[trigger] segment_found(t, root, phdrs, elf, h, i)
            &&& forall|vb: u64|
                spared_by(phdrs, 0, n as int, vb) ==> #[trigger] walk::leaf_below(t, root, vb, 3)
                    == walk::leaf_below(s, root, vb, 3)
        }),
    decreases n,
{
    let t = elf_image::segments_loaded(s, root, phdrs, elf, n);
    if n == 0 {
        assert(t == s);
        assert(soundness::others_kept(s, t, root));
    } else {
        let k = n - 1;
        lemma_segments(s, root, phdrs, elf, k as nat);
        let b = elf_image::segments_loaded(s, root, phdrs, elf, k as nat);
        let hdr = phdrs[k];
        if hdr.p_type == PT_LOAD {
            lemma_segment(b, root, hdr, elf, hdr.pages() as nat);
            soundness::lemma_others_kept(s, b, t, root);
        }
        assert forall|h: int, i: int|
            0 <= h < n && phdrs[h].p_type == PT_LOAD && 0 <= i < phdrs[h].pages() && spared_by(
                phdrs,
                h + 1,
                n as int,
                address::page_above(phdrs[h].p_vaddr, i),
            ) implies #[trigger] segment_found(t, root, phdrs, elf, h, i) by {
            let va = address::page_above(phdrs[h].p_vaddr, i);
            if h < k {
                assert(!loads_at(phdrs[k], va));
                assert(spared_by(phdrs, h + 1, k, va)) by {
                    assert forall|j: int| h + 1 <= j < k implies !loads_at(#[trigger] phdrs[j], va) by {
                    }
                }
                assert(segment_found(b, root, phdrs, elf, h, i));
                if hdr.p_type == PT_LOAD {
                    assert(walk::leaf_below(t, root, va, 3) == walk::leaf_below(b, root, va, 3));
                    loading::lemma_holds_kept(
                        b,
                        t,
                        root,
                        va,
                        machine::words_of(phdrs[h].page(elf, i)),
                        phdrs[h].page_flags(),
                    );
                }
            }
        }
        assert forall|vb: u64| spared_by(phdrs, 0, n as int, vb) implies #[trigger] walk::leaf_below(
            t,
            root,
            vb,
            3,
        ) == walk::leaf_below(s, root, vb, 3) by {
            assert(!loads_at(phdrs[k], vb));
            assert(spared_by(phdrs, 0, k, vb)) by {
                assert forall|j: int| 0 <= j < k implies !loads_at(#[trigger] phdrs[j], vb) by {
                }
            }
            assert(walk::leaf_below(b, root, vb, 3) == walk::leaf_below(s, root, vb, 3));
        }
    }
}

/// Cleared pages that were mapped are found, and hold zeros. All other pages are
/// found where they were.
pub proof fn law_cleared_pages_are_found(
    s: MachineState,
    root: u64,
    start: u64,
    n: nat,
    flags: u64,
)
    requires
        soundness::sound(s, root),
        n <= 0x10_0000_0000,
        s.pool.available() >= cleared_takes(s, root, start, n, flags),
        soundness::page_flags(flags),
        flags & 0x1 == 0x1,
    ensures
        ({
            let t = mapping::map_cleared(s, root, start, n, flags);
            &&& soundness::sound(t, root)
            &&& soundness::others_kept(s, t, root)
            &&& t.pool.available() == s.pool.available() - cleared_takes(s, root, start, n, flags)
            &&& forall|i: int|
                0 <= i < n ==> loading::holds(
                    t,
                    root,
                    #[trigger] address::page_above(start, i),
                    machine::zero_words(),
                    flags,
                )
            &&& forall|vb: u64|
                !in_run(start, n as int, vb) ==> #[trigger] walk::leaf_below(t, root, vb, 3)
                    == walk::leaf_below(s, root, vb, 3)
        }),
    decreases n,
{
    let t = mapping::map_cleared(s, root, start, n, flags);
    if n == 0 {
        assert(t == s);
        assert(soundness::others_kept(s, t, root));
    } else {
        let k = n - 1;
        law_cleared_pages_are_found(s, root, start, k as nat, flags);
        let b = mapping::map_cleared(s, root, start, k as nat, flags);
        let va = address::page_above(start, k);
        let (u, page) = b.take_page();
        let w = u.zero(page);
        let v = mapping::map_page(w, root, va, page, flags);
        loading::lemma_put_page(b, w, root, va, flags, machine::zero_words());
        assert(t == v.grant(page, VMPL1_RWX));
        ranges::lemma_op_keeps(v, t, root);
        soundness::lemma_others_kept(s, b, v, root);
        soundness::lemma_others_kept(s, v, t, root);
        assert forall|i: int| 0 <= i < n implies loading::holds(
            t,
            root,
            #[trigger] address::page_above(start, i),
            machine::zero_words(),
            flags,
        ) by {
            let vi = address::page_above(start, i);
            if i < k {
                ranges::lemma_run_pages_differ(start, k, i);
                assert(walk::leaf_below(v, root, vi, 3) == walk::leaf_below(b, root, vi, 3));
                loading::lemma_holds_kept(b, v, root, vi, machine::zero_words(), flags);
            }
            assert(walk::leaf_below(t, root, vi, 3) == walk::leaf_below(v, root, vi, 3));
            loading::lemma_holds_kept(v, t, root, vi, machine::zero_words(), flags);
        }
        assert forall|vb: u64| !in_run(start, n as int, vb) implies #[trigger] walk::leaf_below(
            t,
            root,
            vb,
            3,
        ) == walk::leaf_below(s, root, vb, 3) by {
            lemma_in_run(start, k, vb);
            assert(walk::leaf_below(t, root, vb, 3) == walk::leaf_below(v, root, vb, 3));
            assert(walk::leaf_below(v, root, vb, 3) == walk::leaf_below(b, root, vb, 3));
            assert(walk::leaf_below(b, root, vb, 3) == walk::leaf_below(s, root, vb, 3));
        }
    }
}

/// The pages that the first `n` pages of some data take.
pub open spec fn data_takes(s: MachineState, root: u64, va: u64, data: Seq<u8>, n: nat) -> nat
    decreases n,
{
    if n == 0 {
        0
    } else {
        let k = (n - 1) as nat;
        data_takes(s, root, va, data, k) + loading::put_takes(
            mapping::data_mapped(s, root, va, data, k),
            root,
            address::page_above(va, k as int),
        )
    }
}

proof fn lemma_data(s: MachineState, root: u64, start: u64, data: Seq<u8>, n: nat)
    requires
        soundness::sound(s, root),
        n <= 0x10_0000_0000,
        s.pool.available() >= data_takes(s, root, start, data, n),
    ensures
        ({
            let t = mapping::data_mapped(s, root, start, data, n);
            &&& soundness::sound(t, root)
            &&& soundness::others_kept(s, t, root)
            &&& t.pool.available() == s.pool.available() - data_takes(s, root, start, data, n)
            &&& forall|i: int|
                0 <= i < n ==> loading::holds(
                    t,
                    root,
                    #[trigger] address::page_above(start, i),
                    machine::words_of(machine::padded(data, 4096 * i)),
                    0x8000_0000_0000_0167,
                )
            &&& forall|vb: u64|
                !in_run(start, n as int, vb) ==> #[trigger] walk::leaf_below(t, root, vb, 3)
                    == walk::leaf_below(s, root, vb, 3)
        }),
    decreases n,
{
    let flags: u64 = 0x8000_0000_0000_0167;
    let t = mapping::data_mapped(s, root, start, data, n);
    if n == 0 {
        assert(t == s);
        assert(soundness::others_kept(s, t, root));
    } else {
        let k = n - 1;
        lemma_data(s, root, start, data, k as nat);
        let b = mapping::data_mapped(s, root, start, data, k as nat);
        let va = address::page_above(start, k);
        let (u, page) = b.take_page();
        let words = machine::words_of(machine::padded(data, 4096 * k));
        let w = u.fill(page, words);
        let v = mapping::map_page(w, root, va, page, flags);
        lemma_page_flags(Elf64Phdr { p_type: 0, p_flags: 0, p_offset: 0, p_vaddr: 0, p_filesz: 0, p_memsz: 0 });
        loading::lemma_put_page(b, w, root, va, flags, words);
        assert(t == v.grant(page, VMPL1_RWX));
        ranges::lemma_op_keeps(v, t, root);
        soundness::lemma_others_kept(s, b, v, root);
        soundness::lemma_others_kept(s, v, t, root);
        assert forall|i: int| 0 <= i < n implies loading::holds(
            t,
            root,
            #[trigger] address::page_above(start, i),
            machine::words_of(machine::padded(data, 4096 * i)),
            flags,
        ) by {
            let vi = address::page_above(start, i);
            let wi = machine::words_of(machine::padded(data, 4096 * i));
            if i < k {
                ranges::lemma_run_pages_differ(start, k, i);
                assert(walk::leaf_below(v, root, vi, 3) == walk::leaf_below(b, root, vi, 3));
                loading::lemma_holds_kept(b, v, root, vi, wi, flags);
            }
            assert(walk::leaf_below(t, root, vi, 3) == walk::leaf_below(v, root, vi, 3));
            loading::lemma_holds_kept(v, t, root, vi, wi, flags);
        }
        assert forall|vb: u64| !in_run(start, n as int, vb) implies #[trigger] walk::leaf_below(
            t,
            root,
            vb,
            3,
        ) == walk::leaf_below(s, root, vb, 3) by {
            lemma_in_run(start, k, vb);
            assert(walk::leaf_below(t, root, vb, 3) == walk::leaf_below(v, root, vb, 3));
            assert(walk::leaf_below(v, root, vb, 3) == walk::leaf_below(b, root, vb, 3));
            assert(walk::leaf_below(b, root, vb, 3) == walk::leaf_below(s, root, vb, 3));
        }
    }
}

/// Data that was mapped is found, byte by byte: byte `k` of it is at its address
/// plus `k`. It can be written to, and not executed. All other pages are found
/// where they were.
pub proof fn law_mapped_data_is_found(
    s: MachineState,
    root: u64,
    start: u64,
    data: Seq<u8>,
    n: nat,
)
    requires
        soundness::sound(s, root),
        s.c_bit & 0x8000_0000_0000_0FFF == 0,
        start % 4096 == 0,
        data.len() == 4096 * n,
        n <= 0x10_0000_0000,
        s.pool.available() >= data_takes(s, root, start, data, n),
    ensures
        ({
            let t = mapping::data_mapped(s, root, start, data, n);
            &&& soundness::sound(t, root)
            &&& forall|k: int|
                0 <= k < data.len() ==> loading::found_byte(
                    t,
                    root,
                    #[trigger] address::addr_add(start, k),
                ) == data[k]
            &&& forall|k: int|
                0 <= k < data.len() ==> (walk::leaf_below(
                    t,
                    root,
                    #[trigger] address::addr_add(start, k),
                    3,
                ) matches Some(e) && e & 0x2 != 0 && e & 0x8000_0000_0000_0000 != 0)
            &&& forall|vb: u64|
                !in_run(start, n as int, vb) ==> #[trigger] walk::leaf_below(t, root, vb, 3)
                    == walk::leaf_below(s, root, vb, 3)
        }),
{
    let flags: u64 = 0x8000_0000_0000_0167;
    let t = mapping::data_mapped(s, root, start, data, n);
    lemma_data(s, root, start, data, n);
    lemma_page_flags(Elf64Phdr { p_type: 0, p_flags: 0, p_offset: 0, p_vaddr: 0, p_filesz: 0, p_memsz: 0 });
    assert forall|k: int| 0 <= k < data.len() implies loading::found_byte(
        t,
        root,
        #[trigger] address::addr_add(start, k),
    ) == data[k] && (walk::leaf_below(t, root, address::addr_add(start, k), 3) matches Some(e) && e
        & 0x2 != 0 && e & 0x8000_0000_0000_0000 != 0) by {
        let i = k / 4096;
        let va = address::page_above(start, i);
        let page = machine::padded(data, 4096 * i);
        loading::lemma_byte_address(start, k);
        assert(loading::holds(t, root, va, machine::words_of(page), flags));
        loading::lemma_found_in_page(t, root, va, address::addr_add(start, k), page, flags);
        entry::lemma_permits(t.c_bit, walk::translate(t, root, va), flags);
    }
}

/// Whether a page permits what the flags of a program header ask for: it can be
/// written to where they say so, and executed where they say so.
pub open spec fn permits(e: u64, p_flags: u32) -> bool {
    &&& e & 0x2 != 0 <==> p_flags & 0x2 != 0
    &&& e & 0x8000_0000_0000_0000 == 0 <==> p_flags & 0x1 != 0
    &&& e & 0x4 != 0
}

/// The address of byte `k` of a segment.
pub open spec fn byte_address(hdr: Elf64Phdr, k: int) -> u64 {
    address::addr_add(hdr.p_vaddr, k)
}

/// The place of byte `k` of a segment in the file.
pub open spec fn file_place(hdr: Elf64Phdr, k: int) -> int {
    hdr.p_offset + k
}

/// A program that was loaded finds its file in memory. Byte `k` of a segment is
/// at the segment's address plus `k`, and is byte `k` behind the segment's place
/// in the file, as long as the file has bytes for the segment; behind them it is
/// 0. This holds of every segment that starts with a page, wherever neither a
/// later segment nor the stack is loaded. The pages permit what the program
/// header asks for. The stack is clear, and can be written to.
pub proof fn law_program_finds_its_file(
    s: MachineState,
    data: Seq<u8>,
    start: u64,
    phdrs: Seq<Elf64Phdr>,
)
    requires
        soundness::pool_sound(s),
        s.pool.available() > 0,
        s.c_bit & 0x8000_0000_0000_0FFF == 0,
        elf_image::program(data) == Some((start, phdrs)),
        forall|h: int| 0 <= h < phdrs.len() ==> (#[trigger] phdrs[h]).pages() <= 0x10_0000_0000,
        ({
            let (t, root) = mapping::root_made(s);
            t.pool.available() >= segments_take(t, root, phdrs, data, phdrs.len()) + cleared_takes(
                elf_image::segments_loaded(t, root, phdrs, data, phdrs.len()),
                root,
                TP_STACK_START_VADDR,
                STACK_PAGES as nat,
                0x8000_0000_0000_0167,
            )
        }),
    ensures
        ({
            let (t, root) = mapping::root_made(s);
            let u = elf_image::program_loaded(t, root, phdrs, data);
            &&& soundness::sound(u, root)
            &&& forall|h: int, k: int|
                0 <= h < phdrs.len() && phdrs[h].p_type == PT_LOAD && phdrs[h].p_vaddr % 4096 == 0
                    && 0 <= k < phdrs[h].pages() * 4096 && spared_by(
                    phdrs,
                    h + 1,
                    phdrs.len() as int,
                    byte_address(phdrs[h], k),
                ) && !in_run(TP_STACK_START_VADDR, 8, byte_address(phdrs[h], k)) ==> {
                    &&& walk::leaf_below(u, root, #[trigger] byte_address(phdrs[h], k), 3) matches Some(
                        e,
                    ) && permits(e, phdrs[h].p_flags)
                    &&& k < phdrs[h].p_filesz ==> phdrs[h].p_offset + k < data.len()
                        && loading::found_byte(u, root, byte_address(phdrs[h], k))
                        == data[phdrs[h].p_offset + k]
                    &&& k >= phdrs[h].p_filesz ==> loading::found_byte(
                        u,
                        root,
                        byte_address(phdrs[h], k),
                    ) == 0
                }
            &&& forall|i: int, j: int|
                0 <= i < 8 && 0 <= j < 512 ==> #[trigger] u.rd(
                    walk::translate(u, root, address::page_above(TP_STACK_START_VADDR, i)),
                    j,
                ) == 0
            &&& forall|i: int|
                0 <= i < 8 ==> (walk::leaf_below(
                    u,
                    root,
                    #[trigger] address::page_above(TP_STACK_START_VADDR, i),
                    3,
                ) matches Some(e) && e & 0x2 != 0 && e & 0x8000_0000_0000_0000 != 0)
        }),
{
    let (t, root) = mapping::root_made(s);
    let b = elf_image::segments_loaded(t, root, phdrs, data, phdrs.len());
    let u = elf_image::program_loaded(t, root, phdrs, data);
    let n = STACK_PAGES as nat;
    origin::law_new_table_is_sound(s, 0);
    assert(t.c_bit == s.c_bit);
    lemma_segments(t, root, phdrs, data, phdrs.len());
    lemma_page_flags(Elf64Phdr { p_type: 0, p_flags: 0, p_offset: 0, p_vaddr: 0, p_filesz: 0, p_memsz: 0 });
    law_cleared_pages_are_found(b, root, TP_STACK_START_VADDR, n, 0x8000_0000_0000_0167);
    assert forall|h: int, k: int|
        0 <= h < phdrs.len() && phdrs[h].p_type == PT_LOAD && phdrs[h].p_vaddr % 4096 == 0 && 0 <= k
            < phdrs[h].pages() * 4096 && spared_by(
            phdrs,
            h + 1,
            phdrs.len() as int,
            byte_address(phdrs[h], k),
        ) && !in_run(TP_STACK_START_VADDR, 8, byte_address(phdrs[h], k)) implies {
        &&& walk::leaf_below(u, root, #[trigger] byte_address(phdrs[h], k), 3) matches Some(e)
            && permits(e, phdrs[h].p_flags)
        &&& k < phdrs[h].p_filesz ==> phdrs[h].p_offset + k < data.len() && loading::found_byte(
            u,
            root,
            byte_address(phdrs[h], k),
        ) == data[phdrs[h].p_offset + k]
        &&& k >= phdrs[h].p_filesz ==> loading::found_byte(u, root, byte_address(phdrs[h], k)) == 0
    } by {
        lemma_byte_loaded(b, u, root, phdrs, data, h, k);
    }
    assert forall|i: int| 0 <= i < 8 implies (walk::leaf_below(
        u,
        root,
        #[trigger] address::page_above(TP_STACK_START_VADDR, i),
        3,
    ) matches Some(e) && e & 0x2 != 0 && e & 0x8000_0000_0000_0000 != 0) && forall|j: int|
        0 <= j < 512 ==> #[trigger] u.rd(
            walk::translate(u, root, address::page_above(TP_STACK_START_VADDR, i)),
            j,
        ) == 0 by {
        let va = address::page_above(TP_STACK_START_VADDR, i);
        let f = walk::translate(u, root, va);
        assert(loading::holds(u, root, va, machine::zero_words(), 0x8000_0000_0000_0167));
        entry::lemma_permits(u.c_bit, f, 0x8000_0000_0000_0167);
        assert forall|j: int| 0 <= j < 512 implies #[trigger] u.rd(f, j) == 0 by {
            assert(u.rd(f, j) == machine::page_words(u.mem, f)[j]);
        }
    }
}

proof fn lemma_byte_loaded(
    b: MachineState,
    u: MachineState,
    root: u64,
    phdrs: Seq<Elf64Phdr>,
    data: Seq<u8>,
    h: int,
    k: int,
)
    requires
        b.c_bit & 0x8000_0000_0000_0FFF == 0,
        elf_image::all_fit(phdrs, data.len() as int),
        soundness::others_kept(b, u, root),
        0 <= h < phdrs.len(),
        phdrs[h].p_type == PT_LOAD,
        phdrs[h].p_vaddr % 4096 == 0,
        0 <= k < phdrs[h].pages() * 4096,
        spared_by(phdrs, h + 1, phdrs.len() as int, byte_address(phdrs[h], k)),
        !in_run(TP_STACK_START_VADDR, 8, byte_address(phdrs[h], k)),
        spared_by(
            phdrs,
            h + 1,
            phdrs.len() as int,
            address::page_above(phdrs[h].p_vaddr, k / 4096),
        ) ==> segment_found(b, root, phdrs, data, h, k / 4096),
        forall|vb: u64|
            !in_run(TP_STACK_START_VADDR, 8, vb) ==> #[trigger] walk::leaf_below(u, root, vb, 3)
                == walk::leaf_below(b, root, vb, 3),
    ensures
        walk::leaf_below(u, root, byte_address(phdrs[h], k), 3) matches Some(e) && permits(
            e,
            phdrs[h].p_flags,
        ),
        k < phdrs[h].p_filesz ==> phdrs[h].p_offset + k < data.len() && loading::found_byte(
            u,
            root,
            byte_address(phdrs[h], k),
        ) == data[phdrs[h].p_offset + k],
        k >= phdrs[h].p_filesz ==> loading::found_byte(u, root, byte_address(phdrs[h], k)) == 0,
{
    let hdr = phdrs[h];
    let i = k / 4096;
    let va = address::page_above(hdr.p_vaddr, i);
    let at = byte_address(hdr, k);
    loading::lemma_byte_address(hdr.p_vaddr, k);
    assert(spared_by(phdrs, h + 1, phdrs.len() as int, va)) by {
        assert forall|j: int| h + 1 <= j < phdrs.len() implies !loads_at(#[trigger] phdrs[j], va) by {
            if loads_at(phdrs[j], va) {
                lemma_same_run(phdrs[j].p_vaddr, phdrs[j].pages(), va, at);
                assert(loads_at(phdrs[j], at));
            }
        }
    }
    assert(!in_run(TP_STACK_START_VADDR, 8, va)) by {
        if in_run(TP_STACK_START_VADDR, 8, va) {
            lemma_same_run(TP_STACK_START_VADDR, 8, va, at);
        }
    }
    let page = hdr.page(data, i);
    assert(loading::holds(b, root, va, machine::words_of(page), hdr.page_flags()));
    assert(walk::leaf_below(u, root, va, 3) == walk::leaf_below(b, root, va, 3));
    loading::lemma_holds_kept(b, u, root, va, machine::words_of(page), hdr.page_flags());
    loading::lemma_found_in_page(u, root, va, at, page, hdr.page_flags());
    lemma_page_flags(hdr);
    entry::lemma_permits(u.c_bit, walk::translate(u, root, va), hdr.page_flags());
    assert(i * 4096 + k % 4096 == k);
    assert(hdr.fits(data.len() as int));
}

/// Addresses in one page lie in the same runs.
pub proof fn lemma_same_run(start: u64, n: int, va: u64, at: u64)
    requires
        soundness::same_page(va, at),
        in_run(start, n, va),
    ensures
        in_run(start, n, at),
{
    let i = choose|i: int|
        0 <= i < n && soundness::same_page(#[trigger] address::page_above(start, i), va);
    assert(soundness::same_page(address::page_above(start, i), at));
}

/// A file is taken for a program exactly where its headers can be read, it is a
/// 64-bit file, and it has every byte that is to be loaded from it. Its entry
/// point and its segments are those of its headers.
pub proof fn law_program_is_what_the_headers_say(data: Seq<u8>)
    ensures
        elf_image::program(data) is Some <==> (elf_image::elf_headers(data) matches Some(
            (is_64, _, phdrs),
        ) && is_64 && forall|h: int, k: int|
            0 <= h < phdrs.len() && phdrs[h].p_type == PT_LOAD && 0 <= k < phdrs[h].p_filesz && k
                < phdrs[h].pages() * 4096 ==> #[trigger] file_place(phdrs[h], k) < data.len()),
        elf_image::program(data) matches Some((start, phdrs)) ==> elf_image::elf_headers(data)
            == Some((true, start, phdrs)),
{
    match elf_image::elf_headers(data) {
        Some((true, _, phdrs)) => {
            let len = data.len() as int;
            if elf_image::all_fit(phdrs, len) {
                assert forall|h: int, k: int|
                    0 <= h < phdrs.len() && phdrs[h].p_type == PT_LOAD && 0 <= k
                        < phdrs[h].p_filesz && k < phdrs[h].pages() * 4096 implies #[trigger] file_place(
                    phdrs[h],
                    k,
                ) < len by {
                    assert(phdrs[h].fits(len));
                }
            } else {
                let h = choose|h: int|
                    0 <= h < phdrs.len() && (#[trigger] phdrs[h]).p_type == PT_LOAD && !phdrs[h].fits(
                        len,
                    );
                let k = phdrs[h].loaded() - 1;
                assert(file_place(phdrs[h], k) >= len);
            }
        },
        _ => {},
    }
}

} // verus!
