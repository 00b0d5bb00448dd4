//! What a process finds after its calls for memory were served.
use vstd::prelude::*;
use crate::address;
use crate::memory::machine;
use crate::memory::machine::MachineState;
use crate::process_manager::process::TrustedProcess;
use crate::process_manager::process_paging::entry;
use crate::process_manager::process_paging::expected;
use crate::process_manager::process_paging::growth;
use crate::process_manager::process_paging::loading;
use crate::process_manager::process_paging::mapping;
use crate::process_manager::process_paging::mapping::TP_LIBOS_START_VADDR;
use crate::process_manager::process_paging::program;
use crate::process_manager::process_paging::ranges;
use crate::process_manager::process_paging::soundness;
use crate::process_manager::process_paging::transfer;
use crate::process_manager::process_paging::walk;
use crate::process_runtime::process::memory;
use crate::process_runtime::process::memory::{ProcessRuntimeMemory, LIBOS_FD};
use crate::process_runtime::process::mmap;
use crate::process_runtime::process::mmap::{MmapInfo, RangeWrapper};
use crate::process_runtime::PALContext;
use crate::sev::utils::VMPL1_RWX;

verus! {

/// The address of page `i` of the library OS from `offset` on.
pub open spec fn libos_page(offset: u64, i: int) -> u64 {
    address::addr_add(TP_LIBOS_START_VADDR, offset + i * 4096)
}

/// Whether a page permits what a process asked for: to write to it, and to
/// execute it. It can always be read.
pub open spec fn permits(e: u64, writable: bool, executable: bool) -> bool {
    &&& e & 0x2 != 0 <==> writable
    &&& e & 0x8000_0000_0000_0000 == 0 <==> executable
    &&& e & 0x4 != 0
}

/// Whether the first `n` pages of the library OS from `offset` on can be mapped
/// at `va`: they are there, their addresses have no more than 48 bits, none of
/// them is in the pool or a table, and they lie apart from where they go.
pub open spec fn libos_apart(s: MachineState, root: u64, va: u64, offset: u64, n: int) -> bool {
    &&& forall|i: int|
        0 <= i < n ==> {
            let f = walk::translate(s, root, #[trigger] libos_page(offset, i));
            &&& f != 0
            &&& f <= 0x0000_FFFF_FFFF_F000
            &&& soundness::is_page(s, f)
            &&& !soundness::in_pool(s.pool, f)
            &&& !soundness::is_table(s, root, f)
        }
    &&& forall|i: int, j: int|
        0 <= i < n && 0 <= j < n ==> !soundness::same_page(
            #[trigger] address::page_above(va, i),
            #[trigger] libos_page(offset, j),
        )
}

/// The pages that mapping the first `n` pages of the library OS takes.
pub open spec fn libos_takes(
    s: MachineState,
    root: u64,
    va: u64,
    offset: u64,
    prot: u64,
    n: nat,
) -> nat
    decreases n,
{
    if n == 0 {
        0
    } else {
        let k = (n - 1) as nat;
        let b = memory::libos_mapped(s, root, va, offset, prot, k)->0;
        libos_takes(s, root, va, offset, prot, k) + walk::walk_end(
            b,
            root,
            address::page_above(va, k as int),
            3,
        ).0 + (if prot & 0x8 != 0 {
            1nat
        } else {
            0
        })
    }
}

proof fn lemma_flags()
    ensures
        forall|f: u64|
            f == 0x25 || f == 0x27 || f == 0x8000_0000_0000_0025 || f == 0x8000_0000_0000_0027 || f
                == 0x167 || f == 0x8000_0000_0000_0167 ==> #[trigger] soundness::page_flags(f) && f
                & 0x1 == 0x1 && f & 0x4 != 0,
        0x25u64 & 0x2 == 0,
        0x27u64 & 0x2 != 0,
        0x8000_0000_0000_0025u64 & 0x2 == 0,
        0x8000_0000_0000_0027u64 & 0x2 != 0,
        0x167u64 & 0x2 != 0,
        0x8000_0000_0000_0167u64 & 0x2 != 0,
        0x25u64 & 0x8000_0000_0000_0000 == 0,
        0x27u64 & 0x8000_0000_0000_0000 == 0,
        0x167u64 & 0x8000_0000_0000_0000 == 0,
        0x8000_0000_0000_0025u64 & 0x8000_0000_0000_0000 != 0,
        0x8000_0000_0000_0027u64 & 0x8000_0000_0000_0000 != 0,
        0x8000_0000_0000_0167u64 & 0x8000_0000_0000_0000 != 0,
{
    assert forall|f: u64|
        f == 0x25 || f == 0x27 || f == 0x8000_0000_0000_0025 || f == 0x8000_0000_0000_0027 || f
            == 0x167 || f == 0x8000_0000_0000_0167 implies #[trigger] soundness::page_flags(f) && f
        & 0x1 == 0x1 && f & 0x4 != 0 by {
        assert(f & 0x000F_FFFF_FFFF_F000 == 0 && f & 0x400 != 0x400 && f & 0x1 == 0x1 && f & 0x4
            != 0) by (bit_vector)
            requires
                f == 0x25 || f == 0x27 || f == 0x8000_0000_0000_0025 || f == 0x8000_0000_0000_0027
                    || f == 0x167 || f == 0x8000_0000_0000_0167,
        ;
    }
    assert(0x25u64 & 0x2 == 0 && 0x27u64 & 0x2 != 0 && 0x8000_0000_0000_0025u64 & 0x2 == 0
        && 0x8000_0000_0000_0027u64 & 0x2 != 0 && 0x167u64 & 0x2 != 0 && 0x8000_0000_0000_0167u64
        & 0x2 != 0 && 0x25u64 & 0x8000_0000_0000_0000 == 0 && 0x27u64 & 0x8000_0000_0000_0000 == 0
        && 0x167u64 & 0x8000_0000_0000_0000 == 0 && 0x8000_0000_0000_0025u64 & 0x8000_0000_0000_0000
        != 0 && 0x8000_0000_0000_0027u64 & 0x8000_0000_0000_0000 != 0 && 0x8000_0000_0000_0167u64
        & 0x8000_0000_0000_0000 != 0) by (bit_vector);
}

/// Whether page `i` of the library OS is where it was asked for: the page
/// itself, or, where it is copied on write, a page of the process's own with the
/// same words.
pub open spec fn libos_found(
    s: MachineState,
    t: MachineState,
    root: u64,
    va: u64,
    offset: u64,
    prot: u64,
    i: int,
) -> bool {
    let at = address::page_above(va, i);
    let theirs = walk::translate(s, root, libos_page(offset, i));
    let own = walk::translate(t, root, at);
    &&& walk::leaf_below(t, root, at, 3) matches Some(e) && permits(
        e,
        prot & 0x2 != 0 || prot & 0x8 != 0,
        prot & 0x4 != 0,
    )
    &&& if prot & 0x8 != 0 {
        &&& soundness::in_pool(s.pool, own)
        &&& machine::page_words(t.mem, own) == machine::page_words(s.mem, theirs)
    } else {
        own == theirs
    }
}

/// The same, as it stays when other pages are mapped.
spec fn libos_kept(
    s: MachineState,
    t: MachineState,
    root: u64,
    va: u64,
    offset: u64,
    prot: u64,
    i: int,
) -> bool {
    let at = address::page_above(va, i);
    let theirs = walk::translate(s, root, libos_page(offset, i));
    if prot & 0x8 != 0 {
        &&& loading::holds(
            t,
            root,
            at,
            machine::page_words(s.mem, theirs),
            (memory::file_flags(prot) + 0x3) as u64,
        )
        &&& soundness::in_pool(s.pool, walk::translate(t, root, at))
    } else {
        walk::leaf_below(t, root, at, 3) == Some(
            entry::entry_word(s.c_bit, theirs, (memory::file_flags(prot) + 0x1) as u64),
        )
    }
}

/// A frame that is in use and no table stays so, with its words.
proof fn lemma_frame_kept(s: MachineState, t: MachineState, root: u64, f: u64)
    requires
        soundness::others_kept(s, t, root),
        soundness::is_page(s, f),
        !soundness::in_pool(s.pool, f),
        !soundness::is_table(s, root, f),
    ensures
        soundness::is_page(t, f),
        !soundness::in_pool(t.pool, f),
        !soundness::is_table(t, root, f),
        machine::page_words(t.mem, f) == machine::page_words(s.mem, f),
{
    if soundness::in_pool(t.pool, f) {
        assert(soundness::in_pool(s.pool, f));
    }
    if soundness::is_table(t, root, f) {
        assert(soundness::is_table(s, root, f) || soundness::in_pool(s.pool, f));
    }
    assert(machine::page_words(t.mem, f) =~= machine::page_words(s.mem, f)) by {
        assert forall|i: int| 0 <= i < 512 implies #[trigger] machine::page_words(t.mem, f)[i]
            == machine::page_words(s.mem, f)[i] by {
            assert(t.rd(f, i) == s.rd(f, i));
        }
    }
}

/// One page of the library OS is mapped.
proof fn lemma_libos_step(
    s: MachineState,
    b: MachineState,
    t: MachineState,
    root: u64,
    va: u64,
    offset: u64,
    prot: u64,
    k: int,
)
    requires
        soundness::sound(b, root),
        soundness::others_kept(s, b, root),
        s.c_bit & 0x0000_FFFF_FFFF_F000 == 0,
        0 <= k,
        ({
            let f = walk::translate(s, root, libos_page(offset, k));
            &&& f != 0
            &&& f <= 0x0000_FFFF_FFFF_F000
            &&& soundness::is_page(s, f)
            &&& !soundness::in_pool(s.pool, f)
            &&& !soundness::is_table(s, root, f)
            &&& walk::leaf_below(b, root, libos_page(offset, k), 3) == walk::leaf_below(
                s,
                root,
                libos_page(offset, k),
                3,
            )
        }),
        b.pool.available() >= walk::walk_end(b, root, address::page_above(va, k), 3).0 + (if prot
            & 0x8 != 0 {
            1nat
        } else {
            0
        }),
        ({
            let dst = address::page_above(va, k);
            let src = address::addr_add(
                address::page_above(TP_LIBOS_START_VADDR, k),
                offset as int,
            );
            let frame = walk::entry_frame(b, root, src);
            let (u, page) = b.take_page();
            t == (if prot & 0x8 != 0 {
                mapping::map_page(
                    u.grant(page, VMPL1_RWX).copy(page, frame),
                    root,
                    dst,
                    page,
                    (memory::file_flags(prot) + 0x3) as u64,
                )
            } else {
                mapping::map_page(b, root, dst, frame, (memory::file_flags(prot) + 0x1) as u64)
            })
        }),
    ensures
        soundness::sound(t, root),
        soundness::others_kept(b, t, root),
        t.pool.available() == b.pool.available() - walk::walk_end(
            b,
            root,
            address::page_above(va, k),
            3,
        ).0 - (if prot & 0x8 != 0 {
            1nat
        } else {
            0
        }),
        libos_kept(s, t, root, va, offset, prot, k),
        forall|vb: u64|
            !soundness::same_page(address::page_above(va, k), vb) ==> #[trigger] walk::leaf_below(
                t,
                root,
                vb,
                3,
            ) == walk::leaf_below(b, root, vb, 3),
{
    let dst = address::page_above(va, k);
    let src = address::addr_add(address::page_above(TP_LIBOS_START_VADDR, k), offset as int);
    let f = walk::translate(s, root, libos_page(offset, k));
    address::lemma_addr_add(TP_LIBOS_START_VADDR, k * 4096, offset as int);
    assert(src == libos_page(offset, k));
    assert(walk::translate(b, root, src) == f);
    soundness::law_lookups_agree(b, root, src, src);
    assert(walk::entry_frame(b, root, src) == f);
    lemma_flags();
    lemma_frame_kept(s, b, root, f);
    if prot & 0x8 != 0 {
        let flags = (memory::file_flags(prot) + 0x3) as u64;
        assert(soundness::page_flags(flags));
        let (u, page) = b.take_page();
        soundness::law_taken_page_is_fresh(b);
        let data = machine::page_words(s.mem, f);
        let w = u.grant(page, VMPL1_RWX).copy(page, f);
        assert(machine::page_words(u.mem, f) =~= data) by {
            assert forall|i: int| 0 <= i < 512 implies #[trigger] machine::page_words(u.mem, f)[i]
                == data[i] by {
                assert(u.rd(f, i) == b.rd(f, i));
                assert(b.rd(f, i) == machine::page_words(b.mem, f)[i]);
            }
        }
        loading::lemma_put_page(b, w, root, dst, flags, data);
        assert(soundness::in_pool(s.pool, page)) by {
            assert(soundness::in_pool(b.pool, page));
        }
    } else {
        let flags = (memory::file_flags(prot) + 0x1) as u64;
        assert(soundness::page_flags(flags));
        soundness::law_mapped_page_is_found(b, root, dst, f, flags);
    }
}

#[verifier::rlimit(40)]
proof fn lemma_libos(
    s: MachineState,
    root: u64,
    va: u64,
    offset: u64,
    prot: u64,
    n: nat,
)
    requires
        soundness::sound(s, root),
        s.c_bit & 0x0000_FFFF_FFFF_F000 == 0,
        n <= 0x10_0000_0000,
        libos_apart(s, root, va, offset, n as int),
        memory::libos_mapped(s, root, va, offset, prot, n) is Some,
        s.pool.available() >= libos_takes(s, root, va, offset, prot, n),
    ensures
        ({
            let t = memory::libos_mapped(s, root, va, offset, prot, n)->0;
            &&& soundness::sound(t, root)
            &&& soundness::others_kept(s, t, root)
            &&& t.pool.available() == s.pool.available() - libos_takes(
                s,
                root,
                va,
                offset,
                prot,
                n,
            )
            &&& forall|i: int|
                0 <= i < n ==> #[trigger] libos_kept(s, t, root, va, offset, prot, i)
            &&& forall|vb: u64|
                !program::in_run(va, n as int, vb) ==> #[trigger] walk::leaf_below(t, root, vb, 3)
                    == walk::leaf_below(s, root, vb, 3)
        }),
    decreases n,
{
    let t = memory::libos_mapped(s, root, va, offset, prot, n)->0;
    if n == 0 {
        assert(t == s);
        assert(soundness::others_kept(s, t, root));
    } else {
        let k = n - 1;
        assert(memory::libos_mapped(s, root, va, offset, prot, k as nat) is Some);
        assert(libos_apart(s, root, va, offset, k));
        lemma_libos(s, root, va, offset, prot, k as nat);
        let b = memory::libos_mapped(s, root, va, offset, prot, k as nat)->0;
        assert(!program::in_run(va, k, libos_page(offset, k))) by {
            if program::in_run(va, k, libos_page(offset, k)) {
                let i = choose|i: int|
                    0 <= i < k && soundness::same_page(
                        #[trigger] address::page_above(va, i),
                        libos_page(offset, k),
                    );
                assert(!soundness::same_page(address::page_above(va, i), libos_page(offset, k)));
            }
        }
        assert(walk::leaf_below(b, root, libos_page(offset, k), 3) == walk::leaf_below(
            s,
            root,
            libos_page(offset, k),
            3,
        ));
        lemma_libos_step(s, b, t, root, va, offset, prot, k);
        soundness::lemma_others_kept(s, b, t, root);
        assert forall|i: int| 0 <= i < n implies #[trigger] libos_kept(
            s,
            t,
            root,
            va,
            offset,
            prot,
            i,
        ) by {
            if i < k {
                let at = address::page_above(va, i);
                assert(libos_kept(s, b, root, va, offset, prot, i));
                ranges::lemma_run_pages_differ(va, k, i);
                assert(walk::leaf_below(t, root, at, 3) == walk::leaf_below(b, root, at, 3));
                if prot & 0x8 != 0 {
                    let theirs = walk::translate(s, root, libos_page(offset, i));
                    loading::lemma_holds_kept(
                        b,
                        t,
                        root,
                        at,
                        machine::page_words(s.mem, theirs),
                        (memory::file_flags(prot) + 0x3) as u64,
                    );
                }
            }
        }
        assert forall|vb: u64| !program::in_run(va, n as int, vb) implies #[trigger] walk::leaf_below(
            t,
            root,
            vb,
            3,
        ) == walk::leaf_below(s, root, vb, 3) by {
            program::lemma_in_run(va, k, vb);
            assert(walk::leaf_below(t, root, vb, 3) == walk::leaf_below(b, root, vb, 3));
        }
    }
}

/// A process that asked for pages of its library OS finds them where it asked
/// for them, page by page: the page at the offset plus `i` pages is at the
/// address plus `i` pages. It is the page itself, or a copy of its own where it
/// is copied on write. What the process may do with it is what it asked for. All
/// its other pages, those of the library OS among them, are found where they
/// were.
pub proof fn law_mapped_library_os_is_found(
    ctx: PALContext,
    s: MachineState,
    p: TrustedProcess,
    after: PALContext,
    t: MachineState,
    q: TrustedProcess,
)
    requires
        ctx.map_request_ok(s),
        ctx.vmsa.r8 == LIBOS_FD,
        ctx.map_served(s, p, after, t, q),
        soundness::sound(s, ctx.vmsa.cr3),
        s.c_bit & 0x8000_FFFF_FFFF_FFFF == 0,
        ctx.vmsa.rcx / 4096 <= 0x10_0000_0000,
        libos_apart(s, ctx.vmsa.cr3, ctx.vmsa.rbx, ctx.vmsa.r9, (ctx.vmsa.rcx / 4096) as int),
        s.pool.available() >= libos_takes(
            s,
            ctx.vmsa.cr3,
            ctx.vmsa.rbx,
            ctx.vmsa.r9,
            ctx.vmsa.rdx,
            (ctx.vmsa.rcx / 4096) as nat,
        ),
    ensures
        after.vmsa.rcx == 0,
        q.mmap_manager@ == p.mmap_manager@,
        forall|i: int|
            0 <= 4096 * i < ctx.vmsa.rcx ==> #[trigger] libos_found(
                s,
                t,
                ctx.vmsa.cr3,
                ctx.vmsa.rbx,
                ctx.vmsa.r9,
                ctx.vmsa.rdx,
                i,
            ),
        forall|vb: u64|
            !program::in_run(ctx.vmsa.rbx, (ctx.vmsa.rcx / 4096) as int, vb)
                ==> #[trigger] walk::leaf_below(t, ctx.vmsa.cr3, vb, 3) == walk::leaf_below(
                s,
                ctx.vmsa.cr3,
                vb,
                3,
            ),
{
    let v = ctx.vmsa;
    let n = (v.rcx / 4096) as nat;
    let c = s.c_bit;
    assert(c & 0x0000_FFFF_FFFF_F000 == 0 && c & 0x8000_0000_0000_0FFF == 0) by (bit_vector)
        requires
            c & 0x8000_FFFF_FFFF_FFFF == 0,
    ;
    lemma_libos(s, v.cr3, v.rbx, v.r9, v.rdx, n);
    assert forall|i: int| 0 <= 4096 * i < v.rcx implies #[trigger] libos_found(
        s,
        t,
        v.cr3,
        v.rbx,
        v.r9,
        v.rdx,
        i,
    ) by {
        assert(0 <= i < n);
        let theirs = walk::translate(s, v.cr3, libos_page(v.r9, i));
        assert(soundness::is_page(s, theirs));
        assert(libos_kept(s, t, v.cr3, v.rbx, v.r9, v.rdx, i));
        lemma_libos_found(s, t, v.cr3, v.rbx, v.r9, v.rdx, i);
    }
}

proof fn lemma_libos_found(
    s: MachineState,
    t: MachineState,
    root: u64,
    va: u64,
    offset: u64,
    prot: u64,
    i: int,
)
    requires
        libos_kept(s, t, root, va, offset, prot, i),
        t.c_bit == s.c_bit,
        s.c_bit & 0x8000_0000_0000_0FFF == 0,
        soundness::is_page(s, walk::translate(s, root, libos_page(offset, i))),
    ensures
        libos_found(s, t, root, va, offset, prot, i),
{
    let at = address::page_above(va, i);
    let theirs = walk::translate(s, root, libos_page(offset, i));
    lemma_flags();
    if prot & 0x8 != 0 {
        let flags = (memory::file_flags(prot) + 0x3) as u64;
        assert(soundness::page_flags(flags));
        entry::lemma_permits(t.c_bit, walk::translate(t, root, at), flags);
    } else {
        let flags = (memory::file_flags(prot) + 0x1) as u64;
        assert(soundness::page_flags(flags));
        soundness::lemma_entry_leads(t.c_bit, theirs, flags);
        entry::lemma_permits(t.c_bit, theirs, flags);
    }
}

/// Memory that a process asked for is there: where the answer is 0, each page of
/// it, up to the last byte that was asked for, is a cleared page of its own that
/// was not there before. It can be written to, and executed where that was asked
/// for. A request that is not made of whole pages changes nothing and is answered
/// with -1. All other pages are found where they were.
pub proof fn law_allocated_memory_is_found(ctx: PALContext, s: MachineState)
    requires
        soundness::sound(s, ctx.vmsa.cr3),
        s.c_bit & 0x8000_0000_0000_0FFF == 0,
        ctx.vmsa.rcx / 4096 <= 0x10_0000_0000,
        s.pool.available() >= growth::run_takes(
            s,
            ctx.vmsa.cr3,
            ctx.vmsa.rbx,
            (ctx.vmsa.rcx / 4096) as nat,
            memory::memory_flags(ctx.vmsa.rdx),
            None,
        ),
    ensures
        ({
            let v = ctx.vmsa;
            let (after, t) = ctx.alloc_served(s);
            let whole = v.rbx % 4096 == 0 && v.rcx % 4096 == 0;
            &&& after == ctx.with_rcx(after.vmsa.rcx)
            &&& after.vmsa.rcx == 0 || after.vmsa.rcx == 0xFFFF_FFFF_FFFF_FFFF
            &&& !whole ==> after.vmsa.rcx != 0 && t == s
            &&& after.vmsa.rcx == 0 ==> forall|i: int|
                0 <= 4096 * i < v.rcx ==> #[trigger] memory_found(s, t, v.cr3, v.rbx, v.rdx, i)
            &&& forall|vb: u64|
                !program::in_run(v.rbx, (v.rcx / 4096) as int, vb) ==> #[trigger] walk::leaf_below(
                    t,
                    v.cr3,
                    vb,
                    3,
                ) == walk::leaf_below(s, v.cr3, vb, 3)
        }),
{
    let v = ctx.vmsa;
    let n = (v.rcx / 4096) as nat;
    let flags = memory::memory_flags(v.rdx);
    let (after, t) = ctx.alloc_served(s);
    lemma_flags();
    assert(soundness::page_flags(flags));
    growth::law_added_pages_belong_to_the_process(s, v.cr3, v.rbx, n, flags);
    if after.vmsa.rcx == 0 {
        assert forall|i: int| 0 <= 4096 * i < v.rcx implies #[trigger] memory_found(
            s,
            t,
            v.cr3,
            v.rbx,
            v.rdx,
            i,
        ) by {
            assert(0 <= i < n);
            let f = transfer::other_page(t, v.cr3, v.rbx, i);
            assert(soundness::in_pool(s.pool, f) && soundness::is_page(s, f));
            assert(address::page_above(v.rbx, i) == address::page_above(v.rbx, i));
            entry::lemma_permits(s.c_bit, f, flags);
        }
    }
    assert forall|vb: u64| !program::in_run(v.rbx, n as int, vb) implies #[trigger] walk::leaf_below(
        t,
        v.cr3,
        vb,
        3,
    ) == walk::leaf_below(s, v.cr3, vb, 3) by {
        lemma_beside_run(v.rbx, n as int, vb);
    }
}

/// Whether page `i` of memory that was asked for at `va` is there: a cleared page
/// that came from the pool, where there was none.
pub open spec fn memory_found(
    s: MachineState,
    t: MachineState,
    root: u64,
    va: u64,
    prot: u64,
    i: int,
) -> bool {
    let at = address::page_above(va, i);
    let own = walk::translate(t, root, at);
    &&& walk::leaf_below(s, root, at, 3) is None
    &&& walk::leaf_below(t, root, at, 3) matches Some(e) && permits(e, true, prot & 0x4 != 0)
    &&& soundness::in_pool(s.pool, own)
    &&& forall|j: int| 0 <= j < 512 ==> #[trigger] machine::page_words(t.mem, own)[j] == 0
}

proof fn lemma_beside_run(start: u64, n: int, vb: u64)
    requires
        !program::in_run(start, n, vb),
    ensures
        forall|i: int|
            0 <= i < n ==> !soundness::same_page(#[trigger] address::page_above(start, i), vb),
{
    assert forall|i: int| 0 <= i < n implies !soundness::same_page(
        #[trigger] address::page_above(start, i),
        vb,
    ) by {
        if soundness::same_page(address::page_above(start, i), vb) {
            assert(program::in_run(start, n, vb));
        }
    }
}

/// Memory that a process gave back is gone: each page of it, up to the last byte,
/// is not found any more and can be handed out again. All other pages are found
/// where they were. A request that is not made of whole pages changes nothing
/// and is answered with -1.
pub proof fn law_freed_memory_is_gone(ctx: PALContext, s: MachineState)
    requires
        soundness::sound(s, ctx.vmsa.cr3),
        ctx.vmsa.rcx / 4096 <= 0x10_0000_0000,
        growth::run_can_be_freed(
            s,
            ctx.vmsa.cr3,
            ctx.vmsa.rbx,
            (ctx.vmsa.rcx / 4096) as int,
        ),
    ensures
        ({
            let v = ctx.vmsa;
            let (after, t) = ctx.free_served(s);
            if v.rbx % 4096 == 0 && v.rcx % 4096 == 0 {
                &&& after == ctx
                &&& forall|i: int|
                    0 <= 4096 * i < v.rcx ==> walk::leaf_below(
                        t,
                        v.cr3,
                        #[trigger] address::page_above(v.rbx, i),
                        3,
                    ) is None
                &&& forall|i: int|
                    0 <= 4096 * i < v.rcx ==> soundness::in_pool(
                        t.pool,
                        #[trigger] transfer::other_page(s, v.cr3, v.rbx, i),
                    )
                &&& t.pool.available() == s.pool.available() + v.rcx / 4096
                &&& forall|vb: u64|
                    !program::in_run(v.rbx, (v.rcx / 4096) as int, vb)
                        ==> #[trigger] walk::leaf_below(t, v.cr3, vb, 3) == walk::leaf_below(
                        s,
                        v.cr3,
                        vb,
                        3,
                    )
            } else {
                t == s && after.vmsa.rcx == 0xFFFF_FFFF_FFFF_FFFF
            }
        }),
{
    let v = ctx.vmsa;
    let n = (v.rcx / 4096) as nat;
    let (after, t) = ctx.free_served(s);
    growth::law_removed_pages_are_freed(s, v.cr3, v.rbx, n);
    if v.rbx % 4096 == 0 && v.rcx % 4096 == 0 {
        let frames = growth::frames(s, v.cr3, v.rbx, n);
        assert forall|i: int| 0 <= 4096 * i < v.rcx implies soundness::in_pool(
            t.pool,
            #[trigger] transfer::other_page(s, v.cr3, v.rbx, i),
        ) by {
            assert(frames[i] == transfer::other_page(s, v.cr3, v.rbx, i));
            assert(t.pool.list[s.pool.list.len() + i] == frames[i]);
        }
        assert forall|vb: u64| !program::in_run(v.rbx, n as int, vb) implies #[trigger] walk::leaf_below(
            t,
            v.cr3,
            vb,
            3,
        ) == walk::leaf_below(s, v.cr3, vb, 3) by {
            lemma_beside_run(v.rbx, n as int, vb);
        }
    }
}

proof fn lemma_protected(s: MachineState, root: u64, va: u64, prot: u64, n: nat)
    requires
        soundness::sound(s, root),
        n <= 0x10_0000_0000,
    ensures
        ({
            let t = memory::run_protected(s, root, va, prot, n);
            &&& soundness::sound(t, root)
            &&& soundness::others_kept(s, t, root)
            &&& t.pool == s.pool
            &&& forall|vb: u64| #[trigger]
                walk::translate(t, root, vb) == walk::translate(s, root, vb)
            &&& forall|i: int|
                0 <= i < n ==> match walk::leaf_below(
                    s,
                    root,
                    #[trigger] address::page_above(va, i),
                    3,
                ) {
                    None => walk::leaf_below(t, root, address::page_above(va, i), 3) is None,
                    Some(e) => walk::leaf_below(t, root, address::page_above(va, i), 3) == Some(
                        walk::with_protection(
                            e,
                            prot & 0x2 != 0 || prot & 0x8 != 0,
                            prot & 0x4 != 0,
                        ),
                    ),
                }
            &&& forall|vb: u64|
                !program::in_run(va, n as int, vb) ==> #[trigger] walk::leaf_below(t, root, vb, 3)
                    == walk::leaf_below(s, root, vb, 3)
        }),
    decreases n,
{
    let t = memory::run_protected(s, root, va, prot, n);
    if n == 0 {
        assert(t == s);
        assert(soundness::others_kept(s, t, root));
    } else {
        let k = n - 1;
        let w = prot & 0x2 != 0 || prot & 0x8 != 0;
        let x = prot & 0x4 != 0;
        lemma_protected(s, root, va, prot, k as nat);
        let b = memory::run_protected(s, root, va, prot, k as nat);
        let at = address::page_above(va, k);
        soundness::law_protection_keeps_pages(b, root, at, w, x);
        assert(t == walk::protect(b, root, at, w, x));
        soundness::lemma_others_kept(s, b, t, root);
        assert(!program::in_run(va, k, at)) by {
            if program::in_run(va, k, at) {
                let i = choose|i: int|
                    0 <= i < k && soundness::same_page(#[trigger] address::page_above(va, i), at);
                ranges::lemma_run_pages_differ(va, i, k);
            }
        }
        assert(walk::leaf_below(b, root, at, 3) == walk::leaf_below(s, root, at, 3));
        assert forall|vb: u64| #[trigger] walk::translate(t, root, vb) == walk::translate(
            s,
            root,
            vb,
        ) by {
            assert(walk::translate(b, root, vb) == walk::translate(s, root, vb));
        }
        assert forall|i: int| 0 <= i < n implies match walk::leaf_below(
            s,
            root,
            #[trigger] address::page_above(va, i),
            3,
        ) {
            None => walk::leaf_below(t, root, address::page_above(va, i), 3) is None,
            Some(e) => walk::leaf_below(t, root, address::page_above(va, i), 3) == Some(
                walk::with_protection(e, w, x),
            ),
        } by {
            if i < k {
                let vi = address::page_above(va, i);
                ranges::lemma_run_pages_differ(va, k, i);
                assert(walk::leaf_below(t, root, vi, 3) == walk::leaf_below(b, root, vi, 3));
            }
        }
        assert forall|vb: u64| !program::in_run(va, n as int, vb) implies #[trigger] walk::leaf_below(
            t,
            root,
            vb,
            3,
        ) == walk::leaf_below(s, root, vb, 3) by {
            program::lemma_in_run(va, k, vb);
            assert(walk::leaf_below(t, root, vb, 3) == walk::leaf_below(b, root, vb, 3));
        }
    }
}

/// Memory that a process protected has the protection that it asked for, wherever
/// one of its bytes lies: what can be written to is what was asked to be, or is
/// copied on write, and what can be executed is what was asked to be. Every
/// address leads where it led, no byte of memory that is no table is changed, and
/// all other pages keep their protection. The answer is 0.
pub proof fn law_protected_memory_is_protected(ctx: PALContext, s: MachineState)
    requires
        soundness::sound(s, ctx.vmsa.cr3),
        ctx.can_protect(),
        (ctx.vmsa.rbx % 4096 + ctx.vmsa.rcx + 4095) / 4096 <= 0x10_0000_0000,
    ensures
        ({
            let v = ctx.vmsa;
            let (after, t) = ctx.protect_served(s);
            &&& after == ctx.with_rcx(0)
            &&& soundness::others_kept(s, t, v.cr3)
            &&& forall|vb: u64| #[trigger]
                walk::translate(t, v.cr3, vb) == walk::translate(s, v.cr3, vb)
            &&& forall|k: int|
                0 <= k < v.rcx ==> is_protected(
                    s,
                    t,
                    v.cr3,
                    #[trigger] address::addr_add(v.rbx, k),
                    v.rdx,
                )
            &&& forall|vb: u64|
                !program::in_run(
                    (v.rbx - v.rbx % 4096) as u64,
                    ((v.rbx % 4096 + v.rcx + 4095) / 4096) as int,
                    vb,
                ) ==> #[trigger] walk::leaf_below(t, v.cr3, vb, 3) == walk::leaf_below(
                    s,
                    v.cr3,
                    vb,
                    3,
                )
        }),
{
    let v = ctx.vmsa;
    let start = (v.rbx - v.rbx % 4096) as u64;
    let n = ((v.rbx % 4096 + v.rcx + 4095) / 4096) as nat;
    let t = ctx.protect_served(s).1;
    lemma_protected(s, v.cr3, start, v.rdx, n);
    assert forall|k: int| 0 <= k < v.rcx implies is_protected(
        s,
        t,
        v.cr3,
        #[trigger] address::addr_add(v.rbx, k),
        v.rdx,
    ) by {
        let i = (v.rbx % 4096 + k) / 4096;
        assert(0 <= i < n);
        let va = address::page_above(start, i);
        lemma_is_protected(s, t, v.cr3, v.rbx, k, v.rdx);
    }
}

/// Whether the page at an address, where there is one, has the protection that
/// was asked for.
pub open spec fn is_protected(
    s: MachineState,
    t: MachineState,
    root: u64,
    at: u64,
    prot: u64,
) -> bool {
    walk::leaf_below(s, root, at, 3) is Some ==> (walk::leaf_below(t, root, at, 3) matches Some(e)
        && (e & 0x2 == 0x2 <==> prot & 0x2 != 0 || prot & 0x8 != 0) && (e & 0x8000_0000_0000_0000
        == 0 <==> prot & 0x4 != 0))
}

proof fn lemma_is_protected(
    s: MachineState,
    t: MachineState,
    root: u64,
    rbx: u64,
    k: int,
    prot: u64,
)
    requires
        0 <= k,
        ({
            let va = address::page_above((rbx - rbx % 4096) as u64, (rbx % 4096 + k) / 4096);
            walk::leaf_below(s, root, va, 3) matches Some(e) ==> walk::leaf_below(t, root, va, 3)
                == Some(
                walk::with_protection(e, prot & 0x2 != 0 || prot & 0x8 != 0, prot & 0x4 != 0),
            )
        }),
    ensures
        is_protected(s, t, root, address::addr_add(rbx, k), prot),
{
    let start = (rbx - rbx % 4096) as u64;
    let d = rbx % 4096 + k;
    let va = address::page_above(start, d / 4096);
    let at = address::addr_add(rbx, k);
    assert(at == address::addr_add(start, d));
    loading::lemma_byte_address(start, d);
    growth::lemma_leaf_of_page(s, root, va, at);
    growth::lemma_leaf_of_page(t, root, va, at);
    match walk::leaf_below(s, root, va, 3) {
        Some(e) => soundness::lemma_protection_bits(
            s.c_bit,
            e,
            prot & 0x2 != 0 || prot & 0x8 != 0,
            prot & 0x4 != 0,
        ),
        None => {},
    }
}

/// The pages that mapping the first `n` pages of a file takes, for tables.
pub open spec fn file_takes(s: MachineState, root: u64, va: u64, prot: u64, n: nat) -> nat
    decreases n,
{
    if n == 0 {
        0
    } else {
        let k = (n - 1) as nat;
        file_takes(s, root, va, prot, k) + walk::walk_end(
            memory::file_mapped(s, root, va, prot, k),
            root,
            address::page_above(va, k as int),
            3,
        ).0
    }
}

proof fn lemma_waiting_flags(prot: u64)
    ensures
        ({
            let f = memory::file_flags(prot);
            &&& soundness::page_flags(f)
            &&& f & 0x1 == 0
            &&& f & 0x4 != 0
            &&& f & 0x2 != 0 <==> prot & 0x2 != 0 && prot & 0x8 == 0
            &&& f & 0x8000_0000_0000_0000 == 0 <==> prot & 0x4 != 0
        }),
{
    let f = memory::file_flags(prot);
    assert(f & 0x000F_FFFF_FFFF_F000 == 0 && f & 0x400 != 0x400 && f & 0x1 == 0 && f & 0x4 != 0 && (f
        & 0x2 != 0 <==> f == 0x26 || f == 0x8000_0000_0000_0026) && (f & 0x8000_0000_0000_0000 == 0
        <==> f == 0x24 || f == 0x26)) by (bit_vector)
        requires
            f == 0x24 || f == 0x26 || f == 0x8000_0000_0000_0024 || f == 0x8000_0000_0000_0026,
    ;
}

proof fn lemma_file(s: MachineState, root: u64, va: u64, prot: u64, n: nat)
    requires
        soundness::sound(s, root),
        s.c_bit & 0x8000_0000_0000_0FFF == 0,
        n <= 0x10_0000_0000,
        s.pool.available() >= file_takes(s, root, va, prot, n),
    ensures
        ({
            let t = memory::file_mapped(s, root, va, prot, n);
            &&& soundness::sound(t, root)
            &&& soundness::others_kept(s, t, root)
            &&& t.pool.available() == s.pool.available() - file_takes(s, root, va, prot, n)
            &&& forall|i: int|
                0 <= i < n ==> expected::has_slot(
                    t,
                    root,
                    #[trigger] address::page_above(va, i),
                    entry::entry_word(s.c_bit, 0, memory::file_flags(prot)),
                )
            &&& forall|i: int|
                0 <= i < n ==> walk::leaf_below(t, root, #[trigger] address::page_above(va, i), 3)
                    is None
            &&& forall|vb: u64|
                !program::in_run(va, n as int, vb) ==> #[trigger] walk::leaf_below(t, root, vb, 3)
                    == walk::leaf_below(s, root, vb, 3)
        }),
    decreases n,
{
    let t = memory::file_mapped(s, root, va, prot, n);
    if n == 0 {
        assert(t == s);
        assert(soundness::others_kept(s, t, root));
    } else {
        let k = n - 1;
        let flags = memory::file_flags(prot);
        let word = entry::entry_word(s.c_bit, 0, flags);
        lemma_file(s, root, va, prot, k as nat);
        let b = memory::file_mapped(s, root, va, prot, k as nat);
        let at = address::page_above(va, k);
        lemma_waiting_flags(prot);
        entry::lemma_empty();
        entry::lemma_permits(s.c_bit, 0, flags);
        soundness::law_absent_page_is_not_found(b, root, at, 0, flags);
        assert(t == mapping::map_page(b, root, at, 0, flags));
        soundness::lemma_others_kept(s, b, t, root);
        assert forall|i: int| 0 <= i < n implies expected::has_slot(
            t,
            root,
            #[trigger] address::page_above(va, i),
            word,
        ) && walk::leaf_below(t, root, address::page_above(va, i), 3) is None by {
            let vi = address::page_above(va, i);
            expected::law_made_entry_is_there(b, root, at, 0, flags, vi);
            if i < k {
                ranges::lemma_run_pages_differ(va, k, i);
                assert(expected::has_slot(b, root, vi, word));
                assert(walk::leaf_below(b, root, vi, 3) is None);
                assert(walk::leaf_below(t, root, vi, 3) == walk::leaf_below(b, root, vi, 3));
            }
        }
        assert forall|vb: u64| !program::in_run(va, n as int, vb) implies #[trigger] walk::leaf_below(
            t,
            root,
            vb,
            3,
        ) == walk::leaf_below(s, root, vb, 3) by {
            program::lemma_in_run(va, k, vb);
            assert(walk::leaf_below(t, root, vb, 3) == walk::leaf_below(b, root, vb, 3));
        }
    }
}

/// A file that was mapped waits for its pages: none of them is there yet, and the
/// entry for each of them, up to the last byte, has the protection that was asked
/// for. All other pages are found where they were.
pub proof fn law_mapped_file_waits_for_its_pages(
    ctx: PALContext,
    s: MachineState,
    p: TrustedProcess,
    after: PALContext,
    t: MachineState,
    q: TrustedProcess,
)
    requires
        ctx.map_request_ok(s),
        ctx.vmsa.r8 != LIBOS_FD,
        ctx.map_served(s, p, after, t, q),
        soundness::sound(s, ctx.vmsa.cr3),
        s.c_bit & 0x8000_0000_0000_0FFF == 0,
        ctx.vmsa.rcx / 4096 <= 0x10_0000_0000,
        s.pool.available() >= file_takes(
            s,
            ctx.vmsa.cr3,
            ctx.vmsa.rbx,
            ctx.vmsa.rdx,
            (ctx.vmsa.rcx / 4096) as nat,
        ),
    ensures
        after == ctx.with_rcx(0),
        forall|i: int|
            0 <= 4096 * i < ctx.vmsa.rcx ==> #[trigger] waits_at(
                t,
                ctx.vmsa.cr3,
                ctx.vmsa.rbx,
                i,
                ctx.vmsa.rdx,
            ),
        forall|vb: u64|
            !program::in_run(ctx.vmsa.rbx, (ctx.vmsa.rcx / 4096) as int, vb)
                ==> #[trigger] walk::leaf_below(t, ctx.vmsa.cr3, vb, 3) == walk::leaf_below(
                s,
                ctx.vmsa.cr3,
                vb,
                3,
            ),
{
    let v = ctx.vmsa;
    let n = (v.rcx / 4096) as nat;
    assert(t == memory::file_mapped(s, v.cr3, v.rbx, v.rdx, n));
    assert(v.rcx % 4096 == 0);
    lemma_file_waits(s, v.cr3, v.rbx, v.rdx, n);
    assert forall|i: int| 0 <= 4096 * i < v.rcx implies #[trigger] waits_at(
        t,
        v.cr3,
        v.rbx,
        i,
        v.rdx,
    ) by {
        assert(0 <= i < n);
    }
}

/// Whether page `i` of a mapped file is not there yet, and is waited for by an
/// entry with the protection that was asked for.
pub open spec fn waits_at(t: MachineState, root: u64, start: u64, i: int, prot: u64) -> bool {
    let va = address::page_above(start, i);
    &&& walk::leaf_below(t, root, va, 3) is None
    &&& soundness::reach(t, root, va, 0)
    &&& permits(
        expected::slot_word(t, root, va),
        prot & 0x2 != 0 && prot & 0x8 == 0,
        prot & 0x4 != 0,
    )
}

proof fn lemma_file_waits(s: MachineState, root: u64, va: u64, prot: u64, n: nat)
    requires
        soundness::sound(s, root),
        s.c_bit & 0x8000_0000_0000_0FFF == 0,
        n <= 0x10_0000_0000,
        s.pool.available() >= file_takes(s, root, va, prot, n),
    ensures
        ({
            let t = memory::file_mapped(s, root, va, prot, n);
            &&& forall|i: int| 0 <= i < n ==> #[trigger] waits_at(t, root, va, i, prot)
            &&& forall|vb: u64|
                !program::in_run(va, n as int, vb) ==> #[trigger] walk::leaf_below(t, root, vb, 3)
                    == walk::leaf_below(s, root, vb, 3)
        }),
{
    let t = memory::file_mapped(s, root, va, prot, n);
    lemma_file(s, root, va, prot, n);
    assert forall|i: int| 0 <= i < n implies #[trigger] waits_at(t, root, va, i, prot) by {
        let at = address::page_above(va, i);
        assert(expected::has_slot(
            t,
            root,
            at,
            entry::entry_word(s.c_bit, 0, memory::file_flags(prot)),
        ));
        lemma_waiting_slot(s, t, root, at, prot);
    }
}

/// A file that a process maps is recorded with its place: from then on the
/// process has a mapping of the pages that it named, to that file, from the
/// offset on that it named. All mappings of other ranges stay.
pub proof fn law_mapped_file_is_recorded(
    ctx: PALContext,
    s: MachineState,
    p: TrustedProcess,
    after: PALContext,
    t: MachineState,
    q: TrustedProcess,
)
    requires
        ctx.map_request_ok(s),
        ctx.vmsa.r8 != LIBOS_FD,
        ctx.map_served(s, p, after, t, q),
        mmap::ordered(p.mmap_manager@),
    ensures
        exists|range: RangeWrapper, info: MmapInfo|
            {
                &&& #[trigger] mmap::maps(q.mmap_manager@, range, info)
                &&& range.start == ctx.vmsa.rbx
                &&& range.end == ctx.vmsa.rbx + ctx.vmsa.rcx
                &&& info.addr == ctx.vmsa.rbx
                &&& info.size == ctx.vmsa.rcx
                &&& info.offset == ctx.vmsa.r9
                &&& (info.fd - ctx.vmsa.r8) % 0x1_0000_0000 == 0
            },
        forall|range: RangeWrapper, info: MmapInfo| #[trigger]
            mmap::maps(p.mmap_manager@, range, info) && !(range.start == ctx.vmsa.rbx && range.end
                == ctx.vmsa.rbx + ctx.vmsa.rcx) ==> mmap::maps(q.mmap_manager@, range, info),
{
    let v = ctx.vmsa;
    let range = RangeWrapper { start: v.rbx, end: (v.rbx + v.rcx) as u64 };
    let info = MmapInfo {
        fd: memory::low_half(v.r8) as i32,
        offset: v.r9,
        addr: v.rbx,
        size: v.rcx,
    };
    mmap::law_last_added_is_kept(p.mmap_manager@, range, info);
    assert(mmap::maps(q.mmap_manager@, range, info));
}

/// An entry that waits for the page of a file has the protection that was asked
/// for.
proof fn lemma_waiting_slot(s: MachineState, t: MachineState, root: u64, va: u64, prot: u64)
    requires
        s.c_bit & 0x8000_0000_0000_0FFF == 0,
        expected::has_slot(
            t,
            root,
            va,
            entry::entry_word(s.c_bit, 0, memory::file_flags(prot)),
        ),
    ensures
        soundness::reach(t, root, va, 0),
        permits(
            expected::slot_word(t, root, va),
            prot & 0x2 != 0 && prot & 0x8 == 0,
            prot & 0x4 != 0,
        ),
{
    lemma_waiting_flags(prot);
    entry::lemma_empty();
    entry::lemma_permits(s.c_bit, 0, memory::file_flags(prot));
}

} // verus!
