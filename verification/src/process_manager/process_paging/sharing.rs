//! What processes share, and what a write by one of them leaves the others.
use vstd::prelude::*;
use crate::memory::machine;
use crate::memory::machine::{MachineOp, MachineState};
use crate::process_manager::process_paging::cow;
use crate::process_manager::process_paging::entry;
use crate::process_manager::process_paging::finalize;
use crate::process_manager::process_paging::finalize::TablePath;
use crate::process_manager::process_paging::isolation;
use crate::process_manager::process_paging::soundness;
use crate::process_manager::process_paging::walk;

verus! {

/// Whether an entry is marked, and does not permit to write.
pub open spec fn shut(e: u64) -> bool {
    e & 0x202 == 0x200
}

/// Whether what is marked in `a` is marked in `b`, and word `w`, if `closed`,
/// is shut in `b` if it is in `a`.
spec fn advances(a: MachineState, b: MachineState, w: int, closed: bool) -> bool {
    &&& a.mem.len() == b.mem.len()
    &&& forall|k: int|
        0 <= k < a.mem.len() && entry::cow(#[trigger] a.mem[k]) ==> entry::cow(b.mem[k])
    &&& closed && 0 <= w < a.mem.len() && shut(a.mem[w]) ==> shut(b.mem[w])
}

/// Whether word `w` is none that is opened on the way to the exception stack.
spec fn away(path: TablePath, w: int) -> bool {
    path.to_stack() ==> {
        &&& path.pgd as int / 8 + path.pgd_idx != w
        &&& path.pud as int / 8 + path.pud_idx != w
        &&& forall|i: int| 0 <= i < 512 ==> #[trigger] word_of(path.pmd, i) != w
    }
}

/// The place of word `i` of a table in memory.
pub open spec fn word_of(table: u64, i: int) -> int {
    table as int / 8 + i
}

proof fn lemma_marks(e: u64)
    ensures
        entry::cow(finalize::guarded(e)),
        shut(finalize::guarded(e)),
        entry::cow(finalize::opened(e)),
        shut(e) ==> entry::cow(e) && e & 0x2 == 0,
        entry::strip(e, 0) == 0,
{
    assert(((e | 0x200) & !0x2u64) & 0x200 == 0x200 && ((e | 0x200) & !0x2u64) & 0x202 == 0x200 && (
    (e | 0x200) | 0x2u64) & 0x200 == 0x200 && (e & 0x202 == 0x200 ==> e & 0x200 == 0x200 && e & 0x2
        == 0) && 0u64 & 0x000F_FFFF_FFFF_F000 & !e == 0) by (bit_vector);
}

proof fn lemma_guarded_advances(t: MachineState, table: u64, i: int, w: int, closed: bool)
    ensures
        advances(t, t.wr(table, i, finalize::guarded(t.rd(table, i))), w, closed),
{
    lemma_marks(t.rd(table, i));
}

proof fn lemma_opened_advances(t: MachineState, table: u64, i: int, w: int, closed: bool)
    requires
        closed ==> table as int / 8 + i != w,
    ensures
        advances(t, t.wr(table, i, finalize::opened(t.rd(table, i))), w, closed),
{
    lemma_marks(t.rd(table, i));
}

proof fn lemma_page_advances(
    t: MachineState,
    path: TablePath,
    table: u64,
    i: int,
    w: int,
    closed: bool,
)
    requires
        path.pmd_idx < 512,
        closed ==> away(path, w),
    ensures
        advances(t, finalize::mark_page(t, path, table, i), w, closed),
{
    if entry::strip(t.c_bit, t.rd(table, i)) == 0 {
    } else if !path.to_stack() {
        lemma_guarded_advances(t, table, i, w, closed);
    } else {
        assert(closed ==> word_of(path.pmd, path.pmd_idx as int) != w);
        lemma_opened_advances(t, path.pgd, path.pgd_idx as int, w, closed);
        let t1 = t.wr(
            path.pgd,
            path.pgd_idx as int,
            finalize::opened(t.rd(path.pgd, path.pgd_idx as int)),
        );
        lemma_opened_advances(t1, path.pud, path.pud_idx as int, w, closed);
        let t2 = t1.wr(
            path.pud,
            path.pud_idx as int,
            finalize::opened(t1.rd(path.pud, path.pud_idx as int)),
        );
        lemma_opened_advances(t2, path.pmd, path.pmd_idx as int, w, closed);
    }
}

proof fn lemma_pte_advances(
    t: MachineState,
    path: TablePath,
    table: u64,
    n: nat,
    w: int,
    closed: bool,
)
    requires
        path.pmd_idx < 512,
        closed ==> away(path, w),
    ensures
        advances(t, finalize::mark_pte(t, path, table, n), w, closed),
    decreases n,
{
    if n > 0 {
        lemma_pte_advances(t, path, table, (n - 1) as nat, w, closed);
        let u = finalize::mark_pte(t, path, table, (n - 1) as nat);
        lemma_page_advances(u, path, table, n - 1, w, closed);
    }
}

/// The path to the entry `i` of the table `path.pmd`.
pub open spec fn below_pmd(path: TablePath, i: int) -> TablePath {
    TablePath { pmd_idx: i as u64, ..path }
}

/// The path to the table that entry `i` of the table `path.pud` leads to.
pub open spec fn below_pud(s: MachineState, path: TablePath, i: int) -> TablePath {
    TablePath {
        pud_idx: i as u64,
        pmd: entry::strip(s.c_bit, s.rd(path.pud, i)),
        pmd_idx: 0,
        ..path
    }
}

/// The path to the table that entry `i` of the root table leads to.
pub open spec fn below_root(s: MachineState, root: u64, i: int) -> TablePath {
    TablePath {
        pgd: root,
        pgd_idx: i as u64,
        pud: entry::strip(s.c_bit, s.rd(root, i)),
        pud_idx: 0,
        pmd: 0,
        pmd_idx: 0,
    }
}

proof fn lemma_pmd_step(t: MachineState, path: TablePath, n: nat, w: int, closed: bool)
    requires
        n < 512,
        closed ==> away(path, w),
    ensures
        advances(
            finalize::mark_pmd(t, path, n),
            finalize::mark_pmd(t, path, n + 1),
            w,
            closed,
        ),
{
    let u = finalize::mark_pmd(t, path, n);
    let e = u.rd(path.pmd, n as int);
    if entry::strip(u.c_bit, e) != 0 {
        lemma_guarded_advances(u, path.pmd, n as int, w, closed);
        let v = u.wr(path.pmd, n as int, finalize::guarded(e));
        let p = below_pmd(path, n as int);
        assert(closed ==> away(p, w));
        lemma_pte_advances(v, p, entry::strip(u.c_bit, e), 512, w, closed);
    }
}

proof fn lemma_pmd_advances(t: MachineState, path: TablePath, n: nat, w: int, closed: bool)
    requires
        n <= 512,
        closed ==> away(path, w),
    ensures
        advances(t, finalize::mark_pmd(t, path, n), w, closed),
    decreases n,
{
    if n > 0 {
        lemma_pmd_advances(t, path, (n - 1) as nat, w, closed);
        lemma_pmd_step(t, path, (n - 1) as nat, w, closed);
    }
}

/// Whether word `w` is none that is opened below `path.pud`.
spec fn away_pud(s: MachineState, path: TablePath, w: int) -> bool {
    entry::strip(s.c_bit, s.rd(path.pud, 64)) != 0 ==> away(below_pud(s, path, 64), w)
}

proof fn lemma_pud_step(
    s: MachineState,
    t: MachineState,
    path: TablePath,
    n: nat,
    w: int,
    closed: bool,
)
    requires
        n < 512,
        finalize::same_but_marks(s, t),
        closed ==> away_pud(s, path, w),
    ensures
        advances(
            finalize::mark_pud(t, path, n),
            finalize::mark_pud(t, path, n + 1),
            w,
            closed,
        ),
{
    let u = finalize::mark_pud(t, path, n);
    let e = u.rd(path.pud, n as int);
    finalize::lemma_marks_keep_pud(s, t, path, n);
    finalize::lemma_same_but_marks(s, u, path.pud, n as int);
    if entry::strip(u.c_bit, e) != 0 {
        lemma_guarded_advances(u, path.pud, n as int, w, closed);
        let v = u.wr(path.pud, n as int, finalize::guarded(e));
        lemma_pmd_advances(v, below_pud(s, path, n as int), 512, w, closed);
    }
}

proof fn lemma_pud_advances(
    s: MachineState,
    t: MachineState,
    path: TablePath,
    n: nat,
    w: int,
    closed: bool,
)
    requires
        n <= 512,
        finalize::same_but_marks(s, t),
        closed ==> away_pud(s, path, w),
    ensures
        advances(t, finalize::mark_pud(t, path, n), w, closed),
    decreases n,
{
    if n > 0 {
        lemma_pud_advances(s, t, path, (n - 1) as nat, w, closed);
        lemma_pud_step(s, t, path, (n - 1) as nat, w, closed);
    }
}

/// Whether word `w` is none that is opened below a root.
spec fn away_root(s: MachineState, root: u64, w: int) -> bool {
    entry::strip(s.c_bit, s.rd(root, 1)) != 0 ==> away_pud(s, below_root(s, root, 1), w)
}

proof fn lemma_pgd_step(s: MachineState, root: u64, n: nat, w: int, closed: bool)
    requires
        n < 512,
        closed ==> away_root(s, root, w),
    ensures
        advances(
            finalize::mark_pgd(s, root, n),
            finalize::mark_pgd(s, root, n + 1),
            w,
            closed,
        ),
{
    let u = finalize::mark_pgd(s, root, n);
    let e = u.rd(root, n as int);
    finalize::lemma_marks_keep_pgd(s, root, n);
    finalize::lemma_same_but_marks(s, u, root, n as int);
    if n != 5 && n != 6 && entry::strip(u.c_bit, e) != 0 {
        lemma_guarded_advances(u, root, n as int, w, closed);
        finalize::lemma_marks_keep(s, u, root, n as int, false);
        let v = u.wr(root, n as int, finalize::guarded(e));
        lemma_pud_advances(s, v, below_root(s, root, n as int), 512, w, closed);
    }
}

/// Whether entry `i` of a table is marked, and shut if it is word `w`.
spec fn visited(s: MachineState, table: u64, i: int, w: int, closed: bool) -> bool {
    &&& entry::cow(s.rd(table, i))
    &&& closed && w == table as int / 8 + i ==> shut(s.rd(table, i))
}

proof fn lemma_stays_visited(
    a: MachineState,
    b: MachineState,
    table: u64,
    i: int,
    w: int,
    closed: bool,
)
    requires
        advances(a, b, w, closed),
        visited(a, table, i, w, closed),
    ensures
        visited(b, table, i, w, closed),
{
    let k = table as int / 8 + i;
    assert(!entry::cow(0)) by {
        entry::lemma_empty();
    }
    assert(0 <= k < a.mem.len());
    assert(entry::cow(a.mem[k]));
}

proof fn lemma_pte_visits(
    t: MachineState,
    path: TablePath,
    table: u64,
    n: nat,
    i: int,
    w: int,
    closed: bool,
)
    requires
        0 <= i < n <= 512,
        path.pmd_idx < 512,
        !path.to_stack(),
        entry::strip(t.c_bit, t.rd(table, i)) != 0,
    ensures
        visited(finalize::mark_pte(t, path, table, n), table, i, w, closed),
    decreases n,
{
    let u = finalize::mark_pte(t, path, table, (n - 1) as nat);
    if i == n - 1 {
        assert(finalize::same_but_marks(t, t));
        finalize::lemma_marks_keep_pte(t, t, path, table, (n - 1) as nat);
        finalize::lemma_same_but_marks(t, u, table, i);
        lemma_marks(u.rd(table, i));
        lemma_marks(u.c_bit);
    } else {
        lemma_pte_visits(t, path, table, (n - 1) as nat, i, w, closed);
        lemma_page_advances(u, path, table, n - 1, w, closed);
        lemma_stays_visited(
            u,
            finalize::mark_page(u, path, table, n - 1),
            table,
            i,
            w,
            closed,
        );
    }
}

/// Whether the entry for `va` in a table of pages is marked, where it leads to
/// a page and not to the exception stack.
spec fn page_visited(
    s: MachineState,
    r: MachineState,
    path: TablePath,
    table: u64,
    va: u64,
    w: int,
    closed: bool,
) -> bool {
    let i = entry::table_index(va, 0);
    entry::strip(s.c_bit, s.rd(table, i)) != 0 && !path.to_stack() ==> visited(
        r,
        table,
        i,
        w,
        closed,
    )
}

/// Whether the entries for `va` in the table `path.pmd` and below are marked.
spec fn pmd_visited(
    s: MachineState,
    r: MachineState,
    path: TablePath,
    va: u64,
    w: int,
    closed: bool,
) -> bool {
    let i = entry::table_index(va, 1);
    let table = entry::strip(s.c_bit, s.rd(path.pmd, i));
    table != 0 ==> {
        &&& entry::cow(r.rd(path.pmd, i))
        &&& page_visited(s, r, path, table, va, w, closed)
    }
}

proof fn lemma_pmd_stays(
    s: MachineState,
    a: MachineState,
    b: MachineState,
    path: TablePath,
    va: u64,
    w: int,
    closed: bool,
)
    requires
        advances(a, b, w, closed),
        pmd_visited(s, a, path, va, w, closed),
    ensures
        pmd_visited(s, b, path, va, w, closed),
{
    let i = entry::table_index(va, 1);
    let table = entry::strip(s.c_bit, s.rd(path.pmd, i));
    let j = entry::table_index(va, 0);
    if table != 0 {
        lemma_stays_visited(a, b, path.pmd, i, w, false);
        if entry::strip(s.c_bit, s.rd(table, j)) != 0 && !path.to_stack() {
            lemma_stays_visited(a, b, table, j, w, closed);
        }
    }
}

proof fn lemma_pmd_visits(
    s: MachineState,
    t: MachineState,
    path: TablePath,
    n: nat,
    va: u64,
    w: int,
    closed: bool,
)
    requires
        entry::table_index(va, 1) < n <= 512,
        finalize::same_but_marks(s, t),
        closed ==> away(path, w),
    ensures
        pmd_visited(s, finalize::mark_pmd(t, path, n), path, va, w, closed),
    decreases n,
{
    let i = entry::table_index(va, 1);
    let u = finalize::mark_pmd(t, path, (n - 1) as nat);
    let r = finalize::mark_pmd(t, path, n);
    if i == n - 1 {
        let table = entry::strip(s.c_bit, s.rd(path.pmd, i));
        finalize::lemma_marks_keep_pmd(s, t, path, (n - 1) as nat);
        finalize::lemma_same_but_marks(s, u, path.pmd, i);
        if table != 0 {
            let e = u.rd(path.pmd, i);
            let v = u.wr(path.pmd, i, finalize::guarded(e));
            let p = below_pmd(path, i);
            lemma_marks(e);
            lemma_marks(u.c_bit);
            finalize::lemma_marks_keep(s, u, path.pmd, i, false);
            assert(closed ==> away(p, w));
            lemma_pte_advances(v, p, table, 512, w, closed);
            lemma_stays_visited(v, r, path.pmd, i, w, false);
            let j = entry::table_index(va, 0);
            finalize::lemma_same_but_marks(s, v, table, j);
            if entry::strip(s.c_bit, s.rd(table, j)) != 0 && !path.to_stack() {
                lemma_pte_visits(v, p, table, 512, j, w, closed);
            }
        }
    } else {
        lemma_pmd_visits(s, t, path, (n - 1) as nat, va, w, closed);
        lemma_pmd_step(t, path, (n - 1) as nat, w, closed);
        lemma_pmd_stays(s, u, r, path, va, w, closed);
    }
}

/// Whether the entries for `va` in the table `path.pud` and below are marked.
spec fn pud_visited(
    s: MachineState,
    r: MachineState,
    path: TablePath,
    va: u64,
    w: int,
    closed: bool,
) -> bool {
    let i = entry::table_index(va, 2);
    entry::strip(s.c_bit, s.rd(path.pud, i)) != 0 ==> {
        &&& entry::cow(r.rd(path.pud, i))
        &&& pmd_visited(s, r, below_pud(s, path, i), va, w, closed)
    }
}

proof fn lemma_pud_stays(
    s: MachineState,
    a: MachineState,
    b: MachineState,
    path: TablePath,
    va: u64,
    w: int,
    closed: bool,
)
    requires
        advances(a, b, w, closed),
        pud_visited(s, a, path, va, w, closed),
    ensures
        pud_visited(s, b, path, va, w, closed),
{
    let i = entry::table_index(va, 2);
    if entry::strip(s.c_bit, s.rd(path.pud, i)) != 0 {
        lemma_stays_visited(a, b, path.pud, i, w, false);
        lemma_pmd_stays(s, a, b, below_pud(s, path, i), va, w, closed);
    }
}

proof fn lemma_pud_visits(
    s: MachineState,
    t: MachineState,
    path: TablePath,
    n: nat,
    va: u64,
    w: int,
    closed: bool,
)
    requires
        entry::table_index(va, 2) < n <= 512,
        finalize::same_but_marks(s, t),
        closed ==> away_pud(s, path, w),
    ensures
        pud_visited(s, finalize::mark_pud(t, path, n), path, va, w, closed),
    decreases n,
{
    let i = entry::table_index(va, 2);
    let u = finalize::mark_pud(t, path, (n - 1) as nat);
    let r = finalize::mark_pud(t, path, n);
    if i == n - 1 {
        finalize::lemma_marks_keep_pud(s, t, path, (n - 1) as nat);
        finalize::lemma_same_but_marks(s, u, path.pud, i);
        if entry::strip(s.c_bit, s.rd(path.pud, i)) != 0 {
            let e = u.rd(path.pud, i);
            let v = u.wr(path.pud, i, finalize::guarded(e));
            let p = below_pud(s, path, i);
            lemma_marks(e);
            lemma_marks(u.c_bit);
            finalize::lemma_marks_keep(s, u, path.pud, i, false);
            assert(closed ==> away(p, w));
            lemma_pmd_advances(v, p, 512, w, closed);
            lemma_stays_visited(v, r, path.pud, i, w, false);
            lemma_pmd_visits(s, v, p, 512, va, w, closed);
        }
    } else {
        lemma_pud_visits(s, t, path, (n - 1) as nat, va, w, closed);
        lemma_pud_step(s, t, path, (n - 1) as nat, w, closed);
        lemma_pud_stays(s, u, r, path, va, w, closed);
    }
}

/// Whether the entries for `va` in the root table and below are marked.
spec fn root_visited(
    s: MachineState,
    r: MachineState,
    root: u64,
    va: u64,
    w: int,
    closed: bool,
) -> bool {
    let i = entry::table_index(va, 3);
    entry::strip(s.c_bit, s.rd(root, i)) != 0 ==> {
        &&& entry::cow(r.rd(root, i))
        &&& pud_visited(s, r, below_root(s, root, i), va, w, closed)
    }
}

proof fn lemma_root_visits(s: MachineState, root: u64, n: nat, va: u64, w: int, closed: bool)
    requires
        entry::table_index(va, 3) < n <= 512,
        entry::table_index(va, 3) != 5,
        entry::table_index(va, 3) != 6,
        closed ==> away_root(s, root, w),
    ensures
        root_visited(s, finalize::mark_pgd(s, root, n), root, va, w, closed),
    decreases n,
{
    let i = entry::table_index(va, 3);
    let u = finalize::mark_pgd(s, root, (n - 1) as nat);
    let r = finalize::mark_pgd(s, root, n);
    if i == n - 1 {
        finalize::lemma_marks_keep_pgd(s, root, (n - 1) as nat);
        finalize::lemma_same_but_marks(s, u, root, i);
        if entry::strip(s.c_bit, s.rd(root, i)) != 0 {
            let e = u.rd(root, i);
            let v = u.wr(root, i, finalize::guarded(e));
            let p = below_root(s, root, i);
            lemma_marks(e);
            lemma_marks(u.c_bit);
            finalize::lemma_marks_keep(s, u, root, i, false);
            assert(closed ==> away_pud(s, p, w));
            lemma_pud_advances(s, v, p, 512, w, closed);
            lemma_stays_visited(v, r, root, i, w, false);
            lemma_pud_visits(s, v, p, 512, va, w, closed);
        }
    } else {
        lemma_root_visits(s, root, (n - 1) as nat, va, w, closed);
        lemma_pgd_step(s, root, (n - 1) as nat, w, closed);
        if entry::strip(s.c_bit, s.rd(root, i)) != 0 {
            lemma_stays_visited(u, r, root, i, w, false);
            lemma_pud_stays(s, u, r, below_root(s, root, i), va, w, closed);
        }
    }
}

/// Whether a copy on write is for `va`: the slots of the memory channels are
/// the process's own, and the exception stack is written in place.
pub open spec fn copied_on_write(va: u64) -> bool {
    &&& entry::table_index(va, 3) != 5
    &&& entry::table_index(va, 3) != 6
    &&& !(entry::table_index(va, 3) == 1 && entry::table_index(va, 2) == 64)
}

/// Whether an entry on the way to the exception stack that leads somewhere is
/// present.
pub open spec fn stack_clean(s: MachineState, root: u64) -> bool {
    let pud = entry::strip(s.c_bit, s.rd(root, 1));
    pud != 0 ==> {
        &&& entry::present(s.rd(root, 1))
        &&& entry::strip(s.c_bit, s.rd(pud, 64)) != 0 ==> entry::present(s.rd(pud, 64))
    }
}

/// Whether all entries on the way to `va` are marked.
pub open spec fn way_marked(s: MachineState, root: u64, va: u64) -> bool {
    &&& entry::cow(walk::entry_in(s, soundness::tab(s, root, va, 3), va, 3))
    &&& entry::cow(walk::entry_in(s, soundness::tab(s, root, va, 2), va, 2))
    &&& entry::cow(walk::entry_in(s, soundness::tab(s, root, va, 1), va, 1))
    &&& entry::cow(walk::entry_in(s, soundness::tab(s, root, va, 0), va, 0))
}

/// The way to a page is the same, whatever the marks on it.
pub proof fn lemma_marks_keep_way(a: MachineState, b: MachineState, root: u64, va: u64, l: int)
    requires
        finalize::same_but_marks(a, b),
        0 <= l <= 3,
    ensures
        soundness::reach(b, root, va, l) == soundness::reach(a, root, va, l),
        soundness::tab(b, root, va, l) == soundness::tab(a, root, va, l),
    decreases 3 - l,
{
    if l < 3 {
        lemma_marks_keep_way(a, b, root, va, l + 1);
        finalize::lemma_same_but_marks(
            a,
            b,
            soundness::tab(a, root, va, l + 1),
            entry::table_index(va, l + 1),
        );
    }
}

/// The machine with an instruction to flush, as `finalized` leaves it.
pub open spec fn flushed(s: MachineState) -> MachineState {
    MachineState { ops: s.ops.push(MachineOp::FlushTlb), ..s }
}

/// A page table is sound, whatever its marks.
pub proof fn lemma_marks_keep_sound(s: MachineState, root: u64, other: u64)
    requires
        soundness::sound(s, other),
    ensures
        soundness::sound(finalize::finalized(s, root), other),
        forall|va: u64, l: int|
            0 <= l <= 3 ==> #[trigger] soundness::reach(finalize::finalized(s, root), other, va, l)
                == soundness::reach(s, other, va, l),
        forall|va: u64, l: int|
            0 <= l <= 3 ==> #[trigger] soundness::tab(finalize::finalized(s, root), other, va, l)
                == soundness::tab(s, other, va, l),
{
    finalize::law_finalize_changes_marks_only(s, root);
    let f = flushed(s);
    let t = finalize::finalized(s, root);
    assert forall|va: u64, l: int| 0 <= l <= 3 implies #[trigger] soundness::reach(t, other, va, l)
        == soundness::reach(s, other, va, l) by {
        lemma_marks_keep_way(f, t, other, va, l);
        lemma_flushed(s, other, va, l);
    }
    assert forall|va: u64, l: int| 0 <= l <= 3 implies #[trigger] soundness::tab(t, other, va, l)
        == soundness::tab(s, other, va, l) by {
        lemma_marks_keep_way(f, t, other, va, l);
        lemma_flushed(s, other, va, l);
    }
    assert(soundness::pool_sound(t)) by {
        assert forall|pa: u64|
            pa % 4096 == 0 && #[trigger] soundness::in_region(
                t.pool,
                pa,
            ) implies soundness::is_page(t, pa) by {
            assert(soundness::in_region(s.pool, pa));
        }
    }
}

proof fn lemma_flushed(s: MachineState, root: u64, va: u64, l: int)
    requires
        0 <= l <= 3,
    ensures
        soundness::reach(flushed(s), root, va, l) == soundness::reach(s, root, va, l),
        soundness::tab(flushed(s), root, va, l) == soundness::tab(s, root, va, l),
    decreases 3 - l,
{
    if l < 3 {
        lemma_flushed(s, root, va, l + 1);
    }
}

/// The word of a page's entry is none that is opened for the exception stack.
proof fn lemma_leaf_away(s: MachineState, root: u64, va: u64)
    requires
        soundness::sound(s, root),
        soundness::reach(s, root, va, 0),
        stack_clean(s, root),
    ensures
        away_root(
            s,
            root,
            soundness::tab(s, root, va, 0) as int / 8 + entry::table_index(va, 0),
        ),
{
    let table = soundness::tab(s, root, va, 0);
    let j = entry::table_index(va, 0);
    let w = table as int / 8 + j;
    let stack: u64 = 0x90_0000_0000;
    assert(entry::table_index(stack, 3) == 1 && entry::table_index(stack, 2) == 64);
    let pud = entry::strip(s.c_bit, s.rd(root, 1));
    let pmd = entry::strip(s.c_bit, s.rd(pud, 64));
    reveal_with_fuel(soundness::tab, 4);
    reveal_with_fuel(soundness::reach, 4);
    if pud != 0 && pmd != 0 {
        assert(soundness::reach(s, root, stack, 3) && soundness::tab(s, root, stack, 3) == root);
        assert(soundness::reach(s, root, stack, 2) && soundness::tab(s, root, stack, 2) == pud);
        assert(soundness::reach(s, root, stack, 1) && soundness::tab(s, root, stack, 1) == pmd);
        assert(soundness::is_page(s, table));
        soundness::lemma_words_apart(table, root, j, 1);
        soundness::lemma_words_apart(table, pud, j, 64);
        assert forall|i: int| 0 <= i < 512 implies #[trigger] word_of(pmd, i) != w by {
            soundness::lemma_words_apart(table, pmd, j, i);
        }
    }
}

/// After a process was marked, every page that is copied on write is marked,
/// as is every entry on the way to it, and cannot be written in place.
pub proof fn law_finalize_marks_pages(s: MachineState, root: u64, va: u64)
    requires
        soundness::sound(s, root),
        walk::leaf_below(s, root, va, 3) matches Some(e) && entry::strip(s.c_bit, e) != 0,
        copied_on_write(va),
    ensures
        ({
            let t = finalize::finalized(s, root);
            &&& way_marked(t, root, va)
            &&& walk::leaf_below(t, root, va, 3) matches Some(f) && entry::cow(f) && (stack_clean(
                s,
                root,
            ) ==> f & 0x2 == 0)
        }),
{
    soundness::lemma_leaf(s, root, va);
    let t = finalize::finalized(s, root);
    let r = finalize::mark_pgd(s, root, 512);
    let table = soundness::tab(s, root, va, 0);
    let j = entry::table_index(va, 0);
    let w = table as int / 8 + j;
    let closed = stack_clean(s, root);
    if closed {
        lemma_leaf_away(s, root, va);
    }
    lemma_root_visits(s, root, 512, va, w, closed);
    isolation::lemma_reach_up(s, root, va, 0, 1);
    isolation::lemma_reach_up(s, root, va, 0, 2);
    assert(soundness::is_page(s, soundness::tab(s, root, va, 0)));
    assert(soundness::is_page(s, soundness::tab(s, root, va, 1)));
    assert(soundness::is_page(s, soundness::tab(s, root, va, 2)));
    lemma_marks_keep_sound(s, root, root);
    soundness::lemma_leaf(t, root, va);
    reveal_with_fuel(soundness::tab, 4);
    assert(t.mem == r.mem);
    assert(pud_visited(s, r, below_root(s, root, entry::table_index(va, 3)), va, w, closed));
    lemma_marks(t.rd(table, j));
    finalize::law_finalize_changes_marks_only(s, root);
    assert(entry::present(t.rd(table, j))) by {
        finalize::lemma_same_but_marks(flushed(s), t, table, j);
    }
    assert(soundness::reach(t, root, va, 0));
}

/// The machine after the process with the root table `zygote` was marked, and
/// another one, with the root table `root`, took over its root table.
pub open spec fn shared(s: MachineState, zygote: u64, root: u64) -> MachineState {
    finalize::finalized(s, zygote).copy(root, zygote)
}

proof fn lemma_shared_memory(s: MachineState, zygote: u64, root: u64)
    requires
        soundness::sound(s, zygote),
        soundness::is_page(s, root),
        !soundness::in_pool(s.pool, root),
        !soundness::is_table(s, zygote, root),
    ensures
        ({
            let z = finalize::finalized(s, zygote);
            let u = shared(s, zygote, root);
            &&& isolation::outside(z, u, root)
            &&& soundness::pool_sound(u)
            &&& u.pool == s.pool
            &&& u.mem.len() == s.mem.len()
            &&& u.c_bit == s.c_bit
            &&& forall|i: int| 0 <= i < 512 ==> #[trigger] u.rd(root, i) == u.rd(zygote, i)
            &&& zygote != root
        }),
{
    let z = finalize::finalized(s, zygote);
    let u = shared(s, zygote, root);
    lemma_marks_keep_sound(s, zygote, zygote);
    finalize::law_finalize_changes_marks_only(s, zygote);
    assert(soundness::reach(s, zygote, 0, 3) && soundness::tab(s, zygote, 0, 3) == zygote);
    assert(soundness::is_page(s, zygote));
    assert(zygote != root);
    assert forall|pa: u64, i: int|
        pa % 4096 == 0 && 0 <= i < 512 && !soundness::in_pool(z.pool, pa) && pa
            != root implies #[trigger] u.rd(pa, i) == z.rd(pa, i) by {
        let k = pa as int / 8 + i;
        if root as int / 8 <= k < root as int / 8 + 512 {
            soundness::lemma_words_apart(pa, root, i, k - root as int / 8);
        }
    }
    assert forall|i: int| 0 <= i < 512 implies #[trigger] u.rd(root, i) == u.rd(zygote, i) by {
        assert(u.rd(root, i) == machine::page_words(z.mem, zygote)[i]);
        assert(u.rd(zygote, i) == z.rd(zygote, i)) by {
            assert(!soundness::in_pool(z.pool, zygote));
        }
    }
    assert(soundness::pool_sound(u)) by {
        assert forall|pa: u64|
            pa % 4096 == 0 && #[trigger] soundness::in_region(
                u.pool,
                pa,
            ) implies soundness::is_page(u, pa) by {
            assert(soundness::in_region(s.pool, pa));
        }
    }
}

/// Two root tables with the same entries lead to the same tables.
proof fn lemma_same_root(u: MachineState, zygote: u64, root: u64, va: u64, l: int)
    requires
        forall|i: int| 0 <= i < 512 ==> #[trigger] u.rd(root, i) == u.rd(zygote, i),
        0 <= l <= 3,
    ensures
        soundness::reach(u, root, va, l) == soundness::reach(u, zygote, va, l),
        l < 3 ==> soundness::tab(u, root, va, l) == soundness::tab(u, zygote, va, l),
    decreases 3 - l,
{
    if l < 3 {
        lemma_same_root(u, zygote, root, va, l + 1);
        if l == 2 {
            let i = entry::table_index(va, 3);
            assert(u.rd(root, i) == u.rd(zygote, i));
        }
    }
}

/// After one process took over the root table of another that was marked, both
/// have sound page tables and the same pages.
pub proof fn law_shared_pages_are_found(s: MachineState, zygote: u64, root: u64)
    requires
        soundness::sound(s, zygote),
        soundness::is_page(s, root),
        !soundness::in_pool(s.pool, root),
        !soundness::is_table(s, zygote, root),
    ensures
        ({
            let u = shared(s, zygote, root);
            &&& soundness::sound(u, zygote)
            &&& soundness::sound(u, root)
            &&& !soundness::is_table(u, zygote, root)
            &&& forall|va: u64| #[trigger]
                walk::leaf_below(u, root, va, 3) == walk::leaf_below(u, zygote, va, 3)
            &&& forall|va: u64| #[trigger]
                walk::translate(u, zygote, va) == walk::translate(s, zygote, va)
        }),
{
    let z = finalize::finalized(s, zygote);
    let u = shared(s, zygote, root);
    lemma_shared_memory(s, zygote, root);
    lemma_marks_keep_sound(s, zygote, zygote);
    assert forall|va: u64, l: int| 0 <= l <= 3 && #[trigger] soundness::reach(
        z,
        zygote,
        va,
        l,
    ) implies soundness::tab(z, zygote, va, l) != root by {
        assert(soundness::reach(s, zygote, va, l));
        assert(soundness::tab(z, zygote, va, l) == soundness::tab(s, zygote, va, l));
    }
    isolation::lemma_untouched(z, u, zygote, root);
    assert forall|va: u64, l: int| 0 <= l <= 3 && #[trigger] soundness::reach(
        u,
        zygote,
        va,
        l,
    ) implies soundness::tab(u, zygote, va, l) != root by {
        assert(soundness::reach(z, zygote, va, l));
    }
    assert forall|va: u64, l: int| 0 <= l <= 3 implies #[trigger] soundness::reach(u, root, va, l)
        == soundness::reach(u, zygote, va, l) && (l < 3 ==> soundness::tab(u, root, va, l)
        == soundness::tab(u, zygote, va, l)) by {
        lemma_same_root(u, zygote, root, va, l);
    }
    assert(soundness::tables_kept(u, root)) by {
        assert forall|va: u64, l: int|
            0 <= l <= 3 && #[trigger] soundness::reach(u, root, va, l) implies soundness::is_page(
            u,
            soundness::tab(u, root, va, l),
        ) && !soundness::in_pool(u.pool, soundness::tab(u, root, va, l)) by {
            assert(soundness::reach(u, zygote, va, l));
        }
    }
    assert(soundness::tables_tree(u, root)) by {
        assert forall|va: u64, l: int, vb: u64, k: int|
            0 <= l <= 3 && 0 <= k <= 3 && #[trigger] soundness::reach(u, root, va, l)
                && #[trigger] soundness::reach(u, root, vb, k) && soundness::tab(u, root, va, l)
                == soundness::tab(u, root, vb, k) implies l == k && soundness::same_way(va, vb, l) by {
            assert(soundness::reach(u, zygote, va, l) && soundness::reach(u, zygote, vb, k));
        }
    }
    assert forall|va: u64| #[trigger]
        walk::leaf_below(u, root, va, 3) == walk::leaf_below(u, zygote, va, 3) by {
        soundness::lemma_leaf(u, root, va);
        soundness::lemma_leaf(u, zygote, va);
        assert(soundness::reach(u, root, va, 0) == soundness::reach(u, zygote, va, 0));
    }
    assert forall|va: u64| #[trigger]
        walk::translate(u, zygote, va) == walk::translate(s, zygote, va) by {
        finalize::law_finalize_keeps_translations(s, zygote, zygote, va);
        assert(walk::leaf_below(u, zygote, va, 3) == walk::leaf_below(z, zygote, va, 3));
    }
}

/// Whether a page is one that a process can take over from another and write
/// to: it lies in memory, is in use, and is not the root table `root`.
pub open spec fn can_share(s: MachineState, zygote: u64, root: u64, va: u64) -> bool {
    walk::leaf_below(s, zygote, va, 3) matches Some(e) && {
        &&& e & 0x0000_FFFF_FFFF_F000 == entry::strip(s.c_bit, e)
        &&& soundness::is_page(s, entry::strip(s.c_bit, e))
        &&& !soundness::in_pool(s.pool, entry::strip(s.c_bit, e))
        &&& entry::strip(s.c_bit, e) != root
    }
}

/// What a process that was marked shares is marked for the one that took over
/// its root table, all the way down.
proof fn lemma_shared_marked(s: MachineState, zygote: u64, root: u64, va: u64)
    requires
        soundness::sound(s, zygote),
        soundness::is_page(s, root),
        !soundness::in_pool(s.pool, root),
        !soundness::is_table(s, zygote, root),
        copied_on_write(va),
        can_share(s, zygote, root, va),
    ensures
        ({
            let u = shared(s, zygote, root);
            let e = walk::leaf_below(s, zygote, va, 3)->0;
            &&& way_marked(u, root, va)
            &&& walk::leaf_below(u, root, va, 3) matches Some(f) && entry::cow(f) && f & !0x202u64
                == e & !0x202u64
        }),
{
    let z = finalize::finalized(s, zygote);
    let u = shared(s, zygote, root);
    soundness::lemma_leaf(s, zygote, va);
    law_finalize_marks_pages(s, zygote, va);
    lemma_shared_memory(s, zygote, root);
    law_shared_pages_are_found(s, zygote, root);
    lemma_marks_keep_sound(s, zygote, zygote);
    isolation::lemma_reach_up(s, zygote, va, 0, 1);
    isolation::lemma_reach_up(s, zygote, va, 0, 2);
    assert forall|vb: u64, l: int| 0 <= l <= 3 && #[trigger] soundness::reach(
        z,
        zygote,
        vb,
        l,
    ) implies soundness::tab(z, zygote, vb, l) != root by {
        assert(soundness::reach(s, zygote, vb, l));
        assert(soundness::tab(z, zygote, vb, l) == soundness::tab(s, zygote, vb, l));
    }
    isolation::lemma_untouched(z, u, zygote, root);
    assert forall|l: int| 0 <= l <= 3 implies #[trigger] soundness::reach(s, zygote, va, l) by {
        isolation::lemma_reach_up(s, zygote, va, 0, l);
    }
    assert forall|l: nat| 0 <= l <= 3 implies #[trigger] walk::entry_in(
        u,
        soundness::tab(u, root, va, l as int),
        va,
        l,
    ) == walk::entry_in(z, soundness::tab(z, zygote, va, l as int), va, l) by {
        lemma_same_root(u, zygote, root, va, l as int);
        let i = entry::table_index(va, l as int);
        let tb = soundness::tab(z, zygote, va, l as int);
        assert(soundness::reach(s, zygote, va, l as int));
        assert(soundness::reach(z, zygote, va, l as int));
        assert(soundness::tab(u, zygote, va, l as int) == tb);
        assert(soundness::is_page(z, tb) && !soundness::in_pool(z.pool, tb));
        assert(u.rd(tb, i) == z.rd(tb, i));
        assert(u.rd(root, i) == u.rd(zygote, i));
    }
    soundness::lemma_leaf(u, root, va);
    soundness::lemma_leaf(z, zygote, va);
    assert(walk::leaf_below(u, root, va, 3) == walk::leaf_below(u, zygote, va, 3));
    assert(walk::leaf_below(u, zygote, va, 3) == walk::leaf_below(z, zygote, va, 3));
    finalize::law_finalize_changes_marks_only(s, zygote);
    let tb = soundness::tab(s, zygote, va, 0);
    let j = entry::table_index(va, 0);
    assert(soundness::is_page(s, tb));
    assert(flushed(s).mem[tb as int / 8 + j] & !0x202u64 == z.mem[tb as int / 8 + j] & !0x202u64);
    assert(walk::entry_in(u, soundness::tab(u, root, va, 3), va, 3) == walk::entry_in(
        z,
        soundness::tab(z, zygote, va, 3),
        va,
        3,
    ));
}

/// Where one process took over the root table of another that was marked, a
/// write by it to a page that is copied on write gives it a writable page of
/// its own with what the shared one holds. The other process finds all its
/// pages where they were, with what they held, and none of its tables changed.
pub proof fn law_sharing_isolates(
    s: MachineState,
    zygote: u64,
    root: u64,
    va: u64,
    user_access: bool,
)
    requires
        soundness::sound(s, zygote),
        s.pool.available() >= 4,
        soundness::is_page(s, root),
        !soundness::in_pool(s.pool, root),
        !soundness::is_table(s, zygote, root),
        copied_on_write(va),
        can_share(s, zygote, root, va),
        user_access ==> walk::leaf_below(s, zygote, va, 3)->0 & 0x4 == 0x4,
    ensures
        ({
            let u = shared(s, zygote, root);
            let t = cow::cow_resolved(u, root, va);
            let page = walk::translate(s, zygote, va);
            let own = walk::translate(t, root, va);
            &&& cow::cow_applies(u, root, va, user_access)
            &&& soundness::sound(t, root)
            &&& soundness::sound(t, zygote)
            &&& soundness::in_pool(s.pool, own)
            &&& walk::leaf_below(t, root, va, 3) matches Some(w) && w & 0x2 == 0x2
            &&& machine::page_words(t.mem, own) == machine::page_words(u.mem, page)
            &&& walk::translate(t, zygote, va) == page
            &&& machine::page_words(t.mem, page) == machine::page_words(u.mem, page)
            &&& forall|vb: u64|
                !soundness::same_page(va, vb) ==> #[trigger] walk::leaf_below(t, root, vb, 3)
                    == walk::leaf_below(u, zygote, vb, 3)
            &&& forall|vb: u64| #[trigger]
                walk::leaf_below(t, zygote, vb, 3) == walk::leaf_below(u, zygote, vb, 3)
            &&& forall|pa: u64, i: int|
                0 <= i < 512 && soundness::is_table(u, zygote, pa) ==> #[trigger] t.rd(pa, i)
                    == u.rd(pa, i)
        }),
{
    let u = shared(s, zygote, root);
    let t = cow::cow_resolved(u, root, va);
    let e = walk::leaf_below(s, zygote, va, 3)->0;
    lemma_shared_memory(s, zygote, root);
    law_shared_pages_are_found(s, zygote, root);
    lemma_shared_marked(s, zygote, root, va);
    let f = walk::leaf_below(u, root, va, 3)->0;
    let c = s.c_bit;
    assert(f & 0x4 == e & 0x4 && f & 0x0000_FFFF_FFFF_F000 == e & 0x0000_FFFF_FFFF_F000 && f
        & 0x000F_FFFF_FFFF_F000 & !c == e & 0x000F_FFFF_FFFF_F000 & !c) by (bit_vector)
        requires
            f & !0x202u64 == e & !0x202u64,
    ;
    assert(isolation::changed_table(u, root, va) == root);
    isolation::law_copy_on_write(u, root, va, user_access);
    assert forall|vb: u64, l: int| 0 <= l <= 3 && #[trigger] soundness::reach(
        u,
        zygote,
        vb,
        l,
    ) implies soundness::tab(u, zygote, vb, l) != root by {
        assert(soundness::is_table(u, zygote, soundness::tab(u, zygote, vb, l)));
    }
    isolation::law_copy_on_write_isolates(u, root, va, user_access, zygote);
    assert(walk::translate(u, zygote, va) == walk::translate(s, zygote, va));
    assert(walk::leaf_below(t, zygote, va, 3) == walk::leaf_below(u, zygote, va, 3));
    assert(walk::leaf_below(u, root, va, 3) == walk::leaf_below(u, zygote, va, 3));
    assert forall|vb: u64| !soundness::same_page(va, vb) implies #[trigger] walk::leaf_below(
        t,
        root,
        vb,
        3,
    ) == walk::leaf_below(u, zygote, vb, 3) by {
        assert(walk::leaf_below(u, root, vb, 3) == walk::leaf_below(u, zygote, vb, 3));
    }
    assert forall|pa: u64, i: int| 0 <= i < 512 && soundness::is_table(
        u,
        zygote,
        pa,
    ) implies #[trigger] t.rd(pa, i) == u.rd(pa, i) by {
        let (vb, l) = choose|vb: u64, l: int|
            0 <= l <= 3 && #[trigger] soundness::reach(u, zygote, vb, l) && soundness::tab(
                u,
                zygote,
                vb,
                l,
            ) == pa;
        assert(soundness::reach(u, zygote, vb, l));
        assert(soundness::is_page(u, pa) && !soundness::in_pool(u.pool, pa));
    }
}

} // verus!
