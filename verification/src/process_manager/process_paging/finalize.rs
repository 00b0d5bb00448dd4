//! Marks a finished process for copying on write, and counts its pages.
use vstd::prelude::*;
use crate::address::PhysAddr;
use crate::memory::machine::{Machine, MachineOp, MachineState};
use crate::process_manager::process_paging::entry;
use crate::process_manager::process_paging::entry::{is_cow, strip_paddr};
use crate::process_manager::process_paging::walk;
use crate::process_manager::process_paging::walk::ProcessPageTableRef;

verus! {

/// An entry that leads to what is copied before it is written.
pub open spec fn guarded(e: u64) -> u64 {
    (e | 0x200) & !0x2u64
}

/// An entry on the way to the exception stack: marked, and writable.
pub open spec fn opened(e: u64) -> u64 {
    (e | 0x200) | 0x2u64
}

/// The tables on the way to a table of pages, and the index in each.
#[derive(Clone, Copy)]
pub struct TablePath {
    pub pgd: PhysAddr,
    pub pgd_idx: u64,
    pub pud: PhysAddr,
    pub pud_idx: u64,
    pub pmd: PhysAddr,
    pub pmd_idx: u64,
}

impl TablePath {
    /// Whether the path leads to the exception stack.
    pub open spec fn to_stack(self) -> bool {
        self.pgd_idx == 1 && self.pud_idx == 64
    }
}

/// The machine after entry `i` of the table of pages below `path` was marked.
pub open spec fn mark_page(s: MachineState, path: TablePath, table: u64, i: int) -> MachineState {
    let e = s.rd(table, i);
    if entry::strip(s.c_bit, e) == 0 {
        s
    } else if !path.to_stack() {
        s.wr(table, i, guarded(e))
    } else {
        let s1 = s.wr(path.pgd, path.pgd_idx as int, opened(s.rd(path.pgd, path.pgd_idx as int)));
        let s2 = s1.wr(
            path.pud,
            path.pud_idx as int,
            opened(s1.rd(path.pud, path.pud_idx as int)),
        );
        s2.wr(path.pmd, path.pmd_idx as int, opened(s2.rd(path.pmd, path.pmd_idx as int)))
    }
}

/// The machine after the first `n` entries of a table of pages were marked.
pub open spec fn mark_pte(s: MachineState, path: TablePath, table: u64, n: nat) -> MachineState
    decreases n,
{
    if n == 0 {
        s
    } else {
        mark_page(mark_pte(s, path, table, (n - 1) as nat), path, table, n - 1)
    }
}

/// The machine after the first `n` entries of the table `path.pmd`, and all
/// below them, were marked.
pub open spec fn mark_pmd(s: MachineState, path: TablePath, n: nat) -> MachineState
    decreases n,
{
    if n == 0 {
        s
    } else {
        let t = mark_pmd(s, path, (n - 1) as nat);
        let e = t.rd(path.pmd, n - 1);
        if entry::strip(t.c_bit, e) == 0 {
            t
        } else {
            mark_pte(
                t.wr(path.pmd, n - 1, guarded(e)),
                TablePath { pmd_idx: (n - 1) as u64, ..path },
                entry::strip(t.c_bit, e),
                512,
            )
        }
    }
}

/// The machine after the first `n` entries of the table `path.pud`, and all
/// below them, were marked.
pub open spec fn mark_pud(s: MachineState, path: TablePath, n: nat) -> MachineState
    decreases n,
{
    if n == 0 {
        s
    } else {
        let t = mark_pud(s, path, (n - 1) as nat);
        let e = t.rd(path.pud, n - 1);
        if entry::strip(t.c_bit, e) == 0 {
            t
        } else {
            mark_pmd(
                t.wr(path.pud, n - 1, guarded(e)),
                TablePath {
                    pud_idx: (n - 1) as u64,
                    pmd: entry::strip(t.c_bit, e),
                    pmd_idx: 0,
                    ..path
                },
                512,
            )
        }
    }
}

/// The machine after the first `n` entries of the root table, and all below
/// them, were marked. The slots of the memory channels, 5 and 6, are left as
/// they are.
pub open spec fn mark_pgd(s: MachineState, root: u64, n: nat) -> MachineState
    decreases n,
{
    if n == 0 {
        s
    } else {
        let t = mark_pgd(s, root, (n - 1) as nat);
        let e = t.rd(root, n - 1);
        if n - 1 == 5 || n - 1 == 6 || entry::strip(t.c_bit, e) == 0 {
            t
        } else {
            mark_pud(
                t.wr(root, n - 1, guarded(e)),
                TablePath {
                    pgd: root,
                    pgd_idx: (n - 1) as u64,
                    pud: entry::strip(t.c_bit, e),
                    pud_idx: 0,
                    pmd: 0,
                    pmd_idx: 0,
                },
                512,
            )
        }
    }
}

/// The machine after a process was marked for copying on write.
pub open spec fn finalized(s: MachineState, root: u64) -> MachineState {
    mark_pgd(s, root, 512).op(MachineOp::FlushTlb)
}

fn mark(e: u64) -> (r: u64)
    ensures
        r == guarded(e),
{
    (e | 0x200) & !0x2u64
}

fn open_entry(m: &mut Machine, table: PhysAddr, i: u64)
    requires
        i < 512,
    ensures
        final(m)@ == old(m)@.wr(table, i as int, opened(old(m)@.rd(table, i as int))),
{
    let e = m.read(table, i);
    m.write(table, i, (e | 0x200) | 0x2u64);
}

fn finalize_pte(m: &mut Machine, path: TablePath, table: PhysAddr)
    requires
        path.pgd_idx < 512,
        path.pud_idx < 512,
        path.pmd_idx < 512,
    ensures
        final(m)@ == mark_pte(old(m)@, path, table, 512),
{
    let mut i: u64 = 0;
    while i < 512
        invariant
            i <= 512,
            path.pgd_idx < 512,
            path.pud_idx < 512,
            path.pmd_idx < 512,
            m@ == mark_pte(old(m)@, path, table, i as nat),
        decreases 512 - i,
    {
        let e = m.read(table, i);
        if strip_paddr(m.c_bit, e) != 0 {
            if !(path.pgd_idx == 1 && path.pud_idx == 64) {
                m.write(table, i, mark(e));
            } else {
                open_entry(m, path.pgd, path.pgd_idx);
                open_entry(m, path.pud, path.pud_idx);
                open_entry(m, path.pmd, path.pmd_idx);
            }
        }
        i = i + 1;
    }
}

fn finalize_pmd(m: &mut Machine, path: TablePath)
    requires
        path.pgd_idx < 512,
        path.pud_idx < 512,
    ensures
        final(m)@ == mark_pmd(old(m)@, path, 512),
{
    let mut i: u64 = 0;
    while i < 512
        invariant
            i <= 512,
            path.pgd_idx < 512,
            path.pud_idx < 512,
            m@ == mark_pmd(old(m)@, path, i as nat),
        decreases 512 - i,
    {
        let e = m.read(path.pmd, i);
        let next = strip_paddr(m.c_bit, e);
        if next != 0 {
            m.write(path.pmd, i, mark(e));
            let below = TablePath {
                pgd: path.pgd,
                pgd_idx: path.pgd_idx,
                pud: path.pud,
                pud_idx: path.pud_idx,
                pmd: path.pmd,
                pmd_idx: i,
            };
            finalize_pte(m, below, next);
        }
        i = i + 1;
    }
}

fn finalize_pud(m: &mut Machine, path: TablePath)
    requires
        path.pgd_idx < 512,
    ensures
        final(m)@ == mark_pud(old(m)@, path, 512),
{
    let mut i: u64 = 0;
    while i < 512
        invariant
            i <= 512,
            path.pgd_idx < 512,
            m@ == mark_pud(old(m)@, path, i as nat),
        decreases 512 - i,
    {
        let e = m.read(path.pud, i);
        let next = strip_paddr(m.c_bit, e);
        if next != 0 {
            m.write(path.pud, i, mark(e));
            let below = TablePath {
                pgd: path.pgd,
                pgd_idx: path.pgd_idx,
                pud: path.pud,
                pud_idx: i,
                pmd: next,
                pmd_idx: 0,
            };
            finalize_pmd(m, below);
        }
        i = i + 1;
    }
}

impl ProcessPageTableRef {
    /// Marks everything that the process has mapped, but for its memory
    /// channels, to be copied before it is written. The exception stack stays
    /// writable.
    pub fn finalize_pages(&self, m: &mut Machine)
        ensures
            final(m)@ == finalized(old(m)@, self.process_page_table),
    {
        let root = self.process_page_table;
        let mut i: u64 = 0;
        while i < 512
            invariant
                i <= 512,
                root == self.process_page_table,
                m@ == mark_pgd(old(m)@, root, i as nat),
            decreases 512 - i,
        {
            let e = m.read(root, i);
            let next = strip_paddr(m.c_bit, e);
            if i != 5 && i != 6 && next != 0 {
                m.write(root, i, mark(e));
                let below = TablePath {
                    pgd: root,
                    pgd_idx: i,
                    pud: next,
                    pud_idx: 0,
                    pmd: 0,
                    pmd_idx: 0,
                };
                finalize_pud(m, below);
            }
            i = i + 1;
        }
        m.ask(MachineOp::FlushTlb);
    }
}

/// Pages that are marked for copying on write, and pages that are not.
#[derive(Clone, Copy, PartialEq, Eq, Structural, Debug)]
pub struct PageStat {
    pub cow_pages: u64,
    pub non_cow_pages: u64,
}

/// The entries that lead somewhere among the first `n` of a table at level
/// `lvl` and in all tables below: how many are marked, and how many are not.
pub open spec fn count_entries(s: MachineState, table: u64, lvl: nat, n: nat) -> (nat, nat)
    decreases lvl, n,
{
    if n == 0 {
        (0, 0)
    } else {
        let (c, p) = count_entries(s, table, lvl, (n - 1) as nat);
        let e = s.rd(table, n - 1);
        if entry::strip(s.c_bit, e) == 0 {
            (c, p)
        } else {
            let (below_c, below_p) = if lvl == 0 {
                (0nat, 0nat)
            } else {
                count_entries(s, entry::strip(s.c_bit, e), (lvl - 1) as nat, 512)
            };
            if entry::cow(e) {
                (c + below_c + 1, p + below_p)
            } else {
                (c + below_c, p + below_p + 1)
            }
        }
    }
}

/// Entries that a table of level `lvl` and the tables below hold per entry.
pub open spec fn entries_each(lvl: nat) -> nat
    decreases lvl,
{
    if lvl == 0 {
        1
    } else {
        1 + 512 * entries_each((lvl - 1) as nat)
    }
}

proof fn lemma_count_bound(s: MachineState, table: u64, lvl: nat, n: nat)
    requires
        n <= 512,
        lvl <= 3,
    ensures
        ({
            let (c, p) = count_entries(s, table, lvl, n);
            c + p <= n * entries_each(lvl)
        }),
    decreases lvl, n,
{
    if n > 0 {
        lemma_count_bound(s, table, lvl, (n - 1) as nat);
        let e = s.rd(table, n - 1);
        if lvl > 0 {
            lemma_count_bound(s, entry::strip(s.c_bit, e), (lvl - 1) as nat, 512);
        }
        assert(n * entries_each(lvl) == (n - 1) * entries_each(lvl) + entries_each(lvl))
            by (nonlinear_arith)
            requires
                n > 0,
        ;
    }
}

proof fn lemma_entries_each()
    ensures
        entries_each(0) == 1,
        entries_each(1) == 513,
        entries_each(2) == 262657,
        entries_each(3) == 134480385,
{
    reveal_with_fuel(entries_each, 4);
}

fn count_table(m: &Machine, table: PhysAddr, lvl: u64) -> (r: PageStat)
    requires
        lvl <= 3,
    ensures
        (r.cow_pages as nat, r.non_cow_pages as nat) == count_entries(m@, table, lvl as nat, 512),
        r.cow_pages + r.non_cow_pages <= 512 * entries_each(lvl as nat),
    decreases lvl,
{
    let mut cow_pages: u64 = 0;
    let mut non_cow_pages: u64 = 0;
    let mut i: u64 = 0;
    while i < 512
        invariant
            i <= 512,
            lvl <= 3,
            (cow_pages as nat, non_cow_pages as nat) == count_entries(
                m@,
                table,
                lvl as nat,
                i as nat,
            ),
        decreases 512 - i,
    {
        proof {
            lemma_count_bound(m@, table, lvl as nat, i as nat);
            lemma_count_bound(m@, table, lvl as nat, (i + 1) as nat);
            lemma_entries_each();
            assert(i * entries_each(lvl as nat) <= 512 * 134480385) by (nonlinear_arith)
                requires
                    i <= 512,
                    entries_each(lvl as nat) <= 134480385,
            ;
        }
        let e = m.read(table, i);
        let next = strip_paddr(m.c_bit, e);
        if next != 0 {
            if lvl > 0 {
                let below = count_table(m, next, lvl - 1);
                cow_pages = cow_pages + below.cow_pages;
                non_cow_pages = non_cow_pages + below.non_cow_pages;
            }
            if is_cow(e) {
                cow_pages = cow_pages + 1;
            } else {
                non_cow_pages = non_cow_pages + 1;
            }
        }
        i = i + 1;
    }
    proof {
        lemma_count_bound(m@, table, lvl as nat, 512);
    }
    PageStat { cow_pages, non_cow_pages }
}

impl ProcessPageTableRef {
    /// Counts the pages and tables of the process that are marked for copying
    /// on write, and those that are not; the root table is one of the latter.
    pub fn mem_stat(&self, m: &mut Machine) -> (r: PageStat)
        ensures
            (r.cow_pages as nat, (r.non_cow_pages - 1) as nat) == count_entries(
                old(m)@,
                self.process_page_table,
                3,
                512,
            ),
            r.non_cow_pages >= 1,
            final(m)@ == old(m)@.op(MachineOp::FlushTlb),
    {
        let counted = count_table(m, self.process_page_table, 3);
        proof {
            lemma_entries_each();
        }
        m.ask(MachineOp::FlushTlb);
        PageStat { cow_pages: counted.cow_pages, non_cow_pages: counted.non_cow_pages + 1 }
    }
}

/// Whether two machines differ in nothing but the marks for copying on write
/// and the permission to write of words of memory.
pub open spec fn same_but_marks(a: MachineState, b: MachineState) -> bool {
    &&& a.mem.len() == b.mem.len()
    &&& a.c_bit == b.c_bit
    &&& a.cr3 == b.cr3
    &&& a.pool == b.pool
    &&& a.ops == b.ops
    &&& forall|k: int|
        0 <= k < a.mem.len() ==> (#[trigger] a.mem[k]) & !0x202u64 == b.mem[k] & !0x202u64
}

pub proof fn lemma_marks_keep(s: MachineState, t: MachineState, table: u64, i: int, open: bool)
    requires
        same_but_marks(s, t),
    ensures
        same_but_marks(
            s,
            t.wr(
                table,
                i,
                if open {
                    opened(t.rd(table, i))
                } else {
                    guarded(t.rd(table, i))
                },
            ),
        ),
{
    let e = t.rd(table, i);
    assert(((e | 0x200) & !0x2u64) & !0x202u64 == e & !0x202u64) by (bit_vector);
    assert(((e | 0x200) | 0x2u64) & !0x202u64 == e & !0x202u64) by (bit_vector);
}

pub proof fn lemma_marks_keep_pte(s: MachineState, t: MachineState, path: TablePath, table: u64, n: nat)
    requires
        same_but_marks(s, t),
    ensures
        same_but_marks(s, mark_pte(t, path, table, n)),
    decreases n,
{
    if n > 0 {
        lemma_marks_keep_pte(s, t, path, table, (n - 1) as nat);
        let u = mark_pte(t, path, table, (n - 1) as nat);
        if entry::strip(u.c_bit, u.rd(table, n - 1)) == 0 {
        } else if !path.to_stack() {
            lemma_marks_keep(s, u, table, n - 1, false);
        } else {
            lemma_marks_keep(s, u, path.pgd, path.pgd_idx as int, true);
            let u1 = u.wr(
                path.pgd,
                path.pgd_idx as int,
                opened(u.rd(path.pgd, path.pgd_idx as int)),
            );
            lemma_marks_keep(s, u1, path.pud, path.pud_idx as int, true);
            let u2 = u1.wr(
                path.pud,
                path.pud_idx as int,
                opened(u1.rd(path.pud, path.pud_idx as int)),
            );
            lemma_marks_keep(s, u2, path.pmd, path.pmd_idx as int, true);
        }
    }
}

pub proof fn lemma_marks_keep_pmd(s: MachineState, t: MachineState, path: TablePath, n: nat)
    requires
        same_but_marks(s, t),
    ensures
        same_but_marks(s, mark_pmd(t, path, n)),
    decreases n,
{
    if n > 0 {
        lemma_marks_keep_pmd(s, t, path, (n - 1) as nat);
        let u = mark_pmd(t, path, (n - 1) as nat);
        let e = u.rd(path.pmd, n - 1);
        if entry::strip(u.c_bit, e) != 0 {
            lemma_marks_keep(s, u, path.pmd, n - 1, false);
            lemma_marks_keep_pte(
                s,
                u.wr(path.pmd, n - 1, guarded(e)),
                TablePath { pmd_idx: (n - 1) as u64, ..path },
                entry::strip(u.c_bit, e),
                512,
            );
        }
    }
}

pub proof fn lemma_marks_keep_pud(s: MachineState, t: MachineState, path: TablePath, n: nat)
    requires
        same_but_marks(s, t),
    ensures
        same_but_marks(s, mark_pud(t, path, n)),
    decreases n,
{
    if n > 0 {
        lemma_marks_keep_pud(s, t, path, (n - 1) as nat);
        let u = mark_pud(t, path, (n - 1) as nat);
        let e = u.rd(path.pud, n - 1);
        if entry::strip(u.c_bit, e) != 0 {
            lemma_marks_keep(s, u, path.pud, n - 1, false);
            lemma_marks_keep_pmd(
                s,
                u.wr(path.pud, n - 1, guarded(e)),
                TablePath {
                    pud_idx: (n - 1) as u64,
                    pmd: entry::strip(u.c_bit, e),
                    pmd_idx: 0,
                    ..path
                },
                512,
            );
        }
    }
}

pub proof fn lemma_marks_keep_pgd(s: MachineState, root: u64, n: nat)
    ensures
        same_but_marks(s, mark_pgd(s, root, n)),
    decreases n,
{
    if n > 0 {
        lemma_marks_keep_pgd(s, root, (n - 1) as nat);
        let u = mark_pgd(s, root, (n - 1) as nat);
        let e = u.rd(root, n - 1);
        if n - 1 != 5 && n - 1 != 6 && entry::strip(u.c_bit, e) != 0 {
            lemma_marks_keep(s, u, root, n - 1, false);
            lemma_marks_keep_pud(
                s,
                u.wr(root, n - 1, guarded(e)),
                TablePath {
                    pgd: root,
                    pgd_idx: (n - 1) as u64,
                    pud: entry::strip(u.c_bit, e),
                    pud_idx: 0,
                    pmd: 0,
                    pmd_idx: 0,
                },
                512,
            );
        }
    }
}

/// An entry leads where it led, whatever its marks.
pub proof fn lemma_same_but_marks(a: MachineState, b: MachineState, table: u64, i: int)
    requires
        same_but_marks(a, b),
    ensures
        entry::present(a.rd(table, i)) == entry::present(b.rd(table, i)),
        entry::strip(a.c_bit, a.rd(table, i)) == entry::strip(b.c_bit, b.rd(table, i)),
{
    let e = a.rd(table, i);
    let f = b.rd(table, i);
    let c = a.c_bit;
    assert(e & !0x202u64 == f & !0x202u64);
    assert(e & 0x1 == f & 0x1 && e & 0x000F_FFFF_FFFF_F000 & !c == f & 0x000F_FFFF_FFFF_F000 & !c)
        by (bit_vector)
        requires
            e & !0x202u64 == f & !0x202u64,
    ;
}

proof fn lemma_marks_keep_leaf(a: MachineState, b: MachineState, table: u64, va: u64, lvl: nat)
    requires
        same_but_marks(a, b),
    ensures
        match walk::leaf_below(a, table, va, lvl) {
            None => walk::leaf_below(b, table, va, lvl) is None,
            Some(e) => walk::leaf_below(b, table, va, lvl) matches Some(f) && entry::strip(
                a.c_bit,
                e,
            ) == entry::strip(b.c_bit, f),
        },
    decreases lvl,
{
    let i = entry::table_index(va, lvl as int);
    let e = a.rd(table, i);
    lemma_same_but_marks(a, b, table, i);
    if entry::present(e) && lvl > 0 {
        lemma_marks_keep_leaf(a, b, entry::strip(a.c_bit, e), va, (lvl - 1) as nat);
    }
}

/// Marking a process changes nothing in memory but marks and write
/// permissions, takes no page and gives none back.
pub proof fn law_finalize_changes_marks_only(s: MachineState, root: u64)
    ensures
        same_but_marks(MachineState { ops: s.ops.push(MachineOp::FlushTlb), ..s }, finalized(s, root)),
{
    lemma_marks_keep_pgd(s, root, 512);
}

/// After a process was marked, every address of every process leads to the
/// page that it led to before.
pub proof fn law_finalize_keeps_translations(s: MachineState, root: u64, other: u64, va: u64)
    ensures
        walk::translate(finalized(s, root), other, va) == walk::translate(s, other, va),
{
    lemma_marks_keep_pgd(s, root, 512);
    let t = mark_pgd(s, root, 512);
    lemma_marks_keep_leaf(s, t, other, va, 3);
    lemma_leaf_of_mem(t, t.op(MachineOp::FlushTlb), other, va, 3);
}

/// What a walk finds depends on memory alone.
pub proof fn lemma_leaf_of_mem(a: MachineState, b: MachineState, table: u64, va: u64, lvl: nat)
    requires
        a.mem == b.mem,
        a.c_bit == b.c_bit,
    ensures
        walk::leaf_below(a, table, va, lvl) == walk::leaf_below(b, table, va, lvl),
    decreases lvl,
{
    let e = a.rd(table, entry::table_index(va, lvl as int));
    if entry::present(e) && lvl > 0 {
        lemma_leaf_of_mem(a, b, entry::strip(a.c_bit, e), va, (lvl - 1) as nat);
    }
}

} // verus!
