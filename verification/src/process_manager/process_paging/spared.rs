//! What is spared when a process is marked for copying on write.
use vstd::prelude::*;
use crate::memory::machine::MachineState;
use crate::process_manager::process_paging::entry;
use crate::process_manager::process_paging::finalize;
use crate::process_manager::process_paging::finalize::TablePath;
use crate::process_manager::process_paging::sharing;
use crate::process_manager::process_paging::soundness;
use crate::process_manager::process_paging::walk;

verus! {

/// Whether word `w` is none of the words of a table.
spec fn beside(table: u64, w: int) -> bool {
    forall|i: int| 0 <= i < 512 ==> #[trigger] sharing::word_of(table, i) != w
}

/// Whether marking the table `path.pmd`, and what is below it, leaves word `w`
/// alone.
spec fn pmd_spares(s: MachineState, path: TablePath, w: int) -> bool {
    &&& beside(path.pmd, w)
    &&& path.to_stack() ==> sharing::word_of(path.pgd, path.pgd_idx as int) != w
        && sharing::word_of(path.pud, path.pud_idx as int) != w
    &&& !path.to_stack() ==> forall|i: int|
        0 <= i < 512 && entry::strip(s.c_bit, #[trigger] s.rd(path.pmd, i)) != 0 ==> beside(
            entry::strip(s.c_bit, s.rd(path.pmd, i)),
            w,
        )
}

/// Whether marking the table `path.pud`, and what is below it, leaves word `w`
/// alone.
spec fn pud_spares(s: MachineState, path: TablePath, w: int) -> bool {
    &&& beside(path.pud, w)
    &&& forall|i: int|
        0 <= i < 512 && entry::strip(s.c_bit, #[trigger] s.rd(path.pud, i)) != 0 ==> pmd_spares(
            s,
            sharing::below_pud(s, path, i),
            w,
        )
}

/// Whether marking slot `i` of a root table, and what is below it, leaves word
/// `w` alone.
spec fn slot_spares(s: MachineState, root: u64, i: int, w: int) -> bool {
    &&& sharing::word_of(root, i) != w
    &&& entry::strip(s.c_bit, s.rd(root, i)) != 0 ==> pud_spares(
        s,
        sharing::below_root(s, root, i),
        w,
    )
}

/// Whether marking a process leaves word `w` alone.
spec fn root_spares(s: MachineState, root: u64, w: int) -> bool {
    forall|i: int|
        0 <= i < 512 && i != 5 && i != 6 ==> #[trigger] slot_spares(s, root, i, w)
}

/// Whether word `w` is the same in two machines.
spec fn same_word(a: MachineState, b: MachineState, w: int) -> bool {
    a.mem.len() == b.mem.len() && (0 <= w < a.mem.len() ==> a.mem[w] == b.mem[w])
}

proof fn lemma_pte_spares(t: MachineState, path: TablePath, table: u64, n: nat, w: int)
    requires
        n <= 512,
        path.pmd_idx < 512,
        if path.to_stack() {
            &&& sharing::word_of(path.pgd, path.pgd_idx as int) != w
            &&& sharing::word_of(path.pud, path.pud_idx as int) != w
            &&& beside(path.pmd, w)
        } else {
            beside(table, w)
        },
    ensures
        same_word(t, finalize::mark_pte(t, path, table, n), w),
    decreases n,
{
    if n > 0 {
        lemma_pte_spares(t, path, table, (n - 1) as nat, w);
        if path.to_stack() {
            assert(sharing::word_of(path.pmd, path.pmd_idx as int) != w);
        } else {
            assert(sharing::word_of(table, n - 1) != w);
        }
    }
}

proof fn lemma_pmd_spares(s: MachineState, t: MachineState, path: TablePath, n: nat, w: int)
    requires
        n <= 512,
        finalize::same_but_marks(s, t),
        pmd_spares(s, path, w),
    ensures
        same_word(t, finalize::mark_pmd(t, path, n), w),
    decreases n,
{
    if n > 0 {
        lemma_pmd_spares(s, t, path, (n - 1) as nat, w);
        finalize::lemma_marks_keep_pmd(s, t, path, (n - 1) as nat);
        let u = finalize::mark_pmd(t, path, (n - 1) as nat);
        let e = u.rd(path.pmd, n - 1);
        finalize::lemma_same_but_marks(s, u, path.pmd, n - 1);
        if entry::strip(u.c_bit, e) != 0 {
            let v = u.wr(path.pmd, n - 1, finalize::guarded(e));
            assert(sharing::word_of(path.pmd, n - 1) != w);
            assert(same_word(u, v, w));
            assert(entry::strip(s.c_bit, s.rd(path.pmd, n - 1)) != 0);
            lemma_pte_spares(
                v,
                sharing::below_pmd(path, n - 1),
                entry::strip(u.c_bit, e),
                512,
                w,
            );
        }
    }
}

proof fn lemma_pud_spares(s: MachineState, t: MachineState, path: TablePath, n: nat, w: int)
    requires
        n <= 512,
        finalize::same_but_marks(s, t),
        pud_spares(s, path, w),
    ensures
        same_word(t, finalize::mark_pud(t, path, n), w),
    decreases n,
{
    if n > 0 {
        lemma_pud_spares(s, t, path, (n - 1) as nat, w);
        finalize::lemma_marks_keep_pud(s, t, path, (n - 1) as nat);
        let u = finalize::mark_pud(t, path, (n - 1) as nat);
        let e = u.rd(path.pud, n - 1);
        finalize::lemma_same_but_marks(s, u, path.pud, n - 1);
        if entry::strip(u.c_bit, e) != 0 {
            let v = u.wr(path.pud, n - 1, finalize::guarded(e));
            assert(sharing::word_of(path.pud, n - 1) != w);
            assert(same_word(u, v, w));
            assert(entry::strip(s.c_bit, s.rd(path.pud, n - 1)) != 0);
            finalize::lemma_marks_keep(s, u, path.pud, n - 1, false);
            lemma_pmd_spares(s, v, sharing::below_pud(s, path, n - 1), 512, w);
        }
    }
}

proof fn lemma_root_spares(s: MachineState, root: u64, n: nat, w: int)
    requires
        n <= 512,
        root_spares(s, root, w),
    ensures
        same_word(s, finalize::mark_pgd(s, root, n), w),
    decreases n,
{
    if n > 0 {
        lemma_root_spares(s, root, (n - 1) as nat, w);
        finalize::lemma_marks_keep_pgd(s, root, (n - 1) as nat);
        let u = finalize::mark_pgd(s, root, (n - 1) as nat);
        let e = u.rd(root, n - 1);
        finalize::lemma_same_but_marks(s, u, root, n - 1);
        if n - 1 != 5 && n - 1 != 6 && entry::strip(u.c_bit, e) != 0 {
            let v = u.wr(root, n - 1, finalize::guarded(e));
            assert(slot_spares(s, root, n - 1, w));
            assert(same_word(u, v, w));
            finalize::lemma_marks_keep(s, u, root, n - 1, false);
            lemma_pud_spares(s, v, sharing::below_root(s, root, n - 1), 512, w);
        }
    }
}

/// Whether every table entry that leads somewhere is present.
pub open spec fn tables_clean(s: MachineState, root: u64) -> bool {
    forall|va: u64, l: int|
        #![trigger soundness::reach(s, root, va, l)]
        1 <= l <= 3 && soundness::reach(s, root, va, l) && entry::strip(
            s.c_bit,
            walk::entry_in(s, soundness::tab(s, root, va, l), va, l as nat),
        ) != 0 ==> entry::present(
            walk::entry_in(s, soundness::tab(s, root, va, l), va, l as nat),
        )
}

/// Whether an address lies in the slot of a memory channel.
pub open spec fn in_channel(va: u64) -> bool {
    entry::table_index(va, 3) == 5 || entry::table_index(va, 3) == 6
}

/// Whether an address lies in the exception stack.
pub open spec fn in_stack(va: u64) -> bool {
    entry::table_index(va, 3) == 1 && entry::table_index(va, 2) == 64
}

/// Whether a table, at level `l` on the way to `va`, is left alone when its
/// process is marked: it is a table of a memory channel, or a table of pages of
/// the exception stack.
pub open spec fn is_spared(va: u64, l: int) -> bool {
    in_channel(va) || (l == 0 && in_stack(va))
}

/// The address with the given indices.
proof fn lemma_address(i: int, j: int, k: int) -> (va: u64)
    requires
        0 <= i < 512,
        0 <= j < 512,
        0 <= k < 512,
    ensures
        entry::table_index(va, 3) == i,
        entry::table_index(va, 2) == j,
        entry::table_index(va, 1) == k,
{
    let q1 = (i * 512 + j) * 512 + k;
    let va = q1 * 0x20_0000;
    assert(va / 0x20_0000 == q1);
    assert(q1 / 512 == i * 512 + j);
    assert(va / 0x4000_0000 == i * 512 + j);
    assert(va / 0x80_0000_0000 == i);
    va as u64
}

/// A table that is spared has no word in common with another table on the way
/// to somewhere that is not spared.
proof fn lemma_beside(s: MachineState, root: u64, va: u64, l: int, i: int, vb: u64, k: int)
    requires
        soundness::sound(s, root),
        0 <= l <= 2,
        0 <= k <= 3,
        0 <= i < 512,
        soundness::reach(s, root, va, l),
        soundness::reach(s, root, vb, k),
        !(l == k && soundness::same_way(va, vb, l)),
    ensures
        beside(
            soundness::tab(s, root, vb, k),
            sharing::word_of(soundness::tab(s, root, va, l), i),
        ),
{
    let a = soundness::tab(s, root, va, l);
    let b = soundness::tab(s, root, vb, k);
    assert(soundness::is_page(s, a) && soundness::is_page(s, b));
    assert(a != b);
    assert forall|j: int| 0 <= j < 512 implies #[trigger] sharing::word_of(b, j)
        != sharing::word_of(a, i) by {
        soundness::lemma_words_apart(b, a, j, i);
    }
}

proof fn lemma_spared_below_pmd(
    s: MachineState,
    root: u64,
    va: u64,
    l: int,
    i: int,
    a: int,
    b: int,
)
    requires
        soundness::sound(s, root),
        tables_clean(s, root),
        0 <= l <= 2,
        0 <= i < 512,
        soundness::reach(s, root, va, l),
        is_spared(va, l),
        0 <= a < 512,
        0 <= b < 512,
        a != 5 && a != 6,
        entry::strip(s.c_bit, s.rd(root, a)) != 0,
        ({
            let pud = entry::strip(s.c_bit, s.rd(root, a));
            entry::strip(s.c_bit, s.rd(pud, b)) != 0
        }),
    ensures
        pmd_spares(
            s,
            sharing::below_pud(s, sharing::below_root(s, root, a), b),
            sharing::word_of(soundness::tab(s, root, va, l), i),
        ),
{
    let w = sharing::word_of(soundness::tab(s, root, va, l), i);
    let path = sharing::below_pud(s, sharing::below_root(s, root, a), b);
    let vb = lemma_address(a, b, 0);
    reveal_with_fuel(soundness::tab, 4);
    reveal_with_fuel(soundness::reach, 4);
    assert(soundness::reach(s, root, vb, 3));
    assert(soundness::reach(s, root, vb, 2));
    assert(soundness::reach(s, root, vb, 1));
    assert(soundness::tab(s, root, vb, 2) == path.pud);
    assert(soundness::tab(s, root, vb, 1) == path.pmd);
    lemma_beside(s, root, va, l, i, vb, 1);
    if path.to_stack() {
        lemma_beside(s, root, va, l, i, vb, 3);
        lemma_beside(s, root, va, l, i, vb, 2);
    } else {
        assert forall|c: int|
            0 <= c < 512 && entry::strip(s.c_bit, #[trigger] s.rd(path.pmd, c)) != 0 implies beside(
            entry::strip(s.c_bit, s.rd(path.pmd, c)),
            w,
        ) by {
            let vc = lemma_address(a, b, c);
            soundness::lemma_same_way(s, root, vb, vc, 1);
            assert(soundness::reach(s, root, vc, 1));
            assert(soundness::reach(s, root, vc, 0));
            lemma_beside(s, root, va, l, i, vc, 0);
        }
    }
}

/// Marking a process leaves the words of what is spared alone.
proof fn lemma_spared(s: MachineState, root: u64, va: u64, l: int, i: int)
    requires
        soundness::sound(s, root),
        tables_clean(s, root),
        0 <= l <= 2,
        0 <= i < 512,
        soundness::reach(s, root, va, l),
        is_spared(va, l),
    ensures
        root_spares(s, root, sharing::word_of(soundness::tab(s, root, va, l), i)),
{
    let w = sharing::word_of(soundness::tab(s, root, va, l), i);
    assert forall|a: int| 0 <= a < 512 && a != 5 && a != 6 implies #[trigger] slot_spares(
        s,
        root,
        a,
        w,
    ) by {
        let vb = lemma_address(a, 0, 0);
        reveal_with_fuel(soundness::tab, 4);
        reveal_with_fuel(soundness::reach, 4);
        assert(soundness::reach(s, root, vb, 3) && soundness::tab(s, root, vb, 3) == root);
        lemma_beside(s, root, va, l, i, vb, 3);
        if entry::strip(s.c_bit, s.rd(root, a)) != 0 {
            let path = sharing::below_root(s, root, a);
            assert(soundness::reach(s, root, vb, 2));
            assert(soundness::tab(s, root, vb, 2) == path.pud);
            lemma_beside(s, root, va, l, i, vb, 2);
            assert forall|b: int|
                0 <= b < 512 && entry::strip(s.c_bit, #[trigger] s.rd(path.pud, b))
                    != 0 implies pmd_spares(s, sharing::below_pud(s, path, b), w) by {
                lemma_spared_below_pmd(s, root, va, l, i, a, b);
            }
        }
    }
}

/// Marking a process leaves the root table's entries for the memory channels
/// alone.
proof fn lemma_spared_slots(s: MachineState, root: u64, i: int)
    requires
        soundness::sound(s, root),
        tables_clean(s, root),
        i == 5 || i == 6,
    ensures
        root_spares(s, root, sharing::word_of(root, i)),
{
    let w = sharing::word_of(root, i);
    assert forall|a: int| 0 <= a < 512 && a != 5 && a != 6 implies #[trigger] slot_spares(
        s,
        root,
        a,
        w,
    ) by {
        if entry::strip(s.c_bit, s.rd(root, a)) != 0 {
            let path = sharing::below_root(s, root, a);
            lemma_root_beside(s, root, i, a, 0, 0, 2);
            assert forall|b: int|
                0 <= b < 512 && entry::strip(s.c_bit, #[trigger] s.rd(path.pud, b))
                    != 0 implies pmd_spares(s, sharing::below_pud(s, path, b), w) by {
                let p = sharing::below_pud(s, path, b);
                lemma_root_beside(s, root, i, a, b, 0, 1);
                if p.to_stack() {
                    assert(sharing::word_of(path.pud, 64) != w);
                } else {
                    assert forall|c: int|
                        0 <= c < 512 && entry::strip(s.c_bit, #[trigger] s.rd(p.pmd, c))
                            != 0 implies beside(entry::strip(s.c_bit, s.rd(p.pmd, c)), w) by {
                        lemma_root_beside(s, root, i, a, b, c, 0);
                    }
                }
            }
        }
    }
}

/// A table below the root has no word in common with it.
proof fn lemma_root_beside(s: MachineState, root: u64, i: int, a: int, b: int, c: int, l: int)
    requires
        soundness::sound(s, root),
        tables_clean(s, root),
        0 <= i < 512,
        0 <= a < 512,
        0 <= b < 512,
        0 <= c < 512,
        0 <= l <= 2,
        ({
            let pud = entry::strip(s.c_bit, s.rd(root, a));
            let pmd = entry::strip(s.c_bit, s.rd(pud, b));
            let pte = entry::strip(s.c_bit, s.rd(pmd, c));
            pud != 0 && (l < 2 ==> pmd != 0) && (l < 1 ==> pte != 0)
        }),
    ensures
        ({
            let pud = entry::strip(s.c_bit, s.rd(root, a));
            let pmd = entry::strip(s.c_bit, s.rd(pud, b));
            let pte = entry::strip(s.c_bit, s.rd(pmd, c));
            let w = sharing::word_of(root, i);
            &&& l == 2 ==> beside(pud, w)
            &&& l == 1 ==> beside(pmd, w)
            &&& l == 0 ==> beside(pte, w)
        }),
{
    let vb = lemma_address(a, b, c);
    reveal_with_fuel(soundness::tab, 4);
    reveal_with_fuel(soundness::reach, 4);
    assert(soundness::reach(s, root, vb, 3) && soundness::tab(s, root, vb, 3) == root);
    assert(soundness::reach(s, root, vb, 2));
    if l < 2 {
        assert(soundness::reach(s, root, vb, 1));
    }
    if l < 1 {
        assert(soundness::reach(s, root, vb, 0));
    }
    let tb = soundness::tab(s, root, vb, l);
    assert(soundness::is_page(s, tb) && soundness::is_page(s, root));
    assert(tb != root) by {
        if tb == root {
            assert(soundness::tab(s, root, vb, l) == soundness::tab(s, root, vb, 3));
        }
    }
    assert forall|j: int| 0 <= j < 512 implies #[trigger] sharing::word_of(tb, j)
        != sharing::word_of(root, i) by {
        soundness::lemma_words_apart(tb, root, j, i);
    }
}

/// What a process has in its memory channels and in its exception stack is
/// spared when it is marked: the slots of the channels, all tables below them,
/// and the tables of pages of the stack stay as they were, to the last entry.
/// So each page there is found as it was, with the permissions that it had.
pub proof fn law_finalize_spares_channels_and_stack(s: MachineState, root: u64)
    requires
        soundness::sound(s, root),
        tables_clean(s, root),
    ensures
        ({
            let t = finalize::finalized(s, root);
            &&& t.rd(root, 5) == s.rd(root, 5)
            &&& t.rd(root, 6) == s.rd(root, 6)
            &&& forall|va: u64, l: int, i: int|
                #![trigger soundness::reach(s, root, va, l), t.rd(soundness::tab(s, root, va, l), i)]
                0 <= l <= 2 && 0 <= i < 512 && soundness::reach(s, root, va, l) && is_spared(va, l)
                    ==> t.rd(soundness::tab(s, root, va, l), i) == s.rd(
                    soundness::tab(s, root, va, l),
                    i,
                )
            &&& forall|va: u64|
                in_channel(va) || in_stack(va) ==> #[trigger] walk::leaf_below(t, root, va, 3)
                    == walk::leaf_below(s, root, va, 3)
        }),
{
    let t = finalize::finalized(s, root);
    assert(t.mem == finalize::mark_pgd(s, root, 512).mem);
    assert forall|i: int| i == 5 || i == 6 implies #[trigger] t.rd(root, i) == s.rd(root, i) by {
        lemma_spared_slots(s, root, i);
        lemma_root_spares(s, root, 512, sharing::word_of(root, i));
    }
    assert forall|va: u64, l: int, i: int|
        #![trigger soundness::reach(s, root, va, l), t.rd(soundness::tab(s, root, va, l), i)]
        0 <= l <= 2 && 0 <= i < 512 && soundness::reach(s, root, va, l) && is_spared(
            va,
            l,
        ) implies t.rd(soundness::tab(s, root, va, l), i) == s.rd(
        soundness::tab(s, root, va, l),
        i,
    ) by {
        lemma_spared(s, root, va, l, i);
        lemma_root_spares(
            s,
            root,
            512,
            sharing::word_of(soundness::tab(s, root, va, l), i),
        );
    }
    sharing::lemma_marks_keep_sound(s, root, root);
    assert forall|va: u64| in_channel(va) || in_stack(va) implies #[trigger] walk::leaf_below(
        t,
        root,
        va,
        3,
    ) == walk::leaf_below(s, root, va, 3) by {
        soundness::lemma_leaf(s, root, va);
        soundness::lemma_leaf(t, root, va);
        assert(soundness::reach(t, root, va, 0) == soundness::reach(s, root, va, 0));
        assert(soundness::tab(t, root, va, 0) == soundness::tab(s, root, va, 0));
        if soundness::reach(s, root, va, 0) {
            let tb = soundness::tab(s, root, va, 0);
            assert(t.rd(tb, entry::table_index(va, 0)) == s.rd(tb, entry::table_index(va, 0)));
        }
    }
}

} // verus!
