//! What holds of entries that wait for their pages.
use vstd::prelude::*;
use crate::memory::machine;
use crate::memory::machine::MachineState;
use crate::process_manager::process_paging::entry;
use crate::process_manager::process_paging::isolation;
use crate::process_manager::process_paging::mapping;
use crate::process_manager::process_paging::soundness;
use crate::process_manager::process_paging::walk;
use crate::sev::utils::VMPL1_RWX;

verus! {

/// The entry for a page, where the tables on the way to it are there.
pub open spec fn slot_word(s: MachineState, root: u64, va: u64) -> u64 {
    walk::entry_in(s, soundness::tab(s, root, va, 0), va, 0)
}

/// Whether the entry for a page is there, present or not, and is the given word.
pub open spec fn has_slot(s: MachineState, root: u64, va: u64, word: u64) -> bool {
    soundness::reach(s, root, va, 0) && slot_word(s, root, va) == word
}

/// Hanging a table somewhere changes no entry for a page.
proof fn lemma_hang_slots(s: MachineState, root: u64, va: u64, lvl: nat, vb: u64)
    requires
        soundness::sound(s, root),
        1 <= lvl <= 3,
        soundness::reach(s, root, va, lvl as int),
        !entry::present(
            walk::entry_in(s, soundness::tab(s, root, va, lvl as int), va, lvl),
        ),
        s.pool.available() > 0,
        soundness::reach(s, root, vb, 0),
    ensures
        ({
            let (t, fresh) = mapping::hang_table(
                s,
                soundness::tab(s, root, va, lvl as int),
                va,
                lvl,
            );
            has_slot(t, root, vb, slot_word(s, root, vb))
        }),
{
    let table = soundness::tab(s, root, va, lvl as int);
    let (t, fresh) = mapping::hang_table(s, table, va, lvl);
    let idx = entry::table_index(va, lvl as int);
    let g = s.grant(table, VMPL1_RWX);
    soundness::lemma_hang(s, root, va, lvl);
    soundness::law_taken_page_is_fresh(s);
    assert(soundness::pool_sound(g)) by {
        assert forall|pa: u64|
            pa % 4096 == 0 && #[trigger] soundness::in_region(
                g.pool,
                pa,
            ) implies soundness::is_page(g, pa) by {
            assert(soundness::in_region(s.pool, pa));
        }
    }
    soundness::law_taken_page_is_fresh(g);
    let u = if lvl == 2 {
        s.take_page().0
    } else {
        g.take_page().0
    };
    let tb = soundness::tab(s, root, vb, 0);
    let i = entry::table_index(vb, 0);
    assert(soundness::is_page(s, tb) && !soundness::in_pool(s.pool, tb));
    assert(soundness::is_page(s, table));
    assert(tb != table);
    assert(u.rd(tb, i) == s.rd(tb, i));
    soundness::lemma_words_apart(tb, table, i, idx);
    assert(t.rd(tb, i) == u.rd(tb, i));
    assert(soundness::reach(t, root, vb, 0) && soundness::tab(t, root, vb, 0) == tb);
}

/// Mapping a page leaves its entry, and changes no other.
proof fn lemma_map_slots(
    s: MachineState,
    root: u64,
    va: u64,
    lvl: nat,
    addr: u64,
    flags: u64,
    vb: u64,
)
    requires
        soundness::sound(s, root),
        lvl <= 3,
        soundness::reach(s, root, va, lvl as int),
        lvl > 0 ==> !entry::present(
            walk::entry_in(s, soundness::tab(s, root, va, lvl as int), va, lvl),
        ),
        s.pool.available() >= lvl,
    ensures
        ({
            let table = soundness::tab(s, root, va, lvl as int);
            let t = mapping::map_below(s, table, va, lvl, addr, flags);
            let e = if lvl == 0 {
                walk::entry_in(s, table, va, 0)
            } else {
                0
            };
            &&& has_slot(t, root, va, mapping::leaf_word(s.c_bit, e, addr, flags))
            &&& !soundness::same_page(va, vb) && soundness::reach(s, root, vb, 0) ==> has_slot(
                t,
                root,
                vb,
                slot_word(s, root, vb),
            )
        }),
    decreases lvl,
{
    let table = soundness::tab(s, root, va, lvl as int);
    let t = mapping::map_below(s, table, va, lvl, addr, flags);
    if lvl == 0 {
        let word = mapping::leaf_word(s.c_bit, walk::entry_in(s, table, va, 0), addr, flags);
        soundness::lemma_set_leaf(s, t, root, va, word);
        lemma_leaf_slots(s, t, root, va, word, vb);
    } else {
        let (u, fresh) = mapping::hang_table(s, table, va, lvl);
        soundness::lemma_hang(s, root, va, lvl);
        entry::lemma_empty();
        if soundness::reach(s, root, vb, 0) {
            lemma_hang_slots(s, root, va, lvl, vb);
        }
        lemma_map_slots(u, root, va, (lvl - 1) as nat, addr, flags, vb);
    }
}

proof fn lemma_leaf_slots(
    s: MachineState,
    t: MachineState,
    root: u64,
    va: u64,
    word: u64,
    vb: u64,
)
    requires
        soundness::sound(s, root),
        soundness::reach(s, root, va, 0),
        t.c_bit == s.c_bit,
        t.mem == machine::store_word(
            s.mem,
            soundness::tab(s, root, va, 0),
            entry::table_index(va, 0),
            word,
        ),
    ensures
        has_slot(t, root, va, word),
        !soundness::same_page(va, vb) && soundness::reach(s, root, vb, 0) ==> has_slot(
            t,
            root,
            vb,
            slot_word(s, root, vb),
        ),
{
    let table = soundness::tab(s, root, va, 0);
    let idx = entry::table_index(va, 0);
    soundness::lemma_leaf_way(s, t, root, va, word, va, 0);
    soundness::lemma_leaf_way(s, t, root, va, word, vb, 0);
    assert(soundness::is_page(s, table));
    assert(t.rd(table, idx) == word);
    if !soundness::same_page(va, vb) && soundness::reach(s, root, vb, 0) {
        let tb = soundness::tab(s, root, vb, 0);
        let i = entry::table_index(vb, 0);
        assert(soundness::is_page(s, tb));
        soundness::lemma_same_page(va, vb);
        if tb != table {
            soundness::lemma_words_apart(tb, table, i, idx);
        }
        assert(t.rd(tb, i) == s.rd(tb, i));
    }
}

/// An entry that was made for a page is there, whether the page is present or
/// not, and no entry for another page is changed.
pub proof fn law_made_entry_is_there(
    s: MachineState,
    root: u64,
    va: u64,
    addr: u64,
    flags: u64,
    vb: u64,
)
    requires
        soundness::sound(s, root),
        s.pool.available() >= walk::walk_end(s, root, va, 3).0,
        soundness::page_flags(flags),
    ensures
        ({
            let t = mapping::map_page(s, root, va, addr, flags);
            &&& has_slot(t, root, va, entry::entry_word(s.c_bit, addr, flags))
            &&& !soundness::same_page(va, vb) && soundness::reach(s, root, vb, 0) ==> has_slot(
                t,
                root,
                vb,
                slot_word(s, root, vb),
            )
        }),
{
    let (lvl, table) = walk::walk_end(s, root, va, 3);
    soundness::lemma_walk_end(s, root, va);
    lemma_map_slots(s, root, va, lvl, addr, flags, vb);
}

/// A page that comes later for an entry that waits for it is found with what the
/// entry permits.
pub proof fn law_awaited_page_is_found(
    s: MachineState,
    root: u64,
    va: u64,
    addr: u64,
    word: u64,
)
    requires
        soundness::sound(s, root),
        has_slot(s, root, va, word),
        entry::strip(s.c_bit, addr) == addr,
    ensures
        ({
            let t = mapping::map_page(s, root, va, addr, 0x400);
            &&& walk::translate(t, root, va) == addr
            &&& walk::leaf_below(t, root, va, 3) == Some(
                entry::entry_word(s.c_bit, addr, entry::flags_of(word) | 0x1),
            )
        }),
{
    let (lvl, table) = walk::walk_end(s, root, va, 3);
    soundness::lemma_walk_end(s, root, va);
    if lvl > 0 {
        isolation::lemma_reach_up(s, root, va, 0, lvl as int - 1);
    }
    soundness::law_delivered_page_is_found(s, root, va, addr);
}

} // verus!
