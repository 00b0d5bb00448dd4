//! What holds of the pages that the pool hands out.
use vstd::prelude::*;
use crate::memory::machine::MachineState;
use crate::process_manager::process_paging::soundness;

verus! {

/// The machine after `n` pages were taken.
pub open spec fn taken(s: MachineState, n: nat) -> MachineState
    decreases n,
{
    if n == 0 {
        s
    } else {
        taken(s, (n - 1) as nat).take_page().0
    }
}

/// Page number `i` that is taken.
pub open spec fn nth_page(s: MachineState, i: nat) -> u64 {
    taken(s, i).take_page().1
}

proof fn lemma_taken(s: MachineState, n: nat)
    requires
        soundness::pool_sound(s),
        n <= s.pool.available(),
    ensures
        soundness::pool_sound(taken(s, n)),
        taken(s, n).pool.available() == s.pool.available() - n,
        forall|pa: u64|
            soundness::in_pool(taken(s, n).pool, pa) ==> #[trigger] soundness::in_pool(s.pool, pa),
        forall|i: nat|
            i < n ==> soundness::in_pool(s.pool, #[trigger] nth_page(s, i)) && nth_page(s, i) != 0
                && !soundness::in_pool(taken(s, n).pool, nth_page(s, i)),
        forall|i: nat, j: nat| i < j < n ==> #[trigger] nth_page(s, i) != #[trigger] nth_page(s, j),
    decreases n,
{
    if n > 0 {
        let m = (n - 1) as nat;
        lemma_taken(s, m);
        let t = taken(s, m);
        let u = taken(s, n);
        soundness::law_taken_page_is_fresh(t);
        assert(nth_page(s, m) == t.take_page().1);
        assert forall|pa: u64| soundness::in_pool(u.pool, pa) implies #[trigger] soundness::in_pool(
            s.pool,
            pa,
        ) by {
            assert(soundness::in_pool(t.pool, pa));
        }
        assert forall|i: nat| i < n implies soundness::in_pool(s.pool, #[trigger] nth_page(s, i))
            && nth_page(s, i) != 0 && !soundness::in_pool(u.pool, nth_page(s, i)) by {
            if i < m {
                if soundness::in_pool(u.pool, nth_page(s, i)) {
                    assert(soundness::in_pool(t.pool, nth_page(s, i)));
                }
            } else {
                assert(soundness::in_pool(t.pool, nth_page(s, m)));
            }
        }
        assert forall|i: nat, j: nat| i < j < n implies #[trigger] nth_page(s, i)
            != #[trigger] nth_page(s, j) by {
            if j == m {
                assert(!soundness::in_pool(t.pool, nth_page(s, i)));
                assert(soundness::in_pool(t.pool, nth_page(s, m)));
            }
        }
    }
}

/// Exactly as many pages can be taken as are available: each of them is a page
/// of its own, and the next one is none.
pub proof fn law_pool_gives_what_is_available(s: MachineState, n: nat)
    requires
        soundness::pool_sound(s),
        n == s.pool.available(),
    ensures
        forall|i: nat| i < n ==> #[trigger] nth_page(s, i) != 0,
        forall|i: nat, j: nat| i < j < n ==> #[trigger] nth_page(s, i) != #[trigger] nth_page(s, j),
        nth_page(s, n) == 0,
        taken(s, n).pool.available() == 0,
{
    lemma_taken(s, n);
    let t = taken(s, n);
    assert(t.pool.available() == 0);
    assert(t.pool.list.len() == 0);
}

} // verus!
