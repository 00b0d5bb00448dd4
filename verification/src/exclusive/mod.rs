//! Cores that the guest has given to the monitor.
use vstd::prelude::*;
use crate::gpu::direct::{
    engine_registered, engine_slot_owes_stop, service_registered, GpuState, GpuView,
};

pub mod exclusive_loop;
pub mod scheduling;

verus! {

/// No command.
pub const LOOP_CLEAR: u64 = 0;

/// Give the core back to the guest.
pub const LOOP_EXIT: u64 = 1;

/// Halt the core.
pub const LOOP_SLEEP: u64 = 2;

/// Go on after a halt.
pub const LOOP_WAKEUP: u64 = 3;

/// What a bounded poll ends with when its time is over; no command.
pub const LOOP_YIELD: u64 = 4;

/// The word of a control page that holds the next command.
pub const CONTROL_NEXT: u64 = 0;

/// The word of a control page that says whether the core is halted.
pub const CONTROL_HLT: u64 = 1;

/// What is known of the cores that the guest has given to the monitor.
#[derive(Debug)]
pub struct ExclusiveState {
    /// The state pages of the cores.
    pub vmsa_phys: [u64; 64],
    pub vmsa_feat: [u64; 64],
    /// The pages through which the cores are commanded.
    pub control: [u64; 64],
    /// Counts replacements, so that they go round.
    pub next_replacement: u64,
}

/// What an `ExclusiveState` holds.
#[verifier::ext_equal]
pub struct ExclusiveView {
    pub vmsa_phys: Seq<u64>,
    pub vmsa_feat: Seq<u64>,
    pub control: Seq<u64>,
    pub next_replacement: u64,
}

impl View for ExclusiveState {
    type V = ExclusiveView;

    open spec fn view(&self) -> ExclusiveView {
        ExclusiveView {
            vmsa_phys: self.vmsa_phys@,
            vmsa_feat: self.vmsa_feat@,
            control: self.control@,
            next_replacement: self.next_replacement,
        }
    }
}

/// How well a core suits a new engine: best where it has a service that owes
/// nothing, next where it has a service, and last where it has none.
#[derive(Clone, Copy, PartialEq, Eq, Structural, Debug)]
pub enum Suits {
    Best,
    Serviced,
    Any,
}

impl ExclusiveView {
    /// No core was given to the monitor.
    pub open spec fn blank() -> ExclusiveView {
        let none = Seq::new(64, |i: int| 0u64);
        ExclusiveView { vmsa_phys: none, vmsa_feat: none, control: none, next_replacement: 0 }
    }

    /// Whether a core was given to the monitor.
    pub open spec fn donated(self, core: int) -> bool {
        0 <= core < 64 && self.control[core] != 0
    }

    /// Whether a core has no engine and suits a new one.
    pub open spec fn suits(self, g: GpuView, core: int, how: Suits) -> bool {
        &&& self.donated(core)
        &&& !g.engaged(core)
        &&& (how == Suits::Best ==> !g.owes_stop(core))
        &&& (how != Suits::Any ==> g.serviced(core))
    }

    /// The first core from `i` on that suits a new engine.
    pub open spec fn first_suited(self, g: GpuView, how: Suits, i: int) -> Option<int>
        decreases 64 - i,
    {
        if i >= 64 {
            None
        } else if self.suits(g, i, how) {
            Some(i)
        } else {
            self.first_suited(g, how, i + 1)
        }
    }

    /// The core for a new engine, where one is free.
    pub open spec fn free_core(self, g: GpuView) -> Option<int> {
        match self.first_suited(g, Suits::Best, 0) {
            Some(i) => Some(i),
            None => match self.first_suited(g, Suits::Serviced, 0) {
                Some(i) => Some(i),
                None => self.first_suited(g, Suits::Any, 0),
            },
        }
    }

    /// Whether the engine of a core can be replaced.
    pub open spec fn replaceable(self, g: GpuView, core: int, serviced: bool) -> bool {
        self.donated(core) && (serviced ==> g.serviced(core))
    }

    /// Cores among the first `n` whose engines can be replaced.
    pub open spec fn count(self, g: GpuView, serviced: bool, n: nat) -> nat
        decreases n,
    {
        if n == 0 {
            0
        } else {
            self.count(g, serviced, (n - 1) as nat) + (if self.replaceable(g, n - 1, serviced) {
                1nat
            } else {
                0
            })
        }
    }

    /// The core number `k` from `i` on whose engine can be replaced.
    pub open spec fn nth(self, g: GpuView, serviced: bool, k: nat, i: int) -> Option<int>
        decreases 64 - i,
    {
        if i >= 64 {
            None
        } else if self.replaceable(g, i, serviced) {
            if k == 0 {
                Some(i)
            } else {
                self.nth(g, serviced, (k - 1) as nat, i + 1)
            }
        } else {
            self.nth(g, serviced, k, i + 1)
        }
    }

    /// The core whose engine is replaced next: the cores take turns, and those
    /// with a service come before all others.
    pub open spec fn replacement(self, g: GpuView) -> Option<int> {
        let serviced = self.count(g, true, 64) > 0;
        let n = self.count(g, serviced, 64);
        if n == 0 {
            None
        } else {
            self.nth(g, serviced, (self.next_replacement as nat) % n, 0)
        }
    }

    /// The state after the engine of a core was replaced.
    pub open spec fn rotated(self, g: GpuView) -> ExclusiveView {
        if self.count(g, false, 64) == 0 {
            self
        } else {
            ExclusiveView { next_replacement: self.next_replacement.wrapping_add(1), ..self }
        }
    }
}

proof fn lemma_count_serviced(ex: ExclusiveView, g: GpuView, n: nat)
    ensures
        ex.count(g, true, n) <= ex.count(g, false, n),
    decreases n,
{
    if n > 0 {
        lemma_count_serviced(ex, g, (n - 1) as nat);
    }
}

proof fn lemma_nth(ex: ExclusiveView, g: GpuView, serviced: bool, k: nat, i: int)
    requires
        0 <= i <= 64,
    ensures
        ex.nth(g, serviced, k, i) matches Some(c) ==> i <= c < 64 && ex.replaceable(
            g,
            c,
            serviced,
        ) && ex.count(g, serviced, c as nat) == ex.count(g, serviced, i as nat) + k,
        ex.nth(g, serviced, k, i) is None ==> ex.count(g, serviced, i as nat) + k >= ex.count(
            g,
            serviced,
            64,
        ),
    decreases 64 - i,
{
    if i < 64 {
        if ex.replaceable(g, i, serviced) {
            if k > 0 {
                lemma_nth(ex, g, serviced, (k - 1) as nat, i + 1);
            } else {
                lemma_count_grows(ex, g, serviced, (i + 1) as nat, 64);
            }
        } else {
            lemma_nth(ex, g, serviced, k, i + 1);
        }
    }
}

proof fn lemma_count_grows(ex: ExclusiveView, g: GpuView, serviced: bool, a: nat, b: nat)
    requires
        a <= b,
    ensures
        ex.count(g, serviced, a) <= ex.count(g, serviced, b),
    decreases b - a,
{
    if a < b {
        lemma_count_grows(ex, g, serviced, a, (b - 1) as nat);
    }
}

impl ExclusiveState {
    /// No core was given to the monitor.
    pub fn new() -> (r: ExclusiveState)
        ensures
            r@ == ExclusiveView::blank(),
    {
        let r = ExclusiveState {
            vmsa_phys: [0u64; 64],
            vmsa_feat: [0u64; 64],
            control: [0u64; 64],
            next_replacement: 0,
        };
        assert(r@ =~= ExclusiveView::blank());
        r
    }
}

/// Whether a core was given to the monitor.
pub fn is_donated(ex: &ExclusiveState, core: usize) -> (r: bool)
    ensures
        r == ex@.donated(core as int),
{
    core < 64 && ex.control[core] != 0
}

/// The first core that was given to the monitor.
pub fn donated_core(ex: &ExclusiveState) -> (r: Option<usize>)
    ensures
        match r {
            Some(c) => ex@.donated(c as int) && forall|i: int|
                0 <= i < c ==> !ex@.donated(i),
            None => forall|i: int| !ex@.donated(i),
        },
{
    let mut i: usize = 0;
    while i < 64
        invariant
            i <= 64,
            forall|k: int| 0 <= k < i ==> !ex@.donated(k),
        decreases 64 - i,
    {
        if is_donated(ex, i) {
            return Some(i);
        }
        i = i + 1;
    }
    None
}

fn is_suited(ex: &ExclusiveState, gpu: &GpuState, core: usize, how: Suits) -> (r: bool)
    ensures
        r == ex@.suits(gpu@, core as int, how),
{
    is_donated(ex, core) && !engine_registered(gpu, core) && (how != Suits::Best
        || !engine_slot_owes_stop(gpu, core)) && (how == Suits::Any || service_registered(gpu, core,
    ))
}

fn find_suited(ex: &ExclusiveState, gpu: &GpuState, how: Suits) -> (r: Option<usize>)
    ensures
        match r {
            Some(c) => ex@.first_suited(gpu@, how, 0) == Some(c as int) && c < 64,
            None => ex@.first_suited(gpu@, how, 0) is None,
        },
{
    let mut i: usize = 0;
    while i < 64
        invariant
            i <= 64,
            ex@.first_suited(gpu@, how, 0) == ex@.first_suited(gpu@, how, i as int),
        decreases 64 - i,
    {
        if is_suited(ex, gpu, i, how) {
            return Some(i);
        }
        i = i + 1;
    }
    None
}

/// A core without an engine for a new one. Cores with a service come
/// first, and among them those whose service owes nothing to an earlier
/// session.
pub fn free_donated_core(ex: &ExclusiveState, gpu: &GpuState) -> (r: Option<usize>)
    ensures
        match r {
            Some(c) => ex@.free_core(gpu@) == Some(c as int) && c < 64,
            None => ex@.free_core(gpu@) is None,
        },
{
    match find_suited(ex, gpu, Suits::Best) {
        Some(i) => return Some(i),
        None => {},
    }
    match find_suited(ex, gpu, Suits::Serviced) {
        Some(i) => return Some(i),
        None => {},
    }
    find_suited(ex, gpu, Suits::Any)
}

fn is_replaceable(ex: &ExclusiveState, gpu: &GpuState, core: usize, serviced: bool) -> (r: bool)
    ensures
        r == ex@.replaceable(gpu@, core as int, serviced),
{
    is_donated(ex, core) && (!serviced || service_registered(gpu, core))
}

fn count_replaceable(ex: &ExclusiveState, gpu: &GpuState, serviced: bool) -> (r: u64)
    ensures
        r == ex@.count(gpu@, serviced, 64),
{
    let mut n: u64 = 0;
    let mut i: usize = 0;
    while i < 64
        invariant
            i <= 64,
            n <= i,
            n == ex@.count(gpu@, serviced, i as nat),
        decreases 64 - i,
    {
        if is_replaceable(ex, gpu, i, serviced) {
            n = n + 1;
        }
        i = i + 1;
    }
    n
}

/// A core whose engine is replaced by a new one. The cores take turns, so
/// that engines that start together get cores of their own; cores with a
/// service come before all others.
pub fn replacement_donated_core(ex: &mut ExclusiveState, gpu: &GpuState) -> (r: Option<usize>)
    ensures
        match r {
            Some(c) => old(ex)@.replacement(gpu@) == Some(c as int) && c < 64,
            None => old(ex)@.replacement(gpu@) is None,
        },
        final(ex)@ == old(ex)@.rotated(gpu@),
{
    let n_serviced = count_replaceable(ex, gpu, true);
    let n_all = count_replaceable(ex, gpu, false);
    proof {
        lemma_count_serviced(ex@, gpu@, 64);
    }
    let (n, serviced) = if n_serviced > 0 {
        (n_serviced, true)
    } else {
        (n_all, false)
    };
    if n == 0 {
        return None;
    }
    let k: u64 = ex.next_replacement % n;
    let ghost before = ex@;
    ex.next_replacement = ex.next_replacement.wrapping_add(1);
    let mut seen: u64 = 0;
    let mut i: usize = 0;
    proof {
        lemma_nth(before, gpu@, serviced, k as nat, 0);
    }
    while i < 64
        invariant
            i <= 64,
            seen <= i,
            seen <= k,
            before == old(ex)@,
            ex@ == before.rotated(gpu@),
            before.replacement(gpu@) == before.nth(gpu@, serviced, k as nat, 0),
            ex@ == (ExclusiveView {
                next_replacement: before.next_replacement.wrapping_add(1),
                ..before
            }),
            before.nth(gpu@, serviced, k as nat, 0) == before.nth(
                gpu@,
                serviced,
                (k - seen) as nat,
                i as int,
            ),
        decreases 64 - i,
    {
        let eligible = is_replaceable(ex, gpu, i, serviced);
        assert(eligible == before.replaceable(gpu@, i as int, serviced));
        if eligible {
            if seen == k {
                return Some(i);
            }
            seen = seen + 1;
        }
        i = i + 1;
    }
    None
}

/// A core that is picked for a new engine was given to the monitor and has no
/// engine, and no core that suits better was passed over.
pub proof fn law_free_core_is_the_best(ex: ExclusiveView, g: GpuView)
    ensures
        match ex.free_core(g) {
            None => forall|i: int| !ex.suits(g, i, Suits::Any),
            Some(c) => {
                &&& ex.suits(g, c, Suits::Any)
                &&& (exists|i: int| #[trigger] ex.suits(g, i, Suits::Best)) ==> ex.suits(
                    g,
                    c,
                    Suits::Best,
                )
                &&& (exists|i: int| #[trigger] ex.suits(g, i, Suits::Serviced)) ==> ex.suits(
                    g,
                    c,
                    Suits::Serviced,
                )
            },
        },
{
    lemma_first_suited(ex, g, Suits::Best, 0);
    lemma_first_suited(ex, g, Suits::Serviced, 0);
    lemma_first_suited(ex, g, Suits::Any, 0);
}

proof fn lemma_first_suited(ex: ExclusiveView, g: GpuView, how: Suits, i: int)
    requires
        0 <= i <= 64,
    ensures
        match ex.first_suited(g, how, i) {
            None => forall|k: int| i <= k ==> !#[trigger] ex.suits(g, k, how),
            Some(c) => i <= c < 64 && ex.suits(g, c, how) && forall|k: int|
                i <= k < c ==> !#[trigger] ex.suits(g, k, how),
        },
    decreases 64 - i,
{
    if i < 64 {
        lemma_first_suited(ex, g, how, i + 1);
    }
}

/// Where a core can be replaced at all one is picked, and it is one with a
/// service where there is any.
pub proof fn law_replacement_exists(ex: ExclusiveView, g: GpuView)
    ensures
        ex.replacement(g) is None <==> ex.count(g, false, 64) == 0,
        ex.replacement(g) matches Some(c) ==> ex.donated(c) && (ex.count(g, true, 64) > 0
            ==> g.serviced(c)),
{
    let serviced = ex.count(g, true, 64) > 0;
    let n = ex.count(g, serviced, 64);
    lemma_count_serviced(ex, g, 64);
    if n > 0 {
        lemma_nth(ex, g, serviced, (ex.next_replacement as nat) % n, 0);
    }
}

/// Two replacements in a row pick different cores, where there are two to pick
/// from and the count does not start anew between them.
pub proof fn law_replacements_take_turns(ex: ExclusiveView, g: GpuView)
    requires
        ex.next_replacement < u64::MAX,
        ex.count(g, true, 64) > 1 || (ex.count(g, true, 64) == 0 && ex.count(g, false, 64) > 1),
    ensures
        ex.replacement(g) != ex.rotated(g).replacement(g),
{
    let serviced = ex.count(g, true, 64) > 0;
    let n = ex.count(g, serviced, 64);
    let other = ex.rotated(g);
    lemma_count_serviced(ex, g, 64);
    lemma_count_same(ex, other, g, true, 64);
    lemma_count_same(ex, other, g, false, 64);
    let k = (ex.next_replacement as nat) % n;
    let l = ((ex.next_replacement + 1) as nat) % n;
    assert(k != l) by (nonlinear_arith)
        requires
            n > 1,
            k == (ex.next_replacement as nat) % n,
            l == ((ex.next_replacement + 1) as nat) % n,
    ;
    lemma_nth(ex, g, serviced, k, 0);
    lemma_nth(other, g, serviced, l, 0);
    match (ex.nth(g, serviced, k, 0), other.nth(g, serviced, l, 0)) {
        (Some(c), Some(d)) => {
            lemma_count_same(ex, other, g, serviced, c as nat);
            lemma_count_same(ex, other, g, serviced, d as nat);
        },
        _ => {},
    }
}

proof fn lemma_count_same(a: ExclusiveView, b: ExclusiveView, g: GpuView, serviced: bool, n: nat)
    requires
        a.control == b.control,
    ensures
        a.count(g, serviced, n) == b.count(g, serviced, n),
    decreases n,
{
    if n > 0 {
        lemma_count_same(a, b, g, serviced, (n - 1) as nat);
    }
}

/// The state after `j` replacements.
pub open spec fn turned(ex: ExclusiveView, g: GpuView, j: nat) -> ExclusiveView
    decreases j,
{
    if j == 0 {
        ex
    } else {
        turned(ex, g, (j - 1) as nat).rotated(g)
    }
}

/// Whether a core takes part in the turns: it has a service, or none has.
pub open spec fn eligible(ex: ExclusiveView, g: GpuView, core: int) -> bool {
    ex.replaceable(g, core, ex.count(g, true, 64) > 0)
}

proof fn lemma_turned(ex: ExclusiveView, g: GpuView, j: nat)
    requires
        ex.count(g, false, 64) > 0,
        ex.next_replacement + j <= u64::MAX,
    ensures
        turned(ex, g, j) == (ExclusiveView {
            next_replacement: (ex.next_replacement + j) as u64,
            ..ex
        }),
    decreases j,
{
    if j > 0 {
        lemma_turned(ex, g, (j - 1) as nat);
        lemma_count_same(ex, turned(ex, g, (j - 1) as nat), g, false, 64);
    }
}

proof fn lemma_nth_of(ex: ExclusiveView, g: GpuView, serviced: bool, c: int, i: int)
    requires
        0 <= i <= c < 64,
        ex.replaceable(g, c, serviced),
    ensures
        ex.count(g, serviced, i as nat) <= ex.count(g, serviced, c as nat),
        ex.nth(
            g,
            serviced,
            (ex.count(g, serviced, c as nat) - ex.count(g, serviced, i as nat)) as nat,
            i,
        ) == Some(c),
    decreases c - i,
{
    lemma_count_grows(ex, g, serviced, i as nat, c as nat);
    if i < c {
        lemma_count_grows(ex, g, serviced, (i + 1) as nat, c as nat);
        lemma_nth_of(ex, g, serviced, c, i + 1);
    }
}

proof fn lemma_turn(ex: ExclusiveView, g: GpuView, j: nat)
    requires
        ex.count(g, false, 64) > 0,
        ex.next_replacement + j <= u64::MAX,
    ensures
        ({
            let serviced = ex.count(g, true, 64) > 0;
            let n = ex.count(g, serviced, 64);
            &&& n > 0
            &&& turned(ex, g, j).replacement(g) matches Some(c) && 0 <= c < 64 && eligible(ex, g, c)
                && ex.count(g, serviced, c as nat) == (ex.next_replacement + j) % n as int
        }),
{
    let serviced = ex.count(g, true, 64) > 0;
    let n = ex.count(g, serviced, 64);
    let other = turned(ex, g, j);
    lemma_turned(ex, g, j);
    lemma_count_serviced(ex, g, 64);
    lemma_count_same(ex, other, g, true, 64);
    lemma_count_same(ex, other, g, false, 64);
    let k = (other.next_replacement as nat) % n;
    assert(0 <= k < n) by (nonlinear_arith)
        requires
            n > 0,
            k == (other.next_replacement as nat) % n,
    ;
    lemma_nth(other, g, serviced, k, 0);
    let c = other.nth(g, serviced, k, 0)->0;
    lemma_count_same(ex, other, g, serviced, c as nat);
}

/// A full round of replacements gives each core that takes part exactly once,
/// where the count does not start anew in between.
pub proof fn law_round_gives_each_core_once(ex: ExclusiveView, g: GpuView)
    requires
        ex.count(g, false, 64) > 0,
        ex.next_replacement + ex.count(g, ex.count(g, true, 64) > 0, 64) <= u64::MAX,
    ensures
        ({
            let n = ex.count(g, ex.count(g, true, 64) > 0, 64);
            &&& 0 < n <= 64
            &&& forall|j: nat|
                j < n ==> (#[trigger] turned(ex, g, j).replacement(g) matches Some(c) && eligible(
                    ex,
                    g,
                    c,
                ))
            &&& forall|i: nat, j: nat|
                i < j < n ==> #[trigger] turned(ex, g, i).replacement(g) != #[trigger] turned(
                    ex,
                    g,
                    j,
                ).replacement(g)
            &&& forall|c: int| #[trigger]
                eligible(ex, g, c) ==> exists|j: nat|
                    j < n && #[trigger] turned(ex, g, j).replacement(g) == Some(c)
        }),
{
    let serviced = ex.count(g, true, 64) > 0;
    let n = ex.count(g, serviced, 64);
    let start = ex.next_replacement as int;
    lemma_turn(ex, g, 0);
    lemma_count_bound(ex, g, serviced, 64);
    assert forall|j: nat| j < n implies (#[trigger] turned(ex, g, j).replacement(g) matches Some(c)
        && eligible(ex, g, c)) by {
        lemma_turn(ex, g, j);
    }
    assert forall|i: nat, j: nat| i < j < n implies #[trigger] turned(ex, g, i).replacement(g)
        != #[trigger] turned(ex, g, j).replacement(g) by {
        lemma_turn(ex, g, i);
        lemma_turn(ex, g, j);
        assert((start + i) % n as int != (start + j) % n as int) by (nonlinear_arith)
            requires
                0 <= start,
                0 <= i < j < n,
        {
            vstd::arithmetic::div_mod::lemma_fundamental_div_mod(start + i, n as int);
            vstd::arithmetic::div_mod::lemma_fundamental_div_mod(start + j, n as int);
            let a = (start + i) / n as int;
            let b = (start + j) / n as int;
            if (start + i) % n as int == (start + j) % n as int {
                assert(n * (b - a) == j - i);
                assert(b - a >= 1 ==> n * (b - a) >= n);
                assert(b - a <= 0 ==> n * (b - a) <= 0);
            }
        }
    }
    assert forall|c: int| #[trigger] eligible(ex, g, c) implies exists|j: nat|
        j < n && #[trigger] turned(ex, g, j).replacement(g) == Some(c) by {
        let q = ex.count(g, serviced, c as nat) as int;
        lemma_count_grows(ex, g, serviced, (c + 1) as nat, 64);
        assert(q < n);
        let p = start % n as int;
        let j: nat = if q >= p {
            (q - p) as nat
        } else {
            (q - p + n) as nat
        };
        vstd::arithmetic::div_mod::lemma_mod_bound(start, n as int);
        assert((start + j) % n as int == q) by {
            vstd::arithmetic::div_mod::lemma_add_mod_noop(start, j as int, n as int);
            vstd::arithmetic::div_mod::lemma_small_mod(p as nat, n);
            if q >= p {
                vstd::arithmetic::div_mod::lemma_small_mod(j, n);
                vstd::arithmetic::div_mod::lemma_small_mod(q as nat, n);
            } else {
                vstd::arithmetic::div_mod::lemma_small_mod(j, n);
                vstd::arithmetic::div_mod::lemma_mod_add_multiples_vanish(q, n as int);
                vstd::arithmetic::div_mod::lemma_small_mod(q as nat, n);
                assert(p + j == n + q);
            }
        }
        lemma_turn(ex, g, j);
        let d = turned(ex, g, j).replacement(g)->0;
        lemma_nth_of(ex, g, serviced, c, 0);
        lemma_nth_of(ex, g, serviced, d, 0);
        assert(d == c);
    }
}

proof fn lemma_count_bound(ex: ExclusiveView, g: GpuView, serviced: bool, n: nat)
    ensures
        ex.count(g, serviced, n) <= n,
    decreases n,
{
    if n > 0 {
        lemma_count_bound(ex, g, serviced, (n - 1) as nat);
    }
}

} // verus!
