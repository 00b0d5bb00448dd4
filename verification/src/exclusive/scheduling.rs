//! Commands of the guest to the cores that it has given to the monitor.
use vstd::prelude::*;
use crate::address::PhysAddr;
use crate::exclusive::exclusive_loop;
use crate::exclusive::exclusive_loop::ExclusiveAction;
use crate::exclusive::{
    ExclusiveState, ExclusiveView, CONTROL_HLT, CONTROL_NEXT, LOOP_CLEAR, LOOP_EXIT, LOOP_SLEEP,
    LOOP_WAKEUP,
};
use crate::memory::machine::{Machine, MachineState};
use crate::process_manager;
use crate::process_manager::process_paging::slots;
use crate::process_manager::{reject, STATUS_BAD_ID, STATUS_BAD_STATE};
use crate::RequestParams;

verus! {

/// How far a command got.
#[derive(Clone, Copy, PartialEq, Eq, Structural, Debug)]
pub enum SchedStep {
    /// The request is answered.
    Done,
    /// An earlier command has not been taken yet: nothing was done, the
    /// request has to be made again.
    Retry,
    /// The request is answered; the core has to be run.
    Run { vmsa: PhysAddr, features: u64, cpu: u32 },
    /// The request is answered; the core has to be woken.
    Wake { id: usize },
}

/// What a wake-up comes to.
#[derive(Clone, Copy, PartialEq, Eq, Structural, Debug)]
pub enum WakeStep {
    /// The core cannot be woken.
    Refused,
    /// An earlier command has not been taken yet.
    Retry,
    /// The core has to be run.
    Run { vmsa: PhysAddr, features: u64, cpu: u32 },
}

/// The command word after `n` was put in the place of `o`; none where `o` was
/// not there.
pub fn set_next(next: u64, o: u64, n: u64) -> (r: Option<u64>)
    ensures
        r == (if next == o {
            Some(n)
        } else {
            None
        }),
{
    if next == o {
        Some(n)
    } else {
        None
    }
}

/// The machine after a command was posted on a control page; none where an
/// earlier one is still there.
pub open spec fn posted(s: MachineState, page: u64, cmd: u64) -> Option<MachineState> {
    if s.rd(page, 0) == LOOP_CLEAR {
        Some(s.wr(page, 0, cmd))
    } else {
        None
    }
}

fn post(m: &mut Machine, page: PhysAddr, cmd: u64) -> (r: bool)
    ensures
        match posted(old(m)@, page, cmd) {
            Some(t) => r && final(m)@ == t,
            None => !r && final(m)@ == old(m)@,
        },
{
    match set_next(m.read(page, CONTROL_NEXT), LOOP_CLEAR, cmd) {
        Some(next) => {
            m.write(page, CONTROL_NEXT, next);
            true
        },
        None => false,
    }
}

/// Takes note that a core halts.
pub fn sleep_begin(m: &mut Machine, page: PhysAddr)
    ensures
        final(m)@ == old(m)@.wr(page, 1, 1),
{
    m.write(page, CONTROL_HLT, 1);
}

/// Takes note that a core runs again.
pub fn sleep_end(m: &mut Machine, page: PhysAddr)
    ensures
        final(m)@ == old(m)@.wr(page, 1, 0),
{
    m.write(page, CONTROL_HLT, 0);
}

/// What a wake-up of a core comes to, and the machine after it.
pub open spec fn woken(s: MachineState, ex: ExclusiveView, id: int) -> (MachineState, WakeStep) {
    let page = ex.control[id];
    if ex.vmsa_phys[id] == 0 || page == 0 || s.rd(page, 1) == 0 {
        (s, WakeStep::Refused)
    } else {
        match posted(s, page, LOOP_WAKEUP) {
            None => (s, WakeStep::Retry),
            Some(t) => (
                t,
                WakeStep::Run {
                    vmsa: ex.vmsa_phys[id],
                    features: ex.vmsa_feat[id],
                    cpu: id as u32,
                },
            ),
        }
    }
}

/// Wakes a core that is halted.
pub fn wakeup(ex: &ExclusiveState, m: &mut Machine, id: usize) -> (r: WakeStep)
    requires
        id < 64,
    ensures
        (final(m)@, r) == woken(old(m)@, ex@, id as int),
{
    let vmsa = ex.vmsa_phys[id];
    let features = ex.vmsa_feat[id];
    if vmsa == 0 {
        return WakeStep::Refused;
    }
    let page = ex.control[id];
    if page == 0 {
        return WakeStep::Refused;
    }
    if m.read(page, CONTROL_HLT) == 0 {
        return WakeStep::Refused;
    }
    if !post(m, page, LOOP_WAKEUP) {
        return WakeStep::Retry;
    }
    WakeStep::Run { vmsa, features, cpu: id as u32 }
}

/// The machine and the answer after a request to halt a core, and how far it
/// got.
pub open spec fn halted(s: MachineState, ex: ExclusiveView, params: RequestParams) -> (
    MachineState,
    RequestParams,
    SchedStep,
) {
    let page = ex.control[params.rcx as int];
    if params.rcx >= 64 {
        (s, process_manager::rejected(params, STATUS_BAD_ID), SchedStep::Done)
    } else if page == 0 || s.rd(page, 1) == 1 {
        (s, process_manager::rejected(params, STATUS_BAD_STATE), SchedStep::Done)
    } else {
        match posted(s, page, LOOP_SLEEP) {
            None => (s, params, SchedStep::Retry),
            Some(t) => (t, RequestParams { rcx: 0, ..params }, SchedStep::Done),
        }
    }
}

/// The machine and the answer after a request to wake a core, and how far it
/// got.
pub open spec fn awakened(s: MachineState, ex: ExclusiveView, params: RequestParams) -> (
    MachineState,
    RequestParams,
    SchedStep,
) {
    if params.rcx >= 64 {
        (s, process_manager::rejected(params, STATUS_BAD_ID), SchedStep::Done)
    } else {
        let (t, step) = woken(s, ex, params.rcx as int);
        match step {
            WakeStep::Refused => (
                t,
                process_manager::rejected(params, STATUS_BAD_STATE),
                SchedStep::Done,
            ),
            WakeStep::Retry => (t, params, SchedStep::Retry),
            WakeStep::Run { vmsa, features, cpu } => (
                t,
                RequestParams { rcx: 0, ..params },
                SchedStep::Run { vmsa, features, cpu },
            ),
        }
    }
}

/// The machine and the answer after a request for a core back, and how far it
/// got.
pub open spec fn recalled(s: MachineState, ex: ExclusiveView, params: RequestParams) -> (
    MachineState,
    RequestParams,
    SchedStep,
) {
    let page = ex.control[params.rcx as int];
    if params.rcx >= 64 {
        (s, process_manager::rejected(params, STATUS_BAD_ID), SchedStep::Done)
    } else if ex.vmsa_phys[params.rcx as int] == 0 || page == 0 {
        (s, process_manager::rejected(params, STATUS_BAD_STATE), SchedStep::Done)
    } else {
        match posted(s, page, LOOP_EXIT) {
            None => (s, params, SchedStep::Retry),
            Some(t) => (
                t,
                RequestParams { rcx: 0, ..params },
                if t.rd(page, 1) == 0 {
                    SchedStep::Done
                } else {
                    SchedStep::Wake { id: params.rcx as usize }
                },
            ),
        }
    }
}

/// Halts a core. Refused where there is no such core, where it was not
/// given to the monitor and where it is halted already.
pub fn run_sleep(ex: &ExclusiveState, m: &mut Machine, params: &mut RequestParams) -> (r: SchedStep)
    ensures
        (final(m)@, *final(params), r) == halted(old(m)@, ex@, *old(params)),
{
    if params.rcx >= 64 {
        let _ = reject(params, STATUS_BAD_ID);
        return SchedStep::Done;
    }
    let page = ex.control[params.rcx as usize];
    if page == 0 {
        let _ = reject(params, STATUS_BAD_STATE);
        return SchedStep::Done;
    }
    if m.read(page, CONTROL_HLT) == 1 {
        let _ = reject(params, STATUS_BAD_STATE);
        return SchedStep::Done;
    }
    if !post(m, page, LOOP_SLEEP) {
        return SchedStep::Retry;
    }
    params.rcx = 0;
    SchedStep::Done
}

/// Wakes a core. Refused where there is no such core and where it cannot
/// be woken.
pub fn run_wakeup(ex: &ExclusiveState, m: &mut Machine, params: &mut RequestParams) -> (r: SchedStep)
    ensures
        (final(m)@, *final(params), r) == awakened(old(m)@, ex@, *old(params)),
{
    if params.rcx >= 64 {
        let _ = reject(params, STATUS_BAD_ID);
        return SchedStep::Done;
    }
    match wakeup(ex, m, params.rcx as usize) {
        WakeStep::Refused => {
            let _ = reject(params, STATUS_BAD_STATE);
            SchedStep::Done
        },
        WakeStep::Retry => SchedStep::Retry,
        WakeStep::Run { vmsa, features, cpu } => {
            params.rcx = 0;
            SchedStep::Run { vmsa, features, cpu }
        },
    }
}

/// Asks for a core back. Refused where there is no such core and where it
/// was not given to the monitor. A core that is halted has to be woken
/// afterwards.
pub fn run_exit(ex: &ExclusiveState, m: &mut Machine, params: &mut RequestParams) -> (r: SchedStep)
    ensures
        (final(m)@, *final(params), r) == recalled(old(m)@, ex@, *old(params)),
{
    if params.rcx >= 64 {
        let _ = reject(params, STATUS_BAD_ID);
        return SchedStep::Done;
    }
    let id = params.rcx as usize;
    if ex.vmsa_phys[id] == 0 {
        let _ = reject(params, STATUS_BAD_STATE);
        return SchedStep::Done;
    }
    let page = ex.control[id];
    if page == 0 {
        let _ = reject(params, STATUS_BAD_STATE);
        return SchedStep::Done;
    }
    if !post(m, page, LOOP_EXIT) {
        return SchedStep::Retry;
    }
    params.rcx = 0;
    if m.read(page, CONTROL_HLT) == 0 {
        SchedStep::Done
    } else {
        SchedStep::Wake { id }
    }
}

/// Whether a core can take a command: it is with the monitor, and has taken the
/// last one.
pub open spec fn can_take(s: MachineState, ex: ExclusiveView, id: int) -> bool {
    0 <= id < 64 && ex.control[id] != 0 && s.rd(ex.control[id], 0) == LOOP_CLEAR
}

/// Whether nothing of the machine was changed but the command of a core.
pub open spec fn only_commands(s: MachineState, t: MachineState, page: u64) -> bool {
    &&& t == (MachineState { mem: t.mem, ..s })
    &&& t.mem.len() == s.mem.len()
    &&& forall|pa: u64, i: int|
        pa % 4096 == 0 && 0 <= i < 512 && (pa != page || i != 0) ==> #[trigger] t.rd(pa, i) == s.rd(
            pa,
            i,
        )
}

proof fn lemma_posted(s: MachineState, page: u64, cmd: u64)
    requires
        page % 4096 == 0,
        page as int / 8 + 512 <= s.mem.len(),
        s.rd(page, 0) == LOOP_CLEAR,
    ensures
        ({
            let t = s.wr(page, 0, cmd);
            &&& posted(s, page, cmd) == Some(t)
            &&& t.rd(page, 0) == cmd
            &&& t.rd(page, 1) == s.rd(page, 1)
            &&& only_commands(s, t, page)
        }),
{
    slots::lemma_word_written(s, page, 0, cmd);
}

/// Commands reach the core that they name, and it obeys them. A core that runs
/// and was told to sleep halts when it looks next; one that was asked for back
/// leaves when it looks next, and has to be woken if it is halted. A core that
/// is halted and is woken goes on, and is run with the state page that it came
/// with.
pub proof fn law_commands_are_obeyed(s: MachineState, ex: ExclusiveView, params: RequestParams)
    requires
        can_take(s, ex, params.rcx as int),
        ex.control[params.rcx as int] % 4096 == 0,
        ex.control[params.rcx as int] as int / 8 + 512 <= s.mem.len(),
    ensures
        ({
            let id = params.rcx as int;
            let page = ex.control[id];
            let (t, answer, step) = halted(s, ex, params);
            s.rd(page, 1) == 0 ==> {
                &&& exclusive_loop::commanded(t.rd(page, 0)) == ExclusiveAction::Sleep
                &&& t.rd(page, 0) != LOOP_CLEAR
                &&& only_commands(s, t, page)
                &&& answer.rcx == 0
                &&& step == SchedStep::Done
            }
        }),
        ({
            let id = params.rcx as int;
            let page = ex.control[id];
            let (t, answer, step) = recalled(s, ex, params);
            ex.vmsa_phys[id] != 0 ==> {
                &&& exclusive_loop::commanded(t.rd(page, 0)) == ExclusiveAction::Exit
                &&& t.rd(page, 0) != LOOP_CLEAR
                &&& only_commands(s, t, page)
                &&& answer.rcx == 0
                &&& s.rd(page, 1) == 0 ==> step == SchedStep::Done
                &&& s.rd(page, 1) != 0 ==> step == SchedStep::Wake { id: id as usize }
            }
        }),
        ({
            let id = params.rcx as int;
            let page = ex.control[id];
            let (t, answer, step) = awakened(s, ex, params);
            s.rd(page, 1) != 0 && ex.vmsa_phys[id] != 0 ==> {
                &&& t.rd(page, 0) == LOOP_WAKEUP
                &&& only_commands(s, t, page)
                &&& answer.rcx == 0
                &&& step == SchedStep::Run {
                    vmsa: ex.vmsa_phys[id],
                    features: ex.vmsa_feat[id],
                    cpu: id as u32,
                }
            }
        }),
{
    let page = ex.control[params.rcx as int];
    lemma_posted(s, page, LOOP_SLEEP);
    lemma_posted(s, page, LOOP_EXIT);
    lemma_posted(s, page, LOOP_WAKEUP);
}

/// A command that cannot be given changes nothing. It is refused where there is
/// no such core, where the core is not with the monitor, where a core that is
/// halted is told to sleep and where one that runs is woken; it has to be given
/// again where the core has not taken the last one yet.
pub proof fn law_refused_commands_change_nothing(
    s: MachineState,
    ex: ExclusiveView,
    params: RequestParams,
)
    requires
        !can_take(s, ex, params.rcx as int) || s.rd(ex.control[params.rcx as int], 1) == 1,
    ensures
        halted(s, ex, params).0 == s,
        !can_take(s, ex, params.rcx as int) ==> awakened(s, ex, params).0 == s && recalled(
            s,
            ex,
            params,
        ).0 == s,
        params.rcx >= 64 || ex.control[params.rcx as int] == 0 ==> {
            &&& halted(s, ex, params).1.rcx >= 0x8000_0000_0000_0000
            &&& awakened(s, ex, params).1.rcx >= 0x8000_0000_0000_0000
            &&& recalled(s, ex, params).1.rcx >= 0x8000_0000_0000_0000
        },
        params.rcx < 64 && s.rd(ex.control[params.rcx as int], 1) == 1 ==> halted(
            s,
            ex,
            params,
        ).1.rcx >= 0x8000_0000_0000_0000,
        params.rcx < 64 && ex.control[params.rcx as int] != 0 && s.rd(
            ex.control[params.rcx as int],
            0,
        ) != LOOP_CLEAR && s.rd(ex.control[params.rcx as int], 1) == 0 ==> halted(s, ex, params) == (
            s,
            params,
            SchedStep::Retry,
        ),
{
}

} // verus!
