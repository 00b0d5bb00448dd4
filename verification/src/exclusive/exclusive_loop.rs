//! What a core does while it is with the monitor.
use vstd::prelude::*;
use crate::address::PhysAddr;
use crate::exclusive::{
    ExclusiveState, ExclusiveView, CONTROL_HLT, CONTROL_NEXT, LOOP_CLEAR, LOOP_EXIT, LOOP_SLEEP,
    LOOP_WAKEUP,
};
use crate::gpu::direct::{engine_registered, engine_slot_owes_stop, GpuState};
use crate::memory::machine::Machine;
use crate::process_manager::process_memory::{allocate_page, free_page};

verus! {

/// What a core does next.
#[derive(Clone, Copy, PartialEq, Eq, Structural, Debug)]
pub enum ExclusiveAction {
    /// Go back to the guest.
    Exit,
    /// Halt until it is woken.
    Sleep,
    /// Look again.
    Continue,
    /// Leave any load that it works for, and poll the engine of the core.
    PollEngine,
    /// Look for requests that take too long, and work for a load.
    Work,
}

/// What a command asks of a core.
pub open spec fn commanded(cmd: u64) -> ExclusiveAction {
    if cmd == LOOP_EXIT {
        ExclusiveAction::Exit
    } else if cmd == LOOP_SLEEP {
        ExclusiveAction::Sleep
    } else {
        ExclusiveAction::Continue
    }
}

/// What a command asks of a core.
pub fn handle_command(cmd: u64) -> (r: ExclusiveAction)
    ensures
        r == commanded(cmd),
{
    if cmd == LOOP_EXIT {
        ExclusiveAction::Exit
    } else if cmd == LOOP_SLEEP {
        ExclusiveAction::Sleep
    } else {
        ExclusiveAction::Continue
    }
}

/// Takes the command off a control page.
pub fn take_command(m: &mut Machine, page: PhysAddr) -> (r: u64)
    ensures
        r == old(m)@.rd(page, 0),
        final(m)@ == old(m)@.wr(page, 0, LOOP_CLEAR),
{
    let cmd = m.read(page, CONTROL_NEXT);
    m.write(page, CONTROL_NEXT, LOOP_CLEAR);
    cmd
}

/// Whether a core that was halted goes on: only after a wake-up.
pub fn sleep_is_over(m: &mut Machine, page: PhysAddr) -> (r: bool)
    ensures
        r == (old(m)@.rd(page, 0) == LOOP_WAKEUP),
        final(m)@ == old(m)@.wr(page, 0, LOOP_CLEAR),
{
    take_command(m, page) == LOOP_WAKEUP
}

/// The cores after one was taken from the guest.
pub open spec fn taken(
    ex: ExclusiveView,
    id: int,
    vmsa: u64,
    features: u64,
    page: u64,
) -> ExclusiveView {
    ExclusiveView {
        vmsa_phys: ex.vmsa_phys.update(id, vmsa),
        vmsa_feat: ex.vmsa_feat.update(id, features),
        control: ex.control.update(id, page),
        ..ex
    }
}

/// The cores after one was given back to the guest.
pub open spec fn given_back(ex: ExclusiveView, id: int) -> ExclusiveView {
    ExclusiveView {
        vmsa_phys: ex.vmsa_phys.update(id, 0),
        vmsa_feat: ex.vmsa_feat.update(id, 0),
        control: ex.control.update(id, 0),
        ..ex
    }
}

/// Takes a core from the guest: it gets a control page without a command.
/// Gives that page.
pub fn run_exclusive(
    ex: &mut ExclusiveState,
    m: &mut Machine,
    id: usize,
    vmsa: PhysAddr,
    features: u64,
) -> (r: PhysAddr)
    requires
        id < 64,
    ensures
        ({
            let (t, page) = old(m)@.take_page();
            &&& r == page
            &&& final(m)@ == t.wr(page, 0, LOOP_CLEAR).wr(page, 1, 0)
            &&& final(ex)@ == taken(old(ex)@, id as int, vmsa, features, page)
        }),
{
    let page = allocate_page(m);
    m.write(page, CONTROL_NEXT, LOOP_CLEAR);
    m.write(page, CONTROL_HLT, 0);
    ex.vmsa_phys[id] = vmsa;
    ex.vmsa_feat[id] = features;
    ex.control[id] = page;
    page
}

/// Looks for what a core has to do: a command comes first, then its
/// engine, then everything else.
pub fn exclusive_step(
    ex: &ExclusiveState,
    m: &mut Machine,
    gpu: &GpuState,
    id: usize,
    page: PhysAddr,
) -> (r: ExclusiveAction)
    ensures
        final(m)@ == old(m)@.wr(page, 0, LOOP_CLEAR),
        r == (if old(m)@.rd(page, 0) != LOOP_CLEAR {
            commanded(old(m)@.rd(page, 0))
        } else if gpu@.engaged(id as int) || gpu@.owes_stop(id as int) {
            ExclusiveAction::PollEngine
        } else {
            ExclusiveAction::Work
        }),
{
    let cmd = take_command(m, page);
    if cmd != LOOP_CLEAR {
        return handle_command(cmd);
    }
    if engine_registered(gpu, id) || engine_slot_owes_stop(gpu, id) {
        return ExclusiveAction::PollEngine;
    }
    ExclusiveAction::Work
}

/// Gives a core back to the guest; its control page goes back into the
/// pool.
pub fn leave_exclusive(ex: &mut ExclusiveState, m: &mut Machine, id: usize, page: PhysAddr)
    requires
        id < 64,
    ensures
        final(m)@ == old(m)@.release(page),
        final(ex)@ == given_back(old(ex)@, id as int),
{
    ex.control[id] = 0;
    ex.vmsa_phys[id] = 0;
    ex.vmsa_feat[id] = 0;
    free_page(m, page);
}

/// A core that was taken is known as given to the monitor until it is given
/// back, and no other core is affected.
pub proof fn law_donation(ex: ExclusiveView, id: int, page: u64, other: int)
    requires
        0 <= id < 64,
        ex.control.len() == 64,
        page != 0,
    ensures
        (ExclusiveView { control: ex.control.update(id, page), ..ex }).donated(id),
        !(ExclusiveView { control: ex.control.update(id, 0), ..ex }).donated(id),
        other != id ==> (ExclusiveView { control: ex.control.update(id, page), ..ex }).donated(other)
            == ex.donated(other),
        other != id ==> (ExclusiveView { control: ex.control.update(id, 0), ..ex }).donated(other)
            == ex.donated(other),
{
}

/// A core that was taken can be woken with the state page and the features that
/// it came with, through its own control page; one that was given back is as if
/// it had never been taken; and no other core is affected by either.
pub proof fn law_taken_core_is_given_back(
    ex: ExclusiveView,
    id: int,
    vmsa: u64,
    features: u64,
    page: u64,
)
    requires
        0 <= id < 64,
        ex.control.len() == 64,
        ex.vmsa_phys.len() == 64,
        ex.vmsa_feat.len() == 64,
        page != 0,
    ensures
        taken(ex, id, vmsa, features, page).donated(id),
        taken(ex, id, vmsa, features, page).control[id] == page,
        taken(ex, id, vmsa, features, page).vmsa_phys[id] == vmsa,
        taken(ex, id, vmsa, features, page).vmsa_feat[id] == features,
        !given_back(ex, id).donated(id),
        ex.control[id] == 0 && ex.vmsa_phys[id] == 0 && ex.vmsa_feat[id] == 0 ==> given_back(
            taken(ex, id, vmsa, features, page),
            id,
        ) == ex,
        forall|other: int|
            0 <= other < 64 && other != id ==> #[trigger] same_core(
                ex,
                taken(ex, id, vmsa, features, page),
                other,
            ) && same_core(ex, given_back(ex, id), other),
{
    if ex.control[id] == 0 && ex.vmsa_phys[id] == 0 && ex.vmsa_feat[id] == 0 {
        let t = given_back(taken(ex, id, vmsa, features, page), id);
        assert(t.control =~= ex.control);
        assert(t.vmsa_phys =~= ex.vmsa_phys);
        assert(t.vmsa_feat =~= ex.vmsa_feat);
    }
}

/// Whether what is known of a core is the same.
pub open spec fn same_core(a: ExclusiveView, b: ExclusiveView, id: int) -> bool {
    &&& a.control[id] == b.control[id]
    &&& a.vmsa_phys[id] == b.vmsa_phys[id]
    &&& a.vmsa_feat[id] == b.vmsa_feat[id]
}

} // verus!
