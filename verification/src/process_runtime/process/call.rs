//! Calls from one process to another.
use vstd::prelude::*;
use crate::address;
use crate::address::{status_to_word, PhysAddr};
use crate::gpu::direct::GpuState;
use crate::process_manager::process::{
    ProcessID, TrustedProcess, TrustedProcessStore, TrustedProcessType,
};
use crate::process_runtime;
use crate::process_runtime::{
    mark_dead, PALContext, ReturnTarget, INVOKE_BUDGET_SECS, RETURN_TO_PROCESS,
};
use crate::utils::tsc;
use crate::utils::tsc::ticks_for_secs;

verus! {

/// Calls that can be under way within each other.
pub const MAX_CALL_DEPTH: usize = 4;

/// There is no such process, or it cannot be run.
pub const CALL_UNKNOWN: i64 = -1;

/// A process called itself.
pub const CALL_SELF: i64 = -2;

/// Too many calls are under way within each other.
pub const CALL_TOO_DEEP: i64 = -3;

/// The process is being called already.
pub const CALL_CYCLE: i64 = -4;

/// The process took too long and has ended for good.
pub const CALL_OVER_BUDGET: i64 = -5;

/// The processes that are being called, the outermost first.
#[derive(Debug)]
pub struct CallStack {
    pub stack: Vec<u64>,
}

impl View for CallStack {
    type V = Seq<u64>;

    open spec fn view(&self) -> Seq<u64> {
        self.stack@
    }
}

/// Whether calls are ones that can be under way: not too many, and no process
/// is called twice.
pub open spec fn calls_wf(s: Seq<u64>) -> bool {
    &&& s.len() <= MAX_CALL_DEPTH
    &&& forall|i: int, j: int| 0 <= i < j < s.len() ==> s[i] != s[j]
}

/// Whether a process can be run.
pub open spec fn can_run(p: TrustedProcess) -> bool {
    p.process_type == TrustedProcessType::Trustlet && !p.dead && !p.running
}

/// Why a call is refused; none where it is made.
pub open spec fn call_refusal(
    calls: Seq<u64>,
    processes: Seq<TrustedProcess>,
    caller_id: u64,
    callee_id: u64,
) -> Option<i64> {
    if callee_id == caller_id {
        Some(CALL_SELF)
    } else if callee_id >= processes.len() || !can_run(processes[callee_id as int]) {
        Some(CALL_UNKNOWN)
    } else if calls.len() >= MAX_CALL_DEPTH {
        Some(CALL_TOO_DEEP)
    } else if calls.contains(callee_id) {
        Some(CALL_CYCLE)
    } else {
        None
    }
}

/// A call that is about to be made.
#[derive(Clone, Copy, PartialEq, Eq, Structural, Debug)]
pub struct NestedCall {
    pub callee: ProcessID,
    /// The state page of the callee, to be registered with the features.
    pub vmsa: PhysAddr,
    pub sev_features: u64,
}

/// A process while a core runs it.
pub open spec fn entered(p: TrustedProcess, apic_id: u32, now: u64) -> TrustedProcess {
    TrustedProcess {
        running: true,
        invoke_owner_apic: apic_id,
        invoke_start_tsc: now,
        ..p
    }
}

/// A process after a core ran it.
pub open spec fn left(p: TrustedProcess) -> TrustedProcess {
    TrustedProcess {
        running: false,
        invoke_owner_apic: u32::MAX,
        invoke_start_tsc: 0,
        ..p
    }
}

/// Whether a run that began at `start` takes too long.
pub open spec fn over_time(start: u64, now: u64) -> bool {
    now.wrapping_sub(start) > tsc::saturated(tsc::TSC_HZ * INVOKE_BUDGET_SECS)
}

impl CallStack {
    /// No calls.
    pub fn new() -> (r: CallStack)
        ensures
            r@ == Seq::<u64>::empty(),
            calls_wf(r@),
    {
        CallStack { stack: Vec::new() }
    }

    fn has(&self, id: u64) -> (r: bool)
        ensures
            r == self@.contains(id),
    {
        let mut i: usize = 0;
        while i < self.stack.len()
            invariant
                i <= self.stack.len(),
                forall|k: int| 0 <= k < i ==> self@[k] != id,
            decreases self.stack.len() - i,
        {
            if self.stack[i] == id {
                assert(self@[i as int] == id);
                return true;
            }
            i = i + 1;
        }
        false
    }
}

/// Begins a call of `callee_id` by a process. Refused where the process calls
/// itself, where there is no such process or it cannot be run, where too many
/// calls are under way and where the callee is being called already.
pub fn run_nested(
    calls: &mut CallStack,
    processes: &TrustedProcessStore,
    caller_id: u64,
    callee_id: u64,
) -> (r: Result<NestedCall, i64>)
    ensures
        match call_refusal(old(calls)@, processes@, caller_id, callee_id) {
            Some(status) => r == Err::<NestedCall, i64>(status) && final(calls)@ == old(calls)@,
            None => {
                let p = processes@[callee_id as int];
                &&& r == Ok::<NestedCall, i64>(
                    NestedCall {
                        callee: ProcessID(callee_id as usize),
                        vmsa: p.context.vmsa,
                        sev_features: p.context.sev_features,
                    },
                )
                &&& final(calls)@ == old(calls)@.push(callee_id)
                &&& callee_id <= usize::MAX
            },
        },
        calls_wf(old(calls)@) ==> calls_wf(final(calls)@),
{
    if callee_id == caller_id {
        return Err(CALL_SELF);
    }
    if callee_id >= processes.len() as u64 {
        return Err(CALL_UNKNOWN);
    }
    let callee = processes.peek(ProcessID(callee_id as usize));
    if callee.process_type != TrustedProcessType::Trustlet {
        return Err(CALL_UNKNOWN);
    }
    if callee.dead {
        return Err(CALL_UNKNOWN);
    }
    if callee.running {
        return Err(CALL_UNKNOWN);
    }
    if calls.stack.len() >= MAX_CALL_DEPTH {
        return Err(CALL_TOO_DEEP);
    }
    if calls.has(callee_id) {
        return Err(CALL_CYCLE);
    }
    calls.stack.push(callee_id);
    Ok(
        NestedCall {
            callee: ProcessID(callee_id as usize),
            vmsa: callee.context.vmsa,
            sev_features: callee.context.sev_features,
        },
    )
}

/// Gives up a call whose state page could not be registered.
pub fn nested_abort(calls: &mut CallStack) -> (r: i64)
    requires
        old(calls)@.len() > 0,
    ensures
        r == CALL_UNKNOWN,
        final(calls)@ == old(calls)@.drop_last(),
{
    let _ = calls.stack.pop();
    CALL_UNKNOWN
}

/// Takes note that a core runs a process from now on.
pub fn nested_enter(p: &mut TrustedProcess, apic_id: u32, now: u64)
    ensures
        *final(p) == entered(*old(p), apic_id, now),
{
    p.invoke_owner_apic = apic_id;
    p.invoke_start_tsc = now;
    p.running = true;
}

/// Looks after a process whose call was served: gives the status of its run
/// where that is over, because the process does not go on or because it took
/// too long.
pub fn nested_step(
    p: &mut TrustedProcess,
    gpu: &mut GpuState,
    goes_on: ReturnTarget,
    start: u64,
    now: u64,
) -> (r: Option<i64>)
    ensures
        ({
            let served = TrustedProcess { in_pcall: false, ..*old(p) };
            if goes_on != RETURN_TO_PROCESS {
                r == Some(0i64) && *final(p) == served && final(gpu)@ == old(gpu)@
            } else if over_time(start, now) {
                r == Some(CALL_OVER_BUDGET) && *final(p) == process_runtime::died(served)
                    && final(gpu)@ == process_runtime::engine_freed(old(gpu)@, served)
            } else {
                r is None && *final(p) == served && final(gpu)@ == old(gpu)@
            }
        }),
        old(gpu)@.wf() ==> final(gpu)@.wf(),
{
    p.in_pcall = false;
    if goes_on != RETURN_TO_PROCESS {
        return Some(0);
    }
    if now.wrapping_sub(start) > ticks_for_secs(INVOKE_BUDGET_SECS) {
        mark_dead(p, gpu);
        return Some(CALL_OVER_BUDGET);
    }
    None
}

/// Ends the run of a process that was called.
pub fn nested_end(calls: &mut CallStack, p: &mut TrustedProcess)
    requires
        old(calls)@.len() > 0,
    ensures
        *final(p) == left(*old(p)),
        final(calls)@ == old(calls)@.drop_last(),
{
    p.running = false;
    p.invoke_start_tsc = 0;
    p.invoke_owner_apic = u32::MAX;
    let _ = calls.stack.pop();
}

/// Calls other processes.
pub trait ProcessRuntimeCall {
    fn pal_call_trustlet(
        &mut self,
        calls: &mut CallStack,
        processes: &TrustedProcessStore,
        caller_id: u64,
    ) -> Result<NestedCall, ReturnTarget>;

    fn call_answered(&mut self, status: i64) -> ReturnTarget;
}

impl ProcessRuntimeCall for PALContext {
    /// Begins a call of the process that `rbx` names. Where it is refused, the
    /// answer is why.
    fn pal_call_trustlet(
        &mut self,
        calls: &mut CallStack,
        processes: &TrustedProcessStore,
        caller_id: u64,
    ) -> (r: Result<NestedCall, ReturnTarget>)
        ensures
            match call_refusal(old(calls)@, processes@, caller_id, old(self).vmsa.rbx) {
                Some(status) => {
                    &&& r == Err::<NestedCall, ReturnTarget>(RETURN_TO_PROCESS)
                    &&& *final(self) == old(self).with_rcx(address::status_word(status))
                    &&& final(calls)@ == old(calls)@
                },
                None => {
                    let p = processes@[old(self).vmsa.rbx as int];
                    &&& r == Ok::<NestedCall, ReturnTarget>(
                        NestedCall {
                            callee: ProcessID(old(self).vmsa.rbx as usize),
                            vmsa: p.context.vmsa,
                            sev_features: p.context.sev_features,
                        },
                    )
                    &&& *final(self) == *old(self)
                    &&& final(calls)@ == old(calls)@.push(old(self).vmsa.rbx)
                },
            },
            calls_wf(old(calls)@) ==> calls_wf(final(calls)@),
    {
        match run_nested(calls, processes, caller_id, self.vmsa.rbx) {
            Ok(call) => Ok(call),
            Err(status) => Err(self.call_answered(status)),
        }
    }

    /// Answers a call with the status of the run of the callee.
    fn call_answered(&mut self, status: i64) -> (r: ReturnTarget)
        ensures
            r == RETURN_TO_PROCESS,
            *final(self) == old(self).with_rcx(address::status_word(status)),
    {
        self.vmsa.rcx = status_to_word(status);
        RETURN_TO_PROCESS
    }
}

/// No process is called by itself, through however many others: calls that
/// lead back to a process that is being called are refused, and so are calls
/// of a process that a core is running.
pub proof fn law_no_process_is_entered_twice(
    calls: Seq<u64>,
    processes: Seq<TrustedProcess>,
    caller_id: u64,
    callee_id: u64,
)
    requires
        callee_id < processes.len(),
    ensures
        calls.contains(callee_id) || callee_id == caller_id || processes[callee_id as int].running
            || processes[callee_id as int].dead ==> call_refusal(
            calls,
            processes,
            caller_id,
            callee_id,
        ) is Some,
{
}

/// A call that was made leaves no trace on the calls that are under way.
pub proof fn law_calls_nest(calls: Seq<u64>, callee_id: u64)
    ensures
        calls.push(callee_id).drop_last() == calls,
{
    assert(calls.push(callee_id).drop_last() =~= calls);
}

/// Calls within each other end: none is made when as many as can be are under
/// way.
pub proof fn law_calls_are_bounded(
    calls: Seq<u64>,
    processes: Seq<TrustedProcess>,
    caller_id: u64,
    callee_id: u64,
)
    requires
        calls_wf(calls),
        call_refusal(calls, processes, caller_id, callee_id) is None,
    ensures
        calls_wf(calls.push(callee_id)),
        calls.len() < MAX_CALL_DEPTH,
{
    let s = calls.push(callee_id);
    assert forall|i: int, j: int| 0 <= i < j < s.len() implies s[i] != s[j] by {
        if j == calls.len() {
            assert(s[i] == calls[i]);
        }
    }
}

/// A process that was run is as it was before, but for what its calls did to
/// it.
pub proof fn law_run_leaves_no_owner(p: TrustedProcess, apic_id: u32, now: u64)
    requires
        !p.running,
        p.invoke_owner_apic == u32::MAX,
        p.invoke_start_tsc == 0,
    ensures
        left(entered(p, apic_id, now)) == p,
{
}

/// A process takes too long for a request exactly when its run would be ended for
/// it: the processes that are reported are those that are ended when they make
/// their next call. None takes too long at once, and one that does still does a
/// moment later.
pub proof fn law_late_processes_are_ended(p: TrustedProcess, apic_id: u32, start: u64, now: u64)
    requires
        p.process_type == TrustedProcessType::Trustlet,
        0 < start <= now,
    ensures
        process_runtime::over_budget(entered(p, apic_id, start), now) == over_time(start, now),
        !process_runtime::over_budget(left(p), now),
        !over_time(start, start),
        forall|later: u64|
            now <= later && over_time(start, now) ==> #[trigger] over_time(start, later),
        over_time(start, now) ==> now - start > 600 * tsc::TSC_HZ || now - start == u64::MAX,
        now - start > 600 * tsc::TSC_HZ && 600 * tsc::TSC_HZ <= u64::MAX ==> over_time(start, now),
{
}

/// A call is made exactly when the callee is another process, is there and can
/// be run, and neither too many calls nor one of the callee are under way. A
/// process that calls itself is told so first.
pub proof fn law_calls_are_made_when_they_can_be(
    calls: Seq<u64>,
    processes: Seq<TrustedProcess>,
    caller_id: u64,
    callee_id: u64,
)
    ensures
        ({
            let r = call_refusal(calls, processes, caller_id, callee_id);
            let there = callee_id < processes.len() && processes[callee_id as int].process_type
                == TrustedProcessType::Trustlet && !processes[callee_id as int].dead
                && !processes[callee_id as int].running;
            &&& r is None <==> callee_id != caller_id && there && calls.len() < MAX_CALL_DEPTH
                && !calls.contains(callee_id)
            &&& callee_id == caller_id <==> r == Some(CALL_SELF)
            &&& r == Some(CALL_TOO_DEEP) ==> there && calls.len() >= MAX_CALL_DEPTH
            &&& r == Some(CALL_CYCLE) ==> there && calls.contains(callee_id)
            &&& callee_id != caller_id && !there <==> r == Some(CALL_UNKNOWN)
            &&& r matches Some(status) ==> status < 0 && status != CALL_OVER_BUDGET
        }),
{
}

} // verus!
