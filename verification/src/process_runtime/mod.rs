//! Runs processes and serves their calls.
use vstd::prelude::*;
use crate::address;
use crate::address::status_to_word;
use crate::cpu::vmsa::Vmsa;
use crate::gpu::direct;
use crate::gpu::direct::{free_engine_slot, GpuState, GpuView};
use crate::process_manager::process::{ProcessID, TrustedProcess, TrustedProcessType};
use crate::utils::tsc;
use crate::utils::tsc::ticks_for_secs;

pub mod arrival;
pub mod channels;
pub mod early_invoke;
pub mod invoke;
pub mod process;
pub mod resumption;
pub mod runtime;

verus! {

/// Where a call leads: on with the process, or back to the guest.
pub type ReturnTarget = bool;

pub const RETURN_TO_GUEST: bool = false;

pub const RETURN_TO_PROCESS: bool = true;

/// Seconds that a process may take for one request.
pub const INVOKE_BUDGET_SECS: u64 = 600;

/// Seconds between two reports of a core on requests that take too long.
pub const REPORT_SECS: u64 = 10;

/// What the guest is told when a process stops running.
#[derive(Clone, Copy, PartialEq, Eq, Structural, Debug)]
pub enum TrustletReturnType {
    EXIT,
    GETRESULT,
    ERROR,
    FILEATTR,
    OPEN,
    READ,
    MMAP,
    INFERENCEREGISTER,
    INFERENCE,
}

impl TrustletReturnType {
    pub open spec fn number(self) -> u64 {
        match self {
            TrustletReturnType::EXIT => 0,
            TrustletReturnType::GETRESULT => 1,
            TrustletReturnType::ERROR => 2,
            TrustletReturnType::FILEATTR => 3,
            TrustletReturnType::OPEN => 4,
            TrustletReturnType::READ => 5,
            TrustletReturnType::MMAP => 6,
            TrustletReturnType::INFERENCEREGISTER => 12,
            TrustletReturnType::INFERENCE => 13,
        }
    }

    /// The number that stands for it.
    pub fn code(&self) -> (r: u64)
        ensures
            r == self.number(),
    {
        match self {
            TrustletReturnType::EXIT => 0,
            TrustletReturnType::GETRESULT => 1,
            TrustletReturnType::ERROR => 2,
            TrustletReturnType::FILEATTR => 3,
            TrustletReturnType::OPEN => 4,
            TrustletReturnType::READ => 5,
            TrustletReturnType::MMAP => 6,
            TrustletReturnType::INFERENCEREGISTER => 12,
            TrustletReturnType::INFERENCE => 13,
        }
    }
}

/// The registers that the guest gets back.
#[derive(Clone, Copy, PartialEq, Eq, Structural, Debug)]
pub struct ReturnValues {
    pub rcx: u64,
    pub rdx: u64,
    pub r8: u64,
    pub r9: u64,
}

impl ReturnValues {
    pub fn result(&mut self, v: u64)
        ensures
            *final(self) == (ReturnValues { rcx: v, ..*old(self) }),
    {
        self.set_rcx(v);
    }

    pub fn set_rcx(&mut self, v: u64)
        ensures
            *final(self) == (ReturnValues { rcx: v, ..*old(self) }),
    {
        self.rcx = v;
    }

    pub fn set_rdx(&mut self, v: u64)
        ensures
            *final(self) == (ReturnValues { rdx: v, ..*old(self) }),
    {
        self.rdx = v;
    }

    pub fn set_r8(&mut self, v: u64)
        ensures
            *final(self) == (ReturnValues { r8: v, ..*old(self) }),
    {
        self.r8 = v;
    }

    pub fn set_r9(&mut self, v: u64)
        ensures
            *final(self) == (ReturnValues { r9: v, ..*old(self) }),
    {
        self.r9 = v;
    }
}

/// A message that a process has printed.
#[derive(Clone, Copy, Debug)]
pub struct PrintedMessage {
    pub text: [u8; 256],
    /// Whether the message goes on.
    pub partial: bool,
}

/// A process that is being run.
#[derive(Debug)]
pub struct PALContext {
    /// The process.
    pub process: ProcessID,
    /// Its registers.
    pub vmsa: Vmsa,
    /// The message that it is printing, and how far it got.
    pub string_buf: [u8; 256],
    pub string_pos: usize,
    /// The messages that it has printed.
    pub printed: Vec<PrintedMessage>,
    /// Where the guest wants the result, and how much of it.
    pub result_addr: u64,
    pub result_size: u64,
    /// The root table of the guest.
    pub guest_page_table: u64,
    /// Where the guest takes requests of the process.
    pub invocation_arg_guest_vaddr: u64,
    pub invocation_arg_size: u64,
    /// Whether another process called this one. There is no guest that waits
    /// for a result then.
    pub nested_call: bool,
    pub return_values: ReturnValues,
}

impl PALContext {
    /// The context after the guest was told why the process stopped.
    pub open spec fn returning(self, why: TrustletReturnType) -> PALContext {
        PALContext {
            return_values: ReturnValues { rcx: why.number(), ..self.return_values },
            ..self
        }
    }

    /// The context after a register of the process was changed.
    pub open spec fn with_rcx(self, v: u64) -> PALContext {
        PALContext { vmsa: Vmsa { rcx: v, ..self.vmsa }, ..self }
    }

    /// The context after a call was answered with -1.
    pub open spec fn refused(self) -> PALContext {
        self.with_rcx(address::status_word(-1i64))
    }

    /// Answers a call with -1.
    pub(crate) fn refuse(&mut self) -> (r: ReturnTarget)
        ensures
            r == RETURN_TO_PROCESS,
            *final(self) == old(self).refused(),
    {
        self.vmsa.rcx = status_to_word(-1);
        RETURN_TO_PROCESS
    }

    /// A process that is about to run, without anything for the guest.
    pub fn new(process: ProcessID, vmsa: Vmsa, nested_call: bool) -> (r: PALContext)
        ensures
            r.is_fresh(process, vmsa, nested_call),
    {
        let string_buf = [0u8; 256];
        assert(string_buf@ =~= Seq::new(256, |i: int| 0u8));
        PALContext {
            process,
            vmsa,
            string_buf,
            string_pos: 0,
            printed: Vec::new(),
            result_addr: 0,
            result_size: 0,
            guest_page_table: 0,
            invocation_arg_guest_vaddr: 0,
            invocation_arg_size: 0,
            nested_call,
            return_values: ReturnValues { rcx: 0, rdx: 0, r8: 0, r9: 0 },
        }
    }

    /// Whether this is a process that is about to run, without anything for
    /// the guest.
    pub open spec fn is_fresh(self, process: ProcessID, vmsa: Vmsa, nested_call: bool) -> bool {
        &&& self.process == process
        &&& self.vmsa == vmsa
        &&& self.string_buf@ == Seq::new(256, |i: int| 0u8)
        &&& self.string_pos == 0
        &&& self.printed@.len() == 0
        &&& self.result_addr == 0
        &&& self.result_size == 0
        &&& self.guest_page_table == 0
        &&& self.invocation_arg_guest_vaddr == 0
        &&& self.invocation_arg_size == 0
        &&& self.nested_call == nested_call
        &&& self.return_values == (ReturnValues { rcx: 0, rdx: 0, r8: 0, r9: 0 })
    }
}

/// A process that has ended: nothing polls for it any more.
pub open spec fn died(p: TrustedProcess) -> TrustedProcess {
    TrustedProcess {
        dead: true,
        gpu_core: if p.gpu_core >= 0 {
            -1i64
        } else {
            p.gpu_core
        },
        ..p
    }
}

/// The engines after a process has ended.
pub open spec fn engine_freed(g: GpuView, p: TrustedProcess) -> GpuView {
    direct::slot_freed(g, p.gpu_core as int)
}

/// Marks a process as ended for good, and frees the engine that polls for it.
pub fn mark_dead(p: &mut TrustedProcess, gpu: &mut GpuState)
    ensures
        *final(p) == died(*old(p)),
        final(gpu)@ == engine_freed(old(gpu)@, *old(p)),
        old(gpu)@.wf() ==> final(gpu)@.wf(),
{
    p.dead = true;
    if p.gpu_core >= 0 {
        if p.gpu_core < 64 {
            free_engine_slot(gpu, p.gpu_core as usize);
        }
        p.gpu_core = -1;
    }
}

/// Whether a process takes too long for a request.
pub open spec fn over_budget(p: TrustedProcess, now: u64) -> bool {
    &&& p.process_type == TrustedProcessType::Trustlet
    &&& p.running
    &&& p.invoke_start_tsc != 0
    &&& now.wrapping_sub(p.invoke_start_tsc) > tsc::saturated(tsc::TSC_HZ * INVOKE_BUDGET_SECS)
}

/// The places of the processes among the first `n` that take too long.
pub open spec fn late_processes(s: Seq<TrustedProcess>, now: u64, n: nat) -> Seq<usize>
    decreases n,
{
    if n == 0 {
        Seq::empty()
    } else if over_budget(s[n - 1], now) {
        late_processes(s, now, (n - 1) as nat).push((n - 1) as usize)
    } else {
        late_processes(s, now, (n - 1) as nat)
    }
}

/// What takes too long is named, in order and once, and nothing else is: neither
/// a process that waits for its next request, nor one that is no trustlet.
pub proof fn law_only_late_processes_are_named(s: Seq<TrustedProcess>, now: u64, n: nat)
    requires
        n <= s.len(),
        s.len() <= usize::MAX,
    ensures
        forall|i: int|
            0 <= i < n ==> #[trigger] over_budget(s[i], now) == late_processes(s, now, n).contains(
                i as usize,
            ),
        forall|k: int|
            0 <= k < late_processes(s, now, n).len() ==> (#[trigger] late_processes(s, now, n)[k])
                < n && over_budget(s[late_processes(s, now, n)[k] as int], now),
        forall|j: int, k: int|
            0 <= j < k < late_processes(s, now, n).len() ==> late_processes(s, now, n)[j]
                < late_processes(s, now, n)[k],
    decreases n,
{
    if n > 0 {
        let m = (n - 1) as nat;
        law_only_late_processes_are_named(s, now, m);
        let before = late_processes(s, now, m);
        let late = late_processes(s, now, n);
        assert forall|i: int| 0 <= i < n implies #[trigger] over_budget(s[i], now)
            == late.contains(i as usize) by {
            if i < m {
                assert(over_budget(s[i], now) == before.contains(i as usize));
                if before.contains(i as usize) {
                    let k = choose|k: int| 0 <= k < before.len() && before[k] == i as usize;
                    assert(late[k] == i as usize);
                }
                if late.contains(i as usize) {
                    let k = choose|k: int| 0 <= k < late.len() && late[k] == i as usize;
                    assert(before[k] == i as usize);
                }
            } else {
                if over_budget(s[i], now) {
                    assert(late[late.len() - 1] == i as usize);
                }
                if late.contains(i as usize) && !over_budget(s[i], now) {
                    let k = choose|k: int| 0 <= k < late.len() && late[k] == i as usize;
                    assert(before[k] < m);
                }
            }
        }
    }
}

/// Looks for processes that take too long. `last` is when the core looked
/// last; it looks again only some time later. Gives the time of this look and
/// the places of the processes; none where it did not look.
pub fn log_overbudget_invokes(
    processes: &Vec<TrustedProcess>,
    scanning_core: usize,
    now: u64,
    last: u64,
) -> (r: Option<(u64, Vec<usize>)>)
    ensures
        match r {
            None => scanning_core >= 64 || now.wrapping_sub(last) < tsc::saturated(
                tsc::TSC_HZ * REPORT_SECS,
            ),
            Some((at, late)) => scanning_core < 64 && now.wrapping_sub(last) >= tsc::saturated(
                tsc::TSC_HZ * REPORT_SECS,
            ) && at == now && late@ == late_processes(processes@, now, processes@.len()),
        },
{
    if scanning_core >= 64 {
        return None;
    }
    if now.wrapping_sub(last) < ticks_for_secs(REPORT_SECS) {
        return None;
    }
    let budget = ticks_for_secs(INVOKE_BUDGET_SECS);
    let mut late: Vec<usize> = Vec::new();
    let mut i: usize = 0;
    while i < processes.len()
        invariant
            i <= processes.len(),
            budget == tsc::saturated(tsc::TSC_HZ * INVOKE_BUDGET_SECS),
            late@ == late_processes(processes@, now, i as nat),
        decreases processes.len() - i,
    {
        let p = &processes[i];
        if p.process_type == TrustedProcessType::Trustlet && p.running && p.invoke_start_tsc != 0
            && now.wrapping_sub(p.invoke_start_tsc) > budget {
            late.push(i);
        }
        i = i + 1;
    }
    Some((now, late))
}

} // verus!
