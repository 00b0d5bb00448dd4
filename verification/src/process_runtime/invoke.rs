//! Runs processes for the guest.
use vstd::prelude::*;
use crate::address::PhysAddr;
use crate::cpu::vmsa::Vmsa;
use crate::gpu::direct::GpuState;
use crate::memory::machine::{Machine, MachineState};
use crate::process_manager::allocation;
use crate::process_manager::memory_channels;
use crate::process_manager::memory_channels::{
    MemoryChannel, INPUT_VADDR, MAX_CHANNEL_SIZE, OUTPUT_VADDR,
};
use crate::process_manager::process::{
    ProcessID, ProcessMeasurements, TrustedProcess, TrustedProcessStore, TrustedProcessType,
};
use crate::process_manager::process_memory::allocate_page;
use crate::process_manager::process_paging::entry::ProcessPageFlags;
use crate::process_manager::process_paging::guest_copy;
use crate::process_manager::process_paging::mapping;
use crate::process_manager::process_paging::walk;
use crate::process_manager::process_paging::walk::{read_mounted_page, ProcessPageTableRef};
use crate::process_runtime;
use crate::process_runtime::process::call;
use crate::process_runtime::process::call::{nested_enter, nested_step};
use crate::process_runtime::process::channel;
use crate::process_runtime::process::request;
use crate::process_runtime::process::request::copy_bytes;
use crate::process_runtime::{PALContext, ReturnTarget, ReturnValues, TrustletReturnType};
use crate::sev::utils::VMPL1_RWX;
use crate::RequestParams;

verus! {

/// Why the guest runs a process: with a new input, or to go on after a request
/// of the process was done.
#[derive(Clone, Copy, PartialEq, Eq, Structural, Debug)]
pub enum TrustletInvocationType {
    NORMAL,
    FILEATTR,
    OPEN,
    READ,
    MMAP,
    INFERREGISTER,
    INFERPROMPT,
}

/// What a number stands for.
pub open spec fn invocation_of(number: u64) -> Option<TrustletInvocationType> {
    if number == 0 {
        Some(TrustletInvocationType::NORMAL)
    } else if number == 1 {
        Some(TrustletInvocationType::FILEATTR)
    } else if number == 2 {
        Some(TrustletInvocationType::OPEN)
    } else if number == 3 {
        Some(TrustletInvocationType::READ)
    } else if number == 4 {
        Some(TrustletInvocationType::MMAP)
    } else if number == 5 {
        Some(TrustletInvocationType::INFERREGISTER)
    } else if number == 6 {
        Some(TrustletInvocationType::INFERPROMPT)
    } else {
        None
    }
}

fn invocation_type(number: u64) -> (r: Option<TrustletInvocationType>)
    ensures
        r == invocation_of(number),
{
    match number {
        0 => Some(TrustletInvocationType::NORMAL),
        1 => Some(TrustletInvocationType::FILEATTR),
        2 => Some(TrustletInvocationType::OPEN),
        3 => Some(TrustletInvocationType::READ),
        4 => Some(TrustletInvocationType::MMAP),
        5 => Some(TrustletInvocationType::INFERREGISTER),
        6 => Some(TrustletInvocationType::INFERPROMPT),
        _ => None,
    }
}

/// What the guest wants of a process.
#[derive(Clone, Copy, PartialEq, Eq, Structural, Debug)]
pub struct Invocation {
    pub id: ProcessID,
    pub kind: TrustletInvocationType,
    pub function_arg: u64,
    pub function_arg_size: u64,
    pub result_addr: u64,
    pub result_size: u64,
    pub arg_vaddr: u64,
    pub arg_size: u64,
    pub guest_page_table: u64,
}

/// How far a request to run a process got.
#[derive(Clone, Copy, PartialEq, Eq, Structural, Debug)]
pub enum InvokeStep {
    /// The request is answered.
    Answered,
    /// The process can be prepared and run.
    Run(Invocation),
    /// The request makes no sense; the monitor cannot go on.
    Halt,
}

/// Whether a process can be resumed.
pub open spec fn can_resume(processes: Seq<TrustedProcess>, id: u64) -> bool {
    id < processes.len() && processes[id as int].process_type == TrustedProcessType::Trustlet
        && !processes[id as int].dead
}

/// The words that the guest describes its request with, and the machine after
/// they were read.
pub open spec fn request_words(s: MachineState, params: RequestParams) -> (Seq<u64>, MachineState) {
    let (t, range) = guest_copy::fetched(s, params.r8, params.r9, params.rdx);
    (
        walk::mounted_words(t, allocation::ALLOCATION_RANGE_VIRT_START),
        allocation::range_deleted(allocation::mount_entry(t, 0), range),
    )
}

/// What the guest wants of a process, by the words of its request.
pub open spec fn invocation(w: Seq<u64>, params: RequestParams) -> Option<Invocation> {
    match invocation_of(w[0]) {
        None => None,
        Some(kind) => Some(
            Invocation {
                id: ProcessID(params.rcx as usize),
                kind,
                function_arg: w[1],
                function_arg_size: w[2],
                result_addr: w[3],
                result_size: w[4],
                arg_vaddr: w[5],
                arg_size: w[6],
                guest_page_table: params.rdx,
            },
        ),
    }
}

/// Reads what the guest wants of a process. A process that cannot be resumed
/// is not: the answer is an error.
pub fn invoke_trustlet(m: &mut Machine, store: &TrustedProcessStore, params: &mut RequestParams) -> (r:
    InvokeStep)
    ensures
        if can_resume(store@, old(params).rcx) {
            let (w, t) = request_words(old(m)@, *old(params));
            &&& *final(params) == *old(params)
            &&& old(params).rcx <= usize::MAX
            &&& match invocation(w, *old(params)) {
                Some(inv) => r == InvokeStep::Run(inv) && final(m)@ == t,
                None => r == InvokeStep::Halt && final(m)@ == guest_copy::fetched(
                    old(m)@,
                    old(params).r8,
                    old(params).r9,
                    old(params).rdx,
                ).0,
            }
        } else {
            &&& r == InvokeStep::Answered
            &&& *final(params) == (RequestParams {
                rcx: TrustletReturnType::ERROR.number(),
                ..*old(params)
            })
            &&& final(m)@ == old(m)@
        },
{
    let id = params.rcx;
    if id >= store.len() as u64 {
        params.rcx = TrustletReturnType::ERROR.code();
        return InvokeStep::Answered;
    }
    let target = store.peek(ProcessID(id as usize));
    if target.process_type != TrustedProcessType::Trustlet || target.dead {
        params.rcx = TrustletReturnType::ERROR.code();
        return InvokeStep::Answered;
    }
    let guest_page_table = params.rdx;
    let (invoke_data, range) = ProcessPageTableRef::copy_data_from_guest(
        m,
        params.r8,
        params.r9,
        guest_page_table,
    );
    let w = read_mounted_page(m, invoke_data);
    let kind = match invocation_type(w[0]) {
        Some(kind) => kind,
        None => {
            return InvokeStep::Halt;
        },
    };
    range.unmount(m);
    range.delete(m);
    InvokeStep::Run(
        Invocation {
            id: ProcessID(id as usize),
            kind,
            function_arg: w[1],
            function_arg_size: w[2],
            result_addr: w[3],
            result_size: w[4],
            arg_vaddr: w[5],
            arg_size: w[6],
            guest_page_table,
        },
    )
}

impl Invocation {
    /// The page in which the guest keeps the data of a request of the process.
    pub open spec fn arg_page(self, s: MachineState) -> u64 {
        walk::translate(s, self.guest_page_table, self.arg_vaddr)
    }

    /// Whether a process can be prepared for a run: its sizes can be had, the
    /// data of its request lies within one page, and it waits for the page of
    /// a file that comes.
    pub open spec fn can_prepare(self, p: TrustedProcess, v: Vmsa) -> bool {
        match self.kind {
            TrustletInvocationType::NORMAL => self.function_arg_size <= MAX_CHANNEL_SIZE
                && self.result_size <= MAX_CHANNEL_SIZE,
            TrustletInvocationType::FILEATTR
            | TrustletInvocationType::OPEN
            | TrustletInvocationType::READ => v.rcx % 4096 + self.arg_size <= 4096,
            TrustletInvocationType::MMAP => p.pf_target_vaddr != 0,
            TrustletInvocationType::INFERREGISTER | TrustletInvocationType::INFERPROMPT => true,
        }
    }

    /// The machine and the channel after a process got its input: there is
    /// room for it and for the output, and it is copied, unless it is one byte
    /// or none.
    pub open spec fn input_given(self, s: MachineState, ch: MemoryChannel, root: u64) -> (
        MachineState,
        MemoryChannel,
    ) {
        let (s1, input) = memory_channels::inflated(
            s,
            ch.input,
            root,
            guest_copy::pages_over(self.function_arg_size) as u64,
            INPUT_VADDR,
        );
        let (s2, output) = memory_channels::inflated(
            s1,
            ch.output,
            root,
            guest_copy::pages_over(self.result_size) as u64,
            OUTPUT_VADDR,
        );
        let s3 = if self.function_arg_size > 1 {
            memory_channels::put_input(
                s2,
                input,
                self.function_arg,
                self.guest_page_table,
                self.function_arg_size,
            )
        } else {
            s2
        };
        (s3, MemoryChannel { input, output, ..ch })
    }

    /// The machine after a process got the page of a file that it waits for.
    pub open spec fn page_delivered(self, s: MachineState, p: TrustedProcess, root: u64) -> MachineState {
        let buf = s.rd(self.arg_page(s), 4);
        let source = walk::translate(s, self.guest_page_table, buf);
        let (t, page) = s.take_page();
        mapping::map_page(
            t.grant(page, VMPL1_RWX).copy(page, source),
            root,
            p.pf_target_vaddr,
            page,
            0x400,
        )
    }

    /// Whether the machine, the process and its registers are what they are
    /// after the process was prepared for a run.
    pub open spec fn prepared(
        self,
        s: MachineState,
        p: TrustedProcess,
        v: Vmsa,
        t: MachineState,
        q: TrustedProcess,
        w: Vmsa,
    ) -> bool {
        match self.kind {
            TrustletInvocationType::NORMAL => {
                let (given, ch) = self.input_given(s, p.context.channel, v.cr3);
                let (after, digest) = memory_channels::range_measured(given, ch.input);
                &&& t == after
                &&& w == v
                &&& q.measurements.input_data@ == digest
                &&& q == (TrustedProcess {
                    measurements: ProcessMeasurements {
                        input_data: q.measurements.input_data,
                        ..p.measurements
                    },
                    ..channel::with_channel(p, ch)
                })
            },
            TrustletInvocationType::FILEATTR
            | TrustletInvocationType::OPEN
            | TrustletInvocationType::READ => {
                &&& w == v
                &&& q == p
                &&& t == request::bytes_copied(
                    s,
                    walk::translate(s, v.cr3, v.rcx) + v.rcx % 4096,
                    self.arg_page(s) as int,
                    self.arg_size as nat,
                )
            },
            TrustletInvocationType::MMAP => {
                &&& w == v
                &&& q == p
                &&& t == self.page_delivered(s, p, v.cr3)
            },
            TrustletInvocationType::INFERREGISTER | TrustletInvocationType::INFERPROMPT => {
                &&& w == (Vmsa { rdx: s.rd(self.arg_page(s), 0), ..v })
                &&& q == p
                &&& t == s
            },
        }
    }

    /// Prepares a process for a run. Its registers are `vmsa`. Gives the
    /// process as it runs; none where it cannot be prepared.
    pub fn prepare(
        &self,
        m: &mut Machine,
        p: &mut TrustedProcess,
        vmsa: Vmsa,
        params: &RequestParams,
    ) -> (r: Option<PALContext>)
        ensures
            match r {
                None => !self.can_prepare(*old(p), vmsa) && final(m)@ == old(m)@ && *final(p)
                    == *old(p),
                Some(ctx) => {
                    &&& self.can_prepare(*old(p), vmsa)
                    &&& self.prepared(old(m)@, *old(p), vmsa, final(m)@, *final(p), ctx.vmsa)
                    &&& self.runs_as(ctx, *params)
                },
            },
    {
        let mut vmsa = vmsa;
        match self.kind {
            TrustletInvocationType::NORMAL => {
                if self.function_arg_size > MAX_CHANNEL_SIZE || self.result_size
                    > MAX_CHANNEL_SIZE {
                    return None;
                }
                p.context.channel.inflate_input(m, vmsa.cr3, self.function_arg_size);
                p.context.channel.inflate_output(m, vmsa.cr3, self.result_size);
                if self.function_arg_size > 1 {
                    p.context.channel.copy_into(
                        m,
                        self.function_arg,
                        self.guest_page_table,
                        self.function_arg_size,
                    );
                }
                p.measurements.input_data = p.context.channel.measure_input(m);
            },
            TrustletInvocationType::FILEATTR
            | TrustletInvocationType::OPEN
            | TrustletInvocationType::READ => {
                let offset = vmsa.rcx % 4096;
                if self.arg_size > 4096 || offset + self.arg_size > 4096 {
                    return None;
                }
                let arg_page = self.find_arg_page(m);
                let data_page = ProcessPageTableRef::external(vmsa.cr3).get_page(m, vmsa.rcx);
                proof {
                    walk::lemma_translate_bound(m@, self.guest_page_table, self.arg_vaddr);
                    walk::lemma_translate_bound(m@, vmsa.cr3, vmsa.rcx);
                }
                copy_bytes(m, data_page + offset, arg_page, self.arg_size);
            },
            TrustletInvocationType::MMAP => {
                if p.pf_target_vaddr == 0 {
                    return None;
                }
                let arg_page = self.find_arg_page(m);
                let buf = m.read(arg_page, 4);
                let source = ProcessPageTableRef::external(self.guest_page_table).get_page(m, buf);
                let page = allocate_page(m);
                m.grant(page, VMPL1_RWX);
                m.copy_page(page, source);
                proof {
                    mapping::lemma_plain_flags();
                }
                ProcessPageTableRef::external(vmsa.cr3).map_4k_page(
                    m,
                    p.pf_target_vaddr,
                    page,
                    ProcessPageFlags::FLAG_REUSE,
                );
            },
            TrustletInvocationType::INFERREGISTER | TrustletInvocationType::INFERPROMPT => {
                let arg_page = self.find_arg_page(m);
                vmsa.rdx = m.read(arg_page, 0);
            },
        }
        let mut ctx = PALContext::new(self.id, vmsa, false);
        ctx.result_addr = self.result_addr;
        ctx.result_size = self.result_size;
        ctx.guest_page_table = self.guest_page_table;
        ctx.invocation_arg_guest_vaddr = self.arg_vaddr;
        ctx.invocation_arg_size = self.arg_size;
        ctx.return_values = ReturnValues {
            rcx: params.rcx,
            rdx: params.rdx,
            r8: params.r8,
            r9: params.r9,
        };
        Some(ctx)
    }

    /// Whether a process is about to run for the guest: nothing is printed
    /// yet, and it knows where the guest wants the result and takes requests.
    pub open spec fn runs_as(self, ctx: PALContext, params: RequestParams) -> bool {
        &&& ctx.process == self.id
        &&& ctx.string_buf@ == Seq::new(256, |i: int| 0u8)
        &&& ctx.string_pos == 0
        &&& ctx.printed@.len() == 0
        &&& ctx.result_addr == self.result_addr
        &&& ctx.result_size == self.result_size
        &&& ctx.guest_page_table == self.guest_page_table
        &&& ctx.invocation_arg_guest_vaddr == self.arg_vaddr
        &&& ctx.invocation_arg_size == self.arg_size
        &&& !ctx.nested_call
        &&& ctx.return_values == (ReturnValues {
            rcx: params.rcx,
            rdx: params.rdx,
            r8: params.r8,
            r9: params.r9,
        })
    }

    fn find_arg_page(&self, m: &Machine) -> (r: PhysAddr)
        ensures
            r == self.arg_page(m@),
    {
        ProcessPageTableRef::external(self.guest_page_table).get_page(m, self.arg_vaddr)
    }
}

/// Takes note that a core runs a process for the guest from now on.
pub fn invoke_enter(p: &mut TrustedProcess, apic_id: u32, now: u64)
    ensures
        *final(p) == call::entered(*old(p), apic_id, now),
{
    nested_enter(p, apic_id, now);
}

/// Looks after a process whose call was served: gives whether its run is over.
/// A process that took too long has ended for good, and the guest is told of
/// an error.
pub fn invoke_step(
    ctx: &mut PALContext,
    p: &mut TrustedProcess,
    gpu: &mut GpuState,
    goes_on: ReturnTarget,
    start: u64,
    now: u64,
) -> (r: bool)
    ensures
        ({
            let served = TrustedProcess { in_pcall: false, ..*old(p) };
            if !goes_on {
                r && *final(ctx) == *old(ctx) && *final(p) == served && final(gpu)@ == old(gpu)@
            } else if call::over_time(start, now) {
                r && *final(ctx) == old(ctx).returning(TrustletReturnType::ERROR) && *final(p)
                    == process_runtime::died(served) && final(gpu)@
                    == process_runtime::engine_freed(old(gpu)@, served)
            } else {
                !r && *final(ctx) == *old(ctx) && *final(p) == served && final(gpu)@ == old(gpu)@
            }
        }),
        old(gpu)@.wf() ==> final(gpu)@.wf(),
{
    match nested_step(p, gpu, goes_on, start, now) {
        None => false,
        Some(status) => {
            if status != 0 {
                ctx.return_values.result(TrustletReturnType::ERROR.code());
            }
            true
        },
    }
}

/// Ends the run of a process for the guest: the guest gets what the process
/// has for it.
pub fn invoke_end(ctx: &PALContext, p: &mut TrustedProcess, params: &mut RequestParams)
    ensures
        *final(p) == call::left(*old(p)),
        *final(params) == (RequestParams {
            rcx: ctx.return_values.rcx,
            rdx: ctx.return_values.rdx,
            r8: ctx.return_values.r8,
            r9: ctx.return_values.r9,
            ..*old(params)
        }),
{
    p.running = false;
    p.invoke_start_tsc = 0;
    p.invoke_owner_apic = u32::MAX;
    params.rcx = ctx.return_values.rcx;
    params.rdx = ctx.return_values.rdx;
    params.r8 = ctx.return_values.r8;
    params.r9 = ctx.return_values.r9;
}

/// A process that has ended is never resumed: the guest is told of an error,
/// and nothing else happens.
pub proof fn law_ended_processes_stay_ended(processes: Seq<TrustedProcess>, id: u64)
    requires
        id < processes.len(),
    ensures
        !can_resume(
            processes.update(id as int, process_runtime::died(processes[id as int])),
            id,
        ),
{
}

/// What the guest is told when a process stops for a request, and what it goes on
/// with once the request is done, are numbered alike: by 2 apart for files, by 7
/// apart for inference. No two reasons to stop have the same number, and no two
/// numbers start the same run.
pub proof fn law_requests_are_resumed_by_their_number(
    a: TrustletReturnType,
    b: TrustletReturnType,
    m: u64,
    n: u64,
)
    ensures
        a != b ==> a.number() != b.number(),
        m != n && invocation_of(m) is Some ==> invocation_of(m) != invocation_of(n),
        invocation_of((TrustletReturnType::FILEATTR.number() - 2) as u64) == Some(
            TrustletInvocationType::FILEATTR,
        ),
        invocation_of((TrustletReturnType::OPEN.number() - 2) as u64) == Some(
            TrustletInvocationType::OPEN,
        ),
        invocation_of((TrustletReturnType::READ.number() - 2) as u64) == Some(
            TrustletInvocationType::READ,
        ),
        invocation_of((TrustletReturnType::MMAP.number() - 2) as u64) == Some(
            TrustletInvocationType::MMAP,
        ),
        invocation_of((TrustletReturnType::INFERENCEREGISTER.number() - 7) as u64) == Some(
            TrustletInvocationType::INFERREGISTER,
        ),
        invocation_of((TrustletReturnType::INFERENCE.number() - 7) as u64) == Some(
            TrustletInvocationType::INFERPROMPT,
        ),
{
}

} // verus!
