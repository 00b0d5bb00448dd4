//! A process stops running.
use vstd::prelude::*;
use crate::gpu::direct::GpuState;
use crate::memory::machine;
use crate::memory::machine::{Machine, MachineState};
use crate::process_manager::memory_channels;
use crate::process_manager::memory_channels::MAX_CHANNEL_SIZE;
use crate::process_manager::process::{ProcessMeasurements, TrustedProcess};
use crate::process_manager::process_paging::walk;
use crate::process_manager::process_paging::walk::ProcessPageTableRef;
use crate::process_runtime;
use crate::process_runtime::{
    mark_dead, PALContext, ReturnTarget, TrustletReturnType, RETURN_TO_GUEST,
};

verus! {

/// Ends the run of a process.
pub trait ProcessRuntimeExit {
    /// Whether the result that the guest waits for is one that it can get.
    spec fn can_give_result(&self) -> bool;

    fn pal_svsm_fail(&mut self, p: &mut TrustedProcess, gpu: &mut GpuState) -> ReturnTarget;

    fn pal_svsm_exit(&mut self, p: &mut TrustedProcess, gpu: &mut GpuState) -> ReturnTarget;

    fn pal_svsm_get_result(&mut self, m: &mut Machine, p: &mut TrustedProcess) -> ReturnTarget
        requires
            old(self).can_give_result(),
    ;

    fn pal_svsm_call_exit(&mut self) -> ReturnTarget;
}

impl PALContext {
    /// Whether the machine and the process are what they are after the result
    /// was given.
    pub open spec fn result_given(
        self,
        s: MachineState,
        p: TrustedProcess,
        t: MachineState,
        q: TrustedProcess,
    ) -> bool {
        let output = p.context.channel.output;
        let copied = if self.nested_call {
            s
        } else {
            memory_channels::got_output(
                s,
                output,
                self.result_addr,
                self.guest_page_table,
                self.result_size,
            )
        };
        let (after, digest) = memory_channels::range_measured(copied, output);
        &&& t == after
        &&& q.measurements.output_data@ == digest
        &&& q == (TrustedProcess {
            measurements: ProcessMeasurements {
                output_data: q.measurements.output_data,
                ..p.measurements
            },
            ..p
        })
    }
}

impl ProcessRuntimeExit for PALContext {
    open spec fn can_give_result(&self) -> bool {
        self.nested_call || self.result_size <= MAX_CHANNEL_SIZE
    }

    /// The process has failed: it has ended for good, and the guest is told of
    /// an error.
    fn pal_svsm_fail(&mut self, p: &mut TrustedProcess, gpu: &mut GpuState) -> (r: ReturnTarget)
        ensures
            r == RETURN_TO_GUEST,
            *final(self) == old(self).returning(TrustletReturnType::ERROR),
            *final(p) == process_runtime::died(*old(p)),
            final(gpu)@ == process_runtime::engine_freed(old(gpu)@, *old(p)),
            old(gpu)@.wf() ==> final(gpu)@.wf(),
    {
        mark_dead(p, gpu);
        self.return_values.result(TrustletReturnType::ERROR.code());
        RETURN_TO_GUEST
    }

    /// The process has exited: it has ended for good.
    fn pal_svsm_exit(&mut self, p: &mut TrustedProcess, gpu: &mut GpuState) -> (r: ReturnTarget)
        ensures
            r == RETURN_TO_GUEST,
            *final(self) == old(self).returning(TrustletReturnType::EXIT),
            *final(p) == process_runtime::died(*old(p)),
            final(gpu)@ == process_runtime::engine_freed(old(gpu)@, *old(p)),
            old(gpu)@.wf() ==> final(gpu)@.wf(),
    {
        mark_dead(p, gpu);
        self.return_values.result(TrustletReturnType::EXIT.code());
        RETURN_TO_GUEST
    }

    /// The result is ready: it is copied to the guest, unless another process
    /// has called this one, and measured.
    fn pal_svsm_get_result(&mut self, m: &mut Machine, p: &mut TrustedProcess) -> (r: ReturnTarget)
        ensures
            r == RETURN_TO_GUEST,
            *final(self) == old(self).returning(TrustletReturnType::GETRESULT),
            old(self).result_given(old(m)@, *old(p), final(m)@, *final(p)),
    {
        if !self.nested_call {
            p.context.channel.copy_out(
                m,
                self.result_addr,
                self.guest_page_table,
                self.result_size,
            );
        }
        self.return_values.result(TrustletReturnType::GETRESULT.code());
        p.measurements.output_data = p.context.channel.measure_output(m);
        RETURN_TO_GUEST
    }

    /// Goes back to the guest.
    fn pal_svsm_call_exit(&mut self) -> (r: ReturnTarget)
        ensures
            r == RETURN_TO_GUEST,
            *final(self) == *old(self),
    {
        RETURN_TO_GUEST
    }
}

/// The bytes of a string in a page, from index `i` on, up to its end or that
/// of the page.
pub open spec fn string_bytes(mem: Seq<u64>, page: u64, i: nat) -> Seq<u8>
    decreases 4096 - i,
{
    if i >= 4096 || machine::byte_at(mem, page + i) == 0 {
        Seq::empty()
    } else {
        seq![machine::byte_at(mem, page + i)] + string_bytes(mem, page, i + 1)
    }
}

impl PALContext {
    /// What the process says of its failure.
    pub fn fail_message(&self, m: &Machine) -> (r: Vec<u8>)
        ensures
            r@ == string_bytes(
                m@.mem,
                walk::translate(
                    m@,
                    self.vmsa.cr3,
                    (self.vmsa.rbx - self.vmsa.rbx % 4096) as u64,
                ),
                (self.vmsa.rbx % 4096) as nat,
            ),
    {
        let string = self.vmsa.rbx;
        let start = string - string % 4096;
        let page = ProcessPageTableRef::external(self.vmsa.cr3).get_page(m, start);
        proof {
            walk::lemma_translate_bound(m@, self.vmsa.cr3, start);
        }
        let ghost all = string_bytes(m@.mem, page, (string % 4096) as nat);
        let mut r: Vec<u8> = Vec::new();
        let mut i: u64 = string % 4096;
        while i < 4096
            invariant_except_break
                i <= 4096,
                page <= 0x000F_FFFF_FFFF_F000,
                r@ + string_bytes(m@.mem, page, i as nat) == all,
            ensures
                r@ == all,
            decreases 4096 - i,
        {
            let b = m.read_byte(page + i);
            if b == 0 {
                assert(r@ =~= all);
                break;
            }
            let ghost before = r@;
            r.push(b);
            i = i + 1;
            assert(r@ + string_bytes(m@.mem, page, i as nat) =~= before + string_bytes(
                m@.mem,
                page,
                (i - 1) as nat,
            ));
            assert(i == 4096 ==> r@ =~= all);
        }
        r
    }
}

/// A string in a page ends before the first zero, or with the page: its bytes
/// are those of the page, none of them is zero, and what follows them in the page
/// is.
pub proof fn law_string_ends_at_zero(mem: Seq<u64>, page: u64, i: nat)
    requires
        i <= 4096,
    ensures
        ({
            let r = string_bytes(mem, page, i);
            &&& i + r.len() <= 4096
            &&& forall|k: int|
                0 <= k < r.len() ==> #[trigger] r[k] == machine::byte_at(mem, page + i + k) && r[k]
                    != 0
            &&& i + r.len() < 4096 ==> machine::byte_at(mem, (page + i + r.len()) as int) == 0
        }),
    decreases 4096 - i,
{
    if i < 4096 && machine::byte_at(mem, page + i) != 0 {
        law_string_ends_at_zero(mem, page, i + 1);
        let r = string_bytes(mem, page, i);
        let rest = string_bytes(mem, page, i + 1);
        assert forall|k: int| 0 <= k < r.len() implies #[trigger] r[k] == machine::byte_at(
            mem,
            page + i + k,
        ) && r[k] != 0 by {
            if k > 0 {
                assert(r[k] == rest[k - 1]);
            }
        }
    }
}

} // verus!
