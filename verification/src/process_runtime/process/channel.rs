//! The channel of a process grows.
use vstd::prelude::*;
use crate::memory::machine::{Machine, MachineState};
use crate::process_manager::memory_channels;
use crate::process_manager::memory_channels::{
    MemoryChannel, INPUT_VADDR, MAX_CHANNEL_SIZE, OUTPUT_VADDR,
};
use crate::process_manager::process::{ProcessContext, TrustedProcess};
use crate::process_manager::process_paging::guest_copy;
use crate::process_manager::process_paging::soundness;
use crate::process_manager::process_paging::widening;
use crate::process_runtime::{PALContext, ReturnTarget, RETURN_TO_PROCESS};

verus! {

/// Grows channels.
pub trait ProcessRuntimeChannel {
    /// Whether the size that is asked for is one that can be had.
    spec fn can_inflate(&self) -> bool;

    fn pal_svsm_inflate_channel(&mut self, m: &mut Machine, p: &mut TrustedProcess) -> ReturnTarget
        requires
            old(self).can_inflate(),
    ;
}

/// A process with another channel.
pub open spec fn with_channel(p: TrustedProcess, channel: MemoryChannel) -> TrustedProcess {
    TrustedProcess { context: ProcessContext { channel, ..p.context }, ..p }
}

impl PALContext {
    /// The machine and the process after the input or the output has grown.
    pub open spec fn inflate_served(self, s: MachineState, p: TrustedProcess) -> (
        MachineState,
        TrustedProcess,
    ) {
        let ch = p.context.channel;
        let pages = guest_copy::pages_over(self.vmsa.rdx) as u64;
        if self.vmsa.rcx == 0 {
            let (t, input) = memory_channels::inflated(
                s,
                ch.input,
                self.vmsa.cr3,
                pages,
                INPUT_VADDR,
            );
            (t, with_channel(p, MemoryChannel { input, ..ch }))
        } else if self.vmsa.rcx == 1 {
            let (t, output) = memory_channels::inflated(
                s,
                ch.output,
                self.vmsa.cr3,
                pages,
                OUTPUT_VADDR,
            );
            (t, with_channel(p, MemoryChannel { output, ..ch }))
        } else {
            (s, p)
        }
    }
}

impl ProcessRuntimeChannel for PALContext {
    open spec fn can_inflate(&self) -> bool {
        self.vmsa.rdx <= MAX_CHANNEL_SIZE
    }

    /// Grows the input or the output of the process, as `rcx` says, to hold
    /// the bytes in `rdx`.
    fn pal_svsm_inflate_channel(&mut self, m: &mut Machine, p: &mut TrustedProcess) -> (r:
        ReturnTarget)
        ensures
            r == RETURN_TO_PROCESS,
            *final(self) == *old(self),
            (final(m)@, *final(p)) == old(self).inflate_served(old(m)@, *old(p)),
    {
        let select = self.vmsa.rcx;
        let size = self.vmsa.rdx;
        if select == 0 {
            p.context.channel.inflate_input(m, self.vmsa.cr3, size);
        }
        if select == 1 {
            p.context.channel.inflate_output(m, self.vmsa.cr3, size);
        }
        RETURN_TO_PROCESS
    }
}

/// A channel that has grown holds what was asked for: the process has as many
/// bytes for its input or its output as it named, in fresh pages behind those
/// that it had. The other side of the channel is as it was.
pub proof fn law_grown_channel_holds_what_was_asked_for(
    ctx: PALContext,
    s: MachineState,
    p: TrustedProcess,
)
    requires
        ctx.vmsa.rdx <= 0x7F_FFFF_F000,
        soundness::sound(s, ctx.vmsa.cr3),
        ctx.vmsa.rcx == 0 ==> s.pool.available() >= widening::inflate_takes(
            s,
            p.context.channel.input,
            ctx.vmsa.cr3,
            guest_copy::pages_over(ctx.vmsa.rdx) as u64,
            INPUT_VADDR,
        ),
        ctx.vmsa.rcx == 1 ==> s.pool.available() >= widening::inflate_takes(
            s,
            p.context.channel.output,
            ctx.vmsa.cr3,
            guest_copy::pages_over(ctx.vmsa.rdx) as u64,
            OUTPUT_VADDR,
        ),
    ensures
        ({
            let (t, q) = ctx.inflate_served(s, p);
            let root = ctx.vmsa.cr3;
            let before = p.context.channel;
            let after = q.context.channel;
            &&& q == with_channel(p, after)
            &&& ctx.vmsa.rcx == 0 ==> {
                &&& after == (MemoryChannel { input: after.input, ..before })
                &&& after.input.1 * 4096 >= ctx.vmsa.rdx
                &&& forall|i: int|
                    before.input.1 <= i < after.input.1 ==> #[trigger] widening::fresh_at(
                        s,
                        t,
                        root,
                        INPUT_VADDR,
                        i,
                    )
            }
            &&& ctx.vmsa.rcx == 1 ==> {
                &&& after == (MemoryChannel { output: after.output, ..before })
                &&& after.output.1 * 4096 >= ctx.vmsa.rdx
                &&& forall|i: int|
                    before.output.1 <= i < after.output.1 ==> #[trigger] widening::fresh_at(
                        s,
                        t,
                        root,
                        OUTPUT_VADDR,
                        i,
                    )
            }
            &&& ctx.vmsa.rcx > 1 ==> t == s && q == p
        }),
{
    let pages = guest_copy::pages_over(ctx.vmsa.rdx) as u64;
    let ch = p.context.channel;
    if ctx.vmsa.rcx == 0 {
        widening::law_grown_range_has_its_pages(s, ch.input, ctx.vmsa.cr3, pages, INPUT_VADDR);
    } else if ctx.vmsa.rcx == 1 {
        widening::law_grown_range_has_its_pages(s, ch.output, ctx.vmsa.cr3, pages, OUTPUT_VADDR);
    }
}

} // verus!
