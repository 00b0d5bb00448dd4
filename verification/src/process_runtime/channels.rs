//! Channels between processes.
use vstd::prelude::*;
use crate::address;
use crate::address::PhysAddr;
use crate::error::MonitorError;
use crate::memory::machine;
use crate::memory::machine::{Machine, MachineState};
use crate::process_manager::memory_channels::{MemoryChannel, INPUT_VADDR, OUTPUT_VADDR};
use crate::process_manager::process::{ProcessID, TrustedProcess, TrustedProcessStore};
use crate::process_manager::process_paging::entry;
use crate::process_manager::process_paging::entry::{ProcessPageTable, PGD};
use crate::process_manager::process_paging::slots;
use crate::process_manager::process_paging::transfer;
use crate::process_manager::process_paging::walk;
use crate::process_runtime::process::channel;
use crate::RequestParams;

verus! {

/// The processes after the output of one became the input of another. The
/// first one remembers where its output leads.
pub open spec fn linked(s: Seq<TrustedProcess>, first: int, second: int) -> Seq<TrustedProcess> {
    let t = s.update(
        second,
        channel::with_channel(
            s[second],
            MemoryChannel {
                input: s[first].context.channel.output,
                input_borrowed: true,
                ..s[second].context.channel
            },
        ),
    );
    t.update(
        first,
        channel::with_channel(
            t[first],
            MemoryChannel {
                next: Some(ProcessID(second as usize)),
                last_in_channel: false,
                ..t[first].context.channel
            },
        ),
    )
}

/// The machine after a root table got the entry of the output of another for its
/// input.
pub open spec fn channel_mounted(s: MachineState, cr3_1: u64, cr3_2: u64) -> MachineState {
    s.wr(cr3_2, 5, s.rd(cr3_1, 6))
}

/// Makes the output of a process the input of another: its root table gets the
/// entry of the other's. `cr3_1` and `cr3_2` are the root tables that their
/// state pages name.
pub fn create_channel(
    m: &mut Machine,
    store: &mut TrustedProcessStore,
    params: &RequestParams,
    cr3_1: PhysAddr,
    cr3_2: PhysAddr,
) -> (r: Result<(), MonitorError>)
    requires
        params.rcx < old(store)@.len(),
        params.rdx < old(store)@.len(),
    ensures
        r is Ok,
        final(m)@ == channel_mounted(old(m)@, cr3_1, cr3_2),
        final(store)@ == linked(old(store)@, params.rcx as int, params.rdx as int),
{
    assert(store.processes.len() == store@.len());
    let tid1 = params.rcx as usize;
    let tid2 = params.rdx as usize;
    let output_slot = ProcessPageTable::index::<PGD>(OUTPUT_VADDR);
    let input_slot = ProcessPageTable::index::<PGD>(INPUT_VADDR);
    let target_entry = m.read(cr3_1, output_slot as u64);
    m.write(cr3_2, input_slot as u64, target_entry);
    let output = store.peek(ProcessID(tid1)).context.channel.output;
    let trustlet2 = store.get(ProcessID(tid2));
    trustlet2.context.channel.input = output;
    trustlet2.context.channel.input_borrowed = true;
    let trustlet1 = store.get(ProcessID(tid1));
    trustlet1.context.channel.next = Some(ProcessID(tid2));
    trustlet1.context.channel.last_in_channel = false;
    Ok(())
}

/// A process finds as its input the pages that another one has as its output: to
/// write to one is to write to the other.
pub proof fn law_output_is_found_as_input(s: MachineState, cr3_1: u64, cr3_2: u64, i: int)
    requires
        cr3_1 % 4096 == 0,
        cr3_2 % 4096 == 0,
        cr3_1 != cr3_2,
        cr3_2 as int / 8 + 512 <= s.mem.len(),
        0 <= i < 0x800_0000,
        transfer::way_avoids(s, cr3_1, address::page_above(OUTPUT_VADDR, i), cr3_2),
    ensures
        ({
            let t = channel_mounted(s, cr3_1, cr3_2);
            &&& walk::leaf_below(t, cr3_2, address::page_above(INPUT_VADDR, i), 3)
                == walk::leaf_below(s, cr3_1, address::page_above(OUTPUT_VADDR, i), 3)
            &&& walk::leaf_below(t, cr3_1, address::page_above(OUTPUT_VADDR, i), 3)
                == walk::leaf_below(s, cr3_1, address::page_above(OUTPUT_VADDR, i), 3)
            &&& forall|pa: u64|
                pa % 4096 == 0 && pa != cr3_2 ==> #[trigger] machine::page_words(t.mem, pa)
                    == machine::page_words(s.mem, pa)
            &&& forall|j: int|
                0 <= j < 512 && j != entry::table_index(INPUT_VADDR, 3) ==> #[trigger] t.rd(
                    cr3_2,
                    j,
                ) == s.rd(cr3_2, j)
        }),
{
    assert(entry::table_index(INPUT_VADDR, 3) == 5 && entry::table_index(OUTPUT_VADDR, 3) == 6);
    slots::lemma_slot_given(s, cr3_2, INPUT_VADDR, cr3_1, OUTPUT_VADDR, i);
    slots::lemma_word_written(s, cr3_2, 5, s.rd(cr3_1, 6));
}

/// Two processes that are linked share one range: the output of the first is
/// the input of the second, calls for inference of the first lead to the
/// second, and neither frees what they share.
pub proof fn law_channel_links(s: Seq<TrustedProcess>, first: usize, second: usize)
    requires
        first < s.len(),
        second < s.len(),
        first != second,
    ensures
        ({
            let t = linked(s, first as int, second as int);
            &&& t.len() == s.len()
            &&& t[second as int].context.channel.input == t[first as int].context.channel.output
            &&& t[first as int].context.channel.output == s[first as int].context.channel.output
            &&& t[first as int].context.channel.next == Some(ProcessID(second))
            &&& t[first as int].shared_slots().contains(6)
            &&& t[second as int].shared_slots().contains(5)
            &&& forall|i: int|
                0 <= i < s.len() && i != first && i != second ==> #[trigger] t[i] == s[i]
        }),
{
    let t = linked(s, first as int, second as int);
    assert(t[first as int].shared_slots().last() == 6);
    assert(t[second as int].shared_slots()[0] == 5);
}

} // verus!
