//! Messages of processes.
use vstd::prelude::*;
use crate::memory::machine;
use crate::memory::machine::{Machine, MachineState};
use crate::process_manager::process_paging::growth;
use crate::process_manager::process_paging::loading;
use crate::process_manager::process_paging::walk;
use crate::process_manager::process_paging::walk::ProcessPageTableRef;
use crate::process_runtime::process::request;
use crate::process_runtime::{PALContext, PrintedMessage, ReturnTarget, RETURN_TO_PROCESS};

verus! {

/// Prints for a process.
pub trait ProcessRuntimePrint {
    /// Whether the memory that is to be shown is part of a page, in whole
    /// words.
    spec fn can_show(&self) -> bool;

    fn pal_svsm_debug_print(&mut self) -> ReturnTarget;

    fn pal_svsm_print_info(&mut self, m: &Machine, shown: &mut Vec<u8>) -> ReturnTarget
        requires
            old(self).can_show(),
    ;
}

/// A buffer of zeros.
pub open spec fn no_text() -> Seq<u8> {
    Seq::new(256, |i: int| 0u8)
}

/// The buffer and its fill after a character was printed, and the messages
/// that are complete. A message that is too long is printed in parts; the
/// character for which there is no room is lost.
pub open spec fn character_printed(text: Seq<u8>, pos: nat, c: u64) -> (
    Seq<u8>,
    nat,
    Seq<(Seq<u8>, bool)>,
) {
    let (t, p, parts) = if pos < 255 {
        (text.update(pos as int, (c % 256) as u8), pos + 1, Seq::empty())
    } else {
        (no_text(), 0, seq![(text, true)])
    };
    if c == 0 {
        (no_text(), 0, parts.push((t, false)))
    } else {
        (t, p, parts)
    }
}

/// Messages as they are shown.
pub open spec fn texts(s: Seq<PrintedMessage>) -> Seq<(Seq<u8>, bool)> {
    Seq::new(s.len(), |i: int| (s[i].text@, s[i].partial))
}

impl PALContext {
    /// Whether `after` is the context after the character in `rbx` was printed.
    pub open spec fn printed_to(self, after: PALContext) -> bool {
        let (text, pos, parts) = character_printed(
            self.string_buf@,
            self.string_pos as nat,
            self.vmsa.rbx,
        );
        &&& after == (PALContext {
            string_buf: after.string_buf,
            string_pos: after.string_pos,
            printed: after.printed,
            ..self
        })
        &&& after.string_buf@ == text
        &&& after.string_pos == pos
        &&& texts(after.printed@) == texts(self.printed@) + parts
    }
}

impl ProcessRuntimePrint for PALContext {
    open spec fn can_show(&self) -> bool {
        self.vmsa.rcx % 8 == 0 && self.vmsa.rbx % 4096 + self.vmsa.rcx <= 4096
    }

    /// Prints a character; 0 ends the message.
    fn pal_svsm_debug_print(&mut self) -> (r: ReturnTarget)
        ensures
            r == RETURN_TO_PROCESS,
            old(self).printed_to(*final(self)),
    {
        let c = self.vmsa.rbx;
        let ghost before = texts(self.printed@);
        let ghost text = self.string_buf@;
        if self.string_pos < 255 {
            self.string_buf[self.string_pos] = (c % 256) as u8;
            self.string_pos = self.string_pos + 1;
        } else {
            self.printed.push(PrintedMessage { text: self.string_buf, partial: true });
            self.string_pos = 0;
            self.string_buf = [0u8; 256];
            assert(self.string_buf@ =~= no_text());
            assert(texts(self.printed@) =~= before.push((text, true)));
        }
        if c == 0 {
            let ghost middle = texts(self.printed@);
            let ghost whole = self.string_buf@;
            self.printed.push(PrintedMessage { text: self.string_buf, partial: false });
            self.string_pos = 0;
            self.string_buf = [0u8; 256];
            assert(self.string_buf@ =~= no_text());
            assert(texts(self.printed@) =~= middle.push((whole, false)));
        }
        assert(texts(self.printed@) =~= before + character_printed(
            text,
            old(self).string_pos as nat,
            c,
        ).2);
        RETURN_TO_PROCESS
    }

    /// Shows memory of the process.
    fn pal_svsm_print_info(&mut self, m: &Machine, shown: &mut Vec<u8>) -> (r: ReturnTarget)
        ensures
            r == RETURN_TO_PROCESS,
            *final(self) == *old(self),
            final(shown)@ == old(shown)@ + process_bytes(
                m@,
                old(self).vmsa.cr3,
                old(self).vmsa.rbx,
                old(self).vmsa.rcx as nat,
            ),
    {
        let addr = self.vmsa.rbx;
        let len = self.vmsa.rcx;
        let page = ProcessPageTableRef::external(self.vmsa.cr3).get_page(m, addr - addr % 4096);
        let ghost before = shown@;
        let ghost bytes = process_bytes(m@, self.vmsa.cr3, addr, len as nat);
        proof {
            walk::lemma_translate_bound(m@, self.vmsa.cr3, (addr - addr % 4096) as u64);
        }
        let mut i: u64 = 0;
        while i < len
            invariant
                i <= len,
                addr % 4096 + len <= 4096,
                page <= 0x000F_FFFF_FFFF_F000,
                bytes.len() == len,
                forall|k: int|
                    0 <= k < len ==> bytes[k] == machine::byte_at(m@.mem, page + addr % 4096 + k),
                shown@ =~= before + bytes.take(i as int),
            decreases len - i,
        {
            shown.push(m.read_byte(page + addr % 4096 + i));
            i = i + 1;
        }
        assert(bytes.take(len as int) =~= bytes);
        RETURN_TO_PROCESS
    }
}

/// Bytes of a process from an address on, all of them in the page of the
/// first.
pub open spec fn process_bytes(s: MachineState, root: u64, va: u64, n: nat) -> Seq<u8> {
    let page = walk::translate(s, root, (va - va % 4096) as u64);
    Seq::new(n, |i: int| machine::byte_at(s.mem, page + va % 4096 + i))
}

/// The buffer and its fill after a text was printed, and the messages that are
/// complete.
pub open spec fn text_printed(text: Seq<u8>, pos: nat, chars: Seq<u8>) -> (
    Seq<u8>,
    nat,
    Seq<(Seq<u8>, bool)>,
)
    decreases chars.len(),
{
    if chars.len() == 0 {
        (text, pos, Seq::empty())
    } else {
        let (t, p, parts) = text_printed(text, pos, chars.drop_last());
        let (u, q, more) = character_printed(t, p, chars.last() as u64);
        (u, q, parts + more)
    }
}

proof fn lemma_text_gathers(chars: Seq<u8>)
    requires
        chars.len() <= 255,
        forall|i: int| 0 <= i < chars.len() ==> chars[i] != 0,
    ensures
        text_printed(no_text(), 0, chars) == (
            chars + Seq::new((256 - chars.len()) as nat, |i: int| 0u8),
            chars.len(),
            Seq::<(Seq<u8>, bool)>::empty(),
        ),
    decreases chars.len(),
{
    let (text, pos, parts) = text_printed(no_text(), 0, chars);
    if chars.len() > 0 {
        lemma_text_gathers(chars.drop_last());
        assert(chars[chars.len() - 1] != 0);
    }
    assert(text =~= chars + Seq::new((256 - chars.len()) as nat, |i: int| 0u8));
    assert(parts =~= Seq::<(Seq<u8>, bool)>::empty());
}

/// A message of up to 254 characters comes out whole and at once, with zeros
/// behind it, when its end is printed; the next message starts anew.
pub proof fn law_message_comes_out_whole(chars: Seq<u8>)
    requires
        chars.len() <= 254,
        forall|i: int| 0 <= i < chars.len() ==> chars[i] != 0,
    ensures
        text_printed(no_text(), 0, chars).2 == Seq::<(Seq<u8>, bool)>::empty(),
        text_printed(no_text(), 0, chars.push(0)) == (
            no_text(),
            0nat,
            seq![(chars + Seq::new((256 - chars.len()) as nat, |i: int| 0u8), false)],
        ),
{
    lemma_text_gathers(chars);
    let all = chars.push(0);
    assert(all.drop_last() =~= chars);
    let whole = chars + Seq::new((256 - chars.len()) as nat, |i: int| 0u8);
    assert(whole.update(chars.len() as int, 0) =~= whole);
    assert(text_printed(no_text(), 0, all).2 =~= seq![(whole, false)]);
}

/// A message that is too long comes out in parts: the part that fills the buffer
/// comes out with the next character, and says that the message goes on; the next
/// part starts empty.
pub proof fn law_long_message_comes_out_in_parts(chars: Seq<u8>, c: u8)
    requires
        chars.len() == 255,
        forall|i: int| 0 <= i < chars.len() ==> chars[i] != 0,
        c != 0,
    ensures
        text_printed(no_text(), 0, chars).2 == Seq::<(Seq<u8>, bool)>::empty(),
        text_printed(no_text(), 0, chars.push(c)) == (
            no_text(),
            0nat,
            seq![(chars.push(0), true)],
        ),
{
    lemma_text_gathers(chars);
    let all = chars.push(c);
    assert(all.drop_last() =~= chars);
    assert(chars + Seq::new((256 - chars.len()) as nat, |i: int| 0u8) =~= chars.push(0));
    assert(text_printed(no_text(), 0, all).2 =~= seq![(chars.push(0), true)]);
}

/// What a process shows is what it finds at the addresses that it names.
pub proof fn law_shown_bytes_are_those_of_the_process(
    s: MachineState,
    root: u64,
    va: u64,
    n: nat,
    i: int,
)
    requires
        va % 4096 + n <= 4096,
        0 <= i < n,
        walk::translate(s, root, va) != 0,
    ensures
        process_bytes(s, root, va, n).len() == n,
        process_bytes(s, root, va, n)[i] == loading::found_byte(s, root, (va + i) as u64),
{
    lemma_start_of_page(s, root, va);
    request::lemma_found_near(s, root, va, i);
}

/// An address leads to the page that the start of its page leads to.
proof fn lemma_start_of_page(s: MachineState, root: u64, va: u64)
    ensures
        walk::translate(s, root, (va - va % 4096) as u64) == walk::translate(s, root, va),
{
    let start = (va - va % 4096) as u64;
    let k = va as int % 4096;
    assert(start as int % 4096 == 0);
    loading::lemma_near(start, k);
    assert((start + k) as u64 == va);
    growth::lemma_leaf_of_page(s, root, start, va);
}

} // verus!
