//! Addresses and the arithmetic of pages.
use vstd::prelude::*;

verus! {

/// An address in physical memory.
pub type PhysAddr = u64;

/// An address in the virtual address space of a process or of the monitor.
pub type VirtAddr = u64;

/// Bytes in a page.
pub const PAGE_SIZE: u64 = 4096;

/// `a + b`, reduced to the 64 bits of an address.
pub open spec fn addr_add(a: u64, b: int) -> u64 {
    ((a + b) % 0x1_0000_0000_0000_0000) as u64
}

/// The address `count` pages above `a`.
pub open spec fn page_above(a: u64, count: int) -> u64 {
    addr_add(a, count * 4096)
}

/// Steps add up.
pub proof fn lemma_addr_add(a: u64, b: int, c: int)
    ensures
        addr_add(addr_add(a, b), c) == addr_add(a, b + c),
{
    vstd::arithmetic::div_mod::lemma_add_mod_noop(a + b, c, 0x1_0000_0000_0000_0000);
    vstd::arithmetic::div_mod::lemma_add_mod_noop(
        (a + b) % 0x1_0000_0000_0000_0000,
        c,
        0x1_0000_0000_0000_0000,
    );
    vstd::arithmetic::div_mod::lemma_mod_twice(a + b, 0x1_0000_0000_0000_0000);
}

/// The page above page `i` is page `i + 1`.
pub proof fn lemma_page_after(a: u64, i: int)
    ensures
        page_above(page_above(a, i), 1) == page_above(a, i + 1),
{
    lemma_addr_add(a, i * 4096, 4096);
    assert((i + 1) * 4096 == i * 4096 + 4096);
}

/// The number that a signed status has in an unsigned register.
pub open spec fn status_word(status: i64) -> u64 {
    if status >= 0 {
        status as u64
    } else {
        (0x1_0000_0000_0000_0000 + status) as u64
    }
}

/// Puts a signed status in the form in which a register carries it.
pub fn status_to_word(status: i64) -> (r: u64)
    ensures
        r == status_word(status),
{
    if status >= 0 {
        status as u64
    } else if status == i64::MIN {
        0x8000_0000_0000_0000u64
    } else {
        let magnitude: u64 = (-status) as u64;
        (u64::MAX - magnitude) + 1
    }
}

/// The address `count` pages above `a`, modulo the size of the address space.
pub fn pages_above(a: u64, count: u64) -> (r: u64)
    ensures
        r == page_above(a, count as int),
{
    let delta: u64 = (count % 0x10_0000_0000_0000) * 4096;
    proof {
        let turns = count as int / 0x10_0000_0000_0000;
        assert(count * 4096 == delta + turns * 0x1_0000_0000_0000_0000);
        vstd::arithmetic::div_mod::lemma_mod_multiples_vanish(
            turns,
            a + delta,
            0x1_0000_0000_0000_0000,
        );
    }
    a.wrapping_add(delta)
}

} // verus!
