//! Time in ticks of the timestamp counter.
use vstd::prelude::*;

verus! {

/// Ticks in a second.
pub const TSC_HZ: u64 = 2_400_008_000;

/// A product as far as a register holds it.
pub open spec fn saturated(n: int) -> u64 {
    if n <= u64::MAX {
        n as u64
    } else {
        u64::MAX
    }
}

fn times(a: u64, b: u64) -> (r: u64)
    ensures
        r == saturated(a * b),
{
    match a.checked_mul(b) {
        Some(n) => n,
        None => u64::MAX,
    }
}

/// Ticks in a number of seconds.
pub fn ticks_for_secs(secs: u64) -> (r: u64)
    ensures
        r == saturated(TSC_HZ * secs),
{
    times(TSC_HZ, secs)
}

/// Ticks in a number of microseconds.
pub fn ticks_for_micros(us: u64) -> (r: u64)
    ensures
        r == saturated(2400 * us),
{
    times(TSC_HZ / 1_000_000, us)
}

/// The counter from the two halves in which it is read.
pub fn rdtsc(lo: u32, hi: u32) -> (r: u64)
    ensures
        r == hi * 0x1_0000_0000 + lo,
{
    hi as u64 * 0x1_0000_0000 + lo as u64
}

/// Longer times have no fewer ticks.
pub proof fn law_ticks_monotone(a: u64, b: u64)
    requires
        a <= b,
    ensures
        saturated(TSC_HZ * a) <= saturated(TSC_HZ * b),
        saturated(2400 * a) <= saturated(2400 * b),
{
}

} // verus!
