//! Calls to the GPU.
use vstd::prelude::*;
use crate::error::MonitorError;
use crate::memory::machine;
use crate::memory::machine::Machine;
use crate::RequestParams;

pub mod bulk;
pub mod direct;
pub mod heap;
pub mod layout;
pub mod registration;
pub mod relay;

verus! {

/// The request that copies its payload into the monitor and back.
pub const COPY_PROBE: u64 = 998;

/// Answers a call that the guest makes by a request of its own. Only the probe
/// does any work: it copies up to a page of the guest into the monitor and
/// back, which changes nothing.
pub fn handle_api_call(m: &mut Machine, params: &RequestParams) -> (r: Result<(), MonitorError>)
    ensures
        r is Ok,
        final(m)@ == old(m)@,
{
    if params.rcx != COPY_PROBE {
        return Ok(());
    }
    let addr = params.r8;
    let size = if params.rdx < 4096 {
        params.rdx
    } else {
        4096
    };
    if addr == 0 || size == 0 {
        return Ok(());
    }
    let off = addr % 4096;
    let n = if size < 4096 - off {
        size
    } else {
        4096 - off
    };
    let mut staged: Vec<u8> = Vec::new();
    let mut i: u64 = 0;
    while i < n
        invariant
            i <= n,
            n <= 4096 - addr % 4096,
            staged@.len() == i,
            forall|k: int| 0 <= k < i ==> staged@[k] == machine::byte_at(m@.mem, addr + k),
        decreases n - i,
    {
        staged.push(m.read_byte(addr + i));
        i = i + 1;
    }
    let mut j: u64 = 0;
    while j < n
        invariant
            j <= n,
            n <= 4096 - addr % 4096,
            n <= 4096,
            m@ == old(m)@,
            staged@.len() == n,
            forall|k: int| 0 <= k < n ==> staged@[k] == machine::byte_at(m@.mem, addr + k),
        decreases n - j,
    {
        let ghost before = m@.mem;
        let b = staged[j as usize];
        m.write_byte(addr + j, b);
        proof {
            let a = addr + j;
            if a / 8 < before.len() {
                let w = before[a / 8];
                assert((b - b) * machine::byte_weight(a % 8) == 0) by (nonlinear_arith);
                assert(machine::with_byte(w, a % 8, b) == w);
            }
            assert(m@.mem =~= before);
        }
        j = j + 1;
    }
    Ok(())
}

} // verus!
