//! Memory and processes that the monitor manages.
use vstd::prelude::*;
use crate::address;
use crate::address::status_to_word;
use crate::error::MonitorError;
use crate::RequestParams;

pub mod allocation;
pub mod call_handler;
pub mod memory_channels;
pub mod monitor;
pub mod process;
pub mod process_memory;
pub mod process_paging;

verus! {

/// Places in the store of processes.
pub const PROCESS_STORE_SIZE: u32 = 64;

/// A request was refused.
pub const STATUS_REJECTED: i64 = -1;

/// A request names something that is not there.
pub const STATUS_BAD_ID: i64 = -2;

/// A request comes at the wrong time.
pub const STATUS_BAD_STATE: i64 = -3;

/// A request has arguments that make no sense.
pub const STATUS_BAD_ARGS: i64 = -4;

/// A request needs more than there is.
pub const STATUS_NO_RESOURCES: i64 = -5;

/// A request is not one that the monitor knows.
pub const STATUS_UNSUPPORTED: i64 = -6;

/// The answer to a request that is refused.
pub open spec fn rejected(params: RequestParams, status: i64) -> RequestParams {
    RequestParams { rcx: address::status_word(status), ..params }
}

/// Refuses a request. That is no error: the guest would make a request that
/// ends in an error again, for ever.
pub fn reject(params: &mut RequestParams, status: i64) -> (r: Result<(), MonitorError>)
    ensures
        r is Ok,
        *final(params) == rejected(*old(params), status),
{
    params.rcx = status_to_word(status);
    Ok(())
}

/// A refusal tells the guest a negative status.
pub proof fn law_refusals_are_negative(params: RequestParams, status: i64)
    requires
        status < 0,
    ensures
        rejected(params, status).rcx >= 0x8000_0000_0000_0000,
        rejected(params, status).rcx == 0x1_0000_0000_0000_0000 + status,
{
}

} // verus!
