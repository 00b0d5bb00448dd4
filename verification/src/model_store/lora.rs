//! Requests on the store of adapters.
use vstd::prelude::*;
use crate::error::MonitorError;
use crate::memory::machine::Machine;
use crate::model_store;
use crate::model_store::store::{Store, StoreEntry};
use crate::model_store::stream::Stream;
use crate::model_store::{load_fin, load_into, LoadStep};
use crate::RequestParams;

verus! {

/// Starts to load one of the adapters; see `load_into`.
pub fn lora_load_init(
    m: &mut Machine,
    stream: &mut Stream,
    store: &mut Store<StoreEntry>,
    params: &mut RequestParams,
    now: u64,
) -> (r: Result<(), MonitorError>)
    requires
        model_store::store_wf(old(store)@),
    ensures
        r is Ok,
        model_store::store_wf(final(store)@),
        (final(m)@, *final(stream), final(store)@, final(params).rcx)
            == model_store::load_requested(
            old(m)@,
            *old(stream),
            old(store)@,
            old(params).rcx,
            old(params).rdx,
            now,
        ),
        *final(params) == (RequestParams { rcx: final(params).rcx, ..*old(params) }),
{
    load_into(m, stream, store, params, now);
    Ok(())
}

/// Ends the load of one of the adapters; see `load_fin`.
pub fn lora_load_data(
    m: &mut Machine,
    stream: &mut Stream,
    store: &mut Store<StoreEntry>,
    params: &mut RequestParams,
) -> (r: LoadStep)
    ensures
        model_store::load_ended(
            old(m)@,
            *old(stream),
            old(store)@,
            *old(params),
            final(m)@,
            *final(stream),
            final(store)@,
            *final(params),
            r,
        ),
{
    load_fin(m, stream, store, params)
}

/// Frees one of the adapters; see `delete`.
pub fn lora_delete(m: &mut Machine, store: &mut Store<StoreEntry>, params: &mut RequestParams) -> (r:
    Result<(), MonitorError>)
    ensures
        r is Ok,
        (final(m)@, final(store)@, *final(params)) == model_store::deleted(
            old(m)@,
            old(store)@,
            *old(params),
        ),
{
    model_store::delete(m, params, store)
}

/// Shows one of the adapters to the guest; see `get`.
pub fn lora_get(m: &mut Machine, store: &Store<StoreEntry>, params: &mut RequestParams) -> (r: Result<
    (),
    MonitorError,
>)
    ensures
        r is Ok,
        (final(m)@, *final(params)) == model_store::shown(old(m)@, store@, *old(params)),
{
    model_store::get(m, params, store)
}

/// Takes one of the adapters out of the guest's sight; see `get_undo`.
pub fn lora_get_undo(m: &mut Machine, store: &Store<StoreEntry>, params: &mut RequestParams) -> (r:
    Result<(), MonitorError>)
    ensures
        r is Ok,
        (final(m)@, *final(params)) == model_store::unshown(old(m)@, store@, *old(params)),
{
    model_store::get_undo(m, params, store)
}

} // verus!
