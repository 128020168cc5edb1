use vstd::prelude::*;
use crate::value::JVal;
use crate::error::{ErrRec, invalid_envelope_rec};
use crate::dispatch::{
    envelope_val, response_bytes, route_spec, promise_id_of, lookup, lookup_from, pid_val,
    err_val, key_ok, key_err, key_promise_id, JOp, RoutedSpec,
};

verus! {

/// Correlation law: every response envelope echoes exactly the correlation id
/// it was encoded under — reading the id back out of the envelope yields that
/// id, with null standing for absent.
pub proof fn lemma_response_correlation(pid: Option<u64>, r: Result<JVal, ErrRec>)
    ensures
        promise_id_of(envelope_val(pid, r)) == Some(pid),
{
    let fs = envelope_val(pid, r)->Obj_0;
    assert(key_ok().len() == 2);
    assert(key_err().len() == 3);
    assert(key_promise_id().len() == 9);
    assert(fs[0].0 != key_promise_id());
    assert(lookup(fs, key_promise_id()) == lookup_from(fs, key_promise_id(), 1));
    assert(lookup_from(fs, key_promise_id(), 1) == Some(pid_val(pid)));
}

/// A success envelope carries its value under `ok`; an error envelope carries
/// its normalized record under `err`.
pub proof fn lemma_envelope_payload(pid: Option<u64>, r: Result<JVal, ErrRec>)
    ensures
        r matches Ok(v) ==> lookup(envelope_val(pid, r)->Obj_0, key_ok()) == Some(v),
        r matches Err(e) ==> lookup(envelope_val(pid, r)->Obj_0, key_err()) == Some(err_val(e)),
{
}

/// A dispatch with no correlation id never takes an asynchronous channel: it
/// either answers before returning — with a response whose correlation id is
/// null — or reports the handler's contract violation.
pub proof fn lemma_sync_dispatch(result: Result<JOp, ErrRec>)
    ensures
        !(route_spec(None, result) is AsyncReady),
        !(route_spec(None, result) is AsyncPending),
        result matches Ok(JOp::Sync(v)) ==> route_spec(None, result) == RoutedSpec::Sync(
            response_bytes(None, Ok(v)),
        ) && promise_id_of(envelope_val(None, Ok(v))) == Some(None::<u64>),
        result matches Err(e) ==> route_spec(None, result) == RoutedSpec::Sync(
            response_bytes(None, Err(e)),
        ) && promise_id_of(envelope_val(None, Err(e))) == Some(None::<u64>),
        route_spec(None, result) is ContractViolation <==> (result is Ok && !(result->Ok_0
            is Sync)),
{
    match result {
        Ok(JOp::Sync(v)) => lemma_response_correlation(None, Ok(v)),
        Err(e) => lemma_response_correlation(None, Err(e)),
        _ => (),
    }
}

/// A dispatch that declared correlation id `n` never answers on the
/// synchronous channel, and any bytes it delivers at once — an error that the
/// caller must still receive asynchronously — carry exactly `n`.
pub proof fn lemma_async_dispatch(n: u64, result: Result<JOp, ErrRec>)
    ensures
        !(route_spec(Some(n), result) is Sync),
        result matches Err(e) ==> route_spec(Some(n), result) == RoutedSpec::AsyncReady(
            response_bytes(Some(n), Err(e)),
        ) && promise_id_of(envelope_val(Some(n), Err(e))) == Some(Some(n)),
        result == Ok::<JOp, ErrRec>(JOp::Async) ==> route_spec(Some(n), result)
            == (RoutedSpec::AsyncPending { unref: false }),
        result == Ok::<JOp, ErrRec>(JOp::AsyncUnref) ==> route_spec(Some(n), result)
            == (RoutedSpec::AsyncPending { unref: true }),
        route_spec(Some(n), result) is ContractViolation <==> result matches Ok(JOp::Sync(_)),
{
    if let Err(e) = result {
        lemma_response_correlation(Some(n), Err(e));
    }
}

/// A request that cannot be decoded into the envelope shape is still answered,
/// exactly once, with an error envelope whose correlation id is null.
pub proof fn lemma_reject_response()
    ensures
        promise_id_of(envelope_val(None, Err(invalid_envelope_rec()))) == Some(None::<u64>),
        lookup(envelope_val(None, Err(invalid_envelope_rec()))->Obj_0, key_err()) == Some(
            err_val(invalid_envelope_rec()),
        ),
{
    lemma_response_correlation(None, Err(invalid_envelope_rec()));
    lemma_envelope_payload(None, Err(invalid_envelope_rec()));
}

/// A blocking-mode call in synchronous mode that returns value `v` — an
/// immediate outcome, as `blocking_json_sync` wraps it — answers on the
/// synchronous channel with a success envelope carrying `v` and a null
/// correlation id.
pub proof fn lemma_blocking_sync_response(v: JVal)
    ensures
        route_spec(None, Ok(JOp::Sync(v))) == RoutedSpec::Sync(response_bytes(None, Ok(v))),
        promise_id_of(envelope_val(None, Ok(v))) == Some(None::<u64>),
        lookup(envelope_val(None, Ok(v))->Obj_0, key_ok()) == Some(v),
{
    lemma_response_correlation(None, Ok(v));
    lemma_envelope_payload(None, Ok(v));
}

/// Round-trip law: decoding the bytes of an encoded response reconstructs the
/// envelope exactly — its `ok` payload equals the encoded value and its
/// `promiseId` equals the encoded correlation id, null when the id was
/// absent.
pub proof fn lemma_response_round_trip(pid: Option<u64>, r: Result<JVal, ErrRec>)
    ensures
        crate::codec::parsed_val(response_bytes(pid, r)) == Some(envelope_val(pid, r)),
        promise_id_of(envelope_val(pid, r)) == Some(pid),
        r matches Ok(v) ==> lookup(envelope_val(pid, r)->Obj_0, key_ok()) == Some(v),
        r matches Err(e) ==> lookup(envelope_val(pid, r)->Obj_0, key_err()) == Some(err_val(e)),
{
    crate::roundtrip::lemma_round_trip(envelope_val(pid, r));
    lemma_response_correlation(pid, r);
    lemma_envelope_payload(pid, r);
}

/// The completion of a pending dispatch under id `n` is one envelope carrying
/// exactly `n`, with the handler's value under `ok` or its normalized error
/// under `err`.
pub proof fn lemma_async_completion(n: u64, r: Result<JVal, ErrRec>)
    ensures
        promise_id_of(envelope_val(Some(n), r)) == Some(Some(n)),
        r matches Ok(v) ==> lookup(envelope_val(Some(n), r)->Obj_0, key_ok()) == Some(v),
        r matches Err(e) ==> lookup(envelope_val(Some(n), r)->Obj_0, key_err()) == Some(
            err_val(e),
        ),
{
    lemma_response_correlation(Some(n), r);
    lemma_envelope_payload(Some(n), r);
}

} // verus!
