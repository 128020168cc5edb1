use vstd::prelude::*;
use crate::value::JsonValue;
use crate::error::ErrorRecord;
use crate::dispatch::JsonOp;

verus! {

/// The synchronous arm of the blocking bridge: for a call that declared
/// blocking mode, the work has just run on the calling cooperative thread,
/// and its value becomes an immediate outcome while its error propagates
/// unchanged. The non-blocking arm — submitting the work to the worker pool
/// and declaring an `Async` outcome — is the host's, since only the host owns
/// the pool; the pool's eventual result is encoded with `complete_async`.
pub fn blocking_json_sync(result: Result<JsonValue, ErrorRecord>) -> (r: Result<
    JsonOp,
    ErrorRecord,
>)
    ensures
        r == match result {
            Ok(v) => Result::<JsonOp, ErrorRecord>::Ok(JsonOp::Sync(v)),
            Err(e) => Result::<JsonOp, ErrorRecord>::Err(e),
        },
{
    match result {
        Ok(v) => Ok(JsonOp::Sync(v)),
        Err(e) => Err(e),
    }
}

} // verus!
