use vstd::prelude::*;
use crate::value::{JVal, JsonValue};
use crate::error::{ErrRec, ErrorRecord, invalid_envelope_rec};
use crate::codec::{ser_val, parsed_val, encode, decode};

verus! {

// ---------------------------------------------------------------------------
// The envelope: field names fixed by the wire contract.
// ---------------------------------------------------------------------------

pub open spec fn key_ok() -> Seq<u8> {
    seq![111u8, 107u8]
}

pub open spec fn key_err() -> Seq<u8> {
    seq![101u8, 114u8, 114u8]
}

pub open spec fn key_promise_id() -> Seq<u8> {
    seq![112u8, 114u8, 111u8, 109u8, 105u8, 115u8, 101u8, 73u8, 100u8]
}

pub open spec fn key_message() -> Seq<u8> {
    seq![109u8, 101u8, 115u8, 115u8, 97u8, 103u8, 101u8]
}

pub open spec fn key_kind() -> Seq<u8> {
    seq![107u8, 105u8, 110u8, 100u8]
}

/// How a correlation id appears in a response: always serialized, as an
/// explicit null when the request carried none.
pub open spec fn pid_val(pid: Option<u64>) -> JVal {
    match pid {
        Some(n) => JVal::UInt(n),
        None => JVal::Null,
    }
}

/// The wire shape of a normalized error record.
pub open spec fn err_val(e: ErrRec) -> JVal {
    JVal::Obj(
        seq![(key_message(), JVal::Str(e.message)), (key_kind(), JVal::UInt(e.kind.code_spec()))],
    )
}

/// The response envelope: the `ok`/`err` discriminant first, then the echoed
/// correlation id.
pub open spec fn envelope_val(pid: Option<u64>, r: Result<JVal, ErrRec>) -> JVal {
    match r {
        Ok(v) => JVal::Obj(seq![(key_ok(), v), (key_promise_id(), pid_val(pid))]),
        Err(e) => JVal::Obj(seq![(key_err(), err_val(e)), (key_promise_id(), pid_val(pid))]),
    }
}

/// The bytes a response envelope puts on the wire.
pub open spec fn response_bytes(pid: Option<u64>, r: Result<JVal, ErrRec>) -> Seq<u8> {
    ser_val(envelope_val(pid, r))
}

pub open spec fn res_view(r: Result<JsonValue, ErrorRecord>) -> Result<JVal, ErrRec> {
    match r {
        Ok(v) => Ok(v.deep()),
        Err(e) => Err(e@),
    }
}

// ---------------------------------------------------------------------------
// Reading the request envelope.
// ---------------------------------------------------------------------------

/// First binding of a field name in an object body, scanning from `i`.
pub open spec fn lookup_from(fs: Seq<(Seq<u8>, JVal)>, k: Seq<u8>, i: int) -> Option<JVal>
    decreases fs.len() - i,
{
    if i < 0 || i >= fs.len() {
        None
    } else if fs[i].0 == k {
        Some(fs[i].1)
    } else {
        lookup_from(fs, k, i + 1)
    }
}

pub open spec fn lookup(fs: Seq<(Seq<u8>, JVal)>, k: Seq<u8>) -> Option<JVal> {
    lookup_from(fs, k, 0)
}

/// The correlation id a request value declares: `Some(pid)` when the value is
/// an object whose `promiseId` field is absent, null, or an unsigned integer;
/// `None` when the value does not have the envelope shape.
pub open spec fn promise_id_of(v: JVal) -> Option<Option<u64>> {
    match v {
        JVal::Obj(fs) => match lookup(fs, key_promise_id()) {
            None => Some(None),
            Some(JVal::Null) => Some(None),
            Some(JVal::UInt(n)) => Some(Some(n)),
            Some(_) => None,
        },
        _ => None,
    }
}

// ---------------------------------------------------------------------------
// Dispatch outcomes.
// ---------------------------------------------------------------------------

/// What a handler hands back: an immediate value, or the declaration that its
/// result arrives later as a future the host drives (`Async`), possibly one
/// whose pendingness must not keep the process alive (`AsyncUnref`). The
/// future itself stays with the host layer; the core routes on the shape.
pub enum JsonOp {
    Sync(JsonValue),
    Async,
    AsyncUnref,
}

pub ghost enum JOp {
    Sync(JVal),
    Async,
    AsyncUnref,
}

impl View for JsonOp {
    type V = JOp;

    open spec fn view(&self) -> JOp {
        match self {
            JsonOp::Sync(v) => JOp::Sync(v.deep()),
            JsonOp::Async => JOp::Async,
            JsonOp::AsyncUnref => JOp::AsyncUnref,
        }
    }
}

pub open spec fn rop_view(r: Result<JsonOp, ErrorRecord>) -> Result<JOp, ErrRec> {
    match r {
        Ok(op) => Ok(op@),
        Err(e) => Err(e@),
    }
}

/// Where one dispatch's response travels. `Sync` answers before the dispatch
/// call returns. `AsyncReady` is an already-known response that must still be
/// delivered on the asynchronous channel the caller is waiting on.
/// `AsyncPending` tells the host to drive the handler's future and to encode
/// its eventual result with `complete_async`. `ContractViolation` reports a
/// handler whose outcome shape contradicts the caller's declared expectation:
/// a handler bug, which the host aborts on rather than papers over.
pub enum Routed {
    Sync(Vec<u8>),
    AsyncReady(Vec<u8>),
    AsyncPending { unref: bool },
    ContractViolation,
}

pub ghost enum RoutedSpec {
    Sync(Seq<u8>),
    AsyncReady(Seq<u8>),
    AsyncPending { unref: bool },
    ContractViolation,
}

impl View for Routed {
    type V = RoutedSpec;

    open spec fn view(&self) -> RoutedSpec {
        match self {
            Routed::Sync(b) => RoutedSpec::Sync(b@),
            Routed::AsyncReady(b) => RoutedSpec::AsyncReady(b@),
            Routed::AsyncPending { unref } => RoutedSpec::AsyncPending { unref: *unref },
            Routed::ContractViolation => RoutedSpec::ContractViolation,
        }
    }
}

/// The routing discipline: a value answers synchronously only for a call
/// without a correlation id; a declared future answers only a call with one;
/// an error answers on whichever channel the caller committed to.
pub open spec fn route_spec(pid: Option<u64>, result: Result<JOp, ErrRec>) -> RoutedSpec {
    match result {
        Ok(JOp::Sync(v)) => match pid {
            None => RoutedSpec::Sync(response_bytes(None, Ok(v))),
            Some(_) => RoutedSpec::ContractViolation,
        },
        Ok(JOp::Async) => match pid {
            Some(_) => RoutedSpec::AsyncPending { unref: false },
            None => RoutedSpec::ContractViolation,
        },
        Ok(JOp::AsyncUnref) => match pid {
            Some(_) => RoutedSpec::AsyncPending { unref: true },
            None => RoutedSpec::ContractViolation,
        },
        Err(e) => match pid {
            None => RoutedSpec::Sync(response_bytes(None, Err(e))),
            Some(n) => RoutedSpec::AsyncReady(response_bytes(Some(n), Err(e))),
        },
    }
}

// ---------------------------------------------------------------------------
// Executable dispatch.
// ---------------------------------------------------------------------------

fn key_ok_vec() -> (k: Vec<u8>)
    ensures
        k@ == key_ok(),
{
    let k: Vec<u8> = vec![111, 107];
    proof {
        assert(k@ =~= key_ok());
    }
    k
}

fn key_err_vec() -> (k: Vec<u8>)
    ensures
        k@ == key_err(),
{
    let k: Vec<u8> = vec![101, 114, 114];
    proof {
        assert(k@ =~= key_err());
    }
    k
}

fn key_promise_id_vec() -> (k: Vec<u8>)
    ensures
        k@ == key_promise_id(),
{
    let k: Vec<u8> = vec![112, 114, 111, 109, 105, 115, 101, 73, 100];
    proof {
        assert(k@ =~= key_promise_id());
    }
    k
}

fn key_message_vec() -> (k: Vec<u8>)
    ensures
        k@ == key_message(),
{
    let k: Vec<u8> = vec![109, 101, 115, 115, 97, 103, 101];
    proof {
        assert(k@ =~= key_message());
    }
    k
}

fn key_kind_vec() -> (k: Vec<u8>)
    ensures
        k@ == key_kind(),
{
    let k: Vec<u8> = vec![107, 105, 110, 100];
    proof {
        assert(k@ =~= key_kind());
    }
    k
}

fn bytes_eq(a: &Vec<u8>, b: &Vec<u8>) -> (r: bool)
    ensures
        r == (a@ == b@),
{
    if a.len() != b.len() {
        return false;
    }
    let n = a.len();
    let mut i: usize = 0;
    while i < n
        invariant
            i <= n,
            n == a@.len() == b@.len(),
            forall|k: int| 0 <= k < i ==> a@[k] == b@[k],
        decreases n - i,
    {
        if a[i] != b[i] {
            return false;
        }
        i = i + 1;
    }
    proof {
        assert(a@ =~= b@);
    }
    true
}

/// Normalize an error record to its wire value.
pub fn json_err(err: &ErrorRecord) -> (v: JsonValue)
    ensures
        v@ == err_val(err@),
{
    let mut fields: Vec<(Vec<u8>, JsonValue)> = Vec::new();
    let mut msg: Vec<u8> = Vec::new();
    let mut i: usize = 0;
    let n = err.message.len();
    while i < n
        invariant
            i <= n,
            n == err.message@.len(),
            msg@ == err.message@.subrange(0, i as int),
        decreases n - i,
    {
        msg.push(err.message[i]);
        assert(msg@ =~= err.message@.subrange(0, i + 1));
        i = i + 1;
    }
    assert(msg@ =~= err.message@);
    fields.push((key_message_vec(), JsonValue::Str(msg)));
    fields.push((key_kind_vec(), JsonValue::UInt(err.kind.code())));
    let v = JsonValue::Obj(fields);
    proof {
        crate::value::lemma_deep_fields_index(v->Obj_0@);
        assert(JsonValue::deep_fields(v->Obj_0@) =~= err_val(err@)->Obj_0);
    }
    v
}

/// Encode one dispatch result as a response envelope: success or error, with
/// the correlation id echoed (null when absent). Encoding is total.
pub fn serialize_result(promise_id: Option<u64>, result: Result<JsonValue, ErrorRecord>) -> (buf:
    Vec<u8>)
    ensures
        buf@ == response_bytes(promise_id, res_view(result)),
{
    let ghost gres = res_view(result);
    let pid_v = match promise_id {
        Some(n) => JsonValue::UInt(n),
        None => JsonValue::Null,
    };
    assert(pid_v@ == pid_val(promise_id));
    let value = match result {
        Ok(v) => {
            let mut fields: Vec<(Vec<u8>, JsonValue)> = Vec::new();
            fields.push((key_ok_vec(), v));
            fields.push((key_promise_id_vec(), pid_v));
            JsonValue::Obj(fields)
        },
        Err(e) => {
            let mut fields: Vec<(Vec<u8>, JsonValue)> = Vec::new();
            fields.push((key_err_vec(), json_err(&e)));
            fields.push((key_promise_id_vec(), pid_v));
            JsonValue::Obj(fields)
        },
    };
    proof {
        crate::value::lemma_deep_fields_index(value->Obj_0@);
        assert(JsonValue::deep_fields(value->Obj_0@) =~= envelope_val(promise_id, gres)->Obj_0);
    }
    encode(&value)
}

/// Encode the eventual result of an asynchronous dispatch under its
/// correlation id: the continuation attached to every pending future.
pub fn complete_async(promise_id: u64, result: Result<JsonValue, ErrorRecord>) -> (buf: Vec<u8>)
    ensures
        buf@ == response_bytes(Some(promise_id), res_view(result)),
{
    serialize_result(Some(promise_id), result)
}

/// What the first dispatch step found in the raw request buffer.
pub enum Request {
    /// The buffer is not a well-formed request envelope: respond at once with
    /// these bytes — an error envelope with a null correlation id — so that
    /// the host still gets exactly one reply.
    Reject(Vec<u8>),
    /// A well-formed request: the declared correlation id and the parsed
    /// argument value to hand to the handler.
    Invoke { promise_id: Option<u64>, args: JsonValue },
}

/// Decode a raw request buffer far enough to extract the correlation id,
/// keeping the parsed value for the handler. A buffer that cannot be decoded
/// into the envelope shape is rejected with a synchronous error response.
pub fn decode_request(control: &[u8]) -> (r: Request)
    ensures
        match r {
            Request::Reject(buf) => {
                &&& (parsed_val(control@) is None || promise_id_of(parsed_val(control@)->Some_0)
                    is None)
                &&& buf@ == response_bytes(None, Err(invalid_envelope_rec()))
            },
            Request::Invoke { promise_id, args } => {
                &&& parsed_val(control@) == Some(args.deep())
                &&& promise_id_of(args.deep()) == Some(promise_id)
            },
        },
{
    let parsed = decode(control);
    match parsed {
        None => Request::Reject(serialize_result(None, Err(ErrorRecord::invalid_envelope()))),
        Some(args) => {
            match extract_promise_id(&args) {
                None => Request::Reject(
                    serialize_result(None, Err(ErrorRecord::invalid_envelope())),
                ),
                Some(promise_id) => Request::Invoke { promise_id, args },
            }
        },
    }
}

/// The correlation id declared by a parsed request value, or `None` when the
/// value does not have the envelope shape.
#[verifier::loop_isolation(false)]
fn extract_promise_id(args: &JsonValue) -> (r: Option<Option<u64>>)
    ensures
        r == promise_id_of(args.deep()),
{
    let key = key_promise_id_vec();
    match args {
        JsonValue::Obj(fs) => {
            proof {
                crate::value::lemma_deep_fields_index(fs@);
            }
            let ghost gfs = JsonValue::deep_fields(fs@);
            let n = fs.len();
            let mut i: usize = 0;
            while i < n
                invariant
                    i <= n,
                    n == fs@.len(),
                    gfs == JsonValue::deep_fields(fs@),
                    gfs.len() == n,
                    forall|k: int| 0 <= k < n ==> #[trigger] gfs[k] == (fs@[k].0@, fs@[k].1.deep()),
                    key@ == key_promise_id(),
                    lookup(gfs, key_promise_id()) == lookup_from(gfs, key_promise_id(), i as int),
                decreases n - i,
            {
                if bytes_eq(&fs[i].0, &key) {
                    proof {
                        assert(gfs[i as int].0 == key_promise_id());
                        assert(lookup_from(gfs, key_promise_id(), i as int) == Some(
                            gfs[i as int].1,
                        ));
                        assert(gfs[i as int].1 == fs@[i as int].1.deep());
                        assert(args.deep() == JVal::Obj(gfs));
                    }
                    return match &fs[i].1 {
                        JsonValue::Null => Some(None),
                        JsonValue::UInt(pid) => Some(Some(*pid)),
                        _ => None,
                    };
                }
                i = i + 1;
            }
            Some(None)
        },
        _ => None,
    }
}

/// Route one handler outcome to its response channel, honoring the caller's
/// declared expectation.
pub fn route(promise_id: Option<u64>, result: Result<JsonOp, ErrorRecord>) -> (r: Routed)
    ensures
        r@ == route_spec(promise_id, rop_view(result)),
{
    match result {
        Ok(JsonOp::Sync(v)) => match promise_id {
            None => Routed::Sync(serialize_result(None, Ok(v))),
            Some(_) => Routed::ContractViolation,
        },
        Ok(JsonOp::Async) => match promise_id {
            Some(_) => Routed::AsyncPending { unref: false },
            None => Routed::ContractViolation,
        },
        Ok(JsonOp::AsyncUnref) => match promise_id {
            Some(_) => Routed::AsyncPending { unref: true },
            None => Routed::ContractViolation,
        },
        Err(e) => match promise_id {
            None => Routed::Sync(serialize_result(None, Err(e))),
            Some(n) => Routed::AsyncReady(serialize_result(Some(n), Err(e))),
        },
    }
}

/// One whole dispatch: decode the request far enough to extract the
/// correlation id, hand the parsed arguments and the untouched binary payload
/// to the handler, and route its outcome to the response channel the caller
/// committed to. Every call produces exactly one `Routed`; a buffer that does
/// not decode is answered with a synchronous error envelope rather than
/// dropped.
pub fn json_op<D: Fn(JsonValue, Option<Vec<u8>>) -> Result<JsonOp, ErrorRecord>>(
    d: D,
    control: &[u8],
    zero_copy: Option<Vec<u8>>,
) -> (r: Routed)
    requires
        forall|a: JsonValue, z: Option<Vec<u8>>| call_requires(d, (a, z)),
    ensures
        (parsed_val(control@) is None || promise_id_of(parsed_val(control@)->Some_0) is None)
            ==> r@ == RoutedSpec::Sync(response_bytes(None, Err(invalid_envelope_rec()))),
        (parsed_val(control@) is Some && promise_id_of(parsed_val(control@)->Some_0) is Some)
            ==> exists|a: JsonValue, h: Result<JsonOp, ErrorRecord>|
            {
                &&& a.deep() == parsed_val(control@)->Some_0
                &&& #[trigger] call_ensures(d, (a, zero_copy), h)
                &&& r@ == route_spec(promise_id_of(parsed_val(control@)->Some_0)->Some_0, rop_view(h))
            },
{
    match decode_request(control) {
        Request::Reject(buf) => Routed::Sync(buf),
        Request::Invoke { promise_id, args } => {
            let ghost ga = args;
            let result = d(args, zero_copy);
            let r = route(promise_id, result);
            proof {
                assert(call_ensures(d, (ga, zero_copy), result));
            }
            r
        },
    }
}

} // verus!
