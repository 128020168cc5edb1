use dispatch_json::blocking::blocking_json_sync;
use dispatch_json::dispatch::{
    complete_async, decode_request, json_err, json_op, route, serialize_result, JsonOp, Request,
    Routed,
};
use dispatch_json::error::{ErrorKind, ErrorRecord};
use dispatch_json::value::JsonValue;

fn boom() -> ErrorRecord {
    ErrorRecord::new(b"boom".to_vec(), ErrorKind::InvalidArgument)
}

#[test]
fn error_kind_codes() {
    assert_eq!(ErrorKind::InvalidArgument.code(), 1);
    assert_eq!(ErrorKind::NotFound.code(), 2);
    assert_eq!(ErrorKind::PermissionDenied.code(), 3);
    assert_eq!(ErrorKind::BadResource.code(), 4);
    assert_eq!(ErrorKind::Internal.code(), 5);
}

#[test]
fn json_err_shape() {
    let bytes = dispatch_json::codec::encode(&json_err(&boom()));
    assert_eq!(bytes, b"{\"message\":\"boom\",\"kind\":1}".to_vec());
}

#[test]
fn serialize_ok_with_id() {
    let buf = serialize_result(Some(42), Ok(JsonValue::UInt(7)));
    assert_eq!(buf, b"{\"ok\":7,\"promiseId\":42}".to_vec());
}

#[test]
fn serialize_ok_without_id() {
    let buf = serialize_result(None, Ok(JsonValue::Str(b"done".to_vec())));
    assert_eq!(buf, b"{\"ok\":\"done\",\"promiseId\":null}".to_vec());
}

#[test]
fn serialize_err_without_id() {
    let buf = serialize_result(None, Err(boom()));
    assert_eq!(
        buf,
        b"{\"err\":{\"message\":\"boom\",\"kind\":1},\"promiseId\":null}".to_vec()
    );
}

#[test]
fn decode_request_sync() {
    match decode_request(b"{\"path\":\"x\"}") {
        Request::Invoke { promise_id, .. } => assert_eq!(promise_id, None),
        _ => panic!("well-formed request was rejected"),
    }
}

#[test]
fn decode_request_null_id_is_sync() {
    match decode_request(b"{\"promiseId\":null}") {
        Request::Invoke { promise_id, .. } => assert_eq!(promise_id, None),
        _ => panic!("well-formed request was rejected"),
    }
}

#[test]
fn decode_request_async() {
    match decode_request(b"{\"promiseId\":3,\"path\":\"x\"}") {
        Request::Invoke { promise_id, .. } => assert_eq!(promise_id, Some(3)),
        _ => panic!("well-formed request was rejected"),
    }
}

#[test]
fn malformed_request_yields_sync_error_with_null_id() {
    for bad in [&b"not json"[..], &b"{\"promiseId\":"[..], &b"{\"promiseId\":\"x\"}"[..], &b"[]"[..]] {
        match decode_request(bad) {
            Request::Reject(buf) => {
                let text = String::from_utf8(buf).unwrap();
                assert!(text.starts_with("{\"err\":"));
                assert!(text.ends_with("\"promiseId\":null}"));
            }
            _ => panic!("malformed request was not rejected"),
        }
    }
}

#[test]
fn route_sync_value() {
    match route(None, Ok(JsonOp::Sync(JsonValue::UInt(5)))) {
        Routed::Sync(buf) => assert_eq!(buf, b"{\"ok\":5,\"promiseId\":null}".to_vec()),
        _ => panic!("synchronous outcome must answer synchronously"),
    }
}

#[test]
fn route_sync_error() {
    match route(None, Err(boom())) {
        Routed::Sync(buf) => assert_eq!(
            buf,
            b"{\"err\":{\"message\":\"boom\",\"kind\":1},\"promiseId\":null}".to_vec()
        ),
        _ => panic!("error for a synchronous call must answer synchronously"),
    }
}

#[test]
fn route_async_error_travels_async_path() {
    match route(Some(7), Err(boom())) {
        Routed::AsyncReady(buf) => assert_eq!(
            buf,
            b"{\"err\":{\"message\":\"boom\",\"kind\":1},\"promiseId\":7}".to_vec()
        ),
        _ => panic!("error for an asynchronous call must travel the async path"),
    }
}

#[test]
fn route_pending_outcomes() {
    assert!(matches!(
        route(Some(3), Ok(JsonOp::Async)),
        Routed::AsyncPending { unref: false }
    ));
    assert!(matches!(
        route(Some(3), Ok(JsonOp::AsyncUnref)),
        Routed::AsyncPending { unref: true }
    ));
}

#[test]
fn route_contract_violations() {
    assert!(matches!(
        route(Some(3), Ok(JsonOp::Sync(JsonValue::Null))),
        Routed::ContractViolation
    ));
    assert!(matches!(route(None, Ok(JsonOp::Async)), Routed::ContractViolation));
    assert!(matches!(
        route(None, Ok(JsonOp::AsyncUnref)),
        Routed::ContractViolation
    ));
}

#[test]
fn complete_async_echoes_id() {
    let buf = complete_async(3, Ok(JsonValue::Str(b"W".to_vec())));
    assert_eq!(buf, b"{\"ok\":\"W\",\"promiseId\":3}".to_vec());
}

#[test]
fn response_round_trip_reconstructs_ok_and_id() {
    let buf = serialize_result(Some(5), Ok(JsonValue::Arr(vec![JsonValue::UInt(9)])));
    let back = dispatch_json::codec::decode(&buf).expect("responses must decode");
    match back {
        JsonValue::Obj(fields) => {
            assert_eq!(fields.len(), 2);
            assert_eq!(fields[0].0, b"ok".to_vec());
            match &fields[0].1 {
                JsonValue::Arr(es) => {
                    assert_eq!(es.len(), 1);
                    assert!(matches!(es[0], JsonValue::UInt(9)));
                }
                _ => panic!("ok payload lost its shape"),
            }
            assert_eq!(fields[1].0, b"promiseId".to_vec());
            assert!(matches!(fields[1].1, JsonValue::UInt(5)));
        }
        _ => panic!("a response must decode to an object"),
    }
}

#[test]
fn blocking_sync_wraps_value() {
    match blocking_json_sync(Ok(JsonValue::UInt(11))) {
        Ok(JsonOp::Sync(JsonValue::UInt(11))) => (),
        _ => panic!("blocking sync work must become an immediate outcome"),
    }
    match blocking_json_sync(Err(boom())) {
        Err(e) => assert_eq!(e.kind, ErrorKind::InvalidArgument),
        _ => panic!("blocking sync failure must propagate"),
    }
}

#[test]
fn sync_blocking_call_full_path() {
    // A blocking-mode call in synchronous mode: request with no promiseId,
    // work runs on the calling thread, response is ready before returning.
    let request = b"{\"size\":2}";
    let (promise_id, _args) = match decode_request(request) {
        Request::Invoke { promise_id, args } => (promise_id, args),
        _ => panic!("well-formed request was rejected"),
    };
    assert_eq!(promise_id, None);
    let outcome = blocking_json_sync(Ok(JsonValue::UInt(4)));
    match route(promise_id, outcome) {
        Routed::Sync(buf) => assert_eq!(buf, b"{\"ok\":4,\"promiseId\":null}".to_vec()),
        _ => panic!("a call without a correlation id must answer synchronously"),
    }
}

#[test]
fn async_blocking_call_full_path() {
    // An asynchronous blocking-mode call: promiseId 3, work offloaded to the
    // worker pool, eventual response carries the id.
    let request = b"{\"promiseId\":3,\"size\":2}";
    let promise_id = match decode_request(request) {
        Request::Invoke { promise_id, .. } => promise_id,
        _ => panic!("well-formed request was rejected"),
    };
    assert_eq!(promise_id, Some(3));
    match route(promise_id, Ok(JsonOp::Async)) {
        Routed::AsyncPending { unref } => assert!(!unref),
        _ => panic!("a declared future must stay pending"),
    }
    let buf = dispatch_json::runtime::run_basic(async {
        let result = tokio::task::spawn_blocking(|| Ok(JsonValue::Str(b"W".to_vec())))
            .await
            .expect("worker must not fault in this scenario");
        complete_async(3, result)
    });
    assert_eq!(buf, b"{\"ok\":\"W\",\"promiseId\":3}".to_vec());
}

#[test]
fn json_op_sync_dispatch() {
    let handler = |args: JsonValue, _zero_copy: Option<Vec<u8>>| match args {
        JsonValue::Obj(_) => Ok(JsonOp::Sync(JsonValue::UInt(1))),
        _ => Err(boom()),
    };
    match json_op(handler, b"{\"x\":9}", None) {
        Routed::Sync(buf) => assert_eq!(buf, b"{\"ok\":1,\"promiseId\":null}".to_vec()),
        _ => panic!("a request without a correlation id must answer synchronously"),
    }
}

#[test]
fn json_op_malformed_request() {
    let handler =
        |_args: JsonValue, _zero_copy: Option<Vec<u8>>| Ok(JsonOp::Sync(JsonValue::Null));
    match json_op(handler, b"###", None) {
        Routed::Sync(buf) => assert_eq!(
            buf,
            b"{\"err\":{\"message\":\"malformed envelope\",\"kind\":1},\"promiseId\":null}"
                .to_vec()
        ),
        _ => panic!("a malformed request must still be answered synchronously"),
    }
}

#[test]
fn json_op_validation_error_takes_async_path() {
    let handler = |_args: JsonValue, _zero_copy: Option<Vec<u8>>| -> Result<JsonOp, ErrorRecord> {
        Err(boom())
    };
    match json_op(handler, b"{\"promiseId\":7}", None) {
        Routed::AsyncReady(buf) => assert_eq!(
            buf,
            b"{\"err\":{\"message\":\"boom\",\"kind\":1},\"promiseId\":7}".to_vec()
        ),
        _ => panic!("an error for an asynchronous call must travel the async path"),
    }
}

#[test]
fn json_op_detects_contract_violation() {
    let handler =
        |_args: JsonValue, _zero_copy: Option<Vec<u8>>| Ok(JsonOp::Sync(JsonValue::Null));
    assert!(matches!(
        json_op(handler, b"{\"promiseId\":1}", None),
        Routed::ContractViolation
    ));
}

#[test]
fn run_basic_drives_future() {
    let n = dispatch_json::runtime::run_basic(async { 41u32 + 1 });
    assert_eq!(n, 42);
}
