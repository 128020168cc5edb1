use dispatch_json::codec::{decode, encode};
use dispatch_json::value::JsonValue;

/// Structural equality on decoded values, for test assertions.
fn jeq(a: &JsonValue, b: &JsonValue) -> bool {
    match (a, b) {
        (JsonValue::Null, JsonValue::Null) => true,
        (JsonValue::Bool(x), JsonValue::Bool(y)) => x == y,
        (JsonValue::UInt(x), JsonValue::UInt(y)) => x == y,
        (JsonValue::Str(x), JsonValue::Str(y)) => x == y,
        (JsonValue::Arr(xs), JsonValue::Arr(ys)) => {
            xs.len() == ys.len() && xs.iter().zip(ys.iter()).all(|(x, y)| jeq(x, y))
        }
        (JsonValue::Obj(xs), JsonValue::Obj(ys)) => {
            xs.len() == ys.len()
                && xs
                    .iter()
                    .zip(ys.iter())
                    .all(|(x, y)| x.0 == y.0 && jeq(&x.1, &y.1))
        }
        _ => false,
    }
}

fn sample_nested() -> JsonValue {
    JsonValue::Obj(vec![
        (b"name".to_vec(), JsonValue::Str(b"worker".to_vec())),
        (
            b"sizes".to_vec(),
            JsonValue::Arr(vec![
                JsonValue::UInt(0),
                JsonValue::UInt(18446744073709551615),
                JsonValue::Bool(false),
                JsonValue::Null,
            ]),
        ),
        (b"inner".to_vec(), JsonValue::Obj(vec![])),
    ])
}

#[test]
fn encode_scalars() {
    assert_eq!(encode(&JsonValue::Null), b"null".to_vec());
    assert_eq!(encode(&JsonValue::Bool(true)), b"true".to_vec());
    assert_eq!(encode(&JsonValue::Bool(false)), b"false".to_vec());
    assert_eq!(encode(&JsonValue::UInt(0)), b"0".to_vec());
    assert_eq!(encode(&JsonValue::UInt(12345)), b"12345".to_vec());
    assert_eq!(
        encode(&JsonValue::UInt(u64::MAX)),
        b"18446744073709551615".to_vec()
    );
}

#[test]
fn encode_containers() {
    assert_eq!(encode(&JsonValue::Arr(vec![])), b"[]".to_vec());
    assert_eq!(encode(&JsonValue::Obj(vec![])), b"{}".to_vec());
    let v = JsonValue::Arr(vec![
        JsonValue::UInt(1),
        JsonValue::Str(b"a".to_vec()),
        JsonValue::Null,
    ]);
    assert_eq!(encode(&v), b"[1,\"a\",null]".to_vec());
}

#[test]
fn encode_string_escapes() {
    let v = JsonValue::Str(b"a\"b\\c\nd\re\tf".to_vec());
    assert_eq!(encode(&v), b"\"a\\\"b\\\\c\\nd\\re\\tf\"".to_vec());
}

#[test]
fn decode_scalars() {
    assert!(jeq(&decode(b"null").unwrap(), &JsonValue::Null));
    assert!(jeq(&decode(b"true").unwrap(), &JsonValue::Bool(true)));
    assert!(jeq(&decode(b"0").unwrap(), &JsonValue::UInt(0)));
    assert!(jeq(&decode(b"987654321").unwrap(), &JsonValue::UInt(987654321)));
    assert!(jeq(
        &decode(b"\"hi\\nthere\"").unwrap(),
        &JsonValue::Str(b"hi\nthere".to_vec())
    ));
}

#[test]
fn decode_rejects_malformed() {
    assert!(decode(b"").is_none());
    assert!(decode(b"{").is_none());
    assert!(decode(b"nul").is_none());
    assert!(decode(b"[1,]").is_none());
    assert!(decode(b"{\"a\":}").is_none());
    assert!(decode(b"{\"a\" 1}").is_none());
    assert!(decode(b"\"unterminated").is_none());
    assert!(decode(b"123abc").is_none());
    assert!(decode(b"18446744073709551616").is_none());
    assert!(decode(b"-1").is_none());
}

#[test]
fn decode_encode_round_trip() {
    let v = sample_nested();
    let bytes = encode(&v);
    let back = decode(&bytes).expect("canonical bytes must decode");
    assert!(jeq(&v, &back));
    assert_eq!(encode(&back), bytes);
}

#[test]
fn encoded_bytes_parse_with_serde_json() {
    let v = sample_nested();
    let bytes = encode(&v);
    let parsed: serde_json::Value =
        serde_json::from_slice(&bytes).expect("wire bytes must be well-formed JSON");
    assert_eq!(parsed["name"], serde_json::Value::String("worker".to_string()));
    assert_eq!(parsed["sizes"][0], serde_json::Value::from(0u64));
    assert_eq!(parsed["sizes"][1], serde_json::Value::from(u64::MAX));
    assert_eq!(parsed["sizes"][3], serde_json::Value::Null);
}

#[test]
fn serde_json_bytes_parse_with_decode() {
    let text: serde_json::Value = serde_json::from_str("{\"promiseId\":3,\"path\":\"/tmp/x\"}").unwrap();
    let bytes = serde_json::to_vec(&text).unwrap();
    let v = decode(&bytes).expect("compact JSON from serde_json must decode");
    let expect = JsonValue::Obj(vec![
        (b"path".to_vec(), JsonValue::Str(b"/tmp/x".to_vec())),
        (b"promiseId".to_vec(), JsonValue::UInt(3)),
    ]);
    // serde_json orders object members alphabetically in its default map.
    assert!(jeq(&v, &expect));
}
