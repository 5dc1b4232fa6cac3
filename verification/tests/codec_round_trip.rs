//! The JSON codec and the message codec over the wire, including
//! round trips through text and cross-checks against an independent
//! JSON implementation.

use mmcp::codec::{json_to_string, parse_json};
use mmcp::json::{i64_from_str, i64_string, JsonValue};
use mmcp::mcp_codec::{parse_message, serialize_message};
use mmcp::mcp::{JSONRPCMessage, JSONRPCRequest, RequestId};

#[test]
fn parse_then_serialize_keeps_text() {
    let text = "{\"a\":1,\"b\":[true,false,null,\"x\"],\"c\":{\"d\":-2.5e3}}";
    let v = parse_json(text).unwrap();
    assert_eq!(json_to_string(&v), text);
}

#[test]
fn serialize_then_parse_keeps_value() {
    let v = JsonValue::Obj(vec![
        ("k".to_string(), JsonValue::Str("va\"l\\ue".to_string())),
        ("n".to_string(), JsonValue::Num("42".to_string())),
        (
            "arr".to_string(),
            JsonValue::Arr(vec![JsonValue::Null, JsonValue::Bool(true)]),
        ),
    ]);
    let text = json_to_string(&v);
    let back = parse_json(&text).unwrap();
    assert_eq!(back, v);
}

#[test]
fn parser_accepts_whitespace_and_escapes() {
    let v = parse_json(" { \"a\" : \"line\\nbreak\\u0041\" , \"b\" : [ 1 , 2 ] } ").unwrap();
    match &v {
        JsonValue::Obj(entries) => {
            assert_eq!(entries[0].1, JsonValue::Str("line\nbreakA".to_string()));
            assert_eq!(entries[1].0, "b");
        }
        _ => panic!("expected an object"),
    }
}

#[test]
fn parser_rejects_malformed_text() {
    assert!(parse_json("{\"a\":}").is_none());
    assert!(parse_json("[1,2").is_none());
    assert!(parse_json("\"unterminated").is_none());
    assert!(parse_json("{}extra").is_none());
    assert!(parse_json("").is_none());
}

#[test]
fn serializer_output_is_json_to_serde() {
    let v = JsonValue::Obj(vec![
        (
            "text".to_string(),
            JsonValue::Str("quote \" slash \\ control \u{01}".to_string()),
        ),
        ("num".to_string(), JsonValue::Num(i64_string(-987))),
    ]);
    let text = json_to_string(&v);
    let parsed: serde_json::Value = serde_json::from_str(&text).unwrap();
    assert_eq!(
        parsed["text"],
        serde_json::Value::String("quote \" slash \\ control \u{01}".to_string())
    );
    assert_eq!(parsed["num"], serde_json::Value::from(-987i64));
}

#[test]
fn parser_agrees_with_serde_on_line() {
    let line = "{\"id\":7,\"jsonrpc\":\"2.0\",\"method\":\"ping\",\"params\":{\"deep\":[{\"x\":1}]}}";
    assert!(serde_json::from_str::<serde_json::Value>(line).is_ok());
    assert!(parse_json(line).is_some());
}

#[test]
fn integer_lexemes_round_trip() {
    for v in [0i64, 1, -1, 42, -987654321, i64::MAX, i64::MIN] {
        let s = i64_string(v);
        assert_eq!(i64_from_str(&s), Some(v));
    }
    assert_eq!(i64_from_str("9223372036854775807"), Some(i64::MAX));
    assert_eq!(i64_from_str("-9223372036854775808"), Some(i64::MIN));
    assert_eq!(i64_from_str("9223372036854775808"), None);
    assert_eq!(i64_from_str("12x"), None);
    assert_eq!(i64_from_str(""), None);
    assert_eq!(i64_from_str("-"), None);
}

#[test]
fn message_round_trips_with_extra_fields() {
    let line = "{\"id\":\"abc\",\"jsonrpc\":\"2.0\",\"method\":\"tools/list\",\"vendorTag\":{\"keep\":[1,2,3]}}";
    let m = parse_message(line).unwrap();
    assert_eq!(serialize_message(&m), line);
    let again = parse_message(&serialize_message(&m)).unwrap();
    assert_eq!(again, m);
}

#[test]
fn response_and_error_round_trip() {
    for line in [
        "{\"id\":1,\"jsonrpc\":\"2.0\",\"result\":{\"ok\":true,\"extraKey\":null}}",
        "{\"id\":2,\"jsonrpc\":\"2.0\",\"error\":{\"code\":-32601,\"message\":\"no\",\"data\":[1]}}",
        "[{\"id\":3,\"jsonrpc\":\"2.0\",\"method\":\"ping\"},{\"jsonrpc\":\"2.0\",\"method\":\"notifications/progress\"}]",
        "[{\"id\":4,\"jsonrpc\":\"2.0\",\"result\":{}}]",
    ] {
        let m = parse_message(line).unwrap();
        assert_eq!(serialize_message(&m), line);
    }
}

#[test]
fn request_builds_and_serializes() {
    let m = JSONRPCMessage::JSONRPCRequest(JSONRPCRequest {
        id: RequestId::Int(9),
        method: "ping".to_string(),
        params: None,
        extra: Vec::new(),
    });
    assert_eq!(
        serialize_message(&m),
        "{\"id\":9,\"jsonrpc\":\"2.0\",\"method\":\"ping\"}"
    );
}

#[test]
fn float_id_demotes_request_to_notification() {
    // An identifier must be an integer or a string; anything else makes
    // the shape fall through to the next one, a notification.
    let m = parse_message("{\"id\":1.5,\"jsonrpc\":\"2.0\",\"method\":\"ping\"}").unwrap();
    assert!(matches!(m, JSONRPCMessage::JSONRPCNotification(_)));
}
