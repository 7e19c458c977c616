use mcp_client::codec::Notification;
use mcp_client::codec::Request;
use mcp_client::codec::encode_notification;
use mcp_client::codec::encode_request;
use mcp_client::codec::escape_string;
use mcp_client::codec::u64_to_dec;

#[test]
fn encode_request_exact_text() {
    let req = Request {
        method: String::from("m"),
        params: String::from("{}"),
        id: 7,
    };
    let line = encode_request(&req);
    assert_eq!(line, "{\"jsonrpc\":\"2.0\",\"method\":\"m\",\"params\":{},\"id\":7}");
}

#[test]
fn encode_notification_exact_text() {
    let note = Notification {
        method: String::from("initialized"),
        params: String::from("{}"),
    };
    let line = encode_notification(&note);
    assert_eq!(line, "{\"jsonrpc\":\"2.0\",\"method\":\"initialized\",\"params\":{}}");
}

#[test]
fn encode_request_round_trips_through_json() {
    let params_text = "{\"a\":[1,2],\"b\":\"x\\ny\"}";
    let req = Request {
        method: String::from("search"),
        params: String::from(params_text),
        id: 42,
    };
    let line = encode_request(&req);
    let v: serde_json::Value = serde_json::from_str(&line).unwrap();
    assert_eq!(v["jsonrpc"], "2.0");
    assert_eq!(v["method"], "search");
    assert_eq!(v["id"], 42);
    let params_back: serde_json::Value = serde_json::from_str(params_text).unwrap();
    assert_eq!(v["params"], params_back);
}

#[test]
fn encode_request_escapes_method() {
    let req = Request {
        method: String::from("we\"ird\\method\nname\ttab"),
        params: String::from("{}"),
        id: 1,
    };
    let line = encode_request(&req);
    assert!(!line.contains('\n'));
    let v: serde_json::Value = serde_json::from_str(&line).unwrap();
    assert_eq!(v["method"], "we\"ird\\method\nname\ttab");
}

#[test]
fn escape_string_rewrites_specials() {
    assert_eq!(escape_string("a\"b\\c\nd"), "a\\\"b\\\\c\\nd");
    assert_eq!(escape_string("\r\t"), "\\r\\t");
    assert_eq!(escape_string("\u{0008}\u{000C}"), "\\b\\f");
    assert_eq!(escape_string("plain"), "plain");
    assert_eq!(escape_string(""), "");
}

#[test]
fn u64_to_dec_exact() {
    assert_eq!(u64_to_dec(0), "0");
    assert_eq!(u64_to_dec(9), "9");
    assert_eq!(u64_to_dec(10), "10");
    assert_eq!(u64_to_dec(1234567890), "1234567890");
    assert_eq!(u64_to_dec(u64::MAX), "18446744073709551615");
}
