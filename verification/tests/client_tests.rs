use mcp_client::McpError;
use mcp_client::client::MCPClient;
use mcp_client::client::build_search_params;
use mcp_client::transport::ClosedTransport;
use mcp_client::transport::MemTransport;

fn lines(texts: &[&str]) -> Vec<String> {
    texts.iter().map(|t| String::from(*t)).collect()
}

const INIT_LINE: &str = "{\"jsonrpc\":\"2.0\",\"method\":\"initialize\",\"params\":{\"version\":\"1.0\",\"capabilities\":{\"tools\":{}}},\"id\":1}";
const INITIALIZED_LINE: &str = "{\"jsonrpc\":\"2.0\",\"method\":\"initialized\",\"params\":{}}";

#[test]
fn fresh_client_is_not_initialized() {
    let client = MCPClient::new(MemTransport::new(Vec::new()));
    assert!(!client.initialized);
    assert_eq!(client.request_id, 1);
}

#[test]
fn handshake_writes_two_messages_and_reads_one() {
    let mut client = MCPClient::new(MemTransport::new(lines(&["some banner", "{}"])));
    client.connect().unwrap();
    assert!(client.initialized);
    assert_eq!(
        client.transport.written,
        vec![String::from(INIT_LINE), String::from(INITIALIZED_LINE)]
    );
    // the banner and the one reply line were consumed, nothing more
    assert_eq!(client.transport.cursor, 2);
    assert_eq!(client.request_id, 2);
}

#[test]
fn handshake_lines_are_valid_json() {
    let mut client = MCPClient::new(MemTransport::new(lines(&["{}"])));
    client.connect().unwrap();
    for line in &client.transport.written {
        let v: serde_json::Value = serde_json::from_str(line).unwrap();
        assert_eq!(v["jsonrpc"], "2.0");
    }
    let init: serde_json::Value = serde_json::from_str(&client.transport.written[0]).unwrap();
    assert_eq!(init["method"], "initialize");
    assert_eq!(init["params"]["version"], "1.0");
    assert!(init["params"]["capabilities"]["tools"].is_object());
    assert_eq!(init["id"], 1);
    let note: serde_json::Value = serde_json::from_str(&client.transport.written[1]).unwrap();
    assert_eq!(note["method"], "initialized");
    assert!(note.get("id").is_none());
}

#[test]
fn connect_fails_when_peer_is_silent() {
    let mut client = MCPClient::new(MemTransport::new(lines(&["no protocol here"])));
    assert_eq!(client.connect(), Err(McpError::PeerClosed));
    assert!(!client.initialized);
}

#[test]
fn connect_fails_on_closed_transport() {
    let mut client = MCPClient::new(ClosedTransport::new());
    assert_eq!(client.connect(), Err(McpError::Io));
    assert!(!client.initialized);
}

#[test]
fn call_before_handshake_fails_without_touching_transport() {
    // this transport fails on any use, so the call must be refused before I/O
    let mut client = MCPClient::new(ClosedTransport::new());
    assert_eq!(client.call_tool("t", "{}"), Err(McpError::NotInitialized));
    // and on a recording transport, nothing is written or consumed
    let mut client = MCPClient::new(MemTransport::new(lines(&["{}"])));
    assert_eq!(client.call_tool("t", "{}"), Err(McpError::NotInitialized));
    assert!(client.transport.written.is_empty());
    assert_eq!(client.transport.cursor, 0);
    assert_eq!(client.request_id, 1);
}

#[test]
fn id_generator_is_strictly_increasing() {
    let mut client = MCPClient::new(MemTransport::new(Vec::new()));
    let mut ids = Vec::new();
    for _ in 0..100 {
        ids.push(client.next_request_id());
    }
    for k in 0..ids.len() {
        assert_eq!(ids[k], 1 + k as u64);
        if k > 0 {
            assert!(ids[k - 1] < ids[k]);
        }
    }
}

fn ready_client(reply: &str) -> MCPClient<MemTransport> {
    let mut client = MCPClient::new(MemTransport::new(lines(&["{}", reply])));
    client.connect().unwrap();
    client
}

#[test]
fn call_returns_result_value() {
    let mut client = ready_client("{\"result\":{\"ok\":true}}");
    let out = client.call_tool("check", "{}").unwrap();
    assert_eq!(out, "{\"ok\":true}");
}

#[test]
fn call_fails_with_peer_error_message() {
    let mut client = ready_client("{\"error\":{\"code\":1,\"message\":\"boom\"}}");
    match client.call_tool("check", "{}") {
        Err(McpError::Protocol(message)) => assert!(message.contains("boom")),
        other => panic!("expected a protocol error, got {:?}", other),
    }
}

#[test]
fn empty_response_is_the_distinct_malformed_kind() {
    let mut client = ready_client("{}");
    assert_eq!(client.call_tool("check", "{}"), Err(McpError::MalformedResponse));
}

#[test]
fn unparseable_object_line_is_decode_failure() {
    let mut client = ready_client("{not json at all");
    assert_eq!(client.call_tool("check", "{}"), Err(McpError::DecodeFailure));
}

#[test]
fn error_object_without_message_is_decode_failure() {
    let mut client = ready_client("{\"error\":{\"code\":1}}");
    assert_eq!(client.call_tool("check", "{}"), Err(McpError::DecodeFailure));
}

#[test]
fn error_field_of_wrong_shape_is_decode_failure() {
    let mut client = ready_client("{\"error\":\"just text\"}");
    assert_eq!(client.call_tool("check", "{}"), Err(McpError::DecodeFailure));
}

#[test]
fn result_takes_precedence_over_error() {
    let mut client = ready_client("{\"result\":1,\"error\":{\"code\":2,\"message\":\"x\"}}");
    assert_eq!(client.call_tool("check", "{}").unwrap(), "1");
}

#[test]
fn call_with_no_reply_is_peer_closed() {
    let mut client = ready_client("trailing noise only");
    // the only remaining line is noise, so the read runs off the stream
    let mut noisy = MCPClient::new(MemTransport::new(lines(&["{}", "noise"])));
    noisy.connect().unwrap();
    assert_eq!(noisy.call_tool("check", "{}"), Err(McpError::PeerClosed));
    assert_eq!(client.call_tool("check", "{}"), Err(McpError::PeerClosed));
}

#[test]
fn call_writes_exact_request_line() {
    let mut client = ready_client("{\"result\":[]}");
    client.search_repositories("rust").unwrap();
    assert_eq!(
        client.transport.written[2],
        "{\"jsonrpc\":\"2.0\",\"method\":\"callTool\",\"params\":{\"name\":\"search_repositories\",\"params\":{\"query\":\"rust\"}},\"id\":2}"
    );
}

#[test]
fn search_query_is_escaped() {
    assert_eq!(build_search_params("rust"), "{\"query\":\"rust\"}");
    assert_eq!(build_search_params("a\"b\\c"), "{\"query\":\"a\\\"b\\\\c\"}");
    let mut client = ready_client("{\"result\":[]}");
    client.search_repositories("line\nbreak\"quote").unwrap();
    let line = &client.transport.written[2];
    assert!(!line.contains('\n'));
    let v: serde_json::Value = serde_json::from_str(line).unwrap();
    assert_eq!(v["params"]["params"]["query"], "line\nbreak\"quote");
}

#[test]
fn call_skips_peer_diagnostics_before_reply() {
    let mut client = MCPClient::new(MemTransport::new(lines(&[
        "{}",
        "searching...",
        "found 3 candidates",
        "{\"result\":3}",
    ])));
    client.connect().unwrap();
    assert_eq!(client.call_tool("count", "{}").unwrap(), "3");
    assert_eq!(client.transport.cursor, 4);
}

#[test]
fn whitespace_prefixed_reply_is_accepted() {
    let mut client = ready_client("   {\"result\":true}");
    assert_eq!(client.call_tool("check", "{}").unwrap(), "true");
}

#[test]
fn ids_advance_across_calls() {
    let mut client = MCPClient::new(MemTransport::new(lines(&[
        "{}",
        "{\"result\":1}",
        "{\"result\":2}",
    ])));
    client.connect().unwrap();
    assert_eq!(client.request_id, 2);
    client.call_tool("a", "{}").unwrap();
    client.call_tool("b", "{}").unwrap();
    assert_eq!(client.request_id, 4);
    let first: serde_json::Value =
        serde_json::from_str(&client.transport.written[2]).unwrap();
    let second: serde_json::Value =
        serde_json::from_str(&client.transport.written[3]).unwrap();
    assert_eq!(first["id"], 2);
    assert_eq!(second["id"], 3);
}
