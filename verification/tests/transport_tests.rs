use mcp_client::transport::ClosedTransport;
use mcp_client::transport::MemTransport;
use mcp_client::transport::Transport;
use mcp_client::transport::TransportError;
use mcp_client::transport::line_is_protocol;

fn lines(texts: &[&str]) -> Vec<String> {
    texts.iter().map(|t| String::from(*t)).collect()
}

#[test]
fn line_classification() {
    assert!(line_is_protocol("{\"a\":1}"));
    assert!(line_is_protocol("   {\"a\":1}"));
    assert!(line_is_protocol("\t\r\n{"));
    assert!(!line_is_protocol("log: starting up"));
    assert!(!line_is_protocol("   log"));
    assert!(!line_is_protocol(""));
    assert!(!line_is_protocol("   "));
}

#[test]
fn line_classification_trims_unicode_whitespace() {
    // any leading Unicode whitespace is trimmed before the test for `{`
    assert!(line_is_protocol("\u{000B}{\"a\":1}"));
    assert!(line_is_protocol("\u{00A0}\u{3000}{\"a\":1}"));
    assert!(line_is_protocol("\u{2028}{"));
    assert!(!line_is_protocol("\u{3000}log line"));
    assert!(!line_is_protocol("\u{00A0}"));
}

#[test]
fn read_skips_noise_and_consumes_exactly_enough() {
    let mut t = MemTransport::new(lines(&[
        "server starting",
        "listening on stdio",
        "{\"result\":{}}",
        "{\"second\":1}",
    ]));
    let first = t.read_message().unwrap();
    assert_eq!(first, "{\"result\":{}}");
    // exactly the two noise lines and the protocol line were consumed
    assert_eq!(t.cursor, 3);
    let second = t.read_message().unwrap();
    assert_eq!(second, "{\"second\":1}");
    assert_eq!(t.cursor, 4);
}

#[test]
fn read_returns_protocol_line_with_leading_blanks() {
    let mut t = MemTransport::new(lines(&["noise", "  {\"a\":1}"]));
    assert_eq!(t.read_message().unwrap(), "  {\"a\":1}");
}

#[test]
fn end_of_stream_is_peer_closed() {
    let mut t = MemTransport::new(lines(&["only", "noise", "here"]));
    assert_eq!(t.read_message(), Err(TransportError::PeerClosed));
    assert_eq!(t.cursor, 3);
}

#[test]
fn empty_stream_is_peer_closed() {
    let mut t = MemTransport::new(Vec::new());
    assert_eq!(t.read_message(), Err(TransportError::PeerClosed));
}

#[test]
fn exhausted_stream_stays_peer_closed() {
    let mut t = MemTransport::new(lines(&["{\"a\":1}"]));
    assert!(t.read_message().is_ok());
    assert_eq!(t.read_message(), Err(TransportError::PeerClosed));
}

#[test]
fn write_records_messages_in_order() {
    let mut t = MemTransport::new(Vec::new());
    t.write_message("{\"one\":1}").unwrap();
    t.write_message("{\"two\":2}").unwrap();
    assert_eq!(t.written, vec![String::from("{\"one\":1}"), String::from("{\"two\":2}")]);
}

#[test]
fn closed_transport_refuses_both_directions() {
    let mut t = ClosedTransport::new();
    assert_eq!(t.read_message(), Err(TransportError::Io));
    assert_eq!(t.write_message("{}"), Err(TransportError::Io));
}
