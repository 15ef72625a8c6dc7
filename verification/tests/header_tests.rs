//! Header serialisation against known wire lines.

use websocket::accept::{WebSocketAccept, WebSocketKey};
use websocket::headers::{
    Connection, ConnectionOption, Headers, Host, Origin, ProtocolName, WebSocketProtocol,
    WebSocketVersion,
};

fn header_line(name: &str, value: Vec<u8>) -> String {
    let mut h = Headers::new();
    h.add(name.as_bytes().to_vec(), value);
    let mut out = Vec::new();
    h.serialize_into(&mut out);
    String::from_utf8(out).unwrap()
}

#[test]
fn test_header_accept() {
    let key = WebSocketKey::from_bytes(b"dGhlIHNhbXBsZSBub25jZQ==").unwrap();
    let accept = WebSocketAccept::new(&key);
    assert_eq!(
        header_line("Sec-WebSocket-Accept", accept.serialize()),
        "Sec-WebSocket-Accept: s3pPLMBiTxaQ9kYGzzhZRbK+xOo=\r\n"
    );
}

#[test]
fn accept_from_wire_key_matches_the_token() {
    let accept = WebSocketAccept::for_wire_key(b"dGhlIHNhbXBsZSBub25jZQ==");
    assert_eq!(
        accept.serialize(),
        websocket::accept::compute_accept(b"dGhlIHNhbXBsZSBub25jZQ==")
    );
    let parsed = WebSocketAccept::from_bytes(&accept.serialize()).unwrap();
    assert_eq!(parsed, accept);
}

#[test]
fn test_header_key() {
    let key = WebSocketKey([65; 16]);
    assert_eq!(
        header_line("Sec-WebSocket-Key", key.serialize()),
        "Sec-WebSocket-Key: QUFBQUFBQUFBQUFBQUFBQQ==\r\n"
    );
}

#[test]
fn test_header_protocol() {
    let protocol = WebSocketProtocol(vec![b"foo".to_vec(), b"bar".to_vec()]);
    assert_eq!(
        header_line("Sec-WebSocket-Protocol", protocol.serialize()),
        "Sec-WebSocket-Protocol: foo, bar\r\n"
    );
}

#[test]
fn test_websocket_version() {
    let version = WebSocketVersion::WebSocket13;
    assert_eq!(
        header_line("Sec-WebSocket-Version", version.serialize()),
        "Sec-WebSocket-Version: 13\r\n"
    );
}

#[test]
fn test_header_origin() {
    assert_eq!(
        header_line("Origin", b"foo bar".to_vec()),
        "Origin: foo bar\r\n"
    );
}

#[test]
fn host_serializes_with_and_without_port() {
    let h = Host::new(b"example.net".to_vec(), Some(8080));
    assert_eq!(h.serialize(), b"example.net:8080".to_vec());
    let h = Host::new(b"example.net".to_vec(), Some(80));
    assert_eq!(h.serialize(), b"example.net".to_vec());
    let h = Host::new(b"example.net".to_vec(), None);
    assert_eq!(h.serialize(), b"example.net".to_vec());
}

#[test]
fn host_parses_port_suffix() {
    let h = Host::parse(b"example.net:8080");
    assert_eq!(h.hostname(), &b"example.net".to_vec());
    assert_eq!(h.port(), Some(8080));
    let h = Host::parse(b"example.net");
    assert_eq!(h.hostname(), &b"example.net".to_vec());
    assert_eq!(h.port(), None);
    // a colon whose suffix is no port leaves the whole value as hostname
    let h = Host::parse(b"example.net:banana");
    assert_eq!(h.hostname(), &b"example.net:banana".to_vec());
    assert_eq!(h.port(), None);
}

#[test]
fn host_port_reads_like_a_number() {
    // leading zeros and a leading plus are numbers
    let h = Host::parse(b"a:000099");
    assert_eq!(h.hostname(), &b"a".to_vec());
    assert_eq!(h.port(), Some(99));
    let h = Host::parse(b"a:+99");
    assert_eq!(h.hostname(), &b"a".to_vec());
    assert_eq!(h.port(), Some(99));
    // too large, a bare sign, or an empty suffix is no port
    let h = Host::parse(b"a:70000");
    assert_eq!(h.hostname(), &b"a:70000".to_vec());
    assert_eq!(h.port(), None);
    let h = Host::parse(b"a:+");
    assert_eq!(h.hostname(), &b"a:+".to_vec());
    assert_eq!(h.port(), None);
    let h = Host::parse(b"a:");
    assert_eq!(h.hostname(), &b"a:".to_vec());
    assert_eq!(h.port(), None);
}

#[test]
fn origin_round_trip() {
    let o = Origin::parse(b"https://example.net:8443").unwrap();
    assert!(!o.is_null());
    assert_eq!(o.scheme().unwrap(), &b"https".to_vec());
    assert_eq!(o.host().unwrap().port(), Some(8443));
    assert_eq!(o.serialize(), b"https://example.net:8443".to_vec());
    assert!(Origin::parse(b"no-separator").is_none());
    assert_eq!(Origin::null().serialize(), b"null".to_vec());
}

#[test]
fn connection_options_parse_case_insensitively() {
    let c = Connection::from_bytes(b"Keep-Alive, Upgrade");
    assert_eq!(c.0.len(), 2);
    assert!(matches!(c.0[0], ConnectionOption::KeepAlive));
    assert!(matches!(c.0[1], ConnectionOption::ConnectionHeader(_)));
    // two spellings of one token parse to equal values
    assert_eq!(
        Connection::from_bytes(b"Upgrade").0,
        Connection::from_bytes(b"UPGRADE").0
    );
    assert_eq!(
        c.0[1],
        ConnectionOption::ConnectionHeader(b"upgrade".to_vec())
    );
    assert_eq!(Connection::close().serialize(), b"close".to_vec());
    assert_eq!(Connection::keep_alive().serialize(), b"keep-alive".to_vec());
}

#[test]
fn protocol_header_value_round_trips() {
    let p = WebSocketProtocol::from_bytes(b" foo , bar");
    assert_eq!(p.0, vec![b"foo".to_vec(), b"bar".to_vec()]);
    assert_eq!(p.serialize(), b"foo, bar".to_vec());
    // the raw header parser keeps empty elements verbatim
    assert_eq!(WebSocketProtocol::from_bytes(b",").0.len(), 2);
}

#[test]
fn upgrade_list_parses_protocols_with_versions() {
    let list = websocket::headers::parse_protocol_list(b"h2c, websocket/13, , HTTP/2.0");
    assert_eq!(list.len(), 3);
    assert!(matches!(list[0].name, ProtocolName::H2C));
    assert!(list[0].version.is_none());
    assert!(matches!(list[1].name, ProtocolName::WebSocket));
    assert_eq!(list[1].version.as_deref(), Some(b"13".as_slice()));
    assert!(matches!(list[2].name, ProtocolName::HTTP));
    assert_eq!(list[2].version.as_deref(), Some(b"2.0".as_slice()));
}

#[test]
fn protocol_name_parses() {
    assert!(matches!(
        ProtocolName::from_bytes(b"WebSocket"),
        ProtocolName::WebSocket
    ));
    assert!(matches!(ProtocolName::from_bytes(b"HTTP"), ProtocolName::HTTP));
    assert!(matches!(
        ProtocolName::from_bytes(b"gopher"),
        ProtocolName::Unregistered(_)
    ));
    assert_eq!(ProtocolName::WebSocket.serialize(), b"websocket".to_vec());
}
