//! The upgrade handshake end to end.

use websocket::accept::compute_accept;
use websocket::error::{HandshakeInvalidKind, WebSocketError};
use websocket::handshake::{
    build_request, read_request, verify_response, HyperRequest, ReadRequest,
};
use websocket::headers::Headers;
use websocket::http::{HttpClientCodec, HttpServerCodec};
use websocket::machine::ConnState;

const SAMPLE_REQUEST: &str = "GET / HTTP/1.1\r\nHost: x\r\nUpgrade: websocket\r\nConnection: Upgrade\r\nSec-WebSocket-Key: dGhlIHNhbXBsZSBub25jZQ==\r\nSec-WebSocket-Version: 13\r\n\r\n";

#[test]
fn accept_token_of_the_sample_key() {
    assert_eq!(
        compute_accept(b"dGhlIHNhbXBsZSBub25jZQ=="),
        b"s3pPLMBiTxaQ9kYGzzhZRbK+xOo=".to_vec()
    );
}

#[test]
fn handshake_happy_path() {
    let mut src = SAMPLE_REQUEST.as_bytes().to_vec();
    let upgrade = match read_request(&mut src) {
        ReadRequest::Upgrade(u) => u,
        other => panic!("expected an upgrade, got {:?}", describe(&other)),
    };
    let (response, endpoint) = upgrade.accept();
    assert_eq!(
        String::from_utf8(response).unwrap(),
        "HTTP/1.1 101 Switching Protocols\r\n\
         Sec-WebSocket-Accept: s3pPLMBiTxaQ9kYGzzhZRbK+xOo=\r\n\
         Connection: Upgrade\r\n\
         Upgrade: websocket\r\n\r\n"
    );
    assert_eq!(endpoint.state(), ConnState::Open);
    assert!(endpoint.is_server());
}

fn describe(r: &ReadRequest) -> &'static str {
    match r {
        ReadRequest::NeedMore => "need more",
        ReadRequest::Upgrade(_) => "upgrade",
        ReadRequest::Invalid(_, _) => "invalid",
        ReadRequest::Malformed => "malformed",
    }
}

#[test]
fn upgrade_exposes_the_request_metadata() {
    let mut src = SAMPLE_REQUEST.as_bytes().to_vec();
    let upgrade = match read_request(&mut src) {
        ReadRequest::Upgrade(u) => u,
        other => panic!("expected an upgrade, got {:?}", describe(&other)),
    };
    assert!(upgrade.key().is_some());
    assert!(upgrade.version().is_some());
    assert!(upgrade.origin().is_none());
    assert!(upgrade.protocols().is_empty());
}

#[test]
fn short_request_asks_for_more() {
    let mut src = b"GET / HTTP/1.1\r\nHost: x\r\n".to_vec();
    assert!(matches!(read_request(&mut src), ReadRequest::NeedMore));
    assert_eq!(src.len(), 25);
}

fn invalid_kind(request: &str) -> HandshakeInvalidKind {
    let mut src = request.as_bytes().to_vec();
    match read_request(&mut src) {
        ReadRequest::Invalid(_, WebSocketError::HandshakeInvalid(k)) => k,
        other => panic!("expected a validation failure, got {:?}", describe(&other)),
    }
}

#[test]
fn each_validation_rule_reports_its_kind() {
    assert_eq!(
        invalid_kind("POST / HTTP/1.1\r\nHost: x\r\nUpgrade: websocket\r\nConnection: Upgrade\r\nSec-WebSocket-Key: dGhlIHNhbXBsZSBub25jZQ==\r\nSec-WebSocket-Version: 13\r\n\r\n"),
        HandshakeInvalidKind::MethodNotGet
    );
    assert_eq!(
        invalid_kind("GET / HTTP/1.0\r\nHost: x\r\nUpgrade: websocket\r\nConnection: Upgrade\r\nSec-WebSocket-Key: dGhlIHNhbXBsZSBub25jZQ==\r\nSec-WebSocket-Version: 13\r\n\r\n"),
        HandshakeInvalidKind::UnsupportedHttpVersion
    );
    assert_eq!(
        invalid_kind("GET / HTTP/1.1\r\nHost: x\r\nUpgrade: websocket\r\nConnection: Upgrade\r\nSec-WebSocket-Key: dGhlIHNhbXBsZSBub25jZQ==\r\nSec-WebSocket-Version: 12\r\n\r\n"),
        HandshakeInvalidKind::UnsupportedWsVersion
    );
    assert_eq!(
        invalid_kind("GET / HTTP/1.1\r\nHost: x\r\nUpgrade: websocket\r\nConnection: Upgrade\r\nSec-WebSocket-Version: 13\r\n\r\n"),
        HandshakeInvalidKind::MissingKey
    );
    assert_eq!(
        invalid_kind("GET / HTTP/1.1\r\nHost: x\r\nUpgrade: websocket\r\nConnection: Upgrade\r\nSec-WebSocket-Key: not base64!!\r\nSec-WebSocket-Version: 13\r\n\r\n"),
        HandshakeInvalidKind::BadKey
    );
    assert_eq!(
        invalid_kind("GET / HTTP/1.1\r\nHost: x\r\nConnection: Upgrade\r\nSec-WebSocket-Key: dGhlIHNhbXBsZSBub25jZQ==\r\nSec-WebSocket-Version: 13\r\n\r\n"),
        HandshakeInvalidKind::MissingUpgrade
    );
    assert_eq!(
        invalid_kind("GET / HTTP/1.1\r\nHost: x\r\nUpgrade: h2c\r\nConnection: Upgrade\r\nSec-WebSocket-Key: dGhlIHNhbXBsZSBub25jZQ==\r\nSec-WebSocket-Version: 13\r\n\r\n"),
        HandshakeInvalidKind::BadUpgrade
    );
    assert_eq!(
        invalid_kind("GET / HTTP/1.1\r\nHost: x\r\nUpgrade: websocket\r\nSec-WebSocket-Key: dGhlIHNhbXBsZSBub25jZQ==\r\nSec-WebSocket-Version: 13\r\n\r\n"),
        HandshakeInvalidKind::MissingConnection
    );
    assert_eq!(
        invalid_kind("GET / HTTP/1.1\r\nHost: x\r\nUpgrade: websocket\r\nConnection: close\r\nSec-WebSocket-Key: dGhlIHNhbXBsZSBub25jZQ==\r\nSec-WebSocket-Version: 13\r\n\r\n"),
        HandshakeInvalidKind::BadConnection
    );
}

#[test]
fn requested_protocol_list_drops_empty_elements() {
    let mut src = "GET / HTTP/1.1\r\nHost: x\r\nUpgrade: websocket\r\nConnection: Upgrade\r\nSec-WebSocket-Key: dGhlIHNhbXBsZSBub25jZQ==\r\nSec-WebSocket-Version: 13\r\nSec-WebSocket-Protocol: chat, , superchat\r\n\r\n".as_bytes().to_vec();
    let upgrade = match read_request(&mut src) {
        ReadRequest::Upgrade(u) => u,
        other => panic!("expected an upgrade, got {:?}", describe(&other)),
    };
    assert_eq!(
        upgrade.protocols(),
        vec![b"chat".to_vec(), b"superchat".to_vec()]
    );
}

#[test]
fn token_matching_is_case_insensitive_and_list_aware() {
    let mut src = "GET / HTTP/1.1\r\nHost: x\r\nUpgrade: WebSocket/13\r\nConnection: keep-alive, UPGRADE\r\nSec-WebSocket-Key: dGhlIHNhbXBsZSBub25jZQ==\r\nSec-WebSocket-Version: 13\r\n\r\n".as_bytes().to_vec();
    assert!(matches!(read_request(&mut src), ReadRequest::Upgrade(_)));
}

#[test]
fn rejecting_builds_a_400_response() {
    let mut src = SAMPLE_REQUEST.as_bytes().to_vec();
    let upgrade = match read_request(&mut src) {
        ReadRequest::Upgrade(u) => u,
        other => panic!("expected an upgrade, got {:?}", describe(&other)),
    };
    let response = upgrade.reject();
    assert_eq!(
        String::from_utf8(response).unwrap(),
        "HTTP/1.1 400 Bad Request\r\n\r\n"
    );
}

#[test]
fn leftover_bytes_ride_into_the_endpoint() {
    let mut src = SAMPLE_REQUEST.as_bytes().to_vec();
    src.extend_from_slice(&[0x89, 0x80, 1, 2, 3, 4]); // a masked Ping already queued
    let upgrade = match read_request(&mut src) {
        ReadRequest::Upgrade(u) => u,
        other => panic!("expected an upgrade, got {:?}", describe(&other)),
    };
    let (_, mut endpoint) = upgrade.accept();
    assert!(matches!(
        endpoint.next_event().unwrap(),
        websocket::machine::RecvEvent::Progress
    ));
}

#[test]
fn client_request_verifies_against_our_own_server() {
    let (request_bytes, state) = build_request(
        b"example.net",
        b"/chat",
        vec![b"chat".to_vec()],
        Vec::new(),
        Headers::new(),
    );
    let mut src = request_bytes;
    let upgrade = match read_request(&mut src) {
        ReadRequest::Upgrade(u) => u,
        other => panic!("expected an upgrade, got {:?}", describe(&other)),
    };
    let (response, _) = upgrade.accept();
    let mut resp_buf = response;
    let head = HttpClientCodec.decode(&mut resp_buf).unwrap().unwrap();
    assert!(verify_response(&state, &head).is_ok());
}

#[test]
fn tampered_accept_token_is_refused() {
    let (request_bytes, state) = build_request(
        b"example.net",
        b"/",
        Vec::new(),
        Vec::new(),
        Headers::new(),
    );
    let mut src = request_bytes;
    let upgrade = match read_request(&mut src) {
        ReadRequest::Upgrade(u) => u,
        other => panic!("expected an upgrade, got {:?}", describe(&other)),
    };
    let (response, _) = upgrade.accept();
    let tampered = String::from_utf8(response)
        .unwrap()
        .replace("Sec-WebSocket-Accept: ", "Sec-WebSocket-Accept: x");
    let mut resp_buf = tampered.into_bytes();
    let head = HttpClientCodec.decode(&mut resp_buf).unwrap().unwrap();
    assert!(matches!(
        verify_response(&state, &head),
        Err(WebSocketError::HandshakeInvalid(HandshakeInvalidKind::BadAccept))
    ));
}

#[test]
fn preparsed_request_can_upgrade() {
    let mut src = SAMPLE_REQUEST.as_bytes().to_vec();
    let head = HttpServerCodec.decode(&mut src).unwrap().unwrap();
    let upgrade = HyperRequest(head).into_upgrade().unwrap();
    let (response, _) = upgrade.accept();
    assert!(String::from_utf8(response)
        .unwrap()
        .contains("s3pPLMBiTxaQ9kYGzzhZRbK+xOo="));
}
