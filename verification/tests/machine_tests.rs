//! The connection state machine driven through whole scenarios.

use websocket::error::{FrameProtocolKind, WebSocketError};
use websocket::frame::{decode_frame, encode_frame, DecodeStep, Frame, Opcode};
use websocket::machine::{ConnState, Endpoint, Message, RecvEvent};

const KEY: [u8; 4] = [11, 22, 33, 44];

/// Feed the server a frame as a client would send it: masked.
fn send_client_frame(server: &mut Endpoint, fin: bool, opcode: Opcode, payload: &[u8]) {
    let frame = Frame::new(fin, opcode, payload.to_vec());
    let mut wire = Vec::new();
    encode_frame(&frame, Some(KEY), &mut wire);
    server.feed(&wire);
}

/// Decode every frame the server queued for the wire.
fn decode_server_output(out: Vec<u8>) -> Vec<Frame> {
    let mut buf = out;
    let mut frames = Vec::new();
    loop {
        match decode_frame(&buf, false) {
            DecodeStep::Decoded(f, n) => {
                frames.push(f);
                buf.drain(..n);
            }
            DecodeStep::Incomplete => {
                assert!(buf.is_empty());
                return frames;
            }
            DecodeStep::Bad(k) => panic!("bad server frame: {:?}", k),
        }
    }
}

#[test]
fn echo_round_trip() {
    let mut server = Endpoint::server(1 << 20);
    send_client_frame(&mut server, true, Opcode::Text, b"hello");
    match server.next_event().unwrap() {
        RecvEvent::Msg(Message::Text(t)) => assert_eq!(t, b"hello".to_vec()),
        other => panic!("expected the text message, got {:?}", other),
    }
    server.send_message(Message::Text(b"hello".to_vec())).unwrap();
    let frames = decode_server_output(server.take_output());
    assert_eq!(frames.len(), 1);
    assert_eq!(frames[0].opcode, Opcode::Text);
    assert!(frames[0].fin);
    assert_eq!(frames[0].payload, b"hello".to_vec());
}

#[test]
fn fragmented_text_is_reassembled() {
    let mut server = Endpoint::server(1 << 20);
    send_client_frame(&mut server, false, Opcode::Text, b"Hel");
    send_client_frame(&mut server, false, Opcode::Continuation, b"lo, ");
    send_client_frame(&mut server, true, Opcode::Continuation, b"World");
    assert!(matches!(server.next_event().unwrap(), RecvEvent::Progress));
    assert!(matches!(server.next_event().unwrap(), RecvEvent::Progress));
    match server.next_event().unwrap() {
        RecvEvent::Msg(Message::Text(t)) => assert_eq!(t, b"Hello, World".to_vec()),
        other => panic!("expected the assembled text, got {:?}", other),
    }
}

#[test]
fn fragmentation_is_equivalent_to_one_frame() {
    let mut one = Endpoint::server(1 << 20);
    send_client_frame(&mut one, true, Opcode::Text, b"Hello, World");
    let whole = match one.next_event().unwrap() {
        RecvEvent::Msg(m) => m,
        other => panic!("expected a message, got {:?}", other),
    };

    let mut many = Endpoint::server(1 << 20);
    send_client_frame(&mut many, false, Opcode::Text, b"Hell");
    send_client_frame(&mut many, false, Opcode::Continuation, b"o, Wor");
    send_client_frame(&mut many, true, Opcode::Continuation, b"ld");
    let mut assembled = None;
    loop {
        match many.next_event().unwrap() {
            RecvEvent::Progress => continue,
            RecvEvent::Msg(m) => {
                assembled = Some(m);
                break;
            }
            RecvEvent::NeedMore => break,
        }
    }
    assert_eq!(assembled.unwrap(), whole);
}

#[test]
fn ping_between_fragments_draws_a_pong_without_disturbing_assembly() {
    let mut server = Endpoint::server(1 << 20);
    send_client_frame(&mut server, false, Opcode::Text, b"Hel");
    send_client_frame(&mut server, false, Opcode::Continuation, b"lo, ");
    send_client_frame(&mut server, true, Opcode::Ping, b"xyz");
    send_client_frame(&mut server, true, Opcode::Continuation, b"World");

    assert!(matches!(server.next_event().unwrap(), RecvEvent::Progress));
    assert!(matches!(server.next_event().unwrap(), RecvEvent::Progress));
    // the Ping is answered at once, before the message completes
    assert!(matches!(server.next_event().unwrap(), RecvEvent::Progress));
    let pongs = decode_server_output(server.take_output());
    assert_eq!(pongs.len(), 1);
    assert_eq!(pongs[0].opcode, Opcode::Pong);
    assert_eq!(pongs[0].payload, b"xyz".to_vec());

    match server.next_event().unwrap() {
        RecvEvent::Msg(Message::Text(t)) => assert_eq!(t, b"Hello, World".to_vec()),
        other => panic!("expected the assembled text, got {:?}", other),
    }
}

#[test]
fn reserved_bit_closes_with_protocol_error() {
    let mut server = Endpoint::server(1 << 20);
    // a masked Binary frame with rsv1 set and no negotiated extension
    let wire = vec![0xC2, 0x81, KEY[0], KEY[1], KEY[2], KEY[3], 0x40 ^ KEY[0]];
    server.feed(&wire);
    match server.next_event() {
        Err(WebSocketError::FrameProtocol(FrameProtocolKind::ReservedBits)) => {}
        other => panic!("expected the reserved-bits error, got {:?}", other),
    }
    assert_eq!(server.state(), ConnState::Closed);
    let frames = decode_server_output(server.take_output());
    assert_eq!(frames.len(), 1);
    assert_eq!(frames[0].opcode, Opcode::Close);
    assert_eq!(frames[0].payload, vec![0x03, 0xEA]); // close code 1002
}

#[test]
fn graceful_close_round_trip() {
    let mut server = Endpoint::server(1 << 20);
    send_client_frame(&mut server, true, Opcode::Close, &[0x03, 0xE8]); // 1000, no reason
    match server.next_event().unwrap() {
        RecvEvent::Msg(Message::Close(Some(cd))) => {
            assert_eq!(cd.code, 1000);
            assert!(cd.reason.is_empty());
        }
        other => panic!("expected the close message, got {:?}", other),
    }
    assert_eq!(server.state(), ConnState::ClosingRemote);
    let frames = decode_server_output(server.take_output());
    assert_eq!(frames.len(), 1);
    assert_eq!(frames[0].opcode, Opcode::Close);
    assert_eq!(frames[0].payload, vec![0x03, 0xE8]); // Close(1000, "") echoed
    assert_eq!(server.state(), ConnState::Closed);
    assert!(matches!(server.next_event(), Err(WebSocketError::ClosedByUs)));
}

#[test]
fn close_with_no_payload_is_answered_with_1000() {
    let mut server = Endpoint::server(1 << 20);
    send_client_frame(&mut server, true, Opcode::Close, &[]);
    match server.next_event().unwrap() {
        RecvEvent::Msg(Message::Close(None)) => {}
        other => panic!("expected the bare close, got {:?}", other),
    }
    let frames = decode_server_output(server.take_output());
    assert_eq!(frames[0].opcode, Opcode::Close);
    assert_eq!(frames[0].payload, vec![0x03, 0xE8]);
}

#[test]
fn close_with_code_and_reason() {
    let mut server = Endpoint::server(1 << 20);
    let mut payload = vec![0x03, 0xE9]; // 1001
    payload.extend_from_slice(b"done");
    send_client_frame(&mut server, true, Opcode::Close, &payload);
    match server.next_event().unwrap() {
        RecvEvent::Msg(Message::Close(Some(cd))) => {
            assert_eq!(cd.code, 1001);
            assert_eq!(cd.reason, b"done".to_vec());
        }
        other => panic!("expected the close message, got {:?}", other),
    }
}

#[test]
fn bad_close_code_is_rejected() {
    let mut server = Endpoint::server(1 << 20);
    send_client_frame(&mut server, true, Opcode::Close, &[0x03, 0xE7]); // 999
    match server.next_event() {
        Err(WebSocketError::FrameProtocol(FrameProtocolKind::BadCloseCode)) => {}
        other => panic!("expected the close-code error, got {:?}", other),
    }
}

#[test]
fn invalid_utf8_text_closes_with_1007() {
    let mut server = Endpoint::server(1 << 20);
    send_client_frame(&mut server, true, Opcode::Text, &[0xFF, 0xFE]);
    match server.next_event() {
        Err(WebSocketError::FrameProtocol(FrameProtocolKind::BadUtf8)) => {}
        other => panic!("expected the utf-8 error, got {:?}", other),
    }
    let frames = decode_server_output(server.take_output());
    assert_eq!(frames[0].payload, vec![0x03, 0xEF]); // close code 1007
}

#[test]
fn oversized_message_closes_with_1009() {
    let mut server = Endpoint::server(8);
    send_client_frame(&mut server, true, Opcode::Binary, &[0u8; 16]);
    match server.next_event() {
        Err(WebSocketError::FrameProtocol(FrameProtocolKind::MessageTooBig)) => {}
        other => panic!("expected the size error, got {:?}", other),
    }
    let frames = decode_server_output(server.take_output());
    assert_eq!(frames[0].payload, vec![0x03, 0xF1]); // close code 1009
}

#[test]
fn invalid_utf8_is_rejected_at_the_fragment_that_shows_it() {
    let mut server = Endpoint::server(1 << 20);
    // the first fragment alone can never become valid UTF-8
    send_client_frame(&mut server, false, Opcode::Text, &[0xFF, 0x41]);
    match server.next_event() {
        Err(WebSocketError::FrameProtocol(FrameProtocolKind::BadUtf8)) => {}
        other => panic!("expected the early utf-8 error, got {:?}", other),
    }
    let frames = decode_server_output(server.take_output());
    assert_eq!(frames[0].payload, vec![0x03, 0xEF]); // close code 1007
}

#[test]
fn a_code_point_split_across_fragments_is_fine() {
    let mut server = Endpoint::server(1 << 20);
    // "é" is [0xC3, 0xA9]; the split leaves a valid prefix in flight
    send_client_frame(&mut server, false, Opcode::Text, &[0x65, 0xC3]);
    send_client_frame(&mut server, true, Opcode::Continuation, &[0xA9]);
    assert!(matches!(server.next_event().unwrap(), RecvEvent::Progress));
    match server.next_event().unwrap() {
        RecvEvent::Msg(Message::Text(t)) => assert_eq!(t, "eé".as_bytes().to_vec()),
        other => panic!("expected the text, got {:?}", other),
    }
}

#[test]
fn announced_oversize_frame_fails_before_its_payload_arrives() {
    let mut server = Endpoint::server(8);
    // a masked Binary frame announcing 16 bytes: only the two header
    // bytes are fed, never the mask key or payload
    server.feed(&[0x82, 0x80 | 16]);
    match server.next_event() {
        Err(WebSocketError::FrameProtocol(FrameProtocolKind::MessageTooBig)) => {}
        other => panic!("expected the early size error, got {:?}", other),
    }
    assert_eq!(server.state(), ConnState::Closed);
    let frames = decode_server_output(server.take_output());
    assert_eq!(frames[0].payload, vec![0x03, 0xF1]); // close code 1009
}

#[test]
fn announced_oversize_continuation_fails_early_too() {
    let mut server = Endpoint::server(8);
    send_client_frame(&mut server, false, Opcode::Binary, &[1, 2, 3, 4]);
    assert!(matches!(server.next_event().unwrap(), RecvEvent::Progress));
    // a continuation announcing 8 more bytes would break the cap of 8
    server.feed(&[0x00, 0x80 | 8]);
    match server.next_event() {
        Err(WebSocketError::FrameProtocol(FrameProtocolKind::MessageTooBig)) => {}
        other => panic!("expected the early size error, got {:?}", other),
    }
}

#[test]
fn stray_continuation_is_a_protocol_error() {
    let mut server = Endpoint::server(1 << 20);
    send_client_frame(&mut server, true, Opcode::Continuation, b"stray");
    match server.next_event() {
        Err(WebSocketError::FrameProtocol(FrameProtocolKind::BadContinuation)) => {}
        other => panic!("expected the continuation error, got {:?}", other),
    }
}

#[test]
fn fresh_data_frame_inside_a_fragmented_message_is_an_error() {
    let mut server = Endpoint::server(1 << 20);
    send_client_frame(&mut server, false, Opcode::Text, b"begin");
    send_client_frame(&mut server, true, Opcode::Binary, b"intruder");
    assert!(matches!(server.next_event().unwrap(), RecvEvent::Progress));
    match server.next_event() {
        Err(WebSocketError::FrameProtocol(FrameProtocolKind::BadContinuation)) => {}
        other => panic!("expected the continuation error, got {:?}", other),
    }
}

#[test]
fn local_close_then_peer_close_finishes() {
    let mut server = Endpoint::server(1 << 20);
    server.close(1000, Vec::new()).unwrap();
    assert_eq!(server.state(), ConnState::ClosingLocal);
    send_client_frame(&mut server, true, Opcode::Close, &[0x03, 0xE8]);
    match server.next_event().unwrap() {
        RecvEvent::Msg(Message::Close(Some(cd))) => assert_eq!(cd.code, 1000),
        other => panic!("expected the close message, got {:?}", other),
    }
    assert_eq!(server.state(), ConnState::Closed);
    assert!(matches!(
        server.send_message(Message::Text(Vec::new())),
        Err(WebSocketError::ClosedByUs)
    ));
}

#[test]
fn client_endpoint_masks_its_output() {
    let mut client = Endpoint::client(1 << 20);
    client.send_message(Message::Text(b"hi".to_vec())).unwrap();
    let wire = client.take_output();
    // the mask bit is set and a server-role decode recovers the text
    assert_eq!(wire[1] & 0x80, 0x80);
    match decode_frame(&wire, true) {
        DecodeStep::Decoded(f, _) => assert_eq!(f.payload, b"hi".to_vec()),
        other => panic!("expected the frame back, got {:?}", other),
    }
}

#[test]
fn oversized_control_payload_is_refused_on_send() {
    let mut server = Endpoint::server(1 << 20);
    assert!(matches!(
        server.send_message(Message::Ping(vec![0; 126])),
        Err(WebSocketError::FrameProtocol(FrameProtocolKind::ControlTooLong))
    ));
    assert!(matches!(
        server.send_message(Message::Close(Some(websocket::machine::CloseData {
            code: 1005,
            reason: Vec::new(),
        }))),
        Err(WebSocketError::FrameProtocol(FrameProtocolKind::BadCloseCode))
    ));
}

#[test]
fn recv_asks_for_more_bytes_on_a_partial_frame() {
    let mut server = Endpoint::server(1 << 20);
    let frame = Frame::new(true, Opcode::Text, b"hello".to_vec());
    let mut wire = Vec::new();
    encode_frame(&frame, Some(KEY), &mut wire);
    server.feed(&wire[..3]);
    assert!(server.recv().unwrap().is_none());
    server.feed(&wire[3..]);
    match server.recv().unwrap() {
        Some(Message::Text(t)) => assert_eq!(t, b"hello".to_vec()),
        other => panic!("expected the text, got {:?}", other),
    }
}
