//! The frame codec: round trips, the three length forms, and the
//! violations the decoder must refuse.

use websocket::error::FrameProtocolKind;
use websocket::frame::{decode_frame, encode_frame, DecodeStep, Frame, Opcode};

fn round_trip(fin: bool, opcode: Opcode, payload: Vec<u8>, mask: Option<[u8; 4]>) {
    let frame = Frame::new(fin, opcode, payload);
    let mut wire = Vec::new();
    encode_frame(&frame, mask, &mut wire);
    let wire_len = wire.len();
    match decode_frame(&wire, mask.is_some()) {
        DecodeStep::Decoded(out, consumed) => {
            assert_eq!(out, frame);
            assert_eq!(consumed, wire_len);
        }
        other => panic!("expected a decoded frame, got {:?}", other),
    }
}

#[test]
fn round_trip_masked_and_unmasked() {
    round_trip(true, Opcode::Text, b"hello".to_vec(), Some([1, 2, 3, 4]));
    round_trip(true, Opcode::Text, b"hello".to_vec(), None);
    round_trip(false, Opcode::Binary, vec![0, 255, 7], Some([9, 8, 7, 6]));
    round_trip(true, Opcode::Ping, b"xyz".to_vec(), None);
}

#[test]
fn round_trip_at_length_boundaries() {
    for n in [0usize, 125, 126, 65535, 65536] {
        let payload = vec![0xABu8; n];
        round_trip(true, Opcode::Binary, payload.clone(), Some([5, 0, 200, 31]));
        round_trip(true, Opcode::Binary, payload, None);
    }
}

#[test]
fn zero_mask_key_is_the_identity_on_the_wire() {
    let frame = Frame::new(true, Opcode::Binary, b"plain".to_vec());
    let mut masked = Vec::new();
    encode_frame(&frame, Some([0, 0, 0, 0]), &mut masked);
    let mut bare = Vec::new();
    encode_frame(&frame, None, &mut bare);
    // same payload bytes after the mask key, mask bit and key aside
    assert_eq!(&masked[6..], &bare[2..]);
}

#[test]
fn short_buffer_reports_incomplete() {
    let frame = Frame::new(true, Opcode::Text, vec![7; 300]);
    let mut wire = Vec::new();
    encode_frame(&frame, None, &mut wire);
    for cut in [0, 1, 2, 3, 150] {
        let partial = wire[..cut].to_vec();
        assert!(matches!(decode_frame(&partial, false), DecodeStep::Incomplete));
    }
}

fn expect_bad(bytes: &[u8], from_client: bool, kind: FrameProtocolKind) {
    match decode_frame(&bytes.to_vec(), from_client) {
        DecodeStep::Bad(k) => assert_eq!(k, kind),
        other => panic!("expected {:?}, got {:?}", kind, other),
    }
}

#[test]
fn reserved_bits_are_rejected() {
    // fin + rsv1 + binary opcode
    expect_bad(&[0xC2, 0x00], false, FrameProtocolKind::ReservedBits);
}

#[test]
fn reserved_opcodes_are_rejected() {
    expect_bad(&[0x83, 0x00], false, FrameProtocolKind::ReservedOpcode);
    expect_bad(&[0x8B, 0x00], false, FrameProtocolKind::ReservedOpcode);
}

#[test]
fn fragmented_control_frames_are_rejected() {
    // Ping without fin
    expect_bad(&[0x09, 0x00], false, FrameProtocolKind::ControlFragmented);
}

#[test]
fn long_control_frames_are_rejected() {
    // Ping announcing a 2-byte extended length
    expect_bad(&[0x89, 0x7E], false, FrameProtocolKind::ControlTooLong);
}

#[test]
fn mask_bit_must_match_the_role() {
    // unmasked data frame reaching a server
    expect_bad(&[0x82, 0x01], true, FrameProtocolKind::UnmaskedFromClient);
    // masked data frame reaching a client
    expect_bad(&[0x82, 0x81], false, FrameProtocolKind::MaskedFromServer);
}

#[test]
fn eight_byte_length_with_top_bit_set_is_rejected() {
    expect_bad(
        &[0x82, 0x7F, 0x80, 0, 0, 0, 0, 0, 0, 1],
        false,
        FrameProtocolKind::BadLength,
    );
}

#[test]
fn ping_may_carry_125_bytes_but_not_more() {
    round_trip(true, Opcode::Ping, vec![1; 125], None);
    expect_bad(&[0x89, 126, 0, 126], false, FrameProtocolKind::ControlTooLong);
}

#[test]
fn non_minimal_extended_length_is_accepted() {
    // a 2-byte length of 5 is legal even though 5 fits the short form
    let wire = vec![0x82, 126, 0, 5, 1, 2, 3, 4, 5];
    match decode_frame(&wire, false) {
        DecodeStep::Decoded(f, consumed) => {
            assert_eq!(f.payload, vec![1, 2, 3, 4, 5]);
            assert_eq!(consumed, 9);
        }
        other => panic!("expected a frame, got {:?}", other),
    }
}
