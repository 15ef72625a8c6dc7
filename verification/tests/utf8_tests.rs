//! The UTF-8 validator against the standard library's verdicts.

use websocket::utf8::is_utf8;

#[test]
fn accepts_valid_text() {
    for s in ["", "plain ascii", "héllo wörld", "日本語テキスト", "emoji 🦀 too"] {
        assert!(is_utf8(s.as_bytes()), "rejected {:?}", s);
    }
}

#[test]
fn rejects_classic_invalid_sequences() {
    let cases: Vec<Vec<u8>> = vec![
        vec![0xFF],
        vec![0xC0, 0x80],             // overlong
        vec![0xC1, 0xBF],             // overlong
        vec![0xE0, 0x80, 0x80],       // overlong
        vec![0xED, 0xA0, 0x80],       // surrogate
        vec![0xF4, 0x90, 0x80, 0x80], // above U+10FFFF
        vec![0x80],                   // stray continuation
        vec![0xE2, 0x82],             // truncated
        vec![0xF0, 0x9F, 0xA6],       // truncated
    ];
    for c in cases {
        assert!(!is_utf8(&c), "accepted {:?}", c);
    }
}

#[test]
fn agrees_with_std_on_all_two_byte_strings() {
    for a in 0..=255u8 {
        for b in [0u8, 0x41, 0x7F, 0x80, 0x9F, 0xA0, 0xBF, 0xC2, 0xE0, 0xF4, 0xFF] {
            let bytes = [a, b];
            assert_eq!(
                is_utf8(&bytes),
                std::str::from_utf8(&bytes).is_ok(),
                "disagree on {:?}",
                bytes
            );
        }
    }
}

#[test]
fn agrees_with_std_on_three_byte_prefixes() {
    for a in [0xE0u8, 0xE1, 0xEC, 0xED, 0xEE, 0xEF, 0xF0, 0xF1, 0xF3, 0xF4] {
        for b in [0x7Fu8, 0x80, 0x8F, 0x90, 0x9F, 0xA0, 0xBF, 0xC0] {
            for c in [0x7Fu8, 0x80, 0xBF, 0xC0] {
                let bytes = [a, b, c, 0x80];
                assert_eq!(
                    is_utf8(&bytes),
                    std::str::from_utf8(&bytes).is_ok(),
                    "disagree on {:?}",
                    bytes
                );
            }
        }
    }
}
