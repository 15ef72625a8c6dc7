//! Masking: the scalar definition, its involution, and the streaming
//! masker.

use websocket::mask::{gen_mask, mask_data, Masker};

#[test]
fn test_mask_data() {
    let key = [1u8, 2u8, 3u8, 4u8];
    let original = vec![10u8, 11u8, 12u8, 13u8, 14u8, 15u8, 16u8, 17u8];
    let expected = vec![11u8, 9u8, 15u8, 9u8, 15u8, 13u8, 19u8, 21u8];
    let obtained = mask_data(key, &original[..]);
    let reversed = mask_data(key, &obtained[..]);

    assert_eq!(original, reversed);
    assert_eq!(obtained, expected);
}

#[test]
fn mask_involution_on_random_key() {
    let key = gen_mask();
    let data: Vec<u8> = (0..=255).collect();
    assert_eq!(mask_data(key, &mask_data(key, &data)), data);
}

#[test]
fn mask_of_empty_input_is_empty() {
    let out = mask_data([9, 9, 9, 9], &[]);
    assert!(out.is_empty());
}

#[test]
fn zero_key_leaves_payload_unchanged() {
    let data = b"untouched bytes".to_vec();
    assert_eq!(mask_data([0, 0, 0, 0], &data), data);
}

#[test]
fn masker_streams_like_one_shot() {
    let key = [7u8, 3u8, 250u8, 11u8];
    let data = b"The quick brown fox jumps over the lazy dog".to_vec();
    let whole = mask_data(key, &data);

    let mut m = Masker::new(key);
    let mut streamed = Vec::new();
    for chunk in data.chunks(5) {
        streamed.extend_from_slice(&m.process(chunk));
    }
    assert_eq!(streamed, whole);
}
