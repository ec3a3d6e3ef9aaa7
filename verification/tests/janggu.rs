use bidrum::controller::keyboard::{bits_to_janggu_input_state, keyboard_to_bits};
use bidrum::controller::serial::{has_coin_bit, parse_janggu_bits};
use bidrum::controller_wrapper::{janggu_state_to_u8, u8_to_janggu_state};
use bidrum::janggu::{decode_bits, JangguFace, JangguInputState};

fn all_faces() -> Vec<Option<JangguFace>> {
    vec![None, Some(JangguFace::Gungpyeon), Some(JangguFace::Yeolpyeon)]
}

#[test]
fn default_face_is_left() {
    assert_eq!(JangguFace::default(), JangguFace::Gungpyeon);
}

#[test]
fn encoding_round_trips() {
    for l in all_faces() {
        for r in all_faces() {
            let state = JangguInputState { gungchae: l, yeolchae: r };
            let bits = janggu_state_to_u8(state);
            assert_eq!(u8_to_janggu_state(bits), state);
            assert!(bits < 16);
        }
    }
}

#[test]
fn encoding_values() {
    let state = JangguInputState { gungchae: Some(JangguFace::Yeolpyeon), yeolchae: Some(JangguFace::Gungpyeon) };
    assert_eq!(janggu_state_to_u8(state), 2 | 4);
    let none = JangguInputState { gungchae: None, yeolchae: None };
    assert_eq!(janggu_state_to_u8(none), 0);
    let both_right = JangguInputState { gungchae: Some(JangguFace::Yeolpyeon), yeolchae: Some(JangguFace::Yeolpyeon) };
    assert_eq!(janggu_state_to_u8(both_right), 10);
}

#[test]
fn decoding_reads_low_bits() {
    // bit 1 wins over bit 2, bit 4 wins over bit 8, higher bits are ignored
    let s = decode_bits(0b0000_0011);
    assert_eq!(s.gungchae, Some(JangguFace::Gungpyeon));
    assert_eq!(s.yeolchae, None);
    let s = decode_bits(0b0001_1000);
    assert_eq!(s.gungchae, None);
    assert_eq!(s.yeolchae, Some(JangguFace::Yeolpyeon));
    let s = decode_bits(0b1111_1111);
    assert_eq!(s.gungchae, Some(JangguFace::Gungpyeon));
    assert_eq!(s.yeolchae, Some(JangguFace::Gungpyeon));
    for b in 0..=255u8 {
        assert_eq!(parse_janggu_bits(b), decode_bits(b));
        assert_eq!(bits_to_janggu_input_state(b), decode_bits(b));
        assert_eq!(u8_to_janggu_state(b), decode_bits(b));
    }
}

#[test]
fn encode_after_decode_keeps_read_bits() {
    for b in 0..=255u8 {
        let expected = (if b & 1 != 0 { 1 } else { b & 2 }) | (if b & 4 != 0 { 4 } else { b & 8 });
        assert_eq!(janggu_state_to_u8(decode_bits(b)), expected);
    }
}

#[test]
fn keyboard_keys_to_bits() {
    assert_eq!(keyboard_to_bits(false, false, false, false), 0);
    assert_eq!(keyboard_to_bits(true, false, false, false), 1);
    assert_eq!(keyboard_to_bits(false, true, false, false), 2);
    assert_eq!(keyboard_to_bits(true, true, false, false), 1);
    assert_eq!(keyboard_to_bits(false, false, true, false), 4);
    assert_eq!(keyboard_to_bits(false, false, false, true), 8);
    assert_eq!(keyboard_to_bits(false, false, true, true), 4);
    assert_eq!(keyboard_to_bits(false, true, false, true), 10);
}

#[test]
fn coin_bit() {
    assert!(has_coin_bit(16));
    assert!(has_coin_bit(0xff));
    assert!(!has_coin_bit(15));
    assert!(!has_coin_bit(32));
}
