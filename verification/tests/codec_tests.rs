//! The wire codec against the de-facto wire format: every encoder must
//! produce byte-for-byte what the transport's serializer produces, and the
//! decoders must invert the encoders.

use blinkybot::codec::{
    decode_value, encode_key, encode_value, push_varint, take_varint, ConfigKey, ConfigValue,
};
use blinkybot::expression::{Expression, ExpressionIndex};

fn varint_bytes(v: u64) -> Vec<u8> {
    let mut out = Vec::new();
    push_varint(&mut out, v);
    out
}

#[test]
fn varint_matches_reference_u16() {
    for v in [0u16, 1, 0x7f, 0x80, 0x3fff, 0x4000, 0xffff] {
        let reference = postcard::to_allocvec(&v).unwrap();
        assert_eq!(varint_bytes(v as u64), reference, "u16 value {v:#x}");
    }
}

#[test]
fn varint_matches_reference_u32() {
    for v in [0u32, 0x7f, 0x80, 0x3fff, 0x4000, 0x1f_ffff, 0x20_0000, u32::MAX] {
        let reference = postcard::to_allocvec(&v).unwrap();
        assert_eq!(varint_bytes(v as u64), reference, "u32 value {v:#x}");
    }
}

#[test]
fn varint_round_trip() {
    let mut data = Vec::new();
    let values = [0u64, 1, 0x7f, 0x80, 0x3fff, 0x4000, 0xffff, 0xffff_ffff];
    for v in values {
        push_varint(&mut data, v);
    }
    let mut pos = 0usize;
    for v in values {
        let (got, next) = take_varint(&data, pos, 5).expect("a valid varint");
        assert_eq!(got, v);
        pos = next;
    }
    assert_eq!(pos, data.len());
}

#[test]
fn varint_rejects_overflow_and_truncation() {
    // Six continuation bytes exceed the five-byte budget of a u32 read.
    let long = vec![0x80u8, 0x80, 0x80, 0x80, 0x80, 0x01];
    assert!(take_varint(&long, 0, 5).is_none());
    // A lone continuation byte has no terminator.
    let cut = vec![0x80u8];
    assert!(take_varint(&cut, 0, 5).is_none());
}

#[test]
fn key_encodings_are_fixed_and_distinct() {
    assert_eq!(encode_key(ConfigKey::ExpressionV0(ExpressionIndex::Default)), vec![0u8, 0]);
    assert_eq!(encode_key(ConfigKey::ExpressionV0(ExpressionIndex::Blink)), vec![0u8, 1]);
    assert_eq!(encode_key(ConfigKey::ExpressionV0(ExpressionIndex::Friend)), vec![0u8, 2]);
    assert_eq!(encode_key(ConfigKey::ExpressionV0(ExpressionIndex::FriendBlink)), vec![0u8, 3]);
    assert_eq!(encode_key(ConfigKey::BrightnessV0), vec![1u8]);
}

#[test]
fn value_encoding_matches_reference() {
    let e = Expression { pixels: [0x0000, 0x180c, 0x2412, 0x2412, 0x194c, 0x01c0, 0x0000] };
    let mut expected = vec![0u8];
    expected.extend_from_slice(&postcard::to_allocvec(&e.pixels).unwrap());
    assert_eq!(encode_value(&ConfigValue::ExpressionV0(e)), expected);

    let mut expected = vec![1u8];
    expected.extend_from_slice(&postcard::to_allocvec(&0x50u8).unwrap());
    assert_eq!(encode_value(&ConfigValue::BrightnessV0(0x50)), expected);
}

#[test]
fn value_round_trip() {
    let e = Expression { pixels: [0, 0, 0x1e, 0, 0x7fff, 0x0140, 0xffff] };
    let bytes = encode_value(&ConfigValue::ExpressionV0(e));
    match decode_value(&bytes) {
        Some(ConfigValue::ExpressionV0(back)) => assert_eq!(back, e),
        other => panic!("decoded {other:?}"),
    }

    let bytes = encode_value(&ConfigValue::BrightnessV0(0xab));
    match decode_value(&bytes) {
        Some(ConfigValue::BrightnessV0(b)) => assert_eq!(b, 0xab),
        other => panic!("decoded {other:?}"),
    }
}

#[test]
fn unrecognized_variant_decodes_as_absent() {
    // A tag from a future schema revision.
    assert!(decode_value(&vec![9u8, 1, 2, 3]).is_none());
    // A varint-extended tag.
    assert!(decode_value(&vec![0x80u8, 0x01]).is_none());
}

#[test]
fn truncated_value_decodes_as_absent() {
    assert!(decode_value(&vec![]).is_none());
    // A bitmap record cut off after three rows.
    assert!(decode_value(&vec![0u8, 1, 2, 3]).is_none());
    // A brightness record missing its byte.
    assert!(decode_value(&vec![1u8]).is_none());
}
