//! The configuration store: default fallback, round-trip durability across
//! a reopen, forward compatibility with unrecognized records, and the
//! failure path when the region is exhausted.

use blinkybot::codec::{encode_key, ConfigKey};
use blinkybot::expression::{Expression, ExpressionIndex};
use blinkybot::log::RecordLog;
use blinkybot::store::{default_expression, ConfigStore, DEFAULT_BRIGHTNESS};

const SMILEY: [u16; 7] = [
    0b000_0000_0000_0000,
    0b001_1000_0000_1100,
    0b010_0100_0001_0010,
    0b010_0100_0001_0010,
    0b001_1001_0100_1100,
    0b000_0001_1100_0000,
    0b000_0000_0000_0000,
];

const BLINK_FACE: [u16; 7] = [
    0b000_0000_0000_0000,
    0b000_0000_0000_0000,
    0b011_1100_0001_1110,
    0b000_0000_0000_0000,
    0b000_0001_0100_0000,
    0b000_0001_1100_0000,
    0b000_0000_0000_0000,
];

#[test]
fn unwritten_keys_read_documented_defaults() {
    let store = ConfigStore::new(1024);
    assert_eq!(store.get_brightness(), 0x2f);
    assert_eq!(DEFAULT_BRIGHTNESS, 0x2f);
    assert_eq!(store.get_expression(ExpressionIndex::Default).pixels, SMILEY);
    assert_eq!(store.get_expression(ExpressionIndex::Friend).pixels, SMILEY);
    assert_eq!(store.get_expression(ExpressionIndex::Blink).pixels, BLINK_FACE);
    assert_eq!(store.get_expression(ExpressionIndex::FriendBlink).pixels, BLINK_FACE);
    assert_eq!(default_expression(ExpressionIndex::Default).pixels, SMILEY);
}

#[test]
fn set_then_get_round_trips() {
    let mut store = ConfigStore::new(1024);
    let e = Expression { pixels: [1, 2, 3, 4, 5, 6, 7] };
    store.set_expression(ExpressionIndex::Friend, e).unwrap();
    assert_eq!(store.get_expression(ExpressionIndex::Friend), e);
    store.set_brightness(0x77).unwrap();
    assert_eq!(store.get_brightness(), 0x77);
    // Other slots are untouched.
    assert_eq!(store.get_expression(ExpressionIndex::Default).pixels, SMILEY);
}

#[test]
fn round_trip_survives_reopen() {
    let mut store = ConfigStore::new(1024);
    let e = Expression { pixels: [0xffff, 0, 0x8000, 1, 0x7fff, 0x1234, 9] };
    store.set_expression(ExpressionIndex::Blink, e).unwrap();
    store.set_brightness(0x09).unwrap();
    let log = store.into_log();
    let reopened = ConfigStore::from_log(log);
    assert_eq!(reopened.get_expression(ExpressionIndex::Blink), e);
    assert_eq!(reopened.get_brightness(), 0x09);
}

#[test]
fn newest_write_wins() {
    let mut store = ConfigStore::new(1024);
    store.set_brightness(0x10).unwrap();
    store.set_brightness(0x20).unwrap();
    store.set_brightness(0x30).unwrap();
    assert_eq!(store.get_brightness(), 0x30);
}

#[test]
fn unrecognized_record_reads_as_absent() {
    let mut log = RecordLog::new(1024);
    // A value written by a future schema: variant tag 9.
    log.append(encode_key(ConfigKey::ExpressionV0(ExpressionIndex::Default)), vec![9, 1, 2])
        .unwrap();
    let store = ConfigStore::from_log(log);
    assert_eq!(store.get_expression(ExpressionIndex::Default).pixels, SMILEY);
}

#[test]
fn unrecognized_record_leaves_other_keys_intact() {
    let mut store = ConfigStore::new(1024);
    let e = Expression { pixels: [7, 7, 7, 7, 7, 7, 7] };
    store.set_expression(ExpressionIndex::Blink, e).unwrap();
    let mut log = store.into_log();
    log.append(encode_key(ConfigKey::ExpressionV0(ExpressionIndex::Default)), vec![200, 0])
        .unwrap();
    let store = ConfigStore::from_log(log);
    assert_eq!(store.get_expression(ExpressionIndex::Default).pixels, SMILEY);
    assert_eq!(store.get_expression(ExpressionIndex::Blink), e);
}

#[test]
fn mismatched_family_reads_as_absent() {
    let mut log = RecordLog::new(1024);
    // A brightness-shaped value stored under an expression key.
    log.append(encode_key(ConfigKey::ExpressionV0(ExpressionIndex::Friend)), vec![1, 0x44])
        .unwrap();
    let store = ConfigStore::from_log(log);
    assert_eq!(store.get_expression(ExpressionIndex::Friend).pixels, SMILEY);
}

#[test]
fn exhausted_region_fails_and_preserves_reads() {
    // Too small for even one brightness record (1 key byte + 2 value bytes).
    let mut store = ConfigStore::new(2);
    store.set_brightness(0x10).unwrap_err();
    assert_eq!(store.get_brightness(), DEFAULT_BRIGHTNESS);
    // A prior value survives a later failed write.
    let mut store = ConfigStore::new(3);
    store.set_brightness(0x10).unwrap();
    let e = Expression { pixels: [1, 2, 3, 4, 5, 6, 7] };
    store.set_expression(ExpressionIndex::Default, e).unwrap_err();
    assert_eq!(store.get_brightness(), 0x10);
    assert_eq!(store.get_expression(ExpressionIndex::Default).pixels, SMILEY);
}

#[test]
fn reclamation_makes_room_for_superseded_slots() {
    // Room for a handful of records at a time, far fewer than the writes.
    let mut store = ConfigStore::new(16);
    for round in 0..100u16 {
        store.set_brightness((round % 251) as u8).unwrap();
    }
    assert_eq!(store.get_brightness(), (99 % 251) as u8);
}

#[test]
fn log_fetches_newest_record_per_key() {
    let mut log = RecordLog::new(1024);
    log.append(vec![1], vec![1, 10]).unwrap();
    log.append(vec![1], vec![1, 20]).unwrap();
    log.append(vec![0, 0], vec![1, 30]).unwrap();
    assert_eq!(log.fetch_latest(&vec![1]), Some(vec![1, 20]));
    assert_eq!(log.fetch_latest(&vec![0, 0]), Some(vec![1, 30]));
    assert_eq!(log.fetch_latest(&vec![9]), None);
}
