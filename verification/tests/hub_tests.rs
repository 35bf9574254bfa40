//! The broadcast channels: latest-value-wins coalescing, cursor-based
//! change detection, and the bounded consumer list.

use blinkybot::hub::{Comms, StateChannel};

#[test]
fn current_is_none_until_first_publish() {
    let ch: StateChannel<u8> = StateChannel::new(1);
    assert_eq!(ch.try_current(), None);
}

#[test]
fn publishes_coalesce_to_latest() {
    let mut ch: StateChannel<u32> = StateChannel::new(1);
    ch.publish(1);
    ch.publish(2);
    ch.publish(3);
    assert_eq!(ch.try_current(), Some(3));
}

#[test]
fn slow_consumer_wakes_once_with_latest() {
    let mut ch: StateChannel<u32> = StateChannel::new(1);
    let id = ch.attach().unwrap();
    ch.publish(1);
    // The consumer observes v1.
    assert_eq!(ch.poll_change(id), Some(1));
    assert_eq!(ch.poll_change(id), None);
    // Two publishes before it looks again: it sees only v3, exactly once.
    ch.publish(2);
    ch.publish(3);
    assert_eq!(ch.poll_change(id), Some(3));
    assert_eq!(ch.poll_change(id), None);
}

#[test]
fn fresh_consumer_sees_preexisting_value_as_change() {
    let mut ch: StateChannel<u16> = StateChannel::new(2);
    ch.publish(42);
    let id = ch.attach().unwrap();
    assert_eq!(ch.poll_change(id), Some(42));
    assert_eq!(ch.poll_change(id), None);
}

#[test]
fn consumers_have_independent_cursors() {
    let mut ch: StateChannel<u8> = StateChannel::new(2);
    let a = ch.attach().unwrap();
    let b = ch.attach().unwrap();
    ch.publish(7);
    assert_eq!(ch.poll_change(a), Some(7));
    assert_eq!(ch.poll_change(a), None);
    assert_eq!(ch.poll_change(b), Some(7));
}

#[test]
fn attach_is_refused_past_capacity() {
    let mut ch: StateChannel<u8> = StateChannel::new(1);
    assert_eq!(ch.attach(), Some(0));
    assert_eq!(ch.attach(), None);
}

#[test]
fn comms_channels_start_empty() {
    let comms = Comms::new();
    assert_eq!(comms.adc_val.try_current(), None);
    assert_eq!(comms.brightness_val.try_current(), None);
    assert_eq!(comms.default_expression.try_current(), None);
}
