//! Tests for the chunk reducer's pin logic and window sizing.

use ppk2::reduce::{chunk_denominator, majority_pins, pins_match, window_reached, window_size};
use ppk2::types::{Level, LogicPortPins};

fn pins_with_pin0(high: bool) -> LogicPortPins {
    LogicPortPins::from_mask(if high { 1 } else { 0 })
}

#[test]
fn majority_three_of_five_is_high() {
    let samples = vec![
        pins_with_pin0(true),
        pins_with_pin0(true),
        pins_with_pin0(true),
        pins_with_pin0(false),
        pins_with_pin0(false),
    ];
    let reduced = majority_pins(&samples);
    assert!(reduced.pin_is_high(0));
}

#[test]
fn majority_two_of_five_is_low() {
    let samples = vec![
        pins_with_pin0(true),
        pins_with_pin0(true),
        pins_with_pin0(false),
        pins_with_pin0(false),
        pins_with_pin0(false),
    ];
    let reduced = majority_pins(&samples);
    assert!(reduced.pin_is_low(0));
}

#[test]
fn majority_needs_a_strict_majority() {
    // Two high out of four is exactly half: not a majority.
    let samples = vec![
        pins_with_pin0(true),
        pins_with_pin0(true),
        pins_with_pin0(false),
        pins_with_pin0(false),
    ];
    let reduced = majority_pins(&samples);
    assert!(reduced.pin_is_low(0));
}

#[test]
fn majority_votes_each_pin() {
    let samples = vec![
        LogicPortPins::from_mask(0b0000_0011),
        LogicPortPins::from_mask(0b0000_0001),
        LogicPortPins::from_mask(0b1000_0001),
    ];
    let reduced = majority_pins(&samples);
    assert!(reduced.pin_is_high(0));
    assert!(reduced.pin_is_low(1));
    assert!(reduced.pin_is_low(7));
}

#[test]
fn majority_of_nothing_is_low() {
    let samples: Vec<LogicPortPins> = vec![];
    let reduced = majority_pins(&samples);
    for i in 0..8 {
        assert!(reduced.pin_is_low(i));
    }
}

#[test]
fn low_pattern_excludes_high_pin() {
    let pattern = LogicPortPins::default().set_level(0, Level::Low);
    let high = pins_with_pin0(true);
    let low = pins_with_pin0(false);
    assert!(!pins_match(&high, &pattern));
    assert!(pins_match(&low, &pattern));
}

#[test]
fn wildcard_pattern_matches_everything() {
    let pattern = LogicPortPins::default();
    for mask in [0x00u8, 0x01, 0xA5, 0xFF] {
        assert!(pins_match(&LogicPortPins::from_mask(mask), &pattern));
    }
}

#[test]
fn window_size_at_hundred_sps() {
    assert_eq!(window_size(100), 900);
    assert!(!window_reached(899, 100));
    assert!(window_reached(900, 100));
    assert!(window_reached(901, 100));
}

#[test]
fn window_size_bounds() {
    assert_eq!(window_size(1), 90_000);
    assert_eq!(window_size(90_000), 1);
    assert_eq!(window_size(89_999), 1);
}

#[test]
fn denominator_compensates_missed() {
    assert_eq!(chunk_denominator(900, 0), 900);
    assert_eq!(chunk_denominator(10, 3), 7);
    assert_eq!(chunk_denominator(3, 5), 1);
    assert_eq!(chunk_denominator(5, 5), 1);
    assert_eq!(chunk_denominator(0, 0), 1);
}
