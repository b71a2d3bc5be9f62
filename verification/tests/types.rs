//! Tests for the logic-port model and the level-matching rules.

use ppk2::types::{Level, LogicPortPins};

#[test]
fn level_predicates() {
    assert!(Level::High.is_high());
    assert!(!Level::High.is_low());
    assert!(Level::Low.is_low());
    assert!(!Level::Low.is_high());
    assert!(!Level::Either.is_high());
    assert!(!Level::Either.is_low());
}

#[test]
fn level_matching_table() {
    // Either matches both sides; definite levels match only themselves.
    assert!(Level::Either.matches(Level::Low));
    assert!(Level::Either.matches(Level::High));
    assert!(Level::Low.matches(Level::Either));
    assert!(Level::High.matches(Level::Either));
    assert!(Level::Low.matches(Level::Low));
    assert!(Level::High.matches(Level::High));
    assert!(!Level::Low.matches(Level::High));
    assert!(!Level::High.matches(Level::Low));
}

#[test]
fn level_from_bit() {
    assert!(Level::from(true).is_high());
    assert!(Level::from(false).is_low());
}

#[test]
fn pins_from_mask() {
    let pins = LogicPortPins::from_mask(0b0110_0001);
    assert!(pins.pin_is_high(0));
    assert!(pins.pin_is_low(1));
    assert!(pins.pin_is_high(5));
    assert!(pins.pin_is_high(6));
    assert!(pins.pin_is_low(7));
}

#[test]
fn pins_set_level() {
    let pins = LogicPortPins::with_levels([Level::Low; 8]).set_level(3, Level::High);
    assert!(pins.pin_is_high(3));
    assert!(pins.pin_is_low(2));
    assert!(matches!(pins.inner()[3], Level::High));
}

#[test]
fn default_pins_are_wildcards() {
    let pins = LogicPortPins::default();
    for level in pins.inner() {
        assert!(matches!(level, Level::Either));
    }
    // A wildcard pin is neither high nor low.
    assert!(pins.pin_is_low(0));
    assert!(!pins.pin_is_high(0));
}
