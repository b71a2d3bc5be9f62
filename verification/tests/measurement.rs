//! Tests for the sample decoder, the missed-sample accounting, and the
//! range-switch suppression control.

use std::collections::VecDeque;

use ppk2::measurement::{
    generate_mask, get_adc, get_counter, get_logic, get_range_clamped, MeasurementAccumulator,
    MeasurementMissed, RawMeasurement, SpikeFilterState, SpikeOutcome,
};

/// Assemble one sample word from its fields, as the instrument would.
fn word(adc: u32, range: u32, counter: u32, logic: u32) -> u32 {
    (adc & 0x3FFF) | ((range & 0x7) << 14) | ((counter & 0x3F) << 18) | ((logic & 0xFF) << 24)
}

fn bytes_of(words: &[u32]) -> Vec<u8> {
    let mut out = Vec::new();
    for w in words {
        out.extend_from_slice(&w.to_le_bytes());
    }
    out
}

fn feed(words: &[u32]) -> (VecDeque<RawMeasurement>, usize) {
    let mut acc = MeasurementAccumulator::new();
    let mut out = VecDeque::new();
    let missed = acc.feed_into(&bytes_of(words), &mut out);
    (out, missed)
}

#[test]
fn masks() {
    assert_eq!(generate_mask(14, 0), 0x3FFF);
    assert_eq!(generate_mask(3, 14), 0x7 << 14);
    assert_eq!(generate_mask(6, 18), 0x3F << 18);
    assert_eq!(generate_mask(8, 24), 0xFF << 24);
}

#[test]
fn field_extraction() {
    let w = word(108, 3, 62, 0xA5);
    assert_eq!(get_adc(w), 108);
    assert_eq!(get_range_clamped(w), 3);
    assert_eq!(get_counter(w), 62);
    assert_eq!(get_logic(w), 0xA5);
}

#[test]
fn range_is_clamped() {
    // Raw ranges 5, 6 and 7 clamp to 4.
    for raw in 5..8 {
        assert_eq!(get_range_clamped(word(0, raw, 0, 0)), 4);
    }
    for raw in 0..5 {
        assert_eq!(get_range_clamped(word(0, raw, 0, 0)), raw as u8);
    }
}

#[test]
fn counter_stays_below_wrap() {
    for c in 0..64 {
        let got = get_counter(word(0, 0, c, 0));
        assert_eq!(got as u32, c);
        assert!(got < 64);
    }
}

#[test]
fn counter_wrap_yields_no_missed() {
    // Counters 0, 1, ..., 63, 0, 1: a full wrap with nothing missing.
    let mut counters: Vec<u32> = (0..64).collect();
    counters.push(0);
    counters.push(1);
    let words: Vec<u32> = counters.iter().map(|c| word(5, 0, *c, 0)).collect();
    let (out, missed) = feed(&words);
    assert_eq!(missed, 0);
    assert_eq!(out.len(), 66);
}

#[test]
fn counter_gap_yields_one_missed() {
    // Counters 0, 1, 3: exactly one sample missing between 1 and 3.
    let words = [word(5, 0, 0, 0), word(5, 0, 1, 0), word(5, 0, 3, 0)];
    let (out, missed) = feed(&words);
    assert_eq!(missed, 1);
    // The word with the unexpected counter yields no measurement.
    assert_eq!(out.len(), 2);
}

#[test]
fn first_sample_synchronizes_silently() {
    let words = [word(5, 0, 17, 0), word(5, 0, 18, 0)];
    let (out, missed) = feed(&words);
    assert_eq!(missed, 0);
    assert_eq!(out.len(), 2);
}

#[test]
fn gap_across_the_wrap_counts_modulo() {
    // After counter 61 the accumulator expects 62; seeing 1 instead misses
    // (1 - 62) mod 64 = 3 samples.
    let words = [word(5, 0, 61, 0), word(5, 0, 1, 0)];
    let (out, missed) = feed(&words);
    assert_eq!(missed, 3);
    assert_eq!(out.len(), 1);
}

#[test]
fn partial_words_wait_for_their_bytes() {
    let mut acc = MeasurementAccumulator::new();
    let mut out = VecDeque::new();
    let bytes = bytes_of(&[word(42, 0, 7, 0)]);
    assert_eq!(acc.feed_into(&bytes[..3], &mut out), 0);
    assert_eq!(out.len(), 0);
    assert_eq!(acc.feed_into(&bytes[3..], &mut out), 0);
    assert_eq!(out.len(), 1);
    assert_eq!(out[0].adc_value, 42 * 4);
    assert_eq!(out[0].counter, 7);
}

#[test]
fn adc_value_is_scaled_by_four() {
    let (out, _) = feed(&[word(0x3FFF, 0, 0, 0)]);
    assert_eq!(out[0].adc_value, 0x3FFF * 4);
}

#[test]
fn pins_follow_the_logic_byte() {
    let (out, _) = feed(&[word(0, 0, 0, 0b1010_0101)]);
    let pins = out[0].pins;
    for i in 0..8 {
        let bit = (0b1010_0101u8 >> i) & 1 == 1;
        assert_eq!(pins.pin_is_high(i), bit);
    }
}

#[test]
fn steady_range_keeps_values() {
    let words = [word(5, 0, 0, 0), word(5, 0, 1, 0), word(5, 0, 2, 0)];
    let (out, _) = feed(&words);
    for m in out.iter() {
        assert_eq!(m.spike, SpikeOutcome::Keep);
    }
}

#[test]
fn range_transition_suppresses() {
    // Range 0, then range 1: the transition sample takes the rolling
    // average; once the range settles the values stand again.
    let words = [word(5, 0, 0, 0), word(5, 1, 1, 0), word(5, 1, 2, 0)];
    let (out, _) = feed(&words);
    assert_eq!(out[0].spike, SpikeOutcome::Keep);
    assert_eq!(out[1].spike, SpikeOutcome::UseRollingAvg);
    assert_eq!(out[2].spike, SpikeOutcome::Keep);
}

#[test]
fn transition_into_range_four_rolls_back() {
    let words = [word(5, 0, 0, 0), word(5, 4, 1, 0), word(5, 4, 2, 0)];
    let (out, _) = feed(&words);
    assert_eq!(out[0].spike, SpikeOutcome::Keep);
    assert_eq!(out[1].spike, SpikeOutcome::UseRollingAvg4 { rollback: true });
    assert_eq!(out[2].spike, SpikeOutcome::Keep);
}

#[test]
fn alternating_ranges_keep_suppressing() {
    let words = [
        word(5, 0, 0, 0),
        word(5, 4, 1, 0),
        word(5, 0, 2, 0),
        word(5, 4, 3, 0),
    ];
    let (out, _) = feed(&words);
    assert_eq!(out[1].spike, SpikeOutcome::UseRollingAvg4 { rollback: true });
    assert_eq!(out[2].spike, SpikeOutcome::UseRollingAvg);
    // By the third transition the range has been unstable for three
    // samples in a row: no rollback any more.
    assert_eq!(out[3].spike, SpikeOutcome::UseRollingAvg4 { rollback: false });
}

#[test]
fn spike_filter_state_steps() {
    let mut s = SpikeFilterState::init();
    assert_eq!(s.step(0), SpikeOutcome::Keep);
    assert_eq!(s.prev_range, Some(0));
    assert_eq!(s.step(1), SpikeOutcome::UseRollingAvg);
    assert_eq!(s.consecutive_range_sample, 1);
    assert_eq!(s.after_spike, -1);
}

#[test]
fn empty_feed_is_a_no_op() {
    let mut acc = MeasurementAccumulator::new();
    let mut out = VecDeque::new();
    assert_eq!(acc.feed_into(&[], &mut out), 0);
    assert!(out.is_empty());
}

#[test]
fn counter_state_persists_across_feeds() {
    let mut acc = MeasurementAccumulator::new();
    let mut out = VecDeque::new();
    assert_eq!(acc.feed_into(&bytes_of(&[word(5, 0, 10, 0)]), &mut out), 0);
    assert_eq!(acc.feed_into(&bytes_of(&[word(5, 0, 11, 0)]), &mut out), 0);
    assert_eq!(out.len(), 2);
    // A later feed with a jump still sees the expected counter.
    assert_eq!(acc.feed_into(&bytes_of(&[word(5, 0, 14, 0)]), &mut out), 2);
    assert_eq!(out.len(), 2);
}

#[test]
fn missed_amount_wraps() {
    let gap = MeasurementMissed { expected_counter: Some(62), actual_counter: 1 };
    assert_eq!(gap.amount(), 3);
    let plain = MeasurementMissed { expected_counter: Some(1), actual_counter: 5 };
    assert_eq!(plain.amount(), 4);
    let fresh = MeasurementMissed { expected_counter: None, actual_counter: 9 };
    assert_eq!(fresh.amount(), 0);
}
