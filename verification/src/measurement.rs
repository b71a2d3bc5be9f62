//! Sample decoding and accumulation: 32-bit little-endian sample words are
//! split into their ADC value, gain range, wrapping counter and logic-port
//! fields; a stateful accumulator frames an arbitrary byte stream into such
//! words, accounts for missed samples through the wrapping counter, and runs
//! the range-switch suppression state machine over the decoded ranges.
//!
//! The floating-point calibration arithmetic itself stays with the caller:
//! for each decoded sample the accumulator says which rolling average the
//! suppression rule selects, and the caller applies it to its averages.

use std::collections::VecDeque;

use vstd::prelude::*;

use crate::types::{levels_of_mask, LogicPortPins};

verus! {

broadcast use vstd::std_specs::vecdeque::group_vec_dequeue_axioms;

/// The bit mask selecting `bits` bits starting at bit `pos`.
pub open spec fn spec_mask(bits: u32, pos: u32) -> u32 {
    ((((1u64 << bits) - 1) as u32) << pos) as u32
}

/// Build the bit mask that selects `bits` bits starting at bit `pos`.
pub fn generate_mask(bits: u32, pos: u32) -> (r: u32)
    requires
        bits < 32,
        pos < 32,
        bits + pos <= 32,
    ensures
        r == spec_mask(bits, pos),
{
    proof {
        assert(1u64 << bits >= 1 && (1u64 << bits) - 1 <= 0xFFFF_FFFF) by (bit_vector)
            requires
                bits < 32,
        ;
    }
    let wide: u64 = 1u64 << bits;
    let base: u32 = (wide - 1) as u32;
    base << pos
}

/// Bits 0 to 13: the raw 14-bit ADC reading.
pub open spec fn spec_adc_raw(w: u32) -> u32 {
    w & 0x3FFF
}

/// The ADC reading scaled by four, into the calibration arithmetic's
/// fixed-point range.
pub open spec fn spec_adc_value(w: u32) -> u32 {
    (spec_adc_raw(w) * 4) as u32
}

/// Bits 14 to 16: the raw gain range.
pub open spec fn spec_range_raw(w: u32) -> u32 {
    (w >> 14) & 0x7
}

/// The gain range clamped to the five ranges that exist.
pub open spec fn spec_range(w: u32) -> u8 {
    if spec_range_raw(w) < 4 {
        spec_range_raw(w) as u8
    } else {
        4u8
    }
}

/// Bits 18 to 23: the 6-bit sample counter.
pub open spec fn spec_counter(w: u32) -> u8 {
    ((w >> 18) & 0x3F) as u8
}

/// Bits 24 to 31: the logic-port byte.
pub open spec fn spec_logic(w: u32) -> u8 {
    ((w >> 24) & 0xFF) as u8
}

/// Extract the raw ADC reading.
pub fn get_adc(raw: u32) -> (r: u32)
    ensures
        r == spec_adc_raw(raw),
        r <= 0x3FFF,
{
    let r = (raw & generate_mask(14, 0)) >> 0;
    proof {
        assert((raw & ((((1u64 << 14u64) - 1) as u32) << 0)) >> 0 == raw & 0x3FFF
            && raw & 0x3FFF <= 0x3FFF) by (bit_vector);
    }
    r
}

/// Extract the raw gain range.
pub fn get_range(raw: u32) -> (r: u32)
    ensures
        r == spec_range_raw(raw),
        r <= 7,
{
    let r = (raw & generate_mask(3, 14)) >> 14;
    proof {
        assert((raw & ((((1u64 << 3u64) - 1) as u32) << 14)) >> 14 == (raw >> 14) & 0x7 && (raw
            >> 14) & 0x7 <= 7) by (bit_vector);
    }
    r
}

/// Extract the wrapping sample counter; it always lies below 64.
pub fn get_counter(raw: u32) -> (r: u8)
    ensures
        r == spec_counter(raw),
        r < 64,
{
    let r = ((raw & generate_mask(6, 18)) >> 18) as u8;
    proof {
        assert(((raw & ((((1u64 << 6u64) - 1) as u32) << 18)) >> 18) as u8 == ((raw >> 18)
            & 0x3F) as u8 && (((raw >> 18) & 0x3F) as u8) < 64) by (bit_vector);
    }
    r
}

/// Extract the logic-port byte.
pub fn get_logic(raw: u32) -> (r: u8)
    ensures
        r == spec_logic(raw),
{
    let r = ((raw & generate_mask(8, 24)) >> 24) as u8;
    proof {
        assert(((raw & ((((1u64 << 8u64) - 1) as u32) << 24)) >> 24) as u8 == ((raw >> 24)
            & 0xFF) as u8) by (bit_vector);
    }
    r
}

/// The gain range clamped to 0 to 4.
pub fn get_range_clamped(raw: u32) -> (r: u8)
    ensures
        r == spec_range(raw),
        r <= 4,
{
    let rr = get_range(raw);
    if rr < 4 {
        rr as u8
    } else {
        4
    }
}

/// Law: whatever the word, the decoded range is one of the five that exist
/// and the decoded counter lies below the 6-bit wrap.
pub proof fn lemma_decoded_fields_bounded(w: u32)
    ensures
        spec_range(w) <= 4,
        spec_counter(w) < 64,
{
    assert(((w >> 18) & 0x3F) < 64) by (bit_vector);
}

/// Which rolling average the range-switch suppression selects for one
/// decoded sample.
#[derive(Debug, Clone, Copy, PartialEq, Eq, Structural)]
pub enum SpikeOutcome {
    /// No suppression: the calibrated value stands as computed.
    Keep,
    /// Replace the value with the ordinary rolling average.
    UseRollingAvg,
    /// Replace the value with the slow rolling average of range 4; with
    /// `rollback`, both averages are first restored to their values from
    /// before this sample.
    UseRollingAvg4 {
        /// Whether the averages roll back before the value is taken.
        rollback: bool,
    },
}

/// State of the range-switch suppression rule.
#[derive(Debug, Clone, Copy, PartialEq, Eq, Structural)]
pub struct SpikeFilterState {
    /// The previous sample's range; seeded with the first range seen.
    pub prev_range: Option<u8>,
    /// How many suppressed samples are still to come after a switch back.
    pub after_spike: i32,
    /// How many samples in a row arrived while the range kept changing.
    pub consecutive_range_sample: usize,
}

/// How many suppressed samples follow a range switch.
pub const SPIKE_FILTER_SAMPLES: i32 = 3;

impl SpikeFilterState {
    /// The state a fresh session starts from.
    pub open spec fn spec_init() -> SpikeFilterState {
        SpikeFilterState { prev_range: None, after_spike: 0, consecutive_range_sample: 0 }
    }

    /// Once seeded, the previous range is one of the five that exist.
    pub open spec fn wf(self) -> bool {
        match self.prev_range {
            Some(r) => r <= 4,
            None => true,
        }
    }

    /// A fresh suppression state.
    pub fn init() -> (r: SpikeFilterState)
        ensures
            r == SpikeFilterState::spec_init(),
    {
        SpikeFilterState { prev_range: None, after_spike: 0, consecutive_range_sample: 0 }
    }

    /// Advance the suppression state by one sample's range.
    pub fn step(&mut self, range: u8) -> (outcome: SpikeOutcome)
        ensures
            ({
                let (s2, oc) = spec_spike_step(*old(self), range);
                *final(self) == s2 && outcome == oc
            }),
    {
        let prev = match self.prev_range {
            Some(r) => r,
            None => range,
        };
        if prev != range || self.after_spike > 0 {
            if prev == range {
                self.consecutive_range_sample = 0;
                self.after_spike = SPIKE_FILTER_SAMPLES;
            } else {
                if self.consecutive_range_sample != usize::MAX {
                    self.consecutive_range_sample = self.consecutive_range_sample + 1;
                }
            }
            let outcome = if range == 4 {
                SpikeOutcome::UseRollingAvg4 { rollback: self.consecutive_range_sample < 2 }
            } else {
                SpikeOutcome::UseRollingAvg
            };
            if self.after_spike != i32::MIN {
                self.after_spike = self.after_spike - 1;
            }
            self.prev_range = Some(range);
            outcome
        } else {
            self.prev_range = Some(range);
            SpikeOutcome::Keep
        }
    }
}

/// The suppression rule: fire on a range change or while the countdown from
/// an earlier one still runs. In the tail of a switch back the consecutive
/// count resets and the countdown restarts; on an actual transition the
/// count grows. Range 4 takes the slow average, rolled back unless the
/// range has settled for two samples; other ranges take the ordinary
/// average. The countdown drops by one whenever the rule fires. The two
/// saturations (of the count upward, of the countdown downward) are beyond
/// any reachable run; only `count < 2` and `countdown > 0` are ever read.
pub open spec fn spec_spike_step(s: SpikeFilterState, range: u8) -> (SpikeFilterState,
    SpikeOutcome) {
    let prev = match s.prev_range {
        Some(r) => r,
        None => range,
    };
    if prev != range || s.after_spike > 0 {
        let crs = if prev == range {
            0usize
        } else if s.consecutive_range_sample == usize::MAX {
            usize::MAX
        } else {
            (s.consecutive_range_sample + 1) as usize
        };
        let asp0 = if prev == range {
            SPIKE_FILTER_SAMPLES
        } else {
            s.after_spike
        };
        let outcome = if range == 4 {
            SpikeOutcome::UseRollingAvg4 { rollback: crs < 2 }
        } else {
            SpikeOutcome::UseRollingAvg
        };
        let asp = if asp0 == i32::MIN {
            asp0
        } else {
            (asp0 - 1) as i32
        };
        (
            SpikeFilterState { prev_range: Some(range), after_spike: asp, consecutive_range_sample: crs },
            outcome,
        )
    } else {
        (SpikeFilterState { prev_range: Some(range), ..s }, SpikeOutcome::Keep)
    }
}

/// One or more samples were missed: the counter did not carry the expected
/// value.
#[derive(Debug, Clone, Copy, PartialEq, Eq, Structural)]
pub struct MeasurementMissed {
    /// The counter that was expected to come with this sample.
    pub expected_counter: Option<u8>,
    /// The counter that actually came.
    pub actual_counter: u8,
}

impl MeasurementMissed {
    /// Both counters lie below the 6-bit wrap.
    pub open spec fn wf(self) -> bool {
        &&& match self.expected_counter {
            Some(e) => e < 64,
            None => true,
        }
        &&& self.actual_counter < 64
    }

    /// How many samples the gap swallowed: the counter distance modulo 64.
    pub open spec fn spec_amount(self) -> int {
        match self.expected_counter {
            Some(e) => spec_missed_amount(e, self.actual_counter),
            None => 0,
        }
    }

    /// How many samples the gap swallowed.
    pub fn amount(&self) -> (r: usize)
        requires
            self.wf(),
        ensures
            r == self.spec_amount(),
    {
        match self.expected_counter {
            Some(e) => {
                if self.actual_counter >= e {
                    (self.actual_counter - e) as usize
                } else {
                    (self.actual_counter as usize + 64) - e as usize
                }
            },
            None => 0,
        }
    }
}

/// The counter distance `(counter - expected) mod 64`, both below 64.
pub open spec fn spec_missed_amount(expected: u8, counter: u8) -> int {
    if counter >= expected {
        counter - expected
    } else {
        counter + 64 - expected
    }
}

/// The counter the next sample should carry: one more, wrapping at 64.
pub open spec fn spec_next_counter(counter: u8) -> u8 {
    if counter == 63 {
        0u8
    } else {
        (counter + 1) as u8
    }
}

/// One decoded sample, ready for calibration.
#[derive(Debug, Clone, Copy)]
pub struct RawMeasurement {
    /// The ADC reading scaled by four.
    pub adc_value: u32,
    /// The gain range, clamped to 0 to 4.
    pub range: u8,
    /// The 6-bit sample counter.
    pub counter: u8,
    /// The logic-port state read with the sample.
    pub pins: LogicPortPins,
    /// Which rolling average the suppression rule selects for this sample.
    pub spike: SpikeOutcome,
}

/// Ghost mirror of one decoded sample.
pub struct SampleSpec {
    pub adc_value: u32,
    pub range: u8,
    pub counter: u8,
    pub logic: u8,
    pub spike: SpikeOutcome,
}

/// The decoded form of one word under a given suppression outcome.
pub open spec fn sample_of_word(w: u32, spike: SpikeOutcome) -> SampleSpec {
    SampleSpec {
        adc_value: spec_adc_value(w),
        range: spec_range(w),
        counter: spec_counter(w),
        logic: spec_logic(w),
        spike,
    }
}

/// An emitted sample carries exactly the fields of its ghost mirror.
pub open spec fn raw_matches(m: RawMeasurement, s: SampleSpec) -> bool {
    &&& m.adc_value == s.adc_value
    &&& m.range == s.range
    &&& m.counter == s.counter
    &&& m.pins@ == levels_of_mask(s.logic)
    &&& m.spike == s.spike
}

/// The little-endian 32-bit word spelled by four bytes.
pub open spec fn spec_le_word(b0: u8, b1: u8, b2: u8, b3: u8) -> u32 {
    (b0 + b1 * 0x100 + b2 * 0x10000 + b3 * 0x1000000) as u32
}

/// The complete little-endian words at the front of a byte sequence.
pub open spec fn spec_words(b: Seq<u8>) -> Seq<u32> {
    Seq::new(b.len() / 4, |k: int| spec_le_word(b[4 * k], b[4 * k + 1], b[4 * k + 2], b[4 * k + 3]))
}

/// What feeding a word sequence produces: the counter and suppression state
/// afterwards, the decoded samples in order, and the total of missed
/// samples.
pub struct FeedResult {
    pub expected: Option<u8>,
    pub spike: SpikeFilterState,
    pub samples: Seq<SampleSpec>,
    pub missed: int,
}

/// Decode one word on top of an accumulated result. A counter other than
/// the expected one yields no sample and adds the counter distance to the
/// missed total; otherwise the sample is decoded and the suppression rule
/// advances. Either way the next expected counter follows the word's
/// counter. The first word of a session synchronizes silently.
pub open spec fn spec_feed_step(r: FeedResult, w: u32) -> FeedResult {
    let counter = spec_counter(w);
    let next = Some(spec_next_counter(counter));
    let gap = match r.expected {
        Some(prev) => prev != counter,
        None => false,
    };
    if gap {
        FeedResult {
            expected: next,
            spike: r.spike,
            samples: r.samples,
            missed: r.missed + spec_missed_amount(r.expected.unwrap(), counter),
        }
    } else {
        let (sp2, outcome) = spec_spike_step(r.spike, spec_range(w));
        FeedResult {
            expected: next,
            spike: sp2,
            samples: r.samples.push(sample_of_word(w, outcome)),
            missed: r.missed,
        }
    }
}

/// Fold [`spec_feed_step`] over a word sequence.
pub open spec fn spec_feed(expected: Option<u8>, spike: SpikeFilterState, words: Seq<u32>) -> FeedResult
    decreases words.len(),
{
    if words.len() == 0 {
        FeedResult { expected, spike, samples: Seq::empty(), missed: 0 }
    } else {
        spec_feed_step(spec_feed(expected, spike, words.drop_last()), words.last())
    }
}

/// Law: from a fresh counter state, a word stream whose counters follow one
/// another — each one more than the last, wrapping at 64 — yields no missed
/// samples, whatever the suppression state; and afterwards the accumulator
/// expects the counter after the last one seen.
pub proof fn lemma_consecutive_counters_no_missed(spike: SpikeFilterState, words: Seq<u32>)
    requires
        forall|j: int|
            0 < j < words.len() ==> spec_counter(#[trigger] words[j]) == spec_next_counter(
                spec_counter(words[j - 1]),
            ),
    ensures
        spec_feed(None, spike, words).missed == 0,
        words.len() > 0 ==> spec_feed(None, spike, words).expected == Some(
            spec_next_counter(spec_counter(words.last())),
        ),
    decreases words.len(),
{
    if words.len() > 0 {
        let prefix = words.drop_last();
        assert forall|j: int|
            0 < j < prefix.len() implies spec_counter(#[trigger] prefix[j]) == spec_next_counter(
            spec_counter(prefix[j - 1]),
        ) by {
            assert(prefix[j] == words[j] && prefix[j - 1] == words[j - 1]);
        }
        lemma_consecutive_counters_no_missed(spike, prefix);
        let fr_prev = spec_feed(None, spike, prefix);
        if prefix.len() > 0 {
            assert(prefix.last() == words[words.len() - 2]);
            assert(spec_counter(words.last()) == spec_next_counter(
                spec_counter(words[words.len() - 2]),
            ));
            assert(fr_prev.expected == Some(spec_counter(words.last())));
        }
    }
}

/// Law: a word whose counter is not the expected one yields no sample,
/// leaves the suppression state alone, and adds exactly the counter
/// distance modulo 64 to the missed total; the next expected counter
/// resynchronizes to the one after the word's.
pub proof fn lemma_gap_accounting(r: FeedResult, w: u32)
    requires
        r.expected is Some,
        r.expected.unwrap() != spec_counter(w),
    ensures
        spec_feed_step(r, w).missed == r.missed + spec_missed_amount(
            r.expected.unwrap(),
            spec_counter(w),
        ),
        spec_feed_step(r, w).samples == r.samples,
        spec_feed_step(r, w).spike == r.spike,
        spec_feed_step(r, w).expected == Some(spec_next_counter(spec_counter(w))),
{
}

/// An accumulator for [`RawMeasurement`]s: keeps the bytes that do not yet
/// make a whole word, the expected counter, and the suppression state, and
/// decodes every complete word fed to it.
#[derive(Debug)]
pub struct MeasurementAccumulator {
    buf: Vec<u8>,
    expected_counter: Option<u8>,
    spike: SpikeFilterState,
}

impl MeasurementAccumulator {
    /// The bytes fed but not yet decoded: fewer than one word's worth.
    pub closed spec fn pending(&self) -> Seq<u8> {
        self.buf@
    }

    /// The counter the next sample should carry, once one was seen.
    pub closed spec fn expected(&self) -> Option<u8> {
        self.expected_counter
    }

    /// The suppression state.
    pub closed spec fn spike_state(&self) -> SpikeFilterState {
        self.spike
    }

    /// At most three bytes pending, the expected counter below the wrap,
    /// the seeded range one of the five that exist.
    pub open spec fn wf(&self) -> bool {
        &&& self.pending().len() < 4
        &&& match self.expected() {
            Some(e) => e < 64,
            None => true,
        }
        &&& self.spike_state().wf()
    }

    /// A fresh accumulator, expecting the stream's first word.
    pub fn new() -> (r: Self)
        ensures
            r.pending() == Seq::<u8>::empty(),
            r.expected() is None,
            r.spike_state() == SpikeFilterState::spec_init(),
            r.wf(),
    {
        MeasurementAccumulator {
            buf: Vec::new(),
            expected_counter: None,
            spike: SpikeFilterState::init(),
        }
    }

    /// Feed bytes to the accumulator. Every complete word of the pending
    /// and new bytes together is decoded by [`spec_feed`]: its samples are
    /// pushed onto `out` in order, and the total of missed samples is
    /// returned; the leftover bytes stay pending.
    #[verifier::rlimit(100)]
    pub fn feed_into(
        &mut self,
        bytes: &[u8],
        out: &mut VecDeque<RawMeasurement>,
    ) -> (missed: usize)
        requires
            old(self).wf(),
            old(self).pending().len() + bytes@.len() <= usize::MAX / 16,
        ensures
            ({
                let all = old(self).pending() + bytes@;
                let fr = spec_feed(old(self).expected(), old(self).spike_state(), spec_words(all));
                &&& final(self).pending() == all.skip(4 * (spec_words(all).len() as int))
                &&& final(self).expected() == fr.expected
                &&& final(self).spike_state() == fr.spike
                &&& missed == fr.missed
                &&& final(out)@.len() == old(out)@.len() + fr.samples.len()
                &&& (forall|k: int| 0 <= k < old(out)@.len() ==> final(out)@[k] == old(out)@[k])
                &&& (forall|k: int|
                    0 <= k < fr.samples.len() ==> raw_matches(
                        #[trigger] final(out)@[old(out)@.len() + k],
                        fr.samples[k],
                    ))
                &&& final(self).wf()
            }),
    {
        let ghost all = old(self).pending() + bytes@;
        let ghost words = spec_words(all);
        let ghost exp0 = old(self).expected();
        let ghost sp0 = old(self).spike_state();
        let ghost out0 = out@;
        self.buf.extend_from_slice(bytes);
        proof {
            assert(self.buf@ == all);
            assert(words.len() == all.len() / 4);
        }
        let total = self.buf.len();
        let n_words = total / 4;
        let mut missed: usize = 0;
        let mut w_i: usize = 0;
        while w_i < n_words
            invariant
                0 <= w_i <= n_words,
                self.buf@ == all,
                all.len() <= usize::MAX / 16,
                n_words == words.len(),
                total == all.len(),
                n_words == total / 4,
                words == spec_words(all),
                match self.expected_counter {
                    Some(e) => e < 64,
                    None => true,
                },
                self.spike.wf(),
                ({
                    let fr = spec_feed(exp0, sp0, words.take(w_i as int));
                    &&& self.expected_counter == fr.expected
                    &&& self.spike == fr.spike
                    &&& missed == fr.missed
                    &&& missed <= 63 * w_i
                    &&& out@.len() == out0.len() + fr.samples.len()
                    &&& (forall|k: int| 0 <= k < out0.len() ==> out@[k] == out0[k])
                    &&& (forall|k: int|
                        0 <= k < fr.samples.len() ==> raw_matches(
                            #[trigger] out@[out0.len() + k],
                            fr.samples[k],
                        ))
                }),
            decreases n_words - w_i,
        {
            let ghost fr_prev = spec_feed(exp0, sp0, words.take(w_i as int));
            let base = 4 * w_i;
            let b0 = self.buf[base];
            let b1 = self.buf[base + 1];
            let b2 = self.buf[base + 2];
            let b3 = self.buf[base + 3];
            let w: u32 = b0 as u32 + (b1 as u32) * 0x100 + (b2 as u32) * 0x10000 + (b3 as u32)
                * 0x1000000;
            proof {
                assert(words[w_i as int] == spec_le_word(
                    all[4 * w_i],
                    all[4 * w_i + 1],
                    all[4 * w_i + 2],
                    all[4 * w_i + 3],
                ));
                assert(w == words[w_i as int]);
            }
            let counter = get_counter(w);
            let prev_expected = self.expected_counter;
            self.expected_counter = Some(
                if counter == 63 {
                    0
                } else {
                    counter + 1
                },
            );
            let gap = match prev_expected {
                Some(prev) => prev != counter,
                None => false,
            };
            if gap {
                let prev = match prev_expected {
                    Some(prev) => prev,
                    None => 0,
                };
                let amount: usize = if counter >= prev {
                    (counter - prev) as usize
                } else {
                    (counter as usize + 64) - prev as usize
                };
                proof {
                    assert(amount <= 63);
                    assert(missed + amount <= 63 * (w_i + 1));
                    assert(63 * (w_i + 1) <= 63 * n_words);
                    assert(4 * n_words <= total);
                    assert(63 * n_words <= 16 * total);
                    assert(16 * total <= usize::MAX);
                }
                missed = missed + amount;
            } else {
                let range = get_range_clamped(w);
                let outcome = self.spike.step(range);
                let pins = LogicPortPins::from_mask(get_logic(w));
                let ghost out_prev = out@;
                let sample = RawMeasurement {
                    adc_value: get_adc(w) * 4,
                    range,
                    counter,
                    pins,
                    spike: outcome,
                };
                out.push_back(sample);
                proof {
                    let fr_next = spec_feed_step(fr_prev, words[w_i as int]);
                    assert(raw_matches(sample, sample_of_word(words[w_i as int], outcome)));
                    assert forall|k: int|
                        0 <= k < fr_next.samples.len() implies raw_matches(
                        #[trigger] out@[out0.len() + k],
                        fr_next.samples[k],
                    ) by {
                        if k < fr_prev.samples.len() {
                            assert(out@[out0.len() + k] == out_prev[out0.len() + k]);
                        } else {
                            assert(out@[out0.len() + k] == sample);
                            assert(fr_next.samples[k] == sample_of_word(
                                words[w_i as int],
                                outcome,
                            ));
                        }
                    }
                }
            }
            proof {
                assert(words.take(w_i + 1).drop_last() =~= words.take(w_i as int));
                assert(words.take(w_i + 1).last() == words[w_i as int]);
                assert(spec_feed(exp0, sp0, words.take(w_i + 1)) == spec_feed_step(
                    fr_prev,
                    words[w_i as int],
                ));
            }
            w_i = w_i + 1;
        }
        // Keep the bytes that do not yet make a whole word.
        let consumed = 4 * n_words;
        let mut tail: Vec<u8> = Vec::new();
        let mut t = consumed;
        proof {
            assert(tail@ =~= all.subrange(consumed as int, consumed as int));
        }
        while t < total
            invariant
                consumed <= t <= total,
                total == self.buf@.len(),
                self.buf@ == all,
                consumed <= total,
                tail@ == all.subrange(consumed as int, t as int),
            decreases total - t,
        {
            tail.push(self.buf[t]);
            proof {
                assert(all.subrange(consumed as int, t + 1) =~= all.subrange(
                    consumed as int,
                    t as int,
                ).push(all[t as int]));
            }
            t = t + 1;
        }
        self.buf = tail;
        proof {
            assert(words.take(n_words as int) =~= words);
            assert(self.buf@ =~= all.skip(4 * (spec_words(all).len() as int)));
            assert(total - consumed < 4);
        }
        missed
    }
}

} // verus!
