//! The chunk reducer's verified pieces: how many raw samples make one
//! output sample, the pin-pattern filter, the per-pin majority vote, and
//! the denominator that compensates the average for missed samples.
//!
//! The caller sums the calibrated currents of a window's samples itself and
//! divides by [`chunk_denominator`]; which samples enter the window and
//! which pin state the reduced sample carries are decided here.

use vstd::prelude::*;

use crate::types::{Level, LogicPortPins};
use crate::SPS_MAX;

verus! {

broadcast use crate::types::lemma_logic_port_pins_view_len;

/// A measured port state matches a pattern when every pin's level matches
/// the pattern's level for that pin; `Either` in the pattern matches
/// anything.
pub open spec fn spec_pins_match(pins: Seq<Level>, pattern: Seq<Level>) -> bool {
    forall|i: int| 0 <= i < 8 ==> (#[trigger] pins[i]).spec_matches(pattern[i])
}

/// Whether a measured port state matches a pattern.
pub fn pins_match(pins: &LogicPortPins, pattern: &LogicPortPins) -> (r: bool)
    ensures
        r == spec_pins_match(pins@, pattern@),
{
    let a = pins.inner();
    let b = pattern.inner();
    let mut i: usize = 0;
    while i < 8
        invariant
            0 <= i <= 8,
            a@ == pins@,
            b@ == pattern@,
            forall|k: int| 0 <= k < i ==> (#[trigger] pins@[k]).spec_matches(pattern@[k]),
        decreases 8 - i,
    {
        if !a[i].matches(b[i]) {
            return false;
        }
        i = i + 1;
    }
    true
}

/// Law: a wildcard pattern — every pin `Either` — matches every port state.
pub proof fn lemma_wildcard_matches(pins: Seq<Level>, pattern: Seq<Level>)
    requires
        forall|i: int| 0 <= i < 8 ==> #[trigger] pattern[i] == Level::Either,
    ensures
        spec_pins_match(pins, pattern),
{
}

/// Law: a pattern that holds a pin low excludes every port state whose pin
/// is high.
pub proof fn lemma_pattern_excludes(pins: Seq<Level>, pattern: Seq<Level>, i: int)
    requires
        0 <= i < 8,
        pattern[i] == Level::Low,
        pins[i] == Level::High,
    ensures
        !spec_pins_match(pins, pattern),
{
    assert(!pins[i].spec_matches(pattern[i]));
}

/// How many port states in `s` have pin `i` high.
pub open spec fn count_high(s: Seq<LogicPortPins>, i: int) -> int
    decreases s.len(),
{
    if s.len() == 0 {
        0
    } else {
        count_high(s.drop_last(), i) + if s.last()@[i] == Level::High {
            1int
        } else {
            0int
        }
    }
}

/// The majority vote over a window's port states: pin `i` of the result is
/// high exactly when strictly more than half of the states have it high,
/// and low otherwise.
pub fn majority_pins(samples: &Vec<LogicPortPins>) -> (r: LogicPortPins)
    ensures
        forall|i: int|
            0 <= i < 8 ==> r@[i] == (if count_high(samples@, i) > samples@.len() / 2 {
                Level::High
            } else {
                Level::Low
            }),
{
    let n = samples.len();
    let mut counts: Vec<usize> = Vec::new();
    let mut i: usize = 0;
    while i < 8
        invariant
            0 <= i <= 8,
            counts@.len() == i,
            forall|q: int| 0 <= q < i ==> counts@[q] == 0,
        decreases 8 - i,
    {
        counts.push(0);
        i = i + 1;
    }
    let mut k: usize = 0;
    proof {
        assert forall|q: int| 0 <= q < 8 implies counts@[q] == count_high(
            samples@.take(0),
            q,
        ) by {
            assert(samples@.take(0).len() == 0);
        }
    }
    while k < n
        invariant
            0 <= k <= n,
            n == samples@.len(),
            counts@.len() == 8,
            forall|q: int| 0 <= q < 8 ==> counts@[q] == count_high(samples@.take(k as int), q),
            forall|q: int| 0 <= q < 8 ==> counts@[q] <= k,
        decreases n - k,
    {
        let ghost counts_prev = counts@;
        let mut i: usize = 0;
        while i < 8
            invariant
                0 <= i <= 8,
                0 <= k < n,
                n == samples@.len(),
                counts@.len() == 8,
                forall|q: int|
                    i <= q < 8 ==> counts@[q] == count_high(samples@.take(k as int), q),
                forall|q: int|
                    0 <= q < i ==> counts@[q] == count_high(samples@.take(k as int), q) + (
                    if samples@[k as int]@[q] == Level::High {
                        1int
                    } else {
                        0int
                    }),
                forall|q: int| i <= q < 8 ==> counts@[q] <= k,
                forall|q: int| 0 <= q < i ==> counts@[q] <= k + 1,
            decreases 8 - i,
        {
            let ghost cbefore = counts@;
            let high = samples[k].pin_is_high(i);
            if high {
                let c = counts[i];
                counts[i] = c + 1;
            }
            proof {
                assert forall|q: int|
                    0 <= q < i + 1 implies counts@[q] == count_high(samples@.take(k as int), q)
                    + (if samples@[k as int]@[q] == Level::High {
                    1int
                } else {
                    0int
                }) by {
                    if q == i {
                        if high {
                            assert(counts@[q] == cbefore[q] + 1);
                        } else {
                            assert(counts@[q] == cbefore[q]);
                        }
                    } else {
                        assert(counts@[q] == cbefore[q]);
                    }
                }
            }
            i = i + 1;
        }
        proof {
            assert forall|q: int| 0 <= q < 8 implies counts@[q] == count_high(
                samples@.take(k + 1),
                q,
            ) by {
                assert(samples@.take(k + 1).drop_last() =~= samples@.take(k as int));
                assert(samples@.take(k + 1).last() == samples@[k as int]);
            }
        }
        k = k + 1;
    }
    proof {
        assert(samples@.take(n as int) =~= samples@);
    }
    let half = n / 2;
    let mut levels = LogicPortPins::with_levels([Level::Low;8]);
    let mut i: usize = 0;
    while i < 8
        invariant
            0 <= i <= 8,
            n == samples@.len(),
            counts@.len() == 8,
            half == n / 2,
            forall|q: int| 0 <= q < 8 ==> counts@[q] == count_high(samples@, q),
            forall|q: int|
                0 <= q < i ==> levels@[q] == (if count_high(samples@, q) > samples@.len() / 2 {
                    Level::High
                } else {
                    Level::Low
                }),
            forall|q: int| i <= q < 8 ==> levels@[q] == Level::Low,
        decreases 8 - i,
    {
        if counts[i] > half {
            levels = levels.set_level(i, Level::High);
        } else {
            levels = levels.set_level(i, Level::Low);
        }
        i = i + 1;
    }
    levels
}

/// The number of raw samples reduced into one output sample: the
/// instrument's sample rate divided by the caller's target rate.
pub fn window_size(sps: usize) -> (r: usize)
    requires
        1 <= sps <= SPS_MAX,
    ensures
        r == SPS_MAX / sps,
        r >= 1,
{
    proof {
        assert(SPS_MAX / sps >= 1) by (nonlinear_arith)
            requires
                1 <= sps <= SPS_MAX,
        ;
    }
    SPS_MAX / sps
}

/// Whether a window's worth of samples has gathered at the caller's target
/// rate.
pub fn window_reached(len: usize, sps: usize) -> (r: bool)
    requires
        1 <= sps <= SPS_MAX,
    ensures
        r == (len >= SPS_MAX / sps),
{
    len >= window_size(sps)
}

/// The denominator of a chunk's average: the window's sample count less
/// the missed count, so the average stays a per-sample quantity, and never
/// below one.
pub fn chunk_denominator(count: usize, missed: usize) -> (r: usize)
    ensures
        r == (if count > missed {
            (count - missed) as int
        } else {
            1int
        }),
        r >= 1,
{
    if count > missed {
        count - missed
    } else {
        1
    }
}

} // verus!
