//! Tolerance-based classification of pulse durations.

pub mod error;
pub mod laws;
pub mod unsigned;

pub use error::TimingsError;
pub use unsigned::Unsigned;

use unsigned::lemma_pow2_128;
use vstd::arithmetic::power2::{
    lemma2_to64, lemma_pow2_pos, lemma_pow2_strictly_increases, lemma_pow2_unfold, pow2,
};
use vstd::math::abs;
use vstd::prelude::*;

verus! {

/// The protocol's base time unit, in microseconds.
pub const TIME_UNIT: u32 = 480;

/// The tolerance around an expected duration, in percent of that duration.
pub const TOLERANCE_PERCENT: u32 = 25;

/// The exact duration expected for `multiplier` time units.
pub open spec fn etalon(multiplier: u32) -> int {
    TIME_UNIT * multiplier
}

/// The deviation from the etalon that is still accepted, on either side.
pub open spec fn tolerance(multiplier: u32) -> int {
    etalon(multiplier) * TOLERANCE_PERCENT / 100
}

/// Whether `timing` counts as `multiplier` time units: the multiplier is not
/// zero and the duration lies in the closed window around the etalon.
pub open spec fn timing_valid(timing: u32, multiplier: u32) -> bool {
    &&& multiplier != 0
    &&& etalon(multiplier) - tolerance(multiplier) <= timing
    &&& timing <= etalon(multiplier) + tolerance(multiplier)
}

/// The etalon is 480 times the multiplier and the tolerance is a quarter of
/// the etalon, with no rounding.
pub proof fn lemma_window(multiplier: u32)
    ensures
        etalon(multiplier) == 480 * multiplier,
        etalon(multiplier) * TOLERANCE_PERCENT == 12000 * multiplier,
        tolerance(multiplier) == 120 * multiplier,
{
    assert(TIME_UNIT * multiplier == 480 * multiplier) by (nonlinear_arith)
        requires
            TIME_UNIT == 480,
    ;
    assert(etalon(multiplier) * TOLERANCE_PERCENT == 12000 * multiplier) by (nonlinear_arith)
        requires
            etalon(multiplier) == 480 * multiplier,
            TOLERANCE_PERCENT == 25,
    ;
}

/// A duration counts as `multiplier` time units exactly when the multiplier
/// is at least one and the duration is no further from 480 times the
/// multiplier than a quarter of that product: from 360 to 600 times the
/// multiplier, both ends included. With a multiplier of zero no duration
/// counts.
pub proof fn lemma_valid_within_quarter(timing: u32, multiplier: u32)
    ensures
        timing_valid(timing, multiplier) <==> multiplier >= 1 && 4 * abs(timing - 480 * multiplier)
            <= 480 * multiplier,
        timing_valid(timing, multiplier) <==> multiplier >= 1 && 360 * multiplier <= timing
            <= 600 * multiplier,
        !timing_valid(timing, 0),
{
    lemma_window(multiplier);
}

/// Decides whether a measured duration matches `multiplier` time units
/// within the protocol's tolerance.
pub fn is_timing_valid(timing: u32, multiplier: u32) -> (valid: bool)
    ensures
        valid == timing_valid(timing, multiplier),
{
    if multiplier == 0 {
        return false;
    }
    proof {
        lemma_window(multiplier);
    }
    let etalon: u64 = TIME_UNIT as u64 * multiplier as u64;
    let precision: u64 = etalon * TOLERANCE_PERCENT as u64 / 100;
    let min: u64 = etalon - precision;
    let max: u64 = etalon + precision;
    min <= timing as u64 && timing as u64 <= max
}

/// The bit that a pulse pair carries. The mark must be one time unit long.
/// A gap of one time unit is a 0, a gap of three time units is a 1.
pub open spec fn bit_of(on: u32, off: u32) -> Result<nat, TimingsError> {
    if !timing_valid(on, 1) {
        Err(TimingsError::AbnormalLedOnBitValue(on))
    } else if timing_valid(off, 1) {
        Ok(0)
    } else if timing_valid(off, 3) {
        Ok(1)
    } else {
        Err(TimingsError::AbnormalLedOffBitValue(off))
    }
}

/// A pulse pair carries a 0 exactly when its mark is one time unit long and
/// its gap is one time unit long, and a 1 exactly when its mark is one time
/// unit long and its gap is three. A pair whose mark is not one time unit
/// long fails on the mark, whatever the gap. Every other pair fails on the
/// gap.
pub proof fn lemma_bit_cases(on: u32, off: u32)
    ensures
        bit_of(on, off) == Ok::<nat, TimingsError>(0) <==> timing_valid(on, 1) && timing_valid(
            off,
            1,
        ),
        bit_of(on, off) == Ok::<nat, TimingsError>(1) <==> timing_valid(on, 1) && timing_valid(
            off,
            3,
        ),
        bit_of(on, off) == Err::<nat, TimingsError>(TimingsError::AbnormalLedOnBitValue(on))
            <==> !timing_valid(on, 1),
        bit_of(on, off) == Err::<nat, TimingsError>(TimingsError::AbnormalLedOffBitValue(off))
            <==> timing_valid(on, 1) && !timing_valid(off, 1) && !timing_valid(off, 3),
        !(timing_valid(off, 1) && timing_valid(off, 3)),
{
    lemma_window(1);
    lemma_window(3);
}

/// The value that a run of pulse pairs carries, the first pair being the most
/// significant bit, or the failure of the first pair that carries no bit.
/// The pairs are counted from the end: in a run of odd length the first
/// duration belongs to no pair and is not looked at.
pub open spec fn pairs_value(timings: Seq<u32>) -> Result<nat, TimingsError>
    decreases timings.len(),
{
    if timings.len() < 2 {
        Ok(0)
    } else {
        let last = timings.len() - 2;
        match pairs_value(timings.take(last)) {
            Err(e) => Err(e),
            Ok(high) => match bit_of(timings[last], timings[last + 1]) {
                Err(e) => Err(e),
                Ok(bit) => Ok(2 * high + bit),
            },
        }
    }
}

/// What decoding `bits` bits from `timings` gives: the durations must be
/// exactly two for each bit, and then every pair must carry a bit.
pub open spec fn value_of(timings: Seq<u32>, bits: nat) -> Result<nat, TimingsError> {
    if timings.len() != 2 * bits {
        Err(TimingsError::WrongTimingsNumber((2 * bits) as usize, timings.len() as usize))
    } else {
        pairs_value(timings)
    }
}

/// Whether `outcome`, delivered in the type `T`, is what `expected` says.
pub open spec fn delivers<T: Unsigned>(
    outcome: Result<T, TimingsError>,
    expected: Result<nat, TimingsError>,
) -> bool {
    match outcome {
        Ok(word) => expected == Ok::<nat, TimingsError>(word.to_nat()),
        Err(e) => expected == Err::<nat, TimingsError>(e),
    }
}

/// Decodes a multi-bit value, most significant bit first, from the durations
/// of its pulse pairs.
pub fn decode_value<T: Unsigned>(timings: &[u32], bits: usize) -> (outcome: Result<T, TimingsError>)
    requires
        bits * 2 <= usize::MAX,
        timings.len() == bits * 2 ==> bits <= T::width(),
    ensures
        delivers(outcome, value_of(timings@, bits as nat)),
{
    let expected_timings_number = bits * 2;
    let actual_timings_number = timings.len();
    if expected_timings_number != actual_timings_number {
        return Err(
            TimingsError::WrongTimingsNumber(expected_timings_number, actual_timings_number),
        );
    }
    proof {
        T::lemma_width();
        lemma2_to64();
    }
    let mut value: u128 = 0;
    let mut index: usize = 0;
    while index < bits
        invariant
            index <= bits <= T::width() <= 128,
            timings.len() == bits * 2,
            pairs_value(timings@.take(2 * index)) == Ok::<nat, TimingsError>(value as nat),
            value < pow2(index as nat),
        decreases bits - index,
    {
        let pos = index * 2;
        let on = timings[pos];
        let off = timings[pos + 1];
        proof {
            let next = timings@.take(2 * (index + 1));
            assert(next.take(next.len() - 2) =~= timings@.take(2 * index));
            lemma_pow2_unfold(index as nat + 1);
            lemma_pow2_128();
            if index + 1 < 128 {
                lemma_pow2_strictly_increases(index as nat + 1, 128);
            }
        }
        let bit: u8 = match decode_bit::<u8>(on, off) {
            Ok(bit) => bit,
            Err(e) => {
                proof {
                    lemma_failure_stays(timings@, 2 * (index + 1));
                }
                return Err(e);
            },
        };
        value = 2 * value + bit as u128;
        index += 1;
    }
    proof {
        assert(timings@.take(2 * bits) =~= timings@);
        if bits < T::width() {
            lemma_pow2_strictly_increases(bits as nat, T::width());
        }
    }
    Ok(T::from_u128(value))
}

/// A failure among the first `len` durations is the failure of the whole run.
pub proof fn lemma_failure_stays(timings: Seq<u32>, len: int)
    requires
        0 <= len <= timings.len(),
        len % 2 == 0,
        timings.len() % 2 == 0,
        pairs_value(timings.take(len)) is Err,
    ensures
        pairs_value(timings) == pairs_value(timings.take(len)),
    decreases timings.len(),
{
    if len < timings.len() {
        let shorter = timings.take(timings.len() - 2);
        assert(shorter.take(len) =~= timings.take(len));
        lemma_failure_stays(shorter, len);
    } else {
        assert(timings.take(len) =~= timings);
    }
}

/// Decodes one pulse pair into a bit.
pub fn decode_bit<T: Unsigned>(on: u32, off: u32) -> (outcome: Result<T, TimingsError>)
    ensures
        delivers(outcome, bit_of(on, off)),
{
    proof {
        T::lemma_width();
        lemma_pow2_pos(T::width());
        if 1 < T::width() {
            lemma_pow2_strictly_increases(1, T::width());
        }
        lemma2_to64();
    }
    if !is_timing_valid(on, 1) {
        return Err(TimingsError::AbnormalLedOnBitValue(on));
    }
    if is_timing_valid(off, 1) {
        Ok(T::from_u128(0))
    } else if is_timing_valid(off, 3) {
        Ok(T::from_u128(1))
    } else {
        Err(TimingsError::AbnormalLedOffBitValue(off))
    }
}

} // verus!
