//! What holds of the value that a run of pulse pairs carries.

use super::error::TimingsError;
use super::{bit_of, lemma_window, pairs_value, value_of, TIME_UNIT};
use vstd::arithmetic::div_mod::lemma_div_denominator;
use vstd::arithmetic::power2::{lemma2_to64, lemma_pow2_pos, lemma_pow2_unfold, pow2};
use vstd::prelude::*;

verus! {

/// The bit that the pulse pair at `index` carries, the first pair being
/// pair 0.
pub open spec fn pair_bit(timings: Seq<u32>, index: int) -> Result<nat, TimingsError> {
    bit_of(timings[2 * index], timings[2 * index + 1])
}

/// A run of pulse pairs carries a value exactly when each of its pairs
/// carries a bit. Where one does not, the run fails as the first such pair
/// does.
pub proof fn lemma_first_failure(timings: Seq<u32>)
    requires
        timings.len() % 2 == 0,
    ensures
        match pairs_value(timings) {
            Ok(_) => forall|i: int| 0 <= i < timings.len() / 2 ==> pair_bit(timings, i) is Ok,
            Err(e) => exists|i: int|
                {
                    &&& 0 <= i < timings.len() / 2
                    &&& #[trigger] pair_bit(timings, i) == Err::<nat, TimingsError>(e)
                    &&& forall|j: int| 0 <= j < i ==> pair_bit(timings, j) is Ok
                },
        },
    decreases timings.len(),
{
    if timings.len() >= 2 {
        let last = timings.len() / 2 - 1;
        let shorter = timings.take(2 * last);
        lemma_first_failure(shorter);
        assert forall|i: int| 0 <= i < last implies pair_bit(shorter, i) == pair_bit(
            timings,
            i,
        ) by {}
        match pairs_value(shorter) {
            Ok(_) => {
                match pairs_value(timings) {
                    Ok(_) => {},
                    Err(e) => {
                        assert(pair_bit(timings, last) == Err::<nat, TimingsError>(e));
                    },
                }
            },
            Err(e) => {
                let i = choose|i: int|
                    {
                        &&& 0 <= i < last
                        &&& #[trigger] pair_bit(shorter, i) == Err::<nat, TimingsError>(e)
                        &&& forall|j: int| 0 <= j < i ==> pair_bit(shorter, j) is Ok
                    };
                assert forall|j: int| 0 <= j < i implies pair_bit(timings, j) is Ok by {}
            },
        }
    }
}

/// The value of a run of pulse pairs fits in as many bits as the run has
/// pairs.
pub proof fn lemma_value_fits(timings: Seq<u32>)
    requires
        timings.len() % 2 == 0,
    ensures
        pairs_value(timings) is Ok ==> pairs_value(timings).unwrap() < pow2(timings.len() / 2),
    decreases timings.len(),
{
    if timings.len() >= 2 {
        lemma_value_fits(timings.take(timings.len() - 2));
        lemma_pow2_unfold(timings.len() / 2);
    } else {
        lemma2_to64();
    }
}

/// Halving a value drops its lowest bit: with one more bit below `high`,
/// the quotient by twice `place` is the quotient of `high` by `place`.
proof fn lemma_drop_lowest_bit(high: nat, bit: nat, place: nat)
    requires
        bit <= 1,
        place > 0,
    ensures
        (2 * high + bit) / (2 * place) == high / place,
{
    let value = (2 * high + bit) as int;
    lemma_div_denominator(value, 2, place as int);
    assert(value / 2 == high);
    assert((value / 2) / (place as int) == value / (2 * (place as int)));
}

/// The first pulse pair is the most significant bit: of `bits` pairs, the
/// bit of the pair at `index` stands at position `bits - 1 - index` of the
/// value, position 0 being the least significant.
pub proof fn lemma_bit_position(timings: Seq<u32>, index: int)
    requires
        timings.len() % 2 == 0,
        0 <= index < timings.len() / 2,
        pairs_value(timings) is Ok,
    ensures
        pair_bit(timings, index) == Ok::<nat, TimingsError>(
            (pairs_value(timings).unwrap() / pow2((timings.len() / 2 - 1 - index) as nat)) % 2,
        ),
    decreases timings.len(),
{
    let last = timings.len() / 2 - 1;
    let shorter = timings.take(timings.len() - 2);
    let high = pairs_value(shorter).unwrap();
    let bit = pair_bit(timings, last).unwrap();
    let value = pairs_value(timings).unwrap();
    assert(value == 2 * high + bit);
    assert(bit <= 1);
    if index == last {
        lemma2_to64();
        assert(value / pow2(0) == value);
        assert(value % 2 == bit);
    } else {
        lemma_bit_position(shorter, index);
        assert(pair_bit(shorter, index) == pair_bit(timings, index));
        let place = pow2((last - 1 - index) as nat);
        lemma_pow2_pos((last - 1 - index) as nat);
        lemma_pow2_unfold((last - index) as nat);
        assert(pow2((last - index) as nat) == 2 * place);
        lemma_drop_lowest_bit(high, bit, place);
    }
}

/// The durations that spell the `bits` lowest bits of `value`, the most
/// significant first: each pair has a mark of one time unit, and a gap of
/// one time unit for a 0 or of three for a 1.
pub open spec fn encoded(value: nat, bits: nat) -> Seq<u32>
    decreases bits,
{
    if bits == 0 {
        Seq::empty()
    } else {
        encoded(value / 2, (bits - 1) as nat) + seq![
            TIME_UNIT,
            if value % 2 == 1 {
                (3 * TIME_UNIT) as u32
            } else {
                TIME_UNIT
            },
        ]
    }
}

/// Decoding the durations that spell a value gives the value back.
pub proof fn lemma_round_trip(value: nat, bits: nat)
    requires
        value < pow2(bits),
    ensures
        encoded(value, bits).len() == 2 * bits,
        value_of(encoded(value, bits), bits) == Ok::<nat, TimingsError>(value),
    decreases bits,
{
    if bits == 0 {
        lemma2_to64();
    } else {
        let high = encoded(value / 2, (bits - 1) as nat);
        let all = encoded(value, bits);
        lemma_pow2_unfold(bits);
        lemma_round_trip(value / 2, (bits - 1) as nat);
        assert(all.take(all.len() - 2) =~= high);
        lemma_window(1);
        lemma_window(3);
    }
}

} // verus!
