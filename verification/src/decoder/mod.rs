//! The decode pipeline and its parts.

pub mod checksum;
pub mod error;
pub mod hex;
pub mod line;
pub mod timings;

pub use error::DecoderError;

use checksum::checksum_of;
use hex::{hex, to_hex};
use line::{
    durations, lemma_durations, parse_timings, spells_number, split, token_duration, tokens,
};
use timings::laws::{lemma_first_failure, lemma_value_fits, pair_bit};
use timings::{
    decode_value, is_timing_valid, lemma_window, timing_valid, value_of, TimingsError,
};
use vstd::arithmetic::power2::lemma2_to64;
use vstd::prelude::*;

verus! {

/// The number of durations in a transmission: two for the preamble, two for
/// each of the sixteen data bits and the four checksum bits, one for the
/// epilogue.
pub const EXPECTED_TIMINGS_NUMBER: usize = 43;

/// The durations of the sixteen data bits.
pub open spec fn data_region(timings: Seq<u32>) -> Seq<u32> {
    timings.subrange(2, 34)
}

/// The durations of the four checksum bits.
pub open spec fn checksum_region(timings: Seq<u32>) -> Seq<u32> {
    timings.subrange(34, 42)
}

/// What a captured run of durations decodes to. The checks come in this
/// order, and the first that fails decides: the number of durations, the
/// preamble, the epilogue, the pulse pairs of the checksum, the pulse pairs
/// of the data, the checksum itself.
pub open spec fn decoded(timings: Seq<u32>) -> Result<u16, DecoderError> {
    if timings.len() != 43 {
        Err(DecoderError::WrongTimingsNumber(43, timings.len() as usize))
    } else if !timing_valid(timings[0], 18) || !timing_valid(timings[1], 8) {
        Err(DecoderError::WrongPreamble)
    } else if !timing_valid(timings[42], 1) {
        Err(DecoderError::WrongEpilogue)
    } else {
        match value_of(checksum_region(timings), 4) {
            Err(e) => Err(DecoderError::TimingsError(e)),
            Ok(expected) => match value_of(data_region(timings), 16) {
                Err(e) => Err(DecoderError::TimingsError(e)),
                Ok(data) => {
                    let actual = checksum_of(data as u16);
                    if actual != expected {
                        Err(DecoderError::ChecksumMismatch(expected as u8, actual as u8))
                    } else {
                        Ok(data as u16)
                    }
                },
            },
        }
    }
}

/// A run of any other number of durations than 43 fails on that number,
/// whatever the durations are.
pub proof fn lemma_wrong_number(timings: Seq<u32>)
    requires
        timings.len() != 43,
    ensures
        decoded(timings) == Err::<u16, DecoderError>(
            DecoderError::WrongTimingsNumber(43, timings.len() as usize),
        ),
{
}

/// Where a run of durations decodes to a command, the run has the shape of a
/// transmission, its data bits spell the command, and its checksum bits
/// spell the checksum of the command.
pub proof fn lemma_decoded_command(timings: Seq<u32>)
    requires
        decoded(timings) is Ok,
    ensures
        timings.len() == 43,
        timing_valid(timings[0], 18),
        timing_valid(timings[1], 8),
        timing_valid(timings[42], 1),
        value_of(data_region(timings), 16) == Ok::<nat, TimingsError>(
            decoded(timings).unwrap() as nat,
        ),
        value_of(checksum_region(timings), 4) == Ok::<nat, TimingsError>(
            checksum_of(decoded(timings).unwrap()),
        ),
{
    lemma_value_fits(data_region(timings));
    lemma2_to64();
}

/// The largest duration fits no window of a transmission: a run that holds
/// it fails on the preamble, on the epilogue or on a pulse pair, as its place
/// and the other durations decide. In the preamble it fails on the preamble.
pub proof fn lemma_largest_duration_fails(timings: Seq<u32>, place: int)
    requires
        timings.len() == 43,
        0 <= place < 43,
        timings[place] == u32::MAX,
    ensures
        !timing_valid(u32::MAX, 1) && !timing_valid(u32::MAX, 3) && !timing_valid(u32::MAX, 8)
            && !timing_valid(u32::MAX, 18),
        decoded(timings) is Err,
        decoded(timings)->Err_0 is WrongPreamble || decoded(timings)->Err_0 is WrongEpilogue
            || decoded(timings)->Err_0 is TimingsError,
        place < 2 ==> decoded(timings)->Err_0 is WrongPreamble,
{
    lemma_window(1);
    lemma_window(3);
    lemma_window(8);
    lemma_window(18);
    if 2 <= place < 34 {
        let region = data_region(timings);
        let pair = (place - 2) / 2;
        lemma_first_failure(region);
        assert(pair_bit(region, pair) is Err);
    } else if 34 <= place < 42 {
        let region = checksum_region(timings);
        let pair = (place - 34) / 2;
        lemma_first_failure(region);
        assert(pair_bit(region, pair) is Err);
    }
}

/// Decodes the sixteen-bit command from the durations of one transmission.
pub fn decode_timings(timings: &[u32]) -> (outcome: Result<u16, DecoderError>)
    ensures
        outcome == decoded(timings@),
{
    let timings_number = timings.len();
    if timings_number != EXPECTED_TIMINGS_NUMBER {
        return Err(DecoderError::WrongTimingsNumber(EXPECTED_TIMINGS_NUMBER, timings_number));
    }
    if !is_timing_valid(timings[0], 18) || !is_timing_valid(timings[1], 8) {
        return Err(DecoderError::WrongPreamble);
    }
    if !is_timing_valid(timings[42], 1) {
        return Err(DecoderError::WrongEpilogue);
    }
    let expected_checksum: u8 = match decode_value::<u8>(&timings[34..42], 4) {
        Ok(value) => value,
        Err(e) => {
            return Err(DecoderError::from(e));
        },
    };
    let data: u16 = match decode_value::<u16>(&timings[2..34], 16) {
        Ok(value) => value,
        Err(e) => {
            return Err(DecoderError::from(e));
        },
    };
    let actual_checksum = checksum::calculate(data);
    if actual_checksum != expected_checksum {
        return Err(DecoderError::ChecksumMismatch(expected_checksum, actual_checksum));
    }
    Ok(data)
}

/// What a captured line decodes to: the four hexadecimal digits of its
/// command, or the first failure. A line that holds no token, be it empty
/// or of white space alone, fails as empty; then every token must spell a
/// number; then the durations are decoded.
pub open spec fn rendered(line: Seq<char>) -> Result<Seq<char>, DecoderError> {
    if tokens(line).len() == 0 {
        Err(DecoderError::EmptySequence)
    } else {
        match durations(tokens(line)) {
            Err(e) => Err(e),
            Ok(timings) => match decoded(timings) {
                Err(e) => Err(e),
                Ok(data) => Ok(hex(data)),
            },
        }
    }
}

/// A line whose tokens all spell numbers, of whatever size, and are neither
/// none nor 43 in number, fails on that number, whatever the numbers are.
pub proof fn lemma_wrong_token_number(line: Seq<char>)
    requires
        tokens(line).len() != 0,
        tokens(line).len() != 43,
        forall|i: int| 0 <= i < tokens(line).len() ==> spells_number(#[trigger] tokens(line)[i]),
    ensures
        rendered(line) == Err::<Seq<char>, DecoderError>(
            DecoderError::WrongTimingsNumber(43, tokens(line).len() as usize),
        ),
{
    let all = tokens(line);
    lemma_durations(all);
    if durations(all) is Err {
        let i = choose|i: int| 0 <= i < all.len() && #[trigger] token_duration(all, i) is None;
        assert(spells_number(all[i]));
    }
}

/// Decodes one captured line of durations, separated by white space, into
/// the four hexadecimal digits of the command it carries.
pub fn decode(sequence: &str) -> (outcome: Result<String, DecoderError>)
    ensures
        match outcome {
            Ok(text) => rendered(sequence@) == Ok::<Seq<char>, DecoderError>(text@),
            Err(e) => rendered(sequence@) == Err::<Seq<char>, DecoderError>(e),
        },
{
    let parts = split(sequence);
    if parts.len() == 0 {
        return Err(DecoderError::EmptySequence);
    }
    let timings = match parse_timings(&parts) {
        Ok(timings) => timings,
        Err(e) => {
            return Err(e);
        },
    };
    match decode_timings(timings.as_slice()) {
        Ok(data) => Ok(to_hex(data)),
        Err(e) => Err(e),
    }
}

} // verus!
