//! What can go wrong while a transmission is decoded.

use super::timings::TimingsError;
use std::num::ParseIntError;
use vstd::prelude::*;
use vstd::std_specs::convert::FromSpecImpl;

verus! {

/// The error that the standard library's integer parser returns,
/// `std::num::ParseIntError`. Nothing here looks inside it: it is handed on
/// as it came.
#[verifier::external_type_specification]
#[verifier::external_body]
pub struct ExParseIntError(ParseIntError);

/// A failure to decode a transmission.
#[derive(Debug, PartialEq, Eq)]
pub enum DecoderError {
    /// The checksum sent with the data is not the checksum of the data;
    /// holds the one that was sent and the one that was computed.
    ChecksumMismatch(u8, u8),
    /// The line holds no token: it is empty or of white space alone.
    EmptySequence,
    /// A token of the line does not spell a number; holds the error that
    /// the standard library's parser gave for it.
    ParseIntError(ParseIntError),
    /// A pulse pair of the data or of the checksum carries no bit. Where
    /// the line spelled a number beyond 32 bits there, the failure holds the
    /// largest 32-bit duration in its place.
    TimingsError(TimingsError),
    /// The trailing pulse is not one time unit long.
    WrongEpilogue,
    /// The two leading pulses are not eighteen and eight time units long.
    WrongPreamble,
    /// The line does not hold as many durations as a transmission has;
    /// holds the expected and the actual number.
    WrongTimingsNumber(usize, usize),
}

impl From<TimingsError> for DecoderError {
    fn from(error: TimingsError) -> (wrapped: DecoderError) {
        DecoderError::TimingsError(error)
    }
}

impl FromSpecImpl<TimingsError> for DecoderError {
    open spec fn obeys_from_spec() -> bool {
        true
    }

    open spec fn from_spec(error: TimingsError) -> DecoderError {
        DecoderError::TimingsError(error)
    }
}

impl From<ParseIntError> for DecoderError {
    fn from(error: ParseIntError) -> (wrapped: DecoderError) {
        DecoderError::ParseIntError(error)
    }
}

impl FromSpecImpl<ParseIntError> for DecoderError {
    open spec fn obeys_from_spec() -> bool {
        true
    }

    open spec fn from_spec(error: ParseIntError) -> DecoderError {
        DecoderError::ParseIntError(error)
    }
}

} // verus!
