//! What can go wrong while pulse pairs are turned into bits.

use vstd::prelude::*;

verus! {

/// A failure to turn pulse durations into a value.
#[derive(Debug, PartialEq, Eq)]
pub enum TimingsError {
    /// The mark of a pulse pair is not one time unit long; holds the duration.
    AbnormalLedOnBitValue(u32),
    /// The gap of a pulse pair is neither one nor three time units long;
    /// holds the duration.
    AbnormalLedOffBitValue(u32),
    /// The number of durations is not twice the number of bits; holds the
    /// expected and the actual number.
    WrongTimingsNumber(usize, usize),
}

} // verus!
