//! Decoder for a single infrared remote-control transmission.
//!
//! A transmission is captured as a line of pulse durations in microseconds.
//! The decoder checks its shape and timing tolerances, rebuilds the sixteen
//! data bits and the four checksum bits, and yields the command as four
//! lowercase hexadecimal digits.

pub mod decoder;
