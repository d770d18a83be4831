//! The command as it is shown: four hexadecimal digits.

use super::checksum::{lemma_nibbles, nibble};
use vstd::prelude::*;

verus! {

/// `String::push` appends one character to the end of the string.
pub assume_specification[ String::push ](text: &mut String, c: char)
    ensures
        final(text)@ == old(text)@.push(c),
;

/// The character for a hexadecimal digit, in lower case.
pub open spec fn hex_digit(digit: nat) -> char {
    seq!['0', '1', '2', '3', '4', '5', '6', '7', '8', '9', 'a', 'b', 'c', 'd', 'e', 'f'][digit as int]
}

/// A sixteen-bit value as four hexadecimal digits in lower case, the most
/// significant first, with leading zeros.
pub open spec fn hex(data: u16) -> Seq<char> {
    seq![
        hex_digit(nibble(data, 3)),
        hex_digit(nibble(data, 2)),
        hex_digit(nibble(data, 1)),
        hex_digit(nibble(data, 0)),
    ]
}

/// The character for the hexadecimal digit `digit`.
fn to_hex_digit(digit: u16) -> (c: char)
    requires
        digit < 16,
    ensures
        c == hex_digit(digit as nat),
{
    if digit < 10 {
        ('0' as u8 + digit as u8) as char
    } else {
        ('a' as u8 + (digit - 10) as u8) as char
    }
}

/// Writes a sixteen-bit value as four hexadecimal digits in lower case.
pub fn to_hex(data: u16) -> (text: String)
    ensures
        text@ == hex(data),
{
    proof {
        lemma_nibbles(data);
    }
    let mut text = String::new();
    text.push(to_hex_digit(data / 4096));
    text.push(to_hex_digit(data / 256 % 16));
    text.push(to_hex_digit(data / 16 % 16));
    text.push(to_hex_digit(data % 16));
    proof {
        assert(text@ =~= hex(data));
    }
    text
}

} // verus!
