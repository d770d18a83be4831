//! The four-bit checksum of a sixteen-bit value.

use vstd::arithmetic::power2::{lemma2_to64, pow2};
use vstd::prelude::*;

verus! {

/// The four-bit group of `data` at `index`, group 0 being the least
/// significant.
pub open spec fn nibble(data: u16, index: nat) -> nat {
    (data as nat / pow2(4 * index)) % 16
}

/// The sum of the `count` least significant four-bit groups of `data`.
pub open spec fn nibble_sum(data: u16, count: nat) -> nat
    decreases count,
{
    if count == 0 {
        0
    } else {
        nibble_sum(data, (count - 1) as nat) + nibble(data, (count - 1) as nat)
    }
}

/// The checksum of `data`: the sum of its four four-bit groups, modulo 16.
pub open spec fn checksum_of(data: u16) -> nat {
    nibble_sum(data, 4) % 16
}

/// The four-bit groups of a value are its four hexadecimal digits.
pub proof fn lemma_nibbles(data: u16)
    ensures
        nibble(data, 0) == data % 16,
        nibble(data, 1) == data / 16 % 16,
        nibble(data, 2) == data / 256 % 16,
        nibble(data, 3) == data / 4096,
{
    lemma2_to64();
    assert(pow2(4 * 0) == 1 && pow2(4 * 1) == 16 && pow2(4 * 2) == 256 && pow2(4 * 3) == 4096);
}

/// The checksum is the sum of the four hexadecimal digits of the value,
/// modulo 16.
pub proof fn lemma_checksum_of_digits(data: u16)
    ensures
        checksum_of(data) == (data % 16 + data / 16 % 16 + data / 256 % 16 + data / 4096) % 16,
        checksum_of(data) < 16,
{
    lemma_nibbles(data);
    reveal_with_fuel(nibble_sum, 5);
}

/// Masking and shifting `data` takes out the four-bit group at `index`.
pub proof fn lemma_group(data: u16, index: nat)
    requires
        index < 4,
    ensures
        (data & (0x000fu16 << (4 * index) as u16)) >> (4 * index) as u16 == nibble(data, index),
{
    lemma2_to64();
    if index == 0 {
        assert((data & (0x000fu16 << 0u16)) >> 0u16 == (data / 1) % 16) by (bit_vector);
    } else if index == 1 {
        assert((data & (0x000fu16 << 4u16)) >> 4u16 == (data / 16) % 16) by (bit_vector);
    } else if index == 2 {
        assert((data & (0x000fu16 << 8u16)) >> 8u16 == (data / 256) % 16) by (bit_vector);
    } else {
        assert((data & (0x000fu16 << 12u16)) >> 12u16 == (data / 4096) % 16) by (bit_vector);
    }
}

/// Computes the four-bit checksum of `data`.
pub fn calculate(data: u16) -> (checksum: u8)
    ensures
        checksum == checksum_of(data),
{
    let mut checksum: u8 = 0;
    let mut index: usize = 0;
    while index < 4
        invariant
            index <= 4,
            checksum == nibble_sum(data, index as nat),
            checksum <= 15 * index,
        decreases 4 - index,
    {
        let shift = index * 4;
        proof {
            lemma_group(data, index as nat);
        }
        let group: u8 = ((data & (0x000f << shift)) >> shift) as u8;
        checksum = checksum.wrapping_add(group);
        index += 1;
    }
    assert(checksum & 0x0f == checksum % 16) by (bit_vector);
    checksum & 0x0f
}

} // verus!
