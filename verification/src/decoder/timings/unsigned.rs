//! The unsigned integer types that a decoded value can be delivered in.

use vstd::arithmetic::power2::{lemma2_to64, lemma2_to64_rest, lemma_pow2_adds, pow2};
use vstd::prelude::*;

verus! {

/// An unsigned integer type of a fixed number of bits.
pub trait Unsigned: Sized {
    /// The number of bits of the type.
    spec fn width() -> nat;

    /// The number that a value of the type stands for.
    spec fn to_nat(&self) -> nat;

    /// Every type has at least one bit and at most 128.
    proof fn lemma_width()
        ensures
            1 <= Self::width() <= 128,
    ;

    /// The value of the type that stands for `value`.
    fn from_u128(value: u128) -> (word: Self)
        requires
            value < pow2(Self::width()),
        ensures
            word.to_nat() == value,
    ;
}

/// Two to the power of 128 is one more than the largest `u128`.
pub proof fn lemma_pow2_128()
    ensures
        pow2(128) == u128::MAX + 1,
{
    lemma2_to64_rest();
    lemma_pow2_adds(64, 64);
    assert(pow2(64) * pow2(64) == 0x1_0000_0000_0000_0000_0000_0000_0000_0000) by (nonlinear_arith)
        requires
            pow2(64) == 0x1_0000_0000_0000_0000,
    ;
}

impl Unsigned for u8 {
    open spec fn width() -> nat {
        8
    }

    open spec fn to_nat(&self) -> nat {
        *self as nat
    }

    proof fn lemma_width() {
    }

    fn from_u128(value: u128) -> (word: u8) {
        proof {
            lemma2_to64();
        }
        value as u8
    }
}

impl Unsigned for u16 {
    open spec fn width() -> nat {
        16
    }

    open spec fn to_nat(&self) -> nat {
        *self as nat
    }

    proof fn lemma_width() {
    }

    fn from_u128(value: u128) -> (word: u16) {
        proof {
            lemma2_to64();
        }
        value as u16
    }
}

impl Unsigned for u32 {
    open spec fn width() -> nat {
        32
    }

    open spec fn to_nat(&self) -> nat {
        *self as nat
    }

    proof fn lemma_width() {
    }

    fn from_u128(value: u128) -> (word: u32) {
        proof {
            lemma2_to64();
        }
        value as u32
    }
}

impl Unsigned for u64 {
    open spec fn width() -> nat {
        64
    }

    open spec fn to_nat(&self) -> nat {
        *self as nat
    }

    proof fn lemma_width() {
    }

    fn from_u128(value: u128) -> (word: u64) {
        proof {
            lemma2_to64_rest();
        }
        value as u64
    }
}

impl Unsigned for u128 {
    open spec fn width() -> nat {
        128
    }

    open spec fn to_nat(&self) -> nat {
        *self as nat
    }

    proof fn lemma_width() {
    }

    fn from_u128(value: u128) -> (word: u128) {
        value
    }
}

} // verus!
