//! The signal result and the errors of its decoders.
//!
//! The wire format carries the confidence and the forecast as 256-bit
//! big-endian fields, so [`SignalResult`] keeps them in a [`Uint256`]: a
//! decoded value is preserved exactly, never truncated. The forecaster
//! itself only ever produces values that fit in 64 bits.

use vstd::arithmetic::div_mod::{lemma_div_multiples_vanish_fancy, lemma_mod_multiples_vanish,
    lemma_small_mod};
use vstd::arithmetic::mul::{lemma_mul_inequality, lemma_mul_is_associative,
    lemma_mul_is_commutative};
use vstd::prelude::*;

verus! {

/// An unsigned 256-bit value, kept as two 128-bit halves.
#[derive(Clone, Copy, Debug, PartialEq, Eq, Structural)]
pub struct Uint256 {
    pub hi: u128,
    pub lo: u128,
}

impl Uint256 {
    /// The numeric value: the high half weighs 2^128.
    pub open spec fn val(self) -> nat {
        self.hi as nat * 0x100000000000000000000000000000000nat + self.lo as nat
    }

    pub fn from_u64(x: u64) -> (r: Uint256)
        ensures
            r.val() == x,
    {
        Uint256 { hi: 0, lo: x as u128 }
    }

    /// Whether the value is at most `b`.
    pub fn le_u64(&self, b: u64) -> (r: bool)
        ensures
            r == (self.val() <= b),
    {
        proof {
            if self.hi >= 1 {
                lemma_mul_inequality(1, self.hi as int, 0x100000000000000000000000000000000int);
            }
        }
        self.hi == 0 && self.lo <= b as u128
    }

    /// Whether the value exceeds `b`.
    pub fn gt_u64(&self, b: u64) -> (r: bool)
        ensures
            r == (self.val() > b),
    {
        proof {
            if self.hi >= 1 {
                lemma_mul_inequality(1, self.hi as int, 0x100000000000000000000000000000000int);
            }
        }
        self.hi > 0 || self.lo > b as u128
    }

    /// The value reduced modulo 2^64: its lowest 64 bits.
    pub fn low_u64(&self) -> (r: u64)
        ensures
            r == self.val() % 0x10000000000000000nat,
    {
        proof {
            let d = 0x10000000000000000int;
            let h = self.hi as int;
            assert(h * (d * d) == d * (h * d)) by {
                lemma_mul_is_associative(h, d, d);
                lemma_mul_is_associative(d, h, d);
                lemma_mul_is_commutative(h, d);
            }
            lemma_mod_multiples_vanish(h * d, self.lo as int, d);
            lemma_mod_multiples_vanish(0x10000000000000000int * (self.lo as int / d), self.lo as
                int % d, d);
            assert(self.lo as int == d * (self.lo as int / d) + self.lo as int % d) by {
                vstd::arithmetic::div_mod::lemma_fundamental_div_mod(self.lo as int, d);
            }
            lemma_small_mod((self.lo as int % d) as nat, d as nat);
        }
        (self.lo % 0x10000000000000000) as u64
    }
}

/// Splits a numeric value below 2^256 into its two 128-bit halves.
pub open spec fn uint256_of(v: nat) -> Uint256 {
    Uint256 {
        hi: (v / 0x100000000000000000000000000000000nat) as u128,
        lo: (v % 0x100000000000000000000000000000000nat) as u128,
    }
}

/// Splitting the value of a `Uint256` gives the same halves back.
pub proof fn lemma_uint256_of_val(u: Uint256)
    ensures
        uint256_of(u.val()) == u,
{
    let d = 0x100000000000000000000000000000000int;
    lemma_div_multiples_vanish_fancy(u.hi as int, u.lo as int, d);
    lemma_mul_is_commutative(u.hi as int, d);
    lemma_mod_multiples_vanish(u.hi as int, u.lo as int, d);
    lemma_small_mod(u.lo as nat, d as nat);
}

/// A value below 2^128 splits into a zero high half and itself.
pub proof fn lemma_uint256_of_small(v: nat)
    requires
        v < 0x100000000000000000000000000000000nat,
    ensures
        uint256_of(v) == (Uint256 { hi: 0, lo: v as u128 }),
{
    vstd::arithmetic::div_mod::lemma_basic_div(v as int, 0x100000000000000000000000000000000int);
    lemma_small_mod(v, 0x100000000000000000000000000000000nat);
}

/// The canonical outcome of one forecaster run.
///
/// `decision` is 1 for buy and 0 for sell or hold; `confidence` is an
/// integer percentage, clamped to 0..=100 by the forecaster; and
/// `forecast_value` is the forecast rescaled into the unit of the
/// observed amount.
#[derive(Clone, Copy, Debug, PartialEq, Eq, Structural)]
pub struct SignalResult {
    pub decision: u8,
    pub confidence: Uint256,
    pub forecast_value: Uint256,
}

/// Why a decoder rejected its input.
#[derive(Clone, Copy, Debug, PartialEq, Eq, Structural)]
pub enum DecodeError {
    /// The strict decoder was given other than exactly 96 bytes.
    WrongLength,
    /// The first field of a strict decode holds neither 0 nor 1.
    DecisionOutOfRange,
    /// The tolerant decoder was given fewer than 96 bytes.
    TooShort,
    /// No 32-byte-aligned window of the blob decodes to a plausible result.
    NoValidTuple,
}

} // verus!
