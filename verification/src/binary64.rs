//! Double-precision numbers, used for running sums over single-precision samples.
use crate::binary32;
use crate::binary32::Binary32;
use crate::ieee;
use crate::ieee::Signed;
use crate::rounding;
use vstd::arithmetic::power2::*;
use vstd::prelude::*;

verus! {

/// The hidden bit of the significand.
pub const HIDDEN_BIT: u64 = 0x10_0000_0000_0000;

/// The magnitude field of infinity.
pub const INFINITE_FIELD: u64 = 0x7ff0_0000_0000_0000;

/// The unit in which values are counted is `2^-UNIT`.
pub const UNIT: u32 = 1074;

/// How many binary places the unit is finer than that of single precision.
pub const FINER: u32 = 925;

/// A double-precision number.
#[derive(Clone, Copy, Debug, PartialEq, Eq, Structural)]
pub struct Binary64 {
    pub sign_and_magnitude: Signed,
}

/// `0.0`.
pub open spec fn zero() -> Binary64 {
    Binary64 { sign_and_magnitude: Signed { negative: false, mag: 0 } }
}

/// The double-precision number with the value of a finite single-precision number.
#[verifier::opaque]
pub open spec fn widened(x: Binary32) -> Binary64 {
    Binary64 {
        sign_and_magnitude: Signed {
            negative: x.negative(),
            mag: rounding::rounded(
                binary32::distance_from_zero(x.value()) * pow2(FINER as nat),
                1,
                HIDDEN_BIT as nat,
                INFINITE_FIELD as nat,
            ) as u64,
        },
    }
}

/// The double-precision number nearest to a count.
#[verifier::opaque]
pub open spec fn of_count(n: nat) -> Binary64 {
    Binary64 {
        sign_and_magnitude: Signed {
            negative: false,
            mag: rounding::rounded(
                n * pow2(UNIT as nat),
                1,
                HIDDEN_BIT as nat,
                INFINITE_FIELD as nat,
            ) as u64,
        },
    }
}

impl Binary64 {
    /// The rounded sum.
    #[verifier::opaque]
    pub open spec fn sum(self, other: Self) -> Self {
        Binary64 {
            sign_and_magnitude: ieee::signed_sum(
                self.sign_and_magnitude,
                other.sign_and_magnitude,
                HIDDEN_BIT,
                INFINITE_FIELD,
            ),
        }
    }

    /// The rounded quotient.
    #[verifier::opaque]
    pub open spec fn quotient(self, other: Self) -> Self {
        Binary64 {
            sign_and_magnitude: ieee::signed_quotient(
                self.sign_and_magnitude,
                other.sign_and_magnitude,
                UNIT as nat,
                HIDDEN_BIT,
                INFINITE_FIELD,
            ),
        }
    }

    /// The single-precision number nearest to this one.
    #[verifier::opaque]
    pub open spec fn narrowed(self) -> Binary32 {
        let x = self.sign_and_magnitude;
        if x.mag > INFINITE_FIELD {
            binary32::pack(ieee::not_a_number(binary32::HIDDEN_BIT, binary32::INFINITE_FIELD))
        } else if x.mag == INFINITE_FIELD {
            binary32::pack(Signed { negative: x.negative, mag: binary32::INFINITE_FIELD })
        } else {
            binary32::pack(
                Signed {
                    negative: x.negative,
                    mag: rounding::rounded(
                        rounding::magnitude_value(x.mag as nat, HIDDEN_BIT as nat),
                        pow2(FINER as nat),
                        binary32::HIDDEN_BIT as nat,
                        binary32::INFINITE_FIELD as nat,
                    ) as u64,
                },
            )
        }
    }

    /// Widens a finite single-precision number.
    pub fn widen(x: Binary32) -> (r: Self)
        requires
            x.finite(),
        ensures
            r == widened(x),
    {
        reveal(widened);
        let bits: u32 = x.to_bits();
        let negative = bits >= 0x8000_0000;
        let mag: u64 = if negative {
            (bits - 0x8000_0000) as u64
        } else {
            bits as u64
        };
        let (sig, k) = rounding::split_magnitude(mag, binary32::HIDDEN_BIT, binary32::INFINITE_FIELD);
        proof {
            lemma_pow2_adds(k as nat, FINER as nat);
            assert((sig as nat * pow2(k as nat)) * pow2(FINER as nat) == sig as nat * pow2(
                (k + FINER) as nat,
            )) by (nonlinear_arith)
                requires
                    pow2((k + FINER) as nat) == pow2(k as nat) * pow2(FINER as nat),
            ;
        }
        let wide: u64 = rounding::round_shifted(
            sig as u128,
            k + FINER,
            1,
            HIDDEN_BIT,
            INFINITE_FIELD,
        );
        Binary64 { sign_and_magnitude: Signed { negative, mag: wide } }
    }

    /// The number nearest to a count.
    pub fn from_count(n: u32) -> (r: Self)
        ensures
            r == of_count(n as nat),
    {
        reveal(of_count);
        let mag: u64 = rounding::round_shifted(n as u128, UNIT, 1, HIDDEN_BIT, INFINITE_FIELD);
        Binary64 { sign_and_magnitude: Signed { negative: false, mag } }
    }

    /// `self + other`.
    pub fn plus(self, other: Self) -> (r: Self)
        ensures
            r == self.sum(other),
    {
        reveal(Binary64::sum);
        Binary64 {
            sign_and_magnitude: ieee::add_signed(
                self.sign_and_magnitude,
                other.sign_and_magnitude,
                HIDDEN_BIT,
                INFINITE_FIELD,
            ),
        }
    }

    /// `self / other`.
    pub fn divided_by(self, other: Self) -> (r: Self)
        ensures
            r == self.quotient(other),
    {
        reveal(Binary64::quotient);
        Binary64 {
            sign_and_magnitude: ieee::divide_signed(
                self.sign_and_magnitude,
                other.sign_and_magnitude,
                UNIT,
                HIDDEN_BIT,
                INFINITE_FIELD,
            ),
        }
    }

    /// The nearest single-precision number.
    pub fn narrow(self) -> (r: Binary32)
        ensures
            r == self.narrowed(),
    {
        reveal(Binary64::narrowed);
        let x = self.sign_and_magnitude;
        let mag: u64 = if x.mag > INFINITE_FIELD {
            0x7fc0_0000
        } else if x.mag == INFINITE_FIELD {
            0x7f80_0000
        } else {
            let (sig, k) = rounding::split_magnitude(x.mag, HIDDEN_BIT, INFINITE_FIELD);
            let ghost h = binary32::HIDDEN_BIT as nat;
            if k >= FINER {
                proof {
                    let n = sig as nat * pow2((k - FINER) as nat);
                    rounding::lemma_magnitude_scales_by(n, 1, h, FINER as nat);
                    lemma_pow2_adds((k - FINER) as nat, FINER as nat);
                    assert(n * pow2(FINER as nat) == sig as nat * pow2(k as nat))
                        by (nonlinear_arith)
                        requires
                            n == sig as nat * pow2((k - FINER) as nat),
                            pow2(k as nat) == pow2((k - FINER) as nat) * pow2(FINER as nat),
                    ;
                }
                rounding::round_shifted(
                    sig as u128,
                    k - FINER,
                    1,
                    binary32::HIDDEN_BIT,
                    binary32::INFINITE_FIELD,
                )
            } else {
                proof {
                    let d = 1 * pow2((FINER - k) as nat);
                    lemma_pow2_pos((FINER - k) as nat);
                    rounding::lemma_magnitude_scales_by(sig as nat, d, h, k as nat);
                    lemma_pow2_adds((FINER - k) as nat, k as nat);
                }
                rounding::round_divided(
                    sig as u128,
                    1,
                    FINER - k,
                    binary32::HIDDEN_BIT,
                    binary32::INFINITE_FIELD,
                )
            }
        };
        if x.negative && x.mag <= INFINITE_FIELD {
            Binary32::from_bits(0x8000_0000 + mag as u32)
        } else {
            Binary32::from_bits(mag as u32)
        }
    }
}

} // verus!
