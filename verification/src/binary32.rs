//! Single-precision numbers, held as their bit pattern.
//!
//! Sensor values, weights and flows are single-precision numbers. Arithmetic rounds to nearest,
//! ties to even, and comparisons order numbers by value; both are stated over the exact value,
//! an integer number of units of `2^-149`.
use crate::ieee;
use crate::ieee::Signed;
use crate::rounding;
use vstd::arithmetic::power2::*;
use vstd::prelude::*;

verus! {

/// The hidden bit of the significand.
pub const HIDDEN_BIT: u64 = 0x80_0000;

/// The magnitude field of infinity.
pub const INFINITE_FIELD: u64 = 0x7f80_0000;

/// The unit in which values are counted is `2^-UNIT`.
pub const UNIT: u32 = 149;

/// A single-precision number. Two numbers are equal as patterns (`==`) when all their bits are.
#[derive(Clone, Copy, Debug, PartialEq, Eq, Structural)]
pub struct Binary32 {
    pub bits: u32,
}

/// `0.0`.
pub open spec fn zero() -> Binary32 {
    Binary32 { bits: 0 }
}

/// The number with the given sign and magnitude field.
pub open spec fn pack(x: Signed) -> Binary32 {
    Binary32 {
        bits: if x.negative {
            (0x8000_0000 + x.mag) as u32
        } else {
            x.mag as u32
        },
    }
}

/// The single-precision number nearest to `n` (an integer).
#[verifier::opaque]
pub open spec fn of_int(n: int) -> Binary32 {
    if n == 0 {
        zero()
    } else {
        pack(ieee::nearest(n * pow2(UNIT as nat), HIDDEN_BIT, INFINITE_FIELD))
    }
}

/// `|n|`.
pub open spec fn distance_from_zero(n: int) -> nat {
    if n < 0 {
        (-n) as nat
    } else {
        n as nat
    }
}

impl Binary32 {
    /// Whether the sign bit is set.
    pub open spec fn negative(self) -> bool {
        self.bits >= 0x8000_0000
    }

    /// The bits below the sign.
    pub open spec fn magnitude(self) -> nat {
        if self.bits >= 0x8000_0000 {
            (self.bits - 0x8000_0000) as nat
        } else {
            self.bits as nat
        }
    }

    /// Sign and magnitude.
    pub open spec fn parts(self) -> Signed {
        Signed { negative: self.negative(), mag: self.magnitude() as u64 }
    }

    /// Whether this is not a number.
    pub open spec fn nan(self) -> bool {
        self.magnitude() > 0x7f80_0000
    }

    /// Whether this is neither infinite nor a NaN.
    pub open spec fn finite(self) -> bool {
        self.magnitude() < 0x7f80_0000
    }

    /// The place of a number in the order of all numbers: both zeros have place 0.
    pub open spec fn rank(self) -> int {
        if self.negative() {
            -(self.magnitude() as int)
        } else {
            self.magnitude() as int
        }
    }

    /// The exact value of a finite number, in units of `2^-149`.
    pub open spec fn value(self) -> int {
        ieee::signed_value(self.parts(), HIDDEN_BIT)
    }

    /// `self < other`; false where either is a NaN.
    pub open spec fn below(self, other: Self) -> bool {
        !self.nan() && !other.nan() && self.rank() < other.rank()
    }

    /// `self <= other`; false where either is a NaN.
    pub open spec fn at_most(self, other: Self) -> bool {
        !self.nan() && !other.nan() && self.rank() <= other.rank()
    }

    /// `self == other` as numbers: the two zeros are equal, a NaN equals nothing.
    pub open spec fn same_number(self, other: Self) -> bool {
        !self.nan() && !other.nan() && self.rank() == other.rank()
    }

    /// The rounded sum.
    #[verifier::opaque]
    pub open spec fn sum(self, other: Self) -> Self {
        pack(ieee::signed_sum(self.parts(), other.parts(), HIDDEN_BIT, INFINITE_FIELD))
    }

    /// The number with the other sign.
    pub open spec fn negated(self) -> Self {
        Binary32 {
            bits: if self.bits >= 0x8000_0000 {
                (self.bits - 0x8000_0000) as u32
            } else {
                (self.bits + 0x8000_0000) as u32
            },
        }
    }

    /// The number without its sign.
    pub open spec fn absolute(self) -> Self {
        Binary32 { bits: self.magnitude() as u32 }
    }

    /// The rounded difference.
    pub open spec fn difference(self, other: Self) -> Self {
        self.sum(other.negated())
    }

    /// The rounded product.
    #[verifier::opaque]
    pub open spec fn product(self, other: Self) -> Self {
        pack(
            ieee::signed_product(
                self.parts(),
                other.parts(),
                UNIT as nat,
                HIDDEN_BIT,
                INFINITE_FIELD,
            ),
        )
    }

    /// The rounded quotient.
    #[verifier::opaque]
    pub open spec fn quotient(self, other: Self) -> Self {
        pack(
            ieee::signed_quotient(
                self.parts(),
                other.parts(),
                UNIT as nat,
                HIDDEN_BIT,
                INFINITE_FIELD,
            ),
        )
    }

    /// The larger of two numbers; the other one where one is a NaN.
    pub open spec fn larger(self, other: Self) -> Self {
        if other.nan() || other.below(self) {
            self
        } else {
            other
        }
    }

    /// The number moved into `low..=high`; a NaN stays a NaN.
    pub open spec fn clamped(self, low: Self, high: Self) -> Self {
        if self.below(low) {
            low
        } else if high.below(self) {
            high
        } else {
            self
        }
    }

    /// A finite number unchanged, anything else zero.
    pub open spec fn or_zero(self) -> Self {
        if self.finite() {
            self
        } else {
            zero()
        }
    }

    /// The integer nearest to a finite number, halves away from zero.
    pub open spec fn nearest_int(self) -> int {
        let n = (2 * distance_from_zero(self.value()) + pow2(UNIT as nat)) / (2 * pow2(UNIT as nat));
        if self.negative() {
            -(n as int)
        } else {
            n as int
        }
    }

    /// The number whose bits are given.
    #[verifier::allow_in_spec]
    pub fn from_bits(bits: u32) -> (r: Self)
        returns
            (Binary32 { bits }),
    {
        Binary32 { bits }
    }

    /// The bits of the number.
    pub fn to_bits(self) -> (r: u32)
        ensures
            r == self.bits,
    {
        self.bits
    }

    fn split(self) -> (r: Signed)
        ensures
            r == self.parts(),
            r.mag < 0x8000_0000,
    {
        if self.bits >= 0x8000_0000 {
            Signed { negative: true, mag: (self.bits - 0x8000_0000) as u64 }
        } else {
            Signed { negative: false, mag: self.bits as u64 }
        }
    }

    fn join(x: Signed) -> (r: Self)
        requires
            x.mag < 0x8000_0000,
        ensures
            r == pack(x),
    {
        if x.negative {
            Binary32 { bits: 0x8000_0000 + x.mag as u32 }
        } else {
            Binary32 { bits: x.mag as u32 }
        }
    }

    /// Whether this is not a number.
    pub fn is_nan(self) -> (r: bool)
        ensures
            r == self.nan(),
    {
        self.split().mag > INFINITE_FIELD
    }

    /// Whether this is neither infinite nor a NaN.
    pub fn is_finite(self) -> (r: bool)
        ensures
            r == self.finite(),
    {
        self.split().mag < INFINITE_FIELD
    }

    fn place(self) -> (r: i64)
        ensures
            r == self.rank(),
    {
        let x = self.split();
        if x.negative {
            0 - x.mag as i64
        } else {
            x.mag as i64
        }
    }

    /// `self < other`.
    pub fn less(self, other: Self) -> (r: bool)
        ensures
            r == self.below(other),
    {
        !self.is_nan() && !other.is_nan() && self.place() < other.place()
    }

    /// `self <= other`.
    pub fn less_or_equal(self, other: Self) -> (r: bool)
        ensures
            r == self.at_most(other),
    {
        !self.is_nan() && !other.is_nan() && self.place() <= other.place()
    }

    /// `self == other`, as numbers.
    pub fn equals(self, other: Self) -> (r: bool)
        ensures
            r == self.same_number(other),
    {
        !self.is_nan() && !other.is_nan() && self.place() == other.place()
    }

    /// `self + other`.
    pub fn plus(self, other: Self) -> (r: Self)
        ensures
            r == self.sum(other),
    {
        reveal(Binary32::sum);
        Self::join(ieee::add_signed(self.split(), other.split(), HIDDEN_BIT, INFINITE_FIELD))
    }

    /// `-self`.
    pub fn negate(self) -> (r: Self)
        ensures
            r == self.negated(),
    {
        if self.bits >= 0x8000_0000 {
            Binary32 { bits: self.bits - 0x8000_0000 }
        } else {
            Binary32 { bits: self.bits + 0x8000_0000 }
        }
    }

    /// `|self|`.
    pub fn abs(self) -> (r: Self)
        ensures
            r == self.absolute(),
    {
        Binary32 { bits: self.split().mag as u32 }
    }

    /// `self - other`.
    pub fn minus(self, other: Self) -> (r: Self)
        ensures
            r == self.difference(other),
    {
        self.plus(other.negate())
    }

    /// `self * other`.
    pub fn times(self, other: Self) -> (r: Self)
        ensures
            r == self.product(other),
    {
        reveal(Binary32::product);
        Self::join(
            ieee::multiply_signed(self.split(), other.split(), UNIT, HIDDEN_BIT, INFINITE_FIELD),
        )
    }

    /// `self / other`.
    pub fn divided_by(self, other: Self) -> (r: Self)
        ensures
            r == self.quotient(other),
    {
        reveal(Binary32::quotient);
        Self::join(
            ieee::divide_signed(self.split(), other.split(), UNIT, HIDDEN_BIT, INFINITE_FIELD),
        )
    }

    /// The larger of the two numbers.
    pub fn max(self, other: Self) -> (r: Self)
        ensures
            r == self.larger(other),
    {
        if other.is_nan() || other.less(self) {
            self
        } else {
            other
        }
    }

    /// The number moved into `low..=high`.
    pub fn clamp(self, low: Self, high: Self) -> (r: Self)
        ensures
            r == self.clamped(low, high),
    {
        if self.less(low) {
            low
        } else if high.less(self) {
            high
        } else {
            self
        }
    }

    /// A finite number unchanged, anything else zero.
    pub fn finite_or_zero(self) -> (r: Self)
        ensures
            r == self.or_zero(),
    {
        if self.is_finite() {
            self
        } else {
            Binary32 { bits: 0 }
        }
    }

    /// The number nearest to an unsigned integer.
    pub fn from_unsigned(n: u64) -> (r: Self)
        ensures
            r == of_int(n as int),
    {
        reveal(of_int);
        if n == 0 {
            return Binary32 { bits: 0 };
        }
        let mag: u64 = rounding::round_shifted(n as u128, UNIT, 1, HIDDEN_BIT, INFINITE_FIELD);
        proof {
            lemma_pow2_pos(UNIT as nat);
            assert(n as int * pow2(UNIT as nat) as int > 0) by (nonlinear_arith)
                requires
                    n > 0,
                    pow2(UNIT as nat) > 0,
            ;
        }
        Self::join(Signed { negative: false, mag })
    }

    /// The number nearest to a signed integer.
    pub fn from_signed(n: i64) -> (r: Self)
        ensures
            r == of_int(n as int),
    {
        reveal(of_int);
        if n >= 0 {
            Self::from_unsigned(n as u64)
        } else {
            let m: u64 = (-(n as i128)) as u64;
            let mag: u64 = rounding::round_shifted(m as u128, UNIT, 1, HIDDEN_BIT, INFINITE_FIELD);
            proof {
                lemma_pow2_pos(UNIT as nat);
                assert(n as int * pow2(UNIT as nat) as int == -(m * pow2(UNIT as nat)) && m * pow2(
                    UNIT as nat,
                ) > 0) by (nonlinear_arith)
                    requires
                        m > 0,
                        n == -(m as int),
                        pow2(UNIT as nat) > 0,
                ;
            }
            Self::join(Signed { negative: true, mag })
        }
    }
}

/// Finite numbers are ordered by their values.
pub proof fn lemma_order_is_by_value(a: Binary32, b: Binary32)
    requires
        a.finite(),
        b.finite(),
    ensures
        a.below(b) <==> a.value() < b.value(),
        a.at_most(b) <==> a.value() <= b.value(),
        a.same_number(b) <==> a.value() == b.value(),
{
    let h = HIDDEN_BIT as nat;
    ieee::lemma_magnitude_value_of_zero(a.magnitude(), h);
    ieee::lemma_magnitude_value_of_zero(b.magnitude(), h);
    if a.magnitude() < b.magnitude() {
        rounding::lemma_magnitude_value_increases(a.magnitude(), b.magnitude(), h);
    }
    if b.magnitude() < a.magnitude() {
        rounding::lemma_magnitude_value_increases(b.magnitude(), a.magnitude(), h);
    }
}

/// The value of a number above the smallest ones, from its field.
pub proof fn lemma_value_of(x: Binary32, sig: nat, k: nat)
    requires
        0x80_0000 <= sig < 0x100_0000,
        x.bits == k * 0x80_0000 + sig,
        x.bits < 0x7f80_0000,
    ensures
        x.value() == sig * pow2(k),
{
    let h = HIDDEN_BIT as int;
    let mag = x.bits as int;
    lemma2_to64();
    if k == 0 {
        assert(sig * 1 == sig);
    } else {
        vstd::arithmetic::div_mod::lemma_fundamental_div_mod_converse(
            mag,
            h,
            k as int + 1,
            sig - h,
        );
    }
}

/// A sum of numbers that are not negative is not negative, and does not exceed a number that the
/// exact sum does not exceed.
pub proof fn lemma_sum_at_most(a: Binary32, b: Binary32, most: Binary32)
    requires
        a.finite() && b.finite() && most.finite(),
        !a.negative() && !b.negative() && !most.negative(),
        a.value() + b.value() <= most.value(),
    ensures
        !a.sum(b).negative(),
        a.sum(b).at_most(most),
{
    reveal(Binary32::sum);
    let h = HIDDEN_BIT as nat;
    let v = (a.value() + b.value()) as nat;
    rounding::lemma_magnitude_is_exact(most.magnitude(), h);
    rounding::lemma_rounding_keeps_order(v, most.value() as nat, 1, h);
}

/// A product of numbers that are not negative is not negative, and does not exceed a number that
/// the exact product does not exceed.
pub proof fn lemma_product_at_most(a: Binary32, b: Binary32, most: Binary32)
    requires
        a.finite() && b.finite() && most.finite(),
        !a.negative() && !b.negative() && !most.negative(),
        a.value() * b.value() <= most.value() * pow2(UNIT as nat),
    ensures
        !a.product(b).negative(),
        a.product(b).at_most(most),
{
    reveal(Binary32::product);
    let h = HIDDEN_BIT as nat;
    let u = UNIT as nat;
    lemma_pow2_pos(u);
    rounding::lemma_magnitude_is_exact(most.magnitude(), h);
    rounding::lemma_magnitude_scales_by(most.value() as nat, 1, h, u);
    assert(1 * pow2(u) == pow2(u));
    assert(a.value() * b.value() >= 0) by (nonlinear_arith)
        requires
            a.value() >= 0,
            b.value() >= 0,
    ;
    rounding::lemma_rounding_keeps_order(
        (a.value() * b.value()) as nat,
        most.value() as nat * pow2(u),
        pow2(u),
        h,
    );
}

/// The difference of two finite numbers that are not negative is finite.
pub proof fn lemma_difference_is_finite(a: Binary32, b: Binary32)
    requires
        a.finite() && b.finite(),
        !a.negative() && !b.negative(),
    ensures
        a.difference(b).finite(),
{
    reveal(Binary32::sum);
    let h = HIDDEN_BIT as nat;
    let v = a.value() - b.value();
    rounding::lemma_magnitude_is_exact(a.magnitude(), h);
    rounding::lemma_magnitude_is_exact(b.magnitude(), h);
    assert(b.negated().value() == -b.value());
    if v >= 0 {
        rounding::lemma_rounding_keeps_order(v as nat, a.value() as nat, 1, h);
    } else {
        rounding::lemma_rounding_keeps_order((-v) as nat, b.value() as nat, 1, h);
    }
}

} // verus!
