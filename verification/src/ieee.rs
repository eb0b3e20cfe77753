//! Sign-and-magnitude arithmetic shared by the two floating-point formats.
use crate::rounding;
use vstd::arithmetic::power2::*;
use vstd::prelude::*;

verus! {

/// A number of either format: its sign and its magnitude field.
#[derive(Clone, Copy, Debug, PartialEq, Eq, Structural)]
pub struct Signed {
    pub negative: bool,
    pub mag: u64,
}

/// The value, in units of the smallest positive number.
pub open spec fn signed_value(x: Signed, h: u64) -> int {
    if x.negative {
        -(rounding::magnitude_value(x.mag as nat, h as nat) as int)
    } else {
        rounding::magnitude_value(x.mag as nat, h as nat) as int
    }
}

/// The quiet NaN that an invalid operation gives.
pub open spec fn not_a_number(h: u64, inf: u64) -> Signed {
    Signed { negative: false, mag: (inf + h / 2) as u64 }
}

/// The number nearest to the integer `v` units, which is not zero.
pub open spec fn nearest(v: int, h: u64, inf: u64) -> Signed {
    Signed {
        negative: v < 0,
        mag: rounding::rounded(
            if v < 0 {
                (-v) as nat
            } else {
                v as nat
            },
            1,
            h as nat,
            inf as nat,
        ) as u64,
    }
}

/// The sum of two numbers.
pub open spec fn signed_sum(a: Signed, b: Signed, h: u64, inf: u64) -> Signed {
    if a.mag > inf || b.mag > inf {
        not_a_number(h, inf)
    } else if a.mag == inf {
        if b.mag == inf && a.negative != b.negative {
            not_a_number(h, inf)
        } else {
            a
        }
    } else if b.mag == inf {
        b
    } else if signed_value(a, h) + signed_value(b, h) == 0 {
        Signed { negative: a.negative && b.negative, mag: 0 }
    } else {
        nearest(signed_value(a, h) + signed_value(b, h), h, inf)
    }
}

/// The product of two numbers, the unit being `2^-u`.
pub open spec fn signed_product(a: Signed, b: Signed, u: nat, h: u64, inf: u64) -> Signed {
    let negative = a.negative != b.negative;
    if a.mag > inf || b.mag > inf || (a.mag == inf && b.mag == 0) || (a.mag == 0 && b.mag == inf) {
        not_a_number(h, inf)
    } else if a.mag == inf || b.mag == inf {
        Signed { negative, mag: inf }
    } else {
        Signed {
            negative,
            mag: rounding::rounded(
                rounding::magnitude_value(a.mag as nat, h as nat) * rounding::magnitude_value(b.mag as nat, h as nat),
                pow2(u),
                h as nat,
                inf as nat,
            ) as u64,
        }
    }
}

/// The quotient of two numbers, the unit being `2^-u`.
pub open spec fn signed_quotient(a: Signed, b: Signed, u: nat, h: u64, inf: u64) -> Signed {
    let negative = a.negative != b.negative;
    if a.mag > inf || b.mag > inf || (a.mag == inf && b.mag == inf) || (a.mag == 0 && b.mag == 0) {
        not_a_number(h, inf)
    } else if a.mag == inf || b.mag == 0 {
        Signed { negative, mag: inf }
    } else if b.mag == inf {
        Signed { negative, mag: 0 }
    } else {
        Signed {
            negative,
            mag: rounding::rounded(
                rounding::magnitude_value(a.mag as nat, h as nat) * pow2(u),
                rounding::magnitude_value(b.mag as nat, h as nat),
                h as nat,
                inf as nat,
            ) as u64,
        }
    }
}

/// A field stands for zero only where it is zero.
pub proof fn lemma_magnitude_value_of_zero(mag: nat, h: nat)
    requires
        h > 0,
    ensures
        rounding::magnitude_value(mag, h) == 0 <==> mag == 0,
{
    assert(0 * pow2(0) == 0) by (nonlinear_arith);
    if mag > 0 {
        rounding::lemma_magnitude_value_increases(0, mag, h);
    }
}

/// Adds two numbers.
pub fn add_signed(a: Signed, b: Signed, h: u64, inf: u64) -> (r: Signed)
    requires
        rounding::is_format(h, inf),
    ensures
        r == signed_sum(a, b, h, inf),
{
    if a.mag > inf || b.mag > inf {
        Signed { negative: false, mag: inf + h / 2 }
    } else if a.mag == inf {
        if b.mag == inf && a.negative != b.negative {
            Signed { negative: false, mag: inf + h / 2 }
        } else {
            a
        }
    } else if b.mag == inf {
        b
    } else {
        proof {
            lemma_magnitude_value_of_zero(a.mag as nat, h as nat);
            lemma_magnitude_value_of_zero(b.mag as nat, h as nat);
            if a.mag < b.mag {
                rounding::lemma_magnitude_value_increases(a.mag as nat, b.mag as nat, h as nat);
            }
            if b.mag < a.mag {
                rounding::lemma_magnitude_value_increases(b.mag as nat, a.mag as nat, h as nat);
            }
        }
        let subtract = a.negative != b.negative;
        if a.mag == b.mag && (subtract || a.mag == 0) {
            Signed { negative: a.negative && b.negative, mag: 0 }
        } else if a.mag >= b.mag {
            Signed { negative: a.negative, mag: rounding::add_magnitudes(a.mag, b.mag, subtract, h, inf) }
        } else {
            Signed { negative: b.negative, mag: rounding::add_magnitudes(b.mag, a.mag, subtract, h, inf) }
        }
    }
}

/// Multiplies two numbers.
pub fn multiply_signed(a: Signed, b: Signed, u: u32, h: u64, inf: u64) -> (r: Signed)
    requires
        rounding::is_format(h, inf),
        u <= 2000,
    ensures
        r == signed_product(a, b, u as nat, h, inf),
{
    let negative = a.negative != b.negative;
    if a.mag > inf || b.mag > inf || (a.mag == inf && b.mag == 0) || (a.mag == 0 && b.mag == inf) {
        Signed { negative: false, mag: inf + h / 2 }
    } else if a.mag == inf || b.mag == inf {
        Signed { negative, mag: inf }
    } else {
        Signed { negative, mag: rounding::multiply_magnitudes(a.mag, b.mag, u, h, inf) }
    }
}

/// Divides two numbers.
pub fn divide_signed(a: Signed, b: Signed, u: u32, h: u64, inf: u64) -> (r: Signed)
    requires
        rounding::is_format(h, inf),
        u <= 2000,
    ensures
        r == signed_quotient(a, b, u as nat, h, inf),
{
    let negative = a.negative != b.negative;
    if a.mag > inf || b.mag > inf || (a.mag == inf && b.mag == inf) || (a.mag == 0 && b.mag == 0) {
        Signed { negative: false, mag: inf + h / 2 }
    } else if a.mag == inf || b.mag == 0 {
        Signed { negative, mag: inf }
    } else if b.mag == inf {
        Signed { negative, mag: 0 }
    } else {
        Signed { negative, mag: rounding::divide_magnitudes(a.mag, b.mag, u, h, inf) }
    }
}

} // verus!
