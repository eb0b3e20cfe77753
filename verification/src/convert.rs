//! Single-precision numbers to integers and to decimal text.
use crate::binary32;
use crate::binary32::{Binary32, HIDDEN_BIT, INFINITE_FIELD, UNIT};
use crate::rounding;
use crate::text;
use vstd::arithmetic::div_mod::*;
use vstd::arithmetic::power2::*;
use vstd::prelude::*;
use vstd::string::*;

verus! {

/// `n` moved into `low..=high`.
pub open spec fn clamp_int(n: int, low: int, high: int) -> int {
    if n < low {
        low
    } else if n > high {
        high
    } else {
        n
    }
}

/// The number rounded to the nearest integer, halves away from zero, and moved into
/// `low..=high`; 0 for a NaN.
#[verifier::opaque]
pub open spec fn rounded_within(x: Binary32, low: int, high: int) -> int {
    if x.nan() {
        0
    } else if !x.finite() {
        if x.negative() {
            low
        } else {
            high
        }
    } else {
        clamp_int(x.nearest_int(), low, high)
    }
}

/// The number of thousandths nearest to a finite number's magnitude, ties to even.
pub open spec fn thousandths(x: Binary32) -> nat {
    rounding::nearest_even(
        binary32::distance_from_zero(x.value()) * 1000,
        pow2(UNIT as nat),
    )
}

/// Three decimal digits.
pub open spec fn three_digits(n: nat) -> Seq<char> {
    seq![text::digit(n / 100), text::digit(n / 10 % 10), text::digit(n % 10)]
}

/// A number with three digits behind the decimal point; infinities and NaNs have names.
#[verifier::opaque]
pub open spec fn fixed3(x: Binary32) -> Seq<char> {
    let t = thousandths(x);
    let sign = if x.negative() {
        seq!['-']
    } else {
        seq![]
    };
    if x.nan() {
        "NaN"@
    } else if !x.finite() {
        sign + "inf"@
    } else {
        sign + text::decimal(t / 1000) + seq!['.'] + three_digits(t % 1000)
    }
}

/// A common factor leaves quotient and nearest integer unchanged.
proof fn lemma_common_factor(a: nat, b: nat, c: nat)
    requires
        b > 0,
        c > 0,
    ensures
        b * c > 0,
        (a * c) / (b * c) == a / b,
        (a * c) % (b * c) == (a % b) * c,
        rounding::nearest_even(a * c, b * c) == rounding::nearest_even(a, b),
{
    let q = (a / b) as int;
    let r = (a % b) as int;
    lemma_fundamental_div_mod(a as int, b as int);
    assert(a * c == q * (b * c) + r * c && 0 <= r * c < b * c) by (nonlinear_arith)
        requires
            a == b * q + r,
            0 <= r < b,
            c > 0,
    ;
    lemma_fundamental_div_mod_converse((a * c) as int, (b * c) as int, q, r * c);
    assert((2 * r < b <==> 2 * (r * c) < b * c) && (2 * r == b <==> 2 * (r * c) == b * c))
        by (nonlinear_arith)
        requires
            c > 0,
    ;
}

proof fn lemma_distance(x: Binary32)
    ensures
        binary32::distance_from_zero(x.value()) == rounding::magnitude_value(
            x.magnitude(),
            HIDDEN_BIT as nat,
        ),
        x.absolute().magnitude() == x.magnitude(),
        x.absolute().bits == x.magnitude(),
{
}

/// The integer nearest to a magnitude, halves up, at most 65536.
fn round_field(mag: u64) -> (r: u32)
    requires
        mag <= INFINITE_FIELD,
    ensures
        r <= 65536,
        mag == INFINITE_FIELD ==> r == 65536,
        mag < INFINITE_FIELD ==> r == clamp_int(
            (2 * rounding::magnitude_value(mag as nat, HIDDEN_BIT as nat) + pow2(UNIT as nat)) as int
                / (2 * pow2(UNIT as nat)) as int,
            0,
            65536,
        ),
{
    let ghost h = HIDDEN_BIT as nat;
    let ghost u = pow2(UNIT as nat);
    proof {
        lemma_pow2_pos(UNIT as nat);
    }
    if mag >= 0x4780_0000 {
        proof {
            let v = rounding::magnitude_value(mag as nat, h);
            let v0 = rounding::magnitude_value(0x4780_0000, h);
            if mag > 0x4780_0000 {
                rounding::lemma_magnitude_value_increases(0x4780_0000, mag as nat, h);
            }
            assert(rounding::significand(0x4780_0000, h) == 0x80_0000);
            assert(rounding::doublings(0x4780_0000, h) == 142);
            lemma2_to64();
            lemma2_to64_rest();
            lemma_pow2_adds(7, 142);
            lemma_pow2_adds(16, 149);
            lemma_pow2_adds(23, 142);
            assert(v0 == 65536 * u);
            lemma_div_is_ordered((2 * v0 + u) as int, (2 * v + u) as int, (2 * u) as int);
            assert(2 * v0 + u == 65536 * (2 * u) + u);
            lemma_fundamental_div_mod_converse(
                (2 * v0 + u) as int,
                (2 * u) as int,
                65536,
                u as int,
            );
        }
        65536
    } else {
        let (sig, k) = rounding::split_magnitude(mag, HIDDEN_BIT, INFINITE_FIELD);
        let j: u32 = 149 - k;
        proof {
            let p = pow2(j as nat);
            let v = rounding::magnitude_value(mag as nat, h);
            lemma_pow2_adds(j as nat, k as nat);
            lemma_pow2_pos(k as nat);
            lemma_pow2_pos(j as nat);
            assert(2 * v + u == (2 * sig as nat + p) * pow2(k as nat) && 2 * u == (2 * p) * pow2(
                k as nat,
            )) by (nonlinear_arith)
                requires
                    v == sig as nat * pow2(k as nat),
                    u == p * pow2(k as nat),
            ;
            lemma_common_factor(2 * sig as nat + p, 2 * p, pow2(k as nat));
        }
        if j >= 64 {
            proof {
                let p = pow2(j as nat);
                lemma2_to64();
                lemma2_to64_rest();
                if j > 64 {
                    lemma_pow2_strictly_increases(64, j as nat);
                }
                lemma_fundamental_div_mod_converse(
                    (2 * sig + p) as int,
                    (2 * p) as int,
                    0,
                    (2 * sig + p) as int,
                );
            }
            0
        } else {
            let p: u128 = rounding::power_of_two(j);
            proof {
                lemma2_to64();
                lemma2_to64_rest();
                lemma_pow2_strictly_increases(j as nat, 64);
                if j > 8 {
                    lemma_pow2_strictly_increases(8, j as nat);
                }
                assert(p >= 256);
                let q = (2 * sig + p) as int / (2 * p) as int;
                lemma_fundamental_div_mod((2 * sig + p) as int, (2 * p) as int);
                assert(q <= 65536) by (nonlinear_arith)
                    requires
                        2 * sig + p == (2 * p) * q + (2 * sig + p) as int % (2 * p) as int,
                        (2 * sig + p) as int % (2 * p) as int >= 0,
                        p >= 256,
                        sig < 0x100_0000,
                ;
            }
            ((2 * sig as u128 + p) / (2 * p)) as u32
        }
    }
}

impl Binary32 {
    /// The nearest unsigned 16-bit integer, halves away from zero.
    pub fn round_to_u16(self) -> (r: u16)
        ensures
            r == rounded_within(self, 0, 65535),
    {
        reveal(rounded_within);
        if self.is_nan() {
            return 0;
        }
        let n: u32 = round_field(self.abs().to_bits() as u64);
        proof {
            lemma_distance(self);
            lemma_pow2_pos(UNIT as nat);
            lemma_div_pos_is_pos(
                (2 * binary32::distance_from_zero(self.value()) + pow2(UNIT as nat)) as int,
                (2 * pow2(UNIT as nat)) as int,
            );
        }
        if self.bits >= 0x8000_0000 {
            0
        } else if n > 65535 {
            65535
        } else {
            n as u16
        }
    }

    /// The nearest signed 16-bit integer, halves away from zero.
    pub fn round_to_i16(self) -> (r: i16)
        ensures
            r == rounded_within(self, -32768, 32767),
    {
        reveal(rounded_within);
        if self.is_nan() {
            return 0;
        }
        let n: u32 = round_field(self.abs().to_bits() as u64);
        proof {
            lemma_distance(self);
            lemma_pow2_pos(UNIT as nat);
            lemma_div_pos_is_pos(
                (2 * binary32::distance_from_zero(self.value()) + pow2(UNIT as nat)) as int,
                (2 * pow2(UNIT as nat)) as int,
            );
        }
        if self.bits >= 0x8000_0000 {
            if n > 32768 {
                -32768
            } else {
                (-(n as i32)) as i16
            }
        } else if n > 32767 {
            32767
        } else {
            n as i16
        }
    }
}

fn push_three_digits(out: &mut String, n: u16)
    requires
        n < 1000,
    ensures
        final(out)@ == old(out)@ + three_digits(n as nat),
{
    out.push(to_digit((n / 100) as u8));
    out.push(to_digit((n / 10 % 10) as u8));
    out.push(to_digit((n % 10) as u8));
    assert(out@ =~= old(out)@ + three_digits(n as nat));
}

fn to_digit(d: u8) -> (r: char)
    requires
        d < 10,
    ensures
        r == text::digit(d as nat),
{
    (48u8 + d) as char
}

/// The thousandths of a magnitude as whole part and remainder.
fn split_thousandths(mag: u64) -> (r: (u128, u16))
    requires
        mag < INFINITE_FIELD,
    ensures
        r.1 < 1000,
        r.0 * 1000 + r.1 == rounding::nearest_even(
            rounding::magnitude_value(mag as nat, HIDDEN_BIT as nat) * 1000,
            pow2(UNIT as nat),
        ),
{
    let (sig, k) = rounding::split_magnitude(mag, HIDDEN_BIT, INFINITE_FIELD);
    let ghost v = rounding::magnitude_value(mag as nat, HIDDEN_BIT as nat);
    let ghost u = pow2(UNIT as nat);
    proof {
        lemma_pow2_pos(k as nat);
        lemma_pow2_pos(UNIT as nat);
        lemma2_to64();
        lemma2_to64_rest();
    }
    if k >= 149 {
        let e: u32 = k - 149;
        let p: u128 = rounding::power_of_two(e);
        proof {
            lemma_pow2_adds(e as nat, 149);
            lemma_pow2_adds(64, 40);
            if e < 104 {
                lemma_pow2_strictly_increases(e as nat, 104);
            }
            assert(0x1_0000_0000_0000_0000 * 0x100_0000_0000 == 0x100_0000_0000_0000_0000_0000_0000);
            assert(sig * p <= 0xff_ffff * 0x100_0000_0000_0000_0000_0000_0000) by (nonlinear_arith)
                requires
                    sig <= 0xff_ffff,
                    p <= 0x100_0000_0000_0000_0000_0000_0000,
            ;
            let w = (sig * p) as nat;
            assert(v * 1000 == (w * 1000) * u) by (nonlinear_arith)
                requires
                    v == sig as nat * pow2(k as nat),
                    pow2(k as nat) == p * u,
                    w == sig * p,
            ;
            assert((w * 1000) * u == (w * 1000) * u + 0);
            lemma_fundamental_div_mod_converse((v * 1000) as int, u as int, (w * 1000) as int, 0);
        }
        (sig as u128 * p, 0)
    } else {
        let j: u32 = 149 - k;
        proof {
            lemma_pow2_adds(j as nat, k as nat);
            lemma_pow2_pos(j as nat);
            assert(v * 1000 == (sig as nat * 1000) * pow2(k as nat)) by (nonlinear_arith)
                requires
                    v == sig as nat * pow2(k as nat),
            ;
            lemma_common_factor(sig as nat * 1000, pow2(j as nat), pow2(k as nat));
        }
        if j >= 64 {
            proof {
                if j > 64 {
                    lemma_pow2_strictly_increases(64, j as nat);
                }
                lemma_fundamental_div_mod_converse(
                    (sig * 1000) as int,
                    pow2(j as nat) as int,
                    0,
                    (sig * 1000) as int,
                );
            }
            (0, 0)
        } else {
            let p: u128 = rounding::power_of_two(j);
            proof {
                lemma_pow2_strictly_increases(j as nat, 64);
            }
            let n: u128 = sig as u128 * 1000;
            let q: u128 = n / p;
            let r: u128 = n % p;
            proof {
                lemma_fundamental_div_mod(n as int, p as int);
                assert(q <= n) by (nonlinear_arith)
                    requires
                        n == p * q + r,
                        p >= 1,
                        r >= 0,
                ;
            }
            let t: u128 = if 2 * r < p || (2 * r == p && q % 2 == 0) {
                q
            } else {
                q + 1
            };
            (t / 1000, (t % 1000) as u16)
        }
    }
}

/// Appends a number with three digits behind the decimal point.
pub fn push_fixed3(out: &mut String, x: Binary32)
    ensures
        final(out)@ == old(out)@ + fixed3(x),
{
    reveal(fixed3);
    if x.is_nan() {
        out.append("NaN");
        return;
    }
    if !x.is_finite() {
        if x.bits >= 0x8000_0000 {
            out.push('-');
        }
        out.append("inf");
        assert(out@ =~= old(out)@ + fixed3(x));
        return;
    }
    let (whole, part) = split_thousandths(x.abs().to_bits() as u64);
    proof {
        lemma_distance(x);
    }
    let ghost t = thousandths(x);
    assert(whole == t / 1000 && part == t % 1000);
    push_number(out, x.bits >= 0x8000_0000, whole, part);
}

/// A number with three digits behind the decimal point.
pub fn fixed3_text(x: Binary32) -> (r: String)
    ensures
        r@ == fixed3(x),
{
    let mut out = String::new();
    push_fixed3(&mut out, x);
    assert(out@ =~= fixed3(x));
    out
}

fn push_number(out: &mut String, negative: bool, whole: u128, part: u16)
    requires
        part < 1000,
    ensures
        final(out)@ == old(out)@ + ((if negative {
            seq!['-']
        } else {
            seq![]
        }) + text::decimal(whole as nat) + seq!['.'] + three_digits(part as nat)),
{
    if negative {
        out.push('-');
    }
    text::push_decimal(out, whole);
    out.push('.');
    push_three_digits(out, part);
    assert(out@ =~= old(out)@ + ((if negative {
        seq!['-']
    } else {
        seq![]
    }) + text::decimal(whole as nat) + seq!['.'] + three_digits(part as nat)));
}

} // verus!
