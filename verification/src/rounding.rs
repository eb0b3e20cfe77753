//! Rounding of exact ratios to the magnitude of a binary floating-point number.
//!
//! A binary interchange format keeps a number's magnitude in consecutive integers: the
//! magnitude field counts the representable values upwards from zero. The format is described
//! here by its hidden bit `h`, a power of two (`2^23` for single, `2^52` for double precision),
//! and by the field that stands for infinity.
use vstd::arithmetic::power2::*;
use vstd::prelude::*;

verus! {

/// The integer nearest to `n / d`. A tie goes to the even neighbour.
pub open spec fn nearest_even(n: nat, d: nat) -> nat {
    let q = n / d;
    let r = n % d;
    if 2 * r < d || (2 * r == d && q % 2 == 0) {
        q
    } else {
        q + 1
    }
}

/// The magnitude field of `n / d` units in the last place of the smallest numbers, rounded to
/// nearest, ties to even, in a format with no upper limit. While the ratio does not fit in the
/// significand the unit doubles, and each doubling adds `h` to the field.
pub open spec fn magnitude_of(n: nat, d: nat, h: nat) -> nat
    decreases n - d,
{
    if h == 0 || d == 0 || n < 2 * h * d {
        nearest_even(n, d)
    } else {
        proof {
            assert(2 * h * d >= 2 * d) by (nonlinear_arith)
                requires
                    h >= 1,
            ;
        }
        h + magnitude_of(n, 2 * d, h)
    }
}

/// The magnitude field in a format whose infinity has the field `inf`.
pub open spec fn rounded(n: nat, d: nat, h: nat, inf: nat) -> nat {
    if magnitude_of(n, d, h) < inf {
        magnitude_of(n, d, h)
    } else {
        inf
    }
}

/// The significand that a magnitude field stands for.
pub open spec fn significand(mag: nat, h: nat) -> nat {
    if mag < 2 * h {
        mag
    } else {
        mag % h + h
    }
}

/// The number of doublings that a magnitude field stands for.
pub open spec fn doublings(mag: nat, h: nat) -> nat {
    if mag < 2 * h {
        0
    } else {
        (mag / h - 1) as nat
    }
}

/// The value of a magnitude field, in units of the smallest positive number.
pub open spec fn magnitude_value(mag: nat, h: nat) -> nat {
    significand(mag, h) * pow2(doublings(mag, h))
}

proof fn lemma_nearest_even_scales(n: nat, d: nat)
    requires
        d > 0,
    ensures
        nearest_even(2 * n, 2 * d) == nearest_even(n, d),
{
    let q = (n / d) as int;
    let r = (n % d) as int;
    vstd::arithmetic::div_mod::lemma_fundamental_div_mod(n as int, d as int);
    assert(2 * n == q * (2 * d) + 2 * r) by (nonlinear_arith)
        requires
            n == d * q + r,
    ;
    vstd::arithmetic::div_mod::lemma_fundamental_div_mod_converse(
        2 * n as int,
        2 * d as int,
        q,
        2 * r,
    );
}

/// Doubling both sides of the ratio changes nothing.
pub proof fn lemma_magnitude_scales(n: nat, d: nat, h: nat)
    requires
        d > 0,
        h > 0,
    ensures
        magnitude_of(2 * n, 2 * d, h) == magnitude_of(n, d, h),
    decreases n - d,
{
    assert(2 * h * (2 * d) == 2 * (2 * h * d)) by (nonlinear_arith);
    if n < 2 * h * d {
        lemma_nearest_even_scales(n, d);
    } else {
        assert(2 * h * d >= 2 * d) by (nonlinear_arith)
            requires
                h >= 1,
        ;
        lemma_magnitude_scales(n, 2 * d, h);
    }
}

/// Multiplying both sides of the ratio by a power of two changes nothing.
pub proof fn lemma_magnitude_scales_by(n: nat, d: nat, h: nat, k: nat)
    requires
        d > 0,
        h > 0,
    ensures
        magnitude_of(n * pow2(k), d * pow2(k), h) == magnitude_of(n, d, h),
        d * pow2(k) > 0,
    decreases k,
{
    if k == 0 {
        lemma2_to64();
        assert(n * 1 == n && d * 1 == d);
    } else {
        let j = (k - 1) as nat;
        lemma_magnitude_scales_by(n, d, h, j);
        lemma_magnitude_scales(n * pow2(j), d * pow2(j), h);
        lemma_pow2_unfold(k);
        assert(n * pow2(k) == 2 * (n * pow2(j))) by (nonlinear_arith)
            requires
                pow2(k) == 2 * pow2(j),
        ;
        assert(d * pow2(k) == 2 * (d * pow2(j))) by (nonlinear_arith)
            requires
                pow2(k) == 2 * pow2(j),
        ;
    }
}

/// A ratio below one half rounds to zero.
pub proof fn lemma_magnitude_of_less_than_half(n: nat, d: nat, h: nat)
    requires
        h > 0,
        2 * n < d,
    ensures
        magnitude_of(n, d, h) == 0,
{
    assert(2 * h * d >= 2 * d) by (nonlinear_arith)
        requires
            h >= 1,
    ;
    vstd::arithmetic::div_mod::lemma_fundamental_div_mod_converse(n as int, d as int, 0, n as int);
}

/// `2^k`.
pub fn power_of_two(k: u32) -> (r: u128)
    requires
        k < 128,
    ensures
        r == pow2(k as nat),
{
    let mut r: u128 = 1;
    let mut i: u32 = 0;
    proof {
        lemma2_to64();
        lemma_pow2_127();
    }
    while i < k
        invariant
            i <= k < 128,
            r == pow2(i as nat),
            pow2(127) == 0x8000_0000_0000_0000_0000_0000_0000_0000,
        decreases k - i,
    {
        proof {
            lemma_pow2_unfold((i + 1) as nat);
            if i + 1 < 127 {
                lemma_pow2_strictly_increases((i + 1) as nat, 127);
            }
        }
        r = 2 * r;
        i = i + 1;
    }
    r
}

pub proof fn lemma_pow2_127()
    ensures
        pow2(127) == 0x8000_0000_0000_0000_0000_0000_0000_0000,
{
    lemma2_to64();
    lemma2_to64_rest();
    lemma_pow2_adds(64, 63);
    assert(0x1_0000_0000_0000_0000 * 0x8000_0000_0000_0000
        == 0x8000_0000_0000_0000_0000_0000_0000_0000);
}

/// Adds the magnitude of `m / d` to the field `bits`, which has already been counted.
fn finish_rounding(m: u128, d: u128, bits: u64, h: u64, inf: u64) -> (r: u64)
    requires
        0 < h <= 0x10_0000_0000_0000,
        d > 0,
        bits < inf <= 0x7ff0_0000_0000_0000,
    ensures
        r == if bits + magnitude_of(m as nat, d as nat, h as nat) < inf {
            bits + magnitude_of(m as nat, d as nat, h as nat)
        } else {
            inf as int
        },
{
    let mut unit: u128 = d;
    let mut field: u64 = bits;
    let double: u128 = 2 * (h as u128);
    while m / double >= unit
        invariant
            0 < h <= 0x10_0000_0000_0000,
            double == 2 * h,
            0 < unit,
            field < inf <= 0x7ff0_0000_0000_0000,
            bits + magnitude_of(m as nat, d as nat, h as nat) == field + magnitude_of(
                m as nat,
                unit as nat,
                h as nat,
            ),
        decreases m - unit,
    {
        proof {
            vstd::arithmetic::div_mod::lemma_fundamental_div_mod(m as int, double as int);
            assert(2 * h * unit <= m && 2 * unit <= 2 * h * unit) by (nonlinear_arith)
                requires
                    m == double * (m as int / double as int) + m as int % double as int,
                    double == 2 * h,
                    h >= 1,
                    m as int / double as int >= unit,
                    m as int % double as int >= 0,
            ;
        }
        unit = 2 * unit;
        field = field + h;
        if field >= inf {
            return inf;
        }
    }
    proof {
        vstd::arithmetic::div_mod::lemma_fundamental_div_mod(m as int, double as int);
        assert(m < 2 * h * unit) by (nonlinear_arith)
            requires
                m == double * (m as int / double as int) + m as int % double as int,
                double == 2 * h,
                (m as int / double as int) + 1 <= unit,
                (m as int % double as int) < double,
        ;
        vstd::arithmetic::div_mod::lemma_fundamental_div_mod(m as int, unit as int);
        assert(m as int / unit as int <= 2 * h) by (nonlinear_arith)
            requires
                m == unit * (m as int / unit as int) + m as int % unit as int,
                m as int % unit as int >= 0,
                m < 2 * h * unit,
                unit > 0,
        ;
    }
    let q: u64 = (m / unit) as u64;
    let r: u128 = m % unit;
    let up: u64 = if r < unit - r || (r == unit - r && q % 2 == 0) {
        0
    } else {
        1
    };
    let total: u64 = field + q + up;
    if total < inf {
        total
    } else {
        inf
    }
}

/// The magnitude of `m * 2^s / d`.
pub fn round_shifted(m: u128, s: u32, d: u64, h: u64, inf: u64) -> (r: u64)
    requires
        0 < h <= 0x10_0000_0000_0000,
        d > 0,
        0 < inf <= 0x7ff0_0000_0000_0000,
    ensures
        r == rounded(m as nat * pow2(s as nat), d as nat, h as nat, inf as nat),
{
    let double: u128 = 2 * (h as u128);
    let unit: u128 = d as u128;
    let mut n: u128 = m;
    let mut left: u32 = s;
    let mut field: u64 = 0;
    while left > 0
        invariant
            0 < h <= 0x10_0000_0000_0000,
            double == 2 * h,
            unit == d,
            d > 0,
            field < inf <= 0x7ff0_0000_0000_0000,
            magnitude_of(m as nat * pow2(s as nat), d as nat, h as nat) == field + magnitude_of(
                n as nat * pow2(left as nat),
                d as nat,
                h as nat,
            ),
        decreases left,
    {
        let ghost before = n as nat * pow2(left as nat);
        let ghost half = n as nat * pow2((left - 1) as nat);
        proof {
            lemma_pow2_unfold(left as nat);
            lemma_pow2_pos(left as nat);
            assert(before == 2 * half) by (nonlinear_arith)
                requires
                    pow2(left as nat) == 2 * pow2((left - 1) as nat),
                    before == n as nat * pow2(left as nat),
                    half == n as nat * pow2((left - 1) as nat),
            ;
            vstd::arithmetic::div_mod::lemma_fundamental_div_mod(n as int, double as int);
        }
        if n / double >= unit {
            proof {
                assert(2 * h * d <= n) by (nonlinear_arith)
                    requires
                        n == double * (n as int / double as int) + n as int % double as int,
                        double == 2 * h,
                        h >= 1,
                        n as int / double as int >= unit,
                        unit == d,
                        n as int % double as int >= 0,
                ;
                assert(before >= n) by (nonlinear_arith)
                    requires
                        before == n as nat * pow2(left as nat),
                        pow2(left as nat) >= 1,
                ;
                lemma_magnitude_scales(half, d as nat, h as nat);
            }
            field = field + h;
            if field >= inf {
                return inf;
            }
        } else {
            proof {
                assert(n < 2 * h * d) by (nonlinear_arith)
                    requires
                        n == double * (n as int / double as int) + n as int % double as int,
                        double == 2 * h,
                        (n as int / double as int) + 1 <= unit,
                        unit == d,
                        (n as int % double as int) < double,
                ;
                assert(2 * h * d <= 0x20_0000_0000_0000 * 0xffff_ffff_ffff_ffff) by (nonlinear_arith)
                    requires
                        h <= 0x10_0000_0000_0000,
                        d <= 0xffff_ffff_ffff_ffff,
                ;
                assert((2 * n) as nat * pow2((left - 1) as nat) == 2 * half) by (nonlinear_arith)
                    requires
                        half == n as nat * pow2((left - 1) as nat),
                ;
            }
            n = 2 * n;
        }
        left = left - 1;
    }
    proof {
        lemma2_to64();
        assert(n as nat * 1 == n);
    }
    finish_rounding(n, unit, field, h, inf)
}

/// The magnitude of `m / (d * 2^s)`.
pub fn round_divided(m: u128, d: u64, s: u32, h: u64, inf: u64) -> (r: u64)
    requires
        0 < h <= 0x10_0000_0000_0000,
        d > 0,
        m < 0x2000_0000_0000_0000_0000_0000_0000_0000,
        0 < inf <= 0x7ff0_0000_0000_0000,
    ensures
        r == rounded(m as nat, d as nat * pow2(s as nat), h as nat, inf as nat),
{
    let mut unit: u128 = d as u128;
    let mut left: u32 = s;
    while left > 0
        invariant
            0 < h <= 0x10_0000_0000_0000,
            unit > 0,
            m < 0x2000_0000_0000_0000_0000_0000_0000_0000,
            0 < inf <= 0x7ff0_0000_0000_0000,
            d as nat * pow2(s as nat) == unit as nat * pow2(left as nat),
        decreases left,
    {
        proof {
            lemma_pow2_pos(left as nat);
            lemma_pow2_unfold(left as nat);
        }
        if 2 * m < unit {
            proof {
                assert(2 * m < unit as nat * pow2(left as nat)) by (nonlinear_arith)
                    requires
                        2 * m < unit,
                        pow2(left as nat) >= 1,
                ;
                lemma_magnitude_of_less_than_half(
                    m as nat,
                    d as nat * pow2(s as nat),
                    h as nat,
                );
            }
            return 0;
        }
        proof {
            assert((2 * unit) as nat * pow2((left - 1) as nat) == unit as nat * pow2(left as nat))
                by (nonlinear_arith)
                requires
                    pow2(left as nat) == 2 * pow2((left - 1) as nat),
            ;
        }
        unit = 2 * unit;
        left = left - 1;
    }
    proof {
        lemma2_to64();
        assert(unit as nat * 1 == unit);
    }
    finish_rounding(m, unit, 0, h, inf)
}

/// The two formats in use: single precision and double precision.
pub open spec fn is_format(h: u64, inf: u64) -> bool {
    ||| h == 0x80_0000 && inf == 0x7f80_0000
    ||| h == 0x10_0000_0000_0000 && inf == 0x7ff0_0000_0000_0000
}

/// A field stands for a value that rounds to that field.
pub proof fn lemma_magnitude_is_exact(mag: nat, h: nat)
    requires
        h > 0,
    ensures
        magnitude_of(magnitude_value(mag, h), 1, h) == mag,
    decreases mag,
{
    lemma2_to64();
    if mag < 2 * h {
        assert(mag * 1 == mag);
        assert(2 * h * 1 == 2 * h);
        vstd::arithmetic::div_mod::lemma_fundamental_div_mod_converse(mag as int, 1, mag as int, 0);
    } else {
        let below = (mag - h) as nat;
        let k = doublings(mag, h);
        let n = magnitude_value(mag, h);
        lemma_field_below(mag, h);
        lemma_magnitude_is_exact(below, h);
        lemma_magnitude_scales(magnitude_value(below, h), 1, h);
        lemma_pow2_pos(doublings(below, h));
        assert(n >= 2 * h * 1) by (nonlinear_arith)
            requires
                n == 2 * (significand(below, h) * pow2(doublings(below, h))),
                significand(below, h) >= h,
                pow2(doublings(below, h)) >= 1,
        ;
    }
}

/// Above the smallest numbers, `h` fields down the value is half as large.
proof fn lemma_field_below(mag: nat, h: nat)
    requires
        h > 0,
        mag >= 2 * h,
    ensures
        magnitude_value(mag, h) == 2 * magnitude_value((mag - h) as nat, h),
        significand(mag, h) == significand((mag - h) as nat, h),
        doublings(mag, h) == doublings((mag - h) as nat, h) + 1,
        h <= significand(mag, h) < 2 * h,
{
    let below = (mag - h) as nat;
    vstd::arithmetic::div_mod::lemma_fundamental_div_mod(mag as int, h as int);
    let q = mag as int / h as int;
    let r = mag as int % h as int;
    assert(q >= 2) by (nonlinear_arith)
        requires
            mag == h * q + r,
            mag >= 2 * h,
            r < h,
            h > 0,
    ;
    assert(below == h * (q - 1) + r) by (nonlinear_arith)
        requires
            mag == h * q + r,
            below == mag - h,
    ;
    assert(h * (q - 1) == (q - 1) * h) by (nonlinear_arith);
    vstd::arithmetic::div_mod::lemma_fundamental_div_mod_converse(
        below as int,
        h as int,
        q - 1,
        r,
    );
    if below < 2 * h {
        assert(q == 2) by (nonlinear_arith)
            requires
                below == h * (q - 1) + r,
                below < 2 * h,
                q >= 2,
                r >= 0,
                h > 0,
        ;
        assert(below == h + r) by (nonlinear_arith)
            requires
                below == h * (q - 1) + r,
                q == 2,
        ;
    }
    let k = doublings(mag, h);
    lemma_pow2_unfold(k);
    assert(significand(mag, h) * pow2(k) == 2 * (significand(mag, h) * pow2((k - 1) as nat)))
        by (nonlinear_arith)
        requires
            pow2(k) == 2 * pow2((k - 1) as nat),
    ;
}

proof fn lemma_large_ratio_has_large_field(n: nat, d: nat, h: nat)
    requires
        d > 0,
        h > 0,
        n >= h * d,
    ensures
        magnitude_of(n, d, h) >= h,
{
    if n < 2 * h * d {
        vstd::arithmetic::div_mod::lemma_div_is_ordered((h * d) as int, n as int, d as int);
        vstd::arithmetic::div_mod::lemma_div_by_multiple(h as int, d as int);
    }
}

/// Rounding stays close: the value of the field of `n / d` differs from it by at most half of
/// its last place, which is a part in `h` of it, or one where it is small.
pub proof fn lemma_rounding_is_close(n: nat, d: nat, h: nat)
    requires
        d > 0,
        h > 0,
    ensures
        ({
            let v = magnitude_value(magnitude_of(n, d, h), h);
            let most = if n > h * d {
                n
            } else {
                h * d
            };
            &&& 2 * h * (v * d - n) <= most
            &&& 2 * h * (n - v * d) <= most
        }),
    decreases n - d,
{
    let f = magnitude_of(n, d, h);
    let v = magnitude_value(f, h);
    lemma2_to64();
    if n < 2 * h * d {
        let q = (n / d) as int;
        let r = (n % d) as int;
        vstd::arithmetic::div_mod::lemma_fundamental_div_mod(n as int, d as int);
        assert(q < 2 * h) by (nonlinear_arith)
            requires
                n == d * q + r,
                0 <= r,
                n < 2 * h * d,
                d > 0,
        ;
        if f < 2 * h {
            assert(f * 1 == f);
        } else {
            assert(f == 2 * h);
            vstd::arithmetic::div_mod::lemma_fundamental_div_mod_converse(
                f as int,
                h as int,
                2,
                0,
            );
            assert(significand(f, h) == h && doublings(f, h) == 1);
            assert(v == h * pow2(1) && pow2(1) == 2);
            assert(v == f) by (nonlinear_arith)
                requires
                    v == h * pow2(1),
                    pow2(1) == 2,
                    f == 2 * h,
            ;
        }
        assert(v == f);
        assert(2 * (v * d - n) <= d && 2 * (n - v * d) <= d) by (nonlinear_arith)
            requires
                n == d * q + r,
                0 <= r < d,
                (v == q && 2 * r <= d) || (v == q + 1 && 2 * r >= d),
        ;
        assert(2 * h * (v * d - n) <= h * d && 2 * h * (n - v * d) <= h * d) by (nonlinear_arith)
            requires
                2 * (v * d - n) <= d,
                2 * (n - v * d) <= d,
                h > 0,
        ;
    } else {
        assert(2 * h * d >= 2 * d) by (nonlinear_arith)
            requires
                h >= 1,
        ;
        assert(h * (2 * d) == 2 * h * d) by (nonlinear_arith);
        let above = magnitude_of(n, 2 * d, h);
        lemma_large_ratio_has_large_field(n, 2 * d, h);
        assert(f == h + above);
        lemma_field_below(f, h);
        lemma_rounding_is_close(n, 2 * d, h);
        assert(v * d == magnitude_value(above, h) * (2 * d)) by (nonlinear_arith)
            requires
                v == 2 * magnitude_value(above, h),
        ;
        assert(n >= h * d) by (nonlinear_arith)
            requires
                n >= 2 * h * d,
        ;
    }
}

/// A larger field stands for a larger value.
pub proof fn lemma_magnitude_value_increases(a: nat, b: nat, h: nat)
    requires
        h > 0,
        a < b,
    ensures
        magnitude_value(a, h) < magnitude_value(b, h),
    decreases b,
{
    lemma2_to64();
    if b < 2 * h {
        assert(a * 1 == a && b * 1 == b);
    } else if a >= 2 * h {
        lemma_field_below(a, h);
        lemma_field_below(b, h);
        lemma_magnitude_value_increases((a - h) as nat, (b - h) as nat, h);
    } else {
        lemma_field_below(b, h);
        let k = doublings(b, h);
        lemma_pow2_pos((k - 1) as nat);
        lemma_pow2_unfold(k);
        assert(a * 1 == a);
        assert(significand(b, h) * pow2(k) >= 2 * h) by (nonlinear_arith)
            requires
                significand(b, h) >= h,
                pow2(k) >= 2,
        ;
    }
}

proof fn lemma_nearest_even_keeps_order(a: nat, b: nat, d: nat)
    requires
        d > 0,
        a <= b,
    ensures
        nearest_even(a, d) <= nearest_even(b, d),
{
    let qa = (a / d) as int;
    let qb = (b / d) as int;
    vstd::arithmetic::div_mod::lemma_fundamental_div_mod(a as int, d as int);
    vstd::arithmetic::div_mod::lemma_fundamental_div_mod(b as int, d as int);
    vstd::arithmetic::div_mod::lemma_div_is_ordered(a as int, b as int, d as int);
    if qa == qb {
        assert(a % d <= b % d);
    }
}

/// Rounding keeps the order: a larger ratio never has a smaller field.
pub proof fn lemma_rounding_keeps_order(a: nat, b: nat, d: nat, h: nat)
    requires
        d > 0,
        h > 0,
        a <= b,
    ensures
        magnitude_of(a, d, h) <= magnitude_of(b, d, h),
    decreases b - d,
{
    if b < 2 * h * d {
        lemma_nearest_even_keeps_order(a, b, d);
    } else {
        assert(2 * h * d >= 2 * d) by (nonlinear_arith)
            requires
                h >= 1,
        ;
        if a < 2 * h * d {
            let q = (a / d) as int;
            vstd::arithmetic::div_mod::lemma_fundamental_div_mod(a as int, d as int);
            assert(q < 2 * h) by (nonlinear_arith)
                requires
                    a == d * q + a % d,
                    0 <= a % d,
                    a < 2 * h * d,
                    d > 0,
            ;
            assert(h * (2 * d) == 2 * h * d) by (nonlinear_arith);
            lemma_large_ratio_has_large_field(b, 2 * d, h);
        } else {
            lemma_rounding_keeps_order(a, b, 2 * d, h);
        }
    }
}

/// Each doubling of an integer that fills the significand adds `h` to its field.
pub proof fn lemma_field_of_doubled(m: nat, k: nat, h: nat)
    requires
        h > 0,
        m >= h,
    ensures
        magnitude_of(m * pow2(k), 1, h) == k * h + magnitude_of(m, 1, h),
    decreases k,
{
    lemma2_to64();
    if k == 0 {
        assert(m * 1 == m && 0 * h == 0);
    } else {
        let j = (k - 1) as nat;
        lemma_pow2_unfold(k);
        lemma_pow2_pos(j);
        assert(m * pow2(k) == 2 * (m * pow2(j))) by (nonlinear_arith)
            requires
                pow2(k) == 2 * pow2(j),
        ;
        assert(m * pow2(j) >= h) by (nonlinear_arith)
            requires
                m >= h,
                pow2(j) >= 1,
        ;
        assert(2 * h * 1 == 2 * h);
        lemma_magnitude_scales(m * pow2(j), 1, h);
        lemma_field_of_doubled(m, j, h);
        assert(k * h == j * h + h) by (nonlinear_arith)
            requires
                k == j + 1,
        ;
    }
}

/// An integer that fits in the significand is kept exactly, however often it is doubled.
pub proof fn lemma_doubled_is_exact(m: nat, k: nat, h: nat)
    requires
        h > 0,
        m < 2 * h,
    ensures
        magnitude_value(magnitude_of(m * pow2(k), 1, h), h) == m * pow2(k),
    decreases k,
{
    let n = m * pow2(k);
    lemma2_to64();
    assert(2 * h * 1 == 2 * h);
    if n < 2 * h {
        vstd::arithmetic::div_mod::lemma_fundamental_div_mod_converse(n as int, 1, n as int, 0);
        assert(n * 1 == n);
    } else {
        if k == 0 {
            assert(m * 1 == m);
        }
        let j = (k - 1) as nat;
        let half = m * pow2(j);
        let below = magnitude_of(half, 1, h);
        lemma_pow2_unfold(k);
        assert(n == 2 * half) by (nonlinear_arith)
            requires
                n == m * pow2(k),
                pow2(k) == 2 * pow2(j),
                half == m * pow2(j),
        ;
        lemma_magnitude_scales(half, 1, h);
        assert(h * 1 == h);
        lemma_large_ratio_has_large_field(half, 1, h);
        lemma_field_below(h + below, h);
        lemma_doubled_is_exact(m, j, h);
    }
}

/// A distance of less than a quarter of the last place is lost in rounding.
proof fn lemma_small_change_is_absorbed(sig: nat, k: nat, n: nat, d: nat, h: nat)
    requires
        d > 0,
        h > 0,
        h <= sig < 2 * h,
        4 * (n - sig * (pow2(k) * d)) < pow2(k) * d,
        4 * (sig * (pow2(k) * d) - n) < pow2(k) * d,
    ensures
        magnitude_of(n, d, h) == k * h + sig,
    decreases k,
{
    let e = pow2(k) * d;
    lemma2_to64();
    lemma_pow2_pos(k);
    if k == 0 {
        assert(e == d) by (nonlinear_arith)
            requires
                e == pow2(k) * d,
                pow2(k) == 1,
        ;
        lemma_nearest_even_close(n, d, sig);
        assert(n < 2 * h * d) by (nonlinear_arith)
            requires
                4 * (n - sig * d) < d,
                sig + 1 <= 2 * h,
                d > 0,
        ;
        assert(0 * h == 0);
    } else {
        lemma_pow2_unfold(k);
        lemma_pow2_pos((k - 1) as nat);
        assert(pow2((k - 1) as nat) * (2 * d) == e) by (nonlinear_arith)
            requires
                pow2(k) == 2 * pow2((k - 1) as nat),
                e == pow2(k) * d,
        ;
        if n >= 2 * h * d {
            lemma_small_change_is_absorbed(sig, (k - 1) as nat, n, 2 * d, h);
            assert(k * h == (k - 1) * h + h) by (nonlinear_arith);
        } else {
            assert(k == 1) by {
                if k >= 2 {
                    lemma_pow2_unfold((k - 1) as nat);
                    lemma_pow2_pos((k - 2) as nat);
                    assert(e >= 4 * d) by (nonlinear_arith)
                        requires
                            e == pow2(k) * d,
                            pow2(k) >= 4,
                    ;
                    assert(sig * e >= h * e) by (nonlinear_arith)
                        requires
                            sig >= h,
                    ;
                    assert(h * e >= e) by (nonlinear_arith)
                        requires
                            h >= 1,
                    ;
                    assert(h * e >= 4 * (h * d)) by (nonlinear_arith)
                        requires
                            e >= 4 * d,
                            h >= 1,
                    ;
                    assert(2 * h * d == 2 * (h * d)) by (nonlinear_arith);
                }
            }
            assert(e == 2 * d) by (nonlinear_arith)
                requires
                    e == pow2(k) * d,
                    pow2(k) == 2,
            ;
            assert(sig == h) by (nonlinear_arith)
                requires
                    n < 2 * h * d,
                    4 * (sig * e - n) < e,
                    e == 2 * d,
                    sig >= h,
                    d > 0,
            ;
            assert(sig * e == (2 * h) * d) by (nonlinear_arith)
                requires
                    sig == h,
                    e == 2 * d,
            ;
            lemma_nearest_even_close(n, d, 2 * h);
            assert(k * h == h) by (nonlinear_arith)
                requires
                    k == 1,
            ;
        }
    }
}

pub proof fn lemma_nearest_even_close(n: nat, d: nat, q: nat)
    requires
        d > 0,
        2 * (n - q * d) < d,
        2 * (q * d - n) < d,
    ensures
        nearest_even(n, d) == q,
{
    if n >= q * d {
        vstd::arithmetic::div_mod::lemma_fundamental_div_mod_converse(
            n as int,
            d as int,
            q as int,
            n - q * d,
        );
    } else {
        assert(q >= 1) by (nonlinear_arith)
            requires
                0 <= n < q * d,
                d > 0,
        ;
        assert(n == (q - 1) * d + (n - (q - 1) * d) && (q - 1) * d == q * d - d) by (nonlinear_arith);
        vstd::arithmetic::div_mod::lemma_fundamental_div_mod_converse(
            n as int,
            d as int,
            q - 1,
            n - (q - 1) * d,
        );
    }
}

/// Splits a field into its significand and its number of doublings.
pub fn split_magnitude(mag: u64, h: u64, inf: u64) -> (r: (u64, u32))
    requires
        is_format(h, inf),
        mag < inf,
    ensures
        r.0 == significand(mag as nat, h as nat),
        r.1 == doublings(mag as nat, h as nat),
        r.0 < 2 * h,
        r.1 <= 2045,
        mag >= h ==> r.0 >= h,
        magnitude_value(mag as nat, h as nat) == r.0 as nat * pow2(r.1 as nat),
{
    if mag < 2 * h {
        (mag, 0)
    } else {
        (mag % h + h, (mag / h - 1) as u32)
    }
}

/// The field of the sum, or of the difference, of the values of two fields.
pub fn add_magnitudes(a: u64, b: u64, subtract: bool, h: u64, inf: u64) -> (r: u64)
    requires
        is_format(h, inf),
        b <= a < inf,
    ensures
        magnitude_value(b as nat, h as nat) <= magnitude_value(a as nat, h as nat),
        r == rounded(
            if subtract {
                (magnitude_value(a as nat, h as nat) - magnitude_value(b as nat, h as nat)) as nat
            } else {
                magnitude_value(a as nat, h as nat) + magnitude_value(b as nat, h as nat)
            },
            1,
            h as nat,
            inf as nat,
        ),
{
    let (sa, ka) = split_magnitude(a, h, inf);
    let (sb, kb) = split_magnitude(b, h, inf);
    let ghost va = magnitude_value(a as nat, h as nat);
    let ghost vb = magnitude_value(b as nat, h as nat);
    proof {
        if b < a {
            lemma_magnitude_value_increases(b as nat, a as nat, h as nat);
        }
        lemma_doublings_ordered(b as nat, a as nat, h as nat);
        lemma_pow2_pos(kb as nat);
    }
    let diff: u32 = ka - kb;
    if diff <= 64 {
        let scale: u128 = power_of_two(diff);
        proof {
            lemma2_to64();
            lemma2_to64_rest();
            if diff < 64 {
                lemma_pow2_strictly_increases(diff as nat, 64);
            }
            lemma_pow2_adds(diff as nat, kb as nat);
            assert(sa * scale <= 0x20_0000_0000_0000 * 0x1_0000_0000_0000_0000) by (nonlinear_arith)
                requires
                    sa <= 0x20_0000_0000_0000,
                    scale <= 0x1_0000_0000_0000_0000,
            ;
            assert((sa * scale) * pow2(kb as nat) == va) by (nonlinear_arith)
                requires
                    va == sa as nat * pow2(ka as nat),
                    pow2(ka as nat) == scale * pow2(kb as nat),
            ;
            if sa * scale < sb {
                assert(false) by (nonlinear_arith)
                    requires
                        sa * scale + 1 <= sb,
                        (sa * scale) * pow2(kb as nat) == va,
                        vb == sb as nat * pow2(kb as nat),
                        vb <= va,
                        pow2(kb as nat) >= 1,
                ;
            }
            assert((sa * scale - sb) * pow2(kb as nat) == va - vb) by (nonlinear_arith)
                requires
                    (sa * scale) * pow2(kb as nat) == va,
                    vb == sb as nat * pow2(kb as nat),
            ;
            assert((sa * scale + sb) * pow2(kb as nat) == va + vb) by (nonlinear_arith)
                requires
                    (sa * scale) * pow2(kb as nat) == va,
                    vb == sb as nat * pow2(kb as nat),
            ;
        }
        let aligned: u128 = sa as u128 * scale;
        let m: u128 = if subtract {
            aligned - sb as u128
        } else {
            aligned + sb as u128
        };
        round_shifted(m, kb, 1, h, inf)
    } else {
        proof {
            let e = pow2(ka as nat);
            lemma_pow2_adds(diff as nat, kb as nat);
            lemma_pow2_strictly_increases(64, diff as nat);
            lemma2_to64();
            lemma2_to64_rest();
            assert(4 * vb < e) by (nonlinear_arith)
                requires
                    vb == sb as nat * pow2(kb as nat),
                    sb <= 0x20_0000_0000_0000,
                    e == pow2(diff as nat) * pow2(kb as nat),
                    pow2(diff as nat) > 0x1_0000_0000_0000_0000,
                    pow2(kb as nat) >= 1,
            ;
            assert(a >= 2 * h);
            assert(e * 1 == e);
            let n = if subtract {
                (va - vb) as nat
            } else {
                va + vb
            };
            lemma_small_change_is_absorbed(sa as nat, ka as nat, n, 1, h as nat);
            vstd::arithmetic::div_mod::lemma_fundamental_div_mod(a as int, h as int);
            assert(ka * h + sa == a) by (nonlinear_arith)
                requires
                    a == h * (a as int / h as int) + a as int % h as int,
                    ka == a as int / h as int - 1,
                    sa == a as int % h as int + h,
            ;
        }
        a
    }
}

proof fn lemma_doublings_ordered(b: nat, a: nat, h: nat)
    requires
        h > 0,
        b <= a,
    ensures
        doublings(b, h) <= doublings(a, h),
{
    vstd::arithmetic::div_mod::lemma_div_is_ordered(b as int, a as int, h as int);
    if b >= 2 * h {
        vstd::arithmetic::div_mod::lemma_div_is_ordered(2 * h as int, b as int, h as int);
        vstd::arithmetic::div_mod::lemma_div_by_multiple(2, h as int);
    }
}

/// The field of the product of the values of two fields, the unit being `2^-u`.
pub fn multiply_magnitudes(a: u64, b: u64, u: u32, h: u64, inf: u64) -> (r: u64)
    requires
        is_format(h, inf),
        a < inf,
        b < inf,
        u <= 2000,
    ensures
        r == rounded(
            magnitude_value(a as nat, h as nat) * magnitude_value(b as nat, h as nat),
            pow2(u as nat),
            h as nat,
            inf as nat,
        ),
{
    let (sa, ka) = split_magnitude(a, h, inf);
    let (sb, kb) = split_magnitude(b, h, inf);
    let ghost va = magnitude_value(a as nat, h as nat);
    let ghost vb = magnitude_value(b as nat, h as nat);
    proof {
        assert(sa * sb <= 0x20_0000_0000_0000 * 0x20_0000_0000_0000) by (nonlinear_arith)
            requires
                sa <= 0x20_0000_0000_0000,
                sb <= 0x20_0000_0000_0000,
        ;
        lemma_pow2_adds(ka as nat, kb as nat);
        assert(va * vb == (sa * sb) as nat * pow2((ka + kb) as nat)) by (nonlinear_arith)
            requires
                va == sa as nat * pow2(ka as nat),
                vb == sb as nat * pow2(kb as nat),
                pow2((ka + kb) as nat) == pow2(ka as nat) * pow2(kb as nat),
        ;
    }
    let p: u128 = sa as u128 * sb as u128;
    let k: u32 = ka + kb;
    if k >= u {
        proof {
            let n = p as nat * pow2((k - u) as nat);
            lemma_magnitude_scales_by(n, 1, h as nat, u as nat);
            lemma_pow2_adds((k - u) as nat, u as nat);
            assert(n * pow2(u as nat) == p as nat * pow2(k as nat)) by (nonlinear_arith)
                requires
                    n == p as nat * pow2((k - u) as nat),
                    pow2(k as nat) == pow2((k - u) as nat) * pow2(u as nat),
            ;
            assert(1 * pow2(u as nat) == pow2(u as nat));
        }
        round_shifted(p, k - u, 1, h, inf)
    } else {
        proof {
            let d = 1 * pow2((u - k) as nat);
            lemma_pow2_pos((u - k) as nat);
            lemma_magnitude_scales_by(p as nat, d, h as nat, k as nat);
            lemma_pow2_adds((u - k) as nat, k as nat);
        }
        round_divided(p, 1, u - k, h, inf)
    }
}

/// The field of the quotient of the values of two fields, the unit being `2^-u`.
pub fn divide_magnitudes(a: u64, b: u64, u: u32, h: u64, inf: u64) -> (r: u64)
    requires
        is_format(h, inf),
        a < inf,
        0 < b < inf,
        u <= 2000,
    ensures
        magnitude_value(b as nat, h as nat) > 0,
        r == rounded(
            magnitude_value(a as nat, h as nat) * pow2(u as nat),
            magnitude_value(b as nat, h as nat),
            h as nat,
            inf as nat,
        ),
{
    let (sa, ka) = split_magnitude(a, h, inf);
    let (sb, kb) = split_magnitude(b, h, inf);
    let ghost va = magnitude_value(a as nat, h as nat);
    let ghost vb = magnitude_value(b as nat, h as nat);
    let k: u32 = ka + u;
    proof {
        lemma_magnitude_value_increases(0, b as nat, h as nat);
        lemma_pow2_adds(ka as nat, u as nat);
        assert(va * pow2(u as nat) == sa as nat * pow2(k as nat)) by (nonlinear_arith)
            requires
                va == sa as nat * pow2(ka as nat),
                pow2(k as nat) == pow2(ka as nat) * pow2(u as nat),
        ;
    }
    if k >= kb {
        proof {
            let n = sa as nat * pow2((k - kb) as nat);
            lemma_magnitude_scales_by(n, sb as nat, h as nat, kb as nat);
            lemma_pow2_adds((k - kb) as nat, kb as nat);
            assert(n * pow2(kb as nat) == sa as nat * pow2(k as nat)) by (nonlinear_arith)
                requires
                    n == sa as nat * pow2((k - kb) as nat),
                    pow2(k as nat) == pow2((k - kb) as nat) * pow2(kb as nat),
            ;
        }
        round_shifted(sa as u128, k - kb, sb, h, inf)
    } else {
        proof {
            let d = sb as nat * pow2((kb - k) as nat);
            lemma_pow2_pos((kb - k) as nat);
            assert(d > 0) by (nonlinear_arith)
                requires
                    d == sb as nat * pow2((kb - k) as nat),
                    sb > 0,
                    pow2((kb - k) as nat) > 0,
            ;
            lemma_magnitude_scales_by(sa as nat, d, h as nat, k as nat);
            lemma_pow2_adds((kb - k) as nat, k as nat);
            assert(d * pow2(k as nat) == vb) by (nonlinear_arith)
                requires
                    d == sb as nat * pow2((kb - k) as nat),
                    vb == sb as nat * pow2(kb as nat),
                    pow2(kb as nat) == pow2((kb - k) as nat) * pow2(k as nat),
            ;
        }
        round_divided(sa as u128, sb, kb - k, h, inf)
    }
}

} // verus!
