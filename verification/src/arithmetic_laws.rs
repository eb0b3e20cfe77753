//! How far the rounded operations are from the exact ones.
//!
//! Values are integers, in units of `2^-149`.
use crate::binary32;
use crate::binary32::{Binary32, HIDDEN_BIT, INFINITE_FIELD};
use crate::rounding;
use vstd::arithmetic::power2::*;
use vstd::prelude::*;

verus! {

/// How large a number is without its sign.
pub open spec fn size(x: Binary32) -> nat {
    binary32::distance_from_zero(x.value())
}

/// How far apart two integers are.
pub open spec fn apart(a: int, b: int) -> nat {
    binary32::distance_from_zero(a - b)
}

/// The larger of two integers.
pub open spec fn larger_of(a: int, b: int) -> int {
    if a > b {
        a
    } else {
        b
    }
}

proof fn lemma_size(x: Binary32)
    ensures
        size(x) == rounding::magnitude_value(x.magnitude(), HIDDEN_BIT as nat),
        x.negative() ==> x.value() == -(size(x) as int),
        !x.negative() ==> x.value() == size(x),
        size(x) == 0 <==> x.magnitude() == 0,
{
    crate::ieee::lemma_magnitude_value_of_zero(x.magnitude(), HIDDEN_BIT as nat);
}

/// An integer below `2^24` either way is kept exactly.
pub proof fn lemma_integer_is_exact(n: int)
    requires
        -0x100_0000 < n < 0x100_0000,
    ensures
        binary32::of_int(n).finite(),
        binary32::of_int(n).value() == n * pow2(149),
        binary32::of_int(n).negative() <==> n < 0,
{
    reveal(binary32::of_int);
    let h = HIDDEN_BIT as nat;
    let unit = pow2(149);
    lemma_pow2_pos(149);
    lemma2_to64();
    if n == 0 {
        assert(0 * unit == 0) by (nonlinear_arith);
        assert(rounding::magnitude_value(0, h) == 0) by {
            crate::ieee::lemma_magnitude_value_of_zero(0, h);
        }
    } else {
        let m = binary32::distance_from_zero(n);
        let f = rounding::magnitude_of(m * unit, 1, h);
        rounding::lemma_doubled_is_exact(m, 149, h);
        assert((n * unit < 0 <==> n < 0) && n * unit == if n < 0 {
            -(m * unit)
        } else {
            m * unit as int
        }) by (nonlinear_arith)
            requires
                unit > 0,
                m == if n < 0 {
                    -n
                } else {
                    n
                },
        ;
        let most = Binary32::from_bits(0x4b80_0000);
        binary32::lemma_value_of(most, 0x80_0000, 150);
        lemma_pow2_unfold(150);
        assert(m * unit <= 0x100_0000 * unit) by (nonlinear_arith)
            requires
                m <= 0x100_0000,
                unit > 0,
        ;
        if f >= 0x4b80_0000 {
            if f > 0x4b80_0000 {
                rounding::lemma_magnitude_value_increases(0x4b80_0000, f, h);
            }
            assert(0x80_0000 * pow2(150) == 0x100_0000 * unit) by (nonlinear_arith)
                requires
                    pow2(150) == 2 * unit,
            ;
            assert(m * unit < 0x100_0000 * unit) by (nonlinear_arith)
                requires
                    m < 0x100_0000,
                    unit > 0,
            ;
        }
        assert(f < INFINITE_FIELD);
    }
}

/// A sum differs from the exact one by at most a part in `2^24` of it.
pub proof fn lemma_sum_is_close(a: Binary32, b: Binary32)
    requires
        a.finite(),
        b.finite(),
        a.sum(b).finite(),
    ensures
        ({
            let e = a.value() + b.value();
            0x100_0000 * apart(a.sum(b).value(), e) <= binary32::distance_from_zero(e)
        }),
{
    reveal(Binary32::sum);
    let h = HIDDEN_BIT as nat;
    let e = a.value() + b.value();
    let n = binary32::distance_from_zero(e);
    let r = a.sum(b);
    lemma_size(r);
    if e != 0 {
        rounding::lemma_rounding_is_close(n, 1, h);
        let v = rounding::magnitude_value(rounding::magnitude_of(n, 1, h), h);
        assert(v * 1 == v && h * 1 == h);
        assert(size(r) == v);
        assert(r.negative() == (e < 0));
    }
}

/// A product has the sign of its factors together and differs from the exact one by at most a
/// part in `2^24` of it, or half a unit where it is small.
pub proof fn lemma_product_is_close(a: Binary32, b: Binary32)
    requires
        a.finite(),
        b.finite(),
        a.product(b).finite(),
    ensures
        ({
            let n = (size(a) * size(b)) as int;
            let d = pow2(149) as int;
            0x100_0000 * apart(size(a.product(b)) * d, n) <= larger_of(n, 0x80_0000 * d)
        }),
        a.product(b).negative() == (a.negative() != b.negative()),
{
    reveal(Binary32::product);
    let h = HIDDEN_BIT as nat;
    let n = size(a) * size(b);
    let d = pow2(149);
    lemma_pow2_pos(149);
    lemma_size(a);
    lemma_size(b);
    lemma_size(a.product(b));
    rounding::lemma_rounding_is_close(n, d, h);
}

/// A quotient has the sign of its parts together and differs from the exact one by at most a
/// part in `2^24` of it, or half a unit where it is small.
pub proof fn lemma_quotient_is_close(a: Binary32, b: Binary32)
    requires
        a.finite(),
        b.finite(),
        b.value() != 0,
        a.quotient(b).finite(),
    ensures
        ({
            let n = (size(a) * pow2(149)) as int;
            let d = size(b) as int;
            0x100_0000 * apart(size(a.quotient(b)) * d, n) <= larger_of(n, 0x80_0000 * d)
        }),
        a.quotient(b).negative() == (a.negative() != b.negative()),
{
    reveal(Binary32::quotient);
    let h = HIDDEN_BIT as nat;
    let n = size(a) * pow2(149);
    let d = size(b);
    lemma_size(a);
    lemma_size(b);
    lemma_size(a.quotient(b));
    rounding::lemma_rounding_is_close(n, d, h);
}

proof fn lemma_nearest_even_of_multiple(n: nat, d: nat, c: nat)
    requires
        d > 0,
        c > 0,
    ensures
        rounding::nearest_even(n * c, d * c) == rounding::nearest_even(n, d),
{
    let q = (n / d) as int;
    let r = (n % d) as int;
    vstd::arithmetic::div_mod::lemma_fundamental_div_mod(n as int, d as int);
    assert(n * c == q * (d * c) + r * c && 0 <= r * c < d * c) by (nonlinear_arith)
        requires
            n == d * q + r,
            0 <= r < d,
            c > 0,
    ;
    vstd::arithmetic::div_mod::lemma_fundamental_div_mod_converse(
        (n * c) as int,
        (d * c) as int,
        q,
        r * c,
    );
    assert((2 * r < d <==> 2 * (r * c) < d * c) && (2 * r == d <==> 2 * (r * c) == d * c))
        by (nonlinear_arith)
        requires
            c > 0,
    ;
}

/// A common factor of both sides of a ratio leaves its field as it is.
pub proof fn lemma_common_factor_is_dropped(n: nat, d: nat, c: nat, h: nat)
    requires
        d > 0,
        c > 0,
        h > 0,
    ensures
        rounding::magnitude_of(n * c, d * c, h) == rounding::magnitude_of(n, d, h),
    decreases n - d,
{
    assert(d * c > 0) by (nonlinear_arith)
        requires
            d > 0,
            c > 0,
    ;
    assert(n < 2 * h * d <==> n * c < 2 * h * (d * c)) by (nonlinear_arith)
        requires
            c > 0,
    ;
    if n < 2 * h * d {
        lemma_nearest_even_of_multiple(n, d, c);
    } else {
        assert(2 * h * d >= 2 * d) by (nonlinear_arith)
            requires
                h >= 1,
        ;
        lemma_common_factor_is_dropped(n, 2 * d, c, h);
        assert((2 * d) * c == 2 * (d * c)) by (nonlinear_arith);
    }
}

/// A quotient does not exceed a number that the exact quotient does not exceed.
pub proof fn lemma_quotient_at_most(a: Binary32, b: Binary32, most: Binary32)
    requires
        a.finite() && b.finite() && most.finite(),
        b.value() != 0,
        !most.negative(),
        size(a) * pow2(149) <= size(most) * size(b),
    ensures
        a.quotient(b).finite(),
        size(a.quotient(b)) <= size(most),
{
    reveal(Binary32::quotient);
    let h = HIDDEN_BIT as nat;
    lemma_size(a);
    lemma_size(b);
    lemma_size(most);
    let d = size(b);
    rounding::lemma_magnitude_is_exact(most.magnitude(), h);
    lemma_common_factor_is_dropped(size(most), 1, d, h);
    assert(1 * d == d);
    rounding::lemma_rounding_keeps_order(size(a) * pow2(149), size(most) * d, d, h);
    let r = a.quotient(b);
    assert(r.magnitude() <= most.magnitude());
    lemma_size(r);
    if r.magnitude() < most.magnitude() {
        rounding::lemma_magnitude_value_increases(r.magnitude(), most.magnitude(), h);
    }
}

/// An integer of up to 64 bits is kept to a part in `2^24`.
pub proof fn lemma_integer_is_close(n: int)
    requires
        -0x1_0000_0000_0000_0000 <= n <= 0x1_0000_0000_0000_0000,
    ensures
        binary32::of_int(n).finite(),
        binary32::of_int(n).negative() <==> n < 0,
        ({
            let e = (binary32::distance_from_zero(n) * pow2(149)) as int;
            0x100_0000 * apart(size(binary32::of_int(n)) as int, e) <= e
        }),
{
    let h = HIDDEN_BIT as nat;
    let unit = pow2(149);
    let m = binary32::distance_from_zero(n);
    lemma_pow2_pos(149);
    lemma2_to64();
    lemma2_to64_rest();
    if n == 0 {
        lemma_integer_is_exact(0);
        assert(0 * unit == 0) by (nonlinear_arith);
    } else {
        reveal(binary32::of_int);
        let most = Binary32::from_bits(0x5f80_0000);
        binary32::lemma_value_of(most, 0x80_0000, 190);
        lemma_pow2_adds(190, 23);
        lemma_pow2_adds(149, 64);
        assert(m * unit <= most.value()) by (nonlinear_arith)
            requires
                m <= 0x1_0000_0000_0000_0000,
                unit > 0,
                most.value() == 0x80_0000 * pow2(190),
                pow2(190) * pow2(23) == pow2(213),
                pow2(23) == 0x80_0000,
                unit * pow2(64) == pow2(213),
                pow2(64) == 0x1_0000_0000_0000_0000,
        ;
        assert((n * unit < 0 <==> n < 0) && m * unit == if n < 0 {
            -(n * unit)
        } else {
            n * unit
        }) by (nonlinear_arith)
            requires
                unit > 0,
                n != 0,
                m == if n < 0 {
                    -n
                } else {
                    n
                },
        ;
        assert(m * unit > 0) by (nonlinear_arith)
            requires
                m > 0,
                unit > 0,
        ;
        rounding::lemma_magnitude_is_exact(most.magnitude(), h);
        rounding::lemma_rounding_keeps_order(m * unit, most.value() as nat, 1, h);
        rounding::lemma_rounding_is_close(m * unit, 1, h);
        let r = binary32::of_int(n);
        lemma_size(r);
        let v = rounding::magnitude_value(rounding::magnitude_of(m * unit, 1, h), h);
        assert(v * 1 == v && h * 1 == h);
        assert(size(r) == v);
    }
}

} // verus!
