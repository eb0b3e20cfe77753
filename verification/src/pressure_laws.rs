//! What a reading of the pressure sensor comes to.
//!
//! Values are integers, in units of `2^-149`; `pow2(149)` of them are a volt, a psi or a bar.
use crate::arithmetic_laws;
use crate::binary32;
use crate::binary32::Binary32;
use crate::convert;
use crate::ieee;
use crate::sensors::pressure;
use crate::telemetry_math;
use vstd::arithmetic::power2::*;
use vstd::prelude::*;

verus! {

proof fn lemma_unit_is_large()
    ensures
        pow2(149) >= 0x1_0000_0000_0000_0000,
{
    lemma2_to64();
    lemma2_to64_rest();
    lemma_pow2_adds(64, 85);
    lemma_pow2_pos(85);
    assert(pow2(149) >= 0x1_0000_0000_0000_0000) by (nonlinear_arith)
        requires
            pow2(149) == pow2(64) * pow2(85),
            pow2(64) == 0x1_0000_0000_0000_0000,
            pow2(85) >= 1,
    ;
}

proof fn lemma_constants()
    ensures
        ({
            let u = pow2(149) as int;
            &&& Binary32::from_bits(0x457f_f000).value() == 4095 * u
            &&& 0x40_0000 * Binary32::from_bits(0x4053_3333).value() == 13841203 * u
            &&& 0x200_0000 * Binary32::from_bits(0x3eb3_3333).value() == 11744051 * u
            &&& Binary32::from_bits(0x4000_0000).value() == 2 * u
            &&& 2 * Binary32::from_bits(0x4090_0000).value() == 9 * u
            &&& Binary32::from_bits(0x437a_0000).value() == 250 * u
            &&& 0x800_0000 * Binary32::from_bits(0x3d8d_3466).value() == 9253990 * u
            &&& Binary32::from_bits(0x447a_0000).value() == 1000 * u
        }),
{
    let u = pow2(149) as int;
    lemma2_to64();
    binary32::lemma_value_of(Binary32::from_bits(0x457f_f000), 0xff_f000, 137);
    binary32::lemma_value_of(Binary32::from_bits(0x4053_3333), 13841203, 127);
    binary32::lemma_value_of(Binary32::from_bits(0x3eb3_3333), 11744051, 124);
    binary32::lemma_value_of(Binary32::from_bits(0x4000_0000), 0x80_0000, 127);
    binary32::lemma_value_of(Binary32::from_bits(0x4090_0000), 0x90_0000, 128);
    binary32::lemma_value_of(Binary32::from_bits(0x437a_0000), 0xfa_0000, 133);
    binary32::lemma_value_of(Binary32::from_bits(0x3d8d_3466), 9253990, 122);
    binary32::lemma_value_of(Binary32::from_bits(0x447a_0000), 0xfa_0000, 135);
    lemma_pow2_adds(137, 12);
    lemma_pow2_adds(127, 22);
    lemma_pow2_adds(124, 25);
    lemma_pow2_adds(128, 21);
    lemma_pow2_adds(133, 16);
    lemma_pow2_adds(122, 27);
    lemma_pow2_adds(135, 14);
    let a = pow2(137) as int;
    let b = pow2(127) as int;
    let c = pow2(124) as int;
    let d = pow2(128) as int;
    let e = pow2(133) as int;
    let f = pow2(122) as int;
    let g = pow2(135) as int;
    assert(a * 0x1000 == u && b * 0x40_0000 == u && c * 0x200_0000 == u && d * 0x20_0000 == u && e
        * 0x1_0000 == u && f * 0x800_0000 == u && g * 0x4000 == u);
}

/// A raw reading stands for its share of 4095, of 3.3 V, to a millionth.
pub proof fn lemma_voltage_of_raw_reading(raw: u16)
    ensures
        ({
            let v = telemetry_math::voltage(raw);
            let e = 33 * raw * pow2(149);
            &&& v.finite()
            &&& !v.negative()
            &&& 1_000_000 * arithmetic_laws::apart(40950 * v.value(), e) <= e
        }),
{
    let u = pow2(149) as int;
    let n = raw as int;
    let a = binary32::of_int(n);
    let full = Binary32::from_bits(0x457f_f000);
    let reference = Binary32::from_bits(0x4053_3333);
    let r = reference.value();
    lemma_constants();
    lemma_unit_is_large();
    arithmetic_laws::lemma_integer_is_exact(n);
    let nu = n * u;
    assert(nu >= 0) by (nonlinear_arith)
        requires
            nu == n * u,
            n >= 0,
            u > 0,
    ;
    assert(nu * u <= nu * (4095 * u)) by (nonlinear_arith)
        requires
            nu >= 0,
            u > 0,
    ;
    arithmetic_laws::lemma_quotient_at_most(a, full, a);
    arithmetic_laws::lemma_quotient_is_close(a, full);
    let share = a.quotient(full);
    let q = arithmetic_laws::size(share) as int;
    assert(share.value() == q);
    let most = binary32::of_int(4 * n);
    arithmetic_laws::lemma_integer_is_exact(4 * n);
    let mv = most.value();
    assert(mv == 4 * nu) by (nonlinear_arith)
        requires
            mv == 4 * n * u,
            nu == n * u,
    ;
    assert(q * r <= mv * u) by (nonlinear_arith)
        requires
            0 <= q <= nu,
            0 <= r <= 4 * u,
            mv == 4 * nu,
    ;
    assert(q * r >= 0) by (nonlinear_arith)
        requires
            q >= 0,
            r >= 0,
    ;
    binary32::lemma_product_at_most(share, reference, most);
    arithmetic_laws::lemma_product_is_close(share, reference);
    let v = share.product(reference);
    let vv = v.value();
    assert(vv == arithmetic_laws::size(v));
    if n == 0 {
        assert(nu == 0) by (nonlinear_arith)
            requires
                nu == n * u,
                n == 0,
        ;
        assert(nu * u == 0) by (nonlinear_arith)
            requires
                nu == 0,
        ;
        assert(q * r == 0) by (nonlinear_arith)
            requires
                q == 0,
        ;
        assert(vv == 0) by (nonlinear_arith)
            requires
                0x100_0000 * (vv * u - q * r) <= 0x80_0000 * u,
                q * r == 0,
                u > 0,
                vv >= 0,
        ;
    } else {
        assert(nu >= u) by (nonlinear_arith)
            requires
                nu == n * u,
                n >= 1,
                u > 0,
        ;
        assert(0x100_0000 * (4095 * q - nu) <= nu && 0x100_0000 * (nu - 4095 * q) <= nu)
            by (nonlinear_arith)
            requires
                u > 0,
                nu >= 0x80_0000 * 4095,
                0x100_0000 * (q * (4095 * u) - nu * u) <= arithmetic_laws::larger_of(
                    nu * u,
                    0x80_0000 * (4095 * u),
                ),
                0x100_0000 * (nu * u - q * (4095 * u)) <= arithmetic_laws::larger_of(
                    nu * u,
                    0x80_0000 * (4095 * u),
                ),
        ;
        let x = vv * u;
        let b = q * r;
        let c = nu * r;
        let d = nu * u;
        assert(0x100_0000 * (4095 * b - c) <= c && 0x100_0000 * (c - 4095 * b) <= c)
            by (nonlinear_arith)
            requires
                r >= 0,
                b == q * r,
                c == nu * r,
                0x100_0000 * (4095 * q - nu) <= nu,
                0x100_0000 * (nu - 4095 * q) <= nu,
        ;
        assert(0x100_0000 * (33 * d - 10 * c) <= 33 * d && 0x100_0000 * (10 * c - 33 * d) <= 33 * d)
            by (nonlinear_arith)
            requires
                nu >= 0,
                c == nu * r,
                d == nu * u,
                0x100_0000 * (33 * u - 10 * r) <= 33 * u,
                0x100_0000 * (10 * r - 33 * u) <= 33 * u,
        ;
        assert(d >= 0x1_0000_0000_0000 * u) by (nonlinear_arith)
            requires
                d == nu * u,
                nu >= 0x1_0000_0000_0000,
                u > 0,
        ;
        assert(4000 * b >= 0x80_0000 * u);
        assert(b >= 0x80_0000 * u);
        assert(0x100_0000 * (x - b) <= b && 0x100_0000 * (b - x) <= b);
        assert(1_000_000 * (40950 * x - 33 * d) <= 33 * d);
        assert(1_000_000 * (33 * d - 40950 * x) <= 33 * d);
        let over = 1_000_000 * (40950 * vv - 33 * nu) - 33 * nu;
        let under = 1_000_000 * (33 * nu - 40950 * vv) - 33 * nu;
        assert(over * u == 1_000_000 * (40950 * x - 33 * d) - 33 * d && under * u == 1_000_000 * (33
            * d - 40950 * x) - 33 * d) by (nonlinear_arith)
            requires
                over == 1_000_000 * (40950 * vv - 33 * nu) - 33 * nu,
                under == 1_000_000 * (33 * nu - 40950 * vv) - 33 * nu,
                x == vv * u,
                d == nu * u,
        ;
        assert(over <= 0) by (nonlinear_arith)
            requires
                over * u <= 0,
                u > 0,
        ;
        assert(under <= 0) by (nonlinear_arith)
            requires
                under * u <= 0,
                u > 0,
        ;
    }
    assert(33 * raw * u == 33 * nu) by (nonlinear_arith)
        requires
            nu == raw * u,
    ;
}

/// How many psi a volt stands for: 250 over 4.15.
proof fn lemma_slope()
    ensures
        ({
            let k = telemetry_math::psi_per_volt();
            let u = pow2(149) as int;
            &&& k.finite()
            &&& !k.negative()
            &&& 4_000_000 * (415 * k.value() - 25000 * u) <= 25000 * u
            &&& 4_000_000 * (25000 * u - 415 * k.value()) <= 25000 * u
        }),
{
    let u = pow2(149) as int;
    let top = Binary32::from_bits(0x4090_0000);
    let zero_volts = Binary32::from_bits(0x3eb3_3333);
    let psi = Binary32::from_bits(0x437a_0000);
    lemma_constants();
    lemma_unit_is_large();
    binary32::lemma_difference_is_finite(top, zero_volts);
    assert(zero_volts.negated().value() == -zero_volts.value());
    arithmetic_laws::lemma_sum_is_close(top, zero_volts.negated());
    let span = top.difference(zero_volts);
    let s = span.value();
    assert(4 * u <= s <= 5 * u);
    let most = psi;
    assert((250 * u) * u <= (250 * u) * s) by (nonlinear_arith)
        requires
            u <= s,
            u > 0,
    ;
    arithmetic_laws::lemma_quotient_at_most(psi, span, most);
    arithmetic_laws::lemma_quotient_is_close(psi, span);
    let q = psi.quotient(span);
    let k = arithmetic_laws::size(q) as int;
    assert(q.value() == k);
    let ks = k * s;
    let uu = u * u;
    assert((250 * u) * u == 250 * uu) by (nonlinear_arith)
        requires
            uu == u * u,
    ;
    assert(uu >= 0x1_0000_0000_0000 * u) by (nonlinear_arith)
        requires
            uu == u * u,
            u >= 0x1_0000_0000_0000,
    ;
    assert(0x100_0000 * (ks - 250 * uu) <= 250 * uu && 0x100_0000 * (250 * uu - ks) <= 250 * uu);
    let ku = k * u;
    assert(10_000_000 * (100 * ks - 415 * ku) <= 415 * ku && 10_000_000 * (415 * ku - 100 * ks)
        <= 415 * ku) by (nonlinear_arith)
        requires
            k >= 0,
            ks == k * s,
            ku == k * u,
            10_000_000 * (100 * s - 415 * u) <= 415 * u,
            10_000_000 * (415 * u - 100 * s) <= 415 * u,
    ;
    assert(4_000_000 * (415 * ku - 25000 * uu) <= 25000 * uu);
    assert(4_000_000 * (25000 * uu - 415 * ku) <= 25000 * uu);
    let over = 4_000_000 * (415 * k - 25000 * u) - 25000 * u;
    let under = 4_000_000 * (25000 * u - 415 * k) - 25000 * u;
    assert(over * u == 4_000_000 * (415 * ku - 25000 * uu) - 25000 * uu && under * u == 4_000_000
        * (25000 * uu - 415 * ku) - 25000 * uu) by (nonlinear_arith)
        requires
            over == 4_000_000 * (415 * k - 25000 * u) - 25000 * u,
            under == 4_000_000 * (25000 * u - 415 * k) - 25000 * u,
            ku == k * u,
            uu == u * u,
    ;
    assert(over <= 0) by (nonlinear_arith)
        requires
            over * u <= 0,
            u > 0,
    ;
    assert(under <= 0) by (nonlinear_arith)
        requires
            under * u <= 0,
            u > 0,
    ;
    ieee::lemma_magnitude_value_of_zero(0, binary32::HIDDEN_BIT as nat);
    binary32::lemma_order_is_by_value(binary32::zero(), q);
}

/// The pressure on the line from 0 psi at 0.35 V to 250 psi at 4.5 V, before too small a pressure
/// is taken as none.
proof fn lemma_linear_psi(volts: Binary32)
    requires
        volts.finite(),
        !volts.negative(),
        volts.value() <= 100 * pow2(149),
    ensures
        ({
            let l = telemetry_math::linear_psi(volts);
            let u = pow2(149) as int;
            let e = 25000 * volts.value() - 8750 * u;
            &&& l.finite()
            &&& 100_000 * arithmetic_laws::apart(415 * l.value(), e) <= binary32::distance_from_zero(
                e,
            ) + 20 * u
        }),
{
    let u = pow2(149) as int;
    let zero_volts = Binary32::from_bits(0x3eb3_3333);
    let z = zero_volts.value();
    let v = volts.value();
    let k = telemetry_math::psi_per_volt();
    let kv = k.value();
    lemma_constants();
    lemma_unit_is_large();
    lemma_slope();
    binary32::lemma_difference_is_finite(volts, zero_volts);
    assert(zero_volts.negated().value() == -z);
    arithmetic_laws::lemma_sum_is_close(volts, zero_volts.negated());
    let d = volts.difference(zero_volts);
    let ds = arithmetic_laws::size(d) as int;
    assert(ds <= 101 * u);
    assert(kv <= 61 * u);
    let l = d.product(k);
    let d1 = d.absolute();
    assert(d1.value() == ds);
    let most = binary32::of_int(10_000);
    arithmetic_laws::lemma_integer_is_exact(10_000);
    assert(ds * kv <= (10_000 * u) * u) by (nonlinear_arith)
        requires
            0 <= ds <= 101 * u,
            0 <= kv <= 61 * u,
            u > 0,
    ;
    assert(ds * kv >= 0) by (nonlinear_arith)
        requires
            0 <= ds,
            0 <= kv,
    ;
    binary32::lemma_product_at_most(d1, k, most);
    assert(l.finite()) by {
        reveal(Binary32::product);
        assert(l.magnitude() == d1.product(k).magnitude());
    }
    arithmetic_laws::lemma_product_is_close(d, k);
    let ls = arithmetic_laws::size(l) as int;
    let x = ls * u;
    let b = ds * kv;
    let c = ds * u;
    let larger = arithmetic_laws::larger_of(b, 0x80_0000 * u);
    assert(0x100_0000 * (x - b) <= larger && 0x100_0000 * (b - x) <= larger);
    assert(4_000_000 * (415 * b - 25000 * c) <= 25000 * c && 4_000_000 * (25000 * c - 415 * b)
        <= 25000 * c) by (nonlinear_arith)
        requires
            ds >= 0,
            b == ds * kv,
            c == ds * u,
            4_000_000 * (415 * kv - 25000 * u) <= 25000 * u,
            4_000_000 * (25000 * u - 415 * kv) <= 25000 * u,
    ;
    assert(c >= 0) by (nonlinear_arith)
        requires
            c == ds * u,
            ds >= 0,
            u > 0,
    ;
    assert(1_000_000 * (415 * x - 25000 * c) <= 25000 * c + 415_000_000 * u);
    assert(1_000_000 * (25000 * c - 415 * x) <= 25000 * c + 415_000_000 * u);
    let over = 1_000_000 * (415 * ls - 25000 * ds) - 25000 * ds - 415_000_000;
    let under = 1_000_000 * (25000 * ds - 415 * ls) - 25000 * ds - 415_000_000;
    assert(over * u == 1_000_000 * (415 * x - 25000 * c) - 25000 * c - 415_000_000 * u && under * u
        == 1_000_000 * (25000 * c - 415 * x) - 25000 * c - 415_000_000 * u) by (nonlinear_arith)
        requires
            over == 1_000_000 * (415 * ls - 25000 * ds) - 25000 * ds - 415_000_000,
            under == 1_000_000 * (25000 * ds - 415 * ls) - 25000 * ds - 415_000_000,
            x == ls * u,
            c == ds * u,
    ;
    assert(over <= 0) by (nonlinear_arith)
        requires
            over * u <= 0,
            u > 0,
    ;
    assert(under <= 0) by (nonlinear_arith)
        requires
            under * u <= 0,
            u > 0,
    ;
    // Both have the sign of the difference.
    let signed = if d.negative() {
        -ls
    } else {
        ls
    };
    assert(l.value() == signed);
    assert(d.value() == if d.negative() {
        -ds
    } else {
        ds
    });
    let e = v - z;
    assert(0x100_0000 * arithmetic_laws::apart(d.value(), e) <= binary32::distance_from_zero(e));
    assert(1_000_000 * arithmetic_laws::apart(415 * signed, 25000 * d.value()) <= 25000 * ds
        + 415_000_000);
    assert(0x80_0000 * (7 * u - 20 * z) == u);
}

/// The pressure is on the line from 0 psi at 0.35 V to 250 psi at 4.5 V, and none where that is
/// below 2 psi.
pub proof fn lemma_pressure_of_voltage(volts: Binary32)
    requires
        volts.finite(),
        !volts.negative(),
        volts.value() <= 100 * pow2(149),
    ensures
        ({
            let p = telemetry_math::psi(volts);
            let u = pow2(149) as int;
            let e = 25000 * volts.value() - 8750 * u;
            &&& p.finite()
            &&& p.value() >= 0
            &&& 1000 * e >= 830_100 * u ==> 100_000 * arithmetic_laws::apart(415 * p.value(), e)
                <= e + 20 * u
            &&& 1000 * e <= 829_900 * u ==> p.value() == 0
        }),
{
    let u = pow2(149) as int;
    let l = telemetry_math::linear_psi(volts);
    let two = Binary32::from_bits(0x4000_0000);
    lemma_constants();
    lemma_unit_is_large();
    lemma_linear_psi(volts);
    ieee::lemma_magnitude_value_of_zero(0, binary32::HIDDEN_BIT as nat);
    binary32::lemma_order_is_by_value(l, two);
}

/// A pressure in bar is 0.0689476 times the pressure in psi, to a millionth.
proof fn lemma_bar_of_psi(psi: Binary32)
    requires
        psi.finite(),
        psi.value() >= 0,
        psi.value() <= 10_000 * pow2(149),
    ensures
        ({
            let b = psi.product(Binary32::from_bits(0x3d8d_3466));
            let u = pow2(149) as int;
            &&& b.finite()
            &&& 1_000_000 * arithmetic_laws::apart(10_000_000 * b.value(), 689_476 * psi.value())
                <= 689_476 * psi.value() + u
        }),
{
    let u = pow2(149) as int;
    let factor = Binary32::from_bits(0x3d8d_3466);
    let f = factor.value();
    let p = psi.value();
    lemma_constants();
    lemma_unit_is_large();
    let level = psi.absolute();
    assert(level.value() == p && arithmetic_laws::size(psi) == p);
    assert(p * f <= p * u) by (nonlinear_arith)
        requires
            p >= 0,
            f <= u,
    ;
    assert(p * f >= 0) by (nonlinear_arith)
        requires
            p >= 0,
            f >= 0,
    ;
    binary32::lemma_product_at_most(level, factor, level);
    let b = psi.product(factor);
    assert(b.finite()) by {
        reveal(Binary32::product);
        assert(b.magnitude() == level.product(factor).magnitude());
    }
    arithmetic_laws::lemma_product_is_close(psi, factor);
    let bs = arithmetic_laws::size(b) as int;
    ieee::lemma_magnitude_value_of_zero(psi.magnitude(), binary32::HIDDEN_BIT as nat);
    let x = bs * u;
    let pf = p * f;
    let pu = p * u;
    assert(10_000_000 * (10_000_000 * pf - 689_476 * pu) <= 689_476 * pu && 10_000_000 * (689_476
        * pu - 10_000_000 * pf) <= 689_476 * pu) by (nonlinear_arith)
        requires
            p >= 0,
            pf == p * f,
            pu == p * u,
            10_000_000 * (10_000_000 * f - 689_476 * u) <= 689_476 * u,
            10_000_000 * (689_476 * u - 10_000_000 * f) <= 689_476 * u,
    ;
    let uu = u * u;
    assert(uu >= 0x1_0000_0000_0000_0000 * u) by (nonlinear_arith)
        requires
            uu == u * u,
            u >= 0x1_0000_0000_0000_0000,
    ;
    assert(pu >= 0) by (nonlinear_arith)
        requires
            pu == p * u,
            p >= 0,
            u > 0,
    ;
    assert(1_000_000 * (10_000_000 * x - 689_476 * pu) <= 689_476 * pu + uu);
    assert(1_000_000 * (689_476 * pu - 10_000_000 * x) <= 689_476 * pu + uu);
    let over = 1_000_000 * (10_000_000 * bs - 689_476 * p) - 689_476 * p - u;
    let under = 1_000_000 * (689_476 * p - 10_000_000 * bs) - 689_476 * p - u;
    assert(over * u == 1_000_000 * (10_000_000 * x - 689_476 * pu) - 689_476 * pu - uu && under * u
        == 1_000_000 * (689_476 * pu - 10_000_000 * x) - 689_476 * pu - uu) by (nonlinear_arith)
        requires
            over == 1_000_000 * (10_000_000 * bs - 689_476 * p) - 689_476 * p - u,
            under == 1_000_000 * (689_476 * p - 10_000_000 * bs) - 689_476 * p - u,
            x == bs * u,
            pu == p * u,
            uu == u * u,
    ;
    assert(over <= 0) by (nonlinear_arith)
        requires
            over * u <= 0,
            u > 0,
    ;
    assert(under <= 0) by (nonlinear_arith)
        requires
            under * u <= 0,
            u > 0,
    ;
    if psi.negative() {
        assert(p == 0 && psi.magnitude() == 0);
        assert(pf == 0) by (nonlinear_arith)
            requires
                pf == p * f,
                p == 0,
        ;
        assert(bs == 0) by (nonlinear_arith)
            requires
                1_000_000 * (10_000_000 * x - 689_476 * pu) <= 689_476 * pu + uu,
                0x100_0000 * (x - pf) <= 0x80_0000 * u,
                pf == 0,
                x == bs * u,
                bs >= 0,
                u > 0,
        ;
    }
}

/// A reading of the sensor: its voltage is a share of 3.3 V, its pressure in psi goes by the
/// voltage, its pressure in bar by that in psi, and its millivolts are the nearest to the voltage.
pub proof fn lemma_pressure_reading(raw: u16)
    ensures
        ({
            let r = pressure::reading_of(raw);
            let u = pow2(149) as int;
            let e = 25000 * r.volts.value() - 8750 * u;
            &&& r.raw == raw
            &&& 1_000_000 * arithmetic_laws::apart(40950 * r.volts.value(), 33 * raw * u) <= 33
                * raw * u
            &&& 1000 * e >= 830_100 * u ==> 100_000 * arithmetic_laws::apart(415 * r.psi.value(), e)
                <= e + 20 * u
            &&& 1000 * e <= 829_900 * u ==> r.psi.value() == 0
            &&& 1_000_000 * arithmetic_laws::apart(
                10_000_000 * r.bar.value(),
                689_476 * r.psi.value(),
            ) <= 689_476 * r.psi.value() + u
            &&& 1000 * arithmetic_laws::apart(r.millivolts * u, 1000 * r.volts.value()) <= 504 * u
        }),
{
    let u = pow2(149) as int;
    let r = pressure::reading_of(raw);
    let v = r.volts.value();
    lemma_unit_is_large();
    lemma_constants();
    lemma_voltage_of_raw_reading(raw);
    let full = 33 * raw * u;
    assert(full <= 2_162_655 * u) by (nonlinear_arith)
        requires
            full == 33 * raw * u,
            raw <= 65535,
            u > 0,
    ;
    assert(1_000_000 * arithmetic_laws::apart(40950 * v, full) <= full);
    assert(1_000_000 * (40950 * v) <= 1_000_001 * full);
    assert(v <= 53 * u);
    lemma_pressure_of_voltage(r.volts);
    let e = 25000 * v - 8750 * u;
    if 1000 * e > 829_900 * u {
        lemma_linear_psi(r.volts);
        assert(e <= 1_316_250 * u);
        ieee::lemma_magnitude_value_of_zero(0, binary32::HIDDEN_BIT as nat);
        let l = telemetry_math::linear_psi(r.volts);
        assert(100_000 * (415 * l.value() - e) <= e + 20 * u);
        assert(r.psi == l || r.psi == binary32::zero());
        assert(415 * r.psi.value() <= 415 * (10_000 * u));
    }
    lemma_bar_of_psi(r.psi);
    let thousand = Binary32::from_bits(0x447a_0000);
    let most = binary32::of_int(53_000);
    arithmetic_laws::lemma_integer_is_exact(53_000);
    assert(v * (1000 * u) <= (53_000 * u) * u) by (nonlinear_arith)
        requires
            v <= 53 * u,
            u > 0,
    ;
    assert(v * (1000 * u) >= 0) by (nonlinear_arith)
        requires
            v >= 0,
            u > 0,
    ;
    binary32::lemma_product_at_most(r.volts, thousand, most);
    arithmetic_laws::lemma_product_is_close(r.volts, thousand);
    let p = r.volts.product(thousand);
    let pv = p.value();
    assert(pv == arithmetic_laws::size(p));
    binary32::lemma_order_is_by_value(p, most);
    assert(0x100_0000 * (pv - 1000 * v) <= 1000 * v + 0x80_0000 && 0x100_0000 * (1000 * v - pv)
        <= 1000 * v + 0x80_0000) by (nonlinear_arith)
        requires
            u > 0,
            v >= 0,
            0x100_0000 * (pv * u - v * (1000 * u)) <= arithmetic_laws::larger_of(
                v * (1000 * u),
                0x80_0000 * u,
            ),
            0x100_0000 * (v * (1000 * u) - pv * u) <= arithmetic_laws::larger_of(
                v * (1000 * u),
                0x80_0000 * u,
            ),
    ;
    reveal(convert::rounded_within);
    let n = p.nearest_int();
    let top = 2 * pv + u;
    let den = 2 * u;
    vstd::arithmetic::div_mod::lemma_fundamental_div_mod(top, den);
    vstd::arithmetic::div_mod::lemma_mod_bound(top, den);
    assert(n == top / den);
    let nu = n * u;
    assert(den * n == 2 * nu) by (nonlinear_arith)
        requires
            den == 2 * u,
            nu == n * u,
    ;
    assert(2 * nu <= top && top < 2 * nu + 2 * u);
    assert(0 <= n <= 53_001) by (nonlinear_arith)
        requires
            nu == n * u,
            2 * nu <= 2 * (53_000 * u) + u,
            2 * nu + 2 * u > 0,
            u > 0,
    ;
    assert(r.millivolts == n);
}

} // verus!
