//! What flow a series of weights comes to.
//!
//! Values are integers, in units of `2^-149`; `pow2(149)` of them are a gram, or a gram a second.
use crate::arithmetic_laws;
use crate::binary32;
use crate::binary32::Binary32;
use crate::telemetry_math;
use crate::telemetry_math::FlowEstimator;
use vstd::arithmetic::power2::*;
use vstd::prelude::*;

verus! {

/// A first reading is noted and reports no flow.
pub proof fn lemma_first_reading_is_noted(e: FlowEstimator, weight_g: Binary32, now_ms: u64)
    requires
        e.last_weight_g is None || e.last_timestamp_ms is None,
    ensures
        e.reported(weight_g, now_ms).value() == 0,
        e.after(weight_g, now_ms).last_timestamp_ms == Some(now_ms),
        e.after(weight_g, now_ms).last_weight_g == Some(telemetry_math::clean_weight(weight_g)),
        e.after(weight_g, now_ms).smoothed_flow_gps == e.smoothed_flow_gps,
{
    crate::ieee::lemma_magnitude_value_of_zero(0, binary32::HIDDEN_BIT as nat);
}

/// A reading less than 90 ms after the last one that counted, or before it, is passed over: the
/// flow stays, and so does what the next reading is held against.
pub proof fn lemma_hasty_reading_is_passed_over(
    e: FlowEstimator,
    weight_g: Binary32,
    now_ms: u64,
    before: Binary32,
    then_ms: u64,
)
    requires
        e.last_weight_g == Some(before),
        e.last_timestamp_ms == Some(then_ms),
        now_ms < then_ms + 90,
    ensures
        e.after(weight_g, now_ms) == e,
        e.reported(weight_g, now_ms) == e.smoothed_flow_gps,
{
}

/// Any other reading is noted, and the flow that is reported is the flow that is kept.
pub proof fn lemma_reading_is_noted(
    e: FlowEstimator,
    weight_g: Binary32,
    now_ms: u64,
    before: Binary32,
    then_ms: u64,
)
    requires
        e.last_weight_g == Some(before),
        e.last_timestamp_ms == Some(then_ms),
        now_ms >= then_ms + 90,
    ensures
        e.after(weight_g, now_ms).last_timestamp_ms == Some(now_ms),
        e.after(weight_g, now_ms).last_weight_g == Some(telemetry_math::clean_weight(weight_g)),
        e.after(weight_g, now_ms).smoothed_flow_gps == e.reported(weight_g, now_ms),
{
}

proof fn lemma_gram_is_large()
    ensures
        pow2(149) >= 0x1_0000_0000_0000_0000 * 0x1_0000_0000,
{
    lemma2_to64();
    lemma2_to64_rest();
    lemma_pow2_adds(64, 85);
    lemma_pow2_adds(32, 53);
    lemma_pow2_pos(53);
    assert(pow2(149) >= 0x1_0000_0000_0000_0000 * 0x1_0000_0000) by (nonlinear_arith)
        requires
            pow2(149) == pow2(64) * pow2(85),
            pow2(85) == pow2(32) * pow2(53),
            pow2(64) == 0x1_0000_0000_0000_0000,
            pow2(32) == 0x1_0000_0000,
            pow2(53) >= 1,
    ;
}

proof fn lemma_constants()
    ensures
        ({
            let u = pow2(149) as int;
            &&& Binary32::from_bits(0x3f80_0000).value() == u
            &&& Binary32::from_bits(0x447a_0000).value() == 1000 * u
            &&& Binary32::from_bits(0x4140_0000).value() == 12 * u
            &&& 2 * Binary32::from_bits(0xbf00_0000).value() == -u
            &&& 0x800_0000 * Binary32::from_bits(0x3df5_c28f).value() == 16106127 * u
            &&& 0x200_0000 * Binary32::from_bits(0x3eae_147b).value() == 11408507 * u
            &&& 0x100_0000 * Binary32::from_bits(0x3f1e_b852).value() == 10401874 * u
            &&& 0x1000_0000 * Binary32::from_bits(0x3d4c_cccd).value() == 13421773 * u
        }),
{
    let u = pow2(149) as int;
    lemma2_to64();
    binary32::lemma_value_of(Binary32::from_bits(0x3f80_0000), 0x80_0000, 126);
    binary32::lemma_value_of(Binary32::from_bits(0x447a_0000), 0xfa_0000, 135);
    binary32::lemma_value_of(Binary32::from_bits(0x4140_0000), 0xc0_0000, 129);
    binary32::lemma_value_of(Binary32::from_bits(0x3f00_0000), 0x80_0000, 125);
    binary32::lemma_value_of(Binary32::from_bits(0x3df5_c28f), 16106127, 122);
    binary32::lemma_value_of(Binary32::from_bits(0x3eae_147b), 11408507, 124);
    binary32::lemma_value_of(Binary32::from_bits(0x3f1e_b852), 10401874, 125);
    binary32::lemma_value_of(Binary32::from_bits(0x3d4c_cccd), 13421773, 121);
    assert(Binary32::from_bits(0xbf00_0000).value() == -Binary32::from_bits(0x3f00_0000).value());
    lemma_pow2_adds(126, 23);
    lemma_pow2_adds(135, 14);
    lemma_pow2_adds(129, 20);
    lemma_pow2_adds(125, 24);
    lemma_pow2_adds(122, 27);
    lemma_pow2_adds(124, 25);
    lemma_pow2_adds(121, 28);
    let a = pow2(126) as int;
    let b = pow2(135) as int;
    let c = pow2(129) as int;
    let d = pow2(125) as int;
    let e = pow2(122) as int;
    let f = pow2(124) as int;
    let g = pow2(121) as int;
    assert(a * 0x80_0000 == u && b * 0x4000 == u && c * 0x10_0000 == u && d * 0x100_0000 == u && e
        * 0x800_0000 == u && f * 0x200_0000 == u && g * 0x1000_0000 == u);
}

/// The difference of two weights, and what is known of it.
proof fn lemma_gain_is_close(w: Binary32, p: Binary32)
    requires
        w.finite() && p.finite(),
        !w.negative() && !p.negative(),
    ensures
        ({
            let e = w.value() - p.value();
            let g = w.difference(p);
            &&& g.finite()
            &&& 0x100_0000 * arithmetic_laws::apart(g.value(), e) <= binary32::distance_from_zero(e)
        }),
{
    binary32::lemma_difference_is_finite(w, p);
    assert(p.negated().value() == -p.value());
    arithmetic_laws::lemma_sum_is_close(w, p.negated());
}

/// A loss of more than half a gram ends the flow at once.
pub proof fn lemma_lifted_cup_ends_the_flow(
    e: FlowEstimator,
    weight_g: Binary32,
    now_ms: u64,
    before: Binary32,
    then_ms: u64,
)
    requires
        e.last_weight_g == Some(before),
        e.last_timestamp_ms == Some(then_ms),
        now_ms >= then_ms + 90,
        before.finite() && !before.negative(),
        ({
            let w = telemetry_math::clean_weight(weight_g).value();
            10_000 * (w - before.value()) <= -5001 * pow2(149)
        }),
    ensures
        e.reported(weight_g, now_ms).value() == 0,
{
    let w = telemetry_math::clean_weight(weight_g);
    let u = pow2(149) as int;
    let g = w.difference(before);
    telemetry_math::lemma_clean_weight_is_clean(weight_g);
    lemma_constants();
    lemma_gram_is_large();
    lemma_gain_is_close(w, before);
    crate::ieee::lemma_magnitude_value_of_zero(0, binary32::HIDDEN_BIT as nat);
    binary32::lemma_order_is_by_value(g, Binary32::from_bits(0xbf00_0000));
    assert(2 * g.value() < -u);
}

/// What flow a gain of weight over some time is, before smoothing: none up to 0.12 g, and else
/// the gain over the time, up to 12 g/s.
pub open spec fn is_raw_flow(raw: Binary32, gain: int, ms: int) -> bool {
    let u = pow2(149) as int;
    &&& raw.finite()
    &&& 0 <= raw.value() <= 12 * u
    &&& 10_000 * gain <= 1199 * u ==> raw.value() == 0
    &&& 10_000 * gain >= 1201 * u ==> {
        &&& raw.value() > 0
        &&& 0x10_0000 * (raw.value() * ms - 1000 * gain) <= 1000 * gain
        &&& raw.value() < 12 * u ==> 0x10_0000 * (1000 * gain - raw.value() * ms) <= 1000 * gain
    }
}

/// A gain over a time, in whole milliseconds, as a rate per second.
proof fn lemma_rate_is_close(g: Binary32, gain: int, ms: u64)
    requires
        g.finite(),
        90 <= ms < 0x100_0000,
        0x100_0000 * arithmetic_laws::apart(g.value(), gain) <= gain,
        10_000 * gain >= 1199 * pow2(149),
        gain <= 0x100_0000 * pow2(149),
    ensures
        ({
            let r = g.quotient(
                binary32::of_int(ms as int).quotient(Binary32::from_bits(0x447a_0000)),
            );
            &&& r.finite()
            &&& r.value() > 0
            &&& 0x20_0000 * arithmetic_laws::apart(r.value() * ms, 1000 * gain) <= 1000 * gain
        }),
{
    let u = pow2(149) as int;
    let n = binary32::of_int(ms as int);
    let thousand = Binary32::from_bits(0x447a_0000);
    let m = ms as int;
    lemma_constants();
    lemma_gram_is_large();
    arithmetic_laws::lemma_integer_is_exact(m);
    assert(m * u >= 90 * u) by (nonlinear_arith)
        requires
            m >= 90,
            u > 0,
    ;
    assert(m * u < 0x100_0000 * u) by (nonlinear_arith)
        requires
            m < 0x100_0000,
            u > 0,
    ;
    let mu = m * u;
    assert(mu * u <= mu * (1000 * u)) by (nonlinear_arith)
        requires
            mu >= 0,
            u > 0,
    ;
    arithmetic_laws::lemma_quotient_at_most(n, thousand, n);
    arithmetic_laws::lemma_quotient_is_close(n, thousand);
    let seconds = n.quotient(thousand);
    let s = arithmetic_laws::size(seconds) as int;
    assert(0x100_0000 * (1000 * s - mu) <= mu && 0x100_0000 * (mu - 1000 * s) <= mu)
        by (nonlinear_arith)
        requires
            u > 0,
            mu >= 0x80_0000 * 1000,
            0x100_0000 * (s * (1000 * u) - mu * u) <= arithmetic_laws::larger_of(
                mu * u,
                0x80_0000 * (1000 * u),
            ),
            0x100_0000 * (mu * u - s * (1000 * u)) <= arithmetic_laws::larger_of(
                mu * u,
                0x80_0000 * (1000 * u),
            ),
    ;
    assert(100 * s >= 8 * u);
    assert(s <= 20_000 * u);
    let gv = arithmetic_laws::size(g) as int;
    assert(g.value() > 0 && gv == g.value());
    let most = Binary32::from_bits(0x4e80_0000);
    lemma2_to64();
    binary32::lemma_value_of(most, 0x80_0000, 156);
    lemma_pow2_adds(149, 7);
    assert(0x80_0000 * pow2(156) == 0x4000_0000 * u) by (nonlinear_arith)
        requires
            pow2(149) * pow2(7) == pow2(156),
            pow2(7) == 0x80,
            u == pow2(149),
    ;
    assert(gv * u <= (0x4000_0000 * u) * s) by (nonlinear_arith)
        requires
            100 * s >= 8 * u,
            gv <= 0x200_0000 * u,
            gv >= 0,
            u > 0,
    ;
    arithmetic_laws::lemma_quotient_at_most(g, seconds, most);
    arithmetic_laws::lemma_quotient_is_close(g, seconds);
    let r = g.quotient(seconds);
    let rv = arithmetic_laws::size(r) as int;
    assert(!r.negative() && r.value() == rv);
    let b = rv * s;
    let c = gv * u;
    assert(c >= 0x80_0000 * s) by (nonlinear_arith)
        requires
            c == gv * u,
            100 * gv >= 11 * u,
            s <= 20_000 * u,
            u >= 0x1_0000_0000_0000_0000,
    ;
    assert(0x100_0000 * (b - c) <= c && 0x100_0000 * (c - b) <= c);
    let a = rv * mu;
    assert(0x100_0000 * (1000 * b - a) <= a && 0x100_0000 * (a - 1000 * b) <= a)
        by (nonlinear_arith)
        requires
            rv >= 0,
            b == rv * s,
            a == rv * mu,
            0x100_0000 * (1000 * s - mu) <= mu,
            0x100_0000 * (mu - 1000 * s) <= mu,
    ;
    let d = gain * u;
    assert(0x100_0000 * (c - d) <= d && 0x100_0000 * (d - c) <= d) by (nonlinear_arith)
        requires
            u > 0,
            c == gv * u,
            d == gain * u,
            0x100_0000 * (gv - gain) <= gain,
            0x100_0000 * (gain - gv) <= gain,
    ;
    assert(0x20_0000 * (a - 1000 * d) <= 1000 * d && 0x20_0000 * (1000 * d - a) <= 1000 * d);
    let x = rv * m;
    assert(0x20_0000 * (x - 1000 * gain) <= 1000 * gain && 0x20_0000 * (1000 * gain - x) <= 1000
        * gain) by (nonlinear_arith)
        requires
            u > 0,
            a == rv * (m * u),
            x == rv * m,
            d == gain * u,
            0x20_0000 * (a - 1000 * d) <= 1000 * d,
            0x20_0000 * (1000 * d - a) <= 1000 * d,
    ;
    assert(rv > 0) by (nonlinear_arith)
        requires
            x == rv * m,
            0x20_0000 * (1000 * gain - x) <= 1000 * gain,
            gain > 0,
            m > 0,
    ;
}

proof fn lemma_raw_flow(g: Binary32, gain: int, ms: u64)
    requires
        g.finite(),
        90 <= ms < 0x100_0000,
        0x100_0000 * arithmetic_laws::apart(g.value(), gain) <= binary32::distance_from_zero(gain),
        gain <= 0x100_0000 * pow2(149),
    ensures
        is_raw_flow(telemetry_math::raw_flow(g, ms), gain, ms as int),
{
    let u = pow2(149) as int;
    let raw = telemetry_math::raw_flow(g, ms);
    let dead = Binary32::from_bits(0x3df5_c28f);
    let top = Binary32::from_bits(0x4140_0000);
    lemma_constants();
    lemma_gram_is_large();
    crate::ieee::lemma_magnitude_value_of_zero(0, binary32::HIDDEN_BIT as nat);
    binary32::lemma_order_is_by_value(g, dead);
    if g.value() > dead.value() {
        assert(10_000 * gain >= 1199 * u);
        lemma_rate_is_close(g, gain, ms);
        let r = g.quotient(
            binary32::of_int(ms as int).quotient(Binary32::from_bits(0x447a_0000)),
        );
        binary32::lemma_order_is_by_value(r, binary32::zero());
        binary32::lemma_order_is_by_value(top, r);
        if r.value() > 12 * u {
            assert(12 * u * ms <= r.value() * ms) by (nonlinear_arith)
                requires
                    12 * u <= r.value(),
                    ms >= 0,
            ;
        }
        assert(10_000 * gain > 1199 * u);
    } else {
        assert(10_000 * gain < 1201 * u);
    }
}

/// What smoothing makes of a flow and a reading: the reading from a flow of none, else 66
/// hundredths of the flow and 34 of the reading; and 38 hundredths of the flow where the reading
/// is none, with less than 0.05 g/s taken as none.
pub open spec fn is_smoothed(next: Binary32, flow: int, raw: int) -> bool {
    let u = pow2(149) as int;
    let mixed = 66 * flow + 34 * raw;
    let left = 38 * flow;
    &&& next.finite()
    &&& next.value() >= 0
    &&& flow == 0 ==> next.value() == raw
    &&& flow > 0 && raw > 0 ==> 100_000 * arithmetic_laws::apart(100 * next.value(), mixed) <= mixed
        + u
    &&& flow > 0 && raw == 0 && 1000 * left >= 5001 * u ==> 100_000 * arithmetic_laws::apart(
        100 * next.value(),
        left,
    ) <= left + u
    &&& flow > 0 && raw == 0 && 1000 * left <= 4999 * u ==> next.value() == 0
}

/// A product of numbers that are not above 12 and 1.
proof fn lemma_share_is_close(f: Binary32, s: Binary32)
    requires
        f.finite() && s.finite(),
        !f.negative() && !s.negative(),
        f.value() <= 12 * pow2(149),
        s.value() <= pow2(149),
    ensures
        ({
            let u = pow2(149) as int;
            let p = f.product(s);
            &&& p.finite()
            &&& !p.negative()
            &&& p.value() <= 12 * u
            &&& 0x100_0000 * (p.value() * u - f.value() * s.value()) <= f.value() * s.value()
                + 0x80_0000 * u
            &&& 0x100_0000 * (f.value() * s.value() - p.value() * u) <= f.value() * s.value()
                + 0x80_0000 * u
        }),
{
    let u = pow2(149) as int;
    let top = Binary32::from_bits(0x4140_0000);
    lemma_constants();
    lemma_pow2_pos(149);
    let fv = f.value();
    let sv = s.value();
    assert(fv >= 0 && sv >= 0);
    assert(fv * sv <= (12 * u) * u) by (nonlinear_arith)
        requires
            0 <= fv <= 12 * u,
            0 <= sv <= u,
    ;
    assert(fv * sv >= 0) by (nonlinear_arith)
        requires
            fv >= 0,
            sv >= 0,
    ;
    binary32::lemma_product_at_most(f, s, top);
    arithmetic_laws::lemma_product_is_close(f, s);
    binary32::lemma_order_is_by_value(f.product(s), top);
}

/// `1 - alpha`, where alpha is between 0 and 1.
proof fn lemma_rest_of_one(alpha: Binary32)
    requires
        alpha.finite() && !alpha.negative(),
        alpha.value() <= pow2(149),
    ensures
        ({
            let u = pow2(149) as int;
            let r = Binary32::from_bits(0x3f80_0000).difference(alpha);
            &&& r.finite()
            &&& !r.negative()
            &&& r.value() <= u
            &&& 0x100_0000 * arithmetic_laws::apart(r.value(), u - alpha.value()) <= u
                - alpha.value()
        }),
{
    let one = Binary32::from_bits(0x3f80_0000);
    let u = pow2(149) as int;
    let r = one.difference(alpha);
    lemma_constants();
    lemma_gain_is_close(one, alpha);
    assert(!r.negative() && r.value() <= u) by {
        reveal(Binary32::sum);
        let h = binary32::HIDDEN_BIT as nat;
        assert(alpha.negated().value() == -alpha.value());
        let v = (u - alpha.value()) as nat;
        crate::rounding::lemma_magnitude_is_exact(one.magnitude(), h);
        crate::rounding::lemma_rounding_keeps_order(v, u as nat, 1, h);
        if r.magnitude() < one.magnitude() {
            crate::rounding::lemma_magnitude_value_increases(r.magnitude(), one.magnitude(), h);
        }
    }
}

proof fn lemma_mixed(f: Binary32, raw: Binary32, alpha: Binary32, parts: int)
    requires
        f.finite() && raw.finite() && alpha.finite(),
        !f.negative() && !raw.negative() && !alpha.negative(),
        f.value() <= 12 * pow2(149),
        raw.value() <= 12 * pow2(149),
        0 <= parts <= 100,
        1_000_000 * arithmetic_laws::apart(100 * alpha.value(), parts * pow2(149)) <= parts * pow2(
            149,
        ),
        parts == 34 || parts == 62,
    ensures
        ({
            let u = pow2(149) as int;
            let next = f.product(Binary32::from_bits(0x3f80_0000).difference(alpha)).sum(
                raw.product(alpha),
            );
            let mixed = (100 - parts) * f.value() + parts * raw.value();
            &&& next.finite()
            &&& next.value() >= 0
            &&& 200_000 * arithmetic_laws::apart(100 * next.value(), mixed) <= mixed + u
        }),
{
    let u = pow2(149) as int;
    let one = Binary32::from_bits(0x3f80_0000);
    let share = one.difference(alpha);
    let av = alpha.value();
    lemma_gram_is_large();
    assert(parts * u == 34 * u || parts * u == 62 * u);
    lemma_rest_of_one(alpha);
    lemma_share_is_close(f, share);
    lemma_share_is_close(raw, alpha);
    let p = f.product(share);
    let q = raw.product(alpha);
    let sv = share.value();
    let rest = 100 - parts;
    assert(500_000 * (100 * sv - rest * u) <= rest * u && 500_000 * (rest * u - 100 * sv) <= rest
        * u) by {
        assert(rest * u == 66 * u || rest * u == 38 * u);
        assert(rest * u == 100 * u - parts * u);
    }
    let fv = f.value();
    let rv = raw.value();
    let x = fv * sv;
    let y = rv * av;
    let fu = fv * u;
    let ru = rv * u;
    assert(500_000 * (100 * x - rest * fu) <= rest * fu && 500_000 * (rest * fu - 100 * x) <= rest
        * fu) by (nonlinear_arith)
        requires
            fv >= 0,
            x == fv * sv,
            fu == fv * u,
            500_000 * (100 * sv - rest * u) <= rest * u,
            500_000 * (rest * u - 100 * sv) <= rest * u,
    ;
    assert(500_000 * (100 * y - parts * ru) <= parts * ru && 500_000 * (parts * ru - 100 * y)
        <= parts * ru) by (nonlinear_arith)
        requires
            rv >= 0,
            parts >= 0,
            y == rv * av,
            ru == rv * u,
            1_000_000 * (100 * av - parts * u) <= parts * u,
            1_000_000 * (parts * u - 100 * av) <= parts * u,
            u >= 0,
    ;
    let pu = p.value() * u;
    let qu = q.value() * u;
    assert(x >= 0 && y >= 0 && fu >= 0 && ru >= 0) by (nonlinear_arith)
        requires
            x == fv * sv,
            y == rv * av,
            fu == fv * u,
            ru == rv * u,
            fv >= 0,
            sv >= 0,
            rv >= 0,
            av >= 0,
            u >= 0,
    ;
    let most = Binary32::from_bits(0x41c0_0000);
    lemma2_to64();
    binary32::lemma_value_of(most, 0xc0_0000, 130);
    lemma_pow2_adds(130, 19);
    assert(0xc0_0000 * pow2(130) == 24 * u) by (nonlinear_arith)
        requires
            pow2(130) * pow2(19) == u,
            pow2(19) == 0x8_0000,
    ;
    binary32::lemma_sum_at_most(p, q, most);
    arithmetic_laws::lemma_sum_is_close(p, q);
    let next = p.sum(q);
    let mixed_u = rest * fu + parts * ru;
    let nu = next.value() * u;
    assert(0x100_0000 * (nu - (pu + qu)) <= pu + qu && 0x100_0000 * ((pu + qu) - nu) <= pu + qu)
        by (nonlinear_arith)
        requires
            u >= 0,
            nu == next.value() * u,
            pu == p.value() * u,
            qu == q.value() * u,
            0x100_0000 * (next.value() - (p.value() + q.value())) <= p.value() + q.value(),
            0x100_0000 * ((p.value() + q.value()) - next.value()) <= p.value() + q.value(),
    ;
    assert(rest * fu == 66 * fu || rest * fu == 38 * fu);
    assert(parts * ru == 34 * ru || parts * ru == 62 * ru);
    let uu = u * u;
    assert(uu >= 0x1_0000_0000_0000 * u) by (nonlinear_arith)
        requires
            uu == u * u,
            u >= 0x1_0000_0000_0000,
    ;
    assert(200_000 * (100 * nu - mixed_u) <= mixed_u + uu);
    assert(200_000 * (mixed_u - 100 * nu) <= mixed_u + uu);
    let mixed = rest * fv + parts * rv;
    let nv = next.value();
    assert(mixed_u == mixed * u) by (nonlinear_arith)
        requires
            mixed == rest * fv + parts * rv,
            mixed_u == rest * fu + parts * ru,
            fu == fv * u,
            ru == rv * u,
    ;
    let over = 200_000 * (100 * nv - mixed) - mixed - u;
    let under = 200_000 * (mixed - 100 * nv) - mixed - u;
    assert(over * u == 200_000 * (100 * nu - mixed_u) - mixed_u - uu && under * u == 200_000 * (
    mixed_u - 100 * nu) - mixed_u - uu) by (nonlinear_arith)
        requires
            over == 200_000 * (100 * nv - mixed) - mixed - u,
            under == 200_000 * (mixed - 100 * nv) - mixed - u,
            mixed_u == mixed * u,
            nu == nv * u,
            uu == u * u,
    ;
    assert(over <= 0) by (nonlinear_arith)
        requires
            over * u <= 0,
            u > 0,
    ;
    assert(under <= 0) by (nonlinear_arith)
        requires
            under * u <= 0,
            u > 0,
    ;
}

proof fn lemma_smoothing(f: Binary32, raw: Binary32)
    requires
        f.finite() && raw.finite(),
        !f.negative() && !raw.negative(),
        f.value() <= 12 * pow2(149),
        raw.value() <= 12 * pow2(149),
    ensures
        is_smoothed(telemetry_math::smoothed(f, raw), f.value(), raw.value()),
{
    let u = pow2(149) as int;
    lemma_constants();
    lemma_gram_is_large();
    crate::ieee::lemma_magnitude_value_of_zero(0, binary32::HIDDEN_BIT as nat);
    binary32::lemma_order_is_by_value(f, binary32::zero());
    binary32::lemma_order_is_by_value(raw, binary32::zero());
    let snap = Binary32::from_bits(0x3d4c_cccd);
    if f.value() > 0 {
        let fv = f.value();
        if raw.value() > 0 {
            lemma_mixed(f, raw, Binary32::from_bits(0x3eae_147b), 34);
        } else {
            lemma_mixed(f, raw, Binary32::from_bits(0x3f1e_b852), 62);
            let next = f.product(
                Binary32::from_bits(0x3f80_0000).difference(Binary32::from_bits(0x3f1e_b852)),
            ).sum(raw.product(Binary32::from_bits(0x3f1e_b852)));
            binary32::lemma_order_is_by_value(next, snap);
            assert(62 * raw.value() == 0);
        }
    } else {
        binary32::lemma_order_is_by_value(raw, snap);
    }
}

/// Whatever else is weighed, the new flow is the old one smoothed with what the scale gained over
/// the time since the last reading that counted.
pub proof fn lemma_flow_follows_the_gain(
    e: FlowEstimator,
    weight_g: Binary32,
    now_ms: u64,
    before: Binary32,
    then_ms: u64,
)
    requires
        e.last_weight_g == Some(before),
        e.last_timestamp_ms == Some(then_ms),
        then_ms + 90 <= now_ms < then_ms + 0x100_0000,
        before.finite() && !before.negative(),
        e.smoothed_flow_gps.finite() && !e.smoothed_flow_gps.negative(),
        e.smoothed_flow_gps.value() <= 12 * pow2(149),
        ({
            let gain = telemetry_math::clean_weight(weight_g).value() - before.value();
            -pow2(149) <= 2 * gain && gain <= 0x100_0000 * pow2(149)
        }),
    ensures
        ({
            let gain = telemetry_math::clean_weight(weight_g).value() - before.value();
            exists|raw: Binary32|
                is_raw_flow(raw, gain, now_ms - then_ms) && #[trigger] is_smoothed(
                    e.reported(weight_g, now_ms),
                    e.smoothed_flow_gps.value(),
                    raw.value(),
                )
        }),
{
    let w = telemetry_math::clean_weight(weight_g);
    let u = pow2(149) as int;
    let g = w.difference(before);
    let gain = w.value() - before.value();
    let ms = (now_ms - then_ms) as u64;
    telemetry_math::lemma_clean_weight_is_clean(weight_g);
    lemma_constants();
    lemma_gain_is_close(w, before);
    let half = Binary32::from_bits(0xbf00_0000);
    assert(!g.below(half)) by {
        if gain < 0 {
            reveal(Binary32::sum);
            let h = binary32::HIDDEN_BIT as nat;
            assert(before.negated().value() == -before.value());
            crate::rounding::lemma_magnitude_is_exact(half.magnitude(), h);
            crate::rounding::lemma_rounding_keeps_order(
                (-gain) as nat,
                (-half.value()) as nat,
                1,
                h,
            );
        } else {
            binary32::lemma_order_is_by_value(g, half);
            lemma_gram_is_large();
        }
    }
    let raw = telemetry_math::raw_flow(g, ms);
    lemma_raw_flow(g, gain, ms);
    assert(!raw.negative()) by {
        crate::ieee::lemma_magnitude_value_of_zero(raw.magnitude(), binary32::HIDDEN_BIT as nat);
        crate::flow_laws::lemma_raw_in_bounds(g, ms);
    }
    lemma_smoothing(e.smoothed_flow_gps, raw);
    assert(is_smoothed(
        e.reported(weight_g, now_ms),
        e.smoothed_flow_gps.value(),
        raw.value(),
    ));
}

} // verus!
