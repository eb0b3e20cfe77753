//! How far what is stored of a shot may be from the shot.
use crate::binary32;
use crate::binary32::{Binary32, HIDDEN_BIT, INFINITE_FIELD, UNIT};
use crate::convert;
use crate::ieee;
use crate::rounding;
use crate::shot_recorder::{ShotPoint, ShotRecordView, MAX_SHOT_POINTS};
use crate::shot_store;
use crate::shot_store::{HEADER_LEN, POINT_LEN};
use vstd::arithmetic::power2::*;
use vstd::prelude::*;

verus! {

/// 655.35: the largest pressure and flow that are stored.
pub const MOST_HUNDREDTHS: u32 = 0x4423_d666;

/// 6553.5: the largest temperature that is stored.
pub const MOST_TENTHS: u32 = 0x45cc_cc00;

/// 3276.7: the largest weight that is stored.
pub const MOST_WEIGHT_G: u32 = 0x454c_cb33;

/// -3276.8: the smallest weight that is stored.
pub const LEAST_WEIGHT_G: u32 = 0xc54c_cccd;

/// A number between two others.
pub open spec fn within(x: Binary32, least: Binary32, most: Binary32) -> bool {
    least.at_most(x) && x.at_most(most)
}

/// A point whose values are in the range that is stored.
pub open spec fn storable(p: ShotPoint) -> bool {
    &&& within(p.pressure_bar, binary32::zero(), Binary32::from_bits(MOST_HUNDREDTHS))
    &&& within(p.temperature_c, binary32::zero(), Binary32::from_bits(MOST_TENTHS))
    &&& within(p.weight_g, Binary32::from_bits(LEAST_WEIGHT_G), Binary32::from_bits(MOST_WEIGHT_G))
    &&& within(p.flow_gps, binary32::zero(), Binary32::from_bits(MOST_HUNDREDTHS))
}

/// Two finite numbers that are at most `n / d` apart.
pub open spec fn close(a: Binary32, b: Binary32, n: int, d: int) -> bool {
    &&& a.finite() && b.finite()
    &&& d * (a.value() - b.value()) <= n * pow2(UNIT as nat)
    &&& d * (b.value() - a.value()) <= n * pow2(UNIT as nat)
}

/// Two points with pressures and flows at most 0.0051 apart, and temperatures and weights at most
/// 0.051.
pub open spec fn close_points(a: ShotPoint, b: ShotPoint) -> bool {
    &&& close(a.pressure_bar, b.pressure_bar, 51, 10000)
    &&& close(a.temperature_c, b.temperature_c, 51, 1000)
    &&& close(a.weight_g, b.weight_g, 51, 1000)
    &&& close(a.flow_gps, b.flow_gps, 51, 10000)
}

/// The value of a field, where no format limits it.
spec fn field_value(n: nat, d: nat) -> nat {
    rounding::magnitude_value(rounding::magnitude_of(n, d, HIDDEN_BIT as nat), HIDDEN_BIT as nat)
}

/// A ratio whose field has a value of less than `2^25` is finite.
proof fn lemma_moderate_is_finite(n: nat, d: nat)
    requires
        field_value(n, d) <= 0x200_0000 * pow2(UNIT as nat),
    ensures
        rounding::magnitude_of(n, d, HIDDEN_BIT as nat) < INFINITE_FIELD,
{
    let h = HIDDEN_BIT as nat;
    let f = rounding::magnitude_of(n, d, h);
    let inf = INFINITE_FIELD as nat;
    assert(rounding::significand(inf, h) == 0x80_0000);
    assert(rounding::doublings(inf, h) == 254);
    lemma2_to64();
    lemma_pow2_pos(149);
    lemma_pow2_adds(149, 105);
    lemma_pow2_strictly_increases(3, 105);
    assert(rounding::magnitude_value(inf, h) > 0x200_0000 * pow2(149)) by (nonlinear_arith)
        requires
            rounding::magnitude_value(inf, h) == 0x80_0000 * pow2(254),
            pow2(254) == pow2(149) * pow2(105),
            pow2(105) > 8,
            pow2(149) > 0,
    ;
    if f > inf {
        rounding::lemma_magnitude_value_increases(inf, f, h);
    }
}

/// The step in which a value is stored, `c` of which make a whole.
spec fn is_step(step: Binary32, c: nat) -> bool {
    ||| c == 100 && step.bits == 0x42c8_0000
    ||| c == 10 && step.bits == 0x4120_0000
}

proof fn lemma_step_value(step: Binary32, c: nat)
    requires
        is_step(step, c),
    ensures
        step.value() == c * pow2(UNIT as nat),
        rounding::magnitude_value(step.magnitude(), HIDDEN_BIT as nat) == c * pow2(UNIT as nat),
        step.finite(),
        !step.negative(),
        step.magnitude() > 0,
{
    lemma2_to64();
    if c == 100 {
        binary32::lemma_value_of(step, 0xc8_0000, 132);
        lemma_pow2_adds(132, 17);
    } else {
        binary32::lemma_value_of(step, 0xa0_0000, 129);
        lemma_pow2_adds(129, 20);
    }
}

/// Multiplying by the number of steps is off by at most a 256th of a step.
proof fn lemma_steps_product(x: Binary32, step: Binary32, c: nat, a: nat)
    requires
        x.finite(),
        is_step(step, c),
        a == binary32::distance_from_zero(x.value()),
        c * a <= 65536 * pow2(UNIT as nat),
    ensures
        ({
            let p = x.product(step);
            let v = binary32::distance_from_zero(p.value());
            &&& p.finite()
            &&& p.negative() == x.negative()
            &&& 256 * (v - c * a) <= pow2(UNIT as nat)
            &&& 256 * (c * a - v) <= pow2(UNIT as nat)
        }),
{
    reveal(Binary32::product);
    let h = HIDDEN_BIT as nat;
    let u = pow2(UNIT as nat);
    lemma_pow2_pos(UNIT as nat);
    lemma_step_value(step, c);
    let n = a * (c * u);
    let v = field_value(n, u);
    rounding::lemma_rounding_is_close(n, u, h);
    lemma_unit_is_large();
    let e = v - c * a;
    assert(v * u - n == e * u && n == (c * a) * u) by (nonlinear_arith)
        requires
            n == a * (c * u),
            e == v - c * a,
    ;
    assert(n <= 65536 * u * u && h * u <= 65536 * u * u) by (nonlinear_arith)
        requires
            n == (c * a) * u,
            c * a <= 65536 * u,
            h <= u,
            u > 0,
    ;
    assert(256 * e <= u && -256 * e <= u) by (nonlinear_arith)
        requires
            2 * h * (e * u) <= 65536 * u * u,
            2 * h * (-(e * u)) <= 65536 * u * u,
            h == 0x80_0000,
            u > 0,
    ;
    lemma_moderate_is_finite(n, u);
}

proof fn lemma_unit_is_large()
    ensures
        pow2(UNIT as nat) >= 0x4000_0000,
{
    lemma2_to64();
    lemma_pow2_strictly_increases(30, 149);
}

/// Integers of up to 24 bits are held exactly, and dividing one by the number of steps is off by
/// at most a 256th of a step.
proof fn lemma_steps_quotient(n: int, step: Binary32, c: nat)
    requires
        is_step(step, c),
        -65535 <= n <= 65535,
    ensures
        ({
            let k = binary32::of_int(n).quotient(step);
            let w = binary32::distance_from_zero(k.value());
            let m = binary32::distance_from_zero(n);
            &&& k.finite()
            &&& n != 0 ==> k.negative() == (n < 0)
            &&& 256 * (c * w - m * pow2(UNIT as nat)) <= pow2(UNIT as nat)
            &&& 256 * (m * pow2(UNIT as nat) - c * w) <= pow2(UNIT as nat)
        }),
{
    reveal(Binary32::quotient);
    reveal(binary32::of_int);
    let h = HIDDEN_BIT as nat;
    let u = pow2(UNIT as nat);
    let m = binary32::distance_from_zero(n);
    lemma_pow2_pos(UNIT as nat);
    lemma_unit_is_large();
    lemma_step_value(step, c);
    rounding::lemma_doubled_is_exact(m, UNIT as nat, h);
    let whole = m * u;
    assert(whole <= 65535 * u) by (nonlinear_arith)
        requires
            whole == m * u,
            m <= 65535,
    ;
    lemma_moderate_is_finite(whole, 1);
    let i = binary32::of_int(n);
    assert(n * u == whole || n * u == -whole) by (nonlinear_arith)
        requires
            whole == m * u,
            m == n || m == -n,
    ;
    if n == 0 {
        assert(0 * u == 0);
        ieee::lemma_magnitude_value_of_zero(0, h);
    } else {
        assert(whole > 0) by (nonlinear_arith)
            requires
                whole == m * u,
                m > 0,
                u > 0,
        ;
        assert(n < 0 ==> n * u < 0) by (nonlinear_arith)
            requires
                u > 0,
        ;
        assert(n > 0 ==> n * u > 0) by (nonlinear_arith)
            requires
                u > 0,
        ;
    }
    assert(rounding::magnitude_value(i.magnitude(), h) == whole);
    assert(i.finite());
    let top = whole * u;
    let d = c * u;
    assert(d > 0) by (nonlinear_arith)
        requires
            d == c * u,
            c >= 10,
            u > 0,
    ;
    rounding::lemma_rounding_is_close(top, d, h);
    let w = field_value(top, d);
    let e = c * w - whole;
    assert(w * d - top == e * u) by (nonlinear_arith)
        requires
            d == c * u,
            top == whole * u,
            e == c * w - whole,
    ;
    assert(top <= 65536 * u * u && h * d <= 65536 * u * u) by (nonlinear_arith)
        requires
            top == whole * u,
            whole <= 65535 * u,
            d == c * u,
            c <= 100,
            h == 0x80_0000,
            u >= 0x4000_0000,
    ;
    assert(256 * e <= u && -256 * e <= u) by (nonlinear_arith)
        requires
            2 * h * (e * u) <= 65536 * u * u,
            2 * h * (-(e * u)) <= 65536 * u * u,
            h == 0x80_0000,
            u > 0,
    ;
    assert(w <= 0x200_0000 * u) by (nonlinear_arith)
        requires
            c * w <= whole + u,
            whole <= 65535 * u,
            c >= 10,
            w >= 0,
            u > 0,
    ;
    lemma_moderate_is_finite(top, d);
}

/// A value that is stored in steps is off by at most 0.51 of a step.
proof fn lemma_steps_are_close(x: Binary32, step: Binary32, c: nat, low: int, high: int)
    requires
        x.finite(),
        is_step(step, c),
        -32768 <= low <= 0 < high <= 65535,
        c * x.value() <= high * pow2(UNIT as nat),
        10 * (c * x.value()) >= 10 * (low * pow2(UNIT as nat)) - pow2(UNIT as nat),
    ensures
        close(
            binary32::of_int(convert::rounded_within(x.product(step), low, high)).quotient(step),
            x,
            51,
            100 * c as int,
        ),
{
    reveal(convert::rounded_within);
    let u = pow2(UNIT as nat);
    lemma_pow2_pos(UNIT as nat);
    let a = binary32::distance_from_zero(x.value());
    let limit = if x.negative() {
        -low
    } else {
        high
    };
    let scaled = (c * a) as int;
    assert(scaled == c * x.value() || scaled == -(c * x.value())) by (nonlinear_arith)
        requires
            scaled == c * a,
            a == x.value() || a == -x.value(),
    ;
    assert(x.negative() ==> scaled == -(c * x.value())) by (nonlinear_arith)
        requires
            scaled == c * a,
            x.negative() ==> a == -x.value(),
    ;
    assert(!x.negative() ==> scaled == c * x.value()) by (nonlinear_arith)
        requires
            scaled == c * a,
            !x.negative() ==> a == x.value(),
    ;
    assert(10 * scaled <= (10 * limit + 1) * u) by {
        assert((10 * limit + 1) * u == 10 * (limit * u) + u) by (nonlinear_arith);
        assert(low * u == -((-low) * u)) by (nonlinear_arith);
    }
    assert(scaled <= 65536 * u) by (nonlinear_arith)
        requires
            10 * scaled <= (10 * limit + 1) * u,
            limit <= 65535,
            u > 0,
    ;
    lemma_steps_product(x, step, c, a);
    let p = x.product(step);
    let v = binary32::distance_from_zero(p.value());
    let m = (2 * v + u) as int / (2 * u) as int;
    vstd::arithmetic::div_mod::lemma_fundamental_div_mod((2 * v + u) as int, (2 * u) as int);
    let r = (2 * v + u) as int % (2 * u) as int;
    let mu = m * u;
    assert(2 * v + u == 2 * mu + r) by (nonlinear_arith)
        requires
            2 * v + u == (2 * u) * m + r,
            mu == m * u,
    ;
    assert(0 <= m <= limit) by (nonlinear_arith)
        requires
            2 * v + u == 2 * mu + r,
            mu == m * u,
            0 <= r < 2 * u,
            v >= 0,
            256 * (v - scaled) <= u,
            10 * scaled <= (10 * limit + 1) * u,
            u > 0,
    ;
    let n = convert::rounded_within(p, low, high);
    assert(n == if p.negative() {
        -m
    } else {
        m
    });
    lemma_steps_quotient(n, step, c);
    let k = binary32::of_int(n).quotient(step);
    let w = binary32::distance_from_zero(k.value());
    let cw = (c * w) as int;
    assert(binary32::distance_from_zero(n) == m);
    assert(-51 * u <= 100 * (cw - scaled) <= 51 * u);
    // Both have the same sign, or nothing is left.
    let ck = c * k.value();
    let cx = c * x.value();
    assert(-51 * u <= 100 * (ck - cx) <= 51 * u) by {
        assert(k.value() == w ==> ck == cw) by (nonlinear_arith)
            requires
                ck == c * k.value(),
                cw == c * w,
        ;
        assert(k.value() == -(w as int) ==> ck == -cw) by (nonlinear_arith)
            requires
                ck == c * k.value(),
                cw == c * w,
        ;
        if m == 0 {
            assert(mu == 0) by (nonlinear_arith)
                requires
                    mu == m * u,
                    m == 0,
            ;
            lemma_nothing_is_stored(step, c);
            assert(ck == 0) by (nonlinear_arith)
                requires
                    ck == c * k.value(),
                    k.value() == 0,
            ;
        }
    }
    assert((100 * c) * (k.value() - x.value()) == 100 * (ck - cx)) by (nonlinear_arith)
        requires
            ck == c * k.value(),
            cx == c * x.value(),
    ;
    assert((100 * c) * (x.value() - k.value()) == -(100 * (ck - cx))) by (nonlinear_arith)
        requires
            ck == c * k.value(),
            cx == c * x.value(),
    ;
}

/// No steps stand for zero.
proof fn lemma_nothing_is_stored(step: Binary32, c: nat)
    requires
        is_step(step, c),
    ensures
        binary32::of_int(0).quotient(step).value() == 0,
{
    reveal(Binary32::quotient);
    reveal(binary32::of_int);
    let h = HIDDEN_BIT as nat;
    lemma_step_value(step, c);
    lemma_pow2_pos(UNIT as nat);
    ieee::lemma_magnitude_value_of_zero(0, h);
    assert(0 * pow2(UNIT as nat) == 0);
    let d = rounding::magnitude_value(step.magnitude(), h);
    assert(d > 0) by (nonlinear_arith)
        requires
            d == c * pow2(UNIT as nat),
            c >= 10,
            pow2(UNIT as nat) > 0,
    ;
    rounding::lemma_magnitude_of_less_than_half(0, d, h);
}

/// The limits of what can be stored.
proof fn lemma_limits()
    ensures
        ({
            let u = pow2(UNIT as nat);
            &&& 100 * Binary32::from_bits(MOST_HUNDREDTHS).value() <= 65535 * u
            &&& 10 * Binary32::from_bits(MOST_TENTHS).value() <= 65535 * u
            &&& 10 * Binary32::from_bits(MOST_WEIGHT_G).value() <= 32767 * u
            &&& 100 * Binary32::from_bits(LEAST_WEIGHT_G).value() + 327681 * u >= 0
        }),
{
    let u = pow2(UNIT as nat) as int;
    let least = Binary32::from_bits(LEAST_WEIGHT_G);
    lemma2_to64();
    lemma_pow2_pos(135);
    lemma_pow2_pos(137);
    lemma_pow2_pos(138);
    binary32::lemma_value_of(Binary32::from_bits(MOST_HUNDREDTHS), 0xa3_d666, 135);
    binary32::lemma_value_of(Binary32::from_bits(MOST_TENTHS), 0xcc_cc00, 138);
    binary32::lemma_value_of(Binary32::from_bits(MOST_WEIGHT_G), 0xcc_cb33, 137);
    binary32::lemma_value_of(least.negated(), 0xcc_cccd, 137);
    assert(least.value() == -least.negated().value());
    lemma_pow2_adds(135, 14);
    lemma_pow2_adds(138, 11);
    lemma_pow2_adds(137, 12);
    let a = pow2(135) as int;
    let b = pow2(138) as int;
    let c = pow2(137) as int;
    assert(a * 0x4000 == u && b * 0x800 == u && c * 0x1000 == u);
    assert(least.value() == -(0xcc_cccd * c));
}

/// What storing keeps of a point whose values can be stored is close to it.
pub proof fn lemma_kept_point_is_close(p: ShotPoint)
    requires
        storable(p),
    ensures
        close_points(shot_store::kept(p), p),
{
    let hundred = Binary32::from_bits(0x42c8_0000);
    let ten = Binary32::from_bits(0x4120_0000);
    let u = pow2(UNIT as nat);
    let zero = binary32::zero();
    lemma_pow2_pos(UNIT as nat);
    lemma2_to64();
    assert(zero.value() == 0) by {
        ieee::lemma_magnitude_value_of_zero(0, HIDDEN_BIT as nat);
    }
    let most100 = Binary32::from_bits(MOST_HUNDREDTHS);
    let most10 = Binary32::from_bits(MOST_TENTHS);
    let most = Binary32::from_bits(MOST_WEIGHT_G);
    let least = Binary32::from_bits(LEAST_WEIGHT_G);
    lemma_limits();
    binary32::lemma_order_is_by_value(zero, p.pressure_bar);
    binary32::lemma_order_is_by_value(p.pressure_bar, most100);
    binary32::lemma_order_is_by_value(zero, p.flow_gps);
    binary32::lemma_order_is_by_value(p.flow_gps, most100);
    binary32::lemma_order_is_by_value(zero, p.temperature_c);
    binary32::lemma_order_is_by_value(p.temperature_c, most10);
    binary32::lemma_order_is_by_value(least, p.weight_g);
    binary32::lemma_order_is_by_value(p.weight_g, most);
    lemma_steps_are_close(p.pressure_bar, hundred, 100, 0, 65535);
    lemma_steps_are_close(p.flow_gps, hundred, 100, 0, 65535);
    lemma_steps_are_close(p.temperature_c, ten, 10, 0, 65535);
    lemma_steps_are_close(p.weight_g, ten, 10, -32768, 32767);
}

/// A stored shot is read back with its number, its time and its first 200 points. Times up to
/// 65535 ms are exact, and each other value that can be stored is close to what it was.
pub proof fn lemma_stored_shot_is_close(shot: ShotRecordView)
    requires
        shot.id != 0,
    ensures
        ({
            let n = shot_store::stored_points(shot.points).len();
            let blob = shot_store::encoded(shot);
            &&& n == if shot.points.len() < MAX_SHOT_POINTS {
                shot.points.len()
            } else {
                MAX_SHOT_POINTS as nat
            }
            &&& blob.len() == HEADER_LEN + n * POINT_LEN
            &&& shot_store::decoded(blob) is Some
            &&& ({
                let r = shot_store::decoded(blob)->0;
                &&& r.id == shot.id
                &&& r.unix_timestamp == shot.unix_timestamp
                &&& r.points.len() == n
                &&& forall|i: int|
                    0 <= i < n ==> {
                        &&& (#[trigger] r.points[i]).time_ms == shot_store::capped16(
                            shot.points[i].time_ms as int,
                        )
                        &&& storable(shot.points[i]) ==> close_points(r.points[i], shot.points[i])
                    }
            })
        }),
{
    shot_store::lemma_round_trip(shot);
    let points = shot_store::stored_points(shot.points);
    let r = shot_store::kept_shot(shot);
    assert forall|i: int| 0 <= i < points.len() implies {
        &&& (#[trigger] r.points[i]).time_ms == shot_store::capped16(shot.points[i].time_ms as int)
        &&& storable(shot.points[i]) ==> close_points(r.points[i], shot.points[i])
    } by {
        assert(points[i] == shot.points[i]);
        assert(r.points[i] == shot_store::kept(points[i]));
        if storable(points[i]) {
            lemma_kept_point_is_close(points[i]);
        }
    }
}

} // verus!
