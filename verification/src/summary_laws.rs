//! What the summary of a shot says of its points.
use crate::arithmetic_laws;
use crate::binary32;
use crate::binary32::Binary32;
use crate::shot_recorder;
use crate::shot_recorder::ShotPoint;
use vstd::arithmetic::power2::*;
use vstd::prelude::*;

verus! {

/// A shot lasts until its last point: no point is later, and with points a quarter of a second
/// apart each point behind the first adds that much.
pub proof fn lemma_duration_reaches_the_last_point(
    id: u32,
    unix_timestamp: u64,
    points: Seq<ShotPoint>,
)
    requires
        shot_recorder::evenly_spaced(points),
        points.len() > 0,
    ensures
        ({
            let duration = shot_recorder::summary(id, unix_timestamp, points).duration_ms;
            &&& forall|i: int| 0 <= i < points.len() ==> (#[trigger] points[i]).time_ms <= duration
            &&& duration == points[0].time_ms + (points.len() - 1) * 250
        }),
{
    let last = points.len() - 1;
    assert(points[last].time_ms == points[0].time_ms + last * 250);
    assert forall|i: int| 0 <= i < points.len() implies (#[trigger] points[i]).time_ms
        <= points[last].time_ms by {
        assert(i * 250 <= last * 250) by (nonlinear_arith)
            requires
                i <= last,
        ;
    }
}

/// A summary has the number and the time of its shot. A shot without points has nothing else.
pub proof fn lemma_summary_belongs_to_its_shot(id: u32, unix_timestamp: u64, points: Seq<ShotPoint>)
    ensures
        ({
            let s = shot_recorder::summary(id, unix_timestamp, points);
            &&& s.id == id
            &&& s.unix_timestamp == unix_timestamp
            &&& points.len() == 0 ==> s.duration_ms == 0 && s.max_pressure_bar.value() == 0
                && s.avg_temperature_c.value() == 0 && s.yield_g.value() == 0
                && s.avg_flow_gps.value() == 0
        }),
{
    crate::ieee::lemma_magnitude_value_of_zero(0, binary32::HIDDEN_BIT as nat);
    reveal(Binary32::sum);
}

/// The largest pressure is a pressure of the shot, and no finite pressure of the shot is above
/// it. It is zero where no pressure is finite.
pub proof fn lemma_largest_pressure(id: u32, unix_timestamp: u64, points: Seq<ShotPoint>)
    ensures
        ({
            let most = shot_recorder::summary(id, unix_timestamp, points).max_pressure_bar;
            &&& most.finite()
            &&& forall|i: int|
                0 <= i < points.len() && (#[trigger] points[i]).pressure_bar.finite()
                    ==> points[i].pressure_bar.value() <= most.value()
            &&& (exists|i: int|
                0 <= i < points.len() && (#[trigger] points[i]).pressure_bar == most) || (
            most.value() == 0 && forall|i: int|
                0 <= i < points.len() ==> !(#[trigger] points[i]).pressure_bar.finite())
        }),
{
    let all = shot_recorder::pressures(points);
    let found = shot_recorder::largest(all);
    let most = shot_recorder::summary(id, unix_timestamp, points).max_pressure_bar;
    shot_recorder::lemma_largest(all);
    crate::ieee::lemma_magnitude_value_of_zero(0, binary32::HIDDEN_BIT as nat);
    assert forall|i: int|
        0 <= i < points.len() && (#[trigger] points[i]).pressure_bar.finite() implies found.finite()
        && points[i].pressure_bar.value() <= most.value() by {
        assert(all[i] == points[i].pressure_bar);
        assert(all[i].at_most(found));
        if found.finite() {
            binary32::lemma_order_is_by_value(all[i], found);
        }
    }
    if found.finite() {
        let i = choose|i: int| 0 <= i < all.len() && all[i] == found;
        assert(points[i].pressure_bar == most);
    }
}

/// The yield is what the scale gained from the first point to the last, to a part in `2^24`.
/// It is nothing where the scale gained nothing.
pub proof fn lemma_yield_is_the_gain(id: u32, unix_timestamp: u64, points: Seq<ShotPoint>)
    requires
        points.len() > 0,
        points[0].weight_g.finite() && points[0].weight_g.value() >= 0,
        points.last().weight_g.finite() && points.last().weight_g.value() >= 0,
    ensures
        ({
            let y = shot_recorder::summary(id, unix_timestamp, points).yield_g;
            let gain = points.last().weight_g.value() - points[0].weight_g.value();
            &&& y.finite()
            &&& gain <= 0 ==> y.value() == 0
            &&& gain > 0 ==> 0x100_0000 * arithmetic_laws::apart(y.value(), gain) <= gain
        }),
{
    let a = points.last().weight_g;
    let b = points[0].weight_g;
    let d = a.difference(b);
    let gain = a.value() - b.value();
    let h = binary32::HIDDEN_BIT as nat;
    crate::ieee::lemma_magnitude_value_of_zero(0, h);
    crate::ieee::lemma_magnitude_value_of_zero(a.magnitude(), h);
    crate::ieee::lemma_magnitude_value_of_zero(b.magnitude(), h);
    assert(b.negated().value() == -b.value());
    reveal(Binary32::sum);
    assert(d.finite()) by {
        let a1 = a.absolute();
        let b1 = b.absolute();
        assert(a1.value() == a.value() && b1.value() == b.value());
        binary32::lemma_difference_is_finite(a1, b1);
        assert(b1.negated().value() == -b1.value());
    }
    arithmetic_laws::lemma_sum_is_close(a, b.negated());
    binary32::lemma_order_is_by_value(binary32::zero(), d);
    if gain > 0 {
        assert(d.value() >= 0);
    }
}

/// The values that enter a mean: the finite ones above zero.
pub open spec fn entering(s: Seq<Binary32>) -> Seq<Binary32> {
    s.filter(|x: Binary32| x.finite() && x.value() > 0)
}

/// The exact sum of some values.
pub open spec fn exact_sum(s: Seq<Binary32>) -> int
    decreases s.len(),
{
    if s.len() == 0 {
        0
    } else {
        exact_sum(s.drop_last()) + s.last().value()
    }
}

proof fn lemma_counts_by_value(x: Binary32)
    ensures
        shot_recorder::counts(x) <==> x.finite() && x.value() > 0,
{
    crate::ieee::lemma_magnitude_value_of_zero(0, binary32::HIDDEN_BIT as nat);
    if x.finite() {
        binary32::lemma_order_is_by_value(binary32::zero(), x);
    }
}

/// A rounded sum of `k` values stays within `2 k` parts in `2^24` of the exact one.
proof fn lemma_total_is_close(s: Seq<Binary32>)
    requires
        s.len() < 0x80_0000,
        exact_sum(entering(s)) <= pow2(250),
    ensures
        ({
            let n = entering(s).len() as int;
            let e = exact_sum(entering(s));
            let t = shot_recorder::total(s);
            &&& n == shot_recorder::how_many(s)
            &&& n <= s.len()
            &&& n > 0 <==> e > 0
            &&& e >= 0
            &&& t.finite()
            &&& !t.negative()
            &&& 0x100_0000 * arithmetic_laws::apart(t.value(), e) <= 2 * n * e
        }),
    decreases s.len(),
{
    reveal(Seq::filter);
    let pred = |x: Binary32| x.finite() && x.value() > 0;
    crate::ieee::lemma_magnitude_value_of_zero(0, binary32::HIDDEN_BIT as nat);
    if s.len() == 0 {
        assert(entering(s).len() == 0);
    } else {
        let shorter = s.drop_last();
        let x = s.last();
        lemma_counts_by_value(x);
        let before = entering(shorter);
        let e0 = exact_sum(before);
        let t0 = shot_recorder::total(shorter);
        let e = exact_sum(entering(s));
        if pred(x) {
            assert(entering(s) =~= before.push(x));
            assert(entering(s).drop_last() =~= before);
            assert(e == e0 + x.value());
            lemma_total_is_close(shorter);
            let n0 = before.len() as int;
            let n = n0 + 1;
            let t = shot_recorder::total(s);
            let off0 = arithmetic_laws::apart(t0.value(), e0);
            assert(2 * n0 * e0 <= 0x100_0000 * e0) by (nonlinear_arith)
                requires
                    0 <= n0 < 0x80_0000,
                    e0 >= 0,
            ;
            assert(t0.value() <= 2 * e0);
            let most = Binary32::from_bits(0x7280_0000);
            binary32::lemma_value_of(most, 0x80_0000, 228);
            lemma2_to64();
            lemma_pow2_adds(228, 23);
            lemma_pow2_unfold(251);
            assert(most.value() == 2 * pow2(250)) by (nonlinear_arith)
                requires
                    most.value() == 0x80_0000 * pow2(228),
                    pow2(228) * pow2(23) == pow2(251),
                    pow2(23) == 0x80_0000,
                    pow2(251) == 2 * pow2(250),
            ;
            assert(t0.value() + x.value() <= most.value());
            binary32::lemma_sum_at_most(t0, x, most);
            arithmetic_laws::lemma_sum_is_close(t0, x);
            assert(2 * n0 * e0 + 2 * e <= 2 * n * e) by (nonlinear_arith)
                requires
                    n == n0 + 1,
                    0 <= n0,
                    e0 <= e,
                    0 <= e0,
            ;
        } else {
            assert(entering(s) =~= before);
            lemma_total_is_close(shorter);
        }
    }
}

/// Whether a number is the mean of the values above zero among some, as near as rounding each
/// sum and the quotient allows: zero where there is none.
pub open spec fn near_mean(mean: Binary32, s: Seq<Binary32>) -> bool {
    let n = entering(s).len() as int;
    let e = exact_sum(entering(s));
    &&& mean.finite()
    &&& n == 0 ==> mean.value() == 0
    &&& 0x100_0000 * arithmetic_laws::apart(mean.value() * n, e) <= 2 * (n + 1) * e + 0x80_0000 * n
}

proof fn lemma_mean_is_near(s: Seq<Binary32>)
    requires
        s.len() < 0x80_0000,
        exact_sum(entering(s)) <= pow2(250),
    ensures
        near_mean(shot_recorder::mean(s), s),
{
    let n = entering(s).len() as int;
    let e = exact_sum(entering(s));
    let t = shot_recorder::total(s);
    lemma_total_is_close(s);
    crate::ieee::lemma_magnitude_value_of_zero(0, binary32::HIDDEN_BIT as nat);
    if n == 0 {
        assert(exact_sum(entering(s)) == 0);
        assert(shot_recorder::mean(s).value() * 0 == 0);
    } else {
        let c = binary32::of_int(n);
        let u = pow2(149) as int;
        let m = shot_recorder::mean(s);
        lemma_pow2_pos(149);
        arithmetic_laws::lemma_integer_is_exact(n);
        assert(c.value() >= u) by (nonlinear_arith)
            requires
                c.value() == n * u,
                n >= 1,
                u > 0,
        ;
        assert(t.value() * u <= t.value() * c.value()) by (nonlinear_arith)
            requires
                u <= c.value(),
                t.value() >= 0,
        ;
        arithmetic_laws::lemma_quotient_at_most(t, c, t);
        arithmetic_laws::lemma_quotient_is_close(t, c);
        let v = m.value();
        let tv = t.value();
        assert(v >= 0);
        assert(2 * n * e <= 0x100_0000 * e) by (nonlinear_arith)
            requires
                0 <= n < 0x80_0000,
                e >= 0,
        ;
        assert(tv <= 2 * e);
        let most = arithmetic_laws::larger_of(tv, 0x80_0000 * n);
        assert(0x100_0000 * (v * n - tv) <= most && 0x100_0000 * (tv - v * n) <= most)
            by (nonlinear_arith)
            requires
                u > 0,
                c.value() == n * u,
                0x100_0000 * (v * c.value() - tv * u) <= arithmetic_laws::larger_of(
                    tv * u,
                    0x80_0000 * c.value(),
                ),
                0x100_0000 * (tv * u - v * c.value()) <= arithmetic_laws::larger_of(
                    tv * u,
                    0x80_0000 * c.value(),
                ),
                most == arithmetic_laws::larger_of(tv, 0x80_0000 * n),
        ;
        assert(2 * (n + 1) * e == 2 * n * e + 2 * e) by (nonlinear_arith);
    }
}

/// The mean temperature is that of the temperatures above zero, and the mean flow that of the
/// flows above zero, each as near as rounding allows.
pub proof fn lemma_means_are_near(id: u32, unix_timestamp: u64, points: Seq<ShotPoint>)
    requires
        points.len() < 0x80_0000,
    ensures
        ({
            let s = shot_recorder::summary(id, unix_timestamp, points);
            let temperatures = points.map_values(|p: ShotPoint| p.temperature_c);
            let flows = points.map_values(|p: ShotPoint| p.flow_gps);
            &&& exact_sum(entering(temperatures)) <= pow2(250) ==> near_mean(
                s.avg_temperature_c,
                temperatures,
            )
            &&& exact_sum(entering(flows)) <= pow2(250) ==> near_mean(s.avg_flow_gps, flows)
        }),
{
    let temperatures = points.map_values(|p: ShotPoint| p.temperature_c);
    let flows = points.map_values(|p: ShotPoint| p.flow_gps);
    assert(temperatures =~= shot_recorder::temperatures(points));
    assert(flows =~= shot_recorder::flows(points));
    if exact_sum(entering(temperatures)) <= pow2(250) {
        lemma_mean_is_near(temperatures);
    }
    if exact_sum(entering(flows)) <= pow2(250) {
        lemma_mean_is_near(flows);
    }
}

} // verus!
