//! What a shot that was recorded by hand says of its readings.
use crate::arithmetic_laws;
use crate::binary32;
use crate::binary32::Binary32;
use crate::binary64;
use crate::binary64::Binary64;
use crate::ieee;
use crate::rounding;
use crate::shot_history;
use crate::shot_history::{
    ActiveShotView, LiveTelemetryPoint, ShotHistoryView, ShotRecordView, ShotSample,
};
use crate::summary_laws;
use vstd::arithmetic::power2::*;
use vstd::prelude::*;

verus! {

/// A sample has its own readings: the temperature, the pressure where it is above zero, and the
/// flow where there is a scale, each zero where it is no finite number; and it is as many steps
/// of 50 ms behind the start as the series of readings says.
pub proof fn lemma_sample_has_its_readings(shot: ActiveShotView, t: LiveTelemetryPoint)
    ensures
        ({
            let s = shot.sample_of(t);
            &&& s.temperature_c.value() == if t.temperature_c.finite() {
                t.temperature_c.value()
            } else {
                0
            }
            &&& s.pressure_bar.value() == if t.pressure_bar.finite() && t.pressure_bar.value() > 0 {
                t.pressure_bar.value()
            } else {
                0
            }
            &&& s.flow_gps.value() == if t.scale_connected && t.flow_gps.finite() {
                t.flow_gps.value()
            } else {
                0
            }
            &&& t.sample_index >= shot.started_sample_index && (t.sample_index
                - shot.started_sample_index) * 50 <= u32::MAX ==> s.elapsed_ms == (t.sample_index
                - shot.started_sample_index) * 50
            &&& t.sample_index < shot.started_sample_index ==> s.elapsed_ms == 0
            &&& (t.sample_index - shot.started_sample_index) * 50 > u32::MAX ==> s.elapsed_ms
                == u32::MAX
            &&& s.temperature_c.finite() && s.pressure_bar.finite() && s.flow_gps.finite()
            &&& !s.pressure_bar.negative()
        }),
{
    ieee::lemma_magnitude_value_of_zero(0, binary32::HIDDEN_BIT as nat);
    if t.pressure_bar.finite() {
        binary32::lemma_order_is_by_value(binary32::zero(), t.pressure_bar);
        ieee::lemma_magnitude_value_of_zero(
            t.pressure_bar.magnitude(),
            binary32::HIDDEN_BIT as nat,
        );
    }
}

/// What the scale gained is the difference of the weights to a part in `2^24`, and nothing where
/// it gained nothing.
proof fn lemma_gain_is_close(w: Binary32, p: Binary32)
    requires
        w.finite() && p.finite(),
        w.value() >= 0 && p.value() >= 0,
    ensures
        ({
            let g = shot_history::gain(w, p);
            let e = w.value() - p.value();
            &&& g.finite()
            &&& e <= 0 ==> g.value() == 0
            &&& e > 0 ==> 0x100_0000 * arithmetic_laws::apart(g.value(), e) <= e
        }),
{
    let d = w.difference(p);
    let e = w.value() - p.value();
    let h = binary32::HIDDEN_BIT as nat;
    ieee::lemma_magnitude_value_of_zero(0, h);
    ieee::lemma_magnitude_value_of_zero(w.magnitude(), h);
    ieee::lemma_magnitude_value_of_zero(p.magnitude(), h);
    assert(p.negated().value() == -p.value());
    reveal(Binary32::sum);
    assert(d.finite()) by {
        let a = w.absolute();
        let b = p.absolute();
        assert(a.value() == w.value() && b.value() == p.value());
        binary32::lemma_difference_is_finite(a, b);
        assert(b.negated().value() == -b.value());
    }
    arithmetic_laws::lemma_sum_is_close(w, p.negated());
    binary32::lemma_order_is_by_value(binary32::zero(), d);
}

/// The weight of a sample is what the scale gained since the shot started, and nothing without a
/// scale.
pub proof fn lemma_sample_weight_is_the_gain(shot: ActiveShotView, t: LiveTelemetryPoint)
    requires
        t.weight_g.finite() && t.weight_g.value() >= 0,
        shot.initial_weight_g.finite() && shot.initial_weight_g.value() >= 0,
    ensures
        ({
            let w = shot.sample_of(t).weight_g;
            let e = t.weight_g.value() - shot.initial_weight_g.value();
            &&& !t.scale_connected || e <= 0 ==> w.value() == 0
            &&& t.scale_connected && e > 0 ==> 0x100_0000 * arithmetic_laws::apart(w.value(), e)
                <= e
        }),
{
    ieee::lemma_magnitude_value_of_zero(0, binary32::HIDDEN_BIT as nat);
    lemma_gain_is_close(t.weight_g, shot.initial_weight_g);
}

/// A shot starts with the weight that the scale shows, so that the gain counts from there, and
/// with one sample of its first reading at the time 0.
pub proof fn lemma_shot_starts_with_its_first_reading(
    started_at_epoch_ms: u64,
    t: LiveTelemetryPoint,
)
    ensures
        ({
            let shot = shot_history::shot_started(started_at_epoch_ms, t);
            &&& shot.started_at_epoch_ms == started_at_epoch_ms
            &&& shot.started_sample_index == t.sample_index
            &&& t.scale_connected ==> shot.initial_weight_g == t.weight_g
            &&& !t.scale_connected ==> shot.initial_weight_g.value() == 0
            &&& shot.samples == seq![shot.sample_of(t)]
            &&& shot.samples[0].elapsed_ms == 0
        }),
{
    ieee::lemma_magnitude_value_of_zero(0, binary32::HIDDEN_BIT as nat);
    let shot = shot_history::shot_started(started_at_epoch_ms, t);
    assert(shot.samples =~= seq![shot.sample_of(t)]);
}

/// A further reading adds a sample behind the others and changes nothing that was fixed at the
/// start.
pub proof fn lemma_reading_adds_a_sample(shot: ActiveShotView, t: LiveTelemetryPoint)
    ensures
        ({
            let after = shot.with_sample(t);
            &&& after.samples == shot.samples.push(shot.sample_of(t))
            &&& after.started_at_epoch_ms == shot.started_at_epoch_ms
            &&& after.started_sample_index == shot.started_sample_index
            &&& after.initial_weight_g == shot.initial_weight_g
            &&& after.manual == shot.manual
        }),
{
}

/// A completed shot has the number, the times and the samples of the shot, with a sample of the
/// last reading at its end. What it yielded is what the scale gained since the start.
pub proof fn lemma_completed_shot_keeps_its_samples(
    shot: ActiveShotView,
    id: u64,
    ended_at_epoch_ms: u64,
    t: LiveTelemetryPoint,
)
    ensures
        ({
            let r = shot.completed(id, ended_at_epoch_ms, t);
            let n = shot.samples.len() as int;
            &&& r.id == id
            &&& r.started_at_epoch_ms == shot.started_at_epoch_ms
            &&& r.ended_at_epoch_ms == ended_at_epoch_ms
            &&& r.manual == shot.manual
            &&& r.duration_ms == shot.sample_of(t).elapsed_ms
            &&& r.samples.len() > 0 && r.samples.last().elapsed_ms == r.duration_ms
            &&& r.samples == shot.samples || r.samples == shot.samples.push(shot.sample_of(t))
            &&& r.samples == shot.samples ==> n > 0 && shot.samples[n - 1].elapsed_ms
                == r.duration_ms
            &&& n > 0 && shot.samples[n - 1].elapsed_ms == r.duration_ms ==> r.samples
                == shot.samples
        }),
{
    assert(shot.samples.push(shot.sample_of(t)).len() != shot.samples.len());
}

/// What a shot yielded is what the scale gained from its start to its end, and nothing without a
/// scale.
pub proof fn lemma_yield_is_the_gain(
    shot: ActiveShotView,
    id: u64,
    ended_at_epoch_ms: u64,
    t: LiveTelemetryPoint,
)
    requires
        t.weight_g.finite() && t.weight_g.value() >= 0,
        shot.initial_weight_g.finite() && shot.initial_weight_g.value() >= 0,
    ensures
        ({
            let y = shot.completed(id, ended_at_epoch_ms, t).yield_g;
            let e = t.weight_g.value() - shot.initial_weight_g.value();
            &&& !t.scale_connected || e <= 0 ==> y.value() == 0
            &&& t.scale_connected && e > 0 ==> 0x100_0000 * arithmetic_laws::apart(y.value(), e)
                <= e
        }),
{
    if t.scale_connected {
        lemma_gain_is_close(t.weight_g, shot.initial_weight_g);
    } else {
        lemma_gain_is_close(shot.initial_weight_g, shot.initial_weight_g);
    }
}

/// The newest shot comes first, the others move back by one, the 25th falls off, and the next
/// shot gets the next number.
pub proof fn lemma_newest_shot_comes_first(history: ShotHistoryView, record: ShotRecordView)
    requires
        history.completed.len() <= 24,
    ensures
        ({
            let after = history.with_completed(record);
            &&& after.active is None
            &&& after.completed.len() == if history.completed.len() < 24 {
                history.completed.len() + 1
            } else {
                24
            }
            &&& after.completed[0] == record
            &&& forall|i: int|
                1 <= i < after.completed.len() ==> #[trigger] after.completed[i]
                    == history.completed[i - 1]
            &&& history.next_id < u64::MAX ==> after.next_id == history.next_id + 1
        }),
{
}

/// The value of a double-precision number, in units of `2^-1074`.
spec fn value64(x: Binary64) -> int {
    ieee::signed_value(x.sign_and_magnitude, binary64::HIDDEN_BIT)
}

spec fn finite64(x: Binary64) -> bool {
    x.sign_and_magnitude.mag < binary64::INFINITE_FIELD
}

/// The rounded sum of some numbers, from the first to the last.
spec fn added(s: Seq<Binary32>) -> Binary64
    decreases s.len(),
{
    if s.len() == 0 {
        binary64::zero()
    } else {
        added(s.drop_last()).sum(binary64::widened(s.last()))
    }
}

/// The sum of some numbers without their signs.
pub open spec fn sizes(s: Seq<Binary32>) -> int
    decreases s.len(),
{
    if s.len() == 0 {
        0
    } else {
        sizes(s.drop_last()) + arithmetic_laws::size(s.last())
    }
}

/// Whether some numbers are all finite.
pub open spec fn all_finite(s: Seq<Binary32>) -> bool {
    forall|i: int| 0 <= i < s.len() ==> (#[trigger] s[i]).finite()
}

/// A magnitude up to `2^1300` units is finite, and rounded to a part in `2^53`.
proof fn lemma_rounded64(n: nat)
    requires
        n <= pow2(1300),
    ensures
        ({
            let h = binary64::HIDDEN_BIT as nat;
            let f = rounding::magnitude_of(n, 1, h);
            let v = rounding::magnitude_value(f, h) as int;
            &&& f < binary64::INFINITE_FIELD
            &&& 0x20_0000_0000_0000 * (v - n) <= n
            &&& 0x20_0000_0000_0000 * (n - v) <= n
        }),
{
    let h = binary64::HIDDEN_BIT as nat;
    let f = rounding::magnitude_of(n, 1, h);
    lemma_limit64();
    rounding::lemma_magnitude_is_exact(1500 * h, h);
    rounding::lemma_rounding_keeps_order(n, rounding::magnitude_value(1500 * h, h), 1, h);
    rounding::lemma_rounding_is_close(n, 1, h);
    let v = rounding::magnitude_value(f, h);
    assert(v * 1 == v && h * 1 == h);
}

proof fn lemma_limit64()
    ensures
        ({
            let h = binary64::HIDDEN_BIT as nat;
            pow2(1300) <= rounding::magnitude_value(1500 * h, h)
        }),
{
    let h = binary64::HIDDEN_BIT as nat;
    let top = 1500 * h;
    assert(top / h == 1500 && top % h == 0);
    assert(rounding::significand(top, h) == h && rounding::doublings(top, h) == 1499);
    lemma_pow2_strictly_increases(1300, 1499);
    assert(h * pow2(1499) >= pow2(1499)) by (nonlinear_arith)
        requires
            h >= 1,
            pow2(1499) >= 0,
    ;
}

proof fn lemma_widened_is_exact(x: Binary32)
    requires
        x.finite(),
        arithmetic_laws::size(x) <= pow2(300),
    ensures
        finite64(binary64::widened(x)),
        value64(binary64::widened(x)) == x.value() * pow2(925),
{
    reveal(binary64::widened);
    let h = binary64::HIDDEN_BIT as nat;
    let h32 = binary32::HIDDEN_BIT as nat;
    let m = x.magnitude();
    let sig = rounding::significand(m, h32);
    let k = rounding::doublings(m, h32);
    let n = arithmetic_laws::size(x) * pow2(925);
    assert(arithmetic_laws::size(x) == sig * pow2(k));
    lemma_pow2_adds(k, 925);
    lemma_pow2_adds(300, 925);
    lemma_pow2_strictly_increases(1225, 1300);
    lemma_pow2_pos(925);
    assert(n == sig * pow2(k + 925)) by (nonlinear_arith)
        requires
            n == (sig * pow2(k)) * pow2(925),
            pow2(k + 925) == pow2(k) * pow2(925),
    ;
    assert(n <= pow2(1300)) by (nonlinear_arith)
        requires
            n == arithmetic_laws::size(x) * pow2(925),
            arithmetic_laws::size(x) <= pow2(300),
            pow2(1225) == pow2(300) * pow2(925),
            pow2(1225) < pow2(1300),
            pow2(925) > 0,
    ;
    assert(sig < 2 * h);
    rounding::lemma_doubled_is_exact(sig, k + 925, h);
    lemma_rounded64(n);
    assert(x.value() * pow2(925) == if x.negative() {
        -(n as int)
    } else {
        n as int
    }) by (nonlinear_arith)
        requires
            n == arithmetic_laws::size(x) * pow2(925),
            x.negative() ==> x.value() == -arithmetic_laws::size(x),
            !x.negative() ==> x.value() == arithmetic_laws::size(x),
    ;
}

proof fn lemma_sum64(a: Binary64, b: Binary64)
    requires
        finite64(a) && finite64(b),
        binary32::distance_from_zero(value64(a) + value64(b)) <= pow2(1300),
    ensures
        finite64(a.sum(b)),
        ({
            let e = value64(a) + value64(b);
            0x20_0000_0000_0000 * arithmetic_laws::apart(value64(a.sum(b)), e)
                <= binary32::distance_from_zero(e)
        }),
{
    reveal(Binary64::sum);
    let e = value64(a) + value64(b);
    lemma_rounded64(binary32::distance_from_zero(e));
    ieee::lemma_magnitude_value_of_zero(0, binary64::HIDDEN_BIT as nat);
}

proof fn lemma_added_is_close(s: Seq<Binary32>)
    requires
        all_finite(s),
        s.len() < 0x100_0000,
        sizes(s) <= pow2(300),
    ensures
        ({
            let f = pow2(925) as int;
            let t = value64(added(s));
            let e = summary_laws::exact_sum(s);
            &&& finite64(added(s))
            &&& 0 <= sizes(s)
            &&& -sizes(s) <= e <= sizes(s)
            &&& 0x20_0000_0000_0000 * arithmetic_laws::apart(t, e * f) <= 2 * s.len() * (sizes(s)
                * f)
        }),
    decreases s.len(),
{
    let f = pow2(925) as int;
    lemma_pow2_pos(925);
    if s.len() == 0 {
        ieee::lemma_magnitude_value_of_zero(0, binary64::HIDDEN_BIT as nat);
        assert(0 * f == 0);
    } else {
        let shorter = s.drop_last();
        let x = s.last();
        assert forall|i: int| 0 <= i < shorter.len() implies (#[trigger] shorter[i]).finite() by {
            assert(shorter[i] == s[i]);
        }
        assert(s[s.len() - 1].finite());
        lemma_added_is_close(shorter);
        lemma_widened_is_exact(x);
        let n0 = shorter.len() as int;
        let n = n0 + 1;
        let t0 = value64(added(shorter));
        let e0 = summary_laws::exact_sum(shorter);
        let a0 = sizes(shorter);
        let e = summary_laws::exact_sum(s);
        let a = sizes(s);
        let xv = x.value();
        let xs = arithmetic_laws::size(x) as int;
        let af = a * f;
        let a0f = a0 * f;
        let xf = xv * f;
        let e0f = e0 * f;
        let ef = e * f;
        assert(ef == e0f + xf && af == a0f + xs * f && -(xs * f) <= xf <= xs * f && -a0f <= e0f
            <= a0f && a0f >= 0 && xs * f >= 0) by (nonlinear_arith)
            requires
                ef == e * f,
                e == e0 + xv,
                e0f == e0 * f,
                xf == xv * f,
                af == a * f,
                a == a0 + xs,
                a0f == a0 * f,
                -xs <= xv <= xs,
                -a0 <= e0 <= a0,
                0 <= a0,
                0 <= xs,
                f > 0,
        ;
        assert(2 * n0 * a0f <= 0x200_0000 * a0f) by (nonlinear_arith)
            requires
                0 <= n0 < 0x100_0000,
                a0f >= 0,
        ;
        let sum = t0 + xf;
        assert(-2 * af <= sum <= 2 * af);
        lemma_pow2_adds(300, 925);
        lemma_pow2_strictly_increases(1226, 1300);
        lemma_pow2_unfold(1226);
        assert(2 * af <= pow2(1300)) by (nonlinear_arith)
            requires
                af == a * f,
                a <= pow2(300),
                pow2(1225) == pow2(300) * f,
                pow2(1226) == 2 * pow2(1225),
                pow2(1226) < pow2(1300),
                f > 0,
        ;
        lemma_sum64(added(shorter), binary64::widened(x));
        assert(2 * n0 * a0f + 2 * af <= 2 * n * af) by (nonlinear_arith)
            requires
                n == n0 + 1,
                0 <= n0,
                0 <= a0f <= af,
        ;
    }
}

/// Whether the mean of some numbers is as near to the exact one as rounding allows.
pub open spec fn near_mean(mean: Binary32, s: Seq<Binary32>) -> bool {
    let n = s.len() as int;
    &&& mean.finite()
    &&& 0x20_0000 * arithmetic_laws::apart(mean.value() * n, summary_laws::exact_sum(s)) <= sizes(s)
        + 0x20_0000 * n
}

proof fn lemma_count_is_exact(n: nat)
    requires
        0 < n < 0x100_0000,
    ensures
        finite64(binary64::of_count(n)),
        !binary64::of_count(n).sign_and_magnitude.negative,
        value64(binary64::of_count(n)) == n * pow2(1074),
{
    reveal(binary64::of_count);
    let h = binary64::HIDDEN_BIT as nat;
    rounding::lemma_doubled_is_exact(n, 1074, h);
    lemma2_to64();
    lemma_pow2_adds(24, 1074);
    lemma_pow2_strictly_increases(1098, 1300);
    lemma_pow2_pos(1074);
    assert(n * pow2(1074) <= pow2(1300)) by (nonlinear_arith)
        requires
            n <= 0x100_0000,
            pow2(24) == 0x100_0000,
            pow2(1098) == pow2(24) * pow2(1074),
            pow2(1098) < pow2(1300),
            pow2(1074) > 0,
    ;
    lemma_rounded64(n * pow2(1074));
}

/// A sum over a count, and what is near to it.
proof fn lemma_quotient64(t: Binary64, n: nat)
    requires
        finite64(t),
        0 < n < 0x100_0000,
        binary32::distance_from_zero(value64(t)) <= pow2(1300),
    ensures
        ({
            let q = t.quotient(binary64::of_count(n));
            let tv = binary32::distance_from_zero(value64(t)) as int;
            let qv = binary32::distance_from_zero(value64(q)) as int;
            &&& finite64(q)
            &&& q.sign_and_magnitude.negative == t.sign_and_magnitude.negative
            &&& 0x20_0000_0000_0000 * (qv * n - tv) <= tv + 0x10_0000_0000_0000 * n
            &&& 0x20_0000_0000_0000 * (tv - qv * n) <= tv + 0x10_0000_0000_0000 * n
        }),
{
    reveal(Binary64::quotient);
    let c = binary64::of_count(n);
    let q = t.quotient(c);
    let h = binary64::HIDDEN_BIT as nat;
    let u = pow2(1074) as int;
    let tv = binary32::distance_from_zero(value64(t)) as int;
    let cv = value64(c);
    lemma_count_is_exact(n);
    lemma_pow2_pos(1074);
    assert(cv >= u) by (nonlinear_arith)
        requires
            cv == n * u,
            n >= 1,
            u > 0,
    ;
    ieee::lemma_magnitude_value_of_zero(c.sign_and_magnitude.mag as nat, h);
    lemma_limit64();
    let top = rounding::magnitude_value(1500 * h, h);
    rounding::lemma_magnitude_is_exact(1500 * h, h);
    arithmetic_laws::lemma_common_factor_is_dropped(top, 1, cv as nat, h);
    assert(1 * cv == cv);
    assert(tv * u <= top * cv) by (nonlinear_arith)
        requires
            0 <= tv <= top,
            0 < u <= cv,
    ;
    rounding::lemma_rounding_keeps_order((tv * u) as nat, (top * cv) as nat, cv as nat, h);
    rounding::lemma_rounding_is_close((tv * u) as nat, cv as nat, h);
    let qv = binary32::distance_from_zero(value64(q)) as int;
    assert(qv == rounding::magnitude_value(
        rounding::magnitude_of((tv * u) as nat, cv as nat, h),
        h,
    ));
    let m = n as int;
    let over = 0x20_0000_0000_0000 * (qv * m - tv) - tv - 0x10_0000_0000_0000 * m;
    let under = 0x20_0000_0000_0000 * (tv - qv * m) - tv - 0x10_0000_0000_0000 * m;
    let tu = tv * u;
    let qc = qv * cv;
    assert(tu >= 0) by (nonlinear_arith)
        requires
            tu == tv * u,
            tv >= 0,
            u > 0,
    ;
    assert(0x20_0000_0000_0000 * (qc - tu) <= tu + 0x10_0000_0000_0000 * cv);
    assert(0x20_0000_0000_0000 * (tu - qc) <= tu + 0x10_0000_0000_0000 * cv);
    assert(over * u == 0x20_0000_0000_0000 * (qc - tu) - tu - 0x10_0000_0000_0000 * cv && under * u
        == 0x20_0000_0000_0000 * (tu - qc) - tu - 0x10_0000_0000_0000 * cv) by (nonlinear_arith)
        requires
            over == 0x20_0000_0000_0000 * (qv * m - tv) - tv - 0x10_0000_0000_0000 * m,
            under == 0x20_0000_0000_0000 * (tv - qv * m) - tv - 0x10_0000_0000_0000 * m,
            tu == tv * u,
            qc == qv * cv,
            cv == m * u,
    ;
    assert(over <= 0) by (nonlinear_arith)
        requires
            over * u <= 0,
            u > 0,
    ;
    assert(under <= 0) by (nonlinear_arith)
        requires
            under * u <= 0,
            u > 0,
    ;
}

proof fn lemma_narrowed_is_close(q: Binary64)
    requires
        finite64(q),
        binary32::distance_from_zero(value64(q)) <= pow2(260) * pow2(925),
    ensures
        ({
            let r = q.narrowed();
            let f = pow2(925) as int;
            let qv = binary32::distance_from_zero(value64(q)) as int;
            let rf = arithmetic_laws::size(r) * f;
            &&& r.finite()
            &&& r.negative() == q.sign_and_magnitude.negative
            &&& 0x100_0000 * (rf - qv) <= qv + 0x80_0000 * f
            &&& 0x100_0000 * (qv - rf) <= qv + 0x80_0000 * f
        }),
{
    reveal(Binary64::narrowed);
    let h = binary32::HIDDEN_BIT as nat;
    let f = pow2(925);
    let qv = binary32::distance_from_zero(value64(q));
    lemma_pow2_pos(925);
    let most = Binary32::from_bits(0x7780_0000);
    lemma2_to64();
    binary32::lemma_value_of(most, 0x80_0000, 238);
    lemma_pow2_adds(238, 23);
    lemma_pow2_strictly_increases(260, 261);
    assert(0x80_0000 * pow2(238) == pow2(261)) by (nonlinear_arith)
        requires
            pow2(238) * pow2(23) == pow2(261),
            pow2(23) == 0x80_0000,
    ;
    let top = most.value() as nat;
    rounding::lemma_magnitude_is_exact(most.magnitude(), h);
    arithmetic_laws::lemma_common_factor_is_dropped(top, 1, f, h);
    assert(1 * f == f);
    assert(qv <= top * f) by (nonlinear_arith)
        requires
            qv <= pow2(260) * f,
            pow2(260) <= top,
            f > 0,
    ;
    rounding::lemma_rounding_keeps_order(qv, top * f, f, h);
    rounding::lemma_rounding_is_close(qv, f, h);
    let r = q.narrowed();
    assert(arithmetic_laws::size(r) == rounding::magnitude_value(
        rounding::magnitude_of(qv, f, h),
        h,
    ));
}

#[verifier::rlimit(40)]
proof fn lemma_mean_is_near(s: Seq<Binary32>)
    requires
        all_finite(s),
        0 < s.len() < 0x100_0000,
        sizes(s) <= pow2(250),
    ensures
        near_mean(added(s).quotient(binary64::of_count(s.len())).narrowed().or_zero(), s),
{
    let n = s.len() as int;
    let f = pow2(925) as int;
    let t = added(s);
    let e = summary_laws::exact_sum(s);
    let a = sizes(s);
    lemma_pow2_pos(925);
    lemma_pow2_strictly_increases(250, 300);
    lemma_added_is_close(s);
    let af = a * f;
    let ef = e * f;
    assert(-af <= ef <= af && af >= 0) by (nonlinear_arith)
        requires
            af == a * f,
            ef == e * f,
            -a <= e <= a,
            0 <= a,
            f > 0,
    ;
    assert(2 * n * af <= 0x200_0000 * af) by (nonlinear_arith)
        requires
            0 <= n < 0x100_0000,
            af >= 0,
    ;
    let tv = binary32::distance_from_zero(value64(t)) as int;
    assert(tv <= 2 * af);
    lemma_pow2_adds(250, 925);
    lemma_pow2_unfold(1176);
    lemma_pow2_strictly_increases(1176, 1300);
    assert(2 * af <= pow2(1300)) by (nonlinear_arith)
        requires
            af == a * f,
            a <= pow2(250),
            pow2(1175) == pow2(250) * f,
            pow2(1176) == 2 * pow2(1175),
            pow2(1176) < pow2(1300),
            f > 0,
    ;
    lemma_quotient64(t, n as nat);
    let q = t.quotient(binary64::of_count(n as nat));
    let qv = binary32::distance_from_zero(value64(q)) as int;
    let qn = qv * n;
    assert(qn >= qv) by (nonlinear_arith)
        requires
            qn == qv * n,
            n >= 1,
            qv >= 0,
    ;
    assert(qn <= 3 * af + n);
    lemma2_to64();
    lemma_pow2_strictly_increases(24, 250);
    lemma_pow2_unfold(252);
    lemma_pow2_unfold(251);
    lemma_pow2_strictly_increases(252, 260);
    assert(qv <= pow2(260) * pow2(925)) by (nonlinear_arith)
        requires
            qv <= 3 * af + n,
            af == a * f,
            a <= pow2(250),
            n < 0x100_0000,
            pow2(24) == 0x100_0000,
            pow2(24) < pow2(250),
            pow2(252) == 2 * pow2(251),
            pow2(251) == 2 * pow2(250),
            pow2(252) < pow2(260),
            f == pow2(925),
            f >= 1,
    ;
    lemma_narrowed_is_close(q);
    let r = q.narrowed();
    let size = arithmetic_laws::size(r) as int;
    let rf = size * f;
    let rfn = rf * n;
    let nf = n * f;
    assert(0x100_0000 * (rfn - qn) <= qn + 0x80_0000 * nf && 0x100_0000 * (qn - rfn) <= qn
        + 0x80_0000 * nf) by (nonlinear_arith)
        requires
            n > 0,
            rfn == rf * n,
            qn == qv * n,
            nf == n * f,
            0x100_0000 * (rf - qv) <= qv + 0x80_0000 * f,
            0x100_0000 * (qv - rf) <= qv + 0x80_0000 * f,
    ;
    lemma_pow2_unfold(925);
    lemma_pow2_pos(924);
    assert(nf >= 2 * n) by (nonlinear_arith)
        requires
            nf == n * f,
            f >= 2,
            n >= 0,
    ;
    let v = r.value() * n;
    let signed = if r.negative() {
        -rfn
    } else {
        rfn
    };
    lemma_signed(r, size, rf, rfn, n, f);
    lemma_combined(signed, qn, tv, value64(t), ef, af, nf, n);
    lemma_coarser(v, e, a, n, f);
}

proof fn lemma_signed(r: Binary32, size: int, rf: int, rfn: int, n: int, f: int)
    requires
        size == arithmetic_laws::size(r),
        rf == size * f,
        rfn == rf * n,
    ensures
        (if r.negative() {
            -rfn
        } else {
            rfn
        }) == (r.value() * n) * f,
{
    let v = r.value() * n;
    if r.negative() {
        assert(r.value() == -size);
        assert(-rfn == v * f) by (nonlinear_arith)
            requires
                rf == size * f,
                rfn == rf * n,
                v == r.value() * n,
                r.value() == -size,
        ;
    } else {
        assert(r.value() == size);
        assert(rfn == v * f) by (nonlinear_arith)
            requires
                rf == size * f,
                rfn == rf * n,
                v == r.value() * n,
                r.value() == size,
        ;
    }
}

/// The errors of the sum, the quotient and the narrowing taken together.
proof fn lemma_combined(
    signed: int,
    qn: int,
    tv: int,
    t: int,
    ef: int,
    af: int,
    nf: int,
    n: int,
)
    requires
        0 < n < 0x100_0000,
        nf >= 2 * n,
        qn >= 0,
        tv == binary32::distance_from_zero(t),
        -af <= ef <= af,
        0x20_0000_0000_0000 * arithmetic_laws::apart(t, ef) <= 0x200_0000 * af,
        0x20_0000_0000_0000 * (qn - tv) <= tv + 0x10_0000_0000_0000 * n,
        0x20_0000_0000_0000 * (tv - qn) <= tv + 0x10_0000_0000_0000 * n,
        t < 0 ==> 0x100_0000 * (-signed - qn) <= qn + 0x80_0000 * nf && 0x100_0000 * (qn + signed)
            <= qn + 0x80_0000 * nf,
        t > 0 ==> 0x100_0000 * (signed - qn) <= qn + 0x80_0000 * nf && 0x100_0000 * (qn - signed)
            <= qn + 0x80_0000 * nf,
        t == 0 ==> 0x100_0000 * binary32::distance_from_zero(signed) <= 0x100_0000 * qn + qn
            + 0x80_0000 * nf,
    ensures
        0x20_0000 * (signed - ef) <= af + 0x20_0000 * nf,
        0x20_0000 * (ef - signed) <= af + 0x20_0000 * nf,
{
    let d1 = arithmetic_laws::apart(t, ef) as int;
    assert(0x1000_0000 * d1 <= af);
    assert(tv <= af + d1);
    assert(2 * tv <= 3 * af);
    let d2 = arithmetic_laws::apart(qn, tv) as int;
    assert(0x100_0000 * d2 <= af + 0x80_0000 * n);
    assert(qn <= 2 * af + n);
    if t < 0 {
        let d3 = arithmetic_laws::apart(-signed, qn) as int;
        assert(0x100_0000 * d3 <= qn + 0x80_0000 * nf);
        assert(-signed - (-t) <= d3 + d2 && -t + signed <= d3 + d2);
    } else if t > 0 {
        let d3 = arithmetic_laws::apart(signed, qn) as int;
        assert(0x100_0000 * d3 <= qn + 0x80_0000 * nf);
        assert(signed - t <= d3 + d2 && t - signed <= d3 + d2);
    } else {
        assert(qn == d2);
    }
}

/// A bound in finer units holds in coarser ones.
proof fn lemma_coarser(v: int, e: int, a: int, n: int, f: int)
    requires
        f > 0,
        0x20_0000 * (v * f - e * f) <= a * f + 0x20_0000 * (n * f),
        0x20_0000 * (e * f - v * f) <= a * f + 0x20_0000 * (n * f),
    ensures
        0x20_0000 * (v - e) <= a + 0x20_0000 * n,
        0x20_0000 * (e - v) <= a + 0x20_0000 * n,
{
    let over = 0x20_0000 * (v - e) - a - 0x20_0000 * n;
    let under = 0x20_0000 * (e - v) - a - 0x20_0000 * n;
    assert(over * f == 0x20_0000 * (v * f - e * f) - a * f - 0x20_0000 * (n * f) && under * f
        == 0x20_0000 * (e * f - v * f) - a * f - 0x20_0000 * (n * f)) by (nonlinear_arith)
        requires
            over == 0x20_0000 * (v - e) - a - 0x20_0000 * n,
            under == 0x20_0000 * (e - v) - a - 0x20_0000 * n,
    ;
    assert(over <= 0) by (nonlinear_arith)
        requires
            over * f <= 0,
            f > 0,
    ;
    assert(under <= 0) by (nonlinear_arith)
        requires
            under * f <= 0,
            f > 0,
    ;
}

/// The pressures of some samples.
pub open spec fn pressures_of(samples: Seq<ShotSample>) -> Seq<Binary32> {
    samples.map_values(|s: ShotSample| s.pressure_bar)
}

/// The temperatures of some samples.
pub open spec fn temperatures_of(samples: Seq<ShotSample>) -> Seq<Binary32> {
    samples.map_values(|s: ShotSample| s.temperature_c)
}

/// Whether the running sums, the count and the peak of a shot in progress belong to its samples.
pub closed spec fn in_step(shot: ActiveShotView) -> bool {
    &&& shot.samples.len() == shot.sample_count
    &&& shot.samples.len() > 0
    &&& all_finite(pressures_of(shot.samples))
    &&& all_finite(temperatures_of(shot.samples))
    &&& shot.pressure_sum == added(pressures_of(shot.samples))
    &&& shot.temperature_sum == added(temperatures_of(shot.samples))
    &&& shot.peak_pressure_bar.finite()
    &&& pressures_of(shot.samples).contains(shot.peak_pressure_bar)
    &&& forall|i: int|
        0 <= i < shot.samples.len() ==> (#[trigger] shot.samples[i]).pressure_bar.value()
            <= shot.peak_pressure_bar.value()
}

proof fn lemma_sample_keeps_step(shot: ActiveShotView, t: LiveTelemetryPoint)
    requires
        in_step(shot) || (shot.samples.len() == 0 && shot.sample_count == 0 && shot.pressure_sum
            == binary64::zero() && shot.temperature_sum == binary64::zero()
            && shot.peak_pressure_bar == shot.sample_of(t).pressure_bar),
        shot.samples.len() < u32::MAX,
    ensures
        in_step(shot.with_sample(t)),
{
    let after = shot.with_sample(t);
    let s = shot.sample_of(t);
    let p0 = pressures_of(shot.samples);
    let p1 = pressures_of(after.samples);
    let t0 = temperatures_of(shot.samples);
    let t1 = temperatures_of(after.samples);
    lemma_sample_has_its_readings(shot, t);
    assert(p1.drop_last() =~= p0 && p1.last() == s.pressure_bar);
    assert(t1.drop_last() =~= t0 && t1.last() == s.temperature_c);
    assert(all_finite(p1)) by {
        assert forall|i: int| 0 <= i < p1.len() implies (#[trigger] p1[i]).finite() by {
            if i < p0.len() {
                assert(p1[i] == p0[i]);
            }
        }
    }
    assert(all_finite(t1)) by {
        assert forall|i: int| 0 <= i < t1.len() implies (#[trigger] t1[i]).finite() by {
            if i < t0.len() {
                assert(t1[i] == t0[i]);
            }
        }
    }
    if shot.samples.len() == 0 {
        assert(p0 =~= Seq::<Binary32>::empty() && t0 =~= Seq::<Binary32>::empty());
    }
    let n = shot.samples.len() as int;
    let peak = after.peak_pressure_bar;
    assert(p1.len() == n + 1 && t1.len() == n + 1);
    assert(added(p0) == shot.pressure_sum && added(t0) == shot.temperature_sum);
    assert(added(p1) == added(p0).sum(binary64::widened(s.pressure_bar)));
    assert(added(t1) == added(t0).sum(binary64::widened(s.temperature_c)));
    assert(after.pressure_sum == added(p1));
    assert(after.temperature_sum == added(t1));
    assert(after.samples.len() == after.sample_count);
    binary32::lemma_order_is_by_value(s.pressure_bar, shot.peak_pressure_bar);
    assert(p1.contains(peak)) by {
        if peak == s.pressure_bar {
            assert(p1[n] == peak);
        } else {
            let i = choose|i: int| 0 <= i < p0.len() && p0[i] == shot.peak_pressure_bar;
            assert(p1[i] == peak);
        }
    }
    assert forall|i: int| 0 <= i < after.samples.len() implies (
    #[trigger] after.samples[i]).pressure_bar.value() <= peak.value() by {
        if i < n {
            assert(after.samples[i] == shot.samples[i]);
        }
    }
}

/// A shot that starts is in step, and every reading keeps it so.
pub proof fn lemma_shot_stays_in_step(
    started_at_epoch_ms: u64,
    first: LiveTelemetryPoint,
    shot: ActiveShotView,
    next: LiveTelemetryPoint,
)
    ensures
        in_step(shot_history::shot_started(started_at_epoch_ms, first)),
        in_step(shot) && shot.samples.len() < u32::MAX ==> in_step(shot.with_sample(next)),
{
    let empty = ActiveShotView {
        started_at_epoch_ms,
        started_sample_index: first.sample_index,
        initial_weight_g: if first.scale_connected {
            first.weight_g
        } else {
            binary32::zero()
        },
        manual: true,
        peak_pressure_bar: shot_history::sample_pressure(first),
        pressure_sum: binary64::zero(),
        temperature_sum: binary64::zero(),
        sample_count: 0,
        samples: seq![],
    };
    lemma_sample_keeps_step(empty, first);
    if in_step(shot) && shot.samples.len() < u32::MAX {
        lemma_sample_keeps_step(shot, next);
    }
}

/// The peak pressure of a completed shot is the highest of its samples' pressures, and its mean
/// pressure and temperature are those of its samples, as near as rounding allows.
pub proof fn lemma_completed_shot_sums_up_its_samples(
    shot: ActiveShotView,
    id: u64,
    ended_at_epoch_ms: u64,
    t: LiveTelemetryPoint,
)
    requires
        in_step(shot),
        shot.samples.len() < 0xff_ffff,
    ensures
        ({
            let r = shot.completed(id, ended_at_epoch_ms, t);
            let pressures = r.samples.map_values(|s: ShotSample| s.pressure_bar);
            let temperatures = r.samples.map_values(|s: ShotSample| s.temperature_c);
            &&& pressures.contains(r.peak_pressure_bar)
            &&& forall|i: int|
                0 <= i < r.samples.len() ==> (#[trigger] r.samples[i]).pressure_bar.value()
                    <= r.peak_pressure_bar.value()
            &&& sizes(pressures) <= pow2(250) ==> near_mean(r.avg_pressure_bar, pressures)
            &&& sizes(temperatures) <= pow2(250) ==> near_mean(r.avg_temperature_c, temperatures)
        }),
{
    let last = shot.with_last_sample(t);
    let r = shot.completed(id, ended_at_epoch_ms, t);
    lemma_sample_keeps_step(shot, t);
    assert(in_step(last));
    let pressures = r.samples.map_values(|s: ShotSample| s.pressure_bar);
    let temperatures = r.samples.map_values(|s: ShotSample| s.temperature_c);
    assert(pressures =~= pressures_of(last.samples));
    assert(temperatures =~= temperatures_of(last.samples));
    if sizes(pressures) <= pow2(250) {
        lemma_mean_is_near(pressures);
    }
    if sizes(temperatures) <= pow2(250) {
        lemma_mean_is_near(temperatures);
    }
}

} // verus!
