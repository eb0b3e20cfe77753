//! The estimated flow stays within its limits.
use crate::binary32;
use crate::binary32::Binary32;
use crate::rounding;
use crate::telemetry_math;
use crate::telemetry_math::{
    FlowEstimator, FLOW_DECAY_ALPHA, FLOW_EMA_ALPHA, FLOW_MAX_GPS, FLOW_WEIGHT_DEADBAND_G,
};
use vstd::arithmetic::power2::*;
use vstd::prelude::*;

verus! {

/// A flow between zero and the largest one.
pub open spec fn flow_in_bounds(flow: Binary32) -> bool {
    !flow.negative() && flow.at_most(Binary32::from_bits(FLOW_MAX_GPS))
}

/// An estimator whose flow is within its limits and whose last weight is clean.
pub open spec fn sound(e: FlowEstimator) -> bool {
    &&& flow_in_bounds(e.smoothed_flow_gps)
    &&& match e.last_weight_g {
        Some(weight) => weight.finite() && !weight.negative(),
        None => true,
    }
}

/// What is left of 1 beside the weight of a new reading.
proof fn lemma_kept_share()
    ensures
        Binary32::from_bits(0x3f80_0000).difference(Binary32::from_bits(FLOW_EMA_ALPHA))
            == Binary32::from_bits(0x3f28_f5c2),
{
    reveal(Binary32::sum);
    let one = Binary32::from_bits(0x3f80_0000);
    let alpha = Binary32::from_bits(FLOW_EMA_ALPHA);
    let h = binary32::HIDDEN_BIT as nat;
    lemma2_to64();
    lemma_pow2_pos(124);
    binary32::lemma_value_of(one, 0x80_0000, 126);
    binary32::lemma_value_of(alpha, 11408507, 124);
    lemma_pow2_unfold(126);
    lemma_pow2_unfold(125);
    assert(alpha.negated().value() == -alpha.value());
    let v = one.value() + alpha.negated().value();
    assert(v == 22145925 * pow2(124));
    rounding::lemma_field_of_doubled(22145925, 124, h);
    assert(rounding::magnitude_of(22145925, 1, h) == h + rounding::magnitude_of(22145925, 2, h));
    assert(rounding::magnitude_of(22145925, 2, h) == 11072962);
}

/// Smoothing a flow within its limits with a reading within them stays within them.
proof fn lemma_smoothed_in_bounds(flow: Binary32, raw: Binary32)
    requires
        flow_in_bounds(flow),
        flow_in_bounds(raw),
    ensures
        flow_in_bounds(telemetry_math::smoothed(flow, raw)),
{
    let most = Binary32::from_bits(FLOW_MAX_GPS);
    let one = Binary32::from_bits(0x3f80_0000);
    let u = pow2(binary32::UNIT as nat);
    binary32::lemma_order_is_by_value(flow, most);
    binary32::lemma_order_is_by_value(raw, most);
    lemma_pow2_pos(124);
    lemma_pow2_adds(124, 25);
    lemma_pow2_adds(124, 5);
    lemma_pow2_adds(124, 4);
    lemma_pow2_adds(124, 2);
    lemma_pow2_adds(124, 1);
    lemma2_to64();
    let p = pow2(124);
    binary32::lemma_value_of(most, 0xc0_0000, 129);
    assert(pow2(129) == 32 * p);
    assert(most.value() == 402653184 * p) by (nonlinear_arith)
        requires
            most.value() == 0xc0_0000 * pow2(129),
            pow2(129) == 32 * p,
    ;
    if raw.same_number(binary32::zero()) {
        let alpha = Binary32::from_bits(FLOW_DECAY_ALPHA);
        let kept = one.difference(alpha);
        lemma_decay_share();
        binary32::lemma_value_of(one, 0x80_0000, 126);
        binary32::lemma_order_is_by_value(kept, one);
        assert(flow.value() * kept.value() <= flow.value() * u) by (nonlinear_arith)
            requires
                flow.value() >= 0,
                kept.value() <= u,
        ;
        binary32::lemma_product_at_most(flow, kept, flow);
        binary32::lemma_order_is_by_value(raw, binary32::zero());
        assert(binary32::zero().value() == 0) by {
            crate::ieee::lemma_magnitude_value_of_zero(0, binary32::HIDDEN_BIT as nat);
        }
        assert(raw.value() * alpha.value() == 0) by (nonlinear_arith)
            requires
                raw.value() == 0,
        ;
        assert(0 * u == 0);
        binary32::lemma_product_at_most(raw, alpha, binary32::zero());
        let decayed = flow.product(kept);
        let nothing = raw.product(alpha);
        binary32::lemma_order_is_by_value(decayed, flow);
        binary32::lemma_order_is_by_value(nothing, binary32::zero());
        binary32::lemma_sum_at_most(decayed, nothing, most);
    } else {
        let alpha = Binary32::from_bits(FLOW_EMA_ALPHA);
        let kept = one.difference(alpha);
        // The largest shares of the old flow and of the reading: 12 * 0.66 and 12 * 0.34.
        let old_share = Binary32 { bits: 0x40fd_70a3 };
        let new_share = Binary32 { bits: 0x4082_8f5d };
        lemma_kept_share();
        binary32::lemma_value_of(kept, 11072962, 125);
        binary32::lemma_value_of(alpha, 11408507, 124);
        binary32::lemma_value_of(old_share, 16609443, 128);
        binary32::lemma_value_of(new_share, 8556381, 128);
        assert(flow.value() * kept.value() <= old_share.value() * u) by (nonlinear_arith)
            requires
                0 <= flow.value() <= 402653184 * p,
                kept.value() == 22145924 * p,
                old_share.value() == 265751088 * p,
                u == 33554432 * p,
                p > 0,
        ;
        binary32::lemma_product_at_most(flow, kept, old_share);
        assert(raw.value() * alpha.value() <= new_share.value() * u) by (nonlinear_arith)
            requires
                0 <= raw.value() <= 402653184 * p,
                alpha.value() == 11408507 * p,
                new_share.value() == 136902096 * p,
                u == 33554432 * p,
                p > 0,
        ;
        binary32::lemma_product_at_most(raw, alpha, new_share);
        binary32::lemma_order_is_by_value(flow.product(kept), old_share);
        binary32::lemma_order_is_by_value(raw.product(alpha), new_share);
        binary32::lemma_sum_at_most(flow.product(kept), raw.product(alpha), most);
    }
}

/// A decaying flow keeps at most all of itself.
proof fn lemma_decay_share()
    ensures
        ({
            let one = Binary32::from_bits(0x3f80_0000);
            let kept = one.difference(Binary32::from_bits(FLOW_DECAY_ALPHA));
            !kept.negative() && kept.at_most(one)
        }),
{
    reveal(Binary32::sum);
    let one = Binary32::from_bits(0x3f80_0000);
    let alpha = Binary32::from_bits(FLOW_DECAY_ALPHA);
    let h = binary32::HIDDEN_BIT as nat;
    binary32::lemma_order_is_by_value(alpha, one);
    assert(alpha.negated().value() == -alpha.value());
    let v = (one.value() - alpha.value()) as nat;
    rounding::lemma_magnitude_is_exact(one.magnitude(), h);
    rounding::lemma_rounding_keeps_order(v, one.value() as nat, 1, h);
}

/// A reading of the flow is within its limits.
pub proof fn lemma_raw_in_bounds(gain: Binary32, delta_ms: u64)
    requires
        gain.finite(),
        delta_ms >= 1,
    ensures
        flow_in_bounds(telemetry_math::raw_flow(gain, delta_ms)),
{
    reveal(Binary32::quotient);
    reveal(binary32::of_int);
    if !gain.at_most(Binary32::from_bits(FLOW_WEIGHT_DEADBAND_G)) {
        let u = pow2(binary32::UNIT as nat);
        lemma_pow2_pos(binary32::UNIT as nat);
        assert(delta_ms as int * u > 0) by (nonlinear_arith)
            requires
                delta_ms >= 1,
                u > 0,
        ;
        let ms = binary32::of_int(delta_ms as int);
        assert(!ms.negative() && !ms.nan());
        let seconds = ms.quotient(Binary32::from_bits(0x447a_0000));
        assert(!seconds.negative() && !seconds.nan());
        assert(!gain.negative() && gain.magnitude() > 0);
        assert(!gain.quotient(seconds).negative() && !gain.quotient(seconds).nan());
    }
}

/// Whatever is weighed, and whenever, the flow is a number between zero and the largest flow: an
/// estimator starts so, and each reading keeps it so.
pub proof fn lemma_flow_stays_in_bounds(e: FlowEstimator, weight_g: Binary32, timestamp_ms: u64)
    ensures
        sound(FlowEstimator::fresh()),
        sound(e) ==> sound(e.after(weight_g, timestamp_ms)),
        sound(e) ==> flow_in_bounds(e.reported(weight_g, timestamp_ms)),
{
    if sound(e) {
        telemetry_math::lemma_clean_weight_is_clean(weight_g);
        let weight = telemetry_math::clean_weight(weight_g);
        match (e.last_weight_g, e.last_timestamp_ms) {
            (Some(previous), Some(previous_ms)) => {
                let gain = weight.difference(previous);
                let delta_ms = telemetry_math::elapsed(previous_ms, timestamp_ms);
                binary32::lemma_difference_is_finite(weight, previous);
                if delta_ms >= 1 {
                    let raw = telemetry_math::raw_flow(gain, delta_ms);
                    lemma_raw_in_bounds(gain, delta_ms);
                    lemma_smoothed_in_bounds(e.smoothed_flow_gps, raw);
                }
            },
            _ => {},
        }
    }
}

} // verus!
