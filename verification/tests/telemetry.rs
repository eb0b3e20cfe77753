use openbarista::binary32::Binary32;
use openbarista::telemetry_feed::SharedTelemetry;
use openbarista::telemetry_math::{
    bar_from_psi, psi_from_voltage, sanitize_signed_weight_g, sanitize_weight_g,
    temperature_c_from_raw, voltage_from_raw, FlowEstimator,
};

const REF_RESISTOR: f32 = 430.0;
const NOMINAL_RESISTANCE: f32 = 100.0;
const RTD_A: f32 = 3.9083e-3;
const RTD_B: f32 = -5.775e-7;
const RTD_C: f32 = -4.183e-12;
const FULL_SCALE_VOLTAGE: f32 = 4.5;
const FULL_SCALE_PSI: f32 = 250.0;

fn b(x: f32) -> Binary32 {
    Binary32::from_bits(x.to_bits())
}

fn f(x: Binary32) -> f32 {
    f32::from_bits(x.to_bits())
}

fn approx_eq(left: f32, right: f32, tolerance: f32) {
    let delta = (left - right).abs();
    assert!(
        delta <= tolerance,
        "left={left}, right={right}, delta={delta}, tolerance={tolerance}"
    );
}

fn resistance_for_pt100(temp_c: f32) -> f32 {
    if temp_c >= 0.0 {
        NOMINAL_RESISTANCE * (1.0 + RTD_A * temp_c + RTD_B * temp_c * temp_c)
    } else {
        NOMINAL_RESISTANCE
            * (1.0
                + RTD_A * temp_c
                + RTD_B * temp_c * temp_c
                + RTD_C * (temp_c - 100.0) * temp_c * temp_c * temp_c)
    }
}

fn raw_code_for_temp(temp_c: f32) -> u16 {
    let resistance = resistance_for_pt100(temp_c);
    ((resistance * 32_768.0) / REF_RESISTOR).round() as u16
}

fn temperature_for(temp_c: f32) -> f32 {
    f(temperature_c_from_raw(raw_code_for_temp(temp_c), b(REF_RESISTOR), b(NOMINAL_RESISTANCE)))
}

#[test]
fn pressure_clamps_below_zero_point() {
    approx_eq(f(psi_from_voltage(b(0.0))), 0.0, 1e-6);
    approx_eq(f(psi_from_voltage(b(0.35))), 0.0, 1e-6);
}

#[test]
fn signed_weight_sanitizer_clamps_extremes() {
    approx_eq(f(sanitize_signed_weight_g(b(-12.34))), -12.34, 1e-6);
    approx_eq(f(sanitize_signed_weight_g(b(9_999.0))), 5_000.0, 1e-6);
    approx_eq(f(sanitize_signed_weight_g(b(f32::NAN))), 0.0, 1e-6);
}

#[test]
fn pressure_maps_full_scale_voltage_to_full_scale_psi() {
    approx_eq(f(psi_from_voltage(b(FULL_SCALE_VOLTAGE))), FULL_SCALE_PSI, 1e-3);
    // Hard-coded expected value to catch regressions in PSI_TO_BAR: 250 PSI ≈ 17.2369 bar
    approx_eq(f(bar_from_psi(b(FULL_SCALE_PSI))), 17.2369, 1e-3);
}

#[test]
fn raw_adc_voltage_matches_arduino_formula() {
    approx_eq(f(voltage_from_raw(0)), 0.0, 1e-6);
    approx_eq(f(voltage_from_raw(2048)), 2048.0 / 4095.0 * 3.3, 1e-6);
    approx_eq(f(voltage_from_raw(4095)), 3.3, 1e-6);
}

#[test]
fn pt100_conversion_handles_zero_celsius() {
    approx_eq(temperature_for(0.0), 0.0, 0.05);
}

#[test]
fn pt100_conversion_handles_boiling_range() {
    approx_eq(temperature_for(100.0), 100.0, 0.15);
}

#[test]
fn pt100_conversion_handles_negative_temperature_branch() {
    approx_eq(temperature_for(-25.0), -25.0, 0.35);
}

#[test]
fn weight_sanitizer_clamps_invalid_values() {
    approx_eq(f(sanitize_weight_g(b(-4.0))), 0.0, 1e-6);
    approx_eq(f(sanitize_weight_g(b(18.25))), 18.25, 1e-6);
    approx_eq(f(sanitize_weight_g(b(f32::NAN))), 0.0, 1e-6);
}

#[test]
fn flow_estimator_reports_positive_flow_for_rising_weight() {
    let mut estimator = FlowEstimator::new();

    approx_eq(f(estimator.observe(b(0.0), 0)), 0.0, 1e-6);
    let flow = f(estimator.observe(b(12.0), 200));

    assert!(flow > 0.0, "expected positive flow, got {flow}");
}

#[test]
fn flow_estimator_damps_to_zero_when_weight_stops() {
    let mut estimator = FlowEstimator::new();

    estimator.observe(b(0.0), 0);
    estimator.observe(b(6.0), 200);
    let flow = f(estimator.observe(b(6.02), 450));

    assert!(flow < 6.0, "expected smoothed flow to decay, got {flow}");
}

#[test]
fn flow_estimator_resets_after_weight_drop() {
    let mut estimator = FlowEstimator::new();

    estimator.observe(b(15.0), 0);
    estimator.observe(b(25.0), 200);
    approx_eq(f(estimator.observe(b(4.0), 500)), 0.0, 1e-6);
}

/// Every raw value of the converter, step by step in machine arithmetic.
#[test]
fn every_raw_pressure_matches_the_formula() {
    for raw in 0..=4095u16 {
        let volts = raw as f32 / 4095.0 * 3.3;
        assert_eq!(voltage_from_raw(raw).to_bits(), volts.to_bits());
        let linear = (volts - 0.35) * (250.0f32 / (4.5 - 0.35)).max(0.0);
        let psi = if linear < 2.0 { 0.0 } else { linear };
        assert_eq!(psi_from_voltage(b(volts)).to_bits(), psi.to_bits(), "raw {raw}");
        assert_eq!(bar_from_psi(b(psi)).to_bits(), (psi * 0.068_947_6).to_bits());
    }
}

#[test]
fn every_raw_temperature_matches_the_formula() {
    for raw in (0..=32767u16).step_by(13) {
        let resistance = raw as f32 * 430.0 / 32_768.0;
        let z1 = -RTD_A;
        let z2 = RTD_A * RTD_A - (4.0 * RTD_B);
        let z3 = (4.0 * RTD_B) / 100.0;
        let z4 = 2.0 * RTD_B;
        let warm = ((z2 + (z3 * resistance)).sqrt() + z1) / z4;
        let expected = if warm >= 0.0 {
            warm
        } else {
            let normalized = (resistance / 100.0) * 100.0;
            let mut poly = normalized;
            let mut t = -242.02;
            t += 2.2228 * poly;
            poly *= normalized;
            t += 2.5859e-3 * poly;
            poly *= normalized;
            t -= 4.8260e-6 * poly;
            poly *= normalized;
            t -= 2.8183e-8 * poly;
            poly *= normalized;
            t += 1.5243e-10 * poly;
            t
        };
        let ours = temperature_c_from_raw(raw, b(430.0), b(100.0));
        assert_eq!(ours.to_bits(), expected.to_bits(), "raw {raw}");
    }
}

/// The estimator, step by step in machine arithmetic.
#[test]
fn flow_stays_within_its_limits() {
    let mut estimator = FlowEstimator::new();
    assert_eq!(f(estimator.observe(b(0.0), 0)), 0.0);
    assert_eq!(f(estimator.observe(b(1000.0), 100)), 12.0);
    assert_eq!(f(estimator.observe(b(2000.0), 200)), 12.0);
    assert_eq!(f(estimator.observe(b(f32::MAX), 300)), 12.0);
    assert_eq!(f(estimator.observe(b(f32::NAN), 400)), 0.0);
    assert_eq!(f(estimator.observe(b(f32::MAX), u64::MAX)), 12.0);
    assert_eq!(f(estimator.observe(b(f32::INFINITY), u64::MAX)), 12.0);
}

#[test]
fn flow_follows_the_moving_average() {
    let mut estimator = FlowEstimator::default();
    let mut last: Option<(f32, u64)> = None;
    let mut smoothed = 0.0f32;
    let mut time = 0u64;
    let mut weight = 0.0f32;
    for i in 0..400u64 {
        time += 20 + (i * 37) % 180;
        weight += match i % 50 {
            0 => -8.0,
            n if n < 30 => 0.05 + (n as f32) * 0.03,
            _ => 0.01,
        };
        let clean = if weight.is_finite() { weight.max(0.0) } else { 0.0 };
        let expected = match last {
            None => {
                last = Some((clean, time));
                0.0
            }
            Some((before, at)) => {
                let delta = time - at;
                if delta < 90 {
                    smoothed
                } else {
                    last = Some((clean, time));
                    let gain = clean - before;
                    if gain < -0.5 {
                        smoothed = 0.0;
                    } else {
                        let raw = if gain <= 0.12 {
                            0.0
                        } else {
                            (gain / (delta as f32 / 1000.0)).clamp(0.0, 12.0)
                        };
                        if smoothed == 0.0 {
                            smoothed = raw;
                        } else {
                            let alpha = if raw == 0.0 { 0.62 } else { 0.34 };
                            smoothed = smoothed * (1.0 - alpha) + raw * alpha;
                        }
                        if raw == 0.0 && smoothed < 0.05 {
                            smoothed = 0.0;
                        }
                    }
                    smoothed
                }
            }
        };
        let ours = estimator.observe(b(weight), time);
        assert_eq!(ours.to_bits(), expected.to_bits(), "step {i}");
    }
}

#[test]
fn clean_weights_are_cleaned_once() {
    for x in [-3.0, 0.0, 17.5, 1e9, f32::NAN, f32::INFINITY, f32::NEG_INFINITY] {
        let once = sanitize_weight_g(b(x));
        assert!(f(once).is_finite() && f(once) >= 0.0);
        assert_eq!(sanitize_weight_g(once), once);
        let signed = sanitize_signed_weight_g(b(x));
        assert!(f(signed).abs() <= 5_000.0);
        assert_eq!(sanitize_signed_weight_g(signed), signed);
    }
}

#[test]
fn update_increments_sequence_and_overwrites_values() {
    let mut telemetry = SharedTelemetry::new();

    telemetry.update(b(93.2), b(8.1), b(117.5));
    telemetry.update(b(94.4), b(8.2), b(118.9));

    let snapshot = telemetry.snapshot();
    assert_eq!(snapshot.seq, 2);
    approx_eq(f(snapshot.temperature_c), 94.4, 1e-6);
    approx_eq(f(snapshot.pressure_bar), 8.2, 1e-6);
    approx_eq(f(snapshot.pressure_psi), 118.9, 1e-6);
    assert!(!snapshot.scale_connected);
    approx_eq(f(snapshot.weight_g), 0.0, 1e-6);
    approx_eq(f(snapshot.flow_gps), 0.0, 1e-6);
}

#[test]
fn default_matches_new() {
    let via_new = SharedTelemetry::new().snapshot();
    let via_default = SharedTelemetry::default().snapshot();

    assert_eq!(via_new.seq, via_default.seq);
    approx_eq(f(via_new.temperature_c), f(via_default.temperature_c), 1e-6);
    approx_eq(f(via_new.pressure_bar), f(via_default.pressure_bar), 1e-6);
    approx_eq(f(via_new.pressure_psi), f(via_default.pressure_psi), 1e-6);
    assert_eq!(via_new.scale_connected, via_default.scale_connected);
    approx_eq(f(via_new.weight_g), f(via_default.weight_g), 1e-6);
    approx_eq(f(via_new.flow_gps), f(via_default.flow_gps), 1e-6);
}

#[test]
fn scale_updates_are_tracked_separately() {
    let mut telemetry = SharedTelemetry::new();

    telemetry.update_scale(true, b(33.5), b(2.8));

    let snapshot = telemetry.snapshot();
    assert_eq!(snapshot.seq, 1);
    assert!(snapshot.scale_connected);
    approx_eq(f(snapshot.weight_g), 33.5, 1e-6);
    approx_eq(f(snapshot.flow_gps), 2.8, 1e-6);
}

#[test]
fn clear_scale_resets_scale_fields() {
    let mut telemetry = SharedTelemetry::new();

    telemetry.update_scale(true, b(18.4), b(1.4));
    telemetry.clear_scale();

    let snapshot = telemetry.snapshot();
    assert_eq!(snapshot.seq, 2);
    assert!(!snapshot.scale_connected);
    approx_eq(f(snapshot.weight_g), 0.0, 1e-6);
    approx_eq(f(snapshot.flow_gps), 0.0, 1e-6);
}

#[test]
fn recording_alone_is_no_new_reading() {
    let mut telemetry = SharedTelemetry::new();
    telemetry.update(b(93.0), b(9.0), b(130.0));
    telemetry.update_recording_active(true);
    let snapshot = telemetry.snapshot();
    assert_eq!(snapshot.seq, 1);
    assert!(snapshot.recording_active);
}
