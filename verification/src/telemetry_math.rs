//! Conversions from raw sensor readings, weight clean-up and flow estimation.
use crate::binary32;
use crate::binary32::Binary32;
use crate::root;
use vstd::prelude::*;

verus! {

/// 4095.0: the largest raw ADC reading.
pub const ADC_MAX: u32 = 0x457f_f000;

/// 3.3 V: the ADC reference voltage.
pub const ADC_VREF: u32 = 0x4053_3333;

/// 0.35 V: the sensor's output at no pressure.
pub const ZERO_PSI_VOLTAGE: u32 = 0x3eb3_3333;

/// 2.0 psi: lower pressures are reported as none.
pub const MIN_PSI_TO_REPORT: u32 = 0x4000_0000;

/// 4.5 V: the sensor's output at full scale.
pub const FULL_SCALE_VOLTAGE: u32 = 0x4090_0000;

/// 250.0 psi: the sensor's full scale.
pub const FULL_SCALE_PSI: u32 = 0x437a_0000;

/// 0.0689476 bar per psi.
pub const PSI_TO_BAR: u32 = 0x3d8d_3466;

/// 0.34: the weight of a new flow reading.
pub const FLOW_EMA_ALPHA: u32 = 0x3eae_147b;

/// 0.62: the weight of a new flow reading of zero.
pub const FLOW_DECAY_ALPHA: u32 = 0x3f1e_b852;

/// Readings closer together than this are not used.
pub const FLOW_MIN_SAMPLE_MS: u64 = 90;

/// 0.12 g: smaller gains of weight count as none.
pub const FLOW_WEIGHT_DEADBAND_G: u32 = 0x3df5_c28f;

/// 0.05 g/s: a decaying flow below this is none.
pub const FLOW_SNAP_ZERO_GPS: u32 = 0x3d4c_cccd;

/// 12.0 g/s: the largest flow.
pub const FLOW_MAX_GPS: u32 = 0x4140_0000;

/// 5000.0 g: the largest weight of either sign.
pub const MAX_ABS_WEIGHT_G: u32 = 0x459c_4000;

/// The voltage that a raw ADC reading stands for.
pub open spec fn voltage(raw: u16) -> Binary32 {
    binary32::of_int(raw as int).quotient(Binary32::from_bits(ADC_MAX)).product(
        Binary32::from_bits(ADC_VREF),
    )
}

/// The volts per psi that the sensor's two calibration points give, inverted.
pub open spec fn psi_per_volt() -> Binary32 {
    Binary32::from_bits(FULL_SCALE_PSI).quotient(
        Binary32::from_bits(FULL_SCALE_VOLTAGE).difference(Binary32::from_bits(ZERO_PSI_VOLTAGE)),
    ).larger(binary32::zero())
}

/// The pressure on the line through the sensor's two calibration points.
pub open spec fn linear_psi(volts: Binary32) -> Binary32 {
    volts.difference(Binary32::from_bits(ZERO_PSI_VOLTAGE)).product(psi_per_volt())
}

/// The reported pressure: too small a pressure is reported as none.
pub open spec fn psi(volts: Binary32) -> Binary32 {
    if linear_psi(volts).below(Binary32::from_bits(MIN_PSI_TO_REPORT)) {
        binary32::zero()
    } else {
        linear_psi(volts)
    }
}

/// A weight that is a finite number, and not below zero.
pub open spec fn clean_weight(weight_g: Binary32) -> Binary32 {
    if weight_g.finite() {
        weight_g.larger(binary32::zero())
    } else {
        binary32::zero()
    }
}

/// A weight that is a finite number, at most 5 kg of either sign.
pub open spec fn clean_signed_weight(weight_g: Binary32) -> Binary32 {
    if weight_g.finite() {
        weight_g.clamped(
            Binary32::from_bits(MAX_ABS_WEIGHT_G).negated(),
            Binary32::from_bits(MAX_ABS_WEIGHT_G),
        )
    } else {
        binary32::zero()
    }
}

/// Converts a raw ADC reading to volts.
pub fn voltage_from_raw(raw: u16) -> (r: Binary32)
    ensures
        r == voltage(raw),
{
    Binary32::from_unsigned(raw as u64).divided_by(Binary32::from_bits(ADC_MAX)).times(
        Binary32::from_bits(ADC_VREF),
    )
}

/// Converts the sensor's voltage to psi.
pub fn psi_from_voltage(volts: Binary32) -> (r: Binary32)
    ensures
        r == psi(volts),
{
    let slope = Binary32::from_bits(FULL_SCALE_PSI).divided_by(
        Binary32::from_bits(FULL_SCALE_VOLTAGE).minus(Binary32::from_bits(ZERO_PSI_VOLTAGE)),
    ).max(Binary32::from_bits(0));
    let psi = volts.minus(Binary32::from_bits(ZERO_PSI_VOLTAGE)).times(slope);
    if psi.less(Binary32::from_bits(MIN_PSI_TO_REPORT)) {
        return Binary32::from_bits(0);
    }
    psi
}

/// Converts psi to bar.
pub fn bar_from_psi(psi: Binary32) -> (r: Binary32)
    ensures
        r == psi.product(Binary32::from_bits(PSI_TO_BAR)),
{
    psi.times(Binary32::from_bits(PSI_TO_BAR))
}

/// A weight that is a finite number, and not below zero.
pub fn sanitize_weight_g(weight_g: Binary32) -> (r: Binary32)
    ensures
        r == clean_weight(weight_g),
{
    if !weight_g.is_finite() {
        return Binary32::from_bits(0);
    }
    weight_g.max(Binary32::from_bits(0))
}

/// A weight that is a finite number, at most 5 kg of either sign.
pub fn sanitize_signed_weight_g(weight_g: Binary32) -> (r: Binary32)
    ensures
        r == clean_signed_weight(weight_g),
{
    if weight_g.is_finite() {
        weight_g.clamp(
            Binary32::from_bits(MAX_ABS_WEIGHT_G).negate(),
            Binary32::from_bits(MAX_ABS_WEIGHT_G),
        )
    } else {
        Binary32::from_bits(0)
    }
}

/// A cleaned weight is finite and not negative, and cleaning it again changes nothing.
pub proof fn lemma_clean_weight_is_clean(weight_g: Binary32)
    ensures
        clean_weight(weight_g).finite(),
        !clean_weight(weight_g).negative(),
        clean_weight(clean_weight(weight_g)) == clean_weight(weight_g),
{
}

/// A cleaned signed weight is finite and within 5 kg of zero, and cleaning it again changes
/// nothing.
pub proof fn lemma_clean_signed_weight_is_clean(weight_g: Binary32)
    ensures
        clean_signed_weight(weight_g).finite(),
        clean_signed_weight(weight_g).absolute().at_most(Binary32::from_bits(MAX_ABS_WEIGHT_G)),
        clean_signed_weight(clean_signed_weight(weight_g)) == clean_signed_weight(weight_g),
{
}

/// A reported pressure is none at all or at least the smallest one reported, for every voltage
/// that is a number.
pub proof fn lemma_reported_pressure(volts: Binary32)
    requires
        !linear_psi(volts).nan(),
    ensures
        psi(volts) == binary32::zero() || Binary32::from_bits(MIN_PSI_TO_REPORT).at_most(psi(volts)),
{
}

/// Estimates the flow from a series of weights, smoothing it.
#[derive(Clone, Copy, Debug, PartialEq, Eq, Structural)]
pub struct FlowEstimator {
    pub last_weight_g: Option<Binary32>,
    pub last_timestamp_ms: Option<u64>,
    pub smoothed_flow_gps: Binary32,
}

/// `b - a`, and 0 where that is negative.
pub open spec fn elapsed(a: u64, b: u64) -> u64 {
    if b >= a {
        (b - a) as u64
    } else {
        0
    }
}

/// The flow that a gain of weight over some milliseconds stands for, before smoothing.
pub open spec fn raw_flow(gain_g: Binary32, delta_ms: u64) -> Binary32 {
    if gain_g.at_most(Binary32::from_bits(FLOW_WEIGHT_DEADBAND_G)) {
        binary32::zero()
    } else {
        gain_g.quotient(
            binary32::of_int(delta_ms as int).quotient(Binary32::from_bits(0x447a_0000)),
        ).clamped(binary32::zero(), Binary32::from_bits(FLOW_MAX_GPS))
    }
}

/// One step of exponential smoothing. Zero readings pull harder, and a small decaying flow
/// becomes zero; from zero the flow jumps to the reading.
pub open spec fn smoothed(flow: Binary32, raw: Binary32) -> Binary32 {
    let alpha = Binary32 {
        bits: if raw.same_number(binary32::zero()) {
            FLOW_DECAY_ALPHA
        } else {
            FLOW_EMA_ALPHA
        },
    };
    let next = if flow.same_number(binary32::zero()) {
        raw
    } else {
        flow.product(Binary32::from_bits(0x3f80_0000).difference(alpha)).sum(raw.product(alpha))
    };
    if raw.same_number(binary32::zero()) && next.below(Binary32::from_bits(FLOW_SNAP_ZERO_GPS)) {
        binary32::zero()
    } else {
        next
    }
}

impl FlowEstimator {
    /// The estimator before the first reading.
    pub open spec fn fresh() -> Self {
        FlowEstimator {
            last_weight_g: None,
            last_timestamp_ms: None,
            smoothed_flow_gps: binary32::zero(),
        }
    }

    /// The estimator after a reading.
    pub open spec fn after(self, weight_g: Binary32, timestamp_ms: u64) -> Self {
        let weight = clean_weight(weight_g);
        let noted = FlowEstimator {
            last_weight_g: Some(weight),
            last_timestamp_ms: Some(timestamp_ms),
            smoothed_flow_gps: self.smoothed_flow_gps,
        };
        match (self.last_weight_g, self.last_timestamp_ms) {
            (Some(previous_weight), Some(previous_ms)) => {
                let delta_ms = elapsed(previous_ms, timestamp_ms);
                let gain = weight.difference(previous_weight);
                if delta_ms < FLOW_MIN_SAMPLE_MS {
                    self
                } else if gain.below(Binary32::from_bits(0xbf00_0000)) {
                    FlowEstimator { smoothed_flow_gps: binary32::zero(), ..noted }
                } else {
                    FlowEstimator {
                        smoothed_flow_gps: smoothed(
                            self.smoothed_flow_gps,
                            raw_flow(gain, delta_ms),
                        ),
                        ..noted
                    }
                }
            },
            _ => noted,
        }
    }

    /// The flow reported for a reading: none for the first one, the smoothed flow afterwards.
    pub open spec fn reported(self, weight_g: Binary32, timestamp_ms: u64) -> Binary32 {
        if self.last_weight_g is Some && self.last_timestamp_ms is Some {
            self.after(weight_g, timestamp_ms).smoothed_flow_gps
        } else {
            binary32::zero()
        }
    }

    /// An estimator that has seen no reading.
    pub fn new() -> (r: Self)
        ensures
            r == Self::fresh(),
    {
        FlowEstimator {
            last_weight_g: None,
            last_timestamp_ms: None,
            smoothed_flow_gps: Binary32::from_bits(0),
        }
    }

    /// Forgets every reading.
    pub fn reset(&mut self)
        ensures
            *final(self) == Self::fresh(),
    {
        self.last_weight_g = None;
        self.last_timestamp_ms = None;
        self.smoothed_flow_gps = Binary32::from_bits(0);
    }

    /// Takes a reading and gives the flow in grams per second.
    pub fn observe(&mut self, weight_g: Binary32, timestamp_ms: u64) -> (r: Binary32)
        ensures
            *final(self) == old(self).after(weight_g, timestamp_ms),
            r == old(self).reported(weight_g, timestamp_ms),
    {
        let weight = sanitize_weight_g(weight_g);
        let previous_weight = match self.last_weight_g {
            Some(previous) => previous,
            None => {
                self.last_weight_g = Some(weight);
                self.last_timestamp_ms = Some(timestamp_ms);
                return Binary32::from_bits(0);
            },
        };
        let previous_ms: u64 = match self.last_timestamp_ms {
            Some(previous) => previous,
            None => {
                self.last_weight_g = Some(weight);
                self.last_timestamp_ms = Some(timestamp_ms);
                return Binary32::from_bits(0);
            },
        };
        let delta_ms: u64 = if timestamp_ms >= previous_ms {
            timestamp_ms - previous_ms
        } else {
            0
        };
        if delta_ms < FLOW_MIN_SAMPLE_MS {
            return self.smoothed_flow_gps;
        }
        self.last_weight_g = Some(weight);
        self.last_timestamp_ms = Some(timestamp_ms);
        let gain = weight.minus(previous_weight);
        if gain.less(Binary32::from_bits(0xbf00_0000)) {
            self.smoothed_flow_gps = Binary32::from_bits(0);
            return Binary32::from_bits(0);
        }
        let raw = if gain.less_or_equal(Binary32::from_bits(FLOW_WEIGHT_DEADBAND_G)) {
            Binary32::from_bits(0)
        } else {
            gain.divided_by(
                Binary32::from_unsigned(delta_ms).divided_by(Binary32::from_bits(0x447a_0000)),
            ).clamp(Binary32::from_bits(0), Binary32::from_bits(FLOW_MAX_GPS))
        };
        let no_flow = raw.equals(Binary32::from_bits(0));
        if self.smoothed_flow_gps.equals(Binary32::from_bits(0)) {
            self.smoothed_flow_gps = raw;
        } else {
            let alpha = Binary32 {
                bits: if no_flow {
                    FLOW_DECAY_ALPHA
                } else {
                    FLOW_EMA_ALPHA
                },
            };
            self.smoothed_flow_gps = self.smoothed_flow_gps.times(
                Binary32::from_bits(0x3f80_0000).minus(alpha),
            ).plus(raw.times(alpha));
        }
        if no_flow && self.smoothed_flow_gps.less(Binary32::from_bits(FLOW_SNAP_ZERO_GPS)) {
            self.smoothed_flow_gps = Binary32::from_bits(0);
        }
        self.smoothed_flow_gps
    }
}

impl Default for FlowEstimator {
    fn default() -> (r: Self)
        ensures
            r == FlowEstimator::fresh(),
    {
        Self::new()
    }
}

/// 0.0039083: the first coefficient of the Callendar-Van Dusen equation.
pub const RTD_A: u32 = 0x3b80_1132;

/// -5.775e-7: the second coefficient of the Callendar-Van Dusen equation.
pub const RTD_B: u32 = 0xb51b_057f;

/// The resistance that a raw converter code stands for.
pub open spec fn resistance(raw_code: u16, ref_resistor: Binary32) -> Binary32 {
    binary32::of_int(raw_code as int).product(ref_resistor).quotient(Binary32::from_bits(0x4700_0000))
}

/// The temperature by the quadratic equation, which holds from 0 °C upwards.
pub open spec fn temperature_from_quadratic(
    resistance: Binary32,
    nominal_resistance: Binary32,
) -> Binary32 {
    let a = Binary32::from_bits(RTD_A);
    let b = Binary32::from_bits(RTD_B);
    let four_b = Binary32::from_bits(0x4080_0000).product(b);
    let z2 = a.product(a).difference(four_b);
    let z3 = four_b.quotient(nominal_resistance);
    let z4 = Binary32::from_bits(0x4000_0000).product(b);
    root::square_root(z2.sum(z3.product(resistance))).sum(a.negated()).quotient(z4)
}

/// The temperature by a polynomial in the resistance, which holds below 0 °C.
pub open spec fn temperature_from_polynomial(
    resistance: Binary32,
    nominal_resistance: Binary32,
) -> Binary32 {
    let x = resistance.quotient(nominal_resistance).product(Binary32::from_bits(0x42c8_0000));
    let x2 = x.product(x);
    let x3 = x2.product(x);
    let x4 = x3.product(x);
    let x5 = x4.product(x);
    Binary32::from_bits(0xc372_051f).sum(Binary32::from_bits(0x400e_425b).product(x)).sum(
        Binary32::from_bits(0x3b29_7834).product(x2),
    ).difference(Binary32::from_bits(0x36a1_ef06).product(x3)).difference(
        Binary32::from_bits(0x32f2_1713).product(x4),
    ).sum(Binary32::from_bits(0x2f27_993b).product(x5))
}

/// The temperature that a raw converter code stands for.
pub open spec fn temperature(
    raw_code: u16,
    ref_resistor: Binary32,
    nominal_resistance: Binary32,
) -> Binary32 {
    let r = resistance(raw_code, ref_resistor);
    let t = temperature_from_quadratic(r, nominal_resistance);
    if binary32::zero().at_most(t) {
        t
    } else {
        temperature_from_polynomial(r, nominal_resistance)
    }
}

/// Converts a raw converter code to the resistance of the sensor.
pub fn resistance_from_raw(raw_code: u16, ref_resistor: Binary32) -> (r: Binary32)
    ensures
        r == resistance(raw_code, ref_resistor),
{
    Binary32::from_unsigned(raw_code as u64).times(ref_resistor).divided_by(
        Binary32::from_bits(0x4700_0000),
    )
}

/// Converts a raw converter code to a temperature in °C.
pub fn temperature_c_from_raw(
    raw_code: u16,
    ref_resistor: Binary32,
    nominal_resistance: Binary32,
) -> (r: Binary32)
    ensures
        r == temperature(raw_code, ref_resistor, nominal_resistance),
{
    let resistance = resistance_from_raw(raw_code, ref_resistor);
    let a = Binary32::from_bits(RTD_A);
    let b = Binary32::from_bits(RTD_B);
    let z1 = a.negate();
    let four_b = Binary32::from_bits(0x4080_0000).times(b);
    let z2 = a.times(a).minus(four_b);
    let z3 = four_b.divided_by(nominal_resistance);
    let z4 = Binary32::from_bits(0x4000_0000).times(b);
    let warm = z2.plus(z3.times(resistance)).sqrt().plus(z1).divided_by(z4);
    if Binary32::from_bits(0).less_or_equal(warm) {
        return warm;
    }
    let x = resistance.divided_by(nominal_resistance).times(Binary32::from_bits(0x42c8_0000));
    let mut poly = x;
    let mut t = Binary32::from_bits(0xc372_051f).plus(Binary32::from_bits(0x400e_425b).times(poly));
    poly = poly.times(x);
    t = t.plus(Binary32::from_bits(0x3b29_7834).times(poly));
    poly = poly.times(x);
    t = t.minus(Binary32::from_bits(0x36a1_ef06).times(poly));
    poly = poly.times(x);
    t = t.minus(Binary32::from_bits(0x32f2_1713).times(poly));
    poly = poly.times(x);
    t = t.plus(Binary32::from_bits(0x2f27_993b).times(poly));
    t
}

} // verus!
