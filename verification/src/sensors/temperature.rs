//! The temperature sensor: a MAX31865 with a PT100 probe.
use crate::binary32;
use crate::binary32::Binary32;
use crate::telemetry_math;
use vstd::prelude::*;

verus! {

pub const CONFIG_REG: u8 = 0x00;

pub const CONFIG_BIAS: u8 = 0x80;

pub const CONFIG_1SHOT: u8 = 0x20;

pub const CONFIG_3WIRE: u8 = 0x10;

pub const CONFIG_FAULTSTAT: u8 = 0x02;

/// The bits that have to be off while faults are cleared.
pub const CONFIG_FAULT_MASK: u8 = 0x2c;

pub const RTD_MSB_REG: u8 = 0x01;

/// The reference resistor: 430 ohms.
pub const REF_RESISTOR_OHMS: u32 = 0x43d7_0000;

/// The probe at 0 degrees: 100 ohms.
pub const NOMINAL_RESISTANCE_OHMS: u32 = 0x42c8_0000;

/// The smallest change of the offset that is applied: 0.000001.
pub const OFFSET_STEP_C: u32 = 0x3586_37bd;

/// A reading of the temperature sensor.
#[derive(Debug, Clone, Copy, PartialEq, Eq, Structural)]
pub struct TemperatureReading {
    pub temperature_c: Binary32,
}

/// A change of the sensor's configuration.
#[derive(Debug, Clone, Copy, PartialEq, Eq, Structural)]
pub enum ConfigChange {
    ClearFault,
    ThreeWire(bool),
    Bias(bool),
    OneShot,
}

/// A step in talking to the sensor.
#[derive(Debug, Clone, Copy, PartialEq, Eq, Structural)]
pub enum SensorStep {
    /// Read the configuration, change it and write it back.
    Change(ConfigChange),
    /// Wait for so many milliseconds.
    Wait(u64),
    /// Read the measured value.
    ReadRtd,
}

/// The configuration after a change.
pub open spec fn changed(config: u8, change: ConfigChange) -> u8 {
    match change {
        ConfigChange::ClearFault => (config & !CONFIG_FAULT_MASK) | CONFIG_FAULTSTAT,
        ConfigChange::ThreeWire(on) => if on {
            config | CONFIG_3WIRE
        } else {
            config & !CONFIG_3WIRE
        },
        ConfigChange::Bias(on) => if on {
            config | CONFIG_BIAS
        } else {
            config & !CONFIG_BIAS
        },
        ConfigChange::OneShot => config | CONFIG_1SHOT,
    }
}

/// The configuration after a change.
pub fn change_config(config: u8, change: ConfigChange) -> (r: u8)
    ensures
        r == changed(config, change),
{
    match change {
        ConfigChange::ClearFault => (config & !CONFIG_FAULT_MASK) | CONFIG_FAULTSTAT,
        ConfigChange::ThreeWire(on) => if on {
            config | CONFIG_3WIRE
        } else {
            config & !CONFIG_3WIRE
        },
        ConfigChange::Bias(on) => if on {
            config | CONFIG_BIAS
        } else {
            config & !CONFIG_BIAS
        },
        ConfigChange::OneShot => config | CONFIG_1SHOT,
    }
}

/// The bytes that ask for a register: its address and a byte for the answer.
pub fn read_frame8(reg: u8) -> (r: [u8; 2])
    ensures
        r@ == seq![reg & 0x7f, 0u8],
{
    let r: [u8; 2] = [reg & 0x7f, 0];
    assert(r@ =~= seq![reg & 0x7f, 0u8]);
    r
}

/// The bytes that ask for two registers: the address and two bytes for the answer.
pub fn read_frame16(reg: u8) -> (r: [u8; 3])
    ensures
        r@ == seq![reg & 0x7f, 0u8, 0u8],
{
    let r: [u8; 3] = [reg & 0x7f, 0, 0];
    assert(r@ =~= seq![reg & 0x7f, 0u8, 0u8]);
    r
}

/// The bytes that write a register.
pub fn write_frame8(reg: u8, value: u8) -> (r: [u8; 2])
    ensures
        r@ == seq![reg | 0x80, value],
{
    let r: [u8; 2] = [reg | 0x80, value];
    assert(r@ =~= seq![reg | 0x80, value]);
    r
}

/// The measured value out of the answer to `read_frame16`: the lowest bit is no part of it.
pub fn rtd_from_answer(answer: [u8; 3]) -> (r: u16)
    ensures
        r as int == (answer[1] * 256 + answer[2]) / 2,
{
    (answer[1] as u16 * 256 + answer[2] as u16) / 2
}

/// The sensor: how it is wired, and what is added to its readings.
#[derive(Debug, Clone, Copy, PartialEq, Eq, Structural)]
pub struct Max31865 {
    pub ref_resistor: Binary32,
    pub nominal_resistance: Binary32,
    pub three_wire: bool,
    pub calibration_offset_c: Binary32,
}

impl Max31865 {
    /// The sensor as it is built in.
    pub fn new() -> (r: Self)
        ensures
            r == (Max31865 {
                ref_resistor: Binary32::from_bits(REF_RESISTOR_OHMS),
                nominal_resistance: Binary32::from_bits(NOMINAL_RESISTANCE_OHMS),
                three_wire: true,
                calibration_offset_c: binary32::zero(),
            }),
    {
        Max31865 {
            ref_resistor: Binary32::from_bits(REF_RESISTOR_OHMS),
            nominal_resistance: Binary32::from_bits(NOMINAL_RESISTANCE_OHMS),
            three_wire: true,
            calibration_offset_c: Binary32::from_bits(0),
        }
    }

    /// How the sensor is set up.
    pub fn initialize(&self) -> (r: Vec<SensorStep>)
        ensures
            r@ == seq![
                SensorStep::Change(ConfigChange::ClearFault),
                SensorStep::Change(ConfigChange::ThreeWire(self.three_wire)),
                SensorStep::Change(ConfigChange::Bias(false)),
            ],
    {
        let r: Vec<SensorStep> = vec![
            SensorStep::Change(ConfigChange::ClearFault),
            SensorStep::Change(ConfigChange::ThreeWire(self.three_wire)),
            SensorStep::Change(ConfigChange::Bias(false)),
        ];
        assert(r@ =~= seq![
            SensorStep::Change(ConfigChange::ClearFault),
            SensorStep::Change(ConfigChange::ThreeWire(self.three_wire)),
            SensorStep::Change(ConfigChange::Bias(false)),
        ]);
        r
    }

    /// How a value is measured. The probe carries a current only while it is.
    pub fn read_rtd(&self) -> (r: Vec<SensorStep>)
        ensures
            r@ == seq![
                SensorStep::Change(ConfigChange::ClearFault),
                SensorStep::Change(ConfigChange::Bias(true)),
                SensorStep::Wait(10),
                SensorStep::Change(ConfigChange::OneShot),
                SensorStep::Wait(65),
                SensorStep::ReadRtd,
                SensorStep::Change(ConfigChange::Bias(false)),
            ],
    {
        let r: Vec<SensorStep> = vec![
            SensorStep::Change(ConfigChange::ClearFault),
            SensorStep::Change(ConfigChange::Bias(true)),
            SensorStep::Wait(10),
            SensorStep::Change(ConfigChange::OneShot),
            SensorStep::Wait(65),
            SensorStep::ReadRtd,
            SensorStep::Change(ConfigChange::Bias(false)),
        ];
        assert(r@ =~= seq![
            SensorStep::Change(ConfigChange::ClearFault),
            SensorStep::Change(ConfigChange::Bias(true)),
            SensorStep::Wait(10),
            SensorStep::Change(ConfigChange::OneShot),
            SensorStep::Wait(65),
            SensorStep::ReadRtd,
            SensorStep::Change(ConfigChange::Bias(false)),
        ]);
        r
    }

    /// What a measured value means.
    pub fn read_temperature_c(&self, raw_code: u16) -> (r: TemperatureReading)
        ensures
            r.temperature_c == telemetry_math::temperature(
                raw_code,
                self.ref_resistor,
                self.nominal_resistance,
            ).sum(self.calibration_offset_c),
    {
        let temperature = telemetry_math::temperature_c_from_raw(
            raw_code,
            self.ref_resistor,
            self.nominal_resistance,
        );
        TemperatureReading { temperature_c: temperature.plus(self.calibration_offset_c) }
    }

    /// Whether a configured offset differs from the one that is applied.
    pub fn offset_differs(&self, configured: Binary32) -> (r: bool)
        ensures
            r == Binary32::from_bits(OFFSET_STEP_C).below(
                configured.difference(self.calibration_offset_c).absolute(),
            ),
    {
        Binary32::from_bits(OFFSET_STEP_C).less(
            configured.minus(self.calibration_offset_c).abs(),
        )
    }

    /// Sets what is added to readings.
    pub fn set_calibration_offset_c(&mut self, offset_c: Binary32)
        ensures
            *final(self) == (Max31865 { calibration_offset_c: offset_c, ..*old(self) }),
    {
        self.calibration_offset_c = offset_c;
    }
}

/// Between measurements the probe carries no current, and a fault is cleared without starting a
/// measurement.
pub proof fn lemma_probe_rests(config: u8)
    ensures
        changed(config, ConfigChange::Bias(false)) & CONFIG_BIAS == 0,
        changed(config, ConfigChange::ClearFault) & CONFIG_1SHOT == 0,
        changed(config, ConfigChange::ClearFault) & CONFIG_FAULTSTAT == CONFIG_FAULTSTAT,
{
    assert((config & !0x80u8) & 0x80 == 0) by (bit_vector);
    assert(((config & !0x2cu8) | 0x02) & 0x20 == 0) by (bit_vector);
    assert(((config & !0x2cu8) | 0x02) & 0x02 == 0x02) by (bit_vector);
}

} // verus!
