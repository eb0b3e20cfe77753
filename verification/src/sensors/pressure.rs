//! The pressure sensor.
use crate::binary32::Binary32;
use crate::convert;
use crate::telemetry_math;
use vstd::prelude::*;

verus! {

/// A thousand.
pub const MILLIVOLTS_PER_VOLT: u32 = 0x447a_0000;

/// A reading of the pressure sensor.
#[derive(Debug, Clone, Copy, PartialEq, Eq, Structural)]
pub struct PressureReading {
    pub raw: u16,
    pub millivolts: u16,
    pub volts: Binary32,
    pub psi: Binary32,
    pub bar: Binary32,
}

/// What a raw value of the converter means.
pub open spec fn reading_of(raw: u16) -> PressureReading {
    let volts = telemetry_math::voltage(raw);
    let psi = telemetry_math::psi(volts);
    PressureReading {
        raw,
        millivolts: convert::rounded_within(
            volts.product(Binary32::from_bits(MILLIVOLTS_PER_VOLT)),
            0,
            65535,
        ) as u16,
        volts,
        psi,
        bar: psi.product(Binary32::from_bits(telemetry_math::PSI_TO_BAR)),
    }
}

/// Makes a reading out of a raw value of the converter.
pub fn read(raw: u16) -> (r: PressureReading)
    ensures
        r == reading_of(raw),
{
    let volts = telemetry_math::voltage_from_raw(raw);
    let millivolts: u16 = volts.times(Binary32::from_bits(MILLIVOLTS_PER_VOLT)).round_to_u16();
    let psi = telemetry_math::psi_from_voltage(volts);
    let bar = telemetry_math::bar_from_psi(psi);
    PressureReading { raw, millivolts, volts, psi, bar }
}

} // verus!
