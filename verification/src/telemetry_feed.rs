//! The latest telemetry of machine and scale.
use crate::binary32;
use crate::binary32::Binary32;
use vstd::prelude::*;

verus! {

/// One state of the machine and the scale.
#[derive(Debug, Clone, Copy, PartialEq, Eq, Structural)]
pub struct TelemetrySnapshot {
    pub seq: u64,
    pub temperature_c: Binary32,
    pub pressure_bar: Binary32,
    pub pressure_psi: Binary32,
    pub scale_connected: bool,
    pub weight_g: Binary32,
    pub flow_gps: Binary32,
    pub recording_active: bool,
}

/// The state before anything was measured.
pub open spec fn empty_snapshot() -> TelemetrySnapshot {
    TelemetrySnapshot {
        seq: 0,
        temperature_c: binary32::zero(),
        pressure_bar: binary32::zero(),
        pressure_psi: binary32::zero(),
        scale_connected: false,
        weight_g: binary32::zero(),
        flow_gps: binary32::zero(),
        recording_active: false,
    }
}

/// The number that follows `seq`; the largest is followed by 0.
pub open spec fn next_seq(seq: u64) -> u64 {
    if seq == u64::MAX {
        0
    } else {
        (seq + 1) as u64
    }
}

impl TelemetrySnapshot {
    /// The state before anything was measured.
    pub fn empty() -> (r: Self)
        ensures
            r == empty_snapshot(),
    {
        TelemetrySnapshot {
            seq: 0,
            temperature_c: Binary32::from_bits(0),
            pressure_bar: Binary32::from_bits(0),
            pressure_psi: Binary32::from_bits(0),
            scale_connected: false,
            weight_g: Binary32::from_bits(0),
            flow_gps: Binary32::from_bits(0),
            recording_active: false,
        }
    }
}

/// The telemetry that the sensor loop and the scale write and the web server reads.
#[derive(Debug, Clone, Copy, PartialEq, Eq, Structural)]
pub struct SharedTelemetry {
    state: TelemetrySnapshot,
}

impl View for SharedTelemetry {
    type V = TelemetrySnapshot;

    closed spec fn view(&self) -> TelemetrySnapshot {
        self.state
    }
}

impl SharedTelemetry {
    /// Telemetry before anything was measured.
    pub fn new() -> (r: Self)
        ensures
            r@ == empty_snapshot(),
    {
        SharedTelemetry { state: TelemetrySnapshot::empty() }
    }

    fn advance(&mut self)
        ensures
            final(self)@ == (TelemetrySnapshot { seq: next_seq(old(self)@.seq), ..old(self)@ }),
    {
        self.state.seq = if self.state.seq == u64::MAX {
            0
        } else {
            self.state.seq + 1
        };
    }

    /// Takes a reading of the machine's sensors.
    pub fn update(&mut self, temperature_c: Binary32, pressure_bar: Binary32, pressure_psi: Binary32)
        ensures
            final(self)@ == (TelemetrySnapshot {
                seq: next_seq(old(self)@.seq),
                temperature_c,
                pressure_bar,
                pressure_psi,
                ..old(self)@
            }),
    {
        self.update_brew(temperature_c, pressure_bar, pressure_psi);
    }

    /// Takes a reading of the machine's sensors.
    pub fn update_brew(
        &mut self,
        temperature_c: Binary32,
        pressure_bar: Binary32,
        pressure_psi: Binary32,
    )
        ensures
            final(self)@ == (TelemetrySnapshot {
                seq: next_seq(old(self)@.seq),
                temperature_c,
                pressure_bar,
                pressure_psi,
                ..old(self)@
            }),
    {
        self.advance();
        self.state.temperature_c = temperature_c;
        self.state.pressure_bar = pressure_bar;
        self.state.pressure_psi = pressure_psi;
    }

    /// Takes a reading of the scale.
    pub fn update_scale(&mut self, connected: bool, weight_g: Binary32, flow_gps: Binary32)
        ensures
            final(self)@ == (TelemetrySnapshot {
                seq: next_seq(old(self)@.seq),
                scale_connected: connected,
                weight_g,
                flow_gps,
                ..old(self)@
            }),
    {
        self.advance();
        self.state.scale_connected = connected;
        self.state.weight_g = weight_g;
        self.state.flow_gps = flow_gps;
    }

    /// Forgets the scale.
    pub fn clear_scale(&mut self)
        ensures
            final(self)@ == (TelemetrySnapshot {
                seq: next_seq(old(self)@.seq),
                scale_connected: false,
                weight_g: binary32::zero(),
                flow_gps: binary32::zero(),
                ..old(self)@
            }),
    {
        self.advance();
        self.state.scale_connected = false;
        self.state.weight_g = Binary32::from_bits(0);
        self.state.flow_gps = Binary32::from_bits(0);
    }

    /// Notes whether a shot is being recorded. This alone is no new reading.
    pub fn update_recording_active(&mut self, active: bool)
        ensures
            final(self)@ == (TelemetrySnapshot { recording_active: active, ..old(self)@ }),
    {
        self.state.recording_active = active;
    }

    /// The latest state.
    pub fn snapshot(&self) -> (r: TelemetrySnapshot)
        ensures
            r == self@,
    {
        self.state
    }
}

impl Default for SharedTelemetry {
    fn default() -> (r: Self)
        ensures
            r@ == empty_snapshot(),
    {
        Self::new()
    }
}

} // verus!
