use openbarista::binary32::Binary32;
use openbarista::sensors::pressure;
use openbarista::sensors::temperature::{
    change_config, read_frame16, read_frame8, rtd_from_answer, write_frame8, ConfigChange,
    Max31865, SensorStep,
};
use openbarista::util::plausible_unix_timestamp;

fn b(x: f32) -> Binary32 {
    Binary32::from_bits(x.to_bits())
}

fn f(x: Binary32) -> f32 {
    f32::from_bits(x.to_bits())
}

#[test]
fn every_pressure_reading_matches_the_formula() {
    for raw in 0..=4095u16 {
        let reading = pressure::read(raw);
        let volts = raw as f32 / 4095.0 * 3.3;
        assert_eq!(reading.raw, raw);
        assert_eq!(reading.volts.to_bits(), volts.to_bits());
        assert_eq!(reading.millivolts, (volts * 1000.0).round() as u16);
        assert_eq!(f(reading.bar), f(reading.psi) * 0.068_947_6);
    }
}

#[test]
fn registers_are_changed_bit_by_bit() {
    assert_eq!(change_config(0xff, ConfigChange::ClearFault), 0xd3);
    assert_eq!(change_config(0x00, ConfigChange::ClearFault), 0x02);
    assert_eq!(change_config(0x00, ConfigChange::ThreeWire(true)), 0x10);
    assert_eq!(change_config(0xff, ConfigChange::ThreeWire(false)), 0xef);
    assert_eq!(change_config(0x01, ConfigChange::Bias(true)), 0x81);
    assert_eq!(change_config(0x81, ConfigChange::Bias(false)), 0x01);
    assert_eq!(change_config(0x80, ConfigChange::OneShot), 0xa0);
    assert_eq!(read_frame8(0x80), [0x00, 0]);
    assert_eq!(read_frame16(0x01), [0x01, 0, 0]);
    assert_eq!(write_frame8(0x00, 0x42), [0x80, 0x42]);
    assert_eq!(rtd_from_answer([0, 0x40, 0x01]), 0x2000);
}

#[test]
fn a_measurement_ends_with_the_bias_off() {
    let sensor = Max31865::new();
    assert_eq!(sensor.initialize().len(), 3);
    let steps = sensor.read_rtd();
    assert_eq!(steps.last(), Some(&SensorStep::Change(ConfigChange::Bias(false))));
    assert_eq!(steps[2], SensorStep::Wait(10));
    assert_eq!(steps[4], SensorStep::Wait(65));
    assert_eq!(steps[5], SensorStep::ReadRtd);
}

#[test]
fn the_offset_is_added_to_readings() {
    let mut sensor = Max31865::new();
    let plain = f(sensor.read_temperature_c(10000).temperature_c);
    assert!(!sensor.offset_differs(b(0.0)));
    assert!(sensor.offset_differs(b(-1.5)));
    sensor.set_calibration_offset_c(b(-1.5));
    assert_eq!(f(sensor.read_temperature_c(10000).temperature_c), plain + -1.5);
}

#[test]
fn an_unset_clock_is_told_apart() {
    assert_eq!(plausible_unix_timestamp(300), 0);
    assert_eq!(plausible_unix_timestamp(1_577_836_799), 0);
    assert_eq!(plausible_unix_timestamp(1_577_836_800), 1_577_836_800);
}
