use openbarista::binary32::Binary32;
use openbarista::shot_history::{LiveTelemetryPoint, ShotHistory, BREW_SAMPLE_INTERVAL_MS};
use openbarista::shot_recorder::{
    ShotPoint, ShotRecord, ShotRecorder, MAX_SHOT_POINTS, PRE_SHOT_BUFFER_LEN,
    SHOT_END_DEBOUNCE_TICKS,
};
use openbarista::shot_store::{
    decode_shot, encode_shot, erased_blob, slot_key, NvsShotStore, HEADER_LEN, MAX_STORED_SHOTS,
};
use openbarista::telemetry_feed::TelemetrySnapshot;

fn b(x: f32) -> Binary32 {
    Binary32::from_bits(x.to_bits())
}

fn f(x: Binary32) -> f32 {
    f32::from_bits(x.to_bits())
}

// Shots that are started and stopped by hand.

fn point(sample_index: u64, pressure_bar: f32, weight_g: f32) -> LiveTelemetryPoint {
    LiveTelemetryPoint {
        sample_index,
        temperature_c: b(93.0 + sample_index as f32),
        pressure_bar: b(pressure_bar),
        scale_connected: true,
        weight_g: b(weight_g),
        flow_gps: b(2.0),
    }
}

#[test]
fn manual_stop_always_saves_below_pressure_threshold() {
    let mut history = ShotHistory::new();
    history
        .start_manual_shot(1_000, point(10, 0.3, 20.0))
        .unwrap();
    history.on_brew_sample(point(11, 0.4, 20.5));
    let shot = history
        .stop_manual_shot(2_000, point(12, 0.2, 21.1))
        .unwrap();

    assert_eq!(shot.id, 1);
    assert!(shot.manual);
    assert!(f(shot.peak_pressure_bar) < 1.0);
    assert_eq!(shot.duration_ms, 2 * BREW_SAMPLE_INTERVAL_MS);
    assert!(f(shot.yield_g) > 1.0);
    assert_eq!(history.completed_shots().len(), 1);
}

#[test]
fn duration_tracks_brew_sample_index_not_wall_clock() {
    let mut history = ShotHistory::new();
    history
        .start_manual_shot(1_000, point(100, 1.2, 10.0))
        .unwrap();
    history.on_brew_sample(point(130, 8.4, 24.0));

    let shot = history
        .stop_manual_shot(31_000, point(160, 8.8, 38.0))
        .unwrap();

    assert_eq!(shot.duration_ms, 60 * BREW_SAMPLE_INTERVAL_MS);
    assert!(f(shot.avg_pressure_bar) > 1.0);
    assert_eq!(shot.samples.first().unwrap().elapsed_ms, 0);
    assert_eq!(shot.samples.last().unwrap().elapsed_ms, shot.duration_ms);
}

#[test]
fn a_shot_is_started_and_stopped_once() {
    let mut history = ShotHistory::default();
    assert_eq!(history.stop_manual_shot(5, point(1, 1.0, 1.0)).unwrap_err(), "No active shot.");
    assert!(!history.active());
    history.start_manual_shot(5, point(1, 1.0, 1.0)).unwrap();
    assert!(history.active());
    assert_eq!(
        history.start_manual_shot(6, point(2, 1.0, 1.0)).unwrap_err(),
        "Shot already in progress."
    );
    history.stop_manual_shot(7, point(3, 1.0, 1.0)).unwrap();
    assert!(!history.active());
}

#[test]
fn manual_shots_have_exact_averages() {
    let mut history = ShotHistory::new();
    history.start_manual_shot(0, point(0, 1.0, 10.0)).unwrap();
    history.on_brew_sample(point(1, 2.0, 11.0));
    let shot = history.stop_manual_shot(100, point(2, 6.0, 12.5)).unwrap();
    assert_eq!(f(shot.peak_pressure_bar), 6.0);
    assert_eq!(f(shot.avg_pressure_bar), 3.0);
    assert_eq!(f(shot.avg_temperature_c), 94.0);
    assert_eq!(f(shot.yield_g), 2.5);
    assert_eq!(shot.samples.len(), 3);
}

#[test]
fn the_history_keeps_the_newest_shots() {
    let mut history = ShotHistory::new();
    for i in 0..30u64 {
        history.start_manual_shot(i, point(i, 1.0, 1.0)).unwrap();
        history.stop_manual_shot(i + 1, point(i + 1, 1.0, 1.0)).unwrap();
    }
    let shots = history.completed_shots();
    assert_eq!(shots.len(), 24);
    let mut ids: Vec<u64> = shots.iter().map(|s| s.id).collect();
    ids.sort();
    assert_eq!(ids.first(), Some(&7));
    assert_eq!(ids.last(), Some(&30));
}

// Shots that the recorder finds.

fn make_snap(pressure_bar: f32) -> TelemetrySnapshot {
    make_snap_at_temp(pressure_bar, 93.0)
}

fn make_snap_at_temp(pressure_bar: f32, temperature_c: f32) -> TelemetrySnapshot {
    TelemetrySnapshot {
        seq: 0,
        temperature_c: b(temperature_c),
        pressure_bar: b(pressure_bar),
        pressure_psi: b(pressure_bar * 14.5),
        scale_connected: false,
        weight_g: b(0.0),
        flow_gps: b(0.0),
        recording_active: false,
    }
}

#[test]
fn cold_machine_does_not_start_shot() {
    let mut rec = ShotRecorder::new();
    // Pressure is above threshold but temperature is below 70 °C.
    for _ in 0..100 {
        let result = rec.update(&make_snap_at_temp(8.0, 45.0), 0);
        assert!(result.is_none());
    }
    assert!(!rec.is_active());
}

#[test]
fn warm_machine_starts_shot() {
    let mut rec = ShotRecorder::new();
    rec.update(&make_snap_at_temp(8.0, 69.9), 0);
    assert!(!rec.is_active(), "should not start below 70 °C");
    rec.update(&make_snap_at_temp(8.0, 70.0), 0);
    assert!(rec.is_active(), "should start at exactly 70 °C");
}

#[test]
fn idle_below_threshold_stays_idle() {
    let mut rec = ShotRecorder::new();
    for _ in 0..100 {
        let result = rec.update(&make_snap(0.2), 0);
        assert!(result.is_none());
    }
    assert!(!rec.is_active());
}

#[test]
fn crossing_threshold_starts_recording() {
    let mut rec = ShotRecorder::new();
    rec.update(&make_snap(0.2), 0);
    rec.update(&make_snap(0.6), 0);
    assert!(rec.is_active());
}

#[test]
fn debounce_finalises_shot() {
    let mut rec = ShotRecorder::new();
    // Start shot.
    for _ in 0..20 {
        rec.update(&make_snap(8.0), 1000);
    }
    // Drop below threshold — shot should not finalise immediately.
    for i in 0..39 {
        let result = rec.update(&make_snap(0.1), 1000);
        assert!(result.is_none(), "premature finalise at debounce tick {i}");
    }
    // 40th tick below threshold → finalised.
    let result = rec.update(&make_snap(0.1), 1000);
    assert!(result.is_some());
    let shot = result.unwrap();
    assert!(shot.id > 0);
    assert!(!shot.points.is_empty());
    assert_eq!(shot.unix_timestamp, 1000);
}

#[test]
fn debounce_resets_on_pressure_return() {
    let mut rec = ShotRecorder::new();
    for _ in 0..10 {
        rec.update(&make_snap(8.0), 0);
    }
    // 30 ticks below (not enough to debounce).
    for _ in 0..30 {
        rec.update(&make_snap(0.0), 0);
    }
    // Pressure comes back.
    rec.update(&make_snap(7.0), 0);
    assert!(rec.is_active());
    // Now fully debounce.
    for _ in 0..SHOT_END_DEBOUNCE_TICKS {
        rec.update(&make_snap(0.0), 0);
    }
    // Should have finalised now (one extra tick to tip over).
    let mut got_shot = false;
    for _ in 0..5 {
        if rec.update(&make_snap(0.0), 0).is_some() {
            got_shot = true;
            break;
        }
    }
    // After full debounce it should already have fired, check state.
    assert!(!rec.is_active() || got_shot);
}

#[test]
fn pre_shot_buffer_prepended() {
    let mut rec = ShotRecorder::new();
    // Fill pre-buf with low pressure.
    for _ in 0..PRE_SHOT_BUFFER_LEN {
        rec.update(&make_snap(0.1), 0);
    }
    // Trigger shot.
    rec.update(&make_snap(1.0), 1234);
    assert!(rec.is_active());
    // Finalize immediately.
    let shot = rec.finalize().unwrap();
    // Should have pre-shot points.
    assert!(shot.points.len() > 1, "expected pre-shot points prepended");
}

#[test]
fn finalize_returns_none_when_idle() {
    let mut rec = ShotRecorder::new();
    assert!(rec.finalize().is_none());
}

#[test]
fn finalize_returns_shot_mid_recording() {
    let mut rec = ShotRecorder::new();
    for _ in 0..10 {
        rec.update(&make_snap(8.0), 999);
    }
    let shot = rec.finalize();
    assert!(shot.is_some());
    assert!(!rec.is_active());
}

#[test]
fn points_stand_a_quarter_of_a_second_apart() {
    let mut rec = ShotRecorder::default();
    for i in 0..90 {
        rec.update(&make_snap(if i < 70 { 0.1 } else { 8.0 }), 50);
    }
    let shot = rec.finalize().unwrap();
    for (i, p) in shot.points.iter().enumerate() {
        assert_eq!(p.time_ms, i as u32 * 250);
    }
    assert!(shot.points.len() >= 12);
    assert_eq!(shot.unix_timestamp, 50);
}

#[test]
fn a_shot_stopped_by_hand_does_not_start_again_by_itself() {
    let mut rec = ShotRecorder::new();
    for _ in 0..10 {
        rec.update(&make_snap(8.0), 1);
    }
    assert!(rec.finalize().is_some());
    for _ in 0..50 {
        assert!(rec.update(&make_snap(8.0), 1).is_none());
        assert!(!rec.is_active());
    }
    rec.update(&make_snap(0.1), 1);
    rec.update(&make_snap(8.0), 1);
    assert!(rec.is_active());
}

#[test]
fn a_shot_can_be_started_by_hand() {
    let mut rec = ShotRecorder::new();
    rec.force_start(77);
    assert!(rec.is_active());
    assert!(rec.finalize().is_none(), "nothing was recorded yet");
    rec.force_start(78);
    for _ in 0..10 {
        rec.update(&make_snap(9.0), 79);
    }
    let shot = rec.finalize().unwrap();
    assert_eq!(shot.unix_timestamp, 78);
}

// Shots that are stored.

fn make_shot(id: u32, n_points: usize) -> ShotRecord {
    ShotRecord {
        id,
        unix_timestamp: 1_700_000_000 + id as u64,
        points: (0..n_points)
            .map(|i| ShotPoint {
                time_ms: i as u32 * 250,
                pressure_bar: b(8.5 + (i as f32 * 0.01)),
                temperature_c: b(93.0),
                weight_g: b(i as f32 * 0.5),
                flow_gps: b(1.2),
            })
            .collect(),
    }
}

#[test]
fn encode_decode_roundtrip() {
    let shot = make_shot(42, 80);
    let buf = encode_shot(&shot);
    let decoded = decode_shot(&buf).expect("decode failed");

    assert_eq!(decoded.id, 42);
    assert_eq!(decoded.unix_timestamp, shot.unix_timestamp);
    assert_eq!(decoded.points.len(), 80);

    let p0 = &decoded.points[0];
    assert!((f(p0.pressure_bar) - 8.5).abs() < 0.02);
    assert!((f(p0.temperature_c) - 93.0).abs() < 0.2);
}

#[test]
fn decode_returns_none_for_short_buf() {
    assert!(decode_shot(&[0u8; 5]).is_none());
}

#[test]
fn decode_returns_none_for_zero_id() {
    assert!(decode_shot(&[0u8; HEADER_LEN]).is_none());
}

#[test]
fn encode_caps_at_max_shot_points() {
    let shot = make_shot(1, MAX_SHOT_POINTS + 50);
    let buf = encode_shot(&shot);
    let decoded = decode_shot(&buf).unwrap();
    assert_eq!(decoded.points.len(), MAX_SHOT_POINTS);
}

#[test]
fn summary_analytics() {
    let shot = make_shot(5, 40);
    let summary = shot.to_summary();
    assert_eq!(summary.id, 5);
    assert!(f(summary.max_pressure_bar) > 8.0);
    assert!((f(summary.avg_temperature_c) - 93.0).abs() < 0.1);
    // yield = last - first weight = 39*0.5 - 0 = 19.5
    assert!((f(summary.yield_g) - 19.5).abs() < 0.2);
}

/// A store with its slots, as the device keeps them.
struct Device {
    store: NvsShotStore,
    slots: Vec<Option<Vec<u8>>>,
}

impl Device {
    fn new() -> Device {
        Device {
            store: NvsShotStore::new(None, None, None),
            slots: vec![None; MAX_STORED_SHOTS],
        }
    }

    fn save(&mut self, shot: &ShotRecord) -> u32 {
        let write = self.store.begin_save(shot);
        self.slots[write.slot] = Some(write.blob);
        self.store.commit_save();
        write.id
    }

    fn reboot(&mut self) {
        let (head, count, next_id) = self.store.metadata();
        self.store = NvsShotStore::new(Some(head), Some(count), Some(next_id));
    }

    fn ids(&self) -> Vec<u32> {
        self.store.list_summaries(&self.slots).iter().map(|s| s.id).collect()
    }
}

#[test]
fn stored_shots_are_listed_newest_first_and_found() {
    let mut device = Device::new();
    for i in 0..3 {
        assert_eq!(device.save(&make_shot(99, 10 + i)), i as u32 + 1);
    }
    device.reboot();
    assert_eq!(device.ids(), vec![3, 2, 1]);
    assert_eq!(device.store.get_shot(&device.slots, 2).unwrap().points.len(), 11);
    assert!(device.store.get_shot(&device.slots, 9).is_none());
    assert_eq!(device.save(&make_shot(99, 5)), 4);
}

#[test]
fn a_full_store_loses_the_oldest_shot() {
    let mut device = Device::new();
    for _ in 0..MAX_STORED_SHOTS + 2 {
        device.save(&make_shot(0, 4));
        device.reboot();
    }
    let expected: Vec<u32> = (3..=12).rev().collect();
    assert_eq!(device.ids(), expected);
}

#[test]
fn a_deleted_shot_is_gone_and_no_other() {
    let mut device = Device::new();
    for _ in 0..4 {
        device.save(&make_shot(0, 4));
    }
    let slot = device.store.delete_shot(&device.slots, 2).unwrap();
    device.slots[slot] = Some(erased_blob());
    assert_eq!(device.ids(), vec![4, 3, 1]);
    assert!(device.store.delete_shot(&device.slots, 2).is_none());
    assert_eq!(slot_key(slot), format!("s{slot}"));
    assert_eq!(erased_blob(), vec![0u8; HEADER_LEN]);
}

#[test]
fn deleting_leaves_every_other_shot_as_it_was() {
    let mut device = Device::new();
    for i in 0..MAX_STORED_SHOTS + 3 {
        device.save(&make_shot(0, i));
    }
    let before = device.slots.clone();
    assert!(device.store.delete_shot(&device.slots, 3).is_none());
    let slot = device.store.delete_shot(&device.slots, 7).unwrap();
    device.slots[slot] = Some(erased_blob());
    assert!(device.store.get_shot(&device.slots, 7).is_none());
    for id in [4, 5, 6, 8, 9, 10, 11, 12, 13] {
        let now = device.store.get_shot(&device.slots, id).unwrap();
        let then = device.store.get_shot(&before, id).unwrap();
        assert_eq!(encode_shot(&now), encode_shot(&then));
        assert_eq!(now.points.len(), id as usize - 1);
    }
    assert_eq!(device.ids(), vec![13, 12, 11, 10, 9, 8, 6, 5, 4]);
    assert_eq!(device.save(&make_shot(0, 1)), 14);
    assert_eq!(device.ids(), vec![14, 13, 12, 11, 10, 9, 8, 6, 5]);
}

#[test]
fn numbers_differ_where_they_start_over() {
    let mut device = Device::new();
    device.store.next_id = u32::MAX - 1;
    let given: Vec<u32> = (0..4).map(|i| device.save(&make_shot(0, i))).collect();
    assert_eq!(given, vec![u32::MAX - 1, u32::MAX, 1, 2]);
    assert_eq!(device.ids(), vec![u32::MAX, u32::MAX - 1, 2, 1]);
    let slot = device.store.delete_shot(&device.slots, u32::MAX).unwrap();
    device.slots[slot] = Some(erased_blob());
    assert!(device.store.get_shot(&device.slots, u32::MAX).is_none());
    assert_eq!(device.store.get_shot(&device.slots, 2).unwrap().points.len(), 3);
    assert_eq!(device.ids(), vec![u32::MAX - 1, 2, 1]);
}

#[test]
fn stored_values_stay_close() {
    let ends = [(0.0, 0.0, -3276.8, 0.0), (655.35, 6553.5, 3276.7, 655.35)];
    let middle = [(9.005, 93.05, 36.249, 2.345), (123.456, 1234.55, -0.049, 300.999)];
    for (pressure, temperature, weight, flow) in ends.into_iter().chain(middle) {
        let shot = ShotRecord {
            id: 1,
            unix_timestamp: 2,
            points: vec![ShotPoint {
                time_ms: 70_000,
                pressure_bar: b(pressure),
                temperature_c: b(temperature),
                weight_g: b(weight),
                flow_gps: b(flow),
            }],
        };
        let blob = encode_shot(&shot);
        assert_eq!(blob.len(), 30);
        let p = decode_shot(&blob).unwrap().points[0];
        let apart = |a: Binary32, x: f32| (f(a) as f64 - x as f64).abs();
        assert_eq!(p.time_ms, 65_535);
        assert!(apart(p.pressure_bar, pressure) <= 0.0051);
        assert!(apart(p.temperature_c, temperature) <= 0.051);
        assert!(apart(p.weight_g, weight) <= 0.051);
        assert!(apart(p.flow_gps, flow) <= 0.0051);
    }
}

#[test]
fn malformed_metadata_means_an_empty_store() {
    let store = NvsShotStore::new(Some(vec![1, 2, 3]), Some(vec![]), Some(vec![1]));
    assert_eq!(store.head, 0);
    assert_eq!(store.slots_in_use().len(), 0);
    assert_eq!(store.next_id, u32::from_le_bytes([0, 0, 0, 1]));
    let store = NvsShotStore::new(Some(vec![200]), Some(vec![200]), Some(vec![0, 0, 0, 0]));
    assert_eq!((store.head, store.count, store.next_id), (9, 10, 1));
}
