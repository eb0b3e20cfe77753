use openbarista::binary32::Binary32;
use openbarista::scale_ble::discovery::{
    discover_and_subscribe, try_brute_force, try_standard_service, try_vendor_services,
    uses_indications, GattCharacteristic, GattService, GattUuid,
};
use openbarista::scale_ble::nimble::{
    ble_addr_type_str, format_ble_addr, hex_bytes, own_ble_address, parse_addr_type, AddressType,
};
use openbarista::scale_ble::runtime::{ConnectAction, ConnectRequest, ScaleRuntime};
use openbarista::scale_ble::types::{
    display_scale_name, is_scale_like_name, upsert_discovered, DiscoveredScaleInternal, SavedScale,
    ScaleConnectionState, ScaleManagerState,
};
use openbarista::scale_ble::watchdog::{
    watchdog_step, WatchdogEvent, WatchdogMsg, WatchdogState,
};
use openbarista::scale_ble::worker::{
    battery_read, begin_scan, channel_data, connect_begin, connect_step, finish_scan,
    handle_disconnect, link_lost, scan_found, transport_started, ConnectEvent, ConnectPhase,
    ConnectStep, CONNECT_MAX_ATTEMPTS, CONNECT_TIMEOUT_MS, SCALE_SCAN_DURATION_S,
};
use openbarista::scale_weight::ScaleProtocol;
use openbarista::telemetry_feed::SharedTelemetry;

fn f(x: Binary32) -> f32 {
    f32::from_bits(x.to_bits())
}

fn saved() -> SavedScale {
    SavedScale {
        address: "AA:BB:CC:DD:EE:FF".to_string(),
        name: "Lunar".to_string(),
        addr_type: "public".to_string(),
    }
}

/// A runtime whose radio is ready.
fn ready() -> (ScaleRuntime, SharedTelemetry) {
    let mut runtime = ScaleRuntime::try_new();
    transport_started(&mut runtime.state);
    (runtime, SharedTelemetry::new())
}

fn request_of(action: ConnectAction) -> ConnectRequest {
    match action {
        ConnectAction::Connect(request, _) => request,
        other => panic!("no request: {other:?}"),
    }
}

#[test]
fn nothing_works_without_bluetooth() {
    let mut runtime = ScaleRuntime::disabled("Broken.".to_string());
    let mut telemetry = SharedTelemetry::new();
    let unavailable = "Bluetooth is unavailable on this build.";
    assert_eq!(runtime.start_scan(&mut telemetry).result, Err(unavailable));
    assert_eq!(runtime.connect_address(&mut telemetry, "x").unwrap_err(), unavailable);
    assert_eq!(runtime.disconnect(&mut telemetry).result, Err(unavailable));
    let shown = runtime.snapshot();
    assert!(!shown.available);
    assert_eq!(shown.message, "Broken.");
    assert_eq!(shown.state, "idle");
    assert_eq!(shown.protocol, "unknown");
}

#[test]
fn scanning_waits_for_the_radio_and_for_a_free_scale() {
    let mut runtime = ScaleRuntime::try_new();
    let mut telemetry = SharedTelemetry::new();
    let decision = runtime.start_scan(&mut telemetry);
    assert_eq!(decision.result, Ok("Bluetooth is still starting. Try again in a moment."));
    assert!(!decision.send);
    transport_started(&mut runtime.state);
    runtime.state.state = ScaleConnectionState::Ready;
    let decision = runtime.start_scan(&mut telemetry);
    assert_eq!(decision.result, Ok("Disconnect the current scale before scanning."));
    assert!(!decision.send);
    runtime.state.state = ScaleConnectionState::Connecting;
    let decision = runtime.start_scan(&mut telemetry);
    assert_eq!(decision.result, Ok("Scanning for nearby Bluetooth scales..."));
    assert!(decision.send && decision.cancel_connect);
    assert_eq!(runtime.snapshot().state, "scanning");
}

#[test]
fn a_scan_notes_scales_and_skips_noise() {
    let (mut runtime, _) = ready();
    let own = Some("11:22:33:44:55:66".to_string());
    begin_scan(&mut runtime.state);
    let mut see = |address: &str, name: Option<&[u8]>, rssi: i32| {
        scan_found(
            &mut runtime.state,
            &own,
            address.to_string(),
            AddressType::Random,
            name.map(|n| n.to_vec()),
            rssi,
        )
    };
    see("11:22:33:44:55:66", Some(b"me"), -10);
    see("AA:00:00:00:00:01", None, -95);
    see("AA:00:00:00:00:02", None, -60);
    see("AA:00:00:00:00:03", Some(b"  BOOKOO_SC 1 "), -90);
    see("AA:00:00:00:00:04", Some(b"\xff\xfe"), -50);
    see("AA:00:00:00:00:05", Some(b"Lamp"), -99);
    finish_scan(&mut runtime.state);
    let shown = runtime.snapshot();
    assert_eq!(shown.message, "Found 4 device(s). Tap one to connect.");
    assert_eq!(shown.state, "idle");
    let names: Vec<&str> = shown.devices.iter().map(|d| d.name.as_str()).collect();
    assert_eq!(
        names,
        vec!["BOOKOO_SC 1", "AA:00:00:00:00:04", "AA:00:00:00:00:02", "Lamp"]
    );
    assert_eq!(shown.devices[0].address_type, "random");
}

#[test]
fn an_empty_scan_says_so() {
    let (mut runtime, _) = ready();
    begin_scan(&mut runtime.state);
    finish_scan(&mut runtime.state);
    assert_eq!(
        runtime.snapshot().message,
        "No nearby scales found. Try moving the scale closer and scan again."
    );
    finish_scan(&mut runtime.state);
    assert_eq!(runtime.state.state, ScaleConnectionState::Idle);
}

fn seen(address: &str, name: &str, rssi: i32) -> DiscoveredScaleInternal {
    DiscoveredScaleInternal {
        address_text: address.to_string(),
        addr_type_str: "public".to_string(),
        name: name.to_string(),
        rssi,
        protocol_hint: ScaleProtocol::Unknown,
        scale_like: is_scale_like_name(name),
    }
}

#[test]
fn a_device_is_listed_once_with_its_best_name() {
    let mut state = ScaleManagerState::new(true, String::new());
    upsert_discovered(&mut state, seen("aa:01", "Acaia", -70));
    upsert_discovered(&mut state, seen("AA:01", "AA:01", -40));
    assert_eq!(state.discovered.len(), 1);
    assert_eq!(state.discovered[0].name, "Acaia");
    assert_eq!(state.discovered[0].rssi, -40);
    assert!(state.discovered[0].scale_like);
    for i in 0..30 {
        upsert_discovered(&mut state, seen(&format!("bb:{i}"), "thing", -50 - i));
    }
    assert_eq!(state.discovered.len(), 18);
    assert_eq!(state.discovered[0].name, "Acaia");
}

#[test]
fn names_of_scales_are_recognised() {
    for name in ["My SCALE", "acaia lunar", "Felicita Arc", "TIMEMORE", "bookoo_sc", "AtomaX"] {
        assert!(is_scale_like_name(name), "{name}");
    }
    assert!(!is_scale_like_name("Headphones"));
    assert_eq!(display_scale_name("  "), "selected scale");
    assert_eq!(display_scale_name("Pearl"), "Pearl");
}

#[test]
fn a_saved_scale_is_connected() {
    let (mut runtime, mut telemetry) = ready();
    assert_eq!(
        runtime.connect_saved_scale(&mut telemetry).unwrap_err(),
        "No saved scale configured."
    );
    runtime.apply_saved_scale(Some(saved()));
    let action = runtime.connect_saved_scale(&mut telemetry).unwrap();
    let request = request_of(action);
    assert_eq!(request.connection_id, 1);
    assert_eq!(request.addr_type_str, "public");
    assert_eq!(runtime.snapshot().message, "Connecting to Lunar...");
    match runtime.connect_address(&mut telemetry, "aa:bb:cc:dd:ee:ff").unwrap() {
        ConnectAction::Already(m) => assert_eq!(m, "Already connected to Lunar."),
        other => panic!("{other:?}"),
    }
    assert_eq!(
        runtime.connect_address(&mut telemetry, "00:11").unwrap_err(),
        "Disconnect Lunar before connecting a different scale."
    );
    runtime.connect_send_failed();
    assert_eq!(runtime.snapshot().message, "Failed to send connect command.");
    assert_eq!(
        runtime.connect_address(&mut telemetry, "00:11").unwrap_err(),
        "Scale not found. Scan again and tap a device from the list."
    );
}

#[test]
fn a_connection_runs_through_its_phases() {
    let (mut runtime, mut telemetry) = ready();
    runtime.apply_saved_scale(Some(saved()));
    let request = request_of(runtime.connect_address(&mut telemetry, "AA:BB:CC:DD:EE:FF").unwrap());
    let (phase, step) = connect_begin(&mut runtime.state, &request, true);
    assert_eq!((phase, step), (ConnectPhase::Searching, ConnectStep::Search));
    assert_eq!(runtime.snapshot().message, "Searching for Lunar...");
    let mut step_with = |phase, event| {
        connect_step(&mut runtime.state, &mut telemetry, &request, phase, event)
    };
    let (phase, step) = step_with(phase, ConnectEvent::SearchDone(true));
    assert_eq!((phase, step), (ConnectPhase::Attempting(1), ConnectStep::Attempt));
    let (phase, step) = step_with(phase, ConnectEvent::AttemptDone(false));
    assert_eq!((phase, step), (ConnectPhase::Pausing(2), ConnectStep::Pause));
    let (phase, step) = step_with(phase, ConnectEvent::PauseOver);
    assert_eq!((phase, step), (ConnectPhase::Attempting(2), ConnectStep::Attempt));
    let (phase, step) = step_with(phase, ConnectEvent::AttemptDone(true));
    assert_eq!((phase, step), (ConnectPhase::Discovering, ConnectStep::Discover));
    let (phase, step) = step_with(phase, ConnectEvent::Discovered(Ok(ScaleProtocol::Bookoo)));
    assert_eq!((phase, step), (ConnectPhase::Over, ConnectStep::Keep));
    let shown = runtime.snapshot();
    assert_eq!(shown.state, "ready");
    assert_eq!(shown.message, "Connected to Lunar.");
    assert_eq!(shown.protocol, "bookoo");
    assert!(telemetry.snapshot().scale_connected);
}

#[test]
fn attempts_come_to_an_end() {
    let (mut runtime, mut telemetry) = ready();
    runtime.apply_saved_scale(Some(saved()));
    let request = request_of(runtime.connect_address(&mut telemetry, "AA:BB:CC:DD:EE:FF").unwrap());
    let (mut phase, _) = connect_begin(&mut runtime.state, &request, true);
    let mut attempts = 0;
    loop {
        let event = match phase {
            ConnectPhase::Searching => ConnectEvent::SearchDone(true),
            ConnectPhase::Attempting(_) => {
                attempts += 1;
                ConnectEvent::AttemptDone(false)
            }
            ConnectPhase::Pausing(_) => ConnectEvent::PauseOver,
            _ => break,
        };
        phase = connect_step(&mut runtime.state, &mut telemetry, &request, phase, event).0;
    }
    assert_eq!(attempts, CONNECT_MAX_ATTEMPTS);
    assert_eq!(
        runtime.snapshot().message,
        "Could not reach Lunar. It may be off or out of range."
    );
    assert_eq!(runtime.snapshot().state, "idle");
}

#[test]
fn a_scale_that_is_not_there_is_not_attempted() {
    let (mut runtime, mut telemetry) = ready();
    runtime.apply_saved_scale(Some(saved()));
    let request = request_of(runtime.connect_address(&mut telemetry, "AA:BB:CC:DD:EE:FF").unwrap());
    let (phase, _) = connect_begin(&mut runtime.state, &request, true);
    let event = ConnectEvent::SearchDone(false);
    let (phase, step) = connect_step(&mut runtime.state, &mut telemetry, &request, phase, event);
    assert_eq!((phase, step), (ConnectPhase::Over, ConnectStep::Stop));
    assert_eq!(
        runtime.snapshot().message,
        "Lunar not found nearby. Will retry automatically."
    );
    let retry = runtime.reconnect().unwrap();
    assert_eq!(retry.connection_id, 2);
    assert_eq!(runtime.snapshot().message, "Reconnecting to Lunar in the background...");
    runtime.reconnect_send_failed(retry.connection_id);
    assert_eq!(runtime.snapshot().message, "Bluetooth scale idle.");
}

#[test]
fn faults_of_a_connection_are_reported() {
    let (mut runtime, mut telemetry) = ready();
    runtime.apply_saved_scale(Some(saved()));
    let request = request_of(runtime.connect_address(&mut telemetry, "AA:BB:CC:DD:EE:FF").unwrap());
    connect_begin(&mut runtime.state, &request, false);
    assert_eq!(runtime.snapshot().message, "Invalid BLE address: AA:BB:CC:DD:EE:FF");
    assert_eq!(runtime.snapshot().state, "error");
    let request = request_of(runtime.connect_address(&mut telemetry, "AA:BB:CC:DD:EE:FF").unwrap());
    let event = ConnectEvent::Discovered(Err("No channel.".to_string()));
    let phase = ConnectPhase::Discovering;
    let (_, step) = connect_step(&mut runtime.state, &mut telemetry, &request, phase, event);
    assert_eq!(step, ConnectStep::Drop);
    assert_eq!(
        runtime.snapshot().message,
        "Connected to Lunar but could not find a weight channel: No channel."
    );
}

#[test]
fn a_disconnect_is_final() {
    let (mut runtime, mut telemetry) = ready();
    runtime.apply_saved_scale(Some(saved()));
    assert_eq!(
        runtime.disconnect(&mut telemetry).result,
        Ok("No scale is connected right now.")
    );
    let request = request_of(runtime.connect_address(&mut telemetry, "AA:BB:CC:DD:EE:FF").unwrap());
    let decision = runtime.disconnect(&mut telemetry);
    assert_eq!(decision.result, Ok("Disconnected."));
    assert!(decision.cancel_connect && decision.send);
    assert!(runtime.reconnect().is_none());
    let before = runtime.snapshot().message;
    let event = ConnectEvent::AttemptDone(true);
    let phase = ConnectPhase::Attempting(1);
    let (_, step) = connect_step(&mut runtime.state, &mut telemetry, &request, phase, event);
    assert_eq!(step, ConnectStep::Drop);
    assert_eq!(runtime.snapshot().message, before);
    runtime.forget_saved_scale();
    assert!(runtime.snapshot().saved_scale.is_none());
}

fn connected() -> (ScaleRuntime, SharedTelemetry, u64) {
    let (mut runtime, mut telemetry) = ready();
    runtime.apply_saved_scale(Some(saved()));
    let request = request_of(runtime.connect_address(&mut telemetry, "AA:BB:CC:DD:EE:FF").unwrap());
    let phase = ConnectPhase::Discovering;
    let event = ConnectEvent::Discovered(Ok(ScaleProtocol::GenericNotify));
    connect_step(&mut runtime.state, &mut telemetry, &request, phase, event);
    (runtime, telemetry, request.connection_id)
}

#[test]
fn weights_reach_the_telemetry() {
    let (mut runtime, mut telemetry, id) = connected();
    let generic = ScaleProtocol::GenericNotify;
    channel_data(&mut runtime.state, &mut telemetry, id, generic, b"WT: 10.0 g", 1_000);
    channel_data(&mut runtime.state, &mut telemetry, id, generic, b"WT: 12.0 g", 2_000);
    let shown = telemetry.snapshot();
    assert_eq!(f(shown.weight_g), 12.0);
    assert_eq!(f(shown.flow_gps), 2.0);
    // Data of another connection is stale.
    channel_data(&mut runtime.state, &mut telemetry, id + 1, generic, b"99", 3_000);
    assert_eq!(f(telemetry.snapshot().weight_g), 12.0);
    battery_read(&mut runtime.state, id, &[87, 1]);
    battery_read(&mut runtime.state, id + 1, &[3]);
    assert_eq!(runtime.snapshot().battery_percent, Some(87));
}

#[test]
fn negative_weights_are_shown_but_not_reported() {
    let (mut runtime, mut telemetry, id) = connected();
    let mut packet = [0u8; 20];
    packet[0] = 0x03;
    packet[1] = 0x0B;
    packet[6] = 0x2D;
    packet[9] = 100;
    channel_data(&mut runtime.state, &mut telemetry, id, ScaleProtocol::Bookoo, &packet, 5);
    assert_eq!(f(runtime.snapshot().weight_g), -1.0);
    assert_eq!(f(telemetry.snapshot().weight_g), 0.0);
}

#[test]
fn a_lost_link_clears_the_scale() {
    let (mut runtime, mut telemetry, id) = connected();
    link_lost(&mut runtime.state, &mut telemetry, id + 1, "Other");
    assert!(telemetry.snapshot().scale_connected);
    handle_disconnect(&mut runtime.state, &mut telemetry, true);
    assert!(telemetry.snapshot().scale_connected);
    link_lost(&mut runtime.state, &mut telemetry, id, "Lunar");
    assert_eq!(runtime.snapshot().message, "Disconnected from Lunar.");
    assert!(!telemetry.snapshot().scale_connected);
    handle_disconnect(&mut runtime.state, &mut telemetry, false);
    assert_eq!(runtime.snapshot().message, "No scale is connected right now.");
}

fn channel(uuid: u16, notify: bool, read: bool, write: bool) -> GattCharacteristic {
    GattCharacteristic {
        uuid: GattUuid::Short(uuid),
        uuid_text: format!("0x{uuid:04x}"),
        notify,
        indicate: false,
        read,
        write,
        write_no_response: false,
    }
}

fn service(uuid: u16, characteristics: Vec<GattCharacteristic>) -> GattService {
    GattService {
        uuid: GattUuid::Short(uuid),
        uuid_text: format!("0x{uuid:04x}"),
        characteristics,
    }
}

#[test]
fn the_standard_weight_channel_comes_first() {
    let services = vec![
        service(0xFFF0, vec![channel(0xFFF1, true, false, false)]),
        service(0x181D, vec![channel(0x2A9E, true, false, false), channel(0x2A9D, false, true, false)]),
    ];
    let plan = discover_and_subscribe(&services, "x").unwrap();
    assert_eq!(plan.protocol, ScaleProtocol::StandardWeight);
    assert_eq!(plan.subscriptions.len(), 1);
    assert_eq!((plan.subscriptions[0].service, plan.subscriptions[0].characteristic), (1, 1));
    assert_eq!(plan.subscriptions[0].label, "0x2A9D on service 0x181D");
    let fallback = vec![service(0x181D, vec![channel(0x2A9E, true, false, false)])];
    let plan = try_standard_service(&fallback).unwrap();
    assert_eq!(plan.protocol, ScaleProtocol::GenericNotify);
    assert_eq!(plan.subscriptions[0].label, "0x2a9e on service 0x181D");
}

#[test]
fn a_bookoo_scale_is_recognised() {
    let services = vec![service(
        0x0FFE,
        vec![
            channel(0xFF12, false, false, true),
            channel(0xFF11, true, false, false),
            channel(0xFF13, true, false, false),
        ],
    )];
    let plan = try_vendor_services(&services).unwrap();
    assert_eq!(plan.protocol, ScaleProtocol::Bookoo);
    assert_eq!(plan.subscriptions.len(), 1);
    assert_eq!(plan.bookoo_command, Some((0, 0)));
    assert!(plan.supports_manual_brew_start && plan.supports_flow_smoothing);
    let silent = vec![service(0x0FFE, vec![channel(0xFF11, true, false, false)])];
    let plan = discover_and_subscribe(&silent, "").unwrap();
    assert_eq!(plan.bookoo_command, None);
    assert!(!plan.supports_manual_brew_start);
}

#[test]
fn vendor_channels_are_listened_to_once() {
    let services = vec![service(
        0xFFE0,
        vec![
            channel(0xABCD, true, false, false),
            channel(0xFFE1, true, false, false),
            channel(0xFFE1, true, false, false),
            channel(0xFFE2, false, true, false),
        ],
    )];
    let plan = discover_and_subscribe(&services, "").unwrap();
    assert_eq!(plan.protocol, ScaleProtocol::GenericNotify);
    let places: Vec<usize> = plan.subscriptions.iter().map(|s| s.characteristic).collect();
    assert_eq!(places, vec![1, 0]);
}

#[test]
fn everything_is_tried_on_what_looks_like_a_scale() {
    let services = vec![
        service(0x1800, vec![channel(0x2A00, true, false, false)]),
        service(0x180F, vec![channel(0x2A19, true, false, false)]),
        service(0x1234, vec![channel(0x0001, false, true, true), channel(0x0002, true, false, false)]),
    ];
    assert_eq!(
        discover_and_subscribe(&services, "Headphones").unwrap_err(),
        "No weight characteristic found on this device."
    );
    let plan = discover_and_subscribe(&services, "Kitchen scale").unwrap();
    assert_eq!(plan.subscriptions.len(), 1);
    assert_eq!(plan.subscriptions[0].label, "0x0002 on service 0x1234");
    assert!(try_brute_force(&services).is_some());
}

#[test]
fn uuids_of_all_lengths_are_told_apart() {
    let mut full = [
        0xfb, 0x34, 0x9b, 0x5f, 0x80, 0x00, 0x00, 0x80, 0x00, 0x10, 0x00, 0x00, 0x1d, 0x18, 0x00, 0x00,
    ];
    assert!(GattUuid::Short(0x181D).is_short(0x181D));
    assert!(GattUuid::Long(0x181D).is_short(0x181D));
    assert!(GattUuid::Full(full).is_short(0x181D));
    assert!(!GattUuid::Full(full).is_short(0x181E));
    full[0] = 0;
    assert!(!GattUuid::Full(full).is_short(0x181D));
    assert!(!GattUuid::Long(0x1_181D).is_short(0x181D));
    let mut c = channel(1, false, false, false);
    c.indicate = true;
    assert!(uses_indications(&c));
    c.notify = true;
    assert!(!uses_indications(&c));
}

#[test]
fn the_watchdog_fires_after_its_time() {
    let (mut state, fired) = watchdog_step(
        WatchdogState::Waiting,
        WatchdogEvent::Message(WatchdogMsg::Arm),
        CONNECT_TIMEOUT_MS,
    );
    assert!(!fired);
    let mut ticks = 0;
    loop {
        let (next, fired) = watchdog_step(state, WatchdogEvent::Tick, CONNECT_TIMEOUT_MS);
        ticks += 1;
        state = next;
        if fired {
            break;
        }
    }
    assert_eq!(ticks, 60);
    assert_eq!(state, WatchdogState::Waiting);
    let event = WatchdogEvent::Message(WatchdogMsg::Done);
    assert_eq!(
        watchdog_step(WatchdogState::Counting(400), event, 500),
        (WatchdogState::Waiting, false)
    );
    let event = WatchdogEvent::Message(WatchdogMsg::Arm);
    assert_eq!(
        watchdog_step(WatchdogState::Counting(400), event, 500),
        (WatchdogState::Counting(0), false)
    );
    assert_eq!(
        watchdog_step(WatchdogState::Waiting, WatchdogEvent::Closed, 500).0,
        WatchdogState::Gone
    );
    assert_eq!(
        watchdog_step(WatchdogState::Waiting, WatchdogEvent::Message(WatchdogMsg::Arm), 0),
        (WatchdogState::Waiting, true)
    );
}

#[test]
fn addresses_are_written_with_their_first_byte_first() {
    assert_eq!(format_ble_addr(&[1, 2, 3, 4, 5, 0xAB]), "AB:05:04:03:02:01");
    assert_eq!(own_ble_address(None, None), None);
    assert_eq!(own_ble_address(Some([0; 6]), Some([1; 6])).unwrap(), "01:01:01:01:01:01");
    assert_eq!(own_ble_address(Some([2; 6]), Some([1; 6])).unwrap(), "02:02:02:02:02:02");
    assert_eq!(ble_addr_type_str(AddressType::Public), "public");
    assert_eq!(ble_addr_type_str(AddressType::RandomId), "random");
    assert_eq!(parse_addr_type("public"), AddressType::Public);
    assert_eq!(parse_addr_type("whatever"), AddressType::Random);
    assert_eq!(hex_bytes(&[0x0F, 0xA0]), "0F A0");
    assert_eq!(hex_bytes(&[]), "");
}

#[test]
fn times_are_as_documented() {
    assert_eq!(SCALE_SCAN_DURATION_S, 10);
    assert_eq!(CONNECT_TIMEOUT_MS, 12_000);
}
