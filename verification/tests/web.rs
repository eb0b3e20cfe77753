use openbarista::binary32::Binary32;
use openbarista::ota_flash::{
    expected_size, upload_report, FinishOutcome, OtaWriter, UploadOutcome, WriteError, FIRMWARE_MAX,
};
use openbarista::scale_ble::runtime::ScaleRuntime;
use openbarista::scale_ble::types::{DiscoveredScale, SavedScale};
use openbarista::telemetry_feed::SharedTelemetry;
use openbarista::util::json_escape;
use openbarista::web_assets::{
    base_css, captive_index_html, captive_static, captive_success_html, settings_css,
    settings_index_html, settings_js, station_css, station_index_html, station_js, uplot_css,
    uplot_js,
};
use openbarista::wifi_provision::captive::{
    build_dns_reply, captive_paths, plan_wifi, provision_status_json, refresh_network_cache,
    ProvisionStatus, WifiPlan,
};
use openbarista::wifi_provision::http::{
    self, action_result_json, board_id, build_id, connect_progress_json, find_field,
    networks_json, parse_form_field, response_headers, scale_status_json, settings_json,
    station_response_headers, telemetry_json, BodyReader, RequestBodyError,
};
use openbarista::wifi_provision::nvs::{
    read_device_settings, read_saved_credentials, read_saved_scale, save_saved_scale,
    save_temperature_offset, DeviceSettings,
};
use openbarista::wifi_provision::progress::{
    after_attempt, scan_for_auth, AfterAttempt, ConnectProgress, NetworkAuth, ScannedNetwork,
};
use openbarista::wifi_provision::station::{
    choose_scale, decide_connect, decide_settings, read_scale_request, read_settings_form,
    refuse_body, scale_action, scale_reply, scale_steps, settings_reply, settings_verdict,
    settled_action, station_networks, ScaleAction, ScaleStep,
};

fn b(x: f32) -> Binary32 {
    Binary32::from_bits(x.to_bits())
}

fn f(x: Binary32) -> f32 {
    f32::from_bits(x.to_bits())
}

#[test]
fn json_escape_handles_quotes_and_control_chars() {
    assert_eq!(json_escape("say \"hi\""), "say \\\"hi\\\"");
    assert_eq!(json_escape("a\nb\tc\\d"), "a\\nb\\tc\\\\d");
    assert_eq!(json_escape("nul\u{0}x"), "nul\\u0000x");
}

#[test]
fn json_escape_passes_printable_unicode_through() {
    assert_eq!(json_escape("café ☕"), "café ☕");
}

#[test]
fn control_characters_become_blanks_on_pages() {
    assert_eq!(http::json_escape("a\u{1}b\"c\n\u{85}"), "a b\\\"c\\n ");
}

#[test]
fn test_parse_form_field_basic() {
    let body = "ssid=my%20network&password=secret+pass";
    assert_eq!(
        parse_form_field(body, "ssid"),
        Some("my network".to_string())
    );
    assert_eq!(
        parse_form_field(body, "password"),
        Some("secret pass".to_string())
    );
}

#[test]
fn test_parse_form_field_missing_key() {
    let body = "ssid=myssid&password=secret";
    assert_eq!(parse_form_field(body, "unknown"), None);
}

#[test]
fn test_parse_form_field_empty_password_for_open_network() {
    let body = "ssid=open_network&password=&mode=open";
    let password = parse_form_field(body, "password");
    assert_eq!(password, Some(String::new()));
}

#[test]
fn the_first_field_with_a_name_counts() {
    assert_eq!(parse_form_field("a=1&b=2&a=3", "a"), Some("1".to_string()));
    let pairs = vec![
        ("k".to_string(), "x".to_string()),
        ("k".to_string(), "y".to_string()),
    ];
    assert_eq!(find_field(&pairs, "k"), Some("x".to_string()));
    assert_eq!(find_field(&pairs, "q"), None);
}

#[test]
fn bodies_are_limited_and_must_be_text() {
    let mut body = BodyReader::new(5);
    assert!(body.push_chunk(b"abc").is_ok());
    assert!(matches!(body.push_chunk(b"def"), Err(RequestBodyError::TooLarge)));
    assert!(body.push_chunk(b"de").is_ok());
    assert_eq!(body.finish().unwrap(), "abcde");
    let mut body = BodyReader::new(5);
    body.push_chunk(b"\xff").unwrap();
    assert!(matches!(body.finish(), Err(RequestBodyError::InvalidUtf8)));
    assert_eq!(
        refuse_body(&RequestBodyError::TooLarge),
        Some((413, "Payload Too Large", "Request body too large."))
    );
    assert_eq!(
        refuse_body(&RequestBodyError::InvalidUtf8),
        Some((400, "Bad Request", "Request body must be valid UTF-8."))
    );
    assert_eq!(refuse_body(&RequestBodyError::Io("x".to_string())), None);
}

#[test]
fn replies_carry_security_headers() {
    let headers = response_headers("text/plain", "no-store");
    assert_eq!(headers[0], ("Content-Type", "text/plain"));
    assert_eq!(headers[1], ("Cache-Control", "no-store"));
    assert_eq!(headers[3], ("X-Frame-Options", "DENY"));
    assert!(!headers[5].1.contains("unsafe-inline"));
    assert!(station_response_headers("a", "b")[5].1.contains("style-src 'self' 'unsafe-inline'"));
}

fn present() -> DeviceSettings {
    DeviceSettings {
        ssid: "home".to_string(),
        device_label: "Bar".to_string(),
        temperature_offset_c: b(-1.25),
    }
}

#[test]
fn pages_get_their_json() {
    assert_eq!(networks_json(&vec![]), "[]");
    assert_eq!(networks_json(&vec!["a\"".to_string(), "b".to_string()]), "[\"a\\\"\",\"b\"]");
    assert_eq!(action_result_json(false, "no"), "{\"ok\":false,\"message\":\"no\"}");
    assert_eq!(
        settings_json(&present(), "1.2.3.4", "dev", "AA", true, "ok", false),
        "{\"ok\":true,\"message\":\"ok\",\"rebooting\":false,\"ssid\":\"home\",\"device_label\":\"Bar\",\"temperature_offset_c\":-1.250,\"ip_addr\":\"1.2.3.4\",\"build_id\":\"dev\",\"board_id\":\"AA\"}"
    );
    let mut telemetry = SharedTelemetry::new();
    telemetry.update(b(93.42), b(8.74), b(f32::NAN));
    assert_eq!(
        telemetry_json(&telemetry.snapshot()),
        "{\"seq\":1,\"temperature_c\":93.420,\"pressure_bar\":8.740,\"pressure_psi\":0.000,\"scale_connected\":false,\"weight_g\":0.000,\"flow_gps\":0.000}"
    );
    assert_eq!(build_id(None), "dev");
    assert_eq!(build_id(Some("abc")), "abc");
    assert_eq!(board_id(None), "unknown");
    assert_eq!(board_id(Some([0xA0, 1, 2, 3, 4, 255])), "A001020304FF");
}

fn device(address: &str, name: &str) -> DiscoveredScale {
    DiscoveredScale {
        address: address.to_string(),
        name: name.to_string(),
        address_type: "random".to_string(),
        rssi: -61,
        protocol_hint: "unknown",
        saved: false,
    }
}

fn saved() -> SavedScale {
    SavedScale {
        address: "AA:BB".to_string(),
        name: "Lunar".to_string(),
        addr_type: "public".to_string(),
    }
}

#[test]
fn the_scale_is_shown_in_json() {
    let mut shown = ScaleRuntime::disabled("Off.".to_string()).snapshot();
    assert_eq!(
        scale_status_json(&shown),
        "{\"available\":false,\"state\":\"idle\",\"message\":\"Off.\",\"connected_name\":\"\",\"connected_address\":\"\",\"protocol\":\"unknown\",\"weight_g\":0.000,\"flow_gps\":0.000,\"battery_percent\":null,\"saved_scale\":null,\"devices\":[]}"
    );
    shown.battery_percent = Some(40);
    shown.saved_scale = Some(saved());
    shown.devices = vec![device("C1", "One"), device("C2", "Two")];
    let json = scale_status_json(&shown);
    assert!(json.contains("\"battery_percent\":40,\"saved_scale\":{\"address\":\"AA:BB\",\"name\":\"Lunar\",\"addr_type\":\"public\"}"));
    assert!(json.ends_with("\"devices\":[{\"address\":\"C1\",\"name\":\"One\",\"address_type\":\"random\",\"rssi\":-61,\"protocol_hint\":\"unknown\",\"saved\":false},{\"address\":\"C2\",\"name\":\"Two\",\"address_type\":\"random\",\"rssi\":-61,\"protocol_hint\":\"unknown\",\"saved\":false}]}"));
}

#[test]
fn a_scale_is_chosen_from_the_list_or_the_saved_one() {
    let mut shown = ScaleRuntime::disabled(String::new()).snapshot();
    let nothing = "Scan first, then tap a device from the list.";
    assert_eq!(choose_scale(&shown, "").unwrap_err(), nothing);
    shown.saved_scale = Some(saved());
    shown.devices = vec![device("c1", "One")];
    assert_eq!(choose_scale(&shown, "").unwrap().name, "Lunar");
    assert_eq!(choose_scale(&shown, "aa:bb").unwrap().name, "Lunar");
    assert_eq!(choose_scale(&shown, "C1").unwrap().name, "One");
    assert_eq!(choose_scale(&shown, "C9").unwrap_err(), nothing);
}

#[test]
fn requests_about_the_scale_are_read() {
    let (action, address) = read_scale_request("action=+connect+&address=AA%3ABB");
    assert_eq!(action, ScaleAction::Connect);
    assert_eq!(address, "AA:BB");
    assert_eq!(scale_action("scan"), ScaleAction::Scan);
    assert_eq!(scale_action("disconnect"), ScaleAction::Disconnect);
    assert_eq!(scale_action("forget"), ScaleAction::Forget);
    assert_eq!(scale_action(""), ScaleAction::Unsupported);
    let reply = scale_reply(Ok("done".to_string()));
    assert_eq!((reply.status, reply.reason), (200, Some("OK")));
    let reply = scale_reply(Err("no".to_string()));
    assert_eq!((reply.status, reply.reason), (400, None));
    assert_eq!(reply.body, "{\"ok\":false,\"message\":\"no\"}");
}

#[test]
fn scale_actions_have_their_steps_and_outcomes() {
    assert_eq!(scale_steps(ScaleAction::Scan), vec![ScaleStep::StartScan]);
    assert_eq!(
        scale_steps(ScaleAction::Connect),
        vec![ScaleStep::StoreChosen, ScaleStep::ApplyChosen, ScaleStep::ConnectChosen]
    );
    assert_eq!(scale_steps(ScaleAction::Disconnect), vec![ScaleStep::Disconnect]);
    assert_eq!(
        scale_steps(ScaleAction::Forget),
        vec![ScaleStep::ClearStored, ScaleStep::ForgetSaved, ScaleStep::Disconnect]
    );
    assert_eq!(scale_steps(ScaleAction::Unsupported), vec![]);
    assert_eq!(settled_action(ScaleAction::Forget), Some(Ok("Saved scale forgotten.")));
    assert_eq!(settled_action(ScaleAction::Unsupported), Some(Err("Unsupported scale action.")));
    for action in [ScaleAction::Scan, ScaleAction::Connect, ScaleAction::Disconnect] {
        assert_eq!(settled_action(action), None);
    }
}

#[test]
fn decided_settings_have_their_answer() {
    let verdict = |body: &str| {
        let v = settings_verdict(&decide_settings(read_settings_form(body), &present()));
        (v.status, v.reason, v.message, v.rebooting)
    };
    assert_eq!(verdict(""), (200, "OK", "Device settings saved.", false));
    assert_eq!(
        verdict("wifi_update=1&password=x"),
        (200, "OK", "Settings saved. Rebooting to apply network changes.", true)
    );
    assert_eq!(
        verdict("temperature_offset_c=warm"),
        (400, "Bad Request", "Temperature offset must be a number.", false)
    );
}

fn decide(body: &str) -> Result<(String, f32, Option<(String, String)>, &'static str), &'static str> {
    decide_settings(read_settings_form(body), &present())
        .map(|u| (u.device_label, f(u.temperature_offset_c), u.wifi, u.message))
}

#[test]
fn settings_are_taken_or_refused() {
    assert_eq!(
        decide("device_label=+My+Bar+&temperature_offset_c=1.5"),
        Ok(("My Bar".to_string(), 1.5, None, "Device settings saved."))
    );
    assert_eq!(
        decide(""),
        Ok(("OpenBarista".to_string(), 0.0, None, "Device settings saved."))
    );
    assert_eq!(
        decide("wifi_update=1&password=secret"),
        Ok((
            "OpenBarista".to_string(),
            0.0,
            Some(("home".to_string(), "secret".to_string())),
            "Settings saved. Rebooting to apply network changes."
        ))
    );
    assert_eq!(decide("temperature_offset_c=warm"), Err("Temperature offset must be a number."));
    let range = Err("One or more fields are invalid or out of range.");
    assert_eq!(decide("temperature_offset_c=20.01"), range);
    assert_eq!(decide("temperature_offset_c=nan"), range);
    assert_eq!(decide("temperature_offset_c=-20"), Ok(("OpenBarista".to_string(), -20.0, None, "Device settings saved.")));
    assert_eq!(decide(&format!("device_label={}", "x".repeat(33))), range);
    assert_eq!(decide(&format!("wifi_update=on&ssid={}", "x".repeat(33))), range);
    let mut none = present();
    none.ssid = String::new();
    assert_eq!(
        decide_settings(read_settings_form("wifi_update=true&password=x"), &none).unwrap_err(),
        "No current Wi-Fi network is saved yet. Select a network first."
    );
    assert_eq!(
        decide_settings(read_settings_form("wifi_update=true"), &none).unwrap().message,
        "No Wi-Fi changes requested."
    );
    let reply = settings_reply(400, "Bad Request", &none, "ip", "b", "c", "no", false);
    assert_eq!(reply.status, 400);
    assert!(reply.body.starts_with("{\"ok\":false,\"message\":\"no\""));
}

#[test]
fn saved_settings_are_read_back() {
    let text = save_temperature_offset(b(-1.2344));
    assert_eq!(text, "-1.234");
    let read = read_device_settings(Some("net".to_string()), None, Some(text));
    assert_eq!(read.ssid, "net");
    assert_eq!(read.device_label, "OpenBarista");
    assert_eq!(f(read.temperature_offset_c), -1.234);
    assert_eq!(save_temperature_offset(read.temperature_offset_c), "-1.234");
    assert_eq!(f(read_device_settings(None, None, Some("x".to_string())).temperature_offset_c), 0.0);
    assert_eq!(station_networks(&read), vec!["net".to_string()]);
    assert!(station_networks(&read_device_settings(None, None, None)).is_empty());
}

#[test]
fn a_saved_scale_is_checked_and_read_back() {
    assert!(save_saved_scale(&saved()).is_ok());
    let mut long = saved();
    long.address = "AA:BB:CC:DD:EE:FF:00".to_string();
    assert_eq!(
        save_saved_scale(&long).unwrap_err(),
        "Scale settings are invalid or out of range."
    );
    let read = read_saved_scale(Some(" AA ".to_string()), None, None).unwrap();
    assert_eq!((read.address.as_str(), read.name.as_str()), ("AA", "Saved scale"));
    assert_eq!(read.addr_type, "public");
    assert!(read_saved_scale(Some("  ".to_string()), None, None).is_none());
    assert_eq!(read_saved_credentials(Some(String::new()), None), (None, None));
}

#[test]
fn credentials_are_checked() {
    assert_eq!(
        decide_connect("ssid=net&password=pw").unwrap(),
        ("net".to_string(), "pw".to_string())
    );
    let reply = decide_connect("password=pw").unwrap_err();
    assert_eq!(reply.status, 400);
    assert_eq!(
        reply.body,
        "<html><body><p>SSID cannot be empty.</p><a href='/'>Go back</a></body></html>"
    );
    let reply = decide_connect(&format!("ssid=a&password={}", "p".repeat(65))).unwrap_err();
    assert!(reply.body.contains("SSID/password too long."));
    assert!(decide_connect(&format!("ssid={}&password={}", "s".repeat(32), "p".repeat(64))).is_ok());
}

#[test]
fn the_network_is_joined_in_five_attempts() {
    assert!(matches!(plan_wifi(None, Some("x".to_string())), Ok(WifiPlan::Provision)));
    assert!(matches!(
        plan_wifi(Some("n".to_string()), Some(String::new())),
        Ok(WifiPlan::JoinOpen(_, _))
    ));
    assert!(matches!(
        plan_wifi(Some("n".to_string()), Some("p".to_string())),
        Ok(WifiPlan::JoinSecured(_, _))
    ));
    assert_eq!(
        plan_wifi(Some("n".repeat(33)), Some(String::new())).unwrap_err(),
        "Saved SSID is too long (max 32 chars)"
    );
    assert_eq!(
        plan_wifi(Some("n".to_string()), Some("p".repeat(65))).unwrap_err(),
        "Saved password is too long (max 64 chars)"
    );
    let mut attempt = 1;
    let mut progress = ConnectProgress::new("net".to_string(), 5);
    loop {
        progress.attempting("net", attempt);
        match after_attempt(attempt, false) {
            AfterAttempt::Retry(next) => attempt = next,
            other => {
                assert_eq!(other, AfterAttempt::GiveUp);
                break;
            }
        }
    }
    assert_eq!(attempt, 5);
    assert_eq!(
        connect_progress_json(&progress),
        "{\"stage\":\"connecting\",\"ssid\":\"net\",\"attempt\":5,\"total\":5,\"message\":\"Connecting to 'net' (attempt 5/5)...\"}"
    );
    progress.failed();
    assert_eq!(progress.message, "Could not connect after retries. Staying in setup mode.");
    progress.rebooting("other");
    assert_eq!(progress.message, "Saved credentials for 'other'. Rebooting...");
    assert_eq!(progress.ssid, "other");
    progress.trying("net");
    assert_eq!(progress.message, "Trying 'net'...");
    progress.connected("net");
    assert_eq!(progress.message, "Connected to 'net'. Bringing dashboard online...");
    assert_eq!(after_attempt(2, true), AfterAttempt::Online);
}

#[test]
fn the_network_says_how_it_is_secured() {
    let found = vec![
        ScannedNetwork { ssid: "other".to_string(), auth: Some(NetworkAuth::WEP) },
        ScannedNetwork { ssid: "HOME".to_string(), auth: Some(NetworkAuth::WPA2Personal) },
        ScannedNetwork { ssid: "bare".to_string(), auth: None },
    ];
    assert_eq!(scan_for_auth(&found, "home"), NetworkAuth::WPA2Personal);
    assert_eq!(scan_for_auth(&found, "bare"), NetworkAuth::WPA2WPA3Personal);
    assert_eq!(scan_for_auth(&found, "absent"), NetworkAuth::WPA2WPA3Personal);
}

#[test]
fn found_networks_are_sorted_without_repetition() {
    let found = ["b", "", "a", "b", "B", "é", "a"].iter().map(|s| s.to_string()).collect();
    assert_eq!(refresh_network_cache(found), vec!["B", "a", "b", "é"]);
    assert!(provision_status_json(ProvisionStatus::Idle).contains("Waiting for Wi-Fi credentials."));
    assert!(provision_status_json(ProvisionStatus::Rebooting).contains("\"stage\":\"rebooting\""));
    assert_eq!(captive_paths()[1], "/generate_204");
}

fn dns_query(kind: u8) -> Vec<u8> {
    let mut q = vec![0xBE, 0xEF, 0x01, 0x00, 0, 1, 0, 0, 0, 0, 0, 0];
    q.extend_from_slice(b"\x03www\x07example\x03com\x00");
    q.extend_from_slice(&[0, kind, 0, 1]);
    q.extend_from_slice(b"ignored");
    q
}

#[test]
fn every_name_leads_to_the_portal() {
    let query = dns_query(1);
    let end = query.len() - 7;
    let reply = build_dns_reply(&query, [192, 168, 4, 1]).unwrap();
    let mut expected = vec![0xBE, 0xEF, 0x81, 0x80, 0, 1, 0, 1, 0, 0, 0, 0];
    expected.extend_from_slice(&query[12..end]);
    expected.extend_from_slice(&[0xC0, 0x0C, 0, 1, 0, 1, 0, 0, 0, 30, 0, 4, 192, 168, 4, 1]);
    assert_eq!(reply, expected);
    let other = build_dns_reply(&dns_query(28), [192, 168, 4, 1]).unwrap();
    assert_eq!(other.len(), end);
    assert_eq!(other[7], 0);
}

#[test]
fn what_is_no_question_gets_no_reply() {
    let good = dns_query(1);
    assert!(build_dns_reply(&good[..11], [0; 4]).is_none());
    let mut response = good.clone();
    response[2] |= 0x80;
    assert!(build_dns_reply(&response, [0; 4]).is_none());
    let mut none = good.clone();
    none[5] = 0;
    assert!(build_dns_reply(&none, [0; 4]).is_none());
    assert!(build_dns_reply(&good[..20], [0; 4]).is_none());
    assert!(build_dns_reply(&good[..good.len() - 8], [0; 4]).is_none());
}

#[test]
fn rejects_oversized_begin() {
    let err = match OtaWriter::begin(FIRMWARE_MAX + 1) {
        Err(e) => e.to_string(),
        Ok(_) => panic!("expected begin to reject an oversized image"),
    };
    assert!(err.contains("exceeds"));
}

#[test]
fn rejects_oversized_writes() {
    let mut writer = OtaWriter::begin(FIRMWARE_MAX).unwrap();
    assert!(matches!(writer.write(&[0u8; 100]), Ok(())));
    assert!(matches!(
        writer.write(&[0u8; FIRMWARE_MAX]),
        Err(WriteError::TooLarge)
    ));
}

#[test]
fn an_update_ends_as_the_flash_says() {
    let mut writer = OtaWriter::begin(10).unwrap();
    writer.write(&[1, 2, 3]).unwrap();
    assert!(writer.check(&[4]).is_ok());
    match writer.note_write(&[4], Err("worn out".to_string())) {
        Err(WriteError::Flash(m)) => assert_eq!(m, "esp_ota_write failed: worn out"),
        other => panic!("{other:?}"),
    }
    assert!(!writer.abort());
    assert_eq!(writer.finish(FinishOutcome::Selected), Ok(3));
    let mut writer = OtaWriter::begin(0).unwrap();
    assert!(writer.abort());
    assert_eq!(
        writer.finish(FinishOutcome::Invalid("bad magic".to_string())),
        Err("Firmware image validation failed: bad magic".to_string())
    );
    let writer = OtaWriter::begin(0).unwrap();
    assert_eq!(
        writer.finish(FinishOutcome::NotSelected("x".to_string())),
        Err("Failed to select new slot for boot: x".to_string())
    );
    assert_eq!(expected_size(None), 0);
    assert_eq!(expected_size(Some(77)), 77);
    assert_eq!(expected_size(Some(u64::MAX)), FIRMWARE_MAX);
}

#[test]
fn only_new_firmware_reboots_the_device() {
    let report = upload_report(UploadOutcome::Flashed(123));
    assert_eq!(report.line, "ota: flashed 123 bytes, rebooting into new slot");
    assert!(report.reboot && !report.resume_monitor);
    assert_eq!(report.reply.unwrap().status, 200);
    let failures = [
        (UploadOutcome::BeginFailed("e".to_string()), "ota: begin failed: e", Some(400), false),
        (UploadOutcome::ReadFailed("e".to_string()), "ota: body read failed: e", None, false),
        (UploadOutcome::TooLarge, "ota: rejected, firmware too large", Some(413), true),
        (UploadOutcome::FlashFailed("e".to_string()), "ota: flash write failed: e", Some(500), true),
        (UploadOutcome::Rejected("e\"".to_string()), "ota: validation failed: e\"", Some(400), false),
    ];
    for (outcome, line, status, drain) in failures {
        let report = upload_report(outcome);
        assert_eq!(report.line, line);
        assert_eq!(report.reply.map(|r| r.status), status);
        assert_eq!(report.drain, drain);
        assert!(!report.reboot && report.resume_monitor);
    }
}

#[test]
fn pages_are_filled_in() {
    let template = "<b>{{IP_ADDR}}</b>{{BUILD_ID}} {{BOARD_ID}} {{BUILD_ID}}";
    assert_eq!(station_index_html(template, "1.2.3.4", "b", "c"), "<b>1.2.3.4</b>b c b");
    assert_eq!(settings_index_html(template, "i", "b", "c"), "<b>i</b>b c b");
    assert_eq!(captive_index_html("{{BUILD_ID}}-{{BOARD_ID}}", "b", "c"), "b-c");
    assert_eq!(captive_success_html("{{BOARD_ID}}{{IP_ADDR}}", "b", "c"), "c{{IP_ADDR}}");
}

#[test]
fn files_have_their_types() {
    let css = captive_static("/portal.css", b"css", b"js").unwrap();
    assert_eq!(css.content_type, "text/css; charset=utf-8");
    assert_eq!(css.body, b"css");
    let js = captive_static("/portal.js", b"css", b"js").unwrap();
    assert_eq!(js.content_type, "application/javascript; charset=utf-8");
    assert!(captive_static("/other", b"css", b"js").is_none());
    for asset in [station_css(b"x"), base_css(b"x"), settings_css(b"x")] {
        assert_eq!(asset.content_type, "text/css; charset=utf-8");
        assert_eq!(asset.cache_control, "public, max-age=86400");
    }
    for asset in [station_js(b"x"), settings_js(b"x")] {
        assert_eq!(asset.content_type, "application/javascript; charset=utf-8");
        assert_eq!(asset.cache_control, "public, max-age=86400");
    }
    assert_eq!(uplot_js(b"x").cache_control, "public, max-age=604800");
    assert_eq!(uplot_css(b"x").content_type, "text/css; charset=utf-8");
}
