//! What the replies in JSON say: under each name stands the value of that name.
use crate::binary32;
use crate::binary32::Binary32;
use crate::convert;
use crate::decimal;
use crate::scale_ble::types::{DiscoveredScaleView, SavedScaleView, ScaleStatusView};
use crate::telemetry_feed::TelemetrySnapshot;
use crate::text;
use crate::wifi_provision::http;
use crate::wifi_provision::json_reading;
use crate::wifi_provision::nvs::SettingsView;
use crate::wifi_provision::progress::ProgressView;
use crate::wifi_provision::settings_laws;
use vstd::prelude::*;

verus! {

/// A number as it is shown, with three digits behind the point. What is no finite number is
/// shown as zero.
pub open spec fn shown(x: Binary32) -> Seq<char> {
    if x.finite() {
        convert::fixed3(x)
    } else {
        convert::fixed3(Binary32 { bits: 0 })
    }
}

/// Whether a text stands in quotation marks under a name of an object, with blanks for control
/// characters.
pub open spec fn says(object: Seq<char>, name: Seq<char>, s: Seq<char>) -> bool {
    json_reading::lookup(object, name) matches Some(v) && json_reading::string_value(v) == Some(
        http::visible(s),
    )
}

proof fn lemma_digits_are_whole(n: nat)
    ensures
        json_reading::whole(text::decimal(n), 0),
{
    settings_laws::lemma_decimal_value(n);
    let s = text::decimal(n);
    assert forall|i: int| 0 <= i < s.len() implies #[trigger] s[i] != '"' && s[i] != '{' && s[i]
        != '}' && s[i] != '[' && s[i] != ']' && (s[i] != ',' || 0nat > 0) by {
        assert(decimal::is_digit(s[i]));
    }
    json_reading::lemma_plain_is_whole(s, 0);
}

proof fn lemma_signed_is_whole(n: int)
    ensures
        json_reading::whole(text::signed_decimal(n), 0),
{
    if n < 0 {
        lemma_digits_are_whole((-n) as nat);
        json_reading::lemma_plain_is_whole(seq!['-'], 0);
        json_reading::lemma_joined_is_whole(seq!['-'], text::decimal((-n) as nat), 0);
    } else {
        lemma_digits_are_whole(n as nat);
    }
}

proof fn lemma_truth_is_whole(b: bool)
    ensures
        json_reading::whole(text::bool_text(b), 0),
{
    reveal_strlit("true");
    reveal_strlit("false");
    json_reading::lemma_plain_is_whole(text::bool_text(b), 0);
}

proof fn lemma_fixed_is_whole(x: Binary32)
    ensures
        json_reading::whole(convert::fixed3(x), 0),
{
    reveal(convert::fixed3);
    reveal_strlit("NaN");
    reveal_strlit("inf");
    let t = convert::thousandths(x);
    let whole = text::decimal(t / 1000);
    let three = convert::three_digits(t % 1000);
    settings_laws::lemma_decimal_value(t / 1000);
    settings_laws::lemma_three_digits(whole, t % 1000);
    let s = convert::fixed3(x);
    if x.finite() {
        let sign: int = if x.negative() {
            1
        } else {
            0
        };
        assert forall|i: int| 0 <= i < s.len() implies #[trigger] s[i] != '"' && s[i] != '{' && s[i]
            != '}' && s[i] != '[' && s[i] != ']' && (s[i] != ',' || 0nat > 0) by {
            if i < sign {
                assert(s[i] == '-');
            } else if i < sign + whole.len() {
                assert(s[i] == whole[i - sign]);
                assert(decimal::is_digit(whole[i - sign]));
            } else if i > sign + whole.len() {
                assert(s[i] == three[i - sign - whole.len() - 1]);
                assert(decimal::is_digit(three[i - sign - whole.len() - 1]));
            } else {
                assert(s[i] == '.');
            }
        }
    }
    json_reading::lemma_plain_is_whole(s, 0);
}

proof fn lemma_battery_is_whole(percent: Option<u8>)
    ensures
        json_reading::whole(http::battery_body(percent), 0),
{
    match percent {
        Some(p) => {
            lemma_digits_are_whole(p as nat);
        },
        None => {
            reveal_strlit("null");
            json_reading::lemma_plain_is_whole("null"@, 0);
        },
    }
}

proof fn lemma_first_label_seq()
    ensures
        "{\"seq\":"@ == seq!['{'] + json_reading::label("seq"@),
        json_reading::is_name("seq"@),
{
    reveal(json_reading::label);
    reveal_strlit("{\"seq\":");
    reveal_strlit("seq");
    assert("{\"seq\":"@ =~= seq!['{'] + json_reading::label("seq"@));
}

proof fn lemma_label_temperature_c()
    ensures
        ",\"temperature_c\":"@ == seq![','] + json_reading::label("temperature_c"@),
        json_reading::is_name("temperature_c"@),
{
    reveal(json_reading::label);
    reveal_strlit(",\"temperature_c\":");
    reveal_strlit("temperature_c");
    assert(",\"temperature_c\":"@ =~= seq![','] + json_reading::label("temperature_c"@));
}

proof fn lemma_label_pressure_bar()
    ensures
        ",\"pressure_bar\":"@ == seq![','] + json_reading::label("pressure_bar"@),
        json_reading::is_name("pressure_bar"@),
{
    reveal(json_reading::label);
    reveal_strlit(",\"pressure_bar\":");
    reveal_strlit("pressure_bar");
    assert(",\"pressure_bar\":"@ =~= seq![','] + json_reading::label("pressure_bar"@));
}

proof fn lemma_label_pressure_psi()
    ensures
        ",\"pressure_psi\":"@ == seq![','] + json_reading::label("pressure_psi"@),
        json_reading::is_name("pressure_psi"@),
{
    reveal(json_reading::label);
    reveal_strlit(",\"pressure_psi\":");
    reveal_strlit("pressure_psi");
    assert(",\"pressure_psi\":"@ =~= seq![','] + json_reading::label("pressure_psi"@));
}

proof fn lemma_label_scale_connected()
    ensures
        ",\"scale_connected\":"@ == seq![','] + json_reading::label("scale_connected"@),
        json_reading::is_name("scale_connected"@),
{
    reveal(json_reading::label);
    reveal_strlit(",\"scale_connected\":");
    reveal_strlit("scale_connected");
    assert(",\"scale_connected\":"@ =~= seq![','] + json_reading::label("scale_connected"@));
}

proof fn lemma_label_weight_g()
    ensures
        ",\"weight_g\":"@ == seq![','] + json_reading::label("weight_g"@),
        json_reading::is_name("weight_g"@),
{
    reveal(json_reading::label);
    reveal_strlit(",\"weight_g\":");
    reveal_strlit("weight_g");
    assert(",\"weight_g\":"@ =~= seq![','] + json_reading::label("weight_g"@));
}

proof fn lemma_label_flow_gps()
    ensures
        ",\"flow_gps\":"@ == seq![','] + json_reading::label("flow_gps"@),
        json_reading::is_name("flow_gps"@),
{
    reveal(json_reading::label);
    reveal_strlit(",\"flow_gps\":");
    reveal_strlit("flow_gps");
    assert(",\"flow_gps\":"@ =~= seq![','] + json_reading::label("flow_gps"@));
}

proof fn lemma_first_label_stage()
    ensures
        "{\"stage\":"@ == seq!['{'] + json_reading::label("stage"@),
        json_reading::is_name("stage"@),
{
    reveal(json_reading::label);
    reveal_strlit("{\"stage\":");
    reveal_strlit("stage");
    assert("{\"stage\":"@ =~= seq!['{'] + json_reading::label("stage"@));
}

proof fn lemma_label_ssid()
    ensures
        ",\"ssid\":"@ == seq![','] + json_reading::label("ssid"@),
        json_reading::is_name("ssid"@),
{
    reveal(json_reading::label);
    reveal_strlit(",\"ssid\":");
    reveal_strlit("ssid");
    assert(",\"ssid\":"@ =~= seq![','] + json_reading::label("ssid"@));
}

proof fn lemma_label_attempt()
    ensures
        ",\"attempt\":"@ == seq![','] + json_reading::label("attempt"@),
        json_reading::is_name("attempt"@),
{
    reveal(json_reading::label);
    reveal_strlit(",\"attempt\":");
    reveal_strlit("attempt");
    assert(",\"attempt\":"@ =~= seq![','] + json_reading::label("attempt"@));
}

proof fn lemma_label_total()
    ensures
        ",\"total\":"@ == seq![','] + json_reading::label("total"@),
        json_reading::is_name("total"@),
{
    reveal(json_reading::label);
    reveal_strlit(",\"total\":");
    reveal_strlit("total");
    assert(",\"total\":"@ =~= seq![','] + json_reading::label("total"@));
}

proof fn lemma_label_message()
    ensures
        ",\"message\":"@ == seq![','] + json_reading::label("message"@),
        json_reading::is_name("message"@),
{
    reveal(json_reading::label);
    reveal_strlit(",\"message\":");
    reveal_strlit("message");
    assert(",\"message\":"@ =~= seq![','] + json_reading::label("message"@));
}

proof fn lemma_first_label_ok()
    ensures
        "{\"ok\":"@ == seq!['{'] + json_reading::label("ok"@),
        json_reading::is_name("ok"@),
{
    reveal(json_reading::label);
    reveal_strlit("{\"ok\":");
    reveal_strlit("ok");
    assert("{\"ok\":"@ =~= seq!['{'] + json_reading::label("ok"@));
}

proof fn lemma_label_rebooting()
    ensures
        ",\"rebooting\":"@ == seq![','] + json_reading::label("rebooting"@),
        json_reading::is_name("rebooting"@),
{
    reveal(json_reading::label);
    reveal_strlit(",\"rebooting\":");
    reveal_strlit("rebooting");
    assert(",\"rebooting\":"@ =~= seq![','] + json_reading::label("rebooting"@));
}

proof fn lemma_label_device_label()
    ensures
        ",\"device_label\":"@ == seq![','] + json_reading::label("device_label"@),
        json_reading::is_name("device_label"@),
{
    reveal(json_reading::label);
    reveal_strlit(",\"device_label\":");
    reveal_strlit("device_label");
    assert(",\"device_label\":"@ =~= seq![','] + json_reading::label("device_label"@));
}

proof fn lemma_label_temperature_offset_c()
    ensures
        ",\"temperature_offset_c\":"@ == seq![','] + json_reading::label("temperature_offset_c"@),
        json_reading::is_name("temperature_offset_c"@),
{
    reveal(json_reading::label);
    reveal_strlit(",\"temperature_offset_c\":");
    reveal_strlit("temperature_offset_c");
    assert(",\"temperature_offset_c\":"@ =~= seq![','] + json_reading::label(
        "temperature_offset_c"@,
    ));
}

proof fn lemma_label_ip_addr()
    ensures
        ",\"ip_addr\":"@ == seq![','] + json_reading::label("ip_addr"@),
        json_reading::is_name("ip_addr"@),
{
    reveal(json_reading::label);
    reveal_strlit(",\"ip_addr\":");
    reveal_strlit("ip_addr");
    assert(",\"ip_addr\":"@ =~= seq![','] + json_reading::label("ip_addr"@));
}

proof fn lemma_label_build_id()
    ensures
        ",\"build_id\":"@ == seq![','] + json_reading::label("build_id"@),
        json_reading::is_name("build_id"@),
{
    reveal(json_reading::label);
    reveal_strlit(",\"build_id\":");
    reveal_strlit("build_id");
    assert(",\"build_id\":"@ =~= seq![','] + json_reading::label("build_id"@));
}

proof fn lemma_label_board_id()
    ensures
        ",\"board_id\":"@ == seq![','] + json_reading::label("board_id"@),
        json_reading::is_name("board_id"@),
{
    reveal(json_reading::label);
    reveal_strlit(",\"board_id\":");
    reveal_strlit("board_id");
    assert(",\"board_id\":"@ =~= seq![','] + json_reading::label("board_id"@));
}

proof fn lemma_first_label_address()
    ensures
        "{\"address\":"@ == seq!['{'] + json_reading::label("address"@),
        json_reading::is_name("address"@),
{
    reveal(json_reading::label);
    reveal_strlit("{\"address\":");
    reveal_strlit("address");
    assert("{\"address\":"@ =~= seq!['{'] + json_reading::label("address"@));
}

proof fn lemma_label_name()
    ensures
        ",\"name\":"@ == seq![','] + json_reading::label("name"@),
        json_reading::is_name("name"@),
{
    reveal(json_reading::label);
    reveal_strlit(",\"name\":");
    reveal_strlit("name");
    assert(",\"name\":"@ =~= seq![','] + json_reading::label("name"@));
}

proof fn lemma_label_addr_type()
    ensures
        ",\"addr_type\":"@ == seq![','] + json_reading::label("addr_type"@),
        json_reading::is_name("addr_type"@),
{
    reveal(json_reading::label);
    reveal_strlit(",\"addr_type\":");
    reveal_strlit("addr_type");
    assert(",\"addr_type\":"@ =~= seq![','] + json_reading::label("addr_type"@));
}

proof fn lemma_label_address_type()
    ensures
        ",\"address_type\":"@ == seq![','] + json_reading::label("address_type"@),
        json_reading::is_name("address_type"@),
{
    reveal(json_reading::label);
    reveal_strlit(",\"address_type\":");
    reveal_strlit("address_type");
    assert(",\"address_type\":"@ =~= seq![','] + json_reading::label("address_type"@));
}

proof fn lemma_label_rssi()
    ensures
        ",\"rssi\":"@ == seq![','] + json_reading::label("rssi"@),
        json_reading::is_name("rssi"@),
{
    reveal(json_reading::label);
    reveal_strlit(",\"rssi\":");
    reveal_strlit("rssi");
    assert(",\"rssi\":"@ =~= seq![','] + json_reading::label("rssi"@));
}

proof fn lemma_label_protocol_hint()
    ensures
        ",\"protocol_hint\":"@ == seq![','] + json_reading::label("protocol_hint"@),
        json_reading::is_name("protocol_hint"@),
{
    reveal(json_reading::label);
    reveal_strlit(",\"protocol_hint\":");
    reveal_strlit("protocol_hint");
    assert(",\"protocol_hint\":"@ =~= seq![','] + json_reading::label("protocol_hint"@));
}

proof fn lemma_label_saved()
    ensures
        ",\"saved\":"@ == seq![','] + json_reading::label("saved"@),
        json_reading::is_name("saved"@),
{
    reveal(json_reading::label);
    reveal_strlit(",\"saved\":");
    reveal_strlit("saved");
    assert(",\"saved\":"@ =~= seq![','] + json_reading::label("saved"@));
}

proof fn lemma_first_label_available()
    ensures
        "{\"available\":"@ == seq!['{'] + json_reading::label("available"@),
        json_reading::is_name("available"@),
{
    reveal(json_reading::label);
    reveal_strlit("{\"available\":");
    reveal_strlit("available");
    assert("{\"available\":"@ =~= seq!['{'] + json_reading::label("available"@));
}

proof fn lemma_label_state()
    ensures
        ",\"state\":"@ == seq![','] + json_reading::label("state"@),
        json_reading::is_name("state"@),
{
    reveal(json_reading::label);
    reveal_strlit(",\"state\":");
    reveal_strlit("state");
    assert(",\"state\":"@ =~= seq![','] + json_reading::label("state"@));
}

proof fn lemma_label_connected_name()
    ensures
        ",\"connected_name\":"@ == seq![','] + json_reading::label("connected_name"@),
        json_reading::is_name("connected_name"@),
{
    reveal(json_reading::label);
    reveal_strlit(",\"connected_name\":");
    reveal_strlit("connected_name");
    assert(",\"connected_name\":"@ =~= seq![','] + json_reading::label("connected_name"@));
}

proof fn lemma_label_connected_address()
    ensures
        ",\"connected_address\":"@ == seq![','] + json_reading::label("connected_address"@),
        json_reading::is_name("connected_address"@),
{
    reveal(json_reading::label);
    reveal_strlit(",\"connected_address\":");
    reveal_strlit("connected_address");
    assert(",\"connected_address\":"@ =~= seq![','] + json_reading::label("connected_address"@));
}

proof fn lemma_label_protocol()
    ensures
        ",\"protocol\":"@ == seq![','] + json_reading::label("protocol"@),
        json_reading::is_name("protocol"@),
{
    reveal(json_reading::label);
    reveal_strlit(",\"protocol\":");
    reveal_strlit("protocol");
    assert(",\"protocol\":"@ =~= seq![','] + json_reading::label("protocol"@));
}

proof fn lemma_label_battery_percent()
    ensures
        ",\"battery_percent\":"@ == seq![','] + json_reading::label("battery_percent"@),
        json_reading::is_name("battery_percent"@),
{
    reveal(json_reading::label);
    reveal_strlit(",\"battery_percent\":");
    reveal_strlit("battery_percent");
    assert(",\"battery_percent\":"@ =~= seq![','] + json_reading::label("battery_percent"@));
}

proof fn lemma_label_saved_scale()
    ensures
        ",\"saved_scale\":"@ == seq![','] + json_reading::label("saved_scale"@),
        json_reading::is_name("saved_scale"@),
{
    reveal(json_reading::label);
    reveal_strlit(",\"saved_scale\":");
    reveal_strlit("saved_scale");
    assert(",\"saved_scale\":"@ =~= seq![','] + json_reading::label("saved_scale"@));
}

proof fn lemma_label_devices()
    ensures
        ",\"devices\":"@ == seq![','] + json_reading::label("devices"@),
        json_reading::is_name("devices"@),
{
    reveal(json_reading::label);
    reveal_strlit(",\"devices\":");
    reveal_strlit("devices");
    assert(",\"devices\":"@ =~= seq![','] + json_reading::label("devices"@));
}

spec fn telemetry_fronts() -> Seq<Seq<char>> {
    seq![
        "{\"seq\":"@,
        ",\"temperature_c\":"@,
        ",\"pressure_bar\":"@,
        ",\"pressure_psi\":"@,
        ",\"scale_connected\":"@,
        ",\"weight_g\":"@,
        ",\"flow_gps\":"@,
    ]
}

spec fn telemetry_names() -> Seq<Seq<char>> {
    seq![
        "seq"@,
        "temperature_c"@,
        "pressure_bar"@,
        "pressure_psi"@,
        "scale_connected"@,
        "weight_g"@,
        "flow_gps"@,
    ]
}

spec fn telemetry_values(t: TelemetrySnapshot) -> Seq<Seq<char>> {
    seq![
        text::decimal(t.seq as nat),
        convert::fixed3(t.temperature_c.or_zero()),
        convert::fixed3(t.pressure_bar.or_zero()),
        convert::fixed3(t.pressure_psi.or_zero()),
        text::bool_text(t.scale_connected),
        convert::fixed3(t.weight_g.or_zero()),
        convert::fixed3(t.flow_gps.or_zero()),
    ]
}

proof fn lemma_telemetry_names()
    ensures
        forall|i: int, j: int|
            0 <= j < i < 7 ==> #[trigger] telemetry_names()[j] != #[trigger] telemetry_names()[i],
{
    reveal_strlit("seq");
    reveal_strlit("temperature_c");
    reveal_strlit("pressure_bar");
    reveal_strlit("pressure_psi");
    reveal_strlit("scale_connected");
    reveal_strlit("weight_g");
    reveal_strlit("flow_gps");
    assert("seq"@.len() != "temperature_c"@.len());
    assert("seq"@.len() != "pressure_bar"@.len());
    assert("temperature_c"@.len() != "pressure_bar"@.len());
    assert("seq"@.len() != "pressure_psi"@.len());
    assert("temperature_c"@.len() != "pressure_psi"@.len());
    assert("pressure_bar"@[9] != "pressure_psi"@[9]);
    assert("seq"@.len() != "scale_connected"@.len());
    assert("temperature_c"@.len() != "scale_connected"@.len());
    assert("pressure_bar"@.len() != "scale_connected"@.len());
    assert("pressure_psi"@.len() != "scale_connected"@.len());
    assert("seq"@.len() != "weight_g"@.len());
    assert("temperature_c"@.len() != "weight_g"@.len());
    assert("pressure_bar"@.len() != "weight_g"@.len());
    assert("pressure_psi"@.len() != "weight_g"@.len());
    assert("scale_connected"@.len() != "weight_g"@.len());
    assert("seq"@.len() != "flow_gps"@.len());
    assert("temperature_c"@.len() != "flow_gps"@.len());
    assert("pressure_bar"@.len() != "flow_gps"@.len());
    assert("pressure_psi"@.len() != "flow_gps"@.len());
    assert("scale_connected"@.len() != "flow_gps"@.len());
    assert("weight_g"@[0] != "flow_gps"@[0]);
}

proof fn lemma_telemetry_is_written(t: TelemetrySnapshot)
    ensures
        json_reading::well_written(
            telemetry_fronts(),
            telemetry_names(),
            telemetry_values(t),
        ),
        http::telemetry_body(t) == json_reading::written(
            telemetry_fronts(),
            telemetry_values(t),
        ) + "}"@,
{
    let v0 = text::decimal(t.seq as nat);
    assert(json_reading::whole(v0, 0)) by {
        lemma_digits_are_whole(t.seq as nat);
    }
    lemma_first_label_seq();
    let l0 = "{\"seq\":"@;
    let k0 = "seq"@;
    json_reading::lemma_written_first(l0, k0, v0);
    let f0 = seq![l0];
    let n0 = seq![k0];
    let w0 = seq![v0];
    let v1 = convert::fixed3(t.temperature_c.or_zero());
    assert(json_reading::whole(v1, 0)) by {
        lemma_fixed_is_whole(t.temperature_c.or_zero());
    }
    lemma_label_temperature_c();
    let l1 = ",\"temperature_c\":"@;
    let k1 = "temperature_c"@;
    json_reading::lemma_written_next(f0, n0, w0, l1, k1, v1);
    let f1 = f0.push(l1);
    let n1 = n0.push(k1);
    let w1 = w0.push(v1);
    let v2 = convert::fixed3(t.pressure_bar.or_zero());
    assert(json_reading::whole(v2, 0)) by {
        lemma_fixed_is_whole(t.pressure_bar.or_zero());
    }
    lemma_label_pressure_bar();
    let l2 = ",\"pressure_bar\":"@;
    let k2 = "pressure_bar"@;
    json_reading::lemma_written_next(f1, n1, w1, l2, k2, v2);
    let f2 = f1.push(l2);
    let n2 = n1.push(k2);
    let w2 = w1.push(v2);
    let v3 = convert::fixed3(t.pressure_psi.or_zero());
    assert(json_reading::whole(v3, 0)) by {
        lemma_fixed_is_whole(t.pressure_psi.or_zero());
    }
    lemma_label_pressure_psi();
    let l3 = ",\"pressure_psi\":"@;
    let k3 = "pressure_psi"@;
    json_reading::lemma_written_next(f2, n2, w2, l3, k3, v3);
    let f3 = f2.push(l3);
    let n3 = n2.push(k3);
    let w3 = w2.push(v3);
    let v4 = text::bool_text(t.scale_connected);
    assert(json_reading::whole(v4, 0)) by {
        lemma_truth_is_whole(t.scale_connected);
    }
    lemma_label_scale_connected();
    let l4 = ",\"scale_connected\":"@;
    let k4 = "scale_connected"@;
    json_reading::lemma_written_next(f3, n3, w3, l4, k4, v4);
    let f4 = f3.push(l4);
    let n4 = n3.push(k4);
    let w4 = w3.push(v4);
    let v5 = convert::fixed3(t.weight_g.or_zero());
    assert(json_reading::whole(v5, 0)) by {
        lemma_fixed_is_whole(t.weight_g.or_zero());
    }
    lemma_label_weight_g();
    let l5 = ",\"weight_g\":"@;
    let k5 = "weight_g"@;
    json_reading::lemma_written_next(f4, n4, w4, l5, k5, v5);
    let f5 = f4.push(l5);
    let n5 = n4.push(k5);
    let w5 = w4.push(v5);
    let v6 = convert::fixed3(t.flow_gps.or_zero());
    assert(json_reading::whole(v6, 0)) by {
        lemma_fixed_is_whole(t.flow_gps.or_zero());
    }
    lemma_label_flow_gps();
    let l6 = ",\"flow_gps\":"@;
    let k6 = "flow_gps"@;
    json_reading::lemma_written_next(f5, n5, w5, l6, k6, v6);
    let f6 = f5.push(l6);
    let n6 = n5.push(k6);
    let w6 = w5.push(v6);
    assert(f6 =~= telemetry_fronts());
    assert(n6 =~= telemetry_names());
    assert(w6 =~= telemetry_values(t));
}

/// Under each name the telemetry has the reading of that name, numbers to three digits behind the
/// point.
pub proof fn lemma_telemetry_is_read_back(t: TelemetrySnapshot)
    ensures
        ({
            let body = http::telemetry_body(t);
            &&& json_reading::lookup(body, "seq"@) == Some(text::decimal(t.seq as nat))
            &&& json_reading::lookup(body, "temperature_c"@) == Some(shown(t.temperature_c))
            &&& json_reading::lookup(body, "pressure_bar"@) == Some(shown(t.pressure_bar))
            &&& json_reading::lookup(body, "pressure_psi"@) == Some(shown(t.pressure_psi))
            &&& json_reading::lookup(body, "scale_connected"@) == Some(
                text::bool_text(t.scale_connected),
            )
            &&& json_reading::lookup(body, "weight_g"@) == Some(shown(t.weight_g))
            &&& json_reading::lookup(body, "flow_gps"@) == Some(shown(t.flow_gps))
        }),
{
    reveal_strlit("}");
    lemma_telemetry_names();
    lemma_telemetry_is_written(t);
    let f = telemetry_fronts();
    let n = telemetry_names();
    let v = telemetry_values(t);
    assert(n[0] == "seq"@ && v[0] == text::decimal(t.seq as nat));
    json_reading::lemma_written_is_found(f, n, v, 0, "}"@);
    assert(n[1] == "temperature_c"@ && v[1] == convert::fixed3(t.temperature_c.or_zero()));
    json_reading::lemma_written_is_found(f, n, v, 1, "}"@);
    assert(n[2] == "pressure_bar"@ && v[2] == convert::fixed3(t.pressure_bar.or_zero()));
    json_reading::lemma_written_is_found(f, n, v, 2, "}"@);
    assert(n[3] == "pressure_psi"@ && v[3] == convert::fixed3(t.pressure_psi.or_zero()));
    json_reading::lemma_written_is_found(f, n, v, 3, "}"@);
    assert(n[4] == "scale_connected"@ && v[4] == text::bool_text(t.scale_connected));
    json_reading::lemma_written_is_found(f, n, v, 4, "}"@);
    assert(n[5] == "weight_g"@ && v[5] == convert::fixed3(t.weight_g.or_zero()));
    json_reading::lemma_written_is_found(f, n, v, 5, "}"@);
    assert(n[6] == "flow_gps"@ && v[6] == convert::fixed3(t.flow_gps.or_zero()));
    json_reading::lemma_written_is_found(f, n, v, 6, "}"@);
}

spec fn progress_fronts() -> Seq<Seq<char>> {
    seq![
        "{\"stage\":"@,
        ",\"ssid\":"@,
        ",\"attempt\":"@,
        ",\"total\":"@,
        ",\"message\":"@,
    ]
}

spec fn progress_names() -> Seq<Seq<char>> {
    seq![
        "stage"@,
        "ssid"@,
        "attempt"@,
        "total"@,
        "message"@,
    ]
}

spec fn progress_values(p: ProgressView) -> Seq<Seq<char>> {
    seq![
        http::quoted(p.stage),
        http::quoted(p.ssid),
        text::decimal(p.attempt as nat),
        text::decimal(p.total as nat),
        http::quoted(p.message),
    ]
}

proof fn lemma_progress_names()
    ensures
        forall|i: int, j: int|
            0 <= j < i < 5 ==> #[trigger] progress_names()[j] != #[trigger] progress_names()[i],
{
    reveal_strlit("stage");
    reveal_strlit("ssid");
    reveal_strlit("attempt");
    reveal_strlit("total");
    reveal_strlit("message");
    assert("stage"@.len() != "ssid"@.len());
    assert("stage"@.len() != "attempt"@.len());
    assert("ssid"@.len() != "attempt"@.len());
    assert("stage"@[0] != "total"@[0]);
    assert("ssid"@.len() != "total"@.len());
    assert("attempt"@.len() != "total"@.len());
    assert("stage"@.len() != "message"@.len());
    assert("ssid"@.len() != "message"@.len());
    assert("attempt"@[0] != "message"@[0]);
    assert("total"@.len() != "message"@.len());
}

proof fn lemma_progress_is_written(p: ProgressView)
    ensures
        json_reading::well_written(
            progress_fronts(),
            progress_names(),
            progress_values(p),
        ),
        http::progress_body(p) == json_reading::written(
            progress_fronts(),
            progress_values(p),
        ) + "}"@,
{
    let v0 = http::quoted(p.stage);
    assert(json_reading::whole(v0, 0)) by {
        json_reading::lemma_quoted_is_whole(p.stage);
    }
    lemma_first_label_stage();
    let l0 = "{\"stage\":"@;
    let k0 = "stage"@;
    json_reading::lemma_written_first(l0, k0, v0);
    let f0 = seq![l0];
    let n0 = seq![k0];
    let w0 = seq![v0];
    let v1 = http::quoted(p.ssid);
    assert(json_reading::whole(v1, 0)) by {
        json_reading::lemma_quoted_is_whole(p.ssid);
    }
    lemma_label_ssid();
    let l1 = ",\"ssid\":"@;
    let k1 = "ssid"@;
    json_reading::lemma_written_next(f0, n0, w0, l1, k1, v1);
    let f1 = f0.push(l1);
    let n1 = n0.push(k1);
    let w1 = w0.push(v1);
    let v2 = text::decimal(p.attempt as nat);
    assert(json_reading::whole(v2, 0)) by {
        lemma_digits_are_whole(p.attempt as nat);
    }
    lemma_label_attempt();
    let l2 = ",\"attempt\":"@;
    let k2 = "attempt"@;
    json_reading::lemma_written_next(f1, n1, w1, l2, k2, v2);
    let f2 = f1.push(l2);
    let n2 = n1.push(k2);
    let w2 = w1.push(v2);
    let v3 = text::decimal(p.total as nat);
    assert(json_reading::whole(v3, 0)) by {
        lemma_digits_are_whole(p.total as nat);
    }
    lemma_label_total();
    let l3 = ",\"total\":"@;
    let k3 = "total"@;
    json_reading::lemma_written_next(f2, n2, w2, l3, k3, v3);
    let f3 = f2.push(l3);
    let n3 = n2.push(k3);
    let w3 = w2.push(v3);
    let v4 = http::quoted(p.message);
    assert(json_reading::whole(v4, 0)) by {
        json_reading::lemma_quoted_is_whole(p.message);
    }
    lemma_label_message();
    let l4 = ",\"message\":"@;
    let k4 = "message"@;
    json_reading::lemma_written_next(f3, n3, w3, l4, k4, v4);
    let f4 = f3.push(l4);
    let n4 = n3.push(k4);
    let w4 = w3.push(v4);
    assert(f4 =~= progress_fronts());
    assert(n4 =~= progress_names());
    assert(w4 =~= progress_values(p));
}

/// Under each name the progress has what it holds under that name.
pub proof fn lemma_progress_is_read_back(p: ProgressView)
    ensures
        ({
            let body = http::progress_body(p);
            &&& says(body, "stage"@, p.stage)
            &&& says(body, "ssid"@, p.ssid)
            &&& json_reading::lookup(body, "attempt"@) == Some(text::decimal(p.attempt as nat))
            &&& json_reading::lookup(body, "total"@) == Some(text::decimal(p.total as nat))
            &&& says(body, "message"@, p.message)
        }),
{
    reveal_strlit("}");
    lemma_progress_names();
    lemma_progress_is_written(p);
    let f = progress_fronts();
    let n = progress_names();
    let v = progress_values(p);
    assert(n[0] == "stage"@ && v[0] == http::quoted(p.stage));
    json_reading::lemma_written_is_found(f, n, v, 0, "}"@);
    json_reading::lemma_quoted_is_read_back(p.stage);
    assert(n[1] == "ssid"@ && v[1] == http::quoted(p.ssid));
    json_reading::lemma_written_is_found(f, n, v, 1, "}"@);
    json_reading::lemma_quoted_is_read_back(p.ssid);
    assert(n[2] == "attempt"@ && v[2] == text::decimal(p.attempt as nat));
    json_reading::lemma_written_is_found(f, n, v, 2, "}"@);
    assert(n[3] == "total"@ && v[3] == text::decimal(p.total as nat));
    json_reading::lemma_written_is_found(f, n, v, 3, "}"@);
    assert(n[4] == "message"@ && v[4] == http::quoted(p.message));
    json_reading::lemma_written_is_found(f, n, v, 4, "}"@);
    json_reading::lemma_quoted_is_read_back(p.message);
}

spec fn settings_fronts() -> Seq<Seq<char>> {
    seq![
        "{\"ok\":"@,
        ",\"message\":"@,
        ",\"rebooting\":"@,
        ",\"ssid\":"@,
        ",\"device_label\":"@,
        ",\"temperature_offset_c\":"@,
        ",\"ip_addr\":"@,
        ",\"build_id\":"@,
        ",\"board_id\":"@,
    ]
}

spec fn settings_names() -> Seq<Seq<char>> {
    seq![
        "ok"@,
        "message"@,
        "rebooting"@,
        "ssid"@,
        "device_label"@,
        "temperature_offset_c"@,
        "ip_addr"@,
        "build_id"@,
        "board_id"@,
    ]
}

spec fn settings_values(
    settings: SettingsView,
    ip_addr: Seq<char>,
    build_id: Seq<char>,
    board_id: Seq<char>,
    ok: bool,
    message: Seq<char>,
    rebooting: bool,
) -> Seq<Seq<char>> {
    seq![
        text::bool_text(ok),
        http::quoted(message),
        text::bool_text(rebooting),
        http::quoted(settings.ssid),
        http::quoted(settings.device_label),
        convert::fixed3(settings.temperature_offset_c),
        http::quoted(ip_addr),
        http::quoted(build_id),
        http::quoted(board_id),
    ]
}

proof fn lemma_settings_names()
    ensures
        forall|i: int, j: int|
            0 <= j < i < 9 ==> #[trigger] settings_names()[j] != #[trigger] settings_names()[i],
{
    reveal_strlit("ok");
    reveal_strlit("message");
    reveal_strlit("rebooting");
    reveal_strlit("ssid");
    reveal_strlit("device_label");
    reveal_strlit("temperature_offset_c");
    reveal_strlit("ip_addr");
    reveal_strlit("build_id");
    reveal_strlit("board_id");
    assert("ok"@.len() != "message"@.len());
    assert("ok"@.len() != "rebooting"@.len());
    assert("message"@.len() != "rebooting"@.len());
    assert("ok"@.len() != "ssid"@.len());
    assert("message"@.len() != "ssid"@.len());
    assert("rebooting"@.len() != "ssid"@.len());
    assert("ok"@.len() != "device_label"@.len());
    assert("message"@.len() != "device_label"@.len());
    assert("rebooting"@.len() != "device_label"@.len());
    assert("ssid"@.len() != "device_label"@.len());
    assert("ok"@.len() != "temperature_offset_c"@.len());
    assert("message"@.len() != "temperature_offset_c"@.len());
    assert("rebooting"@.len() != "temperature_offset_c"@.len());
    assert("ssid"@.len() != "temperature_offset_c"@.len());
    assert("device_label"@.len() != "temperature_offset_c"@.len());
    assert("ok"@.len() != "ip_addr"@.len());
    assert("message"@[0] != "ip_addr"@[0]);
    assert("rebooting"@.len() != "ip_addr"@.len());
    assert("ssid"@.len() != "ip_addr"@.len());
    assert("device_label"@.len() != "ip_addr"@.len());
    assert("temperature_offset_c"@.len() != "ip_addr"@.len());
    assert("ok"@.len() != "build_id"@.len());
    assert("message"@.len() != "build_id"@.len());
    assert("rebooting"@.len() != "build_id"@.len());
    assert("ssid"@.len() != "build_id"@.len());
    assert("device_label"@.len() != "build_id"@.len());
    assert("temperature_offset_c"@.len() != "build_id"@.len());
    assert("ip_addr"@.len() != "build_id"@.len());
    assert("ok"@.len() != "board_id"@.len());
    assert("message"@.len() != "board_id"@.len());
    assert("rebooting"@.len() != "board_id"@.len());
    assert("ssid"@.len() != "board_id"@.len());
    assert("device_label"@.len() != "board_id"@.len());
    assert("temperature_offset_c"@.len() != "board_id"@.len());
    assert("ip_addr"@.len() != "board_id"@.len());
    assert("build_id"@[1] != "board_id"@[1]);
}

#[verifier::rlimit(60)]
#[verifier::spinoff_prover]
proof fn lemma_settings_is_written(
    settings: SettingsView,
    ip_addr: Seq<char>,
    build_id: Seq<char>,
    board_id: Seq<char>,
    ok: bool,
    message: Seq<char>,
    rebooting: bool,
)
    ensures
        json_reading::well_written(
            settings_fronts(),
            settings_names(),
            settings_values(
                settings,
                ip_addr,
                build_id,
                board_id,
                ok,
                message,
                rebooting,
            ),
        ),
        http::settings_body(
            settings,
            ip_addr,
            build_id,
            board_id,
            ok,
            message,
            rebooting,
        ) == json_reading::written(
            settings_fronts(),
            settings_values(
                settings,
                ip_addr,
                build_id,
                board_id,
                ok,
                message,
                rebooting,
            ),
        ) + "}"@,
{
    let v0 = text::bool_text(ok);
    assert(json_reading::whole(v0, 0)) by {
        lemma_truth_is_whole(ok);
    }
    lemma_first_label_ok();
    let l0 = "{\"ok\":"@;
    let k0 = "ok"@;
    json_reading::lemma_written_first(l0, k0, v0);
    let f0 = seq![l0];
    let n0 = seq![k0];
    let w0 = seq![v0];
    let v1 = http::quoted(message);
    assert(json_reading::whole(v1, 0)) by {
        json_reading::lemma_quoted_is_whole(message);
    }
    lemma_label_message();
    let l1 = ",\"message\":"@;
    let k1 = "message"@;
    json_reading::lemma_written_next(f0, n0, w0, l1, k1, v1);
    let f1 = f0.push(l1);
    let n1 = n0.push(k1);
    let w1 = w0.push(v1);
    let v2 = text::bool_text(rebooting);
    assert(json_reading::whole(v2, 0)) by {
        lemma_truth_is_whole(rebooting);
    }
    lemma_label_rebooting();
    let l2 = ",\"rebooting\":"@;
    let k2 = "rebooting"@;
    json_reading::lemma_written_next(f1, n1, w1, l2, k2, v2);
    let f2 = f1.push(l2);
    let n2 = n1.push(k2);
    let w2 = w1.push(v2);
    let v3 = http::quoted(settings.ssid);
    assert(json_reading::whole(v3, 0)) by {
        json_reading::lemma_quoted_is_whole(settings.ssid);
    }
    lemma_label_ssid();
    let l3 = ",\"ssid\":"@;
    let k3 = "ssid"@;
    json_reading::lemma_written_next(f2, n2, w2, l3, k3, v3);
    let f3 = f2.push(l3);
    let n3 = n2.push(k3);
    let w3 = w2.push(v3);
    let v4 = http::quoted(settings.device_label);
    assert(json_reading::whole(v4, 0)) by {
        json_reading::lemma_quoted_is_whole(settings.device_label);
    }
    lemma_label_device_label();
    let l4 = ",\"device_label\":"@;
    let k4 = "device_label"@;
    json_reading::lemma_written_next(f3, n3, w3, l4, k4, v4);
    let f4 = f3.push(l4);
    let n4 = n3.push(k4);
    let w4 = w3.push(v4);
    let v5 = convert::fixed3(settings.temperature_offset_c);
    assert(json_reading::whole(v5, 0)) by {
        lemma_fixed_is_whole(settings.temperature_offset_c);
    }
    lemma_label_temperature_offset_c();
    let l5 = ",\"temperature_offset_c\":"@;
    let k5 = "temperature_offset_c"@;
    json_reading::lemma_written_next(f4, n4, w4, l5, k5, v5);
    let f5 = f4.push(l5);
    let n5 = n4.push(k5);
    let w5 = w4.push(v5);
    let v6 = http::quoted(ip_addr);
    assert(json_reading::whole(v6, 0)) by {
        json_reading::lemma_quoted_is_whole(ip_addr);
    }
    lemma_label_ip_addr();
    let l6 = ",\"ip_addr\":"@;
    let k6 = "ip_addr"@;
    json_reading::lemma_written_next(f5, n5, w5, l6, k6, v6);
    let f6 = f5.push(l6);
    let n6 = n5.push(k6);
    let w6 = w5.push(v6);
    let v7 = http::quoted(build_id);
    assert(json_reading::whole(v7, 0)) by {
        json_reading::lemma_quoted_is_whole(build_id);
    }
    lemma_label_build_id();
    let l7 = ",\"build_id\":"@;
    let k7 = "build_id"@;
    json_reading::lemma_written_next(f6, n6, w6, l7, k7, v7);
    let f7 = f6.push(l7);
    let n7 = n6.push(k7);
    let w7 = w6.push(v7);
    let v8 = http::quoted(board_id);
    assert(json_reading::whole(v8, 0)) by {
        json_reading::lemma_quoted_is_whole(board_id);
    }
    lemma_label_board_id();
    let l8 = ",\"board_id\":"@;
    let k8 = "board_id"@;
    json_reading::lemma_written_next(f7, n7, w7, l8, k8, v8);
    let f8 = f7.push(l8);
    let n8 = n7.push(k8);
    let w8 = w7.push(v8);
    assert(f8 =~= settings_fronts());
    assert(n8 =~= settings_names());
    assert(w8 =~= settings_values(settings, ip_addr, build_id, board_id, ok, message, rebooting));
}

/// Under each name the reply about the settings has what belongs there.
pub proof fn lemma_settings_is_read_back(
    settings: SettingsView,
    ip_addr: Seq<char>,
    build_id: Seq<char>,
    board_id: Seq<char>,
    ok: bool,
    message: Seq<char>,
    rebooting: bool,
)
    ensures
        ({
            let body = http::settings_body(
                settings,
                ip_addr,
                build_id,
                board_id,
                ok,
                message,
                rebooting,
            );
            &&& json_reading::lookup(body, "ok"@) == Some(text::bool_text(ok))
            &&& says(body, "message"@, message)
            &&& json_reading::lookup(body, "rebooting"@) == Some(text::bool_text(rebooting))
            &&& says(body, "ssid"@, settings.ssid)
            &&& says(body, "device_label"@, settings.device_label)
            &&& json_reading::lookup(body, "temperature_offset_c"@) == Some(
                convert::fixed3(settings.temperature_offset_c),
            )
            &&& says(body, "ip_addr"@, ip_addr)
            &&& says(body, "build_id"@, build_id)
            &&& says(body, "board_id"@, board_id)
        }),
{
    reveal_strlit("}");
    lemma_settings_names();
    lemma_settings_is_written(settings, ip_addr, build_id, board_id, ok, message, rebooting);
    let f = settings_fronts();
    let n = settings_names();
    let v = settings_values(settings, ip_addr, build_id, board_id, ok, message, rebooting);
    assert(n[0] == "ok"@ && v[0] == text::bool_text(ok));
    json_reading::lemma_written_is_found(f, n, v, 0, "}"@);
    assert(n[1] == "message"@ && v[1] == http::quoted(message));
    json_reading::lemma_written_is_found(f, n, v, 1, "}"@);
    json_reading::lemma_quoted_is_read_back(message);
    assert(n[2] == "rebooting"@ && v[2] == text::bool_text(rebooting));
    json_reading::lemma_written_is_found(f, n, v, 2, "}"@);
    assert(n[3] == "ssid"@ && v[3] == http::quoted(settings.ssid));
    json_reading::lemma_written_is_found(f, n, v, 3, "}"@);
    json_reading::lemma_quoted_is_read_back(settings.ssid);
    assert(n[4] == "device_label"@ && v[4] == http::quoted(settings.device_label));
    json_reading::lemma_written_is_found(f, n, v, 4, "}"@);
    json_reading::lemma_quoted_is_read_back(settings.device_label);
    assert(n[5] == "temperature_offset_c"@);
    assert(v[5] == convert::fixed3(settings.temperature_offset_c));
    json_reading::lemma_written_is_found(f, n, v, 5, "}"@);
    assert(n[6] == "ip_addr"@ && v[6] == http::quoted(ip_addr));
    json_reading::lemma_written_is_found(f, n, v, 6, "}"@);
    json_reading::lemma_quoted_is_read_back(ip_addr);
    assert(n[7] == "build_id"@ && v[7] == http::quoted(build_id));
    json_reading::lemma_written_is_found(f, n, v, 7, "}"@);
    json_reading::lemma_quoted_is_read_back(build_id);
    assert(n[8] == "board_id"@ && v[8] == http::quoted(board_id));
    json_reading::lemma_written_is_found(f, n, v, 8, "}"@);
    json_reading::lemma_quoted_is_read_back(board_id);
}

spec fn action_fronts() -> Seq<Seq<char>> {
    seq![
        "{\"ok\":"@,
        ",\"message\":"@,
    ]
}

spec fn action_names() -> Seq<Seq<char>> {
    seq![
        "ok"@,
        "message"@,
    ]
}

spec fn action_values(ok: bool, message: Seq<char>) -> Seq<Seq<char>> {
    seq![
        text::bool_text(ok),
        http::quoted(message),
    ]
}

proof fn lemma_action_names()
    ensures
        forall|i: int, j: int|
            0 <= j < i < 2 ==> #[trigger] action_names()[j] != #[trigger] action_names()[i],
{
    reveal_strlit("ok");
    reveal_strlit("message");
    assert("ok"@.len() != "message"@.len());
}

proof fn lemma_action_is_written(ok: bool, message: Seq<char>)
    ensures
        json_reading::well_written(
            action_fronts(),
            action_names(),
            action_values(ok, message),
        ),
        http::action_body(ok, message) == json_reading::written(
            action_fronts(),
            action_values(ok, message),
        ) + "}"@,
{
    let v0 = text::bool_text(ok);
    assert(json_reading::whole(v0, 0)) by {
        lemma_truth_is_whole(ok);
    }
    lemma_first_label_ok();
    let l0 = "{\"ok\":"@;
    let k0 = "ok"@;
    json_reading::lemma_written_first(l0, k0, v0);
    let f0 = seq![l0];
    let n0 = seq![k0];
    let w0 = seq![v0];
    let v1 = http::quoted(message);
    assert(json_reading::whole(v1, 0)) by {
        json_reading::lemma_quoted_is_whole(message);
    }
    lemma_label_message();
    let l1 = ",\"message\":"@;
    let k1 = "message"@;
    json_reading::lemma_written_next(f0, n0, w0, l1, k1, v1);
    let f1 = f0.push(l1);
    let n1 = n0.push(k1);
    let w1 = w0.push(v1);
    assert(f1 =~= action_fronts());
    assert(n1 =~= action_names());
    assert(w1 =~= action_values(ok, message));
}

/// The reply to an action says whether it succeeded, and its message.
pub proof fn lemma_action_is_read_back(ok: bool, message: Seq<char>)
    ensures
        ({
            let body = http::action_body(ok, message);
            &&& json_reading::lookup(body, "ok"@) == Some(text::bool_text(ok))
            &&& says(body, "message"@, message)
        }),
{
    reveal_strlit("}");
    lemma_action_names();
    lemma_action_is_written(ok, message);
    let f = action_fronts();
    let n = action_names();
    let v = action_values(ok, message);
    assert(n[0] == "ok"@ && v[0] == text::bool_text(ok));
    json_reading::lemma_written_is_found(f, n, v, 0, "}"@);
    assert(n[1] == "message"@ && v[1] == http::quoted(message));
    json_reading::lemma_written_is_found(f, n, v, 1, "}"@);
    json_reading::lemma_quoted_is_read_back(message);
}

spec fn saved_scale_fronts() -> Seq<Seq<char>> {
    seq![
        "{\"address\":"@,
        ",\"name\":"@,
        ",\"addr_type\":"@,
    ]
}

spec fn saved_scale_names() -> Seq<Seq<char>> {
    seq![
        "address"@,
        "name"@,
        "addr_type"@,
    ]
}

spec fn saved_scale_values(s: SavedScaleView) -> Seq<Seq<char>> {
    seq![
        http::quoted(s.address),
        http::quoted(s.name),
        http::quoted(s.addr_type),
    ]
}

proof fn lemma_saved_scale_names()
    ensures
        forall|i: int, j: int|
            0 <= j < i < 3 ==> #[trigger] saved_scale_names()[j] != #[trigger] saved_scale_names()[i],
{
    reveal_strlit("address");
    reveal_strlit("name");
    reveal_strlit("addr_type");
    assert("address"@.len() != "name"@.len());
    assert("address"@.len() != "addr_type"@.len());
    assert("name"@.len() != "addr_type"@.len());
}

proof fn lemma_saved_scale_is_written(s: SavedScaleView)
    ensures
        json_reading::well_written(
            saved_scale_fronts(),
            saved_scale_names(),
            saved_scale_values(s),
        ),
        http::saved_scale_body(Some(s)) == json_reading::written(
            saved_scale_fronts(),
            saved_scale_values(s),
        ) + "}"@,
{
    let v0 = http::quoted(s.address);
    assert(json_reading::whole(v0, 0)) by {
        json_reading::lemma_quoted_is_whole(s.address);
    }
    lemma_first_label_address();
    let l0 = "{\"address\":"@;
    let k0 = "address"@;
    json_reading::lemma_written_first(l0, k0, v0);
    let f0 = seq![l0];
    let n0 = seq![k0];
    let w0 = seq![v0];
    let v1 = http::quoted(s.name);
    assert(json_reading::whole(v1, 0)) by {
        json_reading::lemma_quoted_is_whole(s.name);
    }
    lemma_label_name();
    let l1 = ",\"name\":"@;
    let k1 = "name"@;
    json_reading::lemma_written_next(f0, n0, w0, l1, k1, v1);
    let f1 = f0.push(l1);
    let n1 = n0.push(k1);
    let w1 = w0.push(v1);
    let v2 = http::quoted(s.addr_type);
    assert(json_reading::whole(v2, 0)) by {
        json_reading::lemma_quoted_is_whole(s.addr_type);
    }
    lemma_label_addr_type();
    let l2 = ",\"addr_type\":"@;
    let k2 = "addr_type"@;
    json_reading::lemma_written_next(f1, n1, w1, l2, k2, v2);
    let f2 = f1.push(l2);
    let n2 = n1.push(k2);
    let w2 = w1.push(v2);
    assert(f2 =~= saved_scale_fronts());
    assert(n2 =~= saved_scale_names());
    assert(w2 =~= saved_scale_values(s));
}

proof fn lemma_saved_scale_body_is_whole(s: SavedScaleView)
    ensures
        json_reading::whole(http::saved_scale_body(Some(s)), 0),
        http::saved_scale_body(Some(s)).len() > 0,
{
    lemma_saved_scale_is_written(s);
    json_reading::lemma_written_is_whole(
        saved_scale_fronts(),
        saved_scale_names(),
        saved_scale_values(s),
    );
    reveal_strlit("}");
    assert("}"@ =~= seq!['}']);
}

/// Under each name the saved scale has what it holds under that name.
pub proof fn lemma_saved_scale_is_read_back(s: SavedScaleView)
    ensures
        ({
            let body = http::saved_scale_body(Some(s));
            &&& says(body, "address"@, s.address)
            &&& says(body, "name"@, s.name)
            &&& says(body, "addr_type"@, s.addr_type)
        }),
{
    reveal_strlit("}");
    lemma_saved_scale_names();
    lemma_saved_scale_is_written(s);
    let f = saved_scale_fronts();
    let n = saved_scale_names();
    let v = saved_scale_values(s);
    assert(n[0] == "address"@ && v[0] == http::quoted(s.address));
    json_reading::lemma_written_is_found(f, n, v, 0, "}"@);
    json_reading::lemma_quoted_is_read_back(s.address);
    assert(n[1] == "name"@ && v[1] == http::quoted(s.name));
    json_reading::lemma_written_is_found(f, n, v, 1, "}"@);
    json_reading::lemma_quoted_is_read_back(s.name);
    assert(n[2] == "addr_type"@ && v[2] == http::quoted(s.addr_type));
    json_reading::lemma_written_is_found(f, n, v, 2, "}"@);
    json_reading::lemma_quoted_is_read_back(s.addr_type);
}

proof fn lemma_saved_scale_is_whole(saved: Option<SavedScaleView>)
    ensures
        json_reading::whole(http::saved_scale_body(saved), 0),
{
    match saved {
        Some(s) => {
            lemma_saved_scale_body_is_whole(s);
        },
        None => {
            reveal_strlit("null");
            json_reading::lemma_plain_is_whole("null"@, 0);
        },
    }
}

spec fn device_fronts() -> Seq<Seq<char>> {
    seq![
        "{\"address\":"@,
        ",\"name\":"@,
        ",\"address_type\":"@,
        ",\"rssi\":"@,
        ",\"protocol_hint\":"@,
        ",\"saved\":"@,
    ]
}

spec fn device_names() -> Seq<Seq<char>> {
    seq![
        "address"@,
        "name"@,
        "address_type"@,
        "rssi"@,
        "protocol_hint"@,
        "saved"@,
    ]
}

spec fn device_values(d: DiscoveredScaleView) -> Seq<Seq<char>> {
    seq![
        http::quoted(d.address),
        http::quoted(d.name),
        http::quoted(d.address_type),
        text::signed_decimal(d.rssi as int),
        http::quoted(d.protocol_hint),
        text::bool_text(d.saved),
    ]
}

proof fn lemma_device_names()
    ensures
        forall|i: int, j: int|
            0 <= j < i < 6 ==> #[trigger] device_names()[j] != #[trigger] device_names()[i],
{
    reveal_strlit("address");
    reveal_strlit("name");
    reveal_strlit("address_type");
    reveal_strlit("rssi");
    reveal_strlit("protocol_hint");
    reveal_strlit("saved");
    assert("address"@.len() != "name"@.len());
    assert("address"@.len() != "address_type"@.len());
    assert("name"@.len() != "address_type"@.len());
    assert("address"@.len() != "rssi"@.len());
    assert("name"@[0] != "rssi"@[0]);
    assert("address_type"@.len() != "rssi"@.len());
    assert("address"@.len() != "protocol_hint"@.len());
    assert("name"@.len() != "protocol_hint"@.len());
    assert("address_type"@.len() != "protocol_hint"@.len());
    assert("rssi"@.len() != "protocol_hint"@.len());
    assert("address"@.len() != "saved"@.len());
    assert("name"@.len() != "saved"@.len());
    assert("address_type"@.len() != "saved"@.len());
    assert("rssi"@.len() != "saved"@.len());
    assert("protocol_hint"@.len() != "saved"@.len());
}

proof fn lemma_device_is_written(d: DiscoveredScaleView)
    ensures
        json_reading::well_written(
            device_fronts(),
            device_names(),
            device_values(d),
        ),
        http::device_body(d) == json_reading::written(
            device_fronts(),
            device_values(d),
        ) + "}"@,
{
    let v0 = http::quoted(d.address);
    assert(json_reading::whole(v0, 0)) by {
        json_reading::lemma_quoted_is_whole(d.address);
    }
    lemma_first_label_address();
    let l0 = "{\"address\":"@;
    let k0 = "address"@;
    json_reading::lemma_written_first(l0, k0, v0);
    let f0 = seq![l0];
    let n0 = seq![k0];
    let w0 = seq![v0];
    let v1 = http::quoted(d.name);
    assert(json_reading::whole(v1, 0)) by {
        json_reading::lemma_quoted_is_whole(d.name);
    }
    lemma_label_name();
    let l1 = ",\"name\":"@;
    let k1 = "name"@;
    json_reading::lemma_written_next(f0, n0, w0, l1, k1, v1);
    let f1 = f0.push(l1);
    let n1 = n0.push(k1);
    let w1 = w0.push(v1);
    let v2 = http::quoted(d.address_type);
    assert(json_reading::whole(v2, 0)) by {
        json_reading::lemma_quoted_is_whole(d.address_type);
    }
    lemma_label_address_type();
    let l2 = ",\"address_type\":"@;
    let k2 = "address_type"@;
    json_reading::lemma_written_next(f1, n1, w1, l2, k2, v2);
    let f2 = f1.push(l2);
    let n2 = n1.push(k2);
    let w2 = w1.push(v2);
    let v3 = text::signed_decimal(d.rssi as int);
    assert(json_reading::whole(v3, 0)) by {
        lemma_signed_is_whole(d.rssi as int);
    }
    lemma_label_rssi();
    let l3 = ",\"rssi\":"@;
    let k3 = "rssi"@;
    json_reading::lemma_written_next(f2, n2, w2, l3, k3, v3);
    let f3 = f2.push(l3);
    let n3 = n2.push(k3);
    let w3 = w2.push(v3);
    let v4 = http::quoted(d.protocol_hint);
    assert(json_reading::whole(v4, 0)) by {
        json_reading::lemma_quoted_is_whole(d.protocol_hint);
    }
    lemma_label_protocol_hint();
    let l4 = ",\"protocol_hint\":"@;
    let k4 = "protocol_hint"@;
    json_reading::lemma_written_next(f3, n3, w3, l4, k4, v4);
    let f4 = f3.push(l4);
    let n4 = n3.push(k4);
    let w4 = w3.push(v4);
    let v5 = text::bool_text(d.saved);
    assert(json_reading::whole(v5, 0)) by {
        lemma_truth_is_whole(d.saved);
    }
    lemma_label_saved();
    let l5 = ",\"saved\":"@;
    let k5 = "saved"@;
    json_reading::lemma_written_next(f4, n4, w4, l5, k5, v5);
    let f5 = f4.push(l5);
    let n5 = n4.push(k5);
    let w5 = w4.push(v5);
    assert(f5 =~= device_fronts());
    assert(n5 =~= device_names());
    assert(w5 =~= device_values(d));
}

proof fn lemma_device_body_is_whole(d: DiscoveredScaleView)
    ensures
        json_reading::whole(http::device_body(d), 0),
        http::device_body(d).len() > 0,
{
    lemma_device_is_written(d);
    json_reading::lemma_written_is_whole(
        device_fronts(),
        device_names(),
        device_values(d),
    );
    reveal_strlit("}");
    assert("}"@ =~= seq!['}']);
}

/// Under each name a scale in reach has what is known of it.
pub proof fn lemma_device_is_read_back(d: DiscoveredScaleView)
    ensures
        ({
            let body = http::device_body(d);
            &&& says(body, "address"@, d.address)
            &&& says(body, "name"@, d.name)
            &&& says(body, "address_type"@, d.address_type)
            &&& json_reading::lookup(body, "rssi"@) == Some(text::signed_decimal(d.rssi as int))
            &&& says(body, "protocol_hint"@, d.protocol_hint)
            &&& json_reading::lookup(body, "saved"@) == Some(text::bool_text(d.saved))
        }),
{
    reveal_strlit("}");
    lemma_device_names();
    lemma_device_is_written(d);
    let f = device_fronts();
    let n = device_names();
    let v = device_values(d);
    assert(n[0] == "address"@ && v[0] == http::quoted(d.address));
    json_reading::lemma_written_is_found(f, n, v, 0, "}"@);
    json_reading::lemma_quoted_is_read_back(d.address);
    assert(n[1] == "name"@ && v[1] == http::quoted(d.name));
    json_reading::lemma_written_is_found(f, n, v, 1, "}"@);
    json_reading::lemma_quoted_is_read_back(d.name);
    assert(n[2] == "address_type"@ && v[2] == http::quoted(d.address_type));
    json_reading::lemma_written_is_found(f, n, v, 2, "}"@);
    json_reading::lemma_quoted_is_read_back(d.address_type);
    assert(n[3] == "rssi"@ && v[3] == text::signed_decimal(d.rssi as int));
    json_reading::lemma_written_is_found(f, n, v, 3, "}"@);
    assert(n[4] == "protocol_hint"@ && v[4] == http::quoted(d.protocol_hint));
    json_reading::lemma_written_is_found(f, n, v, 4, "}"@);
    json_reading::lemma_quoted_is_read_back(d.protocol_hint);
    assert(n[5] == "saved"@ && v[5] == text::bool_text(d.saved));
    json_reading::lemma_written_is_found(f, n, v, 5, "}"@);
}

spec fn device_items(devices: Seq<DiscoveredScaleView>) -> Seq<Seq<char>> {
    devices.map_values(|d: DiscoveredScaleView| http::device_body(d))
}

proof fn lemma_device_items(devices: Seq<DiscoveredScaleView>)
    ensures
        json_reading::whole_items(device_items(devices)),
        http::device_list(devices) == json_reading::joined(device_items(devices)),
    decreases devices.len(),
{
    let items = device_items(devices);
    assert forall|i: int| 0 <= i < items.len() implies json_reading::whole(#[trigger] items[i], 0)
        && items[i].len() > 0 by {
        lemma_device_body_is_whole(devices[i]);
    }
    if devices.len() > 1 {
        lemma_device_items(devices.drop_last());
        assert(items.drop_last() =~= device_items(devices.drop_last()));
        reveal_strlit(",");
        assert(","@ =~= seq![',']);
    }
}

/// The list of scales in reach holds each of them once, in order.
pub proof fn lemma_listed_devices(devices: Seq<DiscoveredScaleView>, i: nat)
    ensures
        json_reading::item("["@ + http::device_list(devices) + "]"@, i) == if i < devices.len() {
            Some(http::device_body(devices[i as int]))
        } else {
            None
        },
        json_reading::whole("["@ + http::device_list(devices) + "]"@, 0),
{
    reveal_strlit("[");
    reveal_strlit("]");
    assert("["@ =~= seq!['[']);
    assert("]"@ =~= seq![']']);
    lemma_device_items(devices);
    json_reading::lemma_list_items(device_items(devices), i);
}

proof fn lemma_quoted_items(items: Seq<Seq<char>>)
    ensures
        json_reading::whole_items(items.map_values(|s: Seq<char>| http::quoted(s))),
        http::quoted_list(items) == json_reading::joined(
            items.map_values(|s: Seq<char>| http::quoted(s)),
        ),
    decreases items.len(),
{
    let quoted = items.map_values(|s: Seq<char>| http::quoted(s));
    reveal_strlit("\"");
    assert forall|i: int| 0 <= i < quoted.len() implies json_reading::whole(#[trigger] quoted[i], 0)
        && quoted[i].len() > 0 by {
        json_reading::lemma_quoted_is_whole(items[i]);
    }
    if items.len() > 1 {
        lemma_quoted_items(items.drop_last());
        assert(quoted.drop_last() =~= items.drop_last().map_values(
            |s: Seq<char>| http::quoted(s),
        ));
        reveal_strlit(",");
        assert(","@ =~= seq![',']);
    }
}

/// A list of texts holds each of them once, in order.
pub proof fn lemma_listed_texts(items: Seq<Seq<char>>, i: nat)
    ensures
        ({
            let found = json_reading::item(seq!['['] + http::quoted_list(items) + seq![']'], i);
            &&& i < items.len() ==> (found matches Some(v) && json_reading::string_value(v) == Some(
                http::visible(items[i as int]),
            ))
            &&& i >= items.len() ==> found is None
        }),
{
    let quoted = items.map_values(|s: Seq<char>| http::quoted(s));
    lemma_quoted_items(items);
    json_reading::lemma_list_items(quoted, i);
    if i < items.len() {
        json_reading::lemma_quoted_is_read_back(items[i as int]);
    }
}

spec fn scale_status_fronts() -> Seq<Seq<char>> {
    seq![
        "{\"available\":"@,
        ",\"state\":"@,
        ",\"message\":"@,
        ",\"connected_name\":"@,
        ",\"connected_address\":"@,
        ",\"protocol\":"@,
        ",\"weight_g\":"@,
        ",\"flow_gps\":"@,
        ",\"battery_percent\":"@,
        ",\"saved_scale\":"@,
        ",\"devices\":"@,
    ]
}

spec fn scale_status_names() -> Seq<Seq<char>> {
    seq![
        "available"@,
        "state"@,
        "message"@,
        "connected_name"@,
        "connected_address"@,
        "protocol"@,
        "weight_g"@,
        "flow_gps"@,
        "battery_percent"@,
        "saved_scale"@,
        "devices"@,
    ]
}

spec fn scale_status_values(s: ScaleStatusView) -> Seq<Seq<char>> {
    seq![
        text::bool_text(s.available),
        http::quoted(s.state),
        http::quoted(s.message),
        http::quoted(s.connected_name),
        http::quoted(s.connected_address),
        http::quoted(s.protocol),
        convert::fixed3(s.weight_g.or_zero()),
        convert::fixed3(s.flow_gps.or_zero()),
        http::battery_body(s.battery_percent),
        http::saved_scale_body(s.saved_scale),
        ("["@ + http::device_list(s.devices) + "]"@),
    ]
}

proof fn lemma_scale_status_names()
    ensures
        forall|i: int, j: int|
            0 <= j < i < 11 ==> #[trigger] scale_status_names()[j] != #[trigger] scale_status_names()[i],
{
    reveal_strlit("available");
    reveal_strlit("state");
    reveal_strlit("message");
    reveal_strlit("connected_name");
    reveal_strlit("connected_address");
    reveal_strlit("protocol");
    reveal_strlit("weight_g");
    reveal_strlit("flow_gps");
    reveal_strlit("battery_percent");
    reveal_strlit("saved_scale");
    reveal_strlit("devices");
    assert("available"@.len() != "state"@.len());
    assert("available"@.len() != "message"@.len());
    assert("state"@.len() != "message"@.len());
    assert("available"@.len() != "connected_name"@.len());
    assert("state"@.len() != "connected_name"@.len());
    assert("message"@.len() != "connected_name"@.len());
    assert("available"@.len() != "connected_address"@.len());
    assert("state"@.len() != "connected_address"@.len());
    assert("message"@.len() != "connected_address"@.len());
    assert("connected_name"@.len() != "connected_address"@.len());
    assert("available"@.len() != "protocol"@.len());
    assert("state"@.len() != "protocol"@.len());
    assert("message"@.len() != "protocol"@.len());
    assert("connected_name"@.len() != "protocol"@.len());
    assert("connected_address"@.len() != "protocol"@.len());
    assert("available"@.len() != "weight_g"@.len());
    assert("state"@.len() != "weight_g"@.len());
    assert("message"@.len() != "weight_g"@.len());
    assert("connected_name"@.len() != "weight_g"@.len());
    assert("connected_address"@.len() != "weight_g"@.len());
    assert("protocol"@[0] != "weight_g"@[0]);
    assert("available"@.len() != "flow_gps"@.len());
    assert("state"@.len() != "flow_gps"@.len());
    assert("message"@.len() != "flow_gps"@.len());
    assert("connected_name"@.len() != "flow_gps"@.len());
    assert("connected_address"@.len() != "flow_gps"@.len());
    assert("protocol"@[0] != "flow_gps"@[0]);
    assert("weight_g"@[0] != "flow_gps"@[0]);
    assert("available"@.len() != "battery_percent"@.len());
    assert("state"@.len() != "battery_percent"@.len());
    assert("message"@.len() != "battery_percent"@.len());
    assert("connected_name"@.len() != "battery_percent"@.len());
    assert("connected_address"@.len() != "battery_percent"@.len());
    assert("protocol"@.len() != "battery_percent"@.len());
    assert("weight_g"@.len() != "battery_percent"@.len());
    assert("flow_gps"@.len() != "battery_percent"@.len());
    assert("available"@.len() != "saved_scale"@.len());
    assert("state"@.len() != "saved_scale"@.len());
    assert("message"@.len() != "saved_scale"@.len());
    assert("connected_name"@.len() != "saved_scale"@.len());
    assert("connected_address"@.len() != "saved_scale"@.len());
    assert("protocol"@.len() != "saved_scale"@.len());
    assert("weight_g"@.len() != "saved_scale"@.len());
    assert("flow_gps"@.len() != "saved_scale"@.len());
    assert("battery_percent"@.len() != "saved_scale"@.len());
    assert("available"@.len() != "devices"@.len());
    assert("state"@.len() != "devices"@.len());
    assert("message"@[0] != "devices"@[0]);
    assert("connected_name"@.len() != "devices"@.len());
    assert("connected_address"@.len() != "devices"@.len());
    assert("protocol"@.len() != "devices"@.len());
    assert("weight_g"@.len() != "devices"@.len());
    assert("flow_gps"@.len() != "devices"@.len());
    assert("battery_percent"@.len() != "devices"@.len());
    assert("saved_scale"@.len() != "devices"@.len());
}

#[verifier::rlimit(60)]
#[verifier::spinoff_prover]
proof fn lemma_scale_status_is_written(s: ScaleStatusView)
    ensures
        json_reading::well_written(
            scale_status_fronts(),
            scale_status_names(),
            scale_status_values(s),
        ),
        http::scale_status_body(s) == json_reading::written(
            scale_status_fronts(),
            scale_status_values(s),
        ) + "}"@,
{
    let v0 = text::bool_text(s.available);
    assert(json_reading::whole(v0, 0)) by {
        lemma_truth_is_whole(s.available);
    }
    lemma_first_label_available();
    let l0 = "{\"available\":"@;
    let k0 = "available"@;
    json_reading::lemma_written_first(l0, k0, v0);
    let f0 = seq![l0];
    let n0 = seq![k0];
    let w0 = seq![v0];
    let v1 = http::quoted(s.state);
    assert(json_reading::whole(v1, 0)) by {
        json_reading::lemma_quoted_is_whole(s.state);
    }
    lemma_label_state();
    let l1 = ",\"state\":"@;
    let k1 = "state"@;
    json_reading::lemma_written_next(f0, n0, w0, l1, k1, v1);
    let f1 = f0.push(l1);
    let n1 = n0.push(k1);
    let w1 = w0.push(v1);
    let v2 = http::quoted(s.message);
    assert(json_reading::whole(v2, 0)) by {
        json_reading::lemma_quoted_is_whole(s.message);
    }
    lemma_label_message();
    let l2 = ",\"message\":"@;
    let k2 = "message"@;
    json_reading::lemma_written_next(f1, n1, w1, l2, k2, v2);
    let f2 = f1.push(l2);
    let n2 = n1.push(k2);
    let w2 = w1.push(v2);
    let v3 = http::quoted(s.connected_name);
    assert(json_reading::whole(v3, 0)) by {
        json_reading::lemma_quoted_is_whole(s.connected_name);
    }
    lemma_label_connected_name();
    let l3 = ",\"connected_name\":"@;
    let k3 = "connected_name"@;
    json_reading::lemma_written_next(f2, n2, w2, l3, k3, v3);
    let f3 = f2.push(l3);
    let n3 = n2.push(k3);
    let w3 = w2.push(v3);
    let v4 = http::quoted(s.connected_address);
    assert(json_reading::whole(v4, 0)) by {
        json_reading::lemma_quoted_is_whole(s.connected_address);
    }
    lemma_label_connected_address();
    let l4 = ",\"connected_address\":"@;
    let k4 = "connected_address"@;
    json_reading::lemma_written_next(f3, n3, w3, l4, k4, v4);
    let f4 = f3.push(l4);
    let n4 = n3.push(k4);
    let w4 = w3.push(v4);
    let v5 = http::quoted(s.protocol);
    assert(json_reading::whole(v5, 0)) by {
        json_reading::lemma_quoted_is_whole(s.protocol);
    }
    lemma_label_protocol();
    let l5 = ",\"protocol\":"@;
    let k5 = "protocol"@;
    json_reading::lemma_written_next(f4, n4, w4, l5, k5, v5);
    let f5 = f4.push(l5);
    let n5 = n4.push(k5);
    let w5 = w4.push(v5);
    let v6 = convert::fixed3(s.weight_g.or_zero());
    assert(json_reading::whole(v6, 0)) by {
        lemma_fixed_is_whole(s.weight_g.or_zero());
    }
    lemma_label_weight_g();
    let l6 = ",\"weight_g\":"@;
    let k6 = "weight_g"@;
    json_reading::lemma_written_next(f5, n5, w5, l6, k6, v6);
    let f6 = f5.push(l6);
    let n6 = n5.push(k6);
    let w6 = w5.push(v6);
    let v7 = convert::fixed3(s.flow_gps.or_zero());
    assert(json_reading::whole(v7, 0)) by {
        lemma_fixed_is_whole(s.flow_gps.or_zero());
    }
    lemma_label_flow_gps();
    let l7 = ",\"flow_gps\":"@;
    let k7 = "flow_gps"@;
    json_reading::lemma_written_next(f6, n6, w6, l7, k7, v7);
    let f7 = f6.push(l7);
    let n7 = n6.push(k7);
    let w7 = w6.push(v7);
    let v8 = http::battery_body(s.battery_percent);
    assert(json_reading::whole(v8, 0)) by {
        lemma_battery_is_whole(s.battery_percent);
    }
    lemma_label_battery_percent();
    let l8 = ",\"battery_percent\":"@;
    let k8 = "battery_percent"@;
    json_reading::lemma_written_next(f7, n7, w7, l8, k8, v8);
    let f8 = f7.push(l8);
    let n8 = n7.push(k8);
    let w8 = w7.push(v8);
    let v9 = http::saved_scale_body(s.saved_scale);
    assert(json_reading::whole(v9, 0)) by {
        lemma_saved_scale_is_whole(s.saved_scale);
    }
    lemma_label_saved_scale();
    let l9 = ",\"saved_scale\":"@;
    let k9 = "saved_scale"@;
    json_reading::lemma_written_next(f8, n8, w8, l9, k9, v9);
    let f9 = f8.push(l9);
    let n9 = n8.push(k9);
    let w9 = w8.push(v9);
    let v10 = ("["@ + http::device_list(s.devices) + "]"@);
    assert(json_reading::whole(v10, 0)) by {
        lemma_listed_devices(s.devices, 0);
    }
    lemma_label_devices();
    let l10 = ",\"devices\":"@;
    let k10 = "devices"@;
    json_reading::lemma_written_next(f9, n9, w9, l10, k10, v10);
    let f10 = f9.push(l10);
    let n10 = n9.push(k10);
    let w10 = w9.push(v10);
    assert(f10 =~= scale_status_fronts());
    assert(n10 =~= scale_status_names());
    assert(w10 =~= scale_status_values(s));
}

/// Under each name the state of the scale has what is known of it.
pub proof fn lemma_scale_status_is_read_back(s: ScaleStatusView)
    ensures
        ({
            let body = http::scale_status_body(s);
            &&& json_reading::lookup(body, "available"@) == Some(text::bool_text(s.available))
            &&& says(body, "state"@, s.state)
            &&& says(body, "message"@, s.message)
            &&& says(body, "connected_name"@, s.connected_name)
            &&& says(body, "connected_address"@, s.connected_address)
            &&& says(body, "protocol"@, s.protocol)
            &&& json_reading::lookup(body, "weight_g"@) == Some(shown(s.weight_g))
            &&& json_reading::lookup(body, "flow_gps"@) == Some(shown(s.flow_gps))
            &&& json_reading::lookup(body, "battery_percent"@) == Some(
                match s.battery_percent {
                    Some(p) => text::decimal(p as nat),
                    None => "null"@,
                },
            )
            &&& json_reading::lookup(body, "saved_scale"@) == Some(
                http::saved_scale_body(s.saved_scale),
            )
            &&& s.saved_scale is None ==> json_reading::lookup(body, "saved_scale"@) == Some(
                "null"@,
            )
            &&& json_reading::lookup(body, "devices"@) == Some(
                "["@ + http::device_list(s.devices) + "]"@,
            )
        }),
{
    reveal_strlit("}");
    lemma_scale_status_names();
    lemma_scale_status_is_written(s);
    let f = scale_status_fronts();
    let n = scale_status_names();
    let v = scale_status_values(s);
    assert(n[0] == "available"@ && v[0] == text::bool_text(s.available));
    json_reading::lemma_written_is_found(f, n, v, 0, "}"@);
    assert(n[1] == "state"@ && v[1] == http::quoted(s.state));
    json_reading::lemma_written_is_found(f, n, v, 1, "}"@);
    json_reading::lemma_quoted_is_read_back(s.state);
    assert(n[2] == "message"@ && v[2] == http::quoted(s.message));
    json_reading::lemma_written_is_found(f, n, v, 2, "}"@);
    json_reading::lemma_quoted_is_read_back(s.message);
    assert(n[3] == "connected_name"@ && v[3] == http::quoted(s.connected_name));
    json_reading::lemma_written_is_found(f, n, v, 3, "}"@);
    json_reading::lemma_quoted_is_read_back(s.connected_name);
    assert(n[4] == "connected_address"@ && v[4] == http::quoted(s.connected_address));
    json_reading::lemma_written_is_found(f, n, v, 4, "}"@);
    json_reading::lemma_quoted_is_read_back(s.connected_address);
    assert(n[5] == "protocol"@ && v[5] == http::quoted(s.protocol));
    json_reading::lemma_written_is_found(f, n, v, 5, "}"@);
    json_reading::lemma_quoted_is_read_back(s.protocol);
    assert(n[6] == "weight_g"@ && v[6] == convert::fixed3(s.weight_g.or_zero()));
    json_reading::lemma_written_is_found(f, n, v, 6, "}"@);
    assert(n[7] == "flow_gps"@ && v[7] == convert::fixed3(s.flow_gps.or_zero()));
    json_reading::lemma_written_is_found(f, n, v, 7, "}"@);
    assert(n[8] == "battery_percent"@ && v[8] == http::battery_body(s.battery_percent));
    json_reading::lemma_written_is_found(f, n, v, 8, "}"@);
    assert(n[9] == "saved_scale"@ && v[9] == http::saved_scale_body(s.saved_scale));
    json_reading::lemma_written_is_found(f, n, v, 9, "}"@);
    assert(n[10] == "devices"@ && v[10] == ("["@ + http::device_list(s.devices) + "]"@));
    json_reading::lemma_written_is_found(f, n, v, 10, "}"@);
}

/// A text without control characters is shown as it is; of the others only the line ends and the
/// tab are.
pub proof fn lemma_visible_text(s: Seq<char>, i: int)
    requires
        0 <= i < s.len(),
    ensures
        http::visible(s).len() == s.len(),
        ({
            let c = s[i] as u32;
            http::visible(s)[i] == if (c < 32 && c != 9 && c != 10 && c != 13) || 127 <= c <= 159 {
                ' '
            } else {
                s[i]
            }
        }),
{
    vstd::utf8::char_u32_cast(s[i], s[i] as u32);
}

} // verus!
