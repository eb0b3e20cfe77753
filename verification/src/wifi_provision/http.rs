//! Requests and replies of the web interface.
use crate::binary32::Binary32;
use crate::convert;
use crate::scale_ble::types;
use crate::scale_ble::types::{
    DiscoveredScale, DiscoveredScaleView, SavedScale, SavedScaleView, ScaleStatusSnapshot,
    ScaleStatusView,
};
use crate::telemetry_feed::TelemetrySnapshot;
use crate::text;
use crate::util;
use crate::wifi_provision::nvs;
use crate::wifi_provision::nvs::{DeviceSettings, SettingsView};
use crate::wifi_provision::progress::{ConnectProgress, ProgressView};
use vstd::prelude::*;
use vstd::string::*;
use vstd::utf8::*;

verus! {

/// A reply to a request.
#[derive(Debug)]
pub struct Reply {
    pub status: u16,
    pub reason: Option<&'static str>,
    pub content_type: &'static str,
    pub body: String,
}

/// What a reply holds.
pub struct ReplyView {
    pub status: u16,
    pub reason: Option<Seq<char>>,
    pub content_type: Seq<char>,
    pub body: Seq<char>,
}

impl View for Reply {
    type V = ReplyView;

    open spec fn view(&self) -> ReplyView {
        ReplyView {
            status: self.status,
            reason: match self.reason {
                Some(r) => Some(r@),
                None => None,
            },
            content_type: self.content_type@,
            body: self.body@,
        }
    }
}

/// A reply in JSON.
pub open spec fn json_reply_of(status: u16, reason: Option<Seq<char>>, body: Seq<char>) -> ReplyView {
    ReplyView { status, reason, content_type: "application/json; charset=utf-8"@, body }
}

/// A page as a reply.
pub open spec fn page_of(status: u16, reason: Seq<char>, body: Seq<char>) -> ReplyView {
    ReplyView { status, reason: Some(reason), content_type: "text/html; charset=utf-8"@, body }
}

/// A reply in JSON.
pub fn json_reply(status: u16, reason: &'static str, body: String) -> (r: Reply)
    ensures
        r@ == json_reply_of(status, Some(reason@), body@),
{
    Reply {
        status,
        reason: Some(reason),
        content_type: "application/json; charset=utf-8",
        body,
    }
}

/// A page as a reply.
pub fn page_reply(status: u16, reason: &'static str, body: String) -> (r: Reply)
    ensures
        r@ == page_of(status, reason@, body@),
{
    Reply { status, reason: Some(reason), content_type: "text/html; charset=utf-8", body }
}

/// The texts of some headers.
pub open spec fn header_texts(headers: Seq<(&str, &str)>) -> Seq<(Seq<char>, Seq<char>)> {
    headers.map_values(|h: (&str, &str)| (h.0@, h.1@))
}

/// The headers of a reply: its type, how long it may be kept, and what a browser may do with it.
pub open spec fn headers_of(
    content_type: Seq<char>,
    cache_control: Seq<char>,
    policy: Seq<char>,
) -> Seq<(Seq<char>, Seq<char>)> {
    seq![
        ("Content-Type"@, content_type),
        ("Cache-Control"@, cache_control),
        ("X-Content-Type-Options"@, "nosniff"@),
        ("X-Frame-Options"@, "DENY"@),
        ("Referrer-Policy"@, "no-referrer"@),
        ("Content-Security-Policy"@, policy),
        ("Permissions-Policy"@, "geolocation=(), microphone=(), camera=()"@),
    ]
}

/// What a page may load.
pub open spec fn strict_policy() -> Seq<char> {
    "default-src 'self'; script-src 'self'; style-src 'self'; img-src 'self' data:; base-uri 'none'; form-action 'self'"@
}

/// What a page of the station may load: its charts apply styles of their own.
pub open spec fn station_policy() -> Seq<char> {
    "default-src 'self'; script-src 'self'; style-src 'self' 'unsafe-inline'; img-src 'self' data:; base-uri 'none'; form-action 'self'"@
}

/// The headers of a reply.
pub fn response_headers<'a>(content_type: &'a str, cache_control: &'a str) -> (r: [(
    &'a str,
    &'a str,
); 7])
    ensures
        header_texts(r@) == headers_of(content_type@, cache_control@, strict_policy()),
{
    let r: [(&'a str, &'a str); 7] = [
        ("Content-Type", content_type),
        ("Cache-Control", cache_control),
        ("X-Content-Type-Options", "nosniff"),
        ("X-Frame-Options", "DENY"),
        ("Referrer-Policy", "no-referrer"),
        (
            "Content-Security-Policy",
            "default-src 'self'; script-src 'self'; style-src 'self'; img-src 'self' data:; base-uri 'none'; form-action 'self'",
        ),
        ("Permissions-Policy", "geolocation=(), microphone=(), camera=()"),
    ];
    assert(header_texts(r@) =~= headers_of(content_type@, cache_control@, strict_policy()));
    r
}

/// The headers of a reply of the station.
pub fn station_response_headers<'a>(content_type: &'a str, cache_control: &'a str) -> (r: [(
    &'a str,
    &'a str,
); 7])
    ensures
        header_texts(r@) == headers_of(content_type@, cache_control@, station_policy()),
{
    let r: [(&'a str, &'a str); 7] = [
        ("Content-Type", content_type),
        ("Cache-Control", cache_control),
        ("X-Content-Type-Options", "nosniff"),
        ("X-Frame-Options", "DENY"),
        ("Referrer-Policy", "no-referrer"),
        (
            "Content-Security-Policy",
            "default-src 'self'; script-src 'self'; style-src 'self' 'unsafe-inline'; img-src 'self' data:; base-uri 'none'; form-action 'self'",
        ),
        ("Permissions-Policy", "geolocation=(), microphone=(), camera=()"),
    ];
    assert(header_texts(r@) =~= headers_of(content_type@, cache_control@, station_policy()));
    r
}

/// What is wrong with the body of a request.
#[derive(Debug)]
pub enum RequestBodyError {
    TooLarge,
    InvalidUtf8,
    Io(String),
}

/// The body of a request, as it arrives.
#[derive(Debug)]
pub struct BodyReader {
    bytes: Vec<u8>,
    limit: usize,
}

impl View for BodyReader {
    type V = Seq<u8>;

    closed spec fn view(&self) -> Seq<u8> {
        self.bytes@
    }
}

impl BodyReader {
    /// How many bytes the body may have.
    pub closed spec fn most(&self) -> nat {
        self.limit as nat
    }

    /// The body is no longer than it may be.
    #[verifier::type_invariant]
    closed spec fn within_limit(self) -> bool {
        self.bytes@.len() <= self.limit
    }

    /// A body of which nothing has arrived yet.
    pub fn new(limit: usize) -> (r: Self)
        ensures
            r@ == Seq::<u8>::empty(),
            r.most() == limit,
    {
        BodyReader { bytes: Vec::new(), limit }
    }

    /// Takes a piece of the body. The body is refused where it gets too long.
    pub fn push_chunk(&mut self, chunk: &[u8]) -> (r: Result<(), RequestBodyError>)
        ensures
            final(self).most() == old(self).most(),
            old(self)@.len() + chunk@.len() <= old(self).most() ==> {
                &&& r is Ok
                &&& final(self)@ == old(self)@ + chunk@
            },
            old(self)@.len() + chunk@.len() > old(self).most() ==> {
                &&& r matches Err(RequestBodyError::TooLarge)
                &&& final(self)@ == old(self)@
            },
    {
        proof {
            use_type_invariant(&*self);
        }
        let remaining: usize = self.limit - self.bytes.len();
        if chunk.len() > remaining {
            return Err(RequestBodyError::TooLarge);
        }
        let mut bytes: Vec<u8> = Vec::new();
        std::mem::swap(&mut bytes, &mut self.bytes);
        bytes.extend_from_slice(chunk);
        assert(bytes@ =~= old(self)@ + chunk@);
        self.bytes = bytes;
        Ok(())
    }

    /// The text of the body.
    pub fn finish(self) -> (r: Result<String, RequestBodyError>)
        ensures
            r matches Ok(s) ==> valid_utf8(self@) && s@ == decode_utf8(self@) && encode_utf8(
                s@,
            ).len() <= self.most(),
            r matches Err(e) ==> !valid_utf8(self@) && e == RequestBodyError::InvalidUtf8,
    {
        proof {
            use_type_invariant(&self);
            if valid_utf8(self@) {
                decode_utf8_encode_utf8(self@);
            }
        }
        match text::utf8_text(self.bytes) {
            Some(s) => Ok(s),
            None => Err(RequestBodyError::InvalidUtf8),
        }
    }
}

/// What the firmware is called: `dev` where it was not given a name.
pub fn build_id(given: Option<&'static str>) -> (r: &'static str)
    ensures
        r@ == match given {
            Some(s) => s@,
            None => "dev"@,
        },
{
    match given {
        Some(s) => s,
        None => "dev",
    }
}

/// What the board is called: its hardware address in hexadecimal digits.
pub open spec fn board_name(mac: Option<[u8; 6]>) -> Seq<char> {
    match mac {
        Some(m) => text::upper_hex_byte(m[0]) + text::upper_hex_byte(m[1]) + text::upper_hex_byte(
            m[2],
        ) + text::upper_hex_byte(m[3]) + text::upper_hex_byte(m[4]) + text::upper_hex_byte(m[5]),
        None => "unknown"@,
    }
}

/// What the board is called.
pub fn board_id(mac: Option<[u8; 6]>) -> (r: String)
    ensures
        r@ == board_name(mac),
{
    match mac {
        Some(m) => {
            let mut out = String::new();
            text::push_upper_hex_byte(&mut out, m[0]);
            assert(out@ =~= text::upper_hex_byte(m[0]));
            text::push_upper_hex_byte(&mut out, m[1]);
            text::push_upper_hex_byte(&mut out, m[2]);
            text::push_upper_hex_byte(&mut out, m[3]);
            text::push_upper_hex_byte(&mut out, m[4]);
            text::push_upper_hex_byte(&mut out, m[5]);
            out
        },
        None => "unknown".to_owned(),
    }
}

/// The character that stands for a character on a page: control characters other than line
/// feed, carriage return and tabulator become blanks.
pub open spec fn visible_char(c: char) -> char {
    if text::is_control(c) && c != '\n' && c != '\r' && c != '\t' {
        ' '
    } else {
        c
    }
}

/// A text without control characters other than line feed, carriage return and tabulator.
pub open spec fn visible(s: Seq<char>) -> Seq<char> {
    s.map_values(|c: char| visible_char(c))
}

fn visible_text(s: &str) -> (r: String)
    ensures
        r@ == visible(s@),
{
    let chars = text::chars_of(s);
    let mut out = String::new();
    let mut i: usize = 0;
    while i < chars.len()
        invariant
            i <= chars.len(),
            chars@ == s@,
            out@ == visible(s@).take(i as int),
        decreases chars.len() - i,
    {
        let c = chars[i];
        if text::is_control_char(c) && c != '\n' && c != '\r' && c != '\t' {
            out.push(' ');
        } else {
            out.push(c);
        }
        assert(visible(s@).take(i + 1) =~= visible(s@).take(i as int).push(visible_char(c)));
        i = i + 1;
    }
    assert(visible(s@).take(i as int) =~= visible(s@));
    out
}

/// Escapes a text for a JSON string. Control characters that have no short form become blanks.
pub fn json_escape(s: &str) -> (r: String)
    ensures
        r@ == util::json_escaped(visible(s@)),
{
    let shown = visible_text(s);
    util::json_escape(shown.as_str())
}

/// A text as a JSON string.
pub open spec fn quoted(s: Seq<char>) -> Seq<char> {
    "\""@ + util::json_escaped(visible(s)) + "\""@
}

fn push_quoted(out: &mut String, s: &str)
    ensures
        final(out)@ == old(out)@ + quoted(s@),
{
    let escaped = json_escape(s);
    out.append("\"");
    out.append(escaped.as_str());
    out.append("\"");
    assert(out@ =~= old(out)@ + quoted(s@));
}

/// Values on a page are numbers: what is not finite is shown as 0.
fn push_value(out: &mut String, x: Binary32)
    ensures
        final(out)@ == old(out)@ + convert::fixed3(x.or_zero()),
{
    convert::push_fixed3(out, x.finite_or_zero());
}

/// The texts of some strings.
pub open spec fn texts(items: Seq<String>) -> Seq<Seq<char>> {
    items.map_values(|s: String| s@)
}

/// JSON strings with commas between them.
pub open spec fn quoted_list(items: Seq<Seq<char>>) -> Seq<char>
    decreases items.len(),
{
    if items.len() == 0 {
        Seq::empty()
    } else if items.len() == 1 {
        quoted(items[0])
    } else {
        quoted_list(items.drop_last()) + ","@ + quoted(items.last())
    }
}

/// A list of names in JSON.
pub fn networks_json(items: &Vec<String>) -> (r: String)
    ensures
        r@ == "["@ + quoted_list(texts(items@)) + "]"@,
{
    let ghost all = texts(items@);
    let mut out = "[".to_owned();
    let mut i: usize = 0;
    assert(out@ + quoted_list(all.take(0)) =~= out@);
    while i < items.len()
        invariant
            i <= items.len(),
            all == texts(items@),
            out@ == "["@ + quoted_list(all.take(i as int)),
        decreases items.len() - i,
    {
        let ghost before = out@;
        if i > 0 {
            out.append(",");
        }
        push_quoted(&mut out, items[i].as_str());
        proof {
            let next = all.take(i + 1);
            assert(next.drop_last() =~= all.take(i as int));
            assert(next.last() == items[i as int]@);
            if i > 0 {
                assert((before + ","@) + quoted(next.last()) =~= "["@ + (quoted_list(
                    all.take(i as int),
                ) + ","@ + quoted(next.last())));
            } else {
                assert(before + quoted(next.last()) =~= "["@ + quoted(next[0]));
            }
        }
        i = i + 1;
    }
    assert(all.take(i as int) =~= all);
    out.append("]");
    out
}

/// The progress of joining the network in JSON.
pub open spec fn progress_body(p: ProgressView) -> Seq<char> {
    "{\"stage\":"@ + quoted(p.stage) + ",\"ssid\":"@ + quoted(p.ssid) + ",\"attempt\":"@
        + text::decimal(p.attempt as nat) + ",\"total\":"@ + text::decimal(p.total as nat)
        + ",\"message\":"@ + quoted(p.message) + "}"@
}

/// The progress of joining the network in JSON.
pub fn connect_progress_json(progress: &ConnectProgress) -> (r: String)
    ensures
        r@ == progress_body(progress@),
{
    let mut out = "{\"stage\":".to_owned();
    push_quoted(&mut out, progress.stage.as_str());
    out.append(",\"ssid\":");
    push_quoted(&mut out, progress.ssid.as_str());
    out.append(",\"attempt\":");
    text::push_decimal(&mut out, progress.attempt as u128);
    out.append(",\"total\":");
    text::push_decimal(&mut out, progress.total as u128);
    out.append(",\"message\":");
    push_quoted(&mut out, progress.message.as_str());
    out.append("}");
    out
}

/// The settings in JSON.
pub open spec fn settings_body(
    settings: SettingsView,
    ip_addr: Seq<char>,
    build_id: Seq<char>,
    board_id: Seq<char>,
    ok: bool,
    message: Seq<char>,
    rebooting: bool,
) -> Seq<char> {
    "{\"ok\":"@ + text::bool_text(ok) + ",\"message\":"@ + quoted(message) + ",\"rebooting\":"@
        + text::bool_text(rebooting) + ",\"ssid\":"@ + quoted(settings.ssid)
        + ",\"device_label\":"@ + quoted(settings.device_label) + ",\"temperature_offset_c\":"@
        + convert::fixed3(settings.temperature_offset_c) + ",\"ip_addr\":"@ + quoted(ip_addr)
        + ",\"build_id\":"@ + quoted(build_id) + ",\"board_id\":"@ + quoted(board_id) + "}"@
}

/// The settings in JSON.
pub fn settings_json(
    settings: &DeviceSettings,
    ip_addr: &str,
    build_id: &str,
    board_id: &str,
    ok: bool,
    message: &str,
    rebooting: bool,
) -> (r: String)
    ensures
        r@ == settings_body(settings@, ip_addr@, build_id@, board_id@, ok, message@, rebooting),
{
    let mut out = "{\"ok\":".to_owned();
    text::push_bool(&mut out, ok);
    out.append(",\"message\":");
    push_quoted(&mut out, message);
    out.append(",\"rebooting\":");
    text::push_bool(&mut out, rebooting);
    out.append(",\"ssid\":");
    push_quoted(&mut out, settings.ssid.as_str());
    out.append(",\"device_label\":");
    push_quoted(&mut out, settings.device_label.as_str());
    out.append(",\"temperature_offset_c\":");
    convert::push_fixed3(&mut out, settings.temperature_offset_c);
    out.append(",\"ip_addr\":");
    push_quoted(&mut out, ip_addr);
    out.append(",\"build_id\":");
    push_quoted(&mut out, build_id);
    out.append(",\"board_id\":");
    push_quoted(&mut out, board_id);
    out.append("}");
    out
}

/// The telemetry in JSON.
pub open spec fn telemetry_body(t: TelemetrySnapshot) -> Seq<char> {
    "{\"seq\":"@ + text::decimal(t.seq as nat) + ",\"temperature_c\":"@ + convert::fixed3(
        t.temperature_c.or_zero(),
    ) + ",\"pressure_bar\":"@ + convert::fixed3(t.pressure_bar.or_zero())
        + ",\"pressure_psi\":"@ + convert::fixed3(t.pressure_psi.or_zero())
        + ",\"scale_connected\":"@ + text::bool_text(t.scale_connected) + ",\"weight_g\":"@
        + convert::fixed3(t.weight_g.or_zero()) + ",\"flow_gps\":"@ + convert::fixed3(
        t.flow_gps.or_zero(),
    ) + "}"@
}

/// The telemetry in JSON.
pub fn telemetry_json(snapshot: &TelemetrySnapshot) -> (r: String)
    ensures
        r@ == telemetry_body(*snapshot),
{
    let mut out = "{\"seq\":".to_owned();
    text::push_decimal(&mut out, snapshot.seq as u128);
    out.append(",\"temperature_c\":");
    push_value(&mut out, snapshot.temperature_c);
    out.append(",\"pressure_bar\":");
    push_value(&mut out, snapshot.pressure_bar);
    out.append(",\"pressure_psi\":");
    push_value(&mut out, snapshot.pressure_psi);
    out.append(",\"scale_connected\":");
    text::push_bool(&mut out, snapshot.scale_connected);
    out.append(",\"weight_g\":");
    push_value(&mut out, snapshot.weight_g);
    out.append(",\"flow_gps\":");
    push_value(&mut out, snapshot.flow_gps);
    out.append("}");
    out
}

/// The outcome of an action in JSON.
pub open spec fn action_body(ok: bool, message: Seq<char>) -> Seq<char> {
    "{\"ok\":"@ + text::bool_text(ok) + ",\"message\":"@ + quoted(message) + "}"@
}

/// The outcome of an action in JSON.
pub fn action_result_json(ok: bool, message: &str) -> (r: String)
    ensures
        r@ == action_body(ok, message@),
{
    let mut out = "{\"ok\":".to_owned();
    text::push_bool(&mut out, ok);
    out.append(",\"message\":");
    push_quoted(&mut out, message);
    out.append("}");
    out
}

/// A saved scale in JSON.
pub open spec fn saved_scale_body(saved: Option<SavedScaleView>) -> Seq<char> {
    match saved {
        Some(s) => "{\"address\":"@ + quoted(s.address) + ",\"name\":"@ + quoted(s.name)
            + ",\"addr_type\":"@ + quoted(s.addr_type) + "}"@,
        None => "null"@,
    }
}

/// A scale in reach in JSON.
pub open spec fn device_body(d: DiscoveredScaleView) -> Seq<char> {
    "{\"address\":"@ + quoted(d.address) + ",\"name\":"@ + quoted(d.name)
        + ",\"address_type\":"@ + quoted(d.address_type) + ",\"rssi\":"@ + text::signed_decimal(
        d.rssi as int,
    ) + ",\"protocol_hint\":"@ + quoted(d.protocol_hint) + ",\"saved\":"@ + text::bool_text(d.saved)
        + "}"@
}

/// Some scales in reach in JSON, with commas between them.
pub open spec fn device_list(devices: Seq<DiscoveredScaleView>) -> Seq<char>
    decreases devices.len(),
{
    if devices.len() == 0 {
        Seq::empty()
    } else if devices.len() == 1 {
        device_body(devices[0])
    } else {
        device_list(devices.drop_last()) + ","@ + device_body(devices.last())
    }
}

/// The battery's charge in JSON.
pub open spec fn battery_body(percent: Option<u8>) -> Seq<char> {
    match percent {
        Some(p) => text::decimal(p as nat),
        None => "null"@,
    }
}

/// The state of the scale in JSON.
pub open spec fn scale_status_body(s: ScaleStatusView) -> Seq<char> {
    "{\"available\":"@ + text::bool_text(s.available) + ",\"state\":"@ + quoted(s.state)
        + ",\"message\":"@ + quoted(s.message) + ",\"connected_name\":"@ + quoted(
        s.connected_name,
    ) + ",\"connected_address\":"@ + quoted(s.connected_address) + ",\"protocol\":"@ + quoted(
        s.protocol,
    ) + ",\"weight_g\":"@ + convert::fixed3(s.weight_g.or_zero()) + ",\"flow_gps\":"@
        + convert::fixed3(s.flow_gps.or_zero()) + ",\"battery_percent\":"@ + battery_body(
        s.battery_percent,
    ) + ",\"saved_scale\":"@ + saved_scale_body(s.saved_scale) + ",\"devices\":"@ + ("["@
        + device_list(s.devices) + "]"@) + "}"@
}

fn saved_scale_json(saved: &Option<SavedScale>) -> (r: String)
    ensures
        r@ == saved_scale_body(types::saved_view(*saved)),
{
    match saved {
        Some(s) => {
            let mut out = "{\"address\":".to_owned();
            push_quoted(&mut out, s.address.as_str());
            out.append(",\"name\":");
            push_quoted(&mut out, s.name.as_str());
            out.append(",\"addr_type\":");
            push_quoted(&mut out, s.addr_type.as_str());
            out.append("}");
            out
        },
        None => "null".to_owned(),
    }
}

fn device_json(d: &DiscoveredScale) -> (r: String)
    ensures
        r@ == device_body(d@),
{
    let mut out = "{\"address\":".to_owned();
    push_quoted(&mut out, d.address.as_str());
    out.append(",\"name\":");
    push_quoted(&mut out, d.name.as_str());
    out.append(",\"address_type\":");
    push_quoted(&mut out, d.address_type.as_str());
    out.append(",\"rssi\":");
    text::push_signed(&mut out, d.rssi as i64);
    out.append(",\"protocol_hint\":");
    push_quoted(&mut out, d.protocol_hint);
    out.append(",\"saved\":");
    text::push_bool(&mut out, d.saved);
    out.append("}");
    out
}

fn devices_json(devices: &Vec<DiscoveredScale>) -> (r: String)
    ensures
        r@ == "["@ + device_list(types::shown_devices(devices@)) + "]"@,
{
    let ghost all = types::shown_devices(devices@);
    let mut out = "[".to_owned();
    let mut i: usize = 0;
    assert(out@ + device_list(all.take(0)) =~= out@);
    while i < devices.len()
        invariant
            i <= devices.len(),
            all == types::shown_devices(devices@),
            out@ == "["@ + device_list(all.take(i as int)),
        decreases devices.len() - i,
    {
        let ghost before = out@;
        if i > 0 {
            out.append(",");
        }
        let one = device_json(&devices[i]);
        out.append(one.as_str());
        proof {
            let next = all.take(i + 1);
            assert(next.drop_last() =~= all.take(i as int));
            assert(next.last() == devices[i as int]@);
            if i > 0 {
                assert((before + ","@) + device_body(next.last()) =~= "["@ + (device_list(
                    all.take(i as int),
                ) + ","@ + device_body(next.last())));
            } else {
                assert(before + device_body(next.last()) =~= "["@ + device_body(next[0]));
            }
        }
        i = i + 1;
    }
    assert(all.take(i as int) =~= all);
    out.append("]");
    out
}

/// The state of the scale in JSON.
pub fn scale_status_json(snapshot: &ScaleStatusSnapshot) -> (r: String)
    ensures
        r@ == scale_status_body(snapshot@),
{
    let saved_scale = saved_scale_json(&snapshot.saved_scale);
    let devices = devices_json(&snapshot.devices);
    let mut out = "{\"available\":".to_owned();
    text::push_bool(&mut out, snapshot.available);
    out.append(",\"state\":");
    push_quoted(&mut out, snapshot.state);
    out.append(",\"message\":");
    push_quoted(&mut out, snapshot.message.as_str());
    out.append(",\"connected_name\":");
    push_quoted(&mut out, snapshot.connected_name.as_str());
    out.append(",\"connected_address\":");
    push_quoted(&mut out, snapshot.connected_address.as_str());
    out.append(",\"protocol\":");
    push_quoted(&mut out, snapshot.protocol);
    out.append(",\"weight_g\":");
    push_value(&mut out, snapshot.weight_g);
    out.append(",\"flow_gps\":");
    push_value(&mut out, snapshot.flow_gps);
    out.append(",\"battery_percent\":");
    match snapshot.battery_percent {
        Some(p) => text::push_decimal(&mut out, p as u128),
        None => out.append("null"),
    }
    out.append(",\"saved_scale\":");
    out.append(saved_scale.as_str());
    out.append(",\"devices\":");
    out.append(devices.as_str());
    out.append("}");
    out
}

/// The names and values of a form, in the order in which they stand in its body.
pub uninterp spec fn form_pairs(body: Seq<u8>) -> Seq<(Seq<char>, Seq<char>)>;

/// The texts of some names and values.
pub open spec fn pair_texts(pairs: Seq<(String, String)>) -> Seq<(Seq<char>, Seq<char>)> {
    pairs.map_values(|p: (String, String)| (p.0@, p.1@))
}

/// `form_urlencoded::parse`: the names and values of a body in the
/// `application/x-www-form-urlencoded` syntax, decoded. They depend on the body alone, and
/// `form_pairs` names them; how they are decoded is not stated.
#[verifier::external_body]
fn form_fields(body: &[u8]) -> (r: Vec<(String, String)>)
    ensures
        pair_texts(r@) == form_pairs(body@),
{
    form_urlencoded::parse(body).into_owned().collect()
}

/// The value that stands first under a name.
pub open spec fn first_value(pairs: Seq<(Seq<char>, Seq<char>)>, key: Seq<char>) -> Option<Seq<char>>
    decreases pairs.len(),
{
    if pairs.len() == 0 {
        None
    } else if pairs[0].0 == key {
        Some(pairs[0].1)
    } else {
        first_value(pairs.skip(1), key)
    }
}

/// The value that stands first under a name.
pub fn find_field(pairs: &Vec<(String, String)>, key: &str) -> (r: Option<String>)
    ensures
        nvs::text_view(r) == first_value(pair_texts(pairs@), key@),
{
    let ghost all = pair_texts(pairs@);
    let mut i: usize = 0;
    assert(all.skip(0) =~= all);
    while i < pairs.len()
        invariant
            i <= pairs.len(),
            all == pair_texts(pairs@),
            first_value(all, key@) == first_value(all.skip(i as int), key@),
        decreases pairs.len() - i,
    {
        let pair = &pairs[i];
        if text::same_text(pair.0.as_str(), key) {
            return Some(pair.1.clone());
        }
        assert(all.skip(i as int).skip(1) =~= all.skip(i + 1));
        i = i + 1;
    }
    None
}

/// A field of a form.
pub open spec fn field(body: Seq<char>, key: Seq<char>) -> Option<Seq<char>> {
    first_value(form_pairs(encode_utf8(body)), key)
}

/// A field of a form: the first with its name.
pub fn parse_form_field(body: &str, key: &str) -> (r: Option<String>)
    ensures
        nvs::text_view(r) == field(body@, key@),
{
    let pairs = form_fields(body.as_bytes());
    find_field(&pairs, key)
}

/// A text in a reply can be read back out of it: it comes out with blanks for the control
/// characters.
pub proof fn lemma_quoted_text_decodes(s: Seq<char>)
    ensures
        util::json_decoded(util::json_escaped(visible(s))) == Some(visible(s)),
{
    util::lemma_escaped_text_decodes(visible(s));
}

} // verus!
