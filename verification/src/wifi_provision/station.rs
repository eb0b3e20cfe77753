//! What the station's web server decides about a request.
use crate::binary32;
use crate::binary32::Binary32;
use crate::decimal;
use crate::scale_ble::types;
use crate::scale_ble::types::{
    DiscoveredScaleView, SavedScale, SavedScaleView, ScaleStatusSnapshot, ScaleStatusView,
};
use crate::text;
use crate::wifi_provision::http;
use crate::wifi_provision::http::{Reply, RequestBodyError};
use crate::wifi_provision::nvs;
use crate::wifi_provision::nvs::{
    DeviceSettings, SettingsView, MAX_LABEL_LEN, MAX_PASS_LEN, MAX_SSID_LEN,
};
use vstd::prelude::*;
use vstd::string::*;

verus! {

/// The largest temperature offset: 20.
pub const MAX_TEMP_OFFSET_ABS_C: u32 = 0x41a0_0000;

/// How many bytes the body of a request about the scale may have.
pub const SCALE_BODY_LIMIT: usize = 256;

/// How many bytes the body of a request about settings or credentials may have.
pub const SETTINGS_BODY_LIMIT: usize = 512;

/// The networks that the station offers: the one that it knows.
pub fn station_networks(settings: &DeviceSettings) -> (r: Vec<String>)
    ensures
        http::texts(r@) == if settings@.ssid.len() == 0 {
            Seq::<Seq<char>>::empty()
        } else {
            seq![settings@.ssid]
        },
{
    let mut r: Vec<String> = Vec::new();
    if !settings.ssid.as_str().is_empty() {
        r.push(settings.ssid.clone());
        assert(http::texts(r@) =~= seq![settings@.ssid]);
    } else {
        assert(http::texts(r@) =~= Seq::<Seq<char>>::empty());
    }
    r
}

/// How a request with a faulty body is answered. There is no answer where the body could not be
/// read.
pub open spec fn body_refusal(error: RequestBodyError) -> Option<(u16, Seq<char>, Seq<char>)> {
    match error {
        RequestBodyError::TooLarge => Some(
            (413, "Payload Too Large"@, "Request body too large."@),
        ),
        RequestBodyError::InvalidUtf8 => Some(
            (400, "Bad Request"@, "Request body must be valid UTF-8."@),
        ),
        RequestBodyError::Io(_) => None,
    }
}

/// How a request with a faulty body is answered: status, reason and message.
pub fn refuse_body(error: &RequestBodyError) -> (r: Option<(u16, &'static str, &'static str)>)
    ensures
        match body_refusal(*error) {
            Some((status, reason, message)) => r matches Some(found) && found.0 == status
                && found.1@ == reason && found.2@ == message,
            None => r is None,
        },
{
    match error {
        RequestBodyError::TooLarge => Some((413, "Payload Too Large", "Request body too large.")),
        RequestBodyError::InvalidUtf8 => Some(
            (400, "Bad Request", "Request body must be valid UTF-8."),
        ),
        RequestBodyError::Io(_) => None,
    }
}

/// What a request to change the settings asks for.
#[derive(Debug)]
pub struct SettingsForm {
    pub wifi_update: Option<String>,
    pub ssid: Option<String>,
    pub password: Option<String>,
    pub device_label: Option<String>,
    pub temperature_offset_c: Option<String>,
}

/// What the form holds.
pub struct FormView {
    pub wifi_update: Option<Seq<char>>,
    pub ssid: Option<Seq<char>>,
    pub password: Option<Seq<char>>,
    pub device_label: Option<Seq<char>>,
    pub temperature_offset_c: Option<Seq<char>>,
}

impl View for SettingsForm {
    type V = FormView;

    open spec fn view(&self) -> FormView {
        FormView {
            wifi_update: nvs::text_view(self.wifi_update),
            ssid: nvs::text_view(self.ssid),
            password: nvs::text_view(self.password),
            device_label: nvs::text_view(self.device_label),
            temperature_offset_c: nvs::text_view(self.temperature_offset_c),
        }
    }
}

/// The form in the body of a request.
pub open spec fn settings_form(body: Seq<char>) -> FormView {
    FormView {
        wifi_update: http::field(body, "wifi_update"@),
        ssid: http::field(body, "ssid"@),
        password: http::field(body, "password"@),
        device_label: http::field(body, "device_label"@),
        temperature_offset_c: http::field(body, "temperature_offset_c"@),
    }
}

/// The form in the body of a request.
pub fn read_settings_form(body: &str) -> (r: SettingsForm)
    ensures
        r@ == settings_form(body@),
{
    SettingsForm {
        wifi_update: http::parse_form_field(body, "wifi_update"),
        ssid: http::parse_form_field(body, "ssid"),
        password: http::parse_form_field(body, "password"),
        device_label: http::parse_form_field(body, "device_label"),
        temperature_offset_c: http::parse_form_field(body, "temperature_offset_c"),
    }
}

impl FormView {
    /// Whether other credentials are asked for.
    pub open spec fn wifi_requested(self) -> bool {
        self.wifi_update matches Some(s) && (s == "1"@ || s == "true"@ || s == "on"@)
    }

    /// The network that is asked for: the present one where none is named.
    pub open spec fn new_ssid(self, present: Seq<char>) -> Seq<char> {
        let named = nvs::text_or(self.ssid, Seq::empty());
        if !self.wifi_requested() {
            Seq::empty()
        } else if named.len() == 0 {
            present
        } else {
            named
        }
    }

    /// The password that is asked for.
    pub open spec fn new_pass(self) -> Seq<char> {
        if self.wifi_requested() {
            nvs::text_or(self.password, Seq::empty())
        } else {
            Seq::empty()
        }
    }

    /// Whether the credentials change.
    pub open spec fn wifi_changes(self, present: Seq<char>) -> bool {
        self.wifi_requested() && (self.new_ssid(present).len() > 0 || self.new_pass().len() > 0)
    }

    /// The label that is asked for.
    pub open spec fn new_label(self) -> Seq<char> {
        let label = text::trimmed(nvs::text_or(self.device_label, "OpenBarista"@));
        if label.len() == 0 {
            "OpenBarista"@
        } else {
            label
        }
    }

    /// The offset that is asked for, where it is a number.
    pub open spec fn new_offset(self) -> Option<Binary32> {
        decimal::number(text::trimmed(nvs::text_or(self.temperature_offset_c, "0"@)))
    }
}

/// Whether a temperature offset can be set.
pub open spec fn offset_in_range(offset: Binary32) -> bool {
    offset.finite() && !Binary32::from_bits(MAX_TEMP_OFFSET_ABS_C).below(offset.absolute())
}

/// The new settings.
pub struct SaveView {
    pub device_label: Seq<char>,
    pub temperature_offset_c: Binary32,
    pub wifi: Option<(Seq<char>, Seq<char>)>,
    pub message: Seq<char>,
}

/// What becomes of a request to change the settings: the reason why it is refused, or the new
/// settings.
pub open spec fn settings_outcome(form: FormView, present: SettingsView) -> Result<
    SaveView,
    Seq<char>,
> {
    let ssid = form.new_ssid(present.ssid);
    let pass = form.new_pass();
    let label = form.new_label();
    let changes = form.wifi_changes(present.ssid);
    match form.new_offset() {
        None => Err("Temperature offset must be a number."@),
        Some(offset) => if changes && ssid.len() == 0 {
            Err("No current Wi-Fi network is saved yet. Select a network first."@)
        } else if (changes && (nvs::byte_length(ssid) > MAX_SSID_LEN || nvs::byte_length(pass)
            > MAX_PASS_LEN)) || nvs::byte_length(label) > MAX_LABEL_LEN || !offset_in_range(
            offset,
        ) {
            Err("One or more fields are invalid or out of range."@)
        } else {
            Ok(
                SaveView {
                    device_label: label,
                    temperature_offset_c: offset,
                    wifi: if changes {
                        Some((ssid, pass))
                    } else {
                        None
                    },
                    message: if changes {
                        "Settings saved. Rebooting to apply network changes."@
                    } else if form.wifi_requested() {
                        "No Wi-Fi changes requested."@
                    } else {
                        "Device settings saved."@
                    },
                },
            )
        },
    }
}

/// Settings to be stored. The device reboots where credentials are among them.
#[derive(Debug)]
pub struct SettingsUpdate {
    pub device_label: String,
    pub temperature_offset_c: Binary32,
    pub wifi: Option<(String, String)>,
    pub message: &'static str,
}

impl View for SettingsUpdate {
    type V = SaveView;

    open spec fn view(&self) -> SaveView {
        SaveView {
            device_label: self.device_label@,
            temperature_offset_c: self.temperature_offset_c,
            wifi: match self.wifi {
                Some((ssid, pass)) => Some((ssid@, pass@)),
                None => None,
            },
            message: self.message@,
        }
    }
}

fn is_wifi_requested(form: &SettingsForm) -> (r: bool)
    ensures
        r == form@.wifi_requested(),
{
    match &form.wifi_update {
        Some(s) => text::same_text(s.as_str(), "1") || text::same_text(s.as_str(), "true")
            || text::same_text(s.as_str(), "on"),
        None => false,
    }
}

fn requested_label(label: Option<String>) -> (r: String)
    ensures
        r@ == ({
            let label = text::trimmed(nvs::text_or(nvs::text_view(label), "OpenBarista"@));
            if label.len() == 0 {
                "OpenBarista"@
            } else {
                label
            }
        }),
{
    let given = nvs::stored_or(label, "OpenBarista");
    let label = text::trim(given.as_str());
    if label.as_str().is_empty() {
        "OpenBarista".to_owned()
    } else {
        label
    }
}

fn requested_credentials(form: &SettingsForm, present: &str, requested: bool) -> (r: (String, String))
    requires
        requested == form@.wifi_requested(),
    ensures
        r.0@ == form@.new_ssid(present@),
        r.1@ == form@.new_pass(),
{
    if !requested {
        return (String::new(), String::new());
    }
    let named = match &form.ssid {
        Some(s) => s.clone(),
        None => String::new(),
    };
    let pass = match &form.password {
        Some(s) => s.clone(),
        None => String::new(),
    };
    if named.as_str().is_empty() {
        (present.to_owned(), pass)
    } else {
        (named, pass)
    }
}

/// Decides about a request to change the settings.
pub fn decide_settings(form: SettingsForm, present: &DeviceSettings) -> (r: Result<
    SettingsUpdate,
    &'static str,
>)
    ensures
        match settings_outcome(form@, present@) {
            Ok(save) => r matches Ok(update) && update@ == save,
            Err(message) => r matches Err(m) && m@ == message,
        },
{
    let requested = is_wifi_requested(&form);
    let (ssid, pass): (String, String) = requested_credentials(
        &form,
        present.ssid.as_str(),
        requested,
    );
    let device_label = requested_label(form.device_label);
    let given = nvs::stored_or(form.temperature_offset_c, "0");
    let offset_text = text::trim(given.as_str());
    let offset = match decimal::read_number(offset_text.as_str()) {
        Some(x) => x,
        None => {
            return Err("Temperature offset must be a number.");
        },
    };
    let changes = requested && (!ssid.as_str().is_empty() || !pass.as_str().is_empty());
    if changes && ssid.as_str().is_empty() {
        return Err("No current Wi-Fi network is saved yet. Select a network first.");
    }
    let too_far = Binary32::from_bits(MAX_TEMP_OFFSET_ABS_C).less(offset.abs());
    if (changes && (nvs::is_longer_than(ssid.as_str(), MAX_SSID_LEN) || nvs::is_longer_than(
        pass.as_str(),
        MAX_PASS_LEN,
    ))) || nvs::is_longer_than(device_label.as_str(), MAX_LABEL_LEN) || !offset.is_finite()
        || too_far {
        return Err("One or more fields are invalid or out of range.");
    }
    let message = if changes {
        "Settings saved. Rebooting to apply network changes."
    } else if requested {
        "No Wi-Fi changes requested."
    } else {
        "Device settings saved."
    };
    let wifi = if changes {
        Some((ssid, pass))
    } else {
        None
    };
    Ok(SettingsUpdate { device_label, temperature_offset_c: offset, wifi, message })
}

/// How a request to change the settings is answered.
#[derive(Debug)]
pub struct SettingsVerdict {
    pub status: u16,
    pub reason: &'static str,
    pub message: &'static str,
    /// Whether the device restarts once the answer is out.
    pub rebooting: bool,
}

/// How a decided request is answered. The device restarts where its network changes.
pub fn settings_verdict(decided: &Result<SettingsUpdate, &'static str>) -> (r: SettingsVerdict)
    ensures
        match *decided {
            Ok(update) => {
                &&& r.status == 200 && r.reason@ == "OK"@
                &&& r.message@ == update@.message
                &&& r.rebooting == (update@.wifi is Some)
            },
            Err(message) => {
                &&& r.status == 400 && r.reason@ == "Bad Request"@
                &&& r.message@ == message@
                &&& !r.rebooting
            },
        },
{
    match decided {
        Ok(update) => SettingsVerdict {
            status: 200,
            reason: "OK",
            message: update.message,
            rebooting: update.wifi.is_some(),
        },
        Err(message) => SettingsVerdict {
            status: 400,
            reason: "Bad Request",
            message: *message,
            rebooting: false,
        },
    }
}

/// A reply about the settings.
pub fn settings_reply(
    status: u16,
    reason: &'static str,
    settings: &DeviceSettings,
    ip_addr: &str,
    build_id: &str,
    board_id: &str,
    message: &str,
    rebooting: bool,
) -> (r: Reply)
    ensures
        r@ == http::json_reply_of(
            status,
            Some(reason@),
            http::settings_body(
                settings@,
                ip_addr@,
                build_id@,
                board_id@,
                status == 200,
                message@,
                rebooting,
            ),
        ),
{
    http::json_reply(
        status,
        reason,
        http::settings_json(
            settings,
            ip_addr,
            build_id,
            board_id,
            status == 200,
            message,
            rebooting,
        ),
    )
}

/// What a request about the scale asks for.
#[derive(Debug, Clone, Copy, PartialEq, Eq, Structural)]
pub enum ScaleAction {
    Scan,
    Connect,
    Disconnect,
    Forget,
    Unsupported,
}

/// The action with a name.
pub open spec fn action_named(name: Seq<char>) -> ScaleAction {
    if name == "scan"@ {
        ScaleAction::Scan
    } else if name == "connect"@ {
        ScaleAction::Connect
    } else if name == "disconnect"@ {
        ScaleAction::Disconnect
    } else if name == "forget"@ {
        ScaleAction::Forget
    } else {
        ScaleAction::Unsupported
    }
}

/// The action with a name.
pub fn scale_action(name: &str) -> (r: ScaleAction)
    ensures
        r == action_named(name@),
{
    if text::same_text(name, "scan") {
        ScaleAction::Scan
    } else if text::same_text(name, "connect") {
        ScaleAction::Connect
    } else if text::same_text(name, "disconnect") {
        ScaleAction::Disconnect
    } else if text::same_text(name, "forget") {
        ScaleAction::Forget
    } else {
        ScaleAction::Unsupported
    }
}

/// One thing that is done for a request about the scale.
#[derive(Debug, Clone, Copy, PartialEq, Eq, Structural)]
pub enum ScaleStep {
    /// Ask the runtime to scan.
    StartScan,
    /// Choose the scale that the request means, and store it.
    StoreChosen,
    /// Tell the runtime that the chosen scale is the saved one.
    ApplyChosen,
    /// Ask the runtime to connect to the chosen scale.
    ConnectChosen,
    /// Remove the saved scale from storage.
    ClearStored,
    /// Tell the runtime that no scale is saved.
    ForgetSaved,
    /// Ask the runtime to disconnect.
    Disconnect,
}

/// What is done for an action, in this order. A scale is stored before it is connected to, and
/// forgotten before it is disconnected.
pub open spec fn steps_of(action: ScaleAction) -> Seq<ScaleStep> {
    match action {
        ScaleAction::Scan => seq![ScaleStep::StartScan],
        ScaleAction::Connect => seq![
            ScaleStep::StoreChosen,
            ScaleStep::ApplyChosen,
            ScaleStep::ConnectChosen,
        ],
        ScaleAction::Disconnect => seq![ScaleStep::Disconnect],
        ScaleAction::Forget => seq![
            ScaleStep::ClearStored,
            ScaleStep::ForgetSaved,
            ScaleStep::Disconnect,
        ],
        ScaleAction::Unsupported => seq![],
    }
}

/// What is done for an action, in this order.
pub fn scale_steps(action: ScaleAction) -> (r: Vec<ScaleStep>)
    ensures
        r@ == steps_of(action),
{
    let mut r: Vec<ScaleStep> = Vec::new();
    match action {
        ScaleAction::Scan => {
            r.push(ScaleStep::StartScan);
        },
        ScaleAction::Connect => {
            r.push(ScaleStep::StoreChosen);
            r.push(ScaleStep::ApplyChosen);
            r.push(ScaleStep::ConnectChosen);
        },
        ScaleAction::Disconnect => {
            r.push(ScaleStep::Disconnect);
        },
        ScaleAction::Forget => {
            r.push(ScaleStep::ClearStored);
            r.push(ScaleStep::ForgetSaved);
            r.push(ScaleStep::Disconnect);
        },
        ScaleAction::Unsupported => {},
    }
    assert(r@ =~= steps_of(action));
    r
}

/// The outcome of an action that does not rest on the runtime's answer. A forgotten scale is
/// forgotten whether or not it could be disconnected.
pub fn settled_action(action: ScaleAction) -> (r: Option<Result<&'static str, &'static str>>)
    ensures
        match action {
            ScaleAction::Forget => r matches Some(Ok(m)) && m@ == "Saved scale forgotten."@,
            ScaleAction::Unsupported => r matches Some(Err(m)) && m@
                == "Unsupported scale action."@,
            _ => r is None,
        },
{
    match action {
        ScaleAction::Forget => Some(Ok("Saved scale forgotten.")),
        ScaleAction::Unsupported => Some(Err("Unsupported scale action.")),
        _ => None,
    }
}

/// A field without the blanks at its ends. A field that is not there is empty.
pub open spec fn trimmed_field(body: Seq<char>, key: Seq<char>) -> Seq<char> {
    text::trimmed(nvs::text_or(http::field(body, key), Seq::empty()))
}

fn read_trimmed_field(body: &str, key: &str) -> (r: String)
    ensures
        r@ == trimmed_field(body@, key@),
{
    let value = match http::parse_form_field(body, key) {
        Some(s) => s,
        None => String::new(),
    };
    text::trim(value.as_str())
}

/// What a request about the scale asks for, and the address in it.
pub fn read_scale_request(body: &str) -> (r: (ScaleAction, String))
    ensures
        r.0 == action_named(trimmed_field(body@, "action"@)),
        r.1@ == trimmed_field(body@, "address"@),
{
    let action = read_trimmed_field(body, "action");
    (scale_action(action.as_str()), read_trimmed_field(body, "address"))
}

/// The scale in reach with an address: the first.
pub open spec fn device_at(devices: Seq<DiscoveredScaleView>, address: Seq<char>) -> Option<
    SavedScaleView,
>
    decreases devices.len(),
{
    if devices.len() == 0 {
        None
    } else if text::same_ignoring_case(devices[0].address, address) {
        Some(
            SavedScaleView {
                address: devices[0].address,
                name: devices[0].name,
                addr_type: devices[0].address_type,
            },
        )
    } else {
        device_at(devices.skip(1), address)
    }
}

/// The scale to save and connect to: the one in reach with the address, or the saved one where
/// it has the address or none is given.
pub open spec fn chosen_scale(shown: ScaleStatusView, address: Seq<char>) -> Option<SavedScaleView> {
    match device_at(shown.devices, address) {
        Some(s) => Some(s),
        None => match shown.saved_scale {
            Some(s) => if address.len() == 0 || text::same_ignoring_case(s.address, address) {
                Some(s)
            } else {
                None
            },
            None => None,
        },
    }
}

/// The scale to save and connect to.
pub fn choose_scale(snapshot: &ScaleStatusSnapshot, address: &str) -> (r: Result<
    SavedScale,
    &'static str,
>)
    ensures
        match chosen_scale(snapshot@, address@) {
            Some(view) => r matches Ok(scale) && scale@ == view,
            None => r matches Err(m) && m@ == "Scan first, then tap a device from the list."@,
        },
{
    let ghost all = snapshot@.devices;
    let mut i: usize = 0;
    assert(all.skip(0) =~= all);
    while i < snapshot.devices.len()
        invariant
            i <= snapshot.devices.len(),
            all == snapshot@.devices,
            device_at(all, address@) == device_at(all.skip(i as int), address@),
        decreases snapshot.devices.len() - i,
    {
        let device = &snapshot.devices[i];
        if text::eq_ignore_case(device.address.as_str(), address) {
            return Ok(
                SavedScale {
                    address: device.address.clone(),
                    name: device.name.clone(),
                    addr_type: device.address_type.clone(),
                },
            );
        }
        assert(all.skip(i as int).skip(1) =~= all.skip(i + 1));
        i = i + 1;
    }
    match &snapshot.saved_scale {
        Some(s) => if address.is_empty() || text::eq_ignore_case(s.address.as_str(), address) {
            return Ok(s.clone());
        },
        None => {},
    }
    Err("Scan first, then tap a device from the list.")
}

/// The reply to a request about the scale.
pub fn scale_reply(result: Result<String, String>) -> (r: Reply)
    ensures
        r@ == match result {
            Ok(message) => http::json_reply_of(
                200,
                Some("OK"@),
                http::action_body(true, message@),
            ),
            Err(message) => http::json_reply_of(400, None, http::action_body(false, message@)),
        },
{
    match result {
        Ok(message) => http::json_reply(
            200,
            "OK",
            http::action_result_json(true, message.as_str()),
        ),
        Err(message) => Reply {
            status: 400,
            reason: None,
            content_type: "application/json; charset=utf-8",
            body: http::action_result_json(false, message.as_str()),
        },
    }
}

/// A page with a message.
pub open spec fn message_page(message: Seq<char>) -> Seq<char> {
    "<html><body><p>"@ + message + "</p><a href='/'>Go back</a></body></html>"@
}

/// A page with a message.
pub fn message_html(message: &str) -> (r: String)
    ensures
        r@ == message_page(message@),
{
    let mut out = "<html><body><p>".to_owned();
    out.append(message);
    out.append("</p><a href='/'>Go back</a></body></html>");
    out
}

/// What is wrong with credentials, if anything.
pub open spec fn credentials_fault(ssid: Seq<char>, pass: Seq<char>) -> Option<Seq<char>> {
    if ssid.len() == 0 {
        Some("SSID cannot be empty."@)
    } else if nvs::byte_length(ssid) > MAX_SSID_LEN || nvs::byte_length(pass) > MAX_PASS_LEN {
        Some("SSID/password too long."@)
    } else {
        None
    }
}

/// Credentials to be stored, or why a request with them is refused.
pub fn decide_connect(body: &str) -> (r: Result<(String, String), Reply>)
    ensures
        ({
            let ssid = nvs::text_or(http::field(body@, "ssid"@), Seq::empty());
            let pass = nvs::text_or(http::field(body@, "password"@), Seq::empty());
            match credentials_fault(ssid, pass) {
                None => r matches Ok(found) && found.0@ == ssid && found.1@ == pass,
                Some(fault) => r matches Err(reply) && reply@ == http::page_of(
                    400,
                    "Bad Request"@,
                    message_page(fault),
                ),
            }
        }),
{
    let ssid = match http::parse_form_field(body, "ssid") {
        Some(s) => s,
        None => String::new(),
    };
    let pass = match http::parse_form_field(body, "password") {
        Some(s) => s,
        None => String::new(),
    };
    check_credentials(ssid, pass)
}

/// Takes credentials, or says why they are refused.
pub fn check_credentials(ssid: String, pass: String) -> (r: Result<(String, String), Reply>)
    ensures
        match credentials_fault(ssid@, pass@) {
            None => r matches Ok(found) && found.0@ == ssid@ && found.1@ == pass@,
            Some(fault) => r matches Err(reply) && reply@ == http::page_of(
                400,
                "Bad Request"@,
                message_page(fault),
            ),
        },
{
    if ssid.as_str().is_empty() {
        return Err(http::page_reply(400, "Bad Request", message_html("SSID cannot be empty.")));
    }
    if nvs::is_longer_than(ssid.as_str(), MAX_SSID_LEN) || nvs::is_longer_than(
        pass.as_str(),
        MAX_PASS_LEN,
    ) {
        return Err(http::page_reply(400, "Bad Request", message_html("SSID/password too long.")));
    }
    Ok((ssid, pass))
}

/// Settings that are stored keep to their limits: the label is there and fits, the offset is a
/// number of at most 20, and the credentials, where they change, are such as can be used.
pub proof fn lemma_saved_settings_keep_limits(form: FormView, present: SettingsView)
    ensures
        settings_outcome(form, present) matches Ok(save) ==> {
            &&& save.device_label.len() > 0
            &&& nvs::byte_length(save.device_label) <= MAX_LABEL_LEN
            &&& offset_in_range(save.temperature_offset_c)
            &&& save.wifi matches Some((ssid, pass)) ==> credentials_fault(ssid, pass) is None
        },
{
    reveal_strlit("OpenBarista");
}

} // verus!
