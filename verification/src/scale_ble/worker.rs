//! What the worker does: scanning, making a connection and reading the scale.
//!
//! Making a connection is a run through phases. The radio's outcomes come in as events, and each
//! says what to do next.
use crate::binary32;
use crate::binary32::Binary32;
use crate::scale_ble::nimble;
use crate::scale_ble::nimble::AddressType;
use crate::scale_ble::runtime;
use crate::scale_ble::runtime::{ConnectRequest, RequestView};
use crate::scale_ble::types;
use crate::scale_ble::types::{
    ConnectionView, DeviceView, DiscoveredScaleInternal, ManagerView, ScaleConnectionState,
    ScaleManagerState,
};
use crate::scale_weight;
use crate::scale_weight::ScaleProtocol;
use crate::telemetry_feed;
use crate::telemetry_feed::{SharedTelemetry, TelemetrySnapshot};
use crate::telemetry_math;
use crate::text;
use vstd::prelude::*;
use vstd::string::*;
use vstd::utf8::*;

verus! {

/// How long a scan lasts, in seconds.
pub const SCALE_SCAN_DURATION_S: u32 = 10;

/// How long an attempt to connect may take, in milliseconds.
pub const CONNECT_TIMEOUT_MS: u32 = 12_000;

/// How often a connection is attempted.
pub const CONNECT_MAX_ATTEMPTS: u32 = 10;

/// The weakest signal at which a device without a name is noted.
pub const WEAKEST_UNNAMED_RSSI: i32 = -88;

/// The radio is ready.
pub fn transport_started(state: &mut ScaleManagerState)
    ensures
        final(state)@ == (ManagerView {
            transport_ready: true,
            state: ScaleConnectionState::Idle,
            message: "Bluetooth scale idle."@,
            ..old(state)@
        }),
{
    state.transport_ready = true;
    state.state = ScaleConnectionState::Idle;
    state.message = "Bluetooth scale idle.".to_owned();
}

/// A scan starts.
pub fn begin_scan(state: &mut ScaleManagerState)
    ensures
        final(state)@ == (ManagerView {
            discovered: seq![],
            state: ScaleConnectionState::Scanning,
            message: "Scanning for nearby Bluetooth scales..."@,
            ..old(state)@
        }),
{
    state.discovered = Vec::new();
    state.state = ScaleConnectionState::Scanning;
    state.message = "Scanning for nearby Bluetooth scales...".to_owned();
    assert(state@.discovered =~= seq![]);
}

/// The name that a device gives itself: none where it is blank or no text.
pub open spec fn given_name(name: Option<Seq<u8>>) -> Seq<char> {
    match name {
        Some(bytes) => if valid_utf8(bytes) {
            text::trimmed(decode_utf8(bytes))
        } else {
            Seq::empty()
        },
        None => Seq::empty(),
    }
}

/// What is noted of a device that a scan found. A device without a name goes by its address.
pub open spec fn seen_device(
    address: Seq<char>,
    addr_type: AddressType,
    name: Option<Seq<u8>>,
    rssi: i32,
) -> DeviceView {
    let given = given_name(name);
    let shown = if given.len() == 0 {
        address
    } else {
        given
    };
    DeviceView {
        address,
        addr_type: nimble::address_type_name(addr_type),
        name: shown,
        rssi,
        protocol_hint: ScaleProtocol::Unknown,
        scale_like: types::scale_like(shown),
    }
}

/// Whether a device is noted: not the device itself, and no weak signal without a name.
pub open spec fn is_noted(own_address: Option<Seq<char>>, device: DeviceView) -> bool {
    &&& !(own_address matches Some(own) && text::same_ignoring_case(own, device.address))
    &&& device.scale_like || device.rssi >= WEAKEST_UNNAMED_RSSI || device.name != device.address
}

/// An address, where there is one.
pub open spec fn optional_text(s: Option<String>) -> Option<Seq<char>> {
    match s {
        Some(t) => Some(t@),
        None => None,
    }
}

/// Bytes, where there are any.
pub open spec fn optional_bytes(b: Option<Vec<u8>>) -> Option<Seq<u8>> {
    match b {
        Some(v) => Some(v@),
        None => None,
    }
}

fn read_given_name(name: Option<Vec<u8>>) -> (r: String)
    ensures
        r@ == given_name(optional_bytes(name)),
{
    match name {
        Some(bytes) => match text::utf8_text(bytes) {
            Some(s) => text::trim(s.as_str()),
            None => String::new(),
        },
        None => String::new(),
    }
}

/// A scan found a device.
pub fn scan_found(
    state: &mut ScaleManagerState,
    own_address: &Option<String>,
    address: String,
    addr_type: AddressType,
    name: Option<Vec<u8>>,
    rssi: i32,
)
    ensures
        ({
            let device = seen_device(address@, addr_type, optional_bytes(name), rssi);
            final(state)@ == if is_noted(optional_text(*own_address), device) {
                ManagerView {
                    discovered: types::after_seen(old(state)@.discovered, device),
                    ..old(state)@
                }
            } else {
                old(state)@
            }
        }),
{
    let given = read_given_name(name);
    let unnamed = given.as_str().is_empty();
    let name = if unnamed {
        address.clone()
    } else {
        given
    };
    let scale_like = types::is_scale_like_name(name.as_str());
    match own_address {
        Some(own) => if text::eq_ignore_case(own.as_str(), address.as_str()) {
            return;
        },
        None => {},
    }
    if !scale_like && rssi < WEAKEST_UNNAMED_RSSI && text::same_text(
        name.as_str(),
        address.as_str(),
    ) {
        return;
    }
    let device = DiscoveredScaleInternal {
        address_text: address,
        addr_type_str: nimble::ble_addr_type_str(addr_type).to_owned(),
        name,
        rssi,
        protocol_hint: ScaleProtocol::Unknown,
        scale_like,
    };
    types::upsert_discovered(state, device);
}

/// What a scan is reported to have found.
pub open spec fn scan_message(found: nat) -> Seq<char> {
    if found == 0 {
        "No nearby scales found. Try moving the scale closer and scan again."@
    } else {
        "Found "@ + text::decimal(found) + " device(s). Tap one to connect."@
    }
}

/// A scan is over.
pub fn finish_scan(state: &mut ScaleManagerState)
    ensures
        final(state)@ == if old(state)@.state == ScaleConnectionState::Scanning {
            ManagerView {
                state: ScaleConnectionState::Idle,
                message: scan_message(old(state)@.discovered.len()),
                ..old(state)@
            }
        } else {
            old(state)@
        },
{
    if state.state == ScaleConnectionState::Scanning {
        let found: usize = state.discovered.len();
        state.state = ScaleConnectionState::Idle;
        if found == 0 {
            state.message =
                "No nearby scales found. Try moving the scale closer and scan again.".to_owned();
        } else {
            let mut message = "Found ".to_owned();
            text::push_decimal(&mut message, found as u128);
            message.append(" device(s). Tap one to connect.");
            state.message = message;
        }
    }
}

/// How far the run for a connection has got.
#[derive(Debug, Clone, Copy, PartialEq, Eq, Structural)]
pub enum ConnectPhase {
    /// A short scan shows whether the scale is there at all.
    Searching,
    /// An attempt is under way: the first, or one of those after it.
    Attempting(u32),
    /// There is a pause before an attempt.
    Pausing(u32),
    /// The scale is connected, and its weight channel is looked for.
    Discovering,
    /// The run is over.
    Over,
}

/// What came of it.
#[derive(Debug)]
pub enum ConnectEvent {
    /// The search is over: the scale is there or not.
    SearchDone(bool),
    /// The attempt succeeded or failed. One that was broken off by the watchdog has failed.
    AttemptDone(bool),
    /// The pause is over.
    PauseOver,
    /// The weight channel was found, or why it was not.
    Discovered(Result<ScaleProtocol, String>),
}

/// What to do next.
#[derive(Debug, Clone, Copy, PartialEq, Eq, Structural)]
pub enum ConnectStep {
    /// Look whether the scale is there.
    Search,
    /// Attempt to connect, under the watchdog.
    Attempt,
    /// Pause, and drop what is left of the last attempt.
    Pause,
    /// Look for the weight channel.
    Discover,
    /// Keep the connection and read the battery.
    Keep,
    /// Drop the connection.
    Drop,
    /// Nothing: there is no connection.
    Stop,
}

/// What an event is, in terms of texts.
pub enum EventView {
    SearchDone(bool),
    AttemptDone(bool),
    PauseOver,
    Discovered(Result<ScaleProtocol, Seq<char>>),
}

impl View for ConnectEvent {
    type V = EventView;

    open spec fn view(&self) -> EventView {
        match *self {
            ConnectEvent::SearchDone(found) => EventView::SearchDone(found),
            ConnectEvent::AttemptDone(ok) => EventView::AttemptDone(ok),
            ConnectEvent::PauseOver => EventView::PauseOver,
            ConnectEvent::Discovered(Ok(p)) => EventView::Discovered(Ok(p)),
            ConnectEvent::Discovered(Err(e)) => EventView::Discovered(Err(e@)),
        }
    }
}

/// Everything that a run changes.
pub struct RunView {
    pub manager: ManagerView,
    pub telemetry: TelemetrySnapshot,
}

/// What a run changes, out of its parts.
pub open spec fn run_of(manager: ManagerView, telemetry: TelemetrySnapshot) -> RunView {
    RunView { manager, telemetry }
}

impl RunView {
    /// The same with another message.
    pub open spec fn saying(self, message: Seq<char>) -> RunView {
        RunView { manager: ManagerView { message, ..self.manager }, ..self }
    }

    /// The same without a connection.
    pub open spec fn ended(self, state: ScaleConnectionState, message: Seq<char>) -> RunView {
        RunView { manager: ManagerView { state, message, active: None, ..self.manager }, ..self }
    }

    /// The same with telemetry that has no scale.
    pub open spec fn telemetry_cleared(self) -> RunView {
        RunView { telemetry: runtime::cleared(self.telemetry), ..self }
    }
}

/// Where a run for a connection starts, and what it does first. Its request is stale where
/// another one came or the user has changed their mind.
pub open spec fn begun(before: ManagerView, request: RequestView, address_valid: bool) -> (
    ManagerView,
    ConnectPhase,
    ConnectStep,
) {
    if !before.is_active(request.connection_id) {
        (before, ConnectPhase::Over, ConnectStep::Stop)
    } else if !address_valid {
        (
            ManagerView {
                state: ScaleConnectionState::Error,
                message: "Invalid BLE address: "@ + request.address,
                active: None,
                ..before
            },
            ConnectPhase::Over,
            ConnectStep::Stop,
        )
    } else {
        (
            ManagerView {
                message: "Searching for "@ + types::display_name(request.name) + "..."@,
                ..before
            },
            ConnectPhase::Searching,
            ConnectStep::Search,
        )
    }
}

/// Starts a run for a connection.
pub fn connect_begin(state: &mut ScaleManagerState, request: &ConnectRequest, address_valid: bool) -> (r:
    (ConnectPhase, ConnectStep))
    ensures
        (final(state)@, r.0, r.1) == begun(old(state)@, request@, address_valid),
{
    if !state.is_active_connection(request.connection_id) {
        return (ConnectPhase::Over, ConnectStep::Stop);
    }
    if !address_valid {
        state.state = ScaleConnectionState::Error;
        let mut message = "Invalid BLE address: ".to_owned();
        message.append(request.address_text.as_str());
        state.message = message;
        state.active = None;
        return (ConnectPhase::Over, ConnectStep::Stop);
    }
    state.message = runtime::with_name("Searching for ", request.name.as_str(), "...");
    (ConnectPhase::Searching, ConnectStep::Search)
}

/// The end of the search.
pub open spec fn after_search(before: RunView, request: RequestView, found: bool) -> (
    RunView,
    ConnectPhase,
    ConnectStep,
) {
    let name = types::display_name(request.name);
    if !before.manager.is_active(request.connection_id) {
        (before, ConnectPhase::Over, ConnectStep::Stop)
    } else if found {
        (
            before.saying("Connecting to "@ + name + "..."@),
            ConnectPhase::Attempting(1),
            ConnectStep::Attempt,
        )
    } else {
        (
            before.ended(
                ScaleConnectionState::Idle,
                name + " not found nearby. Will retry automatically."@,
            ),
            ConnectPhase::Over,
            ConnectStep::Stop,
        )
    }
}

/// The end of an attempt.
pub open spec fn after_attempt(before: RunView, request: RequestView, attempt: u32, ok: bool) -> (
    RunView,
    ConnectPhase,
    ConnectStep,
) {
    let name = types::display_name(request.name);
    if !before.manager.is_active(request.connection_id) {
        (
            before,
            ConnectPhase::Over,
            if ok {
                ConnectStep::Drop
            } else {
                ConnectStep::Stop
            },
        )
    } else if ok {
        (
            RunView {
                manager: ManagerView {
                    state: ScaleConnectionState::Discovering,
                    message: "Connected to "@ + name + ". Discovering weight channel..."@,
                    ..before.manager
                },
                ..before
            },
            ConnectPhase::Discovering,
            ConnectStep::Discover,
        )
    } else if attempt < CONNECT_MAX_ATTEMPTS {
        (before, ConnectPhase::Pausing((attempt + 1) as u32), ConnectStep::Pause)
    } else {
        (
            before.ended(
                ScaleConnectionState::Idle,
                "Could not reach "@ + name + ". It may be off or out of range."@,
            ).telemetry_cleared(),
            ConnectPhase::Over,
            ConnectStep::Stop,
        )
    }
}

/// The end of the search for the weight channel.
pub open spec fn after_discovery(
    before: RunView,
    request: RequestView,
    found: Result<ScaleProtocol, Seq<char>>,
) -> (RunView, ConnectPhase, ConnectStep) {
    let name = types::display_name(request.name);
    if !before.manager.is_active(request.connection_id) {
        (before, ConnectPhase::Over, ConnectStep::Drop)
    } else {
        match found {
            Ok(protocol) => (
                RunView {
                    manager: ManagerView {
                        active: Some(
                            ConnectionView { protocol, ..before.manager.active->0 },
                        ),
                        state: ScaleConnectionState::Ready,
                        message: "Connected to "@ + name + "."@,
                        battery_percent: None,
                        ..before.manager
                    },
                    telemetry: TelemetrySnapshot {
                        seq: telemetry_feed::next_seq(before.telemetry.seq),
                        scale_connected: true,
                        weight_g: binary32::zero(),
                        flow_gps: binary32::zero(),
                        ..before.telemetry
                    },
                },
                ConnectPhase::Over,
                ConnectStep::Keep,
            ),
            Err(e) => (
                before.ended(
                    ScaleConnectionState::Error,
                    "Connected to "@ + name + " but could not find a weight channel: "@ + e,
                ).telemetry_cleared(),
                ConnectPhase::Over,
                ConnectStep::Drop,
            ),
        }
    }
}

/// The next step of a run. An event that does not belong to its phase changes nothing.
pub open spec fn stepped(
    before: RunView,
    request: RequestView,
    phase: ConnectPhase,
    event: EventView,
) -> (RunView, ConnectPhase, ConnectStep) {
    match (phase, event) {
        (ConnectPhase::Searching, EventView::SearchDone(found)) => after_search(
            before,
            request,
            found,
        ),
        (ConnectPhase::Attempting(attempt), EventView::AttemptDone(ok)) => after_attempt(
            before,
            request,
            attempt,
            ok,
        ),
        (ConnectPhase::Pausing(attempt), EventView::PauseOver) => (
            before.saying(
                "Retrying connection to "@ + types::display_name(request.name) + "..."@,
            ),
            ConnectPhase::Attempting(attempt),
            ConnectStep::Attempt,
        ),
        (ConnectPhase::Discovering, EventView::Discovered(found)) => after_discovery(
            before,
            request,
            found,
        ),
        _ => (before, ConnectPhase::Over, ConnectStep::Stop),
    }
}

fn search_done(state: &mut ScaleManagerState, request: &ConnectRequest, found: bool) -> (r: (
    ConnectPhase,
    ConnectStep,
))
    ensures
        forall|t: TelemetrySnapshot|
            (run_of(final(state)@, t), r.0, r.1) == #[trigger] after_search(
                run_of(old(state)@, t),
                request@,
                found,
            ),
{
    if !state.is_active_connection(request.connection_id) {
        return (ConnectPhase::Over, ConnectStep::Stop);
    }
    if found {
        state.message = runtime::with_name("Connecting to ", request.name.as_str(), "...");
        return (ConnectPhase::Attempting(1), ConnectStep::Attempt);
    }
    state.state = ScaleConnectionState::Idle;
    let message = runtime::with_name(
        "",
        request.name.as_str(),
        " not found nearby. Will retry automatically.",
    );
    proof {
        reveal_strlit("");
        assert(message@ =~= types::display_name(request.name@)
            + " not found nearby. Will retry automatically."@);
    }
    state.message = message;
    state.active = None;
    (ConnectPhase::Over, ConnectStep::Stop)
}

fn attempt_done(
    state: &mut ScaleManagerState,
    telemetry: &mut SharedTelemetry,
    request: &ConnectRequest,
    attempt: u32,
    ok: bool,
) -> (r: (ConnectPhase, ConnectStep))
    ensures
        (run_of(final(state)@, final(telemetry)@), r.0, r.1)
            == after_attempt(
            run_of(old(state)@, old(telemetry)@),
            request@,
            attempt,
            ok,
        ),
{
    if !state.is_active_connection(request.connection_id) {
        return (
            ConnectPhase::Over,
            if ok {
                ConnectStep::Drop
            } else {
                ConnectStep::Stop
            },
        );
    }
    if ok {
        state.state = ScaleConnectionState::Discovering;
        state.message = runtime::with_name(
            "Connected to ",
            request.name.as_str(),
            ". Discovering weight channel...",
        );
        return (ConnectPhase::Discovering, ConnectStep::Discover);
    }
    if attempt < CONNECT_MAX_ATTEMPTS {
        return (ConnectPhase::Pausing(attempt + 1), ConnectStep::Pause);
    }
    state.state = ScaleConnectionState::Idle;
    state.message = runtime::with_name(
        "Could not reach ",
        request.name.as_str(),
        ". It may be off or out of range.",
    );
    state.active = None;
    telemetry.clear_scale();
    (ConnectPhase::Over, ConnectStep::Stop)
}

fn discovery_done(
    state: &mut ScaleManagerState,
    telemetry: &mut SharedTelemetry,
    request: &ConnectRequest,
    found: Result<ScaleProtocol, String>,
) -> (r: (ConnectPhase, ConnectStep))
    ensures
        (run_of(final(state)@, final(telemetry)@), r.0, r.1)
            == after_discovery(
            run_of(old(state)@, old(telemetry)@),
            request@,
            match found {
                Ok(p) => Ok(p),
                Err(e) => Err(e@),
            },
        ),
{
    if !state.is_active_connection(request.connection_id) {
        return (ConnectPhase::Over, ConnectStep::Drop);
    }
    match found {
        Ok(protocol) => {
            let mut active = None;
            std::mem::swap(&mut active, &mut state.active);
            state.active = match active {
                Some(mut a) => {
                    a.protocol = protocol;
                    Some(a)
                },
                None => None,
            };
            state.state = ScaleConnectionState::Ready;
            state.message = runtime::with_name("Connected to ", request.name.as_str(), ".");
            state.battery_percent = None;
            telemetry.update_scale(true, Binary32::from_bits(0), Binary32::from_bits(0));
            (ConnectPhase::Over, ConnectStep::Keep)
        },
        Err(e) => {
            state.state = ScaleConnectionState::Error;
            let mut message = runtime::with_name(
                "Connected to ",
                request.name.as_str(),
                " but could not find a weight channel: ",
            );
            message.append(e.as_str());
            state.message = message;
            state.active = None;
            telemetry.clear_scale();
            (ConnectPhase::Over, ConnectStep::Drop)
        },
    }
}

/// Takes an event, and says what the run does next.
pub fn connect_step(
    state: &mut ScaleManagerState,
    telemetry: &mut SharedTelemetry,
    request: &ConnectRequest,
    phase: ConnectPhase,
    event: ConnectEvent,
) -> (r: (ConnectPhase, ConnectStep))
    ensures
        (run_of(final(state)@, final(telemetry)@), r.0, r.1) == stepped(
            run_of(old(state)@, old(telemetry)@),
            request@,
            phase,
            event@,
        ),
{
    match (phase, event) {
        (ConnectPhase::Searching, ConnectEvent::SearchDone(found)) => {
            let ghost before = run_of(state@, telemetry@);
            let r = search_done(state, request, found);
            assert((run_of(state@, telemetry@), r.0, r.1) == after_search(
                before,
                request@,
                found,
            ));
            r
        },
        (ConnectPhase::Attempting(attempt), ConnectEvent::AttemptDone(ok)) => attempt_done(
            state,
            telemetry,
            request,
            attempt,
            ok,
        ),
        (ConnectPhase::Pausing(attempt), ConnectEvent::PauseOver) => {
            state.message = runtime::with_name(
                "Retrying connection to ",
                request.name.as_str(),
                "...",
            );
            (ConnectPhase::Attempting(attempt), ConnectStep::Attempt)
        },
        (ConnectPhase::Discovering, ConnectEvent::Discovered(found)) => discovery_done(
            state,
            telemetry,
            request,
            found,
        ),
        _ => (ConnectPhase::Over, ConnectStep::Stop),
    }
}

/// The link to the scale was lost.
pub fn link_lost(
    state: &mut ScaleManagerState,
    telemetry: &mut SharedTelemetry,
    connection_id: u64,
    name: &str,
)
    ensures
        if old(state)@.is_active(connection_id) {
            &&& final(state)@ == (ManagerView {
                active: None,
                state: ScaleConnectionState::Idle,
                message: "Disconnected from "@ + types::display_name(name@) + "."@,
                ..old(state)@
            }).without_live_values()
            &&& final(telemetry)@ == runtime::cleared(old(telemetry)@)
        } else {
            final(state)@ == old(state)@ && final(telemetry)@ == old(telemetry)@
        },
{
    if !state.is_active_connection(connection_id) {
        return;
    }
    state.active = None;
    state.state = ScaleConnectionState::Idle;
    state.message = runtime::with_name("Disconnected from ", name, ".");
    state.reset_live_values();
    telemetry.clear_scale();
}

/// The worker was told to disconnect. Where there is a link, losing it does the rest.
pub fn handle_disconnect(
    state: &mut ScaleManagerState,
    telemetry: &mut SharedTelemetry,
    has_link: bool,
)
    ensures
        if has_link {
            final(state)@ == old(state)@ && final(telemetry)@ == old(telemetry)@
        } else {
            &&& final(state)@ == (ManagerView {
                active: None,
                state: ScaleConnectionState::Idle,
                message: "No scale is connected right now."@,
                ..old(state)@
            }).without_live_values()
            &&& final(telemetry)@ == runtime::cleared(old(telemetry)@)
        },
{
    if has_link {
        return;
    }
    state.active = None;
    state.state = ScaleConnectionState::Idle;
    state.message = "No scale is connected right now.".to_owned();
    state.reset_live_values();
    telemetry.clear_scale();
}

/// The battery was read.
pub fn battery_read(state: &mut ScaleManagerState, connection_id: u64, value: &[u8])
    ensures
        final(state)@ == if value@.len() > 0 && old(state)@.is_active(connection_id) {
            ManagerView { battery_percent: Some(value@[0]), ..old(state)@ }
        } else {
            old(state)@
        },
{
    if value.len() > 0 && state.is_active_connection(connection_id) {
        state.battery_percent = Some(value[0]);
    }
}

/// What is known after a weight came in. The telemetry gets it without what is below zero or no
/// number.
pub open spec fn weighed(before: RunView, weight_g: Binary32, now_ms: u64) -> RunView {
    let flow = before.manager.flow_estimator.reported(weight_g, now_ms);
    RunView {
        manager: ManagerView {
            flow_estimator: before.manager.flow_estimator.after(weight_g, now_ms),
            weight_g,
            flow_gps: flow,
            state: ScaleConnectionState::Ready,
            ..before.manager
        },
        telemetry: TelemetrySnapshot {
            seq: telemetry_feed::next_seq(before.telemetry.seq),
            scale_connected: true,
            weight_g: telemetry_math::clean_weight(weight_g),
            flow_gps: flow,
            ..before.telemetry
        },
    }
}

/// What is known after bytes came in over a channel of the scale.
pub open spec fn channel_read(
    before: RunView,
    connection_id: u64,
    protocol: ScaleProtocol,
    data: Seq<u8>,
    now_ms: u64,
) -> RunView {
    match scale_weight::weight(protocol, data, before.manager.weight_g) {
        Some(weight_g) => if before.manager.is_active(connection_id) {
            weighed(before, weight_g, now_ms)
        } else {
            before
        },
        None => before,
    }
}

/// A weight came in.
pub fn apply_weight(
    state: &mut ScaleManagerState,
    telemetry: &mut SharedTelemetry,
    connection_id: u64,
    weight_g: Binary32,
    now_ms: u64,
)
    ensures
        ({
            let before = run_of(old(state)@, old(telemetry)@);
            run_of(final(state)@, final(telemetry)@)
                == if before.manager.is_active(connection_id) {
                weighed(before, weight_g, now_ms)
            } else {
                before
            }
        }),
{
    if !state.is_active_connection(connection_id) {
        return;
    }
    let flow_gps = state.flow_estimator.observe(weight_g, now_ms);
    state.weight_g = weight_g;
    state.flow_gps = flow_gps;
    state.state = ScaleConnectionState::Ready;
    telemetry.update_scale(true, telemetry_math::sanitize_weight_g(weight_g), flow_gps);
}

/// Bytes came in over a channel of the scale: a notification, or what was read from it.
pub fn channel_data(
    state: &mut ScaleManagerState,
    telemetry: &mut SharedTelemetry,
    connection_id: u64,
    protocol: ScaleProtocol,
    data: &[u8],
    now_ms: u64,
)
    ensures
        run_of(final(state)@, final(telemetry)@) == channel_read(
            run_of(old(state)@, old(telemetry)@),
            connection_id,
            protocol,
            data@,
            now_ms,
        ),
{
    match scale_weight::parse_weight(protocol, data, state.weight_g) {
        Some(weight_g) => apply_weight(state, telemetry, connection_id, weight_g, now_ms),
        None => {},
    }
}

/// How many steps a run has left at most.
pub open spec fn steps_left(phase: ConnectPhase) -> nat {
    match phase {
        ConnectPhase::Searching => 2 * CONNECT_MAX_ATTEMPTS as nat + 2,
        ConnectPhase::Pausing(attempt) => if attempt <= CONNECT_MAX_ATTEMPTS {
            (2 * (CONNECT_MAX_ATTEMPTS - attempt) + 3) as nat
        } else {
            3
        },
        ConnectPhase::Attempting(attempt) => if attempt <= CONNECT_MAX_ATTEMPTS {
            (2 * (CONNECT_MAX_ATTEMPTS - attempt) + 2) as nat
        } else {
            2
        },
        ConnectPhase::Discovering => 1,
        ConnectPhase::Over => 0,
    }
}

/// A run for a connection comes to an end: every event brings it nearer, and no more attempts
/// are made than are allowed.
pub proof fn lemma_run_ends(
    before: RunView,
    request: RequestView,
    phase: ConnectPhase,
    event: EventView,
)
    requires
        phase != ConnectPhase::Over,
        phase matches ConnectPhase::Attempting(n) ==> 1 <= n <= CONNECT_MAX_ATTEMPTS,
        phase matches ConnectPhase::Pausing(n) ==> 1 <= n <= CONNECT_MAX_ATTEMPTS,
    ensures
        ({
            let after = stepped(before, request, phase, event).1;
            &&& steps_left(after) < steps_left(phase)
            &&& after matches ConnectPhase::Attempting(n) ==> 1 <= n <= CONNECT_MAX_ATTEMPTS
            &&& after matches ConnectPhase::Pausing(n) ==> 1 <= n <= CONNECT_MAX_ATTEMPTS
        }),
{
}

/// A run whose request is stale changes nothing but the message, and does not keep a connection.
pub proof fn lemma_stale_run_is_harmless(
    before: RunView,
    request: RequestView,
    phase: ConnectPhase,
    event: EventView,
)
    requires
        !before.manager.is_active(request.connection_id),
    ensures
        ({
            let (after, _, step) = stepped(before, request, phase, event);
            &&& after == before.saying(after.manager.message)
            &&& step != ConnectStep::Keep && step != ConnectStep::Discover
        }),
{
}

/// A weight that comes in over a connection that is no longer in use changes nothing.
pub proof fn lemma_stale_weight_is_ignored(
    before: RunView,
    connection_id: u64,
    protocol: ScaleProtocol,
    data: Seq<u8>,
    now_ms: u64,
)
    requires
        !before.manager.is_active(connection_id),
    ensures
        channel_read(before, connection_id, protocol, data, now_ms) == before,
{
}

/// The weight in the telemetry is a number and not below zero, whatever the scale sends.
pub proof fn lemma_telemetry_weight_is_clean(before: RunView, weight_g: Binary32, now_ms: u64)
    ensures
        ({
            let shown = weighed(before, weight_g, now_ms).telemetry.weight_g;
            shown.finite() && binary32::zero().at_most(shown)
        }),
{
    telemetry_math::lemma_clean_weight_is_clean(weight_g);
}

} // verus!
