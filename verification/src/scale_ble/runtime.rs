//! What the user can ask of the scale: scan, connect, disconnect, save and forget.
use crate::scale_ble::types;
use crate::scale_ble::types::{
    ActiveScaleConnection, ConnectionView, DeviceView, ManagerView, SavedScale, SavedScaleView,
    ScaleConnectionState, ScaleManagerState, ScaleStatusSnapshot,
};
use crate::scale_weight::ScaleProtocol;
use crate::telemetry_feed;
use crate::telemetry_feed::{SharedTelemetry, TelemetrySnapshot};
use crate::binary32;
use crate::text;
use vstd::prelude::*;
use vstd::string::*;

verus! {

/// A connection for the worker to make.
#[derive(Debug)]
pub struct ConnectRequest {
    pub connection_id: u64,
    pub address_text: String,
    pub addr_type_str: String,
    pub name: String,
}

/// What a request holds.
pub struct RequestView {
    pub connection_id: u64,
    pub address: Seq<char>,
    pub addr_type: Seq<char>,
    pub name: Seq<char>,
}

impl View for ConnectRequest {
    type V = RequestView;

    open spec fn view(&self) -> RequestView {
        RequestView {
            connection_id: self.connection_id,
            address: self.address_text@,
            addr_type: self.addr_type_str@,
            name: self.name@,
        }
    }
}

/// A command for the worker.
#[derive(Debug)]
pub enum WorkerCommand {
    StartScan,
    ConnectTarget(ConnectRequest),
    Disconnect,
}

/// The telemetry without a scale.
pub open spec fn cleared(telemetry: TelemetrySnapshot) -> TelemetrySnapshot {
    TelemetrySnapshot {
        seq: telemetry_feed::next_seq(telemetry.seq),
        scale_connected: false,
        weight_g: binary32::zero(),
        flow_gps: binary32::zero(),
        ..telemetry
    }
}

/// A text with the name of a scale in it.
pub fn with_name(front: &str, name: &str, back: &str) -> (r: String)
    ensures
        r@ == front@ + types::display_name(name@) + back@,
{
    let mut out = String::new();
    out.append(front);
    out.append(types::display_scale_name(name));
    out.append(back);
    assert(out@ =~= front@ + types::display_name(name@) + back@);
    out
}

/// What follows from asking for something: what the user is told, whether a connection attempt
/// has to be broken off, and whether the worker gets a command.
#[derive(Debug)]
pub struct Decision {
    pub result: Result<&'static str, &'static str>,
    pub cancel_connect: bool,
    pub send: bool,
}

/// What the user is told: good news or bad.
pub open spec fn told(result: Result<&'static str, &'static str>) -> Result<Seq<char>, Seq<char>> {
    match result {
        Ok(m) => Ok(m@),
        Err(m) => Err(m@),
    }
}

/// What follows from asking to connect.
#[derive(Debug)]
pub enum ConnectAction {
    /// The scale is already connected, as the user is told.
    Already(String),
    /// The worker gets a request, and the user is told so.
    Connect(ConnectRequest, String),
}

/// The device with an address: the first in the list.
pub open spec fn found(list: Seq<DeviceView>, address: Seq<char>) -> Option<DeviceView>
    decreases list.len(),
{
    if list.len() == 0 {
        None
    } else if text::same_ignoring_case(list[0].address, address) {
        Some(list[0])
    } else {
        found(list.skip(1), address)
    }
}

/// The scale to connect to: a device in reach or the saved scale.
pub open spec fn target(view: ManagerView, address: Seq<char>) -> Option<SavedScaleView> {
    match found(view.discovered, address) {
        Some(d) => Some(
            SavedScaleView { address: d.address, name: d.name, addr_type: d.addr_type },
        ),
        None => match view.saved_scale {
            Some(s) => if text::same_ignoring_case(s.address, address) {
                Some(s)
            } else {
                None
            },
            None => None,
        },
    }
}

/// Whether a connection is being made.
pub open spec fn in_progress(state: ScaleConnectionState) -> bool {
    state == ScaleConnectionState::Connecting || state == ScaleConnectionState::Discovering
}

/// Whether asking for a scan starts one.
pub open spec fn can_scan(view: ManagerView) -> bool {
    view.transport_ready && view.state != ScaleConnectionState::Ready
}

/// What is known after a scan was asked for.
pub open spec fn after_scan_request(view: ManagerView) -> ManagerView {
    if !view.transport_ready {
        ManagerView {
            message: "Bluetooth is still starting. Try again in a moment."@,
            ..view
        }
    } else if view.state == ScaleConnectionState::Ready {
        ManagerView { message: "Disconnect the current scale before scanning."@, ..view }
    } else {
        let base = if in_progress(view.state) {
            (ManagerView { active: None, ..view }).without_live_values()
        } else {
            view
        };
        ManagerView {
            discovered: seq![],
            state: ScaleConnectionState::Scanning,
            auto_reconnect_suppressed: false,
            message: "Scanning for nearby Bluetooth scales..."@,
            ..base
        }
    }
}

/// What is known when a connection is to be made.
pub open spec fn connecting(view: ManagerView, scale: SavedScaleView, message: Seq<char>) -> ManagerView {
    (ManagerView {
        next_connection_id: types::connection_id_after(view.next_connection_id),
        state: ScaleConnectionState::Connecting,
        message,
        active: Some(
            ConnectionView {
                id: view.next_connection_id,
                address: scale.address,
                name: scale.name,
                protocol: ScaleProtocol::Unknown,
            },
        ),
        ..view
    }).without_live_values()
}

/// The request for a connection.
pub open spec fn request_for(view: ManagerView, scale: SavedScaleView) -> RequestView {
    RequestView {
        connection_id: view.next_connection_id,
        address: scale.address,
        addr_type: scale.addr_type,
        name: scale.name,
    }
}

/// Whether a disconnect has anything to do.
pub open spec fn can_disconnect(view: ManagerView) -> bool {
    view.active is Some || in_progress(view.state)
}

/// What is known after a disconnect was asked for.
pub open spec fn after_disconnect_request(view: ManagerView) -> ManagerView {
    if can_disconnect(view) {
        (ManagerView {
            active: None,
            state: ScaleConnectionState::Idle,
            message: "Disconnected."@,
            auto_reconnect_suppressed: true,
            ..view
        }).without_live_values()
    } else {
        ManagerView { message: "No scale is connected right now."@, ..view }
    }
}

/// Whether the saved scale is to be reconnected in the background.
pub open spec fn should_reconnect(view: ManagerView) -> bool {
    &&& view.state == ScaleConnectionState::Idle || view.state == ScaleConnectionState::Error
    &&& !view.auto_reconnect_suppressed
    &&& view.active is None
    &&& view.saved_scale is Some
}

/// The scale and what can be asked of it.
#[derive(Debug)]
pub struct ScaleRuntime {
    pub state: ScaleManagerState,
    /// Whether there is a worker to send commands to.
    pub worker_running: bool,
}

fn find_target(state: &ScaleManagerState, address: &str) -> (r: Option<SavedScale>)
    ensures
        types::saved_view(r) == target(state@, address@),
{
    let ghost all = state@.discovered;
    let mut i: usize = 0;
    assert(all.skip(0) =~= all);
    while i < state.discovered.len()
        invariant
            i <= state.discovered.len(),
            all == state@.discovered,
            found(all, address@) == found(all.skip(i as int), address@),
        decreases state.discovered.len() - i,
    {
        if text::eq_ignore_case(state.discovered[i].address_text.as_str(), address) {
            let d = &state.discovered[i];
            return Some(
                SavedScale {
                    address: d.address_text.clone(),
                    name: d.name.clone(),
                    addr_type: d.addr_type_str.clone(),
                },
            );
        }
        assert(all.skip(i as int).skip(1) =~= all.skip(i + 1));
        i = i + 1;
    }
    match &state.saved_scale {
        Some(s) => if text::eq_ignore_case(s.address.as_str(), address) {
            Some(s.clone())
        } else {
            None
        },
        None => None,
    }
}

/// Starts a connection to a scale.
fn begin_connecting(state: &mut ScaleManagerState, scale: SavedScale, message: String) -> (r:
    ConnectRequest)
    ensures
        final(state)@ == connecting(old(state)@, scale@, message@),
        r@ == request_for(old(state)@, scale@),
{
    let connection_id: u64 = state.allocate_connection_id();
    state.state = ScaleConnectionState::Connecting;
    state.message = message;
    state.active = Some(
        ActiveScaleConnection {
            id: connection_id,
            address_text: scale.address.clone(),
            name: scale.name.clone(),
            protocol: ScaleProtocol::Unknown,
        },
    );
    state.reset_live_values();
    ConnectRequest {
        connection_id,
        address_text: scale.address,
        addr_type_str: scale.addr_type,
        name: scale.name,
    }
}

/// How a request to connect to an address is answered, and what it leaves.
pub open spec fn connect_answer(
    running: bool,
    before: ManagerView,
    feed: TelemetrySnapshot,
    address: Seq<char>,
    after: ManagerView,
    feed_after: TelemetrySnapshot,
    r: Result<ConnectAction, String>,
) -> bool {
    let allowed = ManagerView { auto_reconnect_suppressed: false, ..before };
    if !running {
        &&& after == before
        &&& feed_after == feed
        &&& r matches Err(m) && m@ == "Bluetooth is unavailable on this build."@
    } else if before.active is Some {
        let a = before.active->0;
        &&& after == allowed
        &&& feed_after == feed
        &&& if text::same_ignoring_case(a.address, address) {
            r matches Ok(ConnectAction::Already(m)) && m@ == "Already connected to "@
                + types::display_name(a.name) + "."@
        } else {
            r matches Err(m) && m@ == "Disconnect "@ + types::display_name(a.name)
                + " before connecting a different scale."@
        }
    } else {
        match target(before, address) {
            None => {
                &&& after == allowed
                &&& feed_after == feed
                &&& r matches Err(m) && m@
                    == "Scale not found. Scan again and tap a device from the list."@
            },
            Some(scale) => {
                let message = "Connecting to "@ + types::display_name(scale.name)
                    + "..."@;
                &&& after == connecting(allowed, scale, message)
                &&& feed_after == cleared(feed)
                &&& r matches Ok(ConnectAction::Connect(request, m)) && request@
                    == request_for(before, scale) && m@ == message
            },
        }
    }
}

impl ScaleRuntime {
    /// A runtime without Bluetooth.
    pub fn disabled(message: String) -> (r: Self)
        ensures
            r.state@ == ManagerView::initial(false, message@),
            !r.worker_running,
    {
        ScaleRuntime { state: ScaleManagerState::new(false, message), worker_running: false }
    }

    /// A runtime whose worker has just been started.
    pub fn try_new() -> (r: Self)
        ensures
            r.state@ == ManagerView::initial(true, "Starting Bluetooth scale transport..."@),
            r.worker_running,
    {
        ScaleRuntime {
            state: ScaleManagerState::new(true, "Starting Bluetooth scale transport...".to_owned()),
            worker_running: true,
        }
    }

    /// What the web interface shows.
    pub fn snapshot(&self) -> (r: ScaleStatusSnapshot)
        ensures
            r@ == self.state@.shown(),
    {
        self.state.snapshot()
    }

    /// Sets the saved scale.
    pub fn apply_saved_scale(&mut self, saved_scale: Option<SavedScale>)
        ensures
            final(self).state@ == (ManagerView {
                saved_scale: types::saved_view(saved_scale),
                ..old(self).state@
            }),
            final(self).worker_running == old(self).worker_running,
    {
        self.state.saved_scale = saved_scale;
    }

    /// Forgets the saved scale.
    pub fn forget_saved_scale(&mut self)
        ensures
            final(self).state@ == (ManagerView { saved_scale: None, ..old(self).state@ }),
            final(self).worker_running == old(self).worker_running,
    {
        self.state.saved_scale = None;
    }

    /// Asks for a scan. A connection that is being made is broken off.
    pub fn start_scan(&mut self, telemetry: &mut SharedTelemetry) -> (r: Decision)
        ensures
            final(self).worker_running == old(self).worker_running,
            ({
                let before = old(self).state@;
                if !old(self).worker_running {
                    &&& final(self).state@ == before
                    &&& final(telemetry)@ == old(telemetry)@
                    &&& told(r.result) == Err::<Seq<char>, Seq<char>>(
                        "Bluetooth is unavailable on this build."@,
                    )
                    &&& !r.send && !r.cancel_connect
                } else {
                    let after = after_scan_request(before);
                    &&& final(self).state@ == after
                    &&& told(r.result) == Ok::<Seq<char>, Seq<char>>(after.message)
                    &&& r.send == can_scan(before)
                    &&& r.cancel_connect == (can_scan(before) && in_progress(before.state))
                    &&& final(telemetry)@ == if can_scan(before) {
                        cleared(old(telemetry)@)
                    } else {
                        old(telemetry)@
                    }
                }
            }),
    {
        if !self.worker_running {
            return Decision {
                result: Err("Bluetooth is unavailable on this build."),
                cancel_connect: false,
                send: false,
            };
        }
        if !self.state.transport_ready {
            self.state.message = "Bluetooth is still starting. Try again in a moment.".to_owned();
            return Decision {
                result: Ok("Bluetooth is still starting. Try again in a moment."),
                cancel_connect: false,
                send: false,
            };
        }
        if self.state.state == ScaleConnectionState::Ready {
            self.state.message = "Disconnect the current scale before scanning.".to_owned();
            return Decision {
                result: Ok("Disconnect the current scale before scanning."),
                cancel_connect: false,
                send: false,
            };
        }
        let cancel_connect = self.state.state == ScaleConnectionState::Connecting
            || self.state.state == ScaleConnectionState::Discovering;
        if cancel_connect {
            self.state.active = None;
            self.state.reset_live_values();
        }
        self.state.discovered = Vec::new();
        self.state.state = ScaleConnectionState::Scanning;
        self.state.auto_reconnect_suppressed = false;
        self.state.message = "Scanning for nearby Bluetooth scales...".to_owned();
        telemetry.clear_scale();
        assert(self.state@.discovered =~= seq![]);
        Decision {
            result: Ok("Scanning for nearby Bluetooth scales..."),
            cancel_connect,
            send: true,
        }
    }

    /// Asks to connect to the scale with an address: one in reach or the saved one. There can be
    /// one connection at a time.
    pub fn connect_address(&mut self, telemetry: &mut SharedTelemetry, address: &str) -> (r: Result<
        ConnectAction,
        String,
    >)
        ensures
            final(self).worker_running == old(self).worker_running,
            connect_answer(
                old(self).worker_running,
                old(self).state@,
                old(telemetry)@,
                address@,
                final(self).state@,
                final(telemetry)@,
                r,
            ),
    {
        if !self.worker_running {
            return Err("Bluetooth is unavailable on this build.".to_owned());
        }
        self.state.auto_reconnect_suppressed = false;
        match &self.state.active {
            Some(a) => {
                if text::eq_ignore_case(a.address_text.as_str(), address) {
                    return Ok(
                        ConnectAction::Already(
                            with_name("Already connected to ", a.name.as_str(), "."),
                        ),
                    );
                }
                return Err(
                    with_name(
                        "Disconnect ",
                        a.name.as_str(),
                        " before connecting a different scale.",
                    ),
                );
            },
            None => {},
        }
        match find_target(&self.state, address) {
            None => Err("Scale not found. Scan again and tap a device from the list.".to_owned()),
            Some(scale) => {
                let message = with_name("Connecting to ", scale.name.as_str(), "...");
                let shown = message.clone();
                let request = begin_connecting(&mut self.state, scale, message);
                telemetry.clear_scale();
                Ok(ConnectAction::Connect(request, shown))
            },
        }
    }

    /// Takes back a connection whose request could not be sent to the worker.
    pub fn connect_send_failed(&mut self)
        ensures
            final(self).state@ == (ManagerView {
                state: ScaleConnectionState::Idle,
                message: "Failed to send connect command."@,
                active: None,
                ..old(self).state@
            }),
            final(self).worker_running == old(self).worker_running,
    {
        self.state.state = ScaleConnectionState::Idle;
        self.state.message = "Failed to send connect command.".to_owned();
        self.state.active = None;
    }

    /// Asks to connect to the saved scale.
    pub fn connect_saved_scale(&mut self, telemetry: &mut SharedTelemetry) -> (r: Result<
        ConnectAction,
        String,
    >)
        ensures
            final(self).worker_running == old(self).worker_running,
            match old(self).state@.saved_scale {
                Some(s) => connect_answer(
                    old(self).worker_running,
                    old(self).state@,
                    old(telemetry)@,
                    s.address,
                    final(self).state@,
                    final(telemetry)@,
                    r,
                ),
                None => {
                    &&& final(self).state@ == old(self).state@
                    &&& final(telemetry)@ == old(telemetry)@
                    &&& r matches Err(m) && m@ == "No saved scale configured."@
                },
            },
    {
        let address = match &self.state.saved_scale {
            Some(s) => s.address.clone(),
            None => {
                return Err("No saved scale configured.".to_owned());
            },
        };
        self.connect_address(telemetry, address.as_str())
    }

    /// Asks to disconnect. The scale is then not reconnected by itself.
    pub fn disconnect(&mut self, telemetry: &mut SharedTelemetry) -> (r: Decision)
        ensures
            final(self).worker_running == old(self).worker_running,
            ({
                let before = old(self).state@;
                if !old(self).worker_running {
                    &&& final(self).state@ == before
                    &&& final(telemetry)@ == old(telemetry)@
                    &&& told(r.result) == Err::<Seq<char>, Seq<char>>(
                        "Bluetooth is unavailable on this build."@,
                    )
                    &&& !r.send && !r.cancel_connect
                } else {
                    let after = after_disconnect_request(before);
                    &&& final(self).state@ == after
                    &&& told(r.result) == Ok::<Seq<char>, Seq<char>>(after.message)
                    &&& r.send == can_disconnect(before)
                    &&& r.cancel_connect == in_progress(before.state)
                    &&& final(telemetry)@ == if can_disconnect(before) {
                        cleared(old(telemetry)@)
                    } else {
                        old(telemetry)@
                    }
                }
            }),
    {
        if !self.worker_running {
            return Decision {
                result: Err("Bluetooth is unavailable on this build."),
                cancel_connect: false,
                send: false,
            };
        }
        let was_connecting = self.state.state == ScaleConnectionState::Connecting
            || self.state.state == ScaleConnectionState::Discovering;
        if self.state.active.is_none() && !was_connecting {
            self.state.message = "No scale is connected right now.".to_owned();
            return Decision {
                result: Ok("No scale is connected right now."),
                cancel_connect: false,
                send: false,
            };
        }
        self.state.active = None;
        self.state.state = ScaleConnectionState::Idle;
        self.state.message = "Disconnected.".to_owned();
        self.state.auto_reconnect_suppressed = true;
        self.state.reset_live_values();
        telemetry.clear_scale();
        Decision { result: Ok("Disconnected."), cancel_connect: was_connecting, send: true }
    }

    /// What the reconnect thread does when it wakes: where the saved scale is to be reconnected,
    /// it sends this request.
    pub fn reconnect(&mut self) -> (r: Option<ConnectRequest>)
        ensures
            final(self).worker_running == old(self).worker_running,
            ({
                let before = old(self).state@;
                if should_reconnect(before) {
                    let scale = before.saved_scale->0;
                    &&& r matches Some(request) && request@ == request_for(before, scale)
                    &&& final(self).state@ == connecting(
                        before,
                        scale,
                        "Reconnecting to "@ + types::display_name(scale.name)
                            + " in the background..."@,
                    )
                } else {
                    r is None && final(self).state@ == before
                }
            }),
    {
        let waiting = self.state.state == ScaleConnectionState::Idle || self.state.state
            == ScaleConnectionState::Error;
        if !waiting || self.state.auto_reconnect_suppressed || self.state.active.is_some() {
            return None;
        }
        let scale = match &self.state.saved_scale {
            Some(s) => s.clone(),
            None => {
                return None;
            },
        };
        let message = with_name("Reconnecting to ", scale.name.as_str(), " in the background...");
        Some(begin_connecting(&mut self.state, scale, message))
    }

    /// Takes back a reconnection whose request could not be sent to the worker.
    pub fn reconnect_send_failed(&mut self, connection_id: u64)
        ensures
            final(self).worker_running == old(self).worker_running,
            final(self).state@ == if old(self).state@.is_active(connection_id) {
                ManagerView {
                    state: ScaleConnectionState::Idle,
                    message: "Bluetooth scale idle."@,
                    active: None,
                    ..old(self).state@
                }
            } else {
                old(self).state@
            },
    {
        if self.state.is_active_connection(connection_id) {
            self.state.state = ScaleConnectionState::Idle;
            self.state.message = "Bluetooth scale idle.".to_owned();
            self.state.active = None;
        }
    }
}

/// After a disconnect the scale is not reconnected in the background, and nothing belongs to the
/// old connection any more.
pub proof fn lemma_disconnect_is_final(view: ManagerView, connection_id: u64)
    requires
        can_disconnect(view),
    ensures
        !should_reconnect(after_disconnect_request(view)),
        !after_disconnect_request(view).is_active(connection_id),
{
}

/// Every connection has a number of its own: a request that was superseded is stale.
pub proof fn lemma_superseded_request_is_stale(
    view: ManagerView,
    first: SavedScaleView,
    second: SavedScaleView,
    m1: Seq<char>,
    m2: Seq<char>,
)
    ensures
        ({
            let once = connecting(view, first, m1);
            let twice = connecting((ManagerView { active: None, ..once }), second, m2);
            &&& once.is_active(request_for(view, first).connection_id)
            &&& !twice.is_active(request_for(view, first).connection_id)
        }),
{
}

} // verus!
