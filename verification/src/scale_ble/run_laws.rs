//! What asking for something of the scale, and making a connection, change and leave alone.
use crate::binary32;
use crate::binary32::Binary32;
use crate::ieee;
use crate::scale_ble::nimble;
use crate::scale_ble::nimble::AddressType;
use crate::scale_ble::runtime;
use crate::scale_ble::runtime::{ConnectAction, RequestView};
use crate::scale_ble::types;
use crate::scale_ble::types::{
    DeviceView, ManagerView, SavedScaleView, ScaleConnectionState,
};
use crate::scale_ble::watchdog;
use crate::scale_ble::watchdog::{WatchdogEvent, WatchdogMsg, WatchdogState};
use crate::scale_ble::worker;
use crate::scale_ble::worker::{ConnectPhase, ConnectStep, EventView, RunView};
use crate::scale_weight;
use crate::scale_weight::ScaleProtocol;
use crate::telemetry_feed::TelemetrySnapshot;
use crate::text;
use vstd::prelude::*;

verus! {

/// Whether nothing is known of weight, flow and battery.
pub open spec fn nothing_live(view: ManagerView) -> bool {
    &&& view.weight_g.value() == 0
    &&& view.flow_gps.value() == 0
    &&& view.battery_percent is None
    &&& view.flow_estimator.last_weight_g is None
    &&& view.flow_estimator.last_timestamp_ms is None
}

/// Whether weight, flow and battery are the same.
pub open spec fn same_live(a: ManagerView, b: ManagerView) -> bool {
    &&& a.weight_g == b.weight_g
    &&& a.flow_gps == b.flow_gps
    &&& a.battery_percent == b.battery_percent
    &&& a.flow_estimator == b.flow_estimator
}

/// Whether the readings of the machine, which the scale has no part in, are the same.
pub open spec fn same_machine(a: TelemetrySnapshot, b: TelemetrySnapshot) -> bool {
    &&& a.temperature_c == b.temperature_c
    &&& a.pressure_bar == b.pressure_bar
    &&& a.pressure_psi == b.pressure_psi
    &&& a.recording_active == b.recording_active
}

proof fn lemma_zero()
    ensures
        binary32::zero().value() == 0,
{
    ieee::lemma_magnitude_value_of_zero(0, binary32::HIDDEN_BIT as nat);
}

/// Telemetry without a scale has no weight and no flow, is a new reading, and keeps what the
/// machine's sensors said.
pub proof fn lemma_cleared_telemetry(t: TelemetrySnapshot)
    ensures
        ({
            let after = runtime::cleared(t);
            &&& same_machine(after, t)
            &&& !after.scale_connected
            &&& after.weight_g.value() == 0
            &&& after.flow_gps.value() == 0
            &&& after.seq != t.seq
            &&& t.seq < u64::MAX ==> after.seq == t.seq + 1
        }),
{
    lemma_zero();
}

/// Whether a device is the first of a list with an address.
pub open spec fn first_with(list: Seq<DeviceView>, address: Seq<char>, at: int) -> bool {
    &&& 0 <= at < list.len()
    &&& text::same_ignoring_case(list[at].address, address)
    &&& forall|i: int|
        0 <= i < at ==> !text::same_ignoring_case((#[trigger] list[i]).address, address)
}

proof fn lemma_found_at(list: Seq<DeviceView>, address: Seq<char>, at: int)
    requires
        first_with(list, address, at),
    ensures
        runtime::found(list, address) == Some(list[at]),
    decreases list.len(),
{
    if at > 0 {
        let rest = list.skip(1);
        assert(!text::same_ignoring_case(list[0].address, address));
        assert forall|i: int| 0 <= i < at - 1 implies !text::same_ignoring_case(
            (#[trigger] rest[i]).address,
            address,
        ) by {
            assert(rest[i] == list[i + 1]);
        }
        lemma_found_at(rest, address, at - 1);
    }
}

proof fn lemma_found_nowhere(list: Seq<DeviceView>, address: Seq<char>)
    requires
        forall|i: int|
            0 <= i < list.len() ==> !text::same_ignoring_case(
                (#[trigger] list[i]).address,
                address,
            ),
    ensures
        runtime::found(list, address) is None,
    decreases list.len(),
{
    if list.len() > 0 {
        let rest = list.skip(1);
        assert forall|i: int| 0 <= i < rest.len() implies !text::same_ignoring_case(
            (#[trigger] rest[i]).address,
            address,
        ) by {
            assert(rest[i] == list[i + 1]);
        }
        lemma_found_nowhere(rest, address);
    }
}

/// Asking for an address connects to the first device in the list with it, by that device's own
/// address, name and kind of address.
pub proof fn lemma_listed_device_is_the_target(view: ManagerView, address: Seq<char>, at: int)
    requires
        first_with(view.discovered, address, at),
    ensures
        runtime::target(view, address) matches Some(s) && s.address == view.discovered[at].address
            && s.name == view.discovered[at].name && s.addr_type == view.discovered[at].addr_type,
{
    lemma_found_at(view.discovered, address, at);
}

/// Where no device in the list has the address, the target is the saved scale if it has it, and
/// else there is none.
pub proof fn lemma_saved_scale_is_the_target(view: ManagerView, address: Seq<char>)
    requires
        forall|i: int|
            0 <= i < view.discovered.len() ==> !text::same_ignoring_case(
                (#[trigger] view.discovered[i]).address,
                address,
            ),
    ensures
        view.saved_scale matches Some(s) && text::same_ignoring_case(s.address, address)
            ==> runtime::target(view, address) == view.saved_scale,
        !(view.saved_scale matches Some(s) && text::same_ignoring_case(s.address, address))
            ==> runtime::target(view, address) is None,
{
    lemma_found_nowhere(view.discovered, address);
}

/// A scan starts only with the radio ready and no scale in use. It empties the list, breaks off a
/// connection that is being made, and lets the saved scale be reconnected again; otherwise only
/// the message changes. Either way the saved scale and the numbering of connections stay.
pub proof fn lemma_scan_request(view: ManagerView)
    ensures
        ({
            let after = runtime::after_scan_request(view);
            let starts = view.transport_ready && view.state != ScaleConnectionState::Ready;
            &&& runtime::can_scan(view) == starts
            &&& after.saved_scale == view.saved_scale
            &&& after.next_connection_id == view.next_connection_id
            &&& after.available == view.available
            &&& after.transport_ready == view.transport_ready
            &&& !starts ==> after == (ManagerView { message: after.message, ..view })
            &&& starts ==> {
                &&& after.state == ScaleConnectionState::Scanning
                &&& after.discovered.len() == 0
                &&& !after.auto_reconnect_suppressed
            }
            &&& starts && (view.state == ScaleConnectionState::Connecting || view.state
                == ScaleConnectionState::Discovering) ==> after.active is None && nothing_live(
                after,
            )
            &&& view.state == ScaleConnectionState::Idle || view.state
                == ScaleConnectionState::Error || view.state == ScaleConnectionState::Scanning
                ==> after.active == view.active && same_live(after, view)
        }),
{
    lemma_zero();
}

/// A request for a connection names the scale that is wanted and carries the number of the
/// connection that is then being made. Weight, flow and battery start anew, the list and the
/// saved scale stay, and the number is not used for the next connection.
pub proof fn lemma_connection_is_requested(
    view: ManagerView,
    scale: SavedScaleView,
    message: Seq<char>,
)
    ensures
        ({
            let after = runtime::connecting(view, scale, message);
            let request = runtime::request_for(view, scale);
            &&& request.address == scale.address
            &&& request.addr_type == scale.addr_type
            &&& request.name == scale.name
            &&& after.is_active(request.connection_id)
            &&& after.active matches Some(a) && a.address == scale.address && a.name == scale.name
                && a.protocol == ScaleProtocol::Unknown
            &&& after.state == ScaleConnectionState::Connecting
            &&& after.message == message
            &&& nothing_live(after)
            &&& after.discovered == view.discovered
            &&& after.saved_scale == view.saved_scale
            &&& after.auto_reconnect_suppressed == view.auto_reconnect_suppressed
            &&& after.transport_ready == view.transport_ready
            &&& after.next_connection_id != request.connection_id
            &&& after.next_connection_id != 0
            &&& view.next_connection_id < u64::MAX ==> after.next_connection_id
                == view.next_connection_id + 1
        }),
{
    lemma_zero();
}

/// A disconnect ends a connection that is made or being made, forgets its readings and keeps the
/// scale from being reconnected; without one only the message changes.
pub proof fn lemma_disconnect_request(view: ManagerView)
    ensures
        ({
            let after = runtime::after_disconnect_request(view);
            let ends = view.active is Some || view.state == ScaleConnectionState::Connecting
                || view.state == ScaleConnectionState::Discovering;
            &&& runtime::can_disconnect(view) == ends
            &&& after.saved_scale == view.saved_scale
            &&& after.discovered == view.discovered
            &&& after.next_connection_id == view.next_connection_id
            &&& !ends ==> after == (ManagerView { message: after.message, ..view })
            &&& ends ==> {
                &&& after.active is None
                &&& after.state == ScaleConnectionState::Idle
                &&& after.auto_reconnect_suppressed
                &&& nothing_live(after)
            }
        }),
{
    lemma_zero();
}

/// The saved scale is reconnected by itself only where there is one, nothing is going on, and the
/// user has not disconnected.
pub proof fn lemma_reconnection_waits(view: ManagerView)
    ensures
        runtime::should_reconnect(view) ==> view.saved_scale is Some && view.active is None
            && !view.auto_reconnect_suppressed && view.state != ScaleConnectionState::Scanning
            && view.state != ScaleConnectionState::Connecting && view.state
            != ScaleConnectionState::Discovering && view.state != ScaleConnectionState::Ready,
        view.saved_scale is Some && view.active is None && !view.auto_reconnect_suppressed && (
        view.state == ScaleConnectionState::Idle || view.state == ScaleConnectionState::Error)
            ==> runtime::should_reconnect(view),
{
}

/// A run for a connection changes neither the list nor the saved scale nor the numbering, and of
/// the telemetry only what is said of the scale.
pub proof fn lemma_run_keeps_to_itself(
    before: RunView,
    request: RequestView,
    phase: ConnectPhase,
    event: EventView,
)
    ensures
        ({
            let after = worker::stepped(before, request, phase, event).0;
            &&& after.manager.discovered == before.manager.discovered
            &&& after.manager.saved_scale == before.manager.saved_scale
            &&& after.manager.next_connection_id == before.manager.next_connection_id
            &&& after.manager.auto_reconnect_suppressed == before.manager.auto_reconnect_suppressed
            &&& after.manager.transport_ready == before.manager.transport_ready
            &&& after.manager.available == before.manager.available
            &&& after.manager.weight_g == before.manager.weight_g
            &&& after.manager.flow_gps == before.manager.flow_gps
            &&& same_machine(after.telemetry, before.telemetry)
        }),
{
}

/// A connection is kept exactly where its weight channel was found while it was still wanted. It
/// is then ready under its own number, address and name with the protocol that was found, and
/// the telemetry says that there is a scale.
pub proof fn lemma_kept_connection_is_ready(
    before: RunView,
    request: RequestView,
    phase: ConnectPhase,
    event: EventView,
)
    ensures
        ({
            let (after, next, step) = worker::stepped(before, request, phase, event);
            let found = phase == ConnectPhase::Discovering && event is Discovered
                && event->Discovered_0 is Ok && before.manager.is_active(request.connection_id);
            &&& step == ConnectStep::Keep <==> found
            &&& found ==> {
                let a = before.manager.active->0;
                let b = after.manager.active->0;
                &&& after.manager.active is Some
                &&& b.id == a.id && b.address == a.address && b.name == a.name
                &&& b.protocol == event->Discovered_0->Ok_0
                &&& after.manager.state == ScaleConnectionState::Ready
                &&& after.manager.battery_percent is None
                &&& after.telemetry.scale_connected
                &&& after.telemetry.weight_g.value() == 0
                &&& after.telemetry.flow_gps.value() == 0
                &&& after.telemetry.seq != before.telemetry.seq
                &&& next == ConnectPhase::Over
            }
        }),
{
    lemma_zero();
}

/// A run that is over without its connection kept leaves none behind: what was wanted is no
/// longer being made.
pub proof fn lemma_failed_run_leaves_no_connection(
    before: RunView,
    request: RequestView,
    phase: ConnectPhase,
    event: EventView,
)
    requires
        phase == ConnectPhase::Searching && event is SearchDone || phase is Attempting
            && event is AttemptDone || phase is Pausing && event is PauseOver || phase
            == ConnectPhase::Discovering && event is Discovered,
    ensures
        ({
            let (after, next, step) = worker::stepped(before, request, phase, event);
            &&& next == ConnectPhase::Over && step != ConnectStep::Keep
                ==> !after.manager.is_active(request.connection_id)
            &&& next != ConnectPhase::Over ==> after.manager.active == before.manager.active
                && after.telemetry == before.telemetry
            &&& step == ConnectStep::Drop ==> phase == ConnectPhase::Discovering || event
                == EventView::AttemptDone(true)
        }),
{
}

/// Up to nine attempts that fail are followed by another one, after a pause; the tenth is the
/// last. One that succeeds is followed by the search for the weight channel.
pub proof fn lemma_ten_attempts(before: RunView, request: RequestView, n: u32)
    requires
        before.manager.is_active(request.connection_id),
        1 <= n <= 10,
    ensures
        ({
            let failed = worker::stepped(
                before,
                request,
                ConnectPhase::Attempting(n),
                EventView::AttemptDone(false),
            );
            let joined = worker::stepped(
                before,
                request,
                ConnectPhase::Attempting(n),
                EventView::AttemptDone(true),
            );
            let again = worker::stepped(
                before,
                request,
                ConnectPhase::Pausing(n),
                EventView::PauseOver,
            );
            &&& n < 10 ==> failed.1 == ConnectPhase::Pausing((n + 1) as u32) && failed.2
                == ConnectStep::Pause && failed.0 == before
            &&& n == 10 ==> failed.1 == ConnectPhase::Over && failed.2 == ConnectStep::Stop
                && failed.0.manager.active is None && failed.0.manager.state
                == ScaleConnectionState::Idle && !failed.0.telemetry.scale_connected
            &&& joined.1 == ConnectPhase::Discovering && joined.2 == ConnectStep::Discover
                && joined.0.manager.state == ScaleConnectionState::Discovering
            &&& again.1 == ConnectPhase::Attempting(n) && again.2 == ConnectStep::Attempt
        }),
{
}

/// The search decides whether a connection is attempted at all: the first attempt follows where
/// the scale is there, and else the run is over with nothing wrong.
pub proof fn lemma_search_comes_first(before: RunView, request: RequestView, address_valid: bool)
    requires
        before.manager.is_active(request.connection_id),
    ensures
        ({
            let begun = worker::begun(before.manager, request, address_valid);
            let there = worker::stepped(
                before,
                request,
                ConnectPhase::Searching,
                EventView::SearchDone(true),
            );
            let gone = worker::stepped(
                before,
                request,
                ConnectPhase::Searching,
                EventView::SearchDone(false),
            );
            &&& address_valid ==> begun.1 == ConnectPhase::Searching && begun.2
                == ConnectStep::Search && begun.0.active == before.manager.active
            &&& !address_valid ==> begun.1 == ConnectPhase::Over && begun.2 == ConnectStep::Stop
                && begun.0.active is None && begun.0.state == ScaleConnectionState::Error
            &&& there.1 == ConnectPhase::Attempting(1) && there.2 == ConnectStep::Attempt
            &&& gone.1 == ConnectPhase::Over && gone.2 == ConnectStep::Stop
                && gone.0.manager.active is None && gone.0.manager.state
                == ScaleConnectionState::Idle && gone.0.telemetry == before.telemetry
        }),
{
}

/// A weight that comes in over the connection in use is shown as it came, and in the telemetry
/// where it is a number above zero, else as zero there. Both have the same flow, the one that
/// the estimator reports, and the machine's readings stay.
pub proof fn lemma_weight_is_passed_on(
    before: RunView,
    connection_id: u64,
    protocol: ScaleProtocol,
    data: Seq<u8>,
    now_ms: u64,
    w: Binary32,
)
    requires
        before.manager.is_active(connection_id),
        scale_weight::weight(protocol, data, before.manager.weight_g) == Some(w),
    ensures
        ({
            let after = worker::channel_read(before, connection_id, protocol, data, now_ms);
            &&& after.manager.weight_g == w
            &&& w.finite() && w.value() > 0 ==> after.telemetry.weight_g == w
            &&& !(w.finite() && w.value() > 0) ==> after.telemetry.weight_g.value() == 0
            &&& after.manager.flow_gps == after.telemetry.flow_gps
            &&& after.manager.flow_gps == before.manager.flow_estimator.reported(w, now_ms)
            &&& after.telemetry.scale_connected
            &&& after.telemetry.seq != before.telemetry.seq
            &&& same_machine(after.telemetry, before.telemetry)
            &&& after.manager.active == before.manager.active
            &&& after.manager.battery_percent == before.manager.battery_percent
            &&& after.manager.saved_scale == before.manager.saved_scale
            &&& after.manager.discovered == before.manager.discovered
        }),
{
    crate::weight_laws::lemma_good_weight_is_kept(w);
}

/// Bytes that hold no weight change nothing.
pub proof fn lemma_other_bytes_change_nothing(
    before: RunView,
    connection_id: u64,
    protocol: ScaleProtocol,
    data: Seq<u8>,
    now_ms: u64,
)
    requires
        scale_weight::weight(protocol, data, before.manager.weight_g) is None,
    ensures
        worker::channel_read(before, connection_id, protocol, data, now_ms) == before,
{
}

/// A device that a scan found is noted with its own address, signal and kind of address, and by
/// its name where it gives one, else by its address.
pub proof fn lemma_seen_device(
    address: Seq<char>,
    addr_type: AddressType,
    name: Option<Seq<u8>>,
    rssi: i32,
)
    ensures
        ({
            let d = worker::seen_device(address, addr_type, name, rssi);
            &&& d.address == address
            &&& d.rssi == rssi
            &&& d.addr_type == nimble::address_type_name(addr_type)
            &&& match name {
                Some(b) => if vstd::utf8::valid_utf8(b) && text::trimmed(
                    vstd::utf8::decode_utf8(b),
                ).len() > 0 {
                    d.name == text::trimmed(vstd::utf8::decode_utf8(b))
                } else {
                    d.name == address
                },
                None => d.name == address,
            }
            &&& d.scale_like == types::scale_like(d.name)
        }),
{
}

/// Every device with a name is noted, and every one from -88 on; a device is never noted as one
/// that is seen from itself.
pub proof fn lemma_what_is_noted(own_address: Option<Seq<char>>, device: DeviceView)
    ensures
        own_address is Some && text::same_ignoring_case(own_address->0, device.address)
            ==> !worker::is_noted(own_address, device),
        (own_address is None || !text::same_ignoring_case(own_address->0, device.address)) && (
        device.name != device.address || device.rssi >= -88 || device.scale_like)
            ==> worker::is_noted(own_address, device),
        device.name == device.address && device.rssi < -88 && !device.scale_like
            ==> !worker::is_noted(own_address, device),
{
}

/// What the web interface shows is what is known: each value under its own name, and each device
/// in its place, marked where it is the saved scale.
pub proof fn lemma_what_is_shown(view: ManagerView, i: int)
    ensures
        ({
            let s = view.shown();
            &&& s.available == view.available
            &&& s.message == view.message
            &&& s.state == view.state.name()
            &&& view.active matches Some(a) ==> s.protocol == a.protocol.name()
            &&& view.active is None ==> s.protocol == "unknown"@
            &&& s.weight_g == view.weight_g
            &&& s.flow_gps == view.flow_gps
            &&& s.battery_percent == view.battery_percent
            &&& s.saved_scale == view.saved_scale
            &&& view.active matches Some(a) ==> s.connected_name == a.name && s.connected_address
                == a.address
            &&& view.active is None ==> s.connected_name.len() == 0 && s.connected_address.len()
                == 0
            &&& s.devices.len() == view.discovered.len()
            &&& 0 <= i < view.discovered.len() ==> {
                let d = view.discovered[i];
                let shown = s.devices[i];
                &&& shown.address == d.address
                &&& shown.name == d.name
                &&& shown.address_type == d.addr_type
                &&& shown.rssi == d.rssi
                &&& shown.protocol_hint == d.protocol_hint.name()
                &&& shown.saved <==> (view.saved_scale matches Some(saved)
                    && text::same_ignoring_case(saved.address, d.address))
            }
        }),
{
}

/// How a request to connect is answered: without a worker nothing changes and it is refused. With
/// a scale in use it goes to that scale, or is refused where it asks for another one, and the
/// connection stays. Without one it is refused where no scale with the address is known; else the
/// worker is asked for that scale, and the telemetry has none until it is connected. A request
/// that reaches the worker's side lets the saved scale be reconnected again.
pub proof fn lemma_connect_is_answered(
    running: bool,
    before: ManagerView,
    feed: TelemetrySnapshot,
    address: Seq<char>,
    after: ManagerView,
    feed_after: TelemetrySnapshot,
    r: Result<ConnectAction, String>,
)
    requires
        runtime::connect_answer(running, before, feed, address, after, feed_after, r),
    ensures
        !running ==> r is Err && after == before && feed_after == feed,
        running ==> !after.auto_reconnect_suppressed,
        running && before.active is Some ==> after.active == before.active && after.state
            == before.state && same_live(after, before) && feed_after == feed,
        running && before.active is Some ==> (r is Ok <==> text::same_ignoring_case(
            before.active->0.address,
            address,
        )),
        r matches Ok(ConnectAction::Already(_)) ==> before.active is Some,
        r matches Ok(ConnectAction::Connect(request, m)) ==> before.active is None && after.is_active(
            request.connection_id,
        ) && (runtime::target(before, address) matches Some(s) && request.address_text@ == s.address
            && request.addr_type_str@ == s.addr_type && request.name@ == s.name
            && request.connection_id == before.next_connection_id) && m@ == after.message
            && !feed_after.scale_connected && same_machine(feed_after, feed) && nothing_live(after),
        running && before.active is None ==> (r is Ok <==> runtime::target(before, address) is Some),
        running && r is Err ==> after.active == before.active && feed_after == feed,
        after.saved_scale == before.saved_scale,
        after.discovered == before.discovered,
{
    lemma_zero();
}

/// A watchdog that is told to quit, or whose sender is gone, is gone for good; arming it starts
/// the count anew, and an attempt that is done stops it.
pub proof fn lemma_watchdog_obeys(state: WatchdogState, event: WatchdogEvent, timeout_ms: u32)
    ensures
        watchdog::next(WatchdogState::Gone, event, timeout_ms) == (WatchdogState::Gone, false),
        watchdog::next(state, WatchdogEvent::Closed, timeout_ms) == (WatchdogState::Gone, false),
        watchdog::next(state, WatchdogEvent::Message(WatchdogMsg::Quit), timeout_ms) == (
            WatchdogState::Gone,
            false,
        ),
        state != WatchdogState::Gone && timeout_ms > 0 ==> watchdog::next(
            state,
            WatchdogEvent::Message(WatchdogMsg::Arm),
            timeout_ms,
        ) == (WatchdogState::Counting(0), false),
        state != WatchdogState::Gone ==> watchdog::next(
            state,
            WatchdogEvent::Message(WatchdogMsg::Done),
            timeout_ms,
        ) == (WatchdogState::Waiting, false),
        state == WatchdogState::Waiting ==> watchdog::next(state, WatchdogEvent::Tick, timeout_ms)
            == (WatchdogState::Waiting, false),
        state matches WatchdogState::Counting(n) ==> (watchdog::next(
            state,
            WatchdogEvent::Tick,
            timeout_ms,
        ).1 <==> n + 200 >= timeout_ms),
{
}

/// A scale in a message goes by its name, or as the selected scale where its name is blank.
pub proof fn lemma_displayed_name(front: Seq<char>, c: char, back: Seq<char>, blank: Seq<char>)
    requires
        !text::is_white(c),
        forall|i: int| 0 <= i < blank.len() ==> text::is_white(#[trigger] blank[i]),
    ensures
        types::display_name(front + seq![c] + back) == front + seq![c] + back,
        types::display_name(blank) == "selected scale"@,
{
    let none = Seq::<char>::empty();
    assert(blank + none + none =~= blank);
    crate::wifi_provision::form_laws::lemma_only_white_space_is_trimmed(blank, none, none);
    lemma_something_is_left(front, c, back);
}

proof fn lemma_something_is_left(front: Seq<char>, c: char, back: Seq<char>)
    requires
        !text::is_white(c),
    ensures
        text::trimmed(front + seq![c] + back).len() > 0,
    decreases front.len() + back.len(),
{
    let s = front + seq![c] + back;
    if front.len() > 0 && text::is_white(front[0]) {
        assert(s[0] == front[0]);
        assert(s.skip(1) =~= front.skip(1) + seq![c] + back);
        lemma_something_is_left(front.skip(1), c, back);
    } else {
        assert(!text::is_white(s[0])) by {
            if front.len() > 0 {
                assert(s[0] == front[0]);
            } else {
                assert(s[0] == c);
            }
        }
        assert(text::trimmed_front(s) == s);
        if back.len() > 0 && text::is_white(back.last()) {
            assert(s.last() == back.last());
            let shorter = front + seq![c] + back.drop_last();
            assert(s.drop_last() =~= shorter);
            lemma_something_is_left(front, c, back.drop_last());
            assert(shorter[0] == s[0]);
            assert(text::trimmed_front(shorter) == shorter);
        } else {
            assert(!text::is_white(s.last())) by {
                if back.len() > 0 {
                    assert(s.last() == back.last());
                } else {
                    assert(s.last() == c);
                }
            }
        }
    }
}

} // verus!
