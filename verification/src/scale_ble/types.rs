//! What is known of the scale, and the list of scales in reach.
use crate::binary32;
use crate::binary32::Binary32;
use crate::scale_weight::ScaleProtocol;
use crate::telemetry_math::FlowEstimator;
use crate::text;
use vstd::prelude::*;
use vstd::string::*;

verus! {

/// How far the connection to the scale has got.
#[derive(Debug, Clone, Copy, PartialEq, Eq, Structural)]
pub enum ScaleConnectionState {
    Idle,
    Scanning,
    Connecting,
    Discovering,
    Ready,
    Error,
}

impl ScaleConnectionState {
    /// The state's name.
    pub open spec fn name(self) -> Seq<char> {
        match self {
            ScaleConnectionState::Idle => "idle"@,
            ScaleConnectionState::Scanning => "scanning"@,
            ScaleConnectionState::Connecting => "connecting"@,
            ScaleConnectionState::Discovering => "discovering"@,
            ScaleConnectionState::Ready => "ready"@,
            ScaleConnectionState::Error => "error"@,
        }
    }

    /// The state's name.
    pub fn as_str(self) -> (r: &'static str)
        ensures
            r@ == self.name(),
    {
        match self {
            ScaleConnectionState::Idle => "idle",
            ScaleConnectionState::Scanning => "scanning",
            ScaleConnectionState::Connecting => "connecting",
            ScaleConnectionState::Discovering => "discovering",
            ScaleConnectionState::Ready => "ready",
            ScaleConnectionState::Error => "error",
        }
    }
}

/// The scale that is reconnected to.
#[derive(Debug)]
pub struct SavedScale {
    pub address: String,
    pub name: String,
    pub addr_type: String,
}

/// What a saved scale holds.
pub struct SavedScaleView {
    pub address: Seq<char>,
    pub name: Seq<char>,
    pub addr_type: Seq<char>,
}

impl View for SavedScale {
    type V = SavedScaleView;

    open spec fn view(&self) -> SavedScaleView {
        SavedScaleView {
            address: self.address@,
            name: self.name@,
            addr_type: self.addr_type@,
        }
    }
}

impl Clone for SavedScale {
    fn clone(&self) -> (r: Self)
        ensures
            r@ == self@,
    {
        SavedScale {
            address: self.address.clone(),
            name: self.name.clone(),
            addr_type: self.addr_type.clone(),
        }
    }
}

/// A scale in reach, as the web interface shows it.
#[derive(Debug)]
pub struct DiscoveredScale {
    pub address: String,
    pub name: String,
    pub address_type: String,
    pub rssi: i32,
    pub protocol_hint: &'static str,
    pub saved: bool,
}

/// What the web interface shows of a scale in reach.
pub struct DiscoveredScaleView {
    pub address: Seq<char>,
    pub name: Seq<char>,
    pub address_type: Seq<char>,
    pub rssi: i32,
    pub protocol_hint: Seq<char>,
    pub saved: bool,
}

impl View for DiscoveredScale {
    type V = DiscoveredScaleView;

    open spec fn view(&self) -> DiscoveredScaleView {
        DiscoveredScaleView {
            address: self.address@,
            name: self.name@,
            address_type: self.address_type@,
            rssi: self.rssi,
            protocol_hint: self.protocol_hint@,
            saved: self.saved,
        }
    }
}

/// The views of some scales in reach.
pub open spec fn shown_devices(devices: Seq<DiscoveredScale>) -> Seq<DiscoveredScaleView> {
    devices.map_values(|d: DiscoveredScale| d@)
}

/// The state of the scale, as the web interface shows it.
#[derive(Debug)]
pub struct ScaleStatusSnapshot {
    pub available: bool,
    pub state: &'static str,
    pub message: String,
    pub connected_name: String,
    pub connected_address: String,
    pub protocol: &'static str,
    pub weight_g: Binary32,
    pub flow_gps: Binary32,
    pub battery_percent: Option<u8>,
    pub saved_scale: Option<SavedScale>,
    pub devices: Vec<DiscoveredScale>,
}

/// What the web interface shows of the scale.
#[verifier::ext_equal]
pub struct ScaleStatusView {
    pub available: bool,
    pub state: Seq<char>,
    pub message: Seq<char>,
    pub connected_name: Seq<char>,
    pub connected_address: Seq<char>,
    pub protocol: Seq<char>,
    pub weight_g: Binary32,
    pub flow_gps: Binary32,
    pub battery_percent: Option<u8>,
    pub saved_scale: Option<SavedScaleView>,
    pub devices: Seq<DiscoveredScaleView>,
}

/// A saved scale, if there is one.
pub open spec fn saved_view(saved: Option<SavedScale>) -> Option<SavedScaleView> {
    match saved {
        Some(s) => Some(s@),
        None => None,
    }
}

impl View for ScaleStatusSnapshot {
    type V = ScaleStatusView;

    open spec fn view(&self) -> ScaleStatusView {
        ScaleStatusView {
            available: self.available,
            state: self.state@,
            message: self.message@,
            connected_name: self.connected_name@,
            connected_address: self.connected_address@,
            protocol: self.protocol@,
            weight_g: self.weight_g,
            flow_gps: self.flow_gps,
            battery_percent: self.battery_percent,
            saved_scale: saved_view(self.saved_scale),
            devices: shown_devices(self.devices@),
        }
    }
}

/// A device in reach.
#[derive(Debug)]
pub struct DiscoveredScaleInternal {
    pub address_text: String,
    pub addr_type_str: String,
    pub name: String,
    pub rssi: i32,
    pub protocol_hint: ScaleProtocol,
    pub scale_like: bool,
}

/// What is known of a device in reach.
pub struct DeviceView {
    pub address: Seq<char>,
    pub addr_type: Seq<char>,
    pub name: Seq<char>,
    pub rssi: i32,
    pub protocol_hint: ScaleProtocol,
    pub scale_like: bool,
}

impl View for DiscoveredScaleInternal {
    type V = DeviceView;

    open spec fn view(&self) -> DeviceView {
        DeviceView {
            address: self.address_text@,
            addr_type: self.addr_type_str@,
            name: self.name@,
            rssi: self.rssi,
            protocol_hint: self.protocol_hint,
            scale_like: self.scale_like,
        }
    }
}

/// The views of some devices.
pub open spec fn device_views(devices: Seq<DiscoveredScaleInternal>) -> Seq<DeviceView> {
    devices.map_values(|d: DiscoveredScaleInternal| d@)
}

/// The connection that is being made or is in use. What belongs to another one is stale.
#[derive(Debug)]
pub struct ActiveScaleConnection {
    pub id: u64,
    pub address_text: String,
    pub name: String,
    pub protocol: ScaleProtocol,
}

/// What is known of the connection.
pub struct ConnectionView {
    pub id: u64,
    pub address: Seq<char>,
    pub name: Seq<char>,
    pub protocol: ScaleProtocol,
}

impl View for ActiveScaleConnection {
    type V = ConnectionView;

    open spec fn view(&self) -> ConnectionView {
        ConnectionView {
            id: self.id,
            address: self.address_text@,
            name: self.name@,
            protocol: self.protocol,
        }
    }
}

/// Everything that is known of the scale.
#[derive(Debug)]
pub struct ScaleManagerState {
    pub available: bool,
    pub state: ScaleConnectionState,
    pub message: String,
    pub transport_ready: bool,
    pub discovered: Vec<DiscoveredScaleInternal>,
    pub active: Option<ActiveScaleConnection>,
    pub saved_scale: Option<SavedScale>,
    pub auto_reconnect_suppressed: bool,
    pub weight_g: Binary32,
    pub flow_gps: Binary32,
    pub battery_percent: Option<u8>,
    pub flow_estimator: FlowEstimator,
    pub next_connection_id: u64,
}

/// Everything that is known of the scale.
#[verifier::ext_equal]
pub struct ManagerView {
    pub available: bool,
    pub state: ScaleConnectionState,
    pub message: Seq<char>,
    pub transport_ready: bool,
    pub discovered: Seq<DeviceView>,
    pub active: Option<ConnectionView>,
    pub saved_scale: Option<SavedScaleView>,
    pub auto_reconnect_suppressed: bool,
    pub weight_g: Binary32,
    pub flow_gps: Binary32,
    pub battery_percent: Option<u8>,
    pub flow_estimator: FlowEstimator,
    pub next_connection_id: u64,
}

impl View for ScaleManagerState {
    type V = ManagerView;

    open spec fn view(&self) -> ManagerView {
        ManagerView {
            available: self.available,
            state: self.state,
            message: self.message@,
            transport_ready: self.transport_ready,
            discovered: device_views(self.discovered@),
            active: match self.active {
                Some(a) => Some(a@),
                None => None,
            },
            saved_scale: saved_view(self.saved_scale),
            auto_reconnect_suppressed: self.auto_reconnect_suppressed,
            weight_g: self.weight_g,
            flow_gps: self.flow_gps,
            battery_percent: self.battery_percent,
            flow_estimator: self.flow_estimator,
            next_connection_id: self.next_connection_id,
        }
    }
}

/// The number that follows `id`; it is never 0.
pub open spec fn connection_id_after(id: u64) -> u64 {
    if id == u64::MAX {
        1
    } else {
        (id + 1) as u64
    }
}

impl ManagerView {
    /// What is known before anything happened.
    pub open spec fn initial(available: bool, message: Seq<char>) -> ManagerView {
        ManagerView {
            available,
            state: ScaleConnectionState::Idle,
            message,
            transport_ready: false,
            discovered: seq![],
            active: None,
            saved_scale: None,
            auto_reconnect_suppressed: false,
            weight_g: binary32::zero(),
            flow_gps: binary32::zero(),
            battery_percent: None,
            flow_estimator: FlowEstimator::fresh(),
            next_connection_id: 1,
        }
    }

    /// The same without weight, flow and battery.
    pub open spec fn without_live_values(self) -> ManagerView {
        ManagerView {
            weight_g: binary32::zero(),
            flow_gps: binary32::zero(),
            battery_percent: None,
            flow_estimator: FlowEstimator::fresh(),
            ..self
        }
    }

    /// Whether a connection is the one that is being made or in use.
    pub open spec fn is_active(self, connection_id: u64) -> bool {
        self.active matches Some(a) && a.id == connection_id
    }

    /// Whether a device is the saved scale.
    pub open spec fn is_saved(self, device: DeviceView) -> bool {
        self.saved_scale matches Some(s) && text::same_ignoring_case(s.address, device.address)
    }

    /// A device in reach, as the web interface shows it.
    pub open spec fn shown_device(self, device: DeviceView) -> DiscoveredScaleView {
        DiscoveredScaleView {
            address: device.address,
            name: device.name,
            address_type: device.addr_type,
            rssi: device.rssi,
            protocol_hint: device.protocol_hint.name(),
            saved: self.is_saved(device),
        }
    }

    /// What the web interface shows.
    pub open spec fn shown(self) -> ScaleStatusView {
        ScaleStatusView {
            available: self.available,
            state: self.state.name(),
            message: self.message,
            connected_name: match self.active {
                Some(a) => a.name,
                None => Seq::empty(),
            },
            connected_address: match self.active {
                Some(a) => a.address,
                None => Seq::empty(),
            },
            protocol: match self.active {
                Some(a) => a.protocol.name(),
                None => ScaleProtocol::Unknown.name(),
            },
            weight_g: self.weight_g,
            flow_gps: self.flow_gps,
            battery_percent: self.battery_percent,
            saved_scale: self.saved_scale,
            devices: self.discovered.map_values(|d: DeviceView| self.shown_device(d)),
        }
    }
}

impl ScaleManagerState {
    /// What is known before anything happened.
    pub fn new(available: bool, message: String) -> (r: Self)
        ensures
            r@ == ManagerView::initial(available, message@),
    {
        let r = ScaleManagerState {
            available,
            state: ScaleConnectionState::Idle,
            message,
            transport_ready: false,
            discovered: Vec::new(),
            active: None,
            saved_scale: None,
            auto_reconnect_suppressed: false,
            weight_g: Binary32::from_bits(0),
            flow_gps: Binary32::from_bits(0),
            battery_percent: None,
            flow_estimator: FlowEstimator::new(),
            next_connection_id: 1,
        };
        assert(r@.discovered =~= seq![]);
        r
    }

    fn show_device(&self, d: &DiscoveredScaleInternal) -> (r: DiscoveredScale)
        ensures
            r@ == self@.shown_device(d@),
    {
        let saved = match &self.saved_scale {
            Some(s) => text::eq_ignore_case(s.address.as_str(), d.address_text.as_str()),
            None => false,
        };
        DiscoveredScale {
            address: d.address_text.clone(),
            name: d.name.clone(),
            address_type: d.addr_type_str.clone(),
            rssi: d.rssi,
            protocol_hint: d.protocol_hint.as_str(),
            saved,
        }
    }

    /// What the web interface shows.
    pub fn snapshot(&self) -> (r: ScaleStatusSnapshot)
        ensures
            r@ == self@.shown(),
    {
        let (connected_name, connected_address, protocol): (String, String, &'static str) =
            match &self.active {
            Some(a) => (a.name.clone(), a.address_text.clone(), a.protocol.as_str()),
            None => (String::new(), String::new(), ScaleProtocol::Unknown.as_str()),
        };
        let ghost all = self@.discovered.map_values(|d: DeviceView| self@.shown_device(d));
        let mut devices: Vec<DiscoveredScale> = Vec::new();
        let mut i: usize = 0;
        while i < self.discovered.len()
            invariant
                i <= self.discovered.len(),
                all == self@.discovered.map_values(|d: DeviceView| self@.shown_device(d)),
                shown_devices(devices@) == all.take(i as int),
            decreases self.discovered.len() - i,
        {
            let device = self.show_device(&self.discovered[i]);
            let ghost before = devices@;
            devices.push(device);
            assert(shown_devices(devices@) =~= shown_devices(before).push(device@));
            assert(all.take(i + 1) =~= all.take(i as int).push(all[i as int]));
            i = i + 1;
        }
        assert(all.take(i as int) =~= all);
        let saved_scale = match &self.saved_scale {
            Some(s) => Some(s.clone()),
            None => None,
        };
        ScaleStatusSnapshot {
            available: self.available,
            state: self.state.as_str(),
            message: self.message.clone(),
            connected_name,
            connected_address,
            protocol,
            weight_g: self.weight_g,
            flow_gps: self.flow_gps,
            battery_percent: self.battery_percent,
            saved_scale,
            devices,
        }
    }

    /// Forgets weight, flow and battery.
    pub fn reset_live_values(&mut self)
        ensures
            final(self)@ == old(self)@.without_live_values(),
    {
        self.weight_g = Binary32::from_bits(0);
        self.flow_gps = Binary32::from_bits(0);
        self.battery_percent = None;
        self.flow_estimator.reset();
    }

    /// A number for a new connection.
    pub fn allocate_connection_id(&mut self) -> (r: u64)
        ensures
            r == old(self)@.next_connection_id,
            final(self)@ == (ManagerView {
                next_connection_id: connection_id_after(old(self)@.next_connection_id),
                ..old(self)@
            }),
    {
        let id: u64 = self.next_connection_id;
        self.next_connection_id = if id == u64::MAX {
            1
        } else {
            id + 1
        };
        id
    }

    /// Whether a connection is the one that is being made or in use.
    pub fn is_active_connection(&self, connection_id: u64) -> (r: bool)
        ensures
            r == self@.is_active(connection_id),
    {
        match &self.active {
            Some(a) => a.id == connection_id,
            None => false,
        }
    }
}

/// How many devices in reach are kept.
pub const MAX_DISCOVERED_SCALES: usize = 18;

/// The name that is shown: blank names have a stand-in.
pub open spec fn display_name(name: Seq<char>) -> Seq<char> {
    if text::trimmed(name).len() == 0 {
        "selected scale"@
    } else {
        name
    }
}

/// The name that is shown.
pub fn display_scale_name(name: &str) -> (r: &str)
    ensures
        r@ == display_name(name@),
{
    let trimmed = text::trim(name);
    if trimmed.as_str().is_empty() {
        "selected scale"
    } else {
        name
    }
}

/// Whether a name has one of the words in it that the names of scales have.
pub open spec fn scale_like(name: Seq<char>) -> bool {
    let low = text::lower(name);
    ||| text::occurs_in(low, "scale"@)
    ||| text::occurs_in(low, "acaia"@)
    ||| text::occurs_in(low, "felicita"@)
    ||| text::occurs_in(low, "pearl"@)
    ||| text::occurs_in(low, "lunar"@)
    ||| text::occurs_in(low, "decent"@)
    ||| text::occurs_in(low, "timemore"@)
    ||| text::occurs_in(low, "mirror"@)
    ||| text::occurs_in(low, "bookoo"@)
    ||| text::occurs_in(low, "atomax"@)
}

/// Whether a name is like that of a scale.
pub fn is_scale_like_name(name: &str) -> (r: bool)
    ensures
        r == scale_like(name@),
{
    let lowered = text::to_lower(name);
    let low = lowered.as_str();
    text::contains_text(low, "scale") || text::contains_text(low, "acaia") || text::contains_text(
        low,
        "felicita",
    ) || text::contains_text(low, "pearl") || text::contains_text(low, "lunar")
        || text::contains_text(low, "decent") || text::contains_text(low, "timemore")
        || text::contains_text(low, "mirror") || text::contains_text(low, "bookoo")
        || text::contains_text(low, "atomax")
}

/// Whether `a` is listed before `b`: likely scales first, then strong signals, then by name.
pub open spec fn listed_before(a: DeviceView, b: DeviceView) -> bool {
    if a.scale_like != b.scale_like {
        a.scale_like
    } else if a.rssi != b.rssi {
        a.rssi > b.rssi
    } else {
        text::text_before(a.name, b.name)
    }
}

/// A list in order with one more device, behind those it is not listed before.
pub open spec fn listed(list: Seq<DeviceView>, device: DeviceView) -> Seq<DeviceView>
    decreases list.len(),
{
    if list.len() == 0 || !listed_before(device, list.last()) {
        list.push(device)
    } else {
        listed(list.drop_last(), device).push(list.last())
    }
}

/// A list put in order. Devices that are listed alike keep their order.
pub open spec fn in_order(list: Seq<DeviceView>) -> Seq<DeviceView>
    decreases list.len(),
{
    if list.len() == 0 {
        seq![]
    } else {
        listed(in_order(list.drop_last()), list.last())
    }
}

/// Whether a device has a name of its own, not just its address.
pub open spec fn has_name(device: DeviceView) -> bool {
    device.name != device.address
}

/// What is known of a device after it was seen again.
pub open spec fn seen_again(known: DeviceView, seen: DeviceView) -> DeviceView {
    DeviceView {
        address: known.address,
        addr_type: seen.addr_type,
        name: if has_name(seen) || !has_name(known) {
            seen.name
        } else {
            known.name
        },
        rssi: seen.rssi,
        protocol_hint: if seen.protocol_hint != ScaleProtocol::Unknown {
            seen.protocol_hint
        } else {
            known.protocol_hint
        },
        scale_like: known.scale_like || seen.scale_like,
    }
}

/// Whether two devices have the same address.
pub open spec fn same_device(a: DeviceView, b: DeviceView) -> bool {
    text::same_ignoring_case(a.address, b.address)
}

/// The place of the first device with the same address, or the length of the list.
pub open spec fn place_of(list: Seq<DeviceView>, device: DeviceView) -> nat
    decreases list.len(),
{
    if list.len() == 0 {
        0
    } else if same_device(list[0], device) {
        0
    } else {
        1 + place_of(list.skip(1), device)
    }
}

/// The list after a device was seen, before it is put in order.
pub open spec fn merged(list: Seq<DeviceView>, device: DeviceView) -> Seq<DeviceView> {
    let at = place_of(list, device);
    if at < list.len() {
        list.update(at as int, seen_again(list[at as int], device))
    } else {
        list.push(device)
    }
}

/// The list after a device was seen: in order, at most 18 devices.
pub open spec fn after_seen(list: Seq<DeviceView>, device: DeviceView) -> Seq<DeviceView> {
    let all = in_order(merged(list, device));
    if all.len() > MAX_DISCOVERED_SCALES {
        all.take(MAX_DISCOVERED_SCALES as int)
    } else {
        all
    }
}

fn is_listed_before(a: &DiscoveredScaleInternal, b: &DiscoveredScaleInternal) -> (r: bool)
    ensures
        r == listed_before(a@, b@),
{
    if a.scale_like != b.scale_like {
        a.scale_like
    } else if a.rssi != b.rssi {
        a.rssi > b.rssi
    } else {
        text::is_text_before(a.name.as_str(), b.name.as_str())
    }
}

fn list_device(list: &mut Vec<DiscoveredScaleInternal>, device: DiscoveredScaleInternal)
    ensures
        device_views(final(list)@) == listed(device_views(old(list)@), device@),
{
    let ghost before = device_views(list@);
    let mut at: usize = list.len();
    assert(before.take(at as int) =~= before);
    assert(listed(before.take(at as int), device@) + before.skip(at as int) =~= listed(
        before,
        device@,
    ));
    while at > 0 && is_listed_before(&device, &list[at - 1])
        invariant
            at <= list.len(),
            before == device_views(list@),
            list@ == old(list)@,
            listed(before.take(at as int), device@) + before.skip(at as int) == listed(
                before,
                device@,
            ),
        decreases at,
    {
        proof {
            let front = before.take(at as int);
            assert(front.drop_last() =~= before.take(at - 1));
            assert(front.last() == before[at - 1]);
            assert(listed(before.take(at - 1), device@).push(front.last()) + before.skip(at as int)
                =~= listed(before.take(at - 1), device@) + before.skip(at - 1));
        }
        at = at - 1;
    }
    proof {
        let front = before.take(at as int);
        assert(at > 0 ==> front.last() == before[at - 1]);
        assert(listed(front, device@) =~= front.push(device@));
        assert(front.push(device@) + before.skip(at as int) =~= before.insert(at as int, device@));
    }
    list.insert(at, device);
    assert(device_views(list@) =~= before.insert(at as int, device@));
}

fn put_in_order(list: Vec<DiscoveredScaleInternal>) -> (r: Vec<DiscoveredScaleInternal>)
    ensures
        device_views(r@) == in_order(device_views(list@)),
{
    let ghost all = device_views(list@);
    let mut rest = list;
    let mut out: Vec<DiscoveredScaleInternal> = Vec::new();
    let ghost mut done: int = 0;
    assert(device_views(out@) =~= in_order(all.take(0)));
    assert(all.skip(0) =~= all);
    while rest.len() > 0
        invariant
            0 <= done <= all.len(),
            device_views(rest@) == all.skip(done),
            device_views(out@) == in_order(all.take(done)),
        decreases rest.len(),
    {
        let ghost before = device_views(rest@);
        let device = rest.remove(0);
        proof {
            assert(device@ == before[0]);
            assert(device_views(rest@) =~= before.skip(1));
            assert(before.skip(1) =~= all.skip(done + 1));
            assert(all.take(done + 1).drop_last() =~= all.take(done));
            assert(all.take(done + 1).last() == device@);
            done = done + 1;
        }
        list_device(&mut out, device);
    }
    assert(all.take(done) =~= all);
    out
}

fn find_device(list: &Vec<DiscoveredScaleInternal>, device: &DiscoveredScaleInternal) -> (r: usize)
    ensures
        r == place_of(device_views(list@), device@),
        r <= list.len(),
{
    let ghost all = device_views(list@);
    let mut i: usize = 0;
    assert(all.skip(0) =~= all);
    while i < list.len()
        invariant
            i <= list.len(),
            all == device_views(list@),
            place_of(all, device@) == i + place_of(all.skip(i as int), device@),
        decreases list.len() - i,
    {
        if text::eq_ignore_case(list[i].address_text.as_str(), device.address_text.as_str()) {
            return i;
        }
        assert(all.skip(i as int).skip(1) =~= all.skip(i + 1));
        i = i + 1;
    }
    i
}

fn merge_seen(known: DiscoveredScaleInternal, seen: DiscoveredScaleInternal) -> (r:
    DiscoveredScaleInternal)
    ensures
        r@ == seen_again(known@, seen@),
{
    let seen_named = !text::same_text(seen.name.as_str(), seen.address_text.as_str());
    let known_named = !text::same_text(known.name.as_str(), known.address_text.as_str());
    let name = if seen_named || !known_named {
        seen.name
    } else {
        known.name
    };
    let protocol_hint = if seen.protocol_hint != ScaleProtocol::Unknown {
        seen.protocol_hint
    } else {
        known.protocol_hint
    };
    DiscoveredScaleInternal {
        address_text: known.address_text,
        addr_type_str: seen.addr_type_str,
        name,
        rssi: seen.rssi,
        protocol_hint,
        scale_like: known.scale_like || seen.scale_like,
    }
}

/// Notes a device that was seen.
pub fn upsert_discovered(state: &mut ScaleManagerState, incoming: DiscoveredScaleInternal)
    ensures
        final(state)@ == (ManagerView {
            discovered: after_seen(old(state)@.discovered, incoming@),
            ..old(state)@
        }),
{
    let ghost before = state@.discovered;
    let ghost device = incoming@;
    let mut list: Vec<DiscoveredScaleInternal> = Vec::new();
    std::mem::swap(&mut list, &mut state.discovered);
    let at: usize = find_device(&list, &incoming);
    if at < list.len() {
        let known = list.remove(at);
        let ghost rest = device_views(list@);
        let updated = merge_seen(known, incoming);
        list.insert(at, updated);
        assert(device_views(list@) =~= merged(before, device));
    } else {
        list.push(incoming);
        assert(device_views(list@) =~= merged(before, device));
    }
    let mut ordered = put_in_order(list);
    if ordered.len() > MAX_DISCOVERED_SCALES {
        let ghost all = ordered@;
        ordered.truncate(MAX_DISCOVERED_SCALES);
        assert(device_views(ordered@) =~= device_views(all).take(MAX_DISCOVERED_SCALES as int));
    }
    state.discovered = ordered;
    assert(state@.discovered == after_seen(before, device));
}

} // verus!
