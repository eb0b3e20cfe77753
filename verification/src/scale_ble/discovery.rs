//! Which channels of a connected scale are listened to.
use crate::scale_ble::types;
use crate::scale_weight::ScaleProtocol;
use crate::text;
use vstd::prelude::*;
use vstd::string::*;

verus! {

pub const UUID_SERVICE_WEIGHT_SCALE: u16 = 0x181D;

pub const UUID_CHAR_WEIGHT_MEASUREMENT: u16 = 0x2A9D;

pub const UUID_SERVICE_BATTERY: u16 = 0x180F;

pub const UUID_CHAR_BATTERY_LEVEL: u16 = 0x2A19;

pub const UUID_SERVICE_BOOKOO: u16 = 0x0FFE;

pub const UUID_CHAR_BOOKOO_WEIGHT: u16 = 0xFF11;

pub const UUID_CHAR_BOOKOO_COMMAND: u16 = 0xFF12;

/// A Bluetooth UUID in one of its three lengths. The bytes of a full one stand with the last
/// first.
#[derive(Debug, Clone, Copy)]
pub enum GattUuid {
    Short(u16),
    Long(u32),
    Full([u8; 16]),
}

/// The bytes that a full UUID has where it stands for a short one, but for the two that are the
/// short one.
pub open spec fn base_uuid(i: int) -> u8 {
    seq![0xfbu8, 0x34, 0x9b, 0x5f, 0x80, 0, 0, 0x80, 0, 0x10, 0, 0, 0, 0, 0, 0][i]
}

impl GattUuid {
    /// Whether this stands for a short UUID.
    pub open spec fn stands_for(self, short: u16) -> bool {
        match self {
            GattUuid::Short(v) => v == short,
            GattUuid::Long(v) => v == short,
            GattUuid::Full(b) => {
                &&& forall|i: int| 0 <= i < 12 ==> #[trigger] b@[i] == base_uuid(i)
                &&& b@[12] + 256 * b@[13] == short
                &&& b@[14] == 0 && b@[15] == 0
            },
        }
    }

    /// Whether this stands for a short UUID.
    pub fn is_short(&self, short: u16) -> (r: bool)
        ensures
            r == self.stands_for(short),
    {
        match self {
            GattUuid::Short(v) => *v == short,
            GattUuid::Long(v) => *v == short as u32,
            GattUuid::Full(b) => {
                let base: [u8; 12] = [0xfb, 0x34, 0x9b, 0x5f, 0x80, 0, 0, 0x80, 0, 0x10, 0, 0];
                let mut i: usize = 0;
                while i < 12
                    invariant
                        i <= 12,
                        *self == GattUuid::Full(*b),
                        forall|k: int| 0 <= k < 12 ==> #[trigger] base@[k] == base_uuid(k),
                        forall|k: int| 0 <= k < i ==> #[trigger] b@[k] == base_uuid(k),
                    decreases 12 - i,
                {
                    if b[i] != base[i] {
                        assert(b@[i as int] != base_uuid(i as int));
                        return false;
                    }
                    i = i + 1;
                }
                b[12] as u32 + 256 * (b[13] as u32) == short as u32 && b[14] == 0 && b[15] == 0
            },
        }
    }
}

/// A channel of a service.
#[derive(Debug)]
pub struct GattCharacteristic {
    pub uuid: GattUuid,
    pub uuid_text: String,
    pub notify: bool,
    pub indicate: bool,
    pub read: bool,
    pub write: bool,
    pub write_no_response: bool,
}

/// A service of a device. One whose channels could not be read has none.
#[derive(Debug)]
pub struct GattService {
    pub uuid: GattUuid,
    pub uuid_text: String,
    pub characteristics: Vec<GattCharacteristic>,
}

/// A channel to listen to.
#[derive(Debug)]
pub struct Subscription {
    pub service: usize,
    pub characteristic: usize,
    pub protocol: ScaleProtocol,
    pub label: String,
}

/// What a subscription holds.
pub struct SubscriptionView {
    pub service: int,
    pub characteristic: int,
    pub protocol: ScaleProtocol,
    pub label: Seq<char>,
}

impl View for Subscription {
    type V = SubscriptionView;

    open spec fn view(&self) -> SubscriptionView {
        SubscriptionView {
            service: self.service as int,
            characteristic: self.characteristic as int,
            protocol: self.protocol,
            label: self.label@,
        }
    }
}

/// The views of some subscriptions.
pub open spec fn subscription_views(subs: Seq<Subscription>) -> Seq<SubscriptionView> {
    subs.map_values(|s: Subscription| s@)
}

/// Which channels are listened to, in this order, and where commands go.
#[derive(Debug)]
pub struct DiscoveryResult {
    pub subscriptions: Vec<Subscription>,
    pub protocol: ScaleProtocol,
    /// The place of the service and of its channel that takes commands.
    pub bookoo_command: Option<(usize, usize)>,
    pub supports_manual_brew_start: bool,
    pub supports_flow_smoothing: bool,
}

/// What the result holds.
#[verifier::ext_equal]
pub struct PlanView {
    pub subscriptions: Seq<SubscriptionView>,
    pub protocol: ScaleProtocol,
    pub bookoo_command: Option<(int, int)>,
}

impl View for DiscoveryResult {
    type V = PlanView;

    open spec fn view(&self) -> PlanView {
        PlanView {
            subscriptions: subscription_views(self.subscriptions@),
            protocol: self.protocol,
            bookoo_command: match self.bookoo_command {
                Some((service, characteristic)) => Some((service as int, characteristic as int)),
                None => None,
            },
        }
    }
}

impl DiscoveryResult {
    /// A result offers starting a brew and smoothing the flow where commands can be sent.
    pub open spec fn wf(self) -> bool {
        &&& self.supports_manual_brew_start == self.bookoo_command is Some
        &&& self.supports_flow_smoothing == self.bookoo_command is Some
    }

    /// A result without commands.
    pub fn new(subscriptions: Vec<Subscription>, protocol: ScaleProtocol) -> (r: Self)
        ensures
            r.wf(),
            r@ == (PlanView {
                subscriptions: subscription_views(subscriptions@),
                protocol,
                bookoo_command: None,
            }),
    {
        DiscoveryResult {
            subscriptions,
            protocol,
            bookoo_command: None,
            supports_manual_brew_start: false,
            supports_flow_smoothing: false,
        }
    }

    /// The same with a channel for commands, where there is one.
    pub fn with_bookoo_command(self, characteristic: Option<(usize, usize)>) -> (r: Self)
        ensures
            r.wf(),
            r@ == (PlanView {
                bookoo_command: match characteristic {
                    Some((s, c)) => Some((s as int, c as int)),
                    None => None,
                },
                ..self@
            }),
    {
        let there = characteristic.is_some();
        DiscoveryResult {
            subscriptions: self.subscriptions,
            protocol: self.protocol,
            bookoo_command: characteristic,
            supports_manual_brew_start: there,
            supports_flow_smoothing: there,
        }
    }
}

/// The services of known makers of scales, in the order in which they are tried.
pub open spec fn vendor_services() -> Seq<u16> {
    seq![0xFFF0u16, 0xFFE0, 0xFFF1, 0xFFE1, 0xFFF5, 0xFFE5, 0x0FFE]
}

/// The channels of known makers of scales, in the order in which they are tried.
pub open spec fn vendor_channels() -> Seq<u16> {
    seq![0xFFF1u16, 0xFFF2, 0xFFF4, 0xFFE1, 0xFFE2, 0xFFE5, 0xFF11]
}

/// The place of the first service with a UUID, from a place on.
pub open spec fn service_from(services: Seq<GattService>, short: u16, at: nat) -> Option<int>
    decreases services.len() - at,
{
    if at >= services.len() {
        None
    } else if services[at as int].uuid.stands_for(short) {
        Some(at as int)
    } else {
        service_from(services, short, at + 1)
    }
}

/// The place of the first channel with a UUID, from a place on.
pub open spec fn channel_from(chars: Seq<GattCharacteristic>, short: u16, at: nat) -> Option<int>
    decreases chars.len() - at,
{
    if at >= chars.len() {
        None
    } else if chars[at as int].uuid.stands_for(short) {
        Some(at as int)
    } else {
        channel_from(chars, short, at + 1)
    }
}

/// Whether a channel sends values by itself.
pub open spec fn sends(c: GattCharacteristic) -> bool {
    c.notify || c.indicate
}

/// How a channel is called in the log.
pub open spec fn label_of(c: GattCharacteristic, service: Seq<char>) -> Seq<char> {
    c.uuid_text@ + " on service "@ + service
}

/// A short UUID as it is called in the log.
pub open spec fn short_label(short: u16) -> Seq<char> {
    "0x"@ + text::upper_hex_word(short)
}

/// The channels among the first `n` of a service that send values by themselves.
pub open spec fn sending_channels(
    chars: Seq<GattCharacteristic>,
    service: int,
    label: Seq<char>,
    n: nat,
) -> Seq<SubscriptionView>
    decreases n,
{
    if n == 0 {
        seq![]
    } else {
        let before = sending_channels(chars, service, label, (n - 1) as nat);
        let c = chars[n - 1];
        if sends(c) {
            before.push(
                SubscriptionView {
                    service,
                    characteristic: n - 1,
                    protocol: ScaleProtocol::GenericNotify,
                    label: label_of(c, label),
                },
            )
        } else {
            before
        }
    }
}

/// A plan to listen to some channels, where there are any.
pub open spec fn generic_plan(subs: Seq<SubscriptionView>) -> Option<PlanView> {
    if subs.len() == 0 {
        None
    } else {
        Some(
            PlanView {
                subscriptions: subs,
                protocol: ScaleProtocol::GenericNotify,
                bookoo_command: None,
            },
        )
    }
}

/// The plan for a service: its standard weight channel, or else all that send values.
pub open spec fn standard_channels(chars: Seq<GattCharacteristic>, service: int) -> Option<PlanView> {
    let fallback = generic_plan(
        sending_channels(chars, service, short_label(UUID_SERVICE_WEIGHT_SCALE), chars.len()),
    );
    match channel_from(chars, UUID_CHAR_WEIGHT_MEASUREMENT, 0) {
        Some(c) => if sends(chars[c]) || chars[c].read {
            Some(
                PlanView {
                    subscriptions: seq![
                        SubscriptionView {
                            service,
                            characteristic: c,
                            protocol: ScaleProtocol::StandardWeight,
                            label: "0x2A9D on service 0x181D"@,
                        },
                    ],
                    protocol: ScaleProtocol::StandardWeight,
                    bookoo_command: None,
                },
            )
        } else {
            fallback
        },
        None => fallback,
    }
}

/// The plan by the standard weight service.
pub open spec fn standard_plan(services: Seq<GattService>) -> Option<PlanView> {
    match service_from(services, UUID_SERVICE_WEIGHT_SCALE, 0) {
        Some(s) => standard_channels(services[s].characteristics@, s),
        None => None,
    }
}

/// How far looking through the channels of a maker's service has got.
pub struct ScanView {
    /// The channels that were looked at, by their labels.
    pub seen: Seq<Seq<char>>,
    pub subs: Seq<SubscriptionView>,
    /// Whether a Bookoo scale was recognised. Nothing more is looked at.
    pub bookoo: bool,
}

/// A look at a channel.
pub open spec fn looked_at(
    scan: ScanView,
    c: GattCharacteristic,
    service: int,
    place: int,
    label: Seq<char>,
    bookoo: bool,
) -> ScanView {
    if scan.seen.contains(label) {
        scan
    } else if !sends(c) {
        ScanView { seen: scan.seen.push(label), ..scan }
    } else {
        ScanView {
            seen: scan.seen.push(label),
            subs: scan.subs.push(
                SubscriptionView {
                    service,
                    characteristic: place,
                    protocol: if bookoo {
                        ScaleProtocol::Bookoo
                    } else {
                        ScaleProtocol::GenericNotify
                    },
                    label,
                },
            ),
            bookoo,
        }
    }
}

/// A look at the first `n` of the known channels.
pub open spec fn known_scan(
    chars: Seq<GattCharacteristic>,
    service: int,
    svc: u16,
    n: nat,
) -> ScanView
    decreases n,
{
    if n == 0 {
        ScanView { seen: seq![], subs: seq![], bookoo: false }
    } else {
        let before = known_scan(chars, service, svc, (n - 1) as nat);
        let short = vendor_channels()[n - 1];
        if before.bookoo {
            before
        } else {
            match channel_from(chars, short, 0) {
                Some(c) => looked_at(
                    before,
                    chars[c],
                    service,
                    c,
                    label_of(chars[c], short_label(svc)),
                    svc == UUID_SERVICE_BOOKOO && short == UUID_CHAR_BOOKOO_WEIGHT,
                ),
                None => before,
            }
        }
    }
}

/// A look at the first `n` channels after the known ones.
pub open spec fn rest_scan(
    chars: Seq<GattCharacteristic>,
    service: int,
    svc: u16,
    n: nat,
) -> ScanView
    decreases n,
{
    if n == 0 {
        known_scan(chars, service, svc, vendor_channels().len())
    } else {
        looked_at(
            rest_scan(chars, service, svc, (n - 1) as nat),
            chars[n - 1],
            service,
            n - 1,
            label_of(chars[n - 1], short_label(svc)),
            false,
        )
    }
}

/// The channel that takes a Bookoo scale's commands.
pub open spec fn command_channel(chars: Seq<GattCharacteristic>, service: int, svc: u16) -> Option<
    (int, int),
> {
    if svc == UUID_SERVICE_BOOKOO {
        match channel_from(chars, UUID_CHAR_BOOKOO_COMMAND, 0) {
            Some(c) => if chars[c].write || chars[c].write_no_response {
                Some((service, c))
            } else {
                None
            },
            None => None,
        }
    } else {
        None
    }
}

/// The plan for a maker's service.
pub open spec fn vendor_channels_plan(
    chars: Seq<GattCharacteristic>,
    service: int,
    svc: u16,
) -> Option<PlanView> {
    let known = known_scan(chars, service, svc, vendor_channels().len());
    if known.bookoo {
        Some(
            PlanView {
                subscriptions: known.subs,
                protocol: ScaleProtocol::Bookoo,
                bookoo_command: command_channel(chars, service, svc),
            },
        )
    } else {
        generic_plan(rest_scan(chars, service, svc, chars.len()).subs)
    }
}

/// The plan for the service of one maker.
pub open spec fn vendor_plan_for(services: Seq<GattService>, svc: u16) -> Option<PlanView> {
    match service_from(services, svc, 0) {
        Some(s) => vendor_channels_plan(services[s].characteristics@, s, svc),
        None => None,
    }
}

/// The plan by the services of known makers, from one of them on.
pub open spec fn vendor_plan(services: Seq<GattService>, at: nat) -> Option<PlanView>
    decreases vendor_services().len() - at,
{
    if at >= vendor_services().len() {
        None
    } else {
        match vendor_plan_for(services, vendor_services()[at as int]) {
            Some(plan) => Some(plan),
            None => vendor_plan(services, at + 1),
        }
    }
}

/// Whether a service has nothing to do with weights: the two that every device has, and the
/// battery.
pub open spec fn is_common(uuid: GattUuid) -> bool {
    uuid matches GattUuid::Short(v) && (v == 0x1800 || v == 0x1801 || v == UUID_SERVICE_BATTERY)
}

/// All channels of the first `n` services that send values.
pub open spec fn all_channels(services: Seq<GattService>, n: nat) -> Seq<SubscriptionView>
    decreases n,
{
    if n == 0 {
        seq![]
    } else {
        let before = all_channels(services, (n - 1) as nat);
        let s = services[n - 1];
        if is_common(s.uuid) {
            before
        } else {
            before + sending_channels(
                s.characteristics@,
                n - 1,
                s.uuid_text@,
                s.characteristics@.len(),
            )
        }
    }
}

/// The channels to listen to: those of the standard, or else of a known maker, or else, where the
/// name is like that of a scale, all that send values.
pub open spec fn plan_for(services: Seq<GattService>, name: Seq<char>) -> Option<PlanView> {
    match standard_plan(services) {
        Some(plan) => Some(plan),
        None => match vendor_plan(services, 0) {
            Some(plan) => Some(plan),
            None => if types::scale_like(name) {
                generic_plan(all_channels(services, services.len()))
            } else {
                None
            },
        },
    }
}

/// A plan, where there is one.
pub open spec fn optional_plan(plan: Option<DiscoveryResult>) -> Option<PlanView> {
    match plan {
        Some(p) => Some(p@),
        None => None,
    }
}

fn find_service(services: &Vec<GattService>, short: u16) -> (r: Option<usize>)
    ensures
        match r {
            Some(i) => i < services@.len() && service_from(services@, short, 0) == Some(i as int),
            None => service_from(services@, short, 0) is None,
        },
{
    let mut i: usize = 0;
    while i < services.len()
        invariant
            i <= services@.len(),
            service_from(services@, short, 0) == service_from(services@, short, i as nat),
        decreases services.len() - i,
    {
        if services[i].uuid.is_short(short) {
            return Some(i);
        }
        i = i + 1;
    }
    None
}

fn find_channel(chars: &Vec<GattCharacteristic>, short: u16) -> (r: Option<usize>)
    ensures
        match r {
            Some(i) => i < chars@.len() && channel_from(chars@, short, 0) == Some(i as int),
            None => channel_from(chars@, short, 0) is None,
        },
{
    let mut i: usize = 0;
    while i < chars.len()
        invariant
            i <= chars@.len(),
            channel_from(chars@, short, 0) == channel_from(chars@, short, i as nat),
        decreases chars.len() - i,
    {
        if chars[i].uuid.is_short(short) {
            return Some(i);
        }
        i = i + 1;
    }
    None
}

fn channel_label(c: &GattCharacteristic, service: &str) -> (r: String)
    ensures
        r@ == label_of(*c, service@),
{
    let mut out = c.uuid_text.clone();
    out.append(" on service ");
    out.append(service);
    out
}

fn service_label(short: u16) -> (r: String)
    ensures
        r@ == short_label(short),
{
    let mut out = "0x".to_owned();
    text::push_upper_hex_word(&mut out, short);
    out
}

fn push_subscription(subs: &mut Vec<Subscription>, sub: Subscription)
    ensures
        subscription_views(final(subs)@) == subscription_views(old(subs)@).push(sub@),
{
    let ghost before = subscription_views(subs@);
    subs.push(sub);
    assert(subscription_views(subs@) =~= before.push(sub@));
}

fn push_sending_channels(
    subs: &mut Vec<Subscription>,
    chars: &Vec<GattCharacteristic>,
    service: usize,
    label: &str,
)
    ensures
        subscription_views(final(subs)@) == subscription_views(old(subs)@) + sending_channels(
            chars@,
            service as int,
            label@,
            chars@.len(),
        ),
{
    let ghost start = subscription_views(subs@);
    let mut i: usize = 0;
    assert(start + sending_channels(chars@, service as int, label@, 0) =~= start);
    while i < chars.len()
        invariant
            i <= chars@.len(),
            subscription_views(subs@) == start + sending_channels(
                chars@,
                service as int,
                label@,
                i as nat,
            ),
        decreases chars.len() - i,
    {
        let ghost before = sending_channels(chars@, service as int, label@, i as nat);
        let c = &chars[i];
        if c.notify || c.indicate {
            let sub = Subscription {
                service,
                characteristic: i,
                protocol: ScaleProtocol::GenericNotify,
                label: channel_label(c, label),
            };
            push_subscription(subs, sub);
            assert((start + before).push(sub@) =~= start + before.push(sub@));
        }
        i = i + 1;
    }
}

fn make_generic_plan(subs: Vec<Subscription>) -> (r: Option<DiscoveryResult>)
    ensures
        optional_plan(r) == generic_plan(subscription_views(subs@)),
        r matches Some(p) ==> p.wf(),
{
    if subs.len() == 0 {
        None
    } else {
        Some(DiscoveryResult::new(subs, ScaleProtocol::GenericNotify))
    }
}

/// The plan by the standard weight service.
pub fn try_standard_service(services: &Vec<GattService>) -> (r: Option<DiscoveryResult>)
    ensures
        optional_plan(r) == standard_plan(services@),
        r matches Some(p) ==> p.wf(),
{
    let s: usize = match find_service(services, UUID_SERVICE_WEIGHT_SCALE) {
        Some(s) => s,
        None => {
            return None;
        },
    };
    let chars = &services[s].characteristics;
    let mut subs: Vec<Subscription> = Vec::new();
    assert(subscription_views(subs@) =~= seq![]);
    match find_channel(chars, UUID_CHAR_WEIGHT_MEASUREMENT) {
        Some(c) => {
            let found = &chars[c];
            if found.notify || found.indicate || found.read {
                let sub = Subscription {
                    service: s,
                    characteristic: c,
                    protocol: ScaleProtocol::StandardWeight,
                    label: "0x2A9D on service 0x181D".to_owned(),
                };
                push_subscription(&mut subs, sub);
                assert(subscription_views(subs@) =~= seq![sub@]);
                return Some(DiscoveryResult::new(subs, ScaleProtocol::StandardWeight));
            }
        },
        None => {},
    }
    let label = service_label(UUID_SERVICE_WEIGHT_SCALE);
    push_sending_channels(&mut subs, chars, s, label.as_str());
    proof {
        let all = sending_channels(chars@, s as int, label@, chars@.len());
        assert(Seq::<SubscriptionView>::empty() + all =~= all);
    }
    make_generic_plan(subs)
}

fn is_seen(seen: &Vec<String>, label: &str) -> (r: bool)
    ensures
        r == label_texts(seen@).contains(label@),
{
    let mut i: usize = 0;
    while i < seen.len()
        invariant
            i <= seen@.len(),
            forall|k: int| 0 <= k < i ==> label_texts(seen@)[k] != label@,
        decreases seen.len() - i,
    {
        if text::same_text(seen[i].as_str(), label) {
            assert(label_texts(seen@)[i as int] == label@);
            return true;
        }
        i = i + 1;
    }
    false
}

/// The texts of some labels.
pub open spec fn label_texts(labels: Seq<String>) -> Seq<Seq<char>> {
    labels.map_values(|s: String| s@)
}

struct Scan {
    seen: Vec<String>,
    subs: Vec<Subscription>,
    bookoo: bool,
}

impl Scan {
    spec fn shown(self) -> ScanView {
        ScanView {
            seen: label_texts(self.seen@),
            subs: subscription_views(self.subs@),
            bookoo: self.bookoo,
        }
    }

    fn look_at(
        &mut self,
        c: &GattCharacteristic,
        service: usize,
        place: usize,
        label: String,
        bookoo: bool,
    )
        ensures
            final(self).shown() == looked_at(
                old(self).shown(),
                *c,
                service as int,
                place as int,
                label@,
                bookoo,
            ),
    {
        if is_seen(&self.seen, label.as_str()) {
            return;
        }
        let ghost before = self.shown();
        self.seen.push(label.clone());
        assert(label_texts(self.seen@) =~= before.seen.push(label@));
        if !c.notify && !c.indicate {
            return;
        }
        let protocol = if bookoo {
            ScaleProtocol::Bookoo
        } else {
            ScaleProtocol::GenericNotify
        };
        push_subscription(
            &mut self.subs,
            Subscription { service, characteristic: place, protocol, label },
        );
        self.bookoo = bookoo;
    }
}

fn scan_known(chars: &Vec<GattCharacteristic>, service: usize, svc: u16) -> (r: Scan)
    ensures
        r.shown() == known_scan(chars@, service as int, svc, vendor_channels().len()),
{
    let known: [u16; 7] = [0xFFF1, 0xFFF2, 0xFFF4, 0xFFE1, 0xFFE2, 0xFFE5, 0xFF11];
    assert(known@ =~= vendor_channels());
    let label = service_label(svc);
    let mut scan = Scan { seen: Vec::new(), subs: Vec::new(), bookoo: false };
    assert(label_texts(scan.seen@) =~= seq![]);
    assert(subscription_views(scan.subs@) =~= seq![]);
    let mut i: usize = 0;
    while i < 7
        invariant
            i <= 7,
            known@ == vendor_channels(),
            label@ == short_label(svc),
            scan.shown() == known_scan(chars@, service as int, svc, i as nat),
        decreases 7 - i,
    {
        if !scan.bookoo {
            match find_channel(chars, known[i]) {
                Some(c) => {
                    let one = channel_label(&chars[c], label.as_str());
                    let bookoo = svc == UUID_SERVICE_BOOKOO && known[i] == UUID_CHAR_BOOKOO_WEIGHT;
                    scan.look_at(&chars[c], service, c, one, bookoo);
                },
                None => {},
            }
        }
        i = i + 1;
    }
    scan
}

fn scan_rest(scan: Scan, chars: &Vec<GattCharacteristic>, service: usize, svc: u16) -> (r: Scan)
    requires
        scan.shown() == known_scan(chars@, service as int, svc, vendor_channels().len()),
    ensures
        r.shown() == rest_scan(chars@, service as int, svc, chars@.len()),
{
    let mut scan = scan;
    let label = service_label(svc);
    let mut i: usize = 0;
    while i < chars.len()
        invariant
            i <= chars@.len(),
            label@ == short_label(svc),
            scan.shown() == rest_scan(chars@, service as int, svc, i as nat),
        decreases chars.len() - i,
    {
        let one = channel_label(&chars[i], label.as_str());
        scan.look_at(&chars[i], service, i, one, false);
        i = i + 1;
    }
    scan
}

fn find_command(chars: &Vec<GattCharacteristic>, service: usize, svc: u16) -> (r: Option<(usize, usize)>)
    ensures
        command_channel(chars@, service as int, svc) == match r {
            Some((s, c)) => Some((s as int, c as int)),
            None => None,
        },
{
    if svc != UUID_SERVICE_BOOKOO {
        return None;
    }
    match find_channel(chars, UUID_CHAR_BOOKOO_COMMAND) {
        Some(c) => if chars[c].write || chars[c].write_no_response {
            Some((service, c))
        } else {
            None
        },
        None => None,
    }
}

fn try_vendor_service(services: &Vec<GattService>, svc: u16) -> (r: Option<DiscoveryResult>)
    ensures
        optional_plan(r) == vendor_plan_for(services@, svc),
        r matches Some(p) ==> p.wf(),
{
    let s: usize = match find_service(services, svc) {
        Some(s) => s,
        None => {
            return None;
        },
    };
    let chars = &services[s].characteristics;
    let scan = scan_known(chars, s, svc);
    if scan.bookoo {
        let command = find_command(chars, s, svc);
        return Some(
            DiscoveryResult::new(scan.subs, ScaleProtocol::Bookoo).with_bookoo_command(command),
        );
    }
    let scan = scan_rest(scan, chars, s, svc);
    make_generic_plan(scan.subs)
}

/// The plan by the services of known makers.
pub fn try_vendor_services(services: &Vec<GattService>) -> (r: Option<DiscoveryResult>)
    ensures
        optional_plan(r) == vendor_plan(services@, 0),
        r matches Some(p) ==> p.wf(),
{
    let known: [u16; 7] = [0xFFF0, 0xFFE0, 0xFFF1, 0xFFE1, 0xFFF5, 0xFFE5, 0x0FFE];
    assert(known@ =~= vendor_services());
    let mut i: usize = 0;
    while i < 7
        invariant
            i <= 7,
            known@ == vendor_services(),
            vendor_plan(services@, 0) == vendor_plan(services@, i as nat),
        decreases 7 - i,
    {
        match try_vendor_service(services, known[i]) {
            Some(plan) => {
                return Some(plan);
            },
            None => {},
        }
        i = i + 1;
    }
    None
}

fn is_common_service(uuid: &GattUuid) -> (r: bool)
    ensures
        r == is_common(*uuid),
{
    match uuid {
        GattUuid::Short(v) => *v == 0x1800 || *v == 0x1801 || *v == UUID_SERVICE_BATTERY,
        _ => false,
    }
}

/// The plan to listen to everything that sends values.
pub fn try_brute_force(services: &Vec<GattService>) -> (r: Option<DiscoveryResult>)
    ensures
        optional_plan(r) == generic_plan(all_channels(services@, services@.len())),
        r matches Some(p) ==> p.wf(),
{
    let mut subs: Vec<Subscription> = Vec::new();
    let mut i: usize = 0;
    assert(subscription_views(subs@) =~= seq![]);
    while i < services.len()
        invariant
            i <= services@.len(),
            subscription_views(subs@) == all_channels(services@, i as nat),
        decreases services.len() - i,
    {
        let service = &services[i];
        if !is_common_service(&service.uuid) {
            push_sending_channels(
                &mut subs,
                &service.characteristics,
                i,
                service.uuid_text.as_str(),
            );
        }
        i = i + 1;
    }
    make_generic_plan(subs)
}

/// The channels to listen to, or why there are none.
pub fn discover_and_subscribe(services: &Vec<GattService>, scale_name: &str) -> (r: Result<
    DiscoveryResult,
    &'static str,
>)
    ensures
        match plan_for(services@, scale_name@) {
            Some(plan) => r matches Ok(found) && found@ == plan && found.wf(),
            None => r matches Err(m) && m@ == "No weight characteristic found on this device."@,
        },
{
    match try_standard_service(services) {
        Some(plan) => {
            return Ok(plan);
        },
        None => {},
    }
    match try_vendor_services(services) {
        Some(plan) => {
            return Ok(plan);
        },
        None => {},
    }
    if types::is_scale_like_name(scale_name) {
        match try_brute_force(services) {
            Some(plan) => {
                return Ok(plan);
            },
            None => {},
        }
    }
    Err("No weight characteristic found on this device.")
}

/// Whether a channel is asked for confirmed values: where it sends no others.
pub fn uses_indications(c: &GattCharacteristic) -> (r: bool)
    ensures
        r == (c.indicate && !c.notify),
{
    c.indicate && !c.notify
}

/// Whether a subscription is to a channel that is there and delivers values.
pub open spec fn delivers(services: Seq<GattService>, sub: SubscriptionView) -> bool {
    &&& 0 <= sub.service < services.len()
    &&& 0 <= sub.characteristic < services[sub.service].characteristics@.len()
    &&& ({
        let c = services[sub.service].characteristics@[sub.characteristic];
        sends(c) || (sub.protocol == ScaleProtocol::StandardWeight && c.read)
    })
}

/// Whether all of some subscriptions are to channels that are there and deliver values.
pub open spec fn all_deliver(services: Seq<GattService>, subs: Seq<SubscriptionView>) -> bool {
    forall|i: int| 0 <= i < subs.len() ==> delivers(services, #[trigger] subs[i])
}

proof fn lemma_service_place(services: Seq<GattService>, short: u16, at: nat)
    ensures
        service_from(services, short, at) matches Some(s) ==> 0 <= s < services.len()
            && services[s].uuid.stands_for(short),
    decreases services.len() - at,
{
    if at < services.len() && !services[at as int].uuid.stands_for(short) {
        lemma_service_place(services, short, at + 1);
    }
}

proof fn lemma_channel_place(chars: Seq<GattCharacteristic>, short: u16, at: nat)
    ensures
        channel_from(chars, short, at) matches Some(c) ==> 0 <= c < chars.len()
            && chars[c].uuid.stands_for(short),
    decreases chars.len() - at,
{
    if at < chars.len() && !chars[at as int].uuid.stands_for(short) {
        lemma_channel_place(chars, short, at + 1);
    }
}

proof fn lemma_sending_channels_deliver(
    services: Seq<GattService>,
    service: int,
    label: Seq<char>,
    n: nat,
)
    requires
        0 <= service < services.len(),
        n <= services[service].characteristics@.len(),
    ensures
        all_deliver(
            services,
            sending_channels(services[service].characteristics@, service, label, n),
        ),
    decreases n,
{
    if n > 0 {
        lemma_sending_channels_deliver(services, service, label, (n - 1) as nat);
    }
}

proof fn lemma_known_channels_deliver(services: Seq<GattService>, service: int, svc: u16, n: nat)
    requires
        0 <= service < services.len(),
        n <= vendor_channels().len(),
    ensures
        ({
            let scan = known_scan(services[service].characteristics@, service, svc, n);
            &&& all_deliver(services, scan.subs)
            &&& scan.bookoo ==> scan.subs.len() > 0 && svc == UUID_SERVICE_BOOKOO
        }),
    decreases n,
{
    if n > 0 {
        lemma_known_channels_deliver(services, service, svc, (n - 1) as nat);
        lemma_channel_place(
            services[service].characteristics@,
            vendor_channels()[n - 1],
            0,
        );
    }
}

proof fn lemma_rest_delivers(services: Seq<GattService>, service: int, svc: u16, n: nat)
    requires
        0 <= service < services.len(),
        n <= services[service].characteristics@.len(),
    ensures
        all_deliver(
            services,
            rest_scan(services[service].characteristics@, service, svc, n).subs,
        ),
    decreases n,
{
    if n > 0 {
        lemma_rest_delivers(services, service, svc, (n - 1) as nat);
    } else {
        lemma_known_channels_deliver(services, service, svc, vendor_channels().len());
    }
}

proof fn lemma_all_channels_deliver(services: Seq<GattService>, n: nat)
    requires
        n <= services.len(),
    ensures
        all_deliver(services, all_channels(services, n)),
    decreases n,
{
    if n > 0 {
        lemma_all_channels_deliver(services, (n - 1) as nat);
        lemma_sending_channels_deliver(
            services,
            n - 1,
            services[n - 1].uuid_text@,
            services[n - 1].characteristics@.len(),
        );
    }
}

/// Whether a plan can be carried out: it listens to something, all of it is there and delivers
/// values, and commands go to a channel of a Bookoo scale that can be written.
pub open spec fn sound(services: Seq<GattService>, plan: PlanView) -> bool {
    &&& plan.subscriptions.len() > 0
    &&& all_deliver(services, plan.subscriptions)
    &&& plan.bookoo_command matches Some((s, c)) ==> {
        &&& plan.protocol == ScaleProtocol::Bookoo
        &&& 0 <= s < services.len()
        &&& 0 <= c < services[s].characteristics@.len()
        &&& services[s].characteristics@[c].uuid.stands_for(UUID_CHAR_BOOKOO_COMMAND)
        &&& services[s].characteristics@[c].write
            || services[s].characteristics@[c].write_no_response
    }
}

proof fn lemma_vendor_plan_is_sound(services: Seq<GattService>, at: nat)
    ensures
        vendor_plan(services, at) matches Some(plan) ==> sound(services, plan),
    decreases vendor_services().len() - at,
{
    if at < vendor_services().len() {
        let svc = vendor_services()[at as int];
        lemma_service_place(services, svc, 0);
        match service_from(services, svc, 0) {
            Some(s) => {
                lemma_known_channels_deliver(services, s, svc, vendor_channels().len());
                lemma_rest_delivers(services, s, svc, services[s].characteristics@.len());
                lemma_channel_place(services[s].characteristics@, UUID_CHAR_BOOKOO_COMMAND, 0);
            },
            None => {},
        }
        lemma_vendor_plan_is_sound(services, at + 1);
    }
}

/// Every plan can be carried out.
pub proof fn lemma_plan_is_sound(services: Seq<GattService>, name: Seq<char>)
    ensures
        plan_for(services, name) matches Some(plan) ==> sound(services, plan),
{
    lemma_service_place(services, UUID_SERVICE_WEIGHT_SCALE, 0);
    match service_from(services, UUID_SERVICE_WEIGHT_SCALE, 0) {
        Some(s) => {
            let chars = services[s].characteristics@;
            lemma_channel_place(chars, UUID_CHAR_WEIGHT_MEASUREMENT, 0);
            lemma_sending_channels_deliver(
                services,
                s,
                short_label(UUID_SERVICE_WEIGHT_SCALE),
                chars.len(),
            );
        },
        None => {},
    }
    lemma_vendor_plan_is_sound(services, 0);
    lemma_all_channels_deliver(services, services.len());
}

} // verus!
