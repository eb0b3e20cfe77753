//! Which channels of a scale are found.
use crate::scale_ble::discovery;
use crate::scale_ble::discovery::{
    GattCharacteristic, GattService, GattUuid, ScanView, SubscriptionView,
};
use crate::scale_ble::types;
use crate::scale_weight::ScaleProtocol;
use crate::text;
use vstd::prelude::*;

verus! {

/// Whether a service is the first that stands for a short UUID.
pub open spec fn first_service(services: Seq<GattService>, short: u16, s: int) -> bool {
    &&& 0 <= s < services.len()
    &&& services[s].uuid.stands_for(short)
    &&& forall|i: int| 0 <= i < s ==> !(#[trigger] services[i]).uuid.stands_for(short)
}

/// Whether no service stands for a short UUID.
pub open spec fn no_service(services: Seq<GattService>, short: u16) -> bool {
    forall|i: int| 0 <= i < services.len() ==> !(#[trigger] services[i]).uuid.stands_for(short)
}

/// Whether a channel is the first that stands for a short UUID.
pub open spec fn first_channel(chars: Seq<GattCharacteristic>, short: u16, c: int) -> bool {
    &&& 0 <= c < chars.len()
    &&& chars[c].uuid.stands_for(short)
    &&& forall|i: int| 0 <= i < c ==> !(#[trigger] chars[i]).uuid.stands_for(short)
}

/// Whether no channel stands for a short UUID.
pub open spec fn no_channel(chars: Seq<GattCharacteristic>, short: u16) -> bool {
    forall|i: int| 0 <= i < chars.len() ==> !(#[trigger] chars[i]).uuid.stands_for(short)
}

proof fn lemma_service_found(services: Seq<GattService>, short: u16, s: int, at: nat)
    requires
        first_service(services, short, s),
        at <= s,
    ensures
        discovery::service_from(services, short, at) == Some(s),
    decreases s - at,
{
    if at < s {
        assert(!services[at as int].uuid.stands_for(short));
        lemma_service_found(services, short, s, at + 1);
    }
}

proof fn lemma_service_missing(services: Seq<GattService>, short: u16, at: nat)
    requires
        no_service(services, short),
    ensures
        discovery::service_from(services, short, at) is None,
    decreases services.len() - at,
{
    if at < services.len() {
        assert(!services[at as int].uuid.stands_for(short));
        lemma_service_missing(services, short, at + 1);
    }
}

proof fn lemma_channel_found(chars: Seq<GattCharacteristic>, short: u16, c: int, at: nat)
    requires
        first_channel(chars, short, c),
        at <= c,
    ensures
        discovery::channel_from(chars, short, at) == Some(c),
    decreases c - at,
{
    if at < c {
        assert(!chars[at as int].uuid.stands_for(short));
        lemma_channel_found(chars, short, c, at + 1);
    }
}

proof fn lemma_channel_missing(chars: Seq<GattCharacteristic>, short: u16, at: nat)
    requires
        no_channel(chars, short),
    ensures
        discovery::channel_from(chars, short, at) is None,
    decreases chars.len() - at,
{
    if at < chars.len() {
        assert(!chars[at as int].uuid.stands_for(short));
        lemma_channel_missing(chars, short, at + 1);
    }
}

/// A short UUID stands for itself in each of its lengths: alone, filled up with zeros, and in
/// the full one that ends in `-0000-1000-8000-00805f9b34fb`.
pub proof fn lemma_lengths_of_a_uuid(short: u16, other: u16, b: [u8; 16])
    requires
        b@ == seq![
            0xfbu8,
            0x34,
            0x9b,
            0x5f,
            0x80,
            0,
            0,
            0x80,
            0,
            0x10,
            0,
            0,
            (short % 256) as u8,
            (short / 256) as u8,
            0,
            0,
        ],
    ensures
        GattUuid::Short(short).stands_for(other) <==> short == other,
        GattUuid::Long(short as u32).stands_for(other) <==> short == other,
        GattUuid::Full(b).stands_for(other) <==> short == other,
{
    let v = b@;
    assert forall|i: int| 0 <= i < 12 implies #[trigger] v[i] == discovery::base_uuid(i) by {}
    assert(v[12] + 256 * v[13] == short);
}

/// A scale with the standard service is listened to on its weight channel, whatever else it has,
/// where that channel sends or can be read.
pub proof fn lemma_standard_scale(services: Seq<GattService>, name: Seq<char>, s: int, c: int)
    requires
        first_service(services, 0x181D, s),
        first_channel(services[s].characteristics@, 0x2A9D, c),
        ({
            let channel = services[s].characteristics@[c];
            channel.notify || channel.indicate || channel.read
        }),
    ensures
        discovery::plan_for(services, name) matches Some(plan) && plan.protocol
            == ScaleProtocol::StandardWeight && plan.bookoo_command is None
            && plan.subscriptions.len() == 1 && plan.subscriptions[0].service == s
            && plan.subscriptions[0].characteristic == c && plan.subscriptions[0].protocol
            == ScaleProtocol::StandardWeight,
{
    lemma_service_found(services, 0x181D, s, 0);
    lemma_channel_found(services[s].characteristics@, 0x2A9D, c, 0);
}

/// Whether of the services and channels that scales are known by, only those of a Bookoo scale
/// are there.
pub open spec fn only_bookoo(services: Seq<GattService>, s: int) -> bool {
    &&& no_service(services, 0x181D)
    &&& no_service(services, 0xFFF0)
    &&& no_service(services, 0xFFE0)
    &&& no_service(services, 0xFFF1)
    &&& no_service(services, 0xFFE1)
    &&& no_service(services, 0xFFF5)
    &&& no_service(services, 0xFFE5)
    &&& first_service(services, 0x0FFE, s)
    &&& ({
        let chars = services[s].characteristics@;
        &&& no_channel(chars, 0xFFF1)
        &&& no_channel(chars, 0xFFF2)
        &&& no_channel(chars, 0xFFF4)
        &&& no_channel(chars, 0xFFE1)
        &&& no_channel(chars, 0xFFE2)
        &&& no_channel(chars, 0xFFE5)
    })
}

/// A Bookoo scale is listened to on its weight channel, and takes commands over its command
/// channel where that can be written to.
pub proof fn lemma_bookoo_scale(services: Seq<GattService>, name: Seq<char>, s: int, c: int, k: int)
    requires
        only_bookoo(services, s),
        first_channel(services[s].characteristics@, 0xFF11, c),
        services[s].characteristics@[c].notify || services[s].characteristics@[c].indicate,
    ensures
        discovery::plan_for(services, name) matches Some(plan) && plan.protocol
            == ScaleProtocol::Bookoo && plan.subscriptions.len() == 1
            && plan.subscriptions[0].service == s && plan.subscriptions[0].characteristic == c
            && plan.subscriptions[0].protocol == ScaleProtocol::Bookoo && ({
            let chars = services[s].characteristics@;
            &&& no_channel(chars, 0xFF12) ==> plan.bookoo_command is None
            &&& first_channel(chars, 0xFF12, k) && (chars[k].write || chars[k].write_no_response)
                ==> plan.bookoo_command == Some((s, k))
            &&& first_channel(chars, 0xFF12, k) && !chars[k].write && !chars[k].write_no_response
                ==> plan.bookoo_command is None
        }),
{
    let chars = services[s].characteristics@;
    let known = discovery::vendor_channels();
    let vendors = discovery::vendor_services();
    lemma_service_missing(services, 0x181D, 0);
    lemma_service_missing(services, 0xFFF0, 0);
    lemma_service_missing(services, 0xFFE0, 0);
    lemma_service_missing(services, 0xFFF1, 0);
    lemma_service_missing(services, 0xFFE1, 0);
    lemma_service_missing(services, 0xFFF5, 0);
    lemma_service_missing(services, 0xFFE5, 0);
    lemma_service_found(services, 0x0FFE, s, 0);
    lemma_channel_missing(chars, 0xFFF1, 0);
    lemma_channel_missing(chars, 0xFFF2, 0);
    lemma_channel_missing(chars, 0xFFF4, 0);
    lemma_channel_missing(chars, 0xFFE1, 0);
    lemma_channel_missing(chars, 0xFFE2, 0);
    lemma_channel_missing(chars, 0xFFE5, 0);
    lemma_channel_found(chars, 0xFF11, c, 0);
    assert(vendors.len() == 7 && vendors[0] == 0xFFF0 && vendors[1] == 0xFFE0 && vendors[2]
        == 0xFFF1 && vendors[3] == 0xFFE1 && vendors[4] == 0xFFF5 && vendors[5] == 0xFFE5
        && vendors[6] == 0x0FFE);
    assert(known.len() == 7 && known[0] == 0xFFF1 && known[1] == 0xFFF2 && known[2] == 0xFFF4
        && known[3] == 0xFFE1 && known[4] == 0xFFE2 && known[5] == 0xFFE5 && known[6] == 0xFF11);
    reveal_with_fuel(discovery::known_scan, 8);
    let scan = discovery::known_scan(chars, s, 0x0FFE, 6);
    assert(scan.seen.len() == 0 && scan.subs.len() == 0 && !scan.bookoo);
    let full = discovery::known_scan(chars, s, 0x0FFE, 7);
    assert(full.bookoo && full.subs.len() == 1);
    if no_channel(chars, 0xFF12) {
        lemma_channel_missing(chars, 0xFF12, 0);
    }
    if first_channel(chars, 0xFF12, k) {
        lemma_channel_found(chars, 0xFF12, k, 0);
    }
    reveal_with_fuel(discovery::vendor_plan, 8);
    assert(discovery::vendor_plan_for(services, 0x0FFE) is Some);
}

/// Whether a list of channels holds one of a service.
pub open spec fn listens(subs: Seq<SubscriptionView>, service: int, c: int) -> bool {
    exists|i: int|
        0 <= i < subs.len() && (#[trigger] subs[i]).service == service && subs[i].characteristic
            == c
}

proof fn lemma_all_sending_channels(
    chars: Seq<GattCharacteristic>,
    service: int,
    label: Seq<char>,
    n: nat,
    c: int,
)
    requires
        0 <= c < n <= chars.len(),
        chars[c].notify || chars[c].indicate,
    ensures
        listens(discovery::sending_channels(chars, service, label, n), service, c),
    decreases n,
{
    let before = discovery::sending_channels(chars, service, label, (n - 1) as nat);
    let all = discovery::sending_channels(chars, service, label, n);
    if c < n - 1 {
        lemma_all_sending_channels(chars, service, label, (n - 1) as nat, c);
        let i = choose|i: int|
            0 <= i < before.len() && (#[trigger] before[i]).service == service
                && before[i].characteristic == c;
        assert(all[i] == before[i]);
    } else {
        assert(all[before.len() as int].characteristic == c);
    }
}

proof fn lemma_channels_of_all_services(services: Seq<GattService>, n: nat, s: int, c: int)
    requires
        0 <= s < n <= services.len(),
        !discovery::is_common(services[s].uuid),
        0 <= c < services[s].characteristics@.len(),
        services[s].characteristics@[c].notify || services[s].characteristics@[c].indicate,
    ensures
        listens(discovery::all_channels(services, n), s, c),
    decreases n,
{
    let m = (n - 1) as nat;
    let before = discovery::all_channels(services, m);
    let all = discovery::all_channels(services, n);
    let last = services[n - 1];
    let own = discovery::sending_channels(
        last.characteristics@,
        n - 1,
        last.uuid_text@,
        last.characteristics@.len(),
    );
    if s < n - 1 {
        lemma_channels_of_all_services(services, m, s, c);
        let i = choose|i: int|
            0 <= i < before.len() && (#[trigger] before[i]).service == s
                && before[i].characteristic == c;
        assert(all[i] == before[i]);
    } else {
        lemma_all_sending_channels(
            last.characteristics@,
            n - 1,
            last.uuid_text@,
            last.characteristics@.len(),
            c,
        );
        let i = choose|i: int|
            0 <= i < own.len() && (#[trigger] own[i]).service == n - 1 && own[i].characteristic
                == c;
        assert(all[before.len() + i] == own[i]);
    }
}

/// Whether no service is one that scales are known by.
pub open spec fn nothing_known(services: Seq<GattService>) -> bool {
    &&& no_service(services, 0x181D)
    &&& no_service(services, 0xFFF0)
    &&& no_service(services, 0xFFE0)
    &&& no_service(services, 0xFFF1)
    &&& no_service(services, 0xFFE1)
    &&& no_service(services, 0xFFF5)
    &&& no_service(services, 0xFFE5)
    &&& no_service(services, 0x0FFE)
}

/// A device with none of the known services is listened to only where its name is that of a
/// scale, and then on every channel that sends, but for those of the services that every device
/// has.
pub proof fn lemma_unknown_scale(services: Seq<GattService>, name: Seq<char>, s: int, c: int)
    requires
        nothing_known(services),
    ensures
        !types::scale_like(name) ==> discovery::plan_for(services, name) is None,
        types::scale_like(name) && 0 <= s < services.len() && !discovery::is_common(
            services[s].uuid,
        ) && 0 <= c < services[s].characteristics@.len() && (
        services[s].characteristics@[c].notify || services[s].characteristics@[c].indicate) ==> (
        discovery::plan_for(services, name) matches Some(plan) && plan.protocol
            == ScaleProtocol::GenericNotify && plan.bookoo_command is None && listens(
            plan.subscriptions,
            s,
            c,
        )),
{
    let vendors = discovery::vendor_services();
    lemma_service_missing(services, 0x181D, 0);
    lemma_service_missing(services, 0xFFF0, 0);
    lemma_service_missing(services, 0xFFE0, 0);
    lemma_service_missing(services, 0xFFF1, 0);
    lemma_service_missing(services, 0xFFE1, 0);
    lemma_service_missing(services, 0xFFF5, 0);
    lemma_service_missing(services, 0xFFE5, 0);
    lemma_service_missing(services, 0x0FFE, 0);
    assert(vendors.len() == 7 && vendors[0] == 0xFFF0 && vendors[1] == 0xFFE0 && vendors[2]
        == 0xFFF1 && vendors[3] == 0xFFE1 && vendors[4] == 0xFFF5 && vendors[5] == 0xFFE5
        && vendors[6] == 0x0FFE);
    reveal_with_fuel(discovery::vendor_plan, 8);
    if 0 <= s < services.len() && !discovery::is_common(services[s].uuid) && 0 <= c
        < services[s].characteristics@.len() && (services[s].characteristics@[c].notify
        || services[s].characteristics@[c].indicate) {
        lemma_channels_of_all_services(services, services.len(), s, c);
    }
}

/// Whether no other channel has the same text.
pub open spec fn stands_alone(chars: Seq<GattCharacteristic>, c: int) -> bool {
    &&& 0 <= c < chars.len()
    &&& forall|i: int|
        0 <= i < chars.len() && i != c ==> (#[trigger] chars[i]).uuid_text@ != chars[c].uuid_text@
}

/// What has been looked at and sends is listened to.
spec fn taken(
    chars: Seq<GattCharacteristic>,
    service: int,
    label: Seq<char>,
    scan: ScanView,
    c: int,
) -> bool {
    scan.seen.contains(discovery::label_of(chars[c], label)) ==> listens(scan.subs, service, c)
}

proof fn lemma_looked_at(
    chars: Seq<GattCharacteristic>,
    service: int,
    label: Seq<char>,
    scan: ScanView,
    place: int,
    bookoo: bool,
    c: int,
)
    requires
        stands_alone(chars, c),
        chars[c].notify || chars[c].indicate,
        0 <= place < chars.len(),
        taken(chars, service, label, scan, c),
    ensures
        ({
            let after = discovery::looked_at(
                scan,
                chars[place],
                service,
                place,
                discovery::label_of(chars[place], label),
                bookoo,
            );
            &&& taken(chars, service, label, after, c)
            &&& place == c ==> listens(after.subs, service, c)
            &&& listens(scan.subs, service, c) ==> listens(after.subs, service, c)
        }),
{
    let l = discovery::label_of(chars[place], label);
    let own = discovery::label_of(chars[c], label);
    let after = discovery::looked_at(scan, chars[place], service, place, l, bookoo);
    let middle = " on service "@;
    if place != c {
        assert(chars[place].uuid_text@ != chars[c].uuid_text@);
        lemma_label_tells_apart(chars[place].uuid_text@, chars[c].uuid_text@, middle + label);
        assert(l =~= chars[place].uuid_text@ + (middle + label));
        assert(own =~= chars[c].uuid_text@ + (middle + label));
        assert(l != own);
    }
    if listens(scan.subs, service, c) {
        let i = choose|i: int|
            0 <= i < scan.subs.len() && (#[trigger] scan.subs[i]).service == service
                && scan.subs[i].characteristic == c;
        assert(after.subs[i] == scan.subs[i]);
        assert(listens(after.subs, service, c));
    }
    if after.seen.contains(own) && !scan.seen.contains(own) {
        let i = choose|i: int| 0 <= i < after.seen.len() && after.seen[i] == own;
        assert(after.seen == scan.seen.push(l));
        assert(i == scan.seen.len()) by {
            if i < scan.seen.len() {
                assert(scan.seen[i] == own);
            }
        }
        assert(place == c);
    }
    if place == c && !scan.seen.contains(own) {
        assert(after.subs[scan.subs.len() as int].characteristic == c);
        assert(listens(after.subs, service, c));
    }
}

proof fn lemma_label_tells_apart(a: Seq<char>, b: Seq<char>, back: Seq<char>)
    requires
        a != b,
    ensures
        a + back != b + back,
{
    if a + back == b + back {
        assert(a.len() == b.len()) by {
            assert((a + back).len() == (b + back).len());
        }
        assert forall|i: int| 0 <= i < a.len() implies a[i] == b[i] by {
            assert((a + back)[i] == (b + back)[i]);
        }
        assert(a =~= b);
    }
}

proof fn lemma_known_scan_takes(
    chars: Seq<GattCharacteristic>,
    service: int,
    svc: u16,
    n: nat,
    c: int,
)
    requires
        stands_alone(chars, c),
        chars[c].notify || chars[c].indicate,
        n <= discovery::vendor_channels().len(),
    ensures
        taken(
            chars,
            service,
            discovery::short_label(svc),
            discovery::known_scan(chars, service, svc, n),
            c,
        ),
    decreases n,
{
    if n > 0 {
        let before = discovery::known_scan(chars, service, svc, (n - 1) as nat);
        let short = discovery::vendor_channels()[n - 1];
        lemma_known_scan_takes(chars, service, svc, (n - 1) as nat, c);
        lemma_channel_in_range(chars, short, 0);
        match discovery::channel_from(chars, short, 0) {
            Some(k) => {
                lemma_looked_at(
                    chars,
                    service,
                    discovery::short_label(svc),
                    before,
                    k,
                    svc == discovery::UUID_SERVICE_BOOKOO && short
                        == discovery::UUID_CHAR_BOOKOO_WEIGHT,
                    c,
                );
            },
            None => {},
        }
    }
}

proof fn lemma_channel_in_range(chars: Seq<GattCharacteristic>, short: u16, at: nat)
    ensures
        discovery::channel_from(chars, short, at) matches Some(c) ==> 0 <= c < chars.len(),
    decreases chars.len() - at,
{
    if at < chars.len() && !chars[at as int].uuid.stands_for(short) {
        lemma_channel_in_range(chars, short, at + 1);
    }
}

proof fn lemma_rest_scan_takes(
    chars: Seq<GattCharacteristic>,
    service: int,
    svc: u16,
    n: nat,
    c: int,
)
    requires
        stands_alone(chars, c),
        chars[c].notify || chars[c].indicate,
        n <= chars.len(),
    ensures
        taken(
            chars,
            service,
            discovery::short_label(svc),
            discovery::rest_scan(chars, service, svc, n),
            c,
        ),
        c < n ==> listens(discovery::rest_scan(chars, service, svc, n).subs, service, c),
    decreases n,
{
    if n > 0 {
        lemma_rest_scan_takes(chars, service, svc, (n - 1) as nat, c);
        lemma_looked_at(
            chars,
            service,
            discovery::short_label(svc),
            discovery::rest_scan(chars, service, svc, (n - 1) as nat),
            n - 1,
            false,
            c,
        );
    } else {
        lemma_known_scan_takes(chars, service, svc, discovery::vendor_channels().len(), c);
    }
}

proof fn lemma_no_bookoo_elsewhere(chars: Seq<GattCharacteristic>, service: int, svc: u16, n: nat)
    requires
        svc != 0x0FFE,
        n <= discovery::vendor_channels().len(),
    ensures
        !discovery::known_scan(chars, service, svc, n).bookoo,
    decreases n,
{
    if n > 0 {
        lemma_no_bookoo_elsewhere(chars, service, svc, (n - 1) as nat);
    }
}

/// The services that scales of some makers have, in the order in which they are looked for, but
/// for the one of a Bookoo scale, which comes last.
pub open spec fn makers() -> Seq<u16> {
    seq![0xFFF0u16, 0xFFE0, 0xFFF1, 0xFFE1, 0xFFF5, 0xFFE5]
}

proof fn lemma_vendor_plan_reaches(services: Seq<GattService>, at: nat, k: int)
    requires
        at <= k < 6,
        forall|i: int| 0 <= i < k ==> no_service(services, #[trigger] makers()[i]),
        discovery::vendor_plan_for(services, makers()[k]) is Some,
    ensures
        discovery::vendor_plan(services, at) == discovery::vendor_plan_for(services, makers()[k]),
    decreases k - at,
{
    assert(discovery::vendor_services()[at as int] == makers()[at as int]);
    if at < k {
        assert(no_service(services, makers()[at as int]));
        lemma_service_missing(services, makers()[at as int], 0);
        lemma_vendor_plan_reaches(services, at + 1, k);
    }
}

/// A scale with the service of a maker, without the standard one and those that are looked for
/// before it, is listened to on every channel of that service that sends and whose text is its
/// own.
pub proof fn lemma_vendor_scale(services: Seq<GattService>, name: Seq<char>, k: int, s: int, c: int)
    requires
        0 <= k < 6,
        no_service(services, 0x181D),
        forall|i: int| 0 <= i < k ==> no_service(services, #[trigger] makers()[i]),
        first_service(services, makers()[k], s),
        stands_alone(services[s].characteristics@, c),
        services[s].characteristics@[c].notify || services[s].characteristics@[c].indicate,
    ensures
        discovery::plan_for(services, name) matches Some(plan) && plan.protocol
            == ScaleProtocol::GenericNotify && plan.bookoo_command is None && listens(
            plan.subscriptions,
            s,
            c,
        ),
{
    let chars = services[s].characteristics@;
    let svc = makers()[k];
    assert(svc != 0x0FFE);
    lemma_service_missing(services, 0x181D, 0);
    lemma_service_found(services, svc, s, 0);
    lemma_no_bookoo_elsewhere(chars, s, svc, discovery::vendor_channels().len());
    lemma_rest_scan_takes(chars, s, svc, chars.len(), c);
    let subs = discovery::rest_scan(chars, s, svc, chars.len()).subs;
    assert(subs.len() > 0);
    assert(discovery::vendor_plan_for(services, svc) is Some);
    lemma_vendor_plan_reaches(services, 0, k);
}

/// A scale with the standard service but without its weight channel is listened to on every
/// channel of that service that sends.
pub proof fn lemma_standard_service_without_weight(
    services: Seq<GattService>,
    name: Seq<char>,
    s: int,
    c: int,
)
    requires
        first_service(services, 0x181D, s),
        no_channel(services[s].characteristics@, 0x2A9D),
        0 <= c < services[s].characteristics@.len(),
        services[s].characteristics@[c].notify || services[s].characteristics@[c].indicate,
    ensures
        discovery::plan_for(services, name) matches Some(plan) && plan.protocol
            == ScaleProtocol::GenericNotify && plan.bookoo_command is None && listens(
            plan.subscriptions,
            s,
            c,
        ),
{
    let chars = services[s].characteristics@;
    lemma_service_found(services, 0x181D, s, 0);
    lemma_channel_missing(chars, 0x2A9D, 0);
    lemma_all_sending_channels(
        chars,
        s,
        discovery::short_label(0x181D),
        chars.len(),
        c,
    );
}

/// The services that every device has are those of access, attributes and the battery.
pub proof fn lemma_common_services(uuid: GattUuid)
    ensures
        discovery::is_common(uuid) <==> (uuid matches GattUuid::Short(v) && (v == 0x1800 || v
            == 0x1801 || v == 0x180F)),
{
}

proof fn lemma_only_own_service(
    chars: Seq<GattCharacteristic>,
    service: int,
    label: Seq<char>,
    n: nat,
)
    ensures
        forall|i: int|
            0 <= i < discovery::sending_channels(chars, service, label, n).len() ==> (
            #[trigger] discovery::sending_channels(chars, service, label, n)[i]).service == service,
    decreases n,
{
    if n > 0 {
        lemma_only_own_service(chars, service, label, (n - 1) as nat);
    }
}

proof fn lemma_common_are_left_out(services: Seq<GattService>, n: nat, i: int)
    requires
        n <= services.len(),
        0 <= i < discovery::all_channels(services, n).len(),
    ensures
        ({
            let s = discovery::all_channels(services, n)[i].service;
            0 <= s < n && !discovery::is_common(services[s].uuid)
        }),
    decreases n,
{
    if n > 0 {
        let m = (n - 1) as nat;
        let before = discovery::all_channels(services, m);
        let last = services[n - 1];
        if i < before.len() {
            lemma_common_are_left_out(services, m, i);
        } else {
            lemma_only_own_service(
                last.characteristics@,
                n - 1,
                last.uuid_text@,
                last.characteristics@.len(),
            );
        }
    }
}

/// A scale with none of the known services is not listened to on a channel of a service that
/// every device has.
pub proof fn lemma_common_services_are_left_out(
    services: Seq<GattService>,
    name: Seq<char>,
    i: int,
)
    requires
        nothing_known(services),
    ensures
        discovery::plan_for(services, name) matches Some(plan) ==> (0 <= i
            < plan.subscriptions.len() ==> ({
            let s = plan.subscriptions[i].service;
            0 <= s < services.len() && !discovery::is_common(services[s].uuid)
        })),
{
    lemma_unknown_scale(services, name, 0, 0);
    let vendors = discovery::vendor_services();
    lemma_service_missing(services, 0x181D, 0);
    lemma_service_missing(services, 0xFFF0, 0);
    lemma_service_missing(services, 0xFFE0, 0);
    lemma_service_missing(services, 0xFFF1, 0);
    lemma_service_missing(services, 0xFFE1, 0);
    lemma_service_missing(services, 0xFFF5, 0);
    lemma_service_missing(services, 0xFFE5, 0);
    lemma_service_missing(services, 0x0FFE, 0);
    assert(vendors.len() == 7 && vendors[0] == 0xFFF0 && vendors[1] == 0xFFE0 && vendors[2]
        == 0xFFF1 && vendors[3] == 0xFFE1 && vendors[4] == 0xFFF5 && vendors[5] == 0xFFE5
        && vendors[6] == 0x0FFE);
    reveal_with_fuel(discovery::vendor_plan, 8);
    let all = discovery::all_channels(services, services.len());
    if 0 <= i < all.len() {
        lemma_common_are_left_out(services, services.len(), i);
    }
}

proof fn lemma_word_occurs(front: Seq<char>, written: Seq<char>, back: Seq<char>, word: Seq<char>)
    requires
        text::same_ignoring_case(written, word),
        text::lower(word) == word,
    ensures
        text::occurs_in(text::lower(front + written + back), word),
{
    let low = text::lower(front + written + back);
    let at = front.len() as int;
    assert(text::lower(written).len() == word.len());
    assert(low.subrange(at, at + word.len()) =~= word) by {
        assert forall|i: int| 0 <= i < word.len() implies low[at + i] == word[i] by {
            assert(text::lower(written)[i] == word[i]);
        }
    }
    assert(text::stands_at(low, word, at));
}

/// A name with one of the words that scales go by in it, anywhere and in capitals or not, is that
/// of a scale.
pub proof fn lemma_scales_are_recognised(
    front: Seq<char>,
    written: Seq<char>,
    back: Seq<char>,
    word: Seq<char>,
)
    requires
        text::same_ignoring_case(written, word),
        word == "scale"@ || word == "acaia"@ || word == "felicita"@ || word == "pearl"@ || word
            == "lunar"@ || word == "decent"@ || word == "timemore"@ || word == "mirror"@ || word
            == "bookoo"@ || word == "atomax"@,
    ensures
        types::scale_like(front + written + back),
{
    reveal_strlit("scale");
    reveal_strlit("acaia");
    reveal_strlit("felicita");
    reveal_strlit("pearl");
    reveal_strlit("lunar");
    reveal_strlit("decent");
    reveal_strlit("timemore");
    reveal_strlit("mirror");
    reveal_strlit("bookoo");
    reveal_strlit("atomax");
    assert(text::lower(word) =~= word);
    lemma_word_occurs(front, written, back, word);
}

} // verus!
