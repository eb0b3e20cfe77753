//! What the portal answers, and what the device does about the network.
use crate::text;
use crate::wifi_provision::captive;
use crate::wifi_provision::form_laws;
use crate::wifi_provision::nvs;
use crate::wifi_provision::progress;
use crate::wifi_provision::progress::{NetworkAuth, ScannedNetwork};
use vstd::prelude::*;

verus! {

/// A name in a query: each label behind its length, and a length of 0 at the end.
pub open spec fn written_name(labels: Seq<Seq<u8>>) -> Seq<u8>
    decreases labels.len(),
{
    if labels.len() == 0 {
        seq![0u8]
    } else {
        seq![labels[0].len() as u8] + labels[0] + written_name(labels.skip(1))
    }
}

/// Whether every label of a name has 1 to 255 bytes.
pub open spec fn good_labels(labels: Seq<Seq<u8>>) -> bool {
    forall|i: int| 0 <= i < labels.len() ==> 1 <= (#[trigger] labels[i]).len() <= 255
}

/// The end of a name in a query is found behind all its labels.
pub proof fn lemma_name_ends_behind_its_labels(
    front: Seq<u8>,
    labels: Seq<Seq<u8>>,
    rest: Seq<u8>,
)
    requires
        good_labels(labels),
    ensures
        captive::name_end(front + written_name(labels) + rest, front.len()) == front.len()
            + written_name(labels).len(),
    decreases labels.len(),
{
    let query = front + written_name(labels) + rest;
    let at = front.len();
    if labels.len() == 0 {
        assert(query[at as int] == 0);
    } else {
        let first = labels[0];
        let more = labels.skip(1);
        let next = front + seq![first.len() as u8] + first;
        assert(1 <= labels[0].len() <= 255);
        assert(query[at as int] == first.len());
        assert forall|i: int| 0 <= i < more.len() implies 1 <= (#[trigger] more[i]).len()
            <= 255 by {
            assert(more[i] == labels[i + 1]);
        }
        lemma_name_ends_behind_its_labels(next, more, rest);
        assert(query =~= next + written_name(more) + rest);
    }
}

/// A query for a name is answered: the reply has the query's number, says that it is an answer
/// without an error, repeats the question, and for an address or anything ends in one record
/// with the portal's address, which may be kept for 30 seconds. Another question gets no record.
pub proof fn lemma_name_is_answered(
    head: Seq<u8>,
    labels: Seq<Seq<u8>>,
    kind: u16,
    class: Seq<u8>,
    gateway: Seq<u8>,
)
    requires
        head.len() == 12,
        head[2] < 128,
        head[4] != 0 || head[5] != 0,
        good_labels(labels),
        class.len() == 2,
        gateway.len() == 4,
    ensures
        ({
            let name = written_name(labels);
            let asked = name + seq![(kind / 256) as u8, (kind % 256) as u8] + class;
            let query = head + asked;
            let reply = captive::reply_to(query, gateway);
            let record = kind == 1 || kind == 255;
            &&& captive::is_question(query)
            &&& reply.subrange(0, 2) == head.subrange(0, 2)
            &&& reply[2] >= 128 && reply[3] % 16 == 0
            &&& reply[4] == 0 && reply[5] == 1
            &&& reply[6] == 0 && reply[7] == if record {
                1u8
            } else {
                0u8
            }
            &&& reply[8] == 0 && reply[9] == 0 && reply[10] == 0 && reply[11] == 0
            &&& reply.subrange(12, 12 + asked.len() as int) == asked
            &&& !record ==> reply.len() == 12 + asked.len()
            &&& record ==> {
                let r = reply.skip(12 + asked.len() as int);
                &&& r.len() == 16
                &&& r[0] == 0xC0 && r[1] == 12
                &&& r[2] == 0 && r[3] == 1
                &&& r[4] == 0 && r[5] == 1
                &&& r[6] == 0 && r[7] == 0 && r[8] == 0 && r[9] == 30
                &&& r[10] == 0 && r[11] == 4
                &&& r.subrange(12, 16) == gateway
            }
        }),
{
    let name = written_name(labels);
    let high = (kind / 256) as u8;
    let low = (kind % 256) as u8;
    let tail = seq![high, low] + class;
    let asked = name + seq![high, low] + class;
    let query = head + asked;
    let reply = captive::reply_to(query, gateway);
    assert(query =~= head + name + tail);
    lemma_name_ends_behind_its_labels(head, labels, tail);
    let end = 12 + name.len() as int;
    assert(captive::question_end(query) == end + 4);
    assert(query[end] == high && query[end + 1] == low);
    assert(captive::word_at(query, end) == kind) by {
        assert(high as int * 256 + low as int == kind);
    }
    assert(query[2] == head[2] && query[4] == head[4] && query[5] == head[5]);
    assert(query.subrange(12, end + 4) =~= asked);
    assert(reply.subrange(0, 2) =~= head.subrange(0, 2));
    assert(reply.subrange(12, 12 + asked.len() as int) =~= asked);
    if kind == 1 || kind == 255 {
        let r = reply.skip(12 + asked.len() as int);
        assert(r =~= captive::address_record(gateway));
        assert(r.subrange(12, 16) =~= gateway);
    }
}

/// A packet is no query where it is shorter than a header, is an answer itself or asks nothing.
pub proof fn lemma_what_is_not_answered(query: Seq<u8>)
    requires
        query.len() < 12 || query[2] >= 128 || (query[4] == 0 && query[5] == 0),
    ensures
        !captive::is_question(query),
{
}

/// Whether a network is the first of those that were found with a name, whatever the case of its
/// letters.
pub open spec fn first_network(found: Seq<ScannedNetwork>, name: Seq<char>, at: int) -> bool {
    &&& 0 <= at < found.len()
    &&& text::same_ignoring_case(found[at].ssid@, name)
    &&& forall|i: int|
        0 <= i < at ==> !text::same_ignoring_case((#[trigger] found[i]).ssid@, name)
}

/// A network is secured as the first that was found with its name says.
pub proof fn lemma_first_network_counts(found: Seq<ScannedNetwork>, name: Seq<char>, at: int)
    requires
        first_network(found, name, at),
    ensures
        found[at].auth matches Some(auth) ==> progress::auth_of(found, name) == auth,
        found[at].auth is None ==> progress::auth_of(found, name) == NetworkAuth::WPA2WPA3Personal,
    decreases found.len(),
{
    if at > 0 {
        let rest = found.skip(1);
        assert(!text::same_ignoring_case(found[0].ssid@, name));
        assert forall|i: int| 0 <= i < at - 1 implies !text::same_ignoring_case(
            (#[trigger] rest[i]).ssid@,
            name,
        ) by {
            assert(rest[i] == found[i + 1]);
        }
        lemma_first_network_counts(rest, name, at - 1);
    }
}

/// A network that was not found is taken to be secured as most are.
pub proof fn lemma_unknown_network(found: Seq<ScannedNetwork>, name: Seq<char>)
    requires
        forall|i: int|
            0 <= i < found.len() ==> !text::same_ignoring_case((#[trigger] found[i]).ssid@, name),
    ensures
        progress::auth_of(found, name) == NetworkAuth::WPA2WPA3Personal,
    decreases found.len(),
{
    if found.len() > 0 {
        let rest = found.skip(1);
        assert forall|i: int| 0 <= i < rest.len() implies !text::same_ignoring_case(
            (#[trigger] rest[i]).ssid@,
            name,
        ) by {
            assert(rest[i] == found[i + 1]);
        }
        lemma_unknown_network(rest, name);
    }
}

/// Stored settings come back under their own names; what is not stored has its default.
pub proof fn lemma_stored_settings(
    ssid: Option<Seq<char>>,
    label: Option<Seq<char>>,
    offset: Option<Seq<char>>,
)
    ensures
        ({
            let s = nvs::stored_settings(ssid, label, offset);
            &&& ssid matches Some(x) ==> s.ssid == x
            &&& ssid is None ==> s.ssid.len() == 0
            &&& label matches Some(x) ==> s.device_label == x
            &&& label is None ==> s.device_label == "OpenBarista"@
            &&& offset matches Some(x) ==> (crate::decimal::number(x) matches Some(n)
                ==> s.temperature_offset_c == n)
            &&& offset is None ==> s.temperature_offset_c.value() == 0
            &&& offset matches Some(x) ==> (crate::decimal::number(x) is None
                ==> s.temperature_offset_c.value() == 0)
        }),
{
    crate::ieee::lemma_magnitude_value_of_zero(0, crate::binary32::HIDDEN_BIT as nat);
}

/// A scale is stored where it has an address, and its address, name and kind of address have at
/// most 17, 48 and 16 bytes.
pub proof fn lemma_storable_scale(scale: crate::scale_ble::types::SavedScaleView)
    ensures
        nvs::storable(scale) <==> scale.address.len() > 0 && nvs::byte_length(scale.address) <= 17
            && nvs::byte_length(scale.name) <= 48 && nvs::byte_length(scale.addr_type) <= 16,
{
}

/// A stored scale has its own address, name and kind of address, each without white space at its
/// ends, and defaults for the last two. Without an address there is none.
pub proof fn lemma_stored_scale(
    address: Option<Seq<char>>,
    name: Option<Seq<char>>,
    addr_type: Option<Seq<char>>,
)
    ensures
        ({
            let r = nvs::stored_scale(address, name, addr_type);
            &&& address is None ==> r is None
            &&& address matches Some(a) ==> (r is Some <==> text::trimmed(a).len() > 0)
            &&& r matches Some(s) ==> {
                &&& s.address == text::trimmed(address->0)
                &&& name matches Some(n) ==> s.name == text::trimmed(n)
                &&& name is None ==> s.name == "Saved scale"@
                &&& addr_type matches Some(t) ==> s.addr_type == text::trimmed(t)
                &&& addr_type is None ==> s.addr_type == "public"@
            }
        }),
{
    let none = Seq::<char>::empty();
    assert(none + none + none =~= none);
    form_laws::lemma_only_white_space_is_trimmed(none, none, none);
    reveal_strlit("Saved scale");
    reveal_strlit("public");
    let a = "Saved scale"@;
    let b = "public"@;
    assert(a[0] == 'S' && a.last() == 'e' && b[0] == 'p' && b.last() == 'c');
    assert(none + a + none =~= a && none + b + none =~= b);
    form_laws::lemma_only_white_space_is_trimmed(none, a, none);
    form_laws::lemma_only_white_space_is_trimmed(none, b, none);
}

} // verus!
