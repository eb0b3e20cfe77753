//! The portal that asks for credentials: its name server, its list of networks and its state.
use crate::text;
use crate::wifi_provision::http;
use crate::wifi_provision::nvs;
use crate::wifi_provision::nvs::{MAX_PASS_LEN, MAX_SSID_LEN};
use vstd::prelude::*;
use vstd::slice::slice_subrange;
use vstd::string::*;

verus! {

/// The name of the portal's network.
pub const AP_SSID: &'static str = "OpenBarista";

/// A number of two bytes, the high byte first.
pub open spec fn word_at(s: Seq<u8>, i: int) -> int {
    s[i] * 256 + s[i + 1]
}

/// How many bytes of a query stand at `at` and behind it.
pub open spec fn bytes_left(query: Seq<u8>, at: nat) -> nat {
    if at < query.len() {
        (query.len() - at) as nat
    } else {
        0
    }
}

/// Where the name in a query ends that goes on at `at`: behind its empty label, or behind the
/// end of the query.
pub open spec fn name_end(query: Seq<u8>, at: nat) -> nat
    decreases bytes_left(query, at),
{
    if at >= query.len() {
        at
    } else if query[at as int] == 0 {
        at + 1
    } else {
        name_end(query, at + 1 + query[at as int] as nat)
    }
}

/// Where the question ends.
pub open spec fn question_end(query: Seq<u8>) -> nat {
    name_end(query, 12) + 4
}

/// Whether a packet is a query with a whole question.
pub open spec fn is_question(query: Seq<u8>) -> bool {
    &&& query.len() >= 12
    &&& query[2] < 0x80
    &&& word_at(query, 4) > 0
    &&& question_end(query) <= query.len()
}

/// Whether the question is answered with an address: it asks for one or for anything.
pub open spec fn asks_for_address(query: Seq<u8>) -> bool {
    let kind = word_at(query, name_end(query, 12) as int);
    kind == 1 || kind == 255
}

/// The answer to every name: the portal's address, for 30 seconds.
pub open spec fn address_record(gateway: Seq<u8>) -> Seq<u8> {
    seq![0xC0u8, 0x0C, 0, 1, 0, 1, 0, 0, 0, 30, 0, 4] + gateway
}

/// The reply to a query: its number, one question as it was asked, and an answer or none.
pub open spec fn reply_to(query: Seq<u8>, gateway: Seq<u8>) -> Seq<u8> {
    let answers: u8 = if asks_for_address(query) {
        1
    } else {
        0
    };
    query.subrange(0, 2) + seq![0x81u8, 0x80, 0, 1, 0, answers, 0, 0, 0, 0] + query.subrange(
        12,
        question_end(query) as int,
    ) + if asks_for_address(query) {
        address_record(gateway)
    } else {
        Seq::empty()
    }
}

fn find_name_end(query: &[u8]) -> (r: Option<usize>)
    requires
        query@.len() >= 12,
    ensures
        match r {
            Some(end) => end == name_end(query@, 12),
            None => name_end(query@, 12) > query@.len(),
        },
{
    let mut at: usize = 12;
    while at < query.len()
        invariant
            query@.len() >= 12,
            name_end(query@, 12) == name_end(query@, at as nat),
        decreases query.len() - at,
    {
        let label_len: usize = query[at] as usize;
        if label_len == 0 {
            return Some(at + 1);
        }
        if label_len > query.len() - (at + 1) {
            assert(name_end(query@, (at + 1 + label_len) as nat) == at + 1 + label_len);
            return None;
        }
        at = at + 1 + label_len;
    }
    Some(at)
}

/// The reply to a packet that came to the portal's name server. It answers every question with
/// the portal's own address.
pub fn build_dns_reply(query: &[u8], ap_gateway: [u8; 4]) -> (r: Option<Vec<u8>>)
    ensures
        is_question(query@) ==> (r matches Some(reply) && reply@ == reply_to(query@, ap_gateway@)),
        !is_question(query@) ==> r is None,
{
    if query.len() < 12 {
        return None;
    }
    if query[2] >= 0x80 || (query[4] == 0 && query[5] == 0) {
        return None;
    }
    let end: usize = match find_name_end(query) {
        Some(end) => end,
        None => {
            return None;
        },
    };
    if query.len() < 4 || end > query.len() - 4 {
        return None;
    }
    proof {
        lemma_name_end_is_beyond(query@, 12);
    }
    let kind: u16 = query[end] as u16 * 256 + query[end + 1] as u16;
    let answers: u8 = if kind == 1 || kind == 255 {
        1
    } else {
        0
    };
    let mut reply: Vec<u8> = Vec::new();
    reply.extend_from_slice(slice_subrange(query, 0, 2));
    let header: [u8; 10] = [0x81, 0x80, 0, 1, 0, answers, 0, 0, 0, 0];
    reply.extend_from_slice(&header);
    reply.extend_from_slice(slice_subrange(query, 12, end + 4));
    if answers == 1 {
        let record: [u8; 12] = [0xC0, 0x0C, 0, 1, 0, 1, 0, 0, 0, 30, 0, 4];
        reply.extend_from_slice(&record);
        reply.extend_from_slice(&ap_gateway);
    }
    assert(reply@ =~= reply_to(query@, ap_gateway@));
    Some(reply)
}

/// A reply has the query's number and repeats its question, and an answer ends in the portal's
/// address.
pub proof fn lemma_reply_answers_its_query(query: Seq<u8>, gateway: Seq<u8>)
    requires
        is_question(query),
        gateway.len() == 4,
    ensures
        ({
            let reply = reply_to(query, gateway);
            let end = question_end(query) as int;
            &&& reply.len() == if asks_for_address(query) {
                end + 16
            } else {
                end
            }
            &&& reply.subrange(0, 2) == query.subrange(0, 2)
            &&& reply.subrange(12, end) == query.subrange(12, end)
            &&& name_end(reply, 12) == name_end(query, 12)
            &&& asks_for_address(query) ==> reply.subrange(end + 12, end + 16) == gateway
        }),
{
    let reply = reply_to(query, gateway);
    let end = question_end(query) as int;
    lemma_name_end_is_beyond(query, 12);
    assert(reply.subrange(0, 2) =~= query.subrange(0, 2));
    assert(reply.subrange(12, end) =~= query.subrange(12, end));
    if asks_for_address(query) {
        assert(reply.subrange(end + 12, end + 16) =~= gateway);
    }
    assert forall|i: int| 12 <= i < end implies reply[i] == query[i] by {
        assert(reply.subrange(12, end)[i - 12] == query.subrange(12, end)[i - 12]);
    }
    lemma_same_name_end(query, reply, 12, end);
}

proof fn lemma_name_end_is_beyond(query: Seq<u8>, at: nat)
    ensures
        name_end(query, at) >= at,
    decreases bytes_left(query, at),
{
    if at < query.len() && query[at as int] != 0 {
        lemma_name_end_is_beyond(query, at + 1 + query[at as int] as nat);
    }
}

proof fn lemma_same_name_end(a: Seq<u8>, b: Seq<u8>, at: nat, end: int)
    requires
        name_end(a, at) + 4 == end,
        end <= a.len(),
        end <= b.len(),
        forall|i: int| at <= i < end ==> a[i] == b[i],
    ensures
        name_end(b, at) == name_end(a, at),
    decreases bytes_left(a, at),
{
    lemma_name_end_is_beyond(a, at);
    if a[at as int] != 0 {
        lemma_name_end_is_beyond(a, at + 1 + a[at as int] as nat);
        lemma_same_name_end(a, b, at + 1 + a[at as int] as nat, end);
    }
}

/// Whether names stand in order and none occurs twice.
pub open spec fn in_order(names: Seq<Seq<char>>) -> bool {
    forall|i: int, j: int|
        0 <= i < j < names.len() ==> text::text_before(#[trigger] names[i], #[trigger] names[j])
}

fn insert_name(list: &mut Vec<String>, name: String)
    requires
        in_order(http::texts(old(list)@)),
    ensures
        in_order(http::texts(final(list)@)),
        forall|s: Seq<char>| #[trigger]
            http::texts(final(list)@).contains(s) <==> http::texts(old(list)@).contains(s) || s
                == name@,
{
    let ghost before = http::texts(list@);
    let mut at: usize = 0;
    while at < list.len() && text::is_text_before(list[at].as_str(), name.as_str())
        invariant
            at <= list.len(),
            list@ == old(list)@,
            before == http::texts(list@),
            forall|k: int| 0 <= k < at ==> text::text_before(#[trigger] before[k], name@),
        decreases list.len() - at,
    {
        at = at + 1;
    }
    if at < list.len() && !text::is_text_before(name.as_str(), list[at].as_str()) {
        proof {
            text::lemma_text_order_is_total(name@, before[at as int]);
            assert(before[at as int] == name@);
            assert(before.contains(name@));
        }
        return;
    }
    let ghost added = name@;
    list.insert(at, name);
    proof {
        let after = http::texts(list@);
        assert(after =~= before.insert(at as int, added));
        assert forall|i: int, j: int| 0 <= i < j < after.len() implies text::text_before(
            #[trigger] after[i],
            #[trigger] after[j],
        ) by {
            if j == at {
                assert(after[i] == before[i]);
            } else if i == at {
                assert(after[j] == before[j - 1]);
                if j - 1 > at {
                    text::lemma_text_order_is_transitive(
                        added,
                        before[at as int],
                        before[j - 1],
                    );
                }
            } else {
                let i0 = if i > at {
                    i - 1
                } else {
                    i
                };
                let j0 = if j > at {
                    j - 1
                } else {
                    j
                };
                assert(after[i] == before[i0] && after[j] == before[j0]);
            }
        }
        assert forall|s: Seq<char>| #[trigger]
            after.contains(s) <==> before.contains(s) || s == added by {
            if before.contains(s) {
                let k = choose|k: int| 0 <= k < before.len() && before[k] == s;
                if k < at {
                    assert(after[k] == s);
                } else {
                    assert(after[k + 1] == s);
                }
            }
            if s == added {
                assert(after[at as int] == s);
            }
            if after.contains(s) {
                let k = choose|k: int| 0 <= k < after.len() && after[k] == s;
                if k < at {
                    assert(before[k] == s);
                } else if k > at {
                    assert(before[k - 1] == s);
                }
            }
        }
    }
}

/// The networks to offer out of what a scan found: each name once, in order, and no empty name.
pub fn refresh_network_cache(found: Vec<String>) -> (r: Vec<String>)
    ensures
        in_order(http::texts(r@)),
        forall|s: Seq<char>| #[trigger]
            http::texts(r@).contains(s) <==> s.len() > 0 && http::texts(found@).contains(s),
{
    let ghost all = http::texts(found@);
    let mut rest = found;
    let mut names: Vec<String> = Vec::new();
    let ghost mut left: int = all.len() as int;
    assert(all.take(left) =~= all);
    assert(http::texts(names@) =~= Seq::empty());
    while rest.len() > 0
        invariant
            0 <= left <= all.len(),
            http::texts(rest@) == all.take(left),
            in_order(http::texts(names@)),
            forall|s: Seq<char>| #[trigger]
                http::texts(names@).contains(s) <==> s.len() > 0 && all.skip(left).contains(s),
        decreases rest.len(),
    {
        let ghost before = http::texts(rest@);
        let ghost listed = http::texts(names@);
        let name = rest.pop().unwrap();
        let ghost taken = name@;
        proof {
            assert(before.len() == left);
            assert(http::texts(rest@) =~= all.take(left - 1));
            assert(before[left - 1] == taken);
            assert(taken == all[left - 1]);
        }
        if !name.as_str().is_empty() {
            insert_name(&mut names, name);
        }
        proof {
            assert forall|s: Seq<char>| #[trigger]
                http::texts(names@).contains(s) <==> s.len() > 0 && all.skip(left - 1).contains(
                    s,
                ) by {
                let longer = all.skip(left - 1);
                let shorter = all.skip(left);
                assert(longer =~= seq![taken] + shorter);
                assert(longer[0] == taken);
                if shorter.contains(s) {
                    let k = choose|k: int| 0 <= k < shorter.len() && shorter[k] == s;
                    assert(longer[k + 1] == s);
                }
                if longer.contains(s) {
                    let k = choose|k: int| 0 <= k < longer.len() && longer[k] == s;
                    if k > 0 {
                        assert(shorter[k - 1] == s);
                    }
                }
            }
            left = left - 1;
        }
    }
    assert(all.skip(0) =~= all);
    names
}

/// Whether the portal still waits for credentials.
#[derive(Debug, Clone, Copy, PartialEq, Eq, Structural)]
pub enum ProvisionStatus {
    Idle,
    Rebooting,
}

/// The portal's state in JSON.
pub fn provision_status_json(status: ProvisionStatus) -> (r: String)
    ensures
        r@ == match status {
            ProvisionStatus::Idle =>
                "{\"stage\":\"provisioning\",\"ssid\":\"\",\"attempt\":0,\"total\":5,\"message\":\"Waiting for Wi-Fi credentials.\"}"@,
            ProvisionStatus::Rebooting =>
                "{\"stage\":\"rebooting\",\"ssid\":\"\",\"attempt\":0,\"total\":5,\"message\":\"Saved credentials. Rebooting now...\"}"@,
        },
{
    match status {
        ProvisionStatus::Idle =>
            "{\"stage\":\"provisioning\",\"ssid\":\"\",\"attempt\":0,\"total\":5,\"message\":\"Waiting for Wi-Fi credentials.\"}".to_owned(),
        ProvisionStatus::Rebooting =>
            "{\"stage\":\"rebooting\",\"ssid\":\"\",\"attempt\":0,\"total\":5,\"message\":\"Saved credentials. Rebooting now...\"}".to_owned(),
    }
}

/// The paths at which the portal's page stands. Systems that look for a portal ask for these.
pub fn captive_paths() -> (r: [&'static str; 7])
    ensures
        r@.map_values(|p: &str| p@) == seq![
            "/"@,
            "/generate_204"@,
            "/hotspot-detect.html"@,
            "/fwlink"@,
            "/connecttest.txt"@,
            "/ncsi.txt"@,
            "/redirect"@,
        ],
{
    let r: [&'static str; 7] = [
        "/",
        "/generate_204",
        "/hotspot-detect.html",
        "/fwlink",
        "/connecttest.txt",
        "/ncsi.txt",
        "/redirect",
    ];
    assert(r@.map_values(|p: &str| p@) =~= seq![
        "/"@,
        "/generate_204"@,
        "/hotspot-detect.html"@,
        "/fwlink"@,
        "/connecttest.txt"@,
        "/ncsi.txt"@,
        "/redirect"@,
    ]);
    r
}

/// What the device does about the network when it starts.
#[derive(Debug)]
pub enum WifiPlan {
    /// It asks for credentials.
    Provision,
    /// It joins an open network.
    JoinOpen(String, String),
    /// It looks how the network is secured, and joins it.
    JoinSecured(String, String),
}

/// What the device does about the network when it starts: without a network name and a password
/// it asks for them.
pub fn plan_wifi(ssid: Option<String>, pass: Option<String>) -> (r: Result<WifiPlan, &'static str>)
    ensures
        match (nvs::text_view(ssid), nvs::text_view(pass)) {
            (Some(s), Some(p)) => if nvs::byte_length(s) > MAX_SSID_LEN {
                r matches Err(m) && m@ == "Saved SSID is too long (max 32 chars)"@
            } else if nvs::byte_length(p) > MAX_PASS_LEN {
                r matches Err(m) && m@ == "Saved password is too long (max 64 chars)"@
            } else if p.len() == 0 {
                r matches Ok(WifiPlan::JoinOpen(name, word)) && name@ == s && word@ == p
            } else {
                r matches Ok(WifiPlan::JoinSecured(name, word)) && name@ == s && word@ == p
            },
            _ => r matches Ok(WifiPlan::Provision),
        },
{
    match (ssid, pass) {
        (Some(s), Some(p)) => {
            if nvs::is_longer_than(s.as_str(), MAX_SSID_LEN) {
                return Err("Saved SSID is too long (max 32 chars)");
            }
            if nvs::is_longer_than(p.as_str(), MAX_PASS_LEN) {
                return Err("Saved password is too long (max 64 chars)");
            }
            if p.as_str().is_empty() {
                Ok(WifiPlan::JoinOpen(s, p))
            } else {
                Ok(WifiPlan::JoinSecured(s, p))
            }
        },
        _ => Ok(WifiPlan::Provision),
    }
}

} // verus!
