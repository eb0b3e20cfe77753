//! What is recorded of events, what an upload is answered, and what a sensor is told.
use crate::crash_log;
use crate::crash_log::EntryView;
use crate::decimal;
use crate::health;
use crate::ota_flash;
use crate::ota_flash::UploadOutcome;
use crate::scale_ble::worker;
use crate::sensors::temperature;
use crate::sensors::temperature::ConfigChange;
use crate::text;
use crate::util;
use crate::wifi_provision::json_reading;
use crate::wifi_provision::progress;
use crate::wifi_provision::settings_laws;
use vstd::prelude::*;
use vstd::utf8::*;

verus! {

/// A new entry is the last one. The others stay in front of it in their order, and with 64 of
/// them the oldest leaves.
pub proof fn lemma_new_entry_is_last(entries: Seq<EntryView>, entry: EntryView)
    requires
        entries.len() <= 64,
    ensures
        ({
            let after = crash_log::kept_entries(entries, entry);
            let gone: int = if entries.len() == 64 {
                1
            } else {
                0
            };
            &&& after.len() == entries.len() + 1 - gone
            &&& after.last() == entry
            &&& forall|i: int|
                0 <= i < after.len() - 1 ==> #[trigger] after[i] == entries[i + gone]
        }),
{
}

/// What waits to be written are the entries from a number on, each of them and no other.
pub proof fn lemma_what_is_pending(entries: Seq<EntryView>, flushed_seq: u64, x: EntryView)
    ensures
        crash_log::pending(entries, flushed_seq).contains(x) <==> entries.contains(x) && x.seq
            >= flushed_seq,
    decreases entries.len(),
{
    let all = crash_log::pending(entries, flushed_seq);
    if entries.len() > 0 {
        let shorter = entries.drop_last();
        let front = crash_log::pending(shorter, flushed_seq);
        let last = entries.last();
        lemma_what_is_pending(shorter, flushed_seq, x);
        if entries.contains(x) {
            let i = choose|i: int| 0 <= i < entries.len() && entries[i] == x;
            if i < shorter.len() {
                assert(shorter[i] == x);
            }
        }
        if shorter.contains(x) {
            let i = choose|i: int| 0 <= i < shorter.len() && shorter[i] == x;
            assert(entries[i] == x);
        }
        assert(entries[entries.len() - 1] == last);
        if front.contains(x) {
            let i = choose|i: int| 0 <= i < front.len() && front[i] == x;
            assert(all[i] == x);
        }
        if last.seq >= flushed_seq {
            assert(all[front.len() as int] == last);
            if all.contains(x) {
                let i = choose|i: int| 0 <= i < all.len() && all[i] == x;
                if i < front.len() {
                    assert(front[i] == x);
                }
            }
        }
    }
}

/// A text that is recorded is a front part of what was to be recorded: the whole where that has
/// at most 112 bytes, and else as much as fits, up to a character more.
pub proof fn lemma_recorded_text_fits(s: Seq<char>)
    ensures
        ({
            let t = crash_log::truncated(s);
            &&& t.len() <= s.len()
            &&& t == s.take(t.len() as int)
            &&& encode_utf8(t).len() <= 112
            &&& t.len() < s.len() ==> encode_utf8(s.take(t.len() as int + 1)).len() > 112
        }),
{
    crash_log::lemma_fitting(s, 112);
    let n = crash_log::fitting(s, 112);
    assert(crash_log::truncated(s).len() == n);
}

/// Boots are counted one by one.
pub proof fn lemma_boots_are_counted(count: u32)
    ensures
        count < u32::MAX ==> crash_log::next_boot(count as nat) == count + 1,
        count == u32::MAX ==> crash_log::next_boot(count as nat) == 0,
{
}

/// The entry of a boot names the boot, why it came and the firmware.
pub proof fn lemma_boot_line(count: u32, reason: crash_log::ResetReason, build_id: Seq<char>)
    ensures
        ({
            let line = crash_log::boot_line(count, reason, build_id);
            let digits = text::decimal(count as nat);
            let label = crash_log::reason_text(reason);
            let n = digits.len() as int;
            let m = label.len() as int;
            &&& line.subrange(6, 6 + n) == digits
            &&& decimal::digits_value(line.subrange(6, 6 + n)) == count
            &&& line.subrange(13 + n, 13 + n + m) == label
            &&& line.skip(17 + n + m) == build_id
        }),
{
    reveal_strlit("boot #");
    reveal_strlit(" reset=");
    reveal_strlit(" fw=");
    let line = crash_log::boot_line(count, reason, build_id);
    let digits = text::decimal(count as nat);
    let label = crash_log::reason_text(reason);
    let n = digits.len() as int;
    let m = label.len() as int;
    settings_laws::lemma_decimal_value(count as nat);
    assert(line.subrange(6, 6 + n) =~= digits);
    assert(line.subrange(13 + n, 13 + n + m) =~= label);
    assert(line.skip(17 + n + m) =~= build_id);
}

proof fn lemma_escaped_is_whole(s: Seq<char>)
    ensures
        ({
            let v = seq!['"'] + util::json_escaped(s) + seq!['"'];
            json_reading::whole(v, 0) && json_reading::string_value(v) == Some(s)
        }),
{
    reveal(json_reading::value_length);
    reveal(json_reading::whole);
    let e = util::json_escaped(s);
    let v = seq!['"'] + e + seq!['"'];
    util::lemma_escaped_text_decodes(s);
    assert(v.subrange(1, v.len() - 1) =~= e);
    assert forall|rest: Seq<char>, depth: nat| depth >= 0 implies #[trigger]
        json_reading::value_length(v + rest, depth, false) == v.len() + json_reading::value_length(
        rest,
        depth,
        false,
    ) by {
        let all = v + rest;
        let behind = seq!['"'] + rest;
        assert(all[0] == '"');
        assert(all.skip(1) =~= e + behind);
        json_reading::lemma_escaped_is_passed(s, behind, depth);
        assert(behind.skip(1) =~= rest);
    }
}

/// A reply that something went wrong says so, and why.
pub proof fn lemma_failure_is_read_back(error: Seq<char>)
    ensures
        json_reading::lookup(ota_flash::failure_body(error), "ok"@) == Some("false"@),
        json_reading::lookup(ota_flash::failure_body(error), "error"@) matches Some(v)
            && json_reading::string_value(v) == Some(error),
{
    let l0 = "{\"ok\":"@;
    let l1 = ",\"error\":"@;
    let k0 = "ok"@;
    let k1 = "error"@;
    let v0 = "false"@;
    let v1 = seq!['"'] + util::json_escaped(error) + seq!['"'];
    let end = seq!['}'];
    assert(l0 == seq!['{'] + json_reading::label(k0) && l1 == seq![','] + json_reading::label(k1)
        && json_reading::is_name(k0) && json_reading::is_name(k1) && k0 != k1) by {
        reveal(json_reading::label);
        reveal_strlit("{\"ok\":");
        reveal_strlit(",\"error\":");
        reveal_strlit("ok");
        reveal_strlit("error");
        assert(l0 =~= seq!['{'] + json_reading::label(k0));
        assert(l1 =~= seq![','] + json_reading::label(k1));
        assert(k0.len() != k1.len());
    }
    assert(json_reading::whole(v0, 0)) by {
        reveal_strlit("false");
        json_reading::lemma_plain_is_whole(v0, 0);
    }
    lemma_escaped_is_whole(error);
    json_reading::lemma_written_first(l0, k0, v0);
    json_reading::lemma_written_next(seq![l0], seq![k0], seq![v0], l1, k1, v1);
    let f = seq![l0].push(l1);
    let n = seq![k0].push(k1);
    let w = seq![v0].push(v1);
    assert(ota_flash::failure_body(error) =~= json_reading::written(f, w) + end) by {
        reveal_strlit("{\"ok\":false,\"error\":\"");
        reveal_strlit("\"}");
        reveal_strlit("{\"ok\":");
        reveal_strlit("false");
        reveal_strlit(",\"error\":");
        assert("{\"ok\":false,\"error\":\""@ =~= l0 + v0 + l1 + seq!['"']);
        assert("\"}"@ =~= seq!['"'] + end);
    }
    assert(n[0] == k0 && n[1] == k1 && w[0] == v0 && w[1] == v1);
    json_reading::lemma_written_is_found(f, n, w, 0, end);
    json_reading::lemma_written_is_found(f, n, w, 1, end);
}

/// An upload is answered with success exactly where the image was flashed, with the size as the
/// reason where it was too large, with the device's fault where the flash failed, with the
/// request's fault where the image was refused, and with nothing where the request broke off.
pub proof fn lemma_upload_is_answered(outcome: UploadOutcome)
    ensures
        ({
            let r = ota_flash::upload_reply(outcome);
            &&& r is None <==> outcome is ReadFailed
            &&& r matches Some(reply) ==> {
                &&& reply.status == 200 <==> outcome is Flashed
                &&& reply.status == 413 <==> outcome is TooLarge
                &&& reply.status == 500 <==> outcome is FlashFailed
                &&& reply.status == 400 <==> outcome is BeginFailed || outcome is Rejected
                &&& outcome matches UploadOutcome::BeginFailed(e) ==> reply.body
                    == ota_flash::failure_body(e@)
                &&& outcome matches UploadOutcome::FlashFailed(e) ==> reply.body
                    == ota_flash::failure_body(e@)
                &&& outcome matches UploadOutcome::Rejected(e) ==> reply.body
                    == ota_flash::failure_body(e@)
            }
        }),
{
}

/// Each change of the sensor's configuration sets or clears its own bits and leaves the others
/// alone.
pub proof fn lemma_config_changes_its_own_bits(config: u8, on: bool)
    ensures
        ({
            let wired = temperature::changed(config, ConfigChange::ThreeWire(on));
            let biased = temperature::changed(config, ConfigChange::Bias(on));
            let shot = temperature::changed(config, ConfigChange::OneShot);
            let cleared = temperature::changed(config, ConfigChange::ClearFault);
            &&& wired & 0xefu8 == config & 0xefu8
            &&& wired & 0x10u8 == if on {
                0x10u8
            } else {
                0u8
            }
            &&& biased & 0x7fu8 == config & 0x7fu8
            &&& biased & 0x80u8 == if on {
                0x80u8
            } else {
                0u8
            }
            &&& shot & 0xdfu8 == config & 0xdfu8
            &&& shot & 0x20u8 == 0x20u8
            &&& cleared & 0xd1u8 == config & 0xd1u8
            &&& cleared & 0x2eu8 == 0x02u8
        }),
{
    assert((config | 0x10u8) & 0xefu8 == config & 0xefu8 && (config & !0x10u8) & 0xefu8 == config
        & 0xefu8 && (config | 0x10u8) & 0x10u8 == 0x10u8 && (config & !0x10u8) & 0x10u8 == 0u8)
        by (bit_vector);
    assert((config | 0x80u8) & 0x7fu8 == config & 0x7fu8 && (config & !0x80u8) & 0x7fu8 == config
        & 0x7fu8 && (config | 0x80u8) & 0x80u8 == 0x80u8 && (config & !0x80u8) & 0x80u8 == 0u8)
        by (bit_vector);
    assert((config | 0x20u8) & 0xdfu8 == config & 0xdfu8 && (config | 0x20u8) & 0x20u8 == 0x20u8)
        by (bit_vector);
    assert(((config & !0x2cu8) | 0x02u8) & 0xd1u8 == config & 0xd1u8 && ((config & !0x2cu8)
        | 0x02u8) & 0x2eu8 == 0x02u8) by (bit_vector);
}

/// The numbers in messages are those that the messages are about, in digits: how long a hang
/// lasted, how many devices a scan found, which attempt is under way on which network, how large
/// an image is or was, and in which line of which file a panic happened.
pub proof fn lemma_numbers_in_messages(
    n: u32,
    ssid: Seq<char>,
    attempt: u8,
    size: usize,
    file: Seq<char>,
)
    ensures
        ({
            let d = text::decimal(n as nat);
            let s = text::decimal(size as nat);
            let a = text::decimal(attempt as nat);
            let hang = health::hang_line(n);
            let found = worker::scan_message(n as nat);
            let trying = progress::attempt_message(ssid, attempt);
            let large = ota_flash::too_large_text(size);
            let flashed = ota_flash::upload_line(UploadOutcome::Flashed(size));
            let place = crash_log::location_text(Some((file, n)));
            let m = ssid.len() as int;
            &&& decimal::digits_value(d) == n && decimal::digits_value(s) == size
            &&& decimal::digits_value(a) == attempt
            &&& hang.subrange(30, 30 + d.len() as int) == d
            &&& n > 0 ==> found.subrange(6, 6 + d.len() as int) == d
            &&& trying.subrange(15, 15 + m) == ssid
            &&& trying.subrange(26 + m, 26 + m + a.len()) == a
            &&& large.subrange(10, 10 + s.len() as int) == s
            &&& flashed.subrange(13, 13 + s.len() as int) == s
            &&& place.subrange(4, 4 + file.len() as int) == file
            &&& place.skip(5 + file.len() as int) == d
        }),
{
    settings_laws::lemma_decimal_value(n as nat);
    settings_laws::lemma_decimal_value(size as nat);
    settings_laws::lemma_decimal_value(attempt as nat);
    reveal_strlit("health: main loop stalled for ");
    reveal_strlit("s, restarting");
    reveal_strlit("Found ");
    reveal_strlit(" device(s). Tap one to connect.");
    reveal_strlit("Connecting to '");
    reveal_strlit("' (attempt ");
    reveal_strlit("/5)...");
    reveal_strlit("Firmware (");
    reveal_strlit(" bytes) exceeds OTA slot size (");
    reveal_strlit("ota: flashed ");
    reveal_strlit(" at ");
    reveal_strlit(":");
    let d = text::decimal(n as nat);
    let s = text::decimal(size as nat);
    let a = text::decimal(attempt as nat);
    let m = ssid.len() as int;
    let k = file.len() as int;
    assert(health::hang_line(n).subrange(30, 30 + d.len() as int) =~= d);
    if n > 0 {
        assert(worker::scan_message(n as nat).subrange(6, 6 + d.len() as int) =~= d);
    }
    let trying = progress::attempt_message(ssid, attempt);
    assert(trying.subrange(15, 15 + m) =~= ssid);
    assert(trying.subrange(26 + m, 26 + m + a.len()) =~= a);
    assert(ota_flash::too_large_text(size).subrange(10, 10 + s.len() as int) =~= s);
    let flashed = ota_flash::upload_line(UploadOutcome::Flashed(size));
    assert(flashed.subrange(13, 13 + s.len() as int) =~= s);
    let place = crash_log::location_text(Some((file, n)));
    assert(place.subrange(4, 4 + k) =~= file);
    assert(place.skip(5 + k) =~= d);
}

} // verus!
