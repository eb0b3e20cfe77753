//! What the forms that are sent to the web server come to.
use crate::binary32;
use crate::binary32::Binary32;
use crate::decimal;
use crate::scale_ble::types::{DiscoveredScaleView, ScaleStatusView};
use crate::text;
use crate::wifi_provision::http;
use crate::wifi_provision::nvs;
use crate::wifi_provision::nvs::SettingsView;
use crate::wifi_provision::station;
use crate::wifi_provision::station::{FormView, ScaleAction, ScaleStep};
use vstd::arithmetic::power2::*;
use vstd::prelude::*;
use vstd::utf8::*;

verus! {

/// Of the ASCII characters the blank and those from the tab to the carriage return are white
/// space, and no other.
pub proof fn lemma_white_space_of_ascii(c: char)
    requires
        (c as u32) < 128,
    ensures
        text::is_white(c) <==> c as u32 == 32 || 9 <= c as u32 <= 13,
{
}

proof fn lemma_front_is_trimmed(front: Seq<char>, rest: Seq<char>)
    requires
        forall|i: int| 0 <= i < front.len() ==> text::is_white(#[trigger] front[i]),
        rest.len() > 0 ==> !text::is_white(rest[0]),
    ensures
        text::trimmed_front(front + rest) == rest,
    decreases front.len(),
{
    let all = front + rest;
    if front.len() > 0 {
        assert(all[0] == front[0]);
        assert(all.skip(1) =~= front.skip(1) + rest);
        assert forall|i: int| 0 <= i < front.skip(1).len() implies text::is_white(
            #[trigger] front.skip(1)[i],
        ) by {
            assert(front.skip(1)[i] == front[i + 1]);
        }
        lemma_front_is_trimmed(front.skip(1), rest);
    } else {
        assert(all =~= rest);
    }
}

proof fn lemma_back_is_trimmed(rest: Seq<char>, back: Seq<char>)
    requires
        forall|i: int| 0 <= i < back.len() ==> text::is_white(#[trigger] back[i]),
        rest.len() > 0 ==> !text::is_white(rest.last()),
    ensures
        text::trimmed_back(rest + back) == rest,
    decreases back.len(),
{
    let all = rest + back;
    if back.len() > 0 {
        assert(all.last() == back.last());
        assert(all.drop_last() =~= rest + back.drop_last());
        assert forall|i: int| 0 <= i < back.drop_last().len() implies text::is_white(
            #[trigger] back.drop_last()[i],
        ) by {
            assert(back.drop_last()[i] == back[i]);
        }
        lemma_back_is_trimmed(rest, back.drop_last());
    } else {
        assert(all =~= rest);
    }
}

/// Trimming takes the white space off both ends of a text, and nothing else.
pub proof fn lemma_only_white_space_is_trimmed(front: Seq<char>, middle: Seq<char>, back: Seq<char>)
    requires
        forall|i: int| 0 <= i < front.len() ==> text::is_white(#[trigger] front[i]),
        forall|i: int| 0 <= i < back.len() ==> text::is_white(#[trigger] back[i]),
        middle.len() > 0 ==> !text::is_white(middle[0]) && !text::is_white(middle.last()),
    ensures
        text::trimmed(front + middle + back) == middle,
{
    if middle.len() > 0 {
        assert(front + middle + back =~= front + (middle + back));
        assert((middle + back)[0] == middle[0]);
        lemma_front_is_trimmed(front, middle + back);
        lemma_back_is_trimmed(middle, back);
    } else {
        let white = front + back;
        assert(front + middle + back =~= white + middle);
        lemma_front_is_trimmed(white, middle);
        assert(middle =~= middle + Seq::<char>::empty());
        lemma_back_is_trimmed(middle, Seq::empty());
    }
}

/// Whether a name in a form stands at `at`, and at no place before it.
pub open spec fn first_at(pairs: Seq<(Seq<char>, Seq<char>)>, key: Seq<char>, at: int) -> bool {
    &&& 0 <= at < pairs.len()
    &&& pairs[at].0 == key
    &&& forall|i: int| 0 <= i < at ==> (#[trigger] pairs[i]).0 != key
}

/// A field has the value that stands beside the first mention of its name.
pub proof fn lemma_first_mention_counts(
    pairs: Seq<(Seq<char>, Seq<char>)>,
    key: Seq<char>,
    at: int,
)
    requires
        first_at(pairs, key, at),
    ensures
        http::first_value(pairs, key) == Some(pairs[at].1),
    decreases pairs.len(),
{
    if at > 0 {
        let rest = pairs.skip(1);
        assert forall|i: int| 0 <= i < at - 1 implies (#[trigger] rest[i]).0 != key by {
            assert(rest[i] == pairs[i + 1]);
        }
        assert(pairs[0].0 != key);
        lemma_first_mention_counts(rest, key, at - 1);
    }
}

/// A field that is not mentioned is not there.
pub proof fn lemma_unmentioned_field_is_absent(pairs: Seq<(Seq<char>, Seq<char>)>, key: Seq<char>)
    requires
        forall|i: int| 0 <= i < pairs.len() ==> (#[trigger] pairs[i]).0 != key,
    ensures
        http::first_value(pairs, key) is None,
    decreases pairs.len(),
{
    if pairs.len() > 0 {
        let rest = pairs.skip(1);
        assert forall|i: int| 0 <= i < rest.len() implies (#[trigger] rest[i]).0 != key by {
            assert(rest[i] == pairs[i + 1]);
        }
        lemma_unmentioned_field_is_absent(rest, key);
    }
}

/// Each field of the settings form is what the body gives under the field's own name.
pub proof fn lemma_settings_form_fields(body: Seq<char>, at: int)
    ensures
        ({
            let pairs = http::form_pairs(encode_utf8(body));
            let form = station::settings_form(body);
            &&& first_at(pairs, "wifi_update"@, at) ==> form.wifi_update == Some(pairs[at].1)
            &&& first_at(pairs, "ssid"@, at) ==> form.ssid == Some(pairs[at].1)
            &&& first_at(pairs, "password"@, at) ==> form.password == Some(pairs[at].1)
            &&& first_at(pairs, "device_label"@, at) ==> form.device_label == Some(pairs[at].1)
            &&& first_at(pairs, "temperature_offset_c"@, at) ==> form.temperature_offset_c == Some(
                pairs[at].1,
            )
        }),
{
    let pairs = http::form_pairs(encode_utf8(body));
    if first_at(pairs, "wifi_update"@, at) {
        lemma_first_mention_counts(pairs, "wifi_update"@, at);
    }
    if first_at(pairs, "ssid"@, at) {
        lemma_first_mention_counts(pairs, "ssid"@, at);
    }
    if first_at(pairs, "password"@, at) {
        lemma_first_mention_counts(pairs, "password"@, at);
    }
    if first_at(pairs, "device_label"@, at) {
        lemma_first_mention_counts(pairs, "device_label"@, at);
    }
    if first_at(pairs, "temperature_offset_c"@, at) {
        lemma_first_mention_counts(pairs, "temperature_offset_c"@, at);
    }
}

/// Whether a form's switch for other credentials is on.
pub open spec fn switched_on(switch: Option<Seq<char>>) -> bool {
    switch == Some("1"@) || switch == Some("true"@) || switch == Some("on"@)
}

/// A network that is named is saved together with the password beside it.
pub proof fn lemma_named_network_is_saved(
    form: FormView,
    present: SettingsView,
    s: Seq<char>,
    p: Seq<char>,
)
    requires
        switched_on(form.wifi_update),
        form.ssid == Some(s),
        s.len() > 0,
        form.password == Some(p),
    ensures
        station::settings_outcome(form, present) matches Ok(save) ==> save.wifi == Some((s, p)),
{
}

/// A network that is named without a password is saved with an empty one.
pub proof fn lemma_open_network_is_saved(form: FormView, present: SettingsView, s: Seq<char>)
    requires
        switched_on(form.wifi_update),
        form.ssid == Some(s),
        s.len() > 0,
        form.password is None,
    ensures
        station::settings_outcome(form, present) matches Ok(save) ==> save.wifi == Some(
            (s, Seq::<char>::empty()),
        ),
{
}

/// A password without a network is saved for the present network. Without one there it is
/// refused.
pub proof fn lemma_password_is_for_the_present_network(
    form: FormView,
    present: SettingsView,
    p: Seq<char>,
)
    requires
        switched_on(form.wifi_update),
        form.ssid is None || form.ssid == Some(Seq::<char>::empty()),
        form.password == Some(p),
    ensures
        present.ssid.len() > 0 ==> (station::settings_outcome(form, present) matches Ok(save)
            ==> save.wifi == Some((present.ssid, p))),
        present.ssid.len() == 0 && p.len() > 0 ==> station::settings_outcome(form, present) is Err,
        present.ssid.len() == 0 && p.len() == 0 ==> (station::settings_outcome(
            form,
            present,
        ) matches Ok(save) ==> save.wifi is None && save.message
            == "No Wi-Fi changes requested."@),
{
}

/// Where the switch for other credentials is off, whatever else the form holds, the network
/// stays.
pub proof fn lemma_network_stays_unless_asked_for(form: FormView, present: SettingsView)
    requires
        !switched_on(form.wifi_update),
    ensures
        station::settings_outcome(form, present) matches Ok(save) ==> save.wifi is None
            && save.message == "Device settings saved."@,
{
}

/// The device restarts for the new network where one is saved, and says so.
pub proof fn lemma_restart_is_announced(form: FormView, present: SettingsView)
    ensures
        station::settings_outcome(form, present) matches Ok(save) ==> (save.wifi is Some
            <==> save.message == "Settings saved. Rebooting to apply network changes."@),
{
    reveal_strlit("Settings saved. Rebooting to apply network changes.");
    reveal_strlit("No Wi-Fi changes requested.");
    reveal_strlit("Device settings saved.");
    let a = "Settings saved. Rebooting to apply network changes."@;
    let b = "No Wi-Fi changes requested."@;
    let c = "Device settings saved."@;
    assert(a.len() != b.len() && a.len() != c.len());
}

/// An offset is taken from 20 below to 20 above, both with them.
pub proof fn lemma_offset_range(x: Binary32)
    ensures
        station::offset_in_range(x) <==> x.finite() && -20 * pow2(149) <= x.value() <= 20 * pow2(
            149,
        ),
{
    let most = Binary32::from_bits(0x41a0_0000);
    let v = x.absolute();
    if x.finite() {
        binary32::lemma_value_of(most, 0xa0_0000, 130);
        lemma2_to64();
        lemma_pow2_adds(130, 19);
        assert(0xa0_0000 * pow2(130) == 20 * pow2(149)) by (nonlinear_arith)
            requires
                pow2(130) * pow2(19) == pow2(149),
                pow2(19) == 0x8_0000,
        ;
        binary32::lemma_order_is_by_value(most, v);
        assert(v.value() == if x.value() < 0 {
            -x.value()
        } else {
            x.value()
        });
    }
}

/// The label and the offset that a form gives.
pub open spec fn asks_for(form: FormView, label: Seq<char>, offset: Binary32) -> bool {
    &&& match form.device_label {
        Some(s) => if text::trimmed(s).len() > 0 {
            label == text::trimmed(s)
        } else {
            label == "OpenBarista"@
        },
        None => label == "OpenBarista"@,
    }
    &&& form.temperature_offset_c matches Some(t) && decimal::number(text::trimmed(t)) == Some(
        offset,
    )
}

proof fn lemma_default_label_is_trimmed()
    ensures
        text::trimmed("OpenBarista"@) == "OpenBarista"@,
        "OpenBarista"@.len() > 0,
{
    reveal_strlit("OpenBarista");
    let s = "OpenBarista"@;
    let none = Seq::<char>::empty();
    assert(s[0] == 'O' && s.last() == 'a');
    assert(none + s + none =~= s);
    lemma_only_white_space_is_trimmed(none, s, none);
}

/// A form with a label of at most 32 bytes and an offset of at most 20 either way is taken, with
/// that label and that offset, where it leaves the network alone or gives a name of 1 to 32
/// bytes and a password of at most 64.
pub proof fn lemma_good_settings_are_taken(
    form: FormView,
    present: SettingsView,
    label: Seq<char>,
    offset: Binary32,
    s: Seq<char>,
    p: Seq<char>,
)
    requires
        asks_for(form, label, offset),
        nvs::byte_length(label) <= 32,
        offset.finite(),
        -20 * pow2(149) <= offset.value() <= 20 * pow2(149),
        switched_on(form.wifi_update) ==> form.ssid == Some(s) && form.password == Some(p)
            && s.len() > 0 && nvs::byte_length(s) <= 32 && nvs::byte_length(p) <= 64,
    ensures
        station::settings_outcome(form, present) matches Ok(save) && save.device_label == label
            && save.temperature_offset_c == offset && save.wifi == if switched_on(
            form.wifi_update,
        ) {
            Some((s, p))
        } else {
            None
        },
{
    lemma_offset_range(offset);
    lemma_default_label_is_trimmed();
}

/// A label of more than 32 bytes, an offset of more than 20 either way or one that is no finite
/// number, and a named network whose name is longer than 32 bytes or whose password is longer
/// than 64 are refused as out of range.
pub proof fn lemma_bad_settings_are_refused(
    form: FormView,
    present: SettingsView,
    label: Seq<char>,
    offset: Binary32,
    s: Seq<char>,
    p: Seq<char>,
)
    requires
        asks_for(form, label, offset),
        form.ssid == Some(s),
        s.len() > 0,
        form.password == Some(p),
        nvs::byte_length(label) > 32 || !offset.finite() || offset.value() < -20 * pow2(149)
            || offset.value() > 20 * pow2(149) || (switched_on(form.wifi_update) && (
        nvs::byte_length(s) > 32 || nvs::byte_length(p) > 64)),
    ensures
        station::settings_outcome(form, present) == Err::<station::SaveView, Seq<char>>(
            "One or more fields are invalid or out of range."@,
        ),
{
    lemma_offset_range(offset);
    lemma_default_label_is_trimmed();
}

/// An offset that is no number is refused, whatever else the form holds.
pub proof fn lemma_offset_must_be_a_number(form: FormView, present: SettingsView, t: Seq<char>)
    requires
        form.temperature_offset_c == Some(t),
        decimal::number(text::trimmed(t)) is None,
    ensures
        station::settings_outcome(form, present) == Err::<station::SaveView, Seq<char>>(
            "Temperature offset must be a number."@,
        ),
{
}

/// Credentials are taken where the network's name has 1 to 32 bytes and the password at most 64.
pub proof fn lemma_good_credentials_are_taken(s: Seq<char>, p: Seq<char>)
    ensures
        station::credentials_fault(s, p) is None <==> s.len() > 0 && nvs::byte_length(s) <= 32
            && nvs::byte_length(p) <= 64,
        s.len() == 0 ==> station::credentials_fault(s, p) == Some("SSID cannot be empty."@),
        s.len() > 0 && (nvs::byte_length(s) > 32 || nvs::byte_length(p) > 64)
            ==> station::credentials_fault(s, p) == Some("SSID/password too long."@),
{
}

/// Whether a device in the list is the first with an address.
pub open spec fn first_device(
    devices: Seq<DiscoveredScaleView>,
    address: Seq<char>,
    at: int,
) -> bool {
    &&& 0 <= at < devices.len()
    &&& text::same_ignoring_case(devices[at].address, address)
    &&& forall|i: int|
        0 <= i < at ==> !text::same_ignoring_case((#[trigger] devices[i]).address, address)
}

proof fn lemma_first_device(devices: Seq<DiscoveredScaleView>, address: Seq<char>, at: int)
    requires
        first_device(devices, address, at),
    ensures
        station::device_at(devices, address) matches Some(s) && s.address == devices[at].address
            && s.name == devices[at].name && s.addr_type == devices[at].address_type,
    decreases devices.len(),
{
    if at > 0 {
        let rest = devices.skip(1);
        assert forall|i: int| 0 <= i < at - 1 implies !text::same_ignoring_case(
            (#[trigger] rest[i]).address,
            address,
        ) by {
            assert(rest[i] == devices[i + 1]);
        }
        assert(!text::same_ignoring_case(devices[0].address, address));
        lemma_first_device(rest, address, at - 1);
    }
}

proof fn lemma_no_device(devices: Seq<DiscoveredScaleView>, address: Seq<char>)
    requires
        forall|i: int|
            0 <= i < devices.len() ==> !text::same_ignoring_case(
                (#[trigger] devices[i]).address,
                address,
            ),
    ensures
        station::device_at(devices, address) is None,
    decreases devices.len(),
{
    if devices.len() > 0 {
        let rest = devices.skip(1);
        assert forall|i: int| 0 <= i < rest.len() implies !text::same_ignoring_case(
            (#[trigger] rest[i]).address,
            address,
        ) by {
            assert(rest[i] == devices[i + 1]);
        }
        lemma_no_device(rest, address);
    }
}

/// A device in the list that is asked for by its address is chosen with its own address, name
/// and kind of address; the first counts.
pub proof fn lemma_listed_scale_is_chosen(shown: ScaleStatusView, address: Seq<char>, at: int)
    requires
        first_device(shown.devices, address, at),
    ensures
        station::chosen_scale(shown, address) matches Some(s) && s.address
            == shown.devices[at].address && s.name == shown.devices[at].name && s.addr_type
            == shown.devices[at].address_type,
{
    lemma_first_device(shown.devices, address, at);
}

/// Where no device in the list has the address, the saved scale is chosen where it has the
/// address or none is given, and no other scale.
pub proof fn lemma_saved_scale_is_chosen(shown: ScaleStatusView, address: Seq<char>)
    requires
        forall|i: int|
            0 <= i < shown.devices.len() ==> !text::same_ignoring_case(
                (#[trigger] shown.devices[i]).address,
                address,
            ),
    ensures
        shown.saved_scale matches Some(s) && (address.len() == 0 || text::same_ignoring_case(
            s.address,
            address,
        )) ==> station::chosen_scale(shown, address) == shown.saved_scale,
        !(shown.saved_scale matches Some(s) && (address.len() == 0 || text::same_ignoring_case(
            s.address,
            address,
        ))) ==> station::chosen_scale(shown, address) is None,
{
    lemma_no_device(shown.devices, address);
}

/// Whether a step comes before another one.
pub open spec fn precedes(steps: Seq<ScaleStep>, first: ScaleStep, second: ScaleStep) -> bool {
    exists|i: int, j: int|
        0 <= i < j < steps.len() && #[trigger] steps[i] == first && #[trigger] steps[j] == second
}

/// A scale is connected to only after it was stored and made the saved one, and only when that
/// is asked for; a saved scale is removed only when it is to be forgotten, first from storage;
/// and the connection ends where that is asked for or the scale is forgotten.
pub proof fn lemma_steps_keep_their_order(action: ScaleAction)
    ensures
        ({
            let steps = station::steps_of(action);
            &&& steps.contains(ScaleStep::ConnectChosen) <==> action == ScaleAction::Connect
            &&& steps.contains(ScaleStep::ConnectChosen) ==> precedes(
                steps,
                ScaleStep::StoreChosen,
                ScaleStep::ApplyChosen,
            ) && precedes(steps, ScaleStep::ApplyChosen, ScaleStep::ConnectChosen)
            &&& steps.contains(ScaleStep::ClearStored) <==> action == ScaleAction::Forget
            &&& steps.contains(ScaleStep::ClearStored) ==> precedes(
                steps,
                ScaleStep::ClearStored,
                ScaleStep::ForgetSaved,
            ) && precedes(steps, ScaleStep::ForgetSaved, ScaleStep::Disconnect)
            &&& steps.contains(ScaleStep::Disconnect) <==> action == ScaleAction::Disconnect
                || action == ScaleAction::Forget
            &&& steps.contains(ScaleStep::StartScan) <==> action == ScaleAction::Scan
            &&& steps.no_duplicates()
            &&& steps.contains(ScaleStep::StoreChosen) ==> action == ScaleAction::Connect
            &&& steps.contains(ScaleStep::ForgetSaved) ==> action == ScaleAction::Forget
        }),
{
    let steps = station::steps_of(action);
    if action == ScaleAction::Scan {
        assert(steps[0] == ScaleStep::StartScan);
    } else if action == ScaleAction::Connect {
        assert(steps[0] == ScaleStep::StoreChosen);
        assert(steps[1] == ScaleStep::ApplyChosen);
        assert(steps[2] == ScaleStep::ConnectChosen);
    } else if action == ScaleAction::Disconnect {
        assert(steps[0] == ScaleStep::Disconnect);
    } else if action == ScaleAction::Forget {
        assert(steps[0] == ScaleStep::ClearStored);
        assert(steps[1] == ScaleStep::ForgetSaved);
        assert(steps[2] == ScaleStep::Disconnect);
    }
}

proof fn lemma_zero_is_read()
    ensures
        decimal::number("0"@) == Some(Binary32 { bits: 0 }),
        text::trimmed("0"@) == "0"@,
{
    reveal(decimal::number);
    reveal(decimal::decimal_field);
    reveal_strlit("0");
    reveal_strlit("inf");
    reveal_strlit("infinity");
    reveal_strlit("nan");
    let s = "0"@;
    let none = Seq::<char>::empty();
    assert(none + s + none =~= s);
    assert(s[0] == '0' && s.last() == '0');
    lemma_only_white_space_is_trimmed(none, s, none);
    assert(s.skip(1) =~= none);
    assert(decimal::leading_digits(s) == 1) by {
        assert(decimal::leading_digits(none) == 0);
    }
    assert(text::lower(s).len() == 1);
    assert(decimal::after_whole(s) =~= none);
    assert(decimal::after_digits(s) =~= none);
    assert(s.take(1) + none.take(0) =~= s);
    assert(decimal::mantissa(s) == 0) by {
        assert(s.drop_last() =~= none);
        assert(decimal::digits_value(none) == 0);
    }
    let p = vstd::arithmetic::power::pow(10, 0);
    vstd::arithmetic::power::lemma_pow0(10);
    assert(0 * p as nat * pow2(149) == 0) by (nonlinear_arith);
    crate::ieee::lemma_magnitude_value_of_zero(0, binary32::HIDDEN_BIT as nat);
    crate::rounding::lemma_magnitude_is_exact(0, binary32::HIDDEN_BIT as nat);
}

/// A form that gives nothing is taken: the label is the default one, the offset 0, and the
/// network stays.
pub proof fn lemma_empty_form_is_taken(form: FormView, present: SettingsView)
    requires
        form.wifi_update is None,
        form.device_label is None,
        form.temperature_offset_c is None,
    ensures
        station::settings_outcome(form, present) matches Ok(save) && save.device_label
            == "OpenBarista"@ && save.temperature_offset_c.value() == 0 && save.wifi is None,
{
    lemma_zero_is_read();
    lemma_default_label_is_trimmed();
    let zero = Binary32 { bits: 0 };
    crate::ieee::lemma_magnitude_value_of_zero(0, binary32::HIDDEN_BIT as nat);
    lemma_offset_range(zero);
    lemma_pow2_pos(149);
    lemma_default_label_is_short();
}

proof fn lemma_default_label_is_short()
    ensures
        nvs::byte_length("OpenBarista"@) <= 32,
{
    reveal_strlit("OpenBarista");
    let s = "OpenBarista"@;
    assert(s.len() == 11);
    lemma_ascii_length(s);
}

proof fn lemma_ascii_length(s: Seq<char>)
    requires
        forall|i: int| 0 <= i < s.len() ==> (#[trigger] s[i]) as u32 <= 0x7f,
    ensures
        encode_utf8(s).len() == s.len(),
    decreases s.len(),
{
    if s.len() > 0 {
        let rest = s.drop_first();
        assert forall|i: int| 0 <= i < rest.len() implies (#[trigger] rest[i]) as u32 <= 0x7f by {
            assert(rest[i] == s[i + 1]);
        }
        assert(s[0] as u32 <= 0x7f);
        lemma_ascii_length(rest);
    }
}

} // verus!
