//! What holds of the list of devices in reach, however many are seen.
use crate::scale_ble::types;
use crate::scale_ble::types::{DeviceView, MAX_DISCOVERED_SCALES};
use crate::scale_weight::ScaleProtocol;
use crate::text;
use vstd::prelude::*;

verus! {

/// Whether no device of the list is listed before one that stands in front of it.
pub open spec fn ordered(list: Seq<DeviceView>) -> bool {
    forall|i: int, j: int|
        0 <= i < j < list.len() ==> !types::listed_before(#[trigger] list[j], #[trigger] list[i])
}

/// Whether no two devices of the list have the same address.
pub open spec fn distinct(list: Seq<DeviceView>) -> bool {
    forall|i: int, j: int|
        0 <= i < j < list.len() ==> !types::same_device(#[trigger] list[i], #[trigger] list[j])
}

/// The order of devices: if `y` is not before `x` and `z` not before `y`, `z` is not before `x`.
proof fn lemma_order_carries_over(x: DeviceView, y: DeviceView, z: DeviceView)
    requires
        !types::listed_before(y, x),
        !types::listed_before(z, y),
    ensures
        !types::listed_before(z, x),
{
    text::lemma_text_order_is_total(x.name, y.name);
    text::lemma_text_order_is_total(y.name, z.name);
    text::lemma_text_order_is_total(x.name, z.name);
    if text::text_before(z.name, x.name) {
        if text::text_before(x.name, y.name) {
            text::lemma_text_order_is_transitive(z.name, x.name, y.name);
        }
    }
}

proof fn lemma_listed_elements(list: Seq<DeviceView>, device: DeviceView)
    ensures
        types::listed(list, device).len() == list.len() + 1,
        forall|i: int|
            0 <= i < types::listed(list, device).len() ==> {
                let x = #[trigger] types::listed(list, device)[i];
                list.contains(x) || x == device
            },
    decreases list.len(),
{
    let result = types::listed(list, device);
    if list.len() == 0 || !types::listed_before(device, list.last()) {
        assert forall|i: int| 0 <= i < result.len() implies ({
            let x = #[trigger] result[i];
            list.contains(x) || x == device
        }) by {
            if i < list.len() {
                assert(result[i] == list[i]);
            }
        }
    } else {
        let shorter = list.drop_last();
        lemma_listed_elements(shorter, device);
        let front = types::listed(shorter, device);
        assert forall|i: int| 0 <= i < result.len() implies ({
            let x = #[trigger] result[i];
            list.contains(x) || x == device
        }) by {
            if i < front.len() {
                assert(result[i] == front[i]);
                if shorter.contains(front[i]) {
                    let k = choose|k: int| 0 <= k < shorter.len() && shorter[k] == front[i];
                    assert(list[k] == front[i]);
                }
            } else {
                assert(result[i] == list[list.len() - 1]);
            }
        }
    }
}

proof fn lemma_listed_is_ordered(list: Seq<DeviceView>, device: DeviceView)
    requires
        ordered(list),
    ensures
        ordered(types::listed(list, device)),
    decreases list.len(),
{
    let result = types::listed(list, device);
    if list.len() == 0 {
    } else if !types::listed_before(device, list.last()) {
        assert forall|i: int, j: int| 0 <= i < j < result.len() implies !types::listed_before(
            #[trigger] result[j],
            #[trigger] result[i],
        ) by {
            if j < list.len() {
                assert(result[i] == list[i] && result[j] == list[j]);
            } else {
                assert(result[j] == device);
                assert(result[i] == list[i]);
                let last = list[list.len() - 1];
                if i < list.len() - 1 {
                    assert(!types::listed_before(last, list[i]));
                    lemma_order_carries_over(list[i], last, device);
                }
            }
        }
    } else {
        let shorter = list.drop_last();
        let last = list.last();
        assert forall|i: int, j: int| 0 <= i < j < shorter.len() implies !types::listed_before(
            #[trigger] shorter[j],
            #[trigger] shorter[i],
        ) by {
            assert(shorter[i] == list[i] && shorter[j] == list[j]);
        }
        lemma_listed_is_ordered(shorter, device);
        lemma_listed_elements(shorter, device);
        let front = types::listed(shorter, device);
        assert forall|i: int, j: int| 0 <= i < j < result.len() implies !types::listed_before(
            #[trigger] result[j],
            #[trigger] result[i],
        ) by {
            assert(result[i] == front[i]);
            if j < front.len() {
                assert(result[j] == front[j]);
            } else {
                assert(result[j] == last);
                if front[i] == device {
                    text::lemma_text_order_is_total(device.name, last.name);
                } else {
                    let k = choose|k: int| 0 <= k < shorter.len() && shorter[k] == front[i];
                    assert(list[k] == front[i]);
                    assert(!types::listed_before(list[list.len() - 1], list[k]));
                }
            }
        }
    }
}

proof fn lemma_listed_is_distinct(list: Seq<DeviceView>, device: DeviceView)
    requires
        distinct(list),
        forall|i: int| 0 <= i < list.len() ==> !types::same_device(#[trigger] list[i], device),
    ensures
        distinct(types::listed(list, device)),
    decreases list.len(),
{
    let result = types::listed(list, device);
    if list.len() > 0 && types::listed_before(device, list.last()) {
        let shorter = list.drop_last();
        assert forall|i: int, j: int| 0 <= i < j < shorter.len() implies !types::same_device(
            #[trigger] shorter[i],
            #[trigger] shorter[j],
        ) by {
            assert(shorter[i] == list[i] && shorter[j] == list[j]);
        }
        assert forall|i: int| 0 <= i < shorter.len() implies !types::same_device(
            #[trigger] shorter[i],
            device,
        ) by {
            assert(shorter[i] == list[i]);
        }
        lemma_listed_is_distinct(shorter, device);
        lemma_listed_elements(shorter, device);
        let front = types::listed(shorter, device);
        let last = list[list.len() - 1];
        assert forall|i: int, j: int| 0 <= i < j < result.len() implies !types::same_device(
            #[trigger] result[i],
            #[trigger] result[j],
        ) by {
            assert(result[i] == front[i]);
            if j < front.len() {
                assert(result[j] == front[j]);
            } else {
                assert(result[j] == last);
                if front[i] != device {
                    let k = choose|k: int| 0 <= k < shorter.len() && shorter[k] == front[i];
                    assert(list[k] == front[i]);
                }
            }
        }
    } else {
        assert forall|i: int, j: int| 0 <= i < j < result.len() implies !types::same_device(
            #[trigger] result[i],
            #[trigger] result[j],
        ) by {
            assert(result[i] == list[i]);
            if j < list.len() {
                assert(result[j] == list[j]);
            }
        }
    }
}

proof fn lemma_in_order(list: Seq<DeviceView>)
    requires
        distinct(list),
    ensures
        types::in_order(list).len() == list.len(),
        ordered(types::in_order(list)),
        distinct(types::in_order(list)),
        forall|i: int|
            0 <= i < list.len() ==> list.contains(#[trigger] types::in_order(list)[i]),
    decreases list.len(),
{
    if list.len() > 0 {
        let shorter = list.drop_last();
        let last = list[list.len() - 1];
        assert forall|i: int, j: int| 0 <= i < j < shorter.len() implies !types::same_device(
            #[trigger] shorter[i],
            #[trigger] shorter[j],
        ) by {
            assert(shorter[i] == list[i] && shorter[j] == list[j]);
        }
        lemma_in_order(shorter);
        let front = types::in_order(shorter);
        assert forall|i: int| 0 <= i < front.len() implies !types::same_device(
            #[trigger] front[i],
            last,
        ) by {
            let k = choose|k: int| 0 <= k < shorter.len() && shorter[k] == front[i];
            assert(list[k] == front[i]);
        }
        lemma_listed_is_ordered(front, last);
        lemma_listed_is_distinct(front, last);
        lemma_listed_elements(front, last);
        let result = types::in_order(list);
        assert forall|i: int| 0 <= i < list.len() implies list.contains(#[trigger] result[i]) by {
            if result[i] != last {
                let k = choose|k: int| 0 <= k < front.len() && front[k] == result[i];
                assert(shorter.contains(front[k]));
                let m = choose|m: int| 0 <= m < shorter.len() && shorter[m] == front[k];
                assert(list[m] == result[i]);
            }
        }
    }
}

proof fn lemma_place_of(list: Seq<DeviceView>, device: DeviceView)
    ensures
        types::place_of(list, device) <= list.len(),
        types::place_of(list, device) < list.len() ==> types::same_device(
            list[types::place_of(list, device) as int],
            device,
        ),
        types::place_of(list, device) == list.len() ==> forall|i: int|
            0 <= i < list.len() ==> !types::same_device(#[trigger] list[i], device),
    decreases list.len(),
{
    if list.len() > 0 && !types::same_device(list[0], device) {
        lemma_place_of(list.skip(1), device);
        assert forall|i: int|
            types::place_of(list, device) == list.len() && 0 <= i
                < list.len() implies !types::same_device(#[trigger] list[i], device) by {
            if i > 0 {
                assert(list.skip(1)[i - 1] == list[i]);
            }
        }
    }
}

/// However often devices are seen, the list holds at most 18 of them, in order, and no address
/// twice.
pub proof fn lemma_listing_stays_sound(list: Seq<DeviceView>, device: DeviceView)
    requires
        distinct(list),
    ensures
        types::after_seen(list, device).len() <= MAX_DISCOVERED_SCALES,
        ordered(types::after_seen(list, device)),
        distinct(types::after_seen(list, device)),
{
    let all = types::merged(list, device);
    lemma_place_of(list, device);
    assert forall|i: int, j: int| 0 <= i < j < all.len() implies !types::same_device(
        #[trigger] all[i],
        #[trigger] all[j],
    ) by {
        let at = types::place_of(list, device);
        if at < list.len() {
            assert(all[i].address == list[i].address);
            assert(all[j].address == list[j].address);
            assert(!types::same_device(list[i], list[j]));
        } else {
            assert(all[i] == list[i]);
            if j < list.len() {
                assert(all[j] == list[j]);
            }
        }
    }
    lemma_in_order(all);
    let sorted = types::in_order(all);
    let kept = types::after_seen(list, device);
    assert forall|i: int, j: int| 0 <= i < j < kept.len() implies !types::same_device(
        #[trigger] kept[i],
        #[trigger] kept[j],
    ) by {
        assert(kept[i] == sorted[i] && kept[j] == sorted[j]);
    }
    assert forall|i: int, j: int| 0 <= i < j < kept.len() implies !types::listed_before(
        #[trigger] kept[j],
        #[trigger] kept[i],
    ) by {
        assert(kept[i] == sorted[i] && kept[j] == sorted[j]);
    }
}

/// What is known of a device after it was seen again: its signal and kind of address are those
/// of now, a name once given is not lost, and a hint at the protocol stays until there is another.
pub proof fn lemma_device_seen_again(known: DeviceView, seen: DeviceView)
    ensures
        ({
            let r = types::seen_again(known, seen);
            &&& r.address == known.address
            &&& r.rssi == seen.rssi
            &&& r.addr_type == seen.addr_type
            &&& seen.name != seen.address ==> r.name == seen.name
            &&& known.name != known.address && seen.name == seen.address ==> r.name == known.name
            &&& known.scale_like || seen.scale_like <==> r.scale_like
            &&& seen.protocol_hint != ScaleProtocol::Unknown ==> r.protocol_hint
                == seen.protocol_hint
            &&& seen.protocol_hint == ScaleProtocol::Unknown ==> r.protocol_hint
                == known.protocol_hint
        }),
{
}

proof fn lemma_listed_keeps(list: Seq<DeviceView>, device: DeviceView, x: DeviceView)
    requires
        list.contains(x) || x == device,
    ensures
        types::listed(list, device).contains(x),
    decreases list.len(),
{
    let result = types::listed(list, device);
    let n = list.len() as int;
    if n == 0 || !types::listed_before(device, list.last()) {
        if x == device {
            assert(result[n] == x);
        } else {
            let k = choose|k: int| 0 <= k < n && list[k] == x;
            assert(result[k] == x);
        }
    } else {
        let shorter = list.drop_last();
        let front = types::listed(shorter, device);
        if x == list.last() && x != device {
            assert(result[front.len() as int] == x);
        } else {
            if x != device {
                let k = choose|k: int| 0 <= k < n && list[k] == x;
                assert(shorter[k] == x);
            }
            lemma_listed_keeps(shorter, device, x);
            let k = choose|k: int| 0 <= k < front.len() && front[k] == x;
            assert(result[k] == x);
        }
    }
}

proof fn lemma_in_order_keeps(list: Seq<DeviceView>, x: DeviceView)
    requires
        list.contains(x),
    ensures
        types::in_order(list).contains(x),
        types::in_order(list).len() == list.len(),
    decreases list.len(),
{
    let shorter = list.drop_last();
    let k = choose|k: int| 0 <= k < list.len() && list[k] == x;
    if k < shorter.len() {
        assert(shorter[k] == x);
        lemma_in_order_keeps(shorter, x);
    } else if shorter.len() > 0 {
        assert(shorter.contains(shorter[0]));
        lemma_in_order_keeps(shorter, shorter[0]);
    }
    lemma_listed_keeps(types::in_order(shorter), list.last(), x);
    lemma_listed_elements(types::in_order(shorter), list.last());
}

/// A device that is not in the list yet is added to it, and the others stay, as long as there are
/// no more than 18.
pub proof fn lemma_new_device_is_listed(list: Seq<DeviceView>, device: DeviceView, x: DeviceView)
    requires
        list.len() < 18,
        forall|i: int| 0 <= i < list.len() ==> !types::same_device(#[trigger] list[i], device),
        list.contains(x) || x == device,
    ensures
        types::after_seen(list, device).contains(x),
        types::after_seen(list, device).len() == list.len() + 1,
{
    let all = types::merged(list, device);
    lemma_place_of(list, device);
    assert(all == list.push(device));
    if x == device {
        assert(all[list.len() as int] == x);
    } else {
        let k = choose|k: int| 0 <= k < list.len() && list[k] == x;
        assert(all[k] == x);
    }
    lemma_in_order_keeps(all, x);
}

/// A device that is in the list is brought up to date there, and the others stay as they are.
pub proof fn lemma_known_device_is_updated(
    list: Seq<DeviceView>,
    device: DeviceView,
    at: int,
    other: int,
)
    requires
        list.len() <= 18,
        distinct(list),
        0 <= at < list.len(),
        types::same_device(list[at], device),
        0 <= other < list.len(),
        other != at,
    ensures
        types::after_seen(list, device).contains(types::seen_again(list[at], device)),
        types::after_seen(list, device).contains(list[other]),
        types::after_seen(list, device).len() == list.len(),
{
    let all = types::merged(list, device);
    lemma_place_of(list, device);
    let place = types::place_of(list, device) as int;
    assert(place < list.len());
    assert(place == at) by {
        if place < at {
            assert(!types::same_device(list[place], list[at]));
        } else if at < place {
            assert(!types::same_device(list[at], list[place]));
        }
    }
    assert(all[at] == types::seen_again(list[at], device));
    assert(all[other] == list[other]);
    lemma_in_order_keeps(all, all[at]);
    lemma_in_order_keeps(all, all[other]);
}

/// In the list a device that looks like a scale stands before one that does not, of two alike the
/// one with the stronger signal, and of two as strong the one whose name comes first.
pub proof fn lemma_order_of_devices(a: DeviceView, b: DeviceView)
    ensures
        a.scale_like && !b.scale_like ==> types::listed_before(a, b) && !types::listed_before(b, a),
        a.scale_like == b.scale_like && a.rssi > b.rssi ==> types::listed_before(a, b)
            && !types::listed_before(b, a),
        a.scale_like == b.scale_like && a.rssi == b.rssi ==> (types::listed_before(a, b)
            <==> text::text_before(a.name, b.name)),
{
}

} // verus!
