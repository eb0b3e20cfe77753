//! How a shot lies in storage, byte by byte.
use crate::bytes;
use crate::convert;
use crate::shot_recorder::{ShotPoint, ShotRecordView};
use crate::shot_store;
use crate::shot_store::NvsShotStore;
use crate::weight_laws;
use vstd::prelude::*;

verus! {

/// The bytes of a number, lowest first, where they lie.
proof fn lemma_number_of_bytes(b: Seq<u8>, at: int, n: nat, k: nat)
    requires
        0 <= at,
        at + k <= b.len(),
        b.subrange(at, at + k) == bytes::le_bytes(n, k),
        n < bytes::byte_range(k),
    ensures
        weight_laws::number_at(b, at, k, false) == n,
    decreases k,
{
    if k > 0 {
        let m = (k - 1) as nat;
        let here = b.subrange(at, at + k);
        assert(b[at] == here[0]);
        assert(b.subrange(at + 1, at + 1 + m) =~= here.skip(1));
        assert(here.skip(1) =~= bytes::le_bytes(n / 256, m));
        assert(n / 256 < bytes::byte_range(m));
        lemma_number_of_bytes(b, at + 1, n / 256, m);
    }
}

proof fn lemma_lengths(n: nat, k: nat)
    ensures
        bytes::le_bytes(n, k).len() == k,
    decreases k,
{
    if k > 0 {
        lemma_lengths(n / 256, (k - 1) as nat);
    }
}

proof fn lemma_ranges()
    ensures
        bytes::byte_range(2) == 65536,
        bytes::byte_range(4) == 0x1_0000_0000,
        bytes::byte_range(8) == 0x1_0000_0000_0000_0000,
{
    reveal_with_fuel(bytes::byte_range, 9);
}

/// A point where it lies: time, pressure, temperature, weight and flow, two bytes each.
pub open spec fn point_lies_at(b: Seq<u8>, at: int, p: ShotPoint) -> bool {
    let w = shot_store::signed_tenths(p.weight_g);
    &&& weight_laws::number_at(b, at, 2, false) == if p.time_ms < 65535 {
        p.time_ms as int
    } else {
        65535
    }
    &&& weight_laws::number_at(b, at + 2, 2, false) == shot_store::hundredths(p.pressure_bar)
    &&& weight_laws::number_at(b, at + 4, 2, false) == shot_store::tenths(p.temperature_c)
    &&& weight_laws::number_at(b, at + 6, 2, false) == if w >= 0 {
        w
    } else {
        w + 65536
    }
    &&& weight_laws::number_at(b, at + 8, 2, false) == shot_store::hundredths(p.flow_gps)
}

proof fn lemma_point_lies(b: Seq<u8>, at: int, p: ShotPoint)
    requires
        0 <= at,
        at + 10 <= b.len(),
        b.subrange(at, at + 10) == shot_store::encoded_point(p),
    ensures
        point_lies_at(b, at, p),
{
    let here = shot_store::encoded_point(p);
    let t = shot_store::capped16(p.time_ms as int) as nat;
    let q = shot_store::hundredths(p.pressure_bar) as nat;
    let c = shot_store::tenths(p.temperature_c) as nat;
    let w = shot_store::bits16(shot_store::signed_tenths(p.weight_g)) as nat;
    let f = shot_store::hundredths(p.flow_gps) as nat;
    reveal(convert::rounded_within);
    lemma_ranges();
    lemma_lengths(t, 2);
    lemma_lengths(q, 2);
    lemma_lengths(c, 2);
    lemma_lengths(w, 2);
    lemma_lengths(f, 2);
    assert(b.subrange(at, at + 2) =~= bytes::le_bytes(t, 2)) by {
        assert(here.subrange(0, 2) =~= bytes::le_bytes(t, 2));
        assert(b.subrange(at, at + 2) =~= b.subrange(at, at + 10).subrange(0, 2));
    }
    assert(b.subrange(at + 2, at + 4) =~= bytes::le_bytes(q, 2)) by {
        assert(here.subrange(2, 4) =~= bytes::le_bytes(q, 2));
        assert(b.subrange(at + 2, at + 4) =~= b.subrange(at, at + 10).subrange(2, 4));
    }
    assert(b.subrange(at + 4, at + 6) =~= bytes::le_bytes(c, 2)) by {
        assert(here.subrange(4, 6) =~= bytes::le_bytes(c, 2));
        assert(b.subrange(at + 4, at + 6) =~= b.subrange(at, at + 10).subrange(4, 6));
    }
    assert(b.subrange(at + 6, at + 8) =~= bytes::le_bytes(w, 2)) by {
        assert(here.subrange(6, 8) =~= bytes::le_bytes(w, 2));
        assert(b.subrange(at + 6, at + 8) =~= b.subrange(at, at + 10).subrange(6, 8));
    }
    assert(b.subrange(at + 8, at + 10) =~= bytes::le_bytes(f, 2)) by {
        assert(here.subrange(8, 10) =~= bytes::le_bytes(f, 2));
        assert(b.subrange(at + 8, at + 10) =~= b.subrange(at, at + 10).subrange(8, 10));
    }
    lemma_number_of_bytes(b, at, t, 2);
    lemma_number_of_bytes(b, at + 2, q, 2);
    lemma_number_of_bytes(b, at + 4, c, 2);
    lemma_number_of_bytes(b, at + 6, w, 2);
    lemma_number_of_bytes(b, at + 8, f, 2);
}

proof fn lemma_point_length(p: ShotPoint)
    ensures
        shot_store::encoded_point(p).len() == 10,
{
    lemma_lengths(shot_store::capped16(p.time_ms as int) as nat, 2);
    lemma_lengths(shot_store::hundredths(p.pressure_bar) as nat, 2);
    lemma_lengths(shot_store::tenths(p.temperature_c) as nat, 2);
    lemma_lengths(shot_store::bits16(shot_store::signed_tenths(p.weight_g)) as nat, 2);
    lemma_lengths(shot_store::hundredths(p.flow_gps) as nat, 2);
}

proof fn lemma_points_lie(points: Seq<ShotPoint>, i: int)
    ensures
        shot_store::encoded_points(points).len() == 10 * points.len(),
        0 <= i < points.len() ==> shot_store::encoded_points(points).subrange(10 * i, 10 * i + 10)
            == shot_store::encoded_point(points[i]),
    decreases points.len(),
{
    if points.len() > 0 {
        let front = points.drop_last();
        let a = shot_store::encoded_points(front);
        let b = shot_store::encoded_point(points.last());
        lemma_points_lie(front, i);
        lemma_point_length(points.last());
        if 0 <= i < front.len() {
            assert((a + b).subrange(10 * i, 10 * i + 10) =~= a.subrange(10 * i, 10 * i + 10));
        } else if i == front.len() {
            assert((a + b).subrange(10 * i, 10 * i + 10) =~= b);
        }
    }
}

/// A stored shot starts with its number in 4 bytes, its time in 8 and the number of its points in
/// 2, lowest byte first, and 6 bytes of nothing. Then its points follow, 10 bytes each, in order.
pub proof fn lemma_shot_lies_in_storage(shot: ShotRecordView, i: int)
    requires
        shot.points.len() <= 200,
    ensures
        ({
            let b = shot_store::encoded(shot);
            &&& b.len() == 20 + 10 * shot.points.len()
            &&& weight_laws::number_at(b, 0, 4, false) == shot.id
            &&& weight_laws::number_at(b, 4, 8, false) == shot.unix_timestamp
            &&& weight_laws::number_at(b, 12, 2, false) == shot.points.len()
            &&& forall|k: int| 14 <= k < 20 ==> #[trigger] b[k] == 0
            &&& 0 <= i < shot.points.len() ==> point_lies_at(b, 20 + 10 * i, shot.points[i])
        }),
{
    let b = shot_store::encoded(shot);
    let n = shot.points.len();
    let head = shot_store::encoded_header(shot.id, shot.unix_timestamp, n);
    let tail = shot_store::encoded_points(shot.points);
    lemma_ranges();
    lemma_lengths(shot.id as nat, 4);
    lemma_lengths(shot.unix_timestamp as nat, 8);
    lemma_lengths(n, 2);
    lemma_lengths(0, 6);
    lemma_points_lie(shot.points, i);
    assert(b == head + tail);
    assert(b.subrange(0, 4) =~= bytes::le_bytes(shot.id as nat, 4));
    assert(b.subrange(4, 12) =~= bytes::le_bytes(shot.unix_timestamp as nat, 8));
    assert(b.subrange(12, 14) =~= bytes::le_bytes(n, 2));
    assert(b.subrange(14, 20) =~= bytes::le_bytes(0, 6));
    lemma_number_of_bytes(b, 0, shot.id as nat, 4);
    lemma_number_of_bytes(b, 4, shot.unix_timestamp as nat, 8);
    lemma_number_of_bytes(b, 12, n, 2);
    lemma_zeros(6);
    assert forall|k: int| 14 <= k < 20 implies #[trigger] b[k] == 0 by {
        assert(b[k] == b.subrange(14, 20)[k - 14]);
    }
    if 0 <= i < n {
        let at = 20 + 10 * i;
        assert(b.subrange(at, at + 10) =~= tail.subrange(10 * i, 10 * i + 10));
        lemma_point_lies(b, at, shot.points[i]);
    }
}

proof fn lemma_zeros(k: nat)
    ensures
        forall|i: int| 0 <= i < k ==> #[trigger] bytes::le_bytes(0, k)[i] == 0,
    decreases k,
{
    if k > 0 {
        lemma_zeros((k - 1) as nat);
        lemma_lengths(0, (k - 1) as nat);
        let shorter = bytes::le_bytes(0, (k - 1) as nat);
        assert forall|i: int| 0 <= i < k implies #[trigger] bytes::le_bytes(0, k)[i] == 0 by {
            if i > 0 {
                assert(bytes::le_bytes(0, k)[i] == shorter[i - 1]);
            }
        }
    }
}

/// A ring that was stored is opened as it was: its place, its count and its next number.
pub proof fn lemma_ring_is_opened_as_it_was(head: u8, count: u8, next_id: u32)
    requires
        head < 10,
        count <= 10,
        next_id > 0,
    ensures
        ({
            let store = shot_store::stored_ring(
                Some(seq![head]),
                Some(seq![count]),
                Some(bytes::le_bytes(next_id as nat, 4)),
            );
            store.head == head && store.count == count && store.next_id == next_id
        }),
{
    lemma_ranges();
    bytes::lemma_bytes_round_trip(next_id as nat, 4);
}

/// Whether a shot is the first of a list with a number.
pub open spec fn first_shot(shots: Seq<ShotRecordView>, id: u32, at: int) -> bool {
    &&& 0 <= at < shots.len()
    &&& shots[at].id == id
    &&& forall|i: int| 0 <= i < at ==> (#[trigger] shots[i]).id != id
}

/// A shot is found by its number: the first in the list, and none where no shot has it.
pub proof fn lemma_shot_is_found(shots: Seq<ShotRecordView>, id: u32, at: int)
    ensures
        first_shot(shots, id, at) ==> shot_store::first_with_id(shots, id) == Some(shots[at]),
        (forall|i: int| 0 <= i < shots.len() ==> (#[trigger] shots[i]).id != id)
            ==> shot_store::first_with_id(shots, id) is None,
    decreases shots.len(),
{
    if shots.len() > 0 {
        let front = shots.drop_last();
        let last = shots.len() - 1;
        lemma_shot_is_found(front, id, at);
        if first_shot(shots, id, at) {
            if at < last {
                assert(first_shot(front, id, at)) by {
                    assert forall|i: int| 0 <= i < at implies (#[trigger] front[i]).id != id by {
                        assert(front[i] == shots[i]);
                    }
                }
            } else {
                assert forall|i: int| 0 <= i < front.len() implies (#[trigger] front[i]).id
                    != id by {
                    assert(front[i] == shots[i]);
                }
            }
        }
        if forall|i: int| 0 <= i < shots.len() ==> (#[trigger] shots[i]).id != id {
            assert forall|i: int| 0 <= i < front.len() implies (#[trigger] front[i]).id != id by {
                assert(front[i] == shots[i]);
            }
            assert(shots[last].id != id);
        }
    }
}

/// The ring gives its slots in turn: a save goes to the slot at the head, the head then moves to
/// the next of ten, and with ten shots stored the oldest makes room.
pub proof fn lemma_slots_take_turns(store: NvsShotStore)
    requires
        store.wf(),
    ensures
        ({
            let after = store.advanced();
            &&& after.head == if store.head == 9 {
                0
            } else {
                (store.head + 1) as usize
            }
            &&& after.count == if store.count < 10 {
                (store.count + 1) as usize
            } else {
                10
            }
            &&& after.order().len() == after.count
            &&& after.order().last() == store.head
            &&& forall|i: int|
                0 <= i < after.count - 1 ==> #[trigger] after.order()[i] == store.order()[i
                    + store.count + 1 - after.count]
        }),
{
}

/// Every slot has a key of its own.
pub proof fn lemma_slots_have_their_own_keys(a: nat, b: nat)
    requires
        shot_store::key_of_slot(a) == shot_store::key_of_slot(b),
    ensures
        a == b,
{
    crate::wifi_provision::settings_laws::lemma_decimal_value(a);
    crate::wifi_provision::settings_laws::lemma_decimal_value(b);
    assert(shot_store::key_of_slot(a).skip(1) =~= crate::text::decimal(a));
    assert(shot_store::key_of_slot(b).skip(1) =~= crate::text::decimal(b));
}

} // verus!
