//! Stored shots: their binary form and the ring of slots that holds them.
//!
//! All integers are stored lowest byte first. A header of 20 bytes holds the shot's number (4),
//! its Unix time (8), the number of points (2) and padding. Each point takes 10 bytes: the time
//! in milliseconds, the pressure in hundredths of a bar, the temperature in tenths of a degree,
//! the weight in tenths of a gram (signed) and the flow in hundredths of a gram per second.
use crate::binary32;
use crate::binary32::Binary32;
use crate::bytes;
use crate::convert;
use crate::shot_recorder;
use crate::shot_recorder::{ShotPoint, ShotRecord, ShotRecordView, ShotSummary, MAX_SHOT_POINTS};
use crate::text;
use vstd::prelude::*;
use vstd::string::*;

verus! {

/// The length of the header.
pub const HEADER_LEN: usize = 20;

/// The length of a point.
pub const POINT_LEN: usize = 10;

/// How many shots are stored. The oldest is overwritten when all slots are taken.
pub const MAX_STORED_SHOTS: usize = 10;

/// `n` where it fits in 16 bits, else the largest that does.
pub open spec fn capped16(n: int) -> int {
    if n > 65535 {
        65535
    } else {
        n
    }
}

/// A signed integer as the unsigned integer with the same 16 bits.
pub open spec fn bits16(n: int) -> int {
    if n < 0 {
        n + 65536
    } else {
        n
    }
}

/// A number counted in hundredths, within `0..=65535`.
pub open spec fn hundredths(x: Binary32) -> int {
    convert::rounded_within(x.product(Binary32::from_bits(0x42c8_0000)), 0, 65535)
}

/// A number counted in tenths, within `0..=65535`.
pub open spec fn tenths(x: Binary32) -> int {
    convert::rounded_within(x.product(Binary32::from_bits(0x4120_0000)), 0, 65535)
}

/// A number counted in tenths, within `-32768..=32767`.
pub open spec fn signed_tenths(x: Binary32) -> int {
    convert::rounded_within(x.product(Binary32::from_bits(0x4120_0000)), -32768, 32767)
}

/// The number that so many hundredths are.
pub open spec fn from_hundredths(n: int) -> Binary32 {
    binary32::of_int(n).quotient(Binary32::from_bits(0x42c8_0000))
}

/// The number that so many tenths are.
pub open spec fn from_tenths(n: int) -> Binary32 {
    binary32::of_int(n).quotient(Binary32::from_bits(0x4120_0000))
}

/// The binary form of a point.
pub open spec fn encoded_point(p: ShotPoint) -> Seq<u8> {
    bytes::le_bytes(capped16(p.time_ms as int) as nat, 2) + bytes::le_bytes(
        hundredths(p.pressure_bar) as nat,
        2,
    ) + bytes::le_bytes(tenths(p.temperature_c) as nat, 2) + bytes::le_bytes(
        bits16(signed_tenths(p.weight_g)) as nat,
        2,
    ) + bytes::le_bytes(hundredths(p.flow_gps) as nat, 2)
}

/// The binary form of some points.
pub open spec fn encoded_points(points: Seq<ShotPoint>) -> Seq<u8>
    decreases points.len(),
{
    if points.len() == 0 {
        seq![]
    } else {
        encoded_points(points.drop_last()) + encoded_point(points.last())
    }
}

/// The points that are stored: at most the first 200.
pub open spec fn stored_points(points: Seq<ShotPoint>) -> Seq<ShotPoint> {
    if points.len() > MAX_SHOT_POINTS {
        points.take(MAX_SHOT_POINTS as int)
    } else {
        points
    }
}

/// The header of a shot.
pub open spec fn encoded_header(id: u32, unix_timestamp: u64, n: nat) -> Seq<u8> {
    bytes::le_bytes(id as nat, 4) + bytes::le_bytes(unix_timestamp as nat, 8) + bytes::le_bytes(
        n,
        2,
    ) + bytes::le_bytes(0, 6)
}

/// The binary form of a shot.
pub open spec fn encoded(shot: ShotRecordView) -> Seq<u8> {
    encoded_header(shot.id, shot.unix_timestamp, stored_points(shot.points).len())
        + encoded_points(stored_points(shot.points))
}

/// The 16 bits at `at`.
pub open spec fn word_at(buf: Seq<u8>, at: int) -> int {
    bytes::le_value(buf.subrange(at, at + 2)) as int
}

/// The point that stands at `at`.
pub open spec fn point_at(buf: Seq<u8>, at: int) -> ShotPoint {
    let w = word_at(buf, at + 6);
    ShotPoint {
        time_ms: word_at(buf, at) as u32,
        pressure_bar: from_hundredths(word_at(buf, at + 2)),
        temperature_c: from_tenths(word_at(buf, at + 4)),
        weight_g: from_tenths(
            if w >= 32768 {
                w - 65536
            } else {
                w
            },
        ),
        flow_gps: from_hundredths(word_at(buf, at + 8)),
    }
}

/// The shot that the bytes are the binary form of. A number of 0 marks an empty slot.
pub open spec fn decoded(buf: Seq<u8>) -> Option<ShotRecordView> {
    if buf.len() < HEADER_LEN {
        None
    } else {
        let id = bytes::le_value(buf.subrange(0, 4));
        let n = word_at(buf, 12);
        if id == 0 || n > MAX_SHOT_POINTS || buf.len() < HEADER_LEN + n * POINT_LEN {
            None
        } else {
            Some(
                ShotRecordView {
                    id: id as u32,
                    unix_timestamp: bytes::le_value(buf.subrange(4, 12)) as u64,
                    points: Seq::new(n as nat, |i: int| point_at(buf, HEADER_LEN + i * POINT_LEN)),
                },
            )
        }
    }
}

/// What storing keeps of a point.
pub open spec fn kept(p: ShotPoint) -> ShotPoint {
    ShotPoint {
        time_ms: capped16(p.time_ms as int) as u32,
        pressure_bar: from_hundredths(hundredths(p.pressure_bar)),
        temperature_c: from_tenths(tenths(p.temperature_c)),
        weight_g: from_tenths(signed_tenths(p.weight_g)),
        flow_gps: from_hundredths(hundredths(p.flow_gps)),
    }
}

/// What storing keeps of a shot.
pub open spec fn kept_shot(shot: ShotRecordView) -> ShotRecordView {
    ShotRecordView {
        points: stored_points(shot.points).map_values(|p: ShotPoint| kept(p)),
        ..shot
    }
}

fn push_point(buf: &mut Vec<u8>, p: &ShotPoint)
    ensures
        final(buf)@ == old(buf)@ + encoded_point(*p),
{
    let hundred = Binary32::from_bits(0x42c8_0000);
    let ten = Binary32::from_bits(0x4120_0000);
    let time_ms: u64 = if p.time_ms > 65535 {
        65535
    } else {
        p.time_ms as u64
    };
    let pressure: u16 = p.pressure_bar.times(hundred).round_to_u16();
    let temperature: u16 = p.temperature_c.times(ten).round_to_u16();
    let weight: i16 = p.weight_g.times(ten).round_to_i16();
    let flow: u16 = p.flow_gps.times(hundred).round_to_u16();
    let weight_bits: u64 = if weight < 0 {
        (weight as i32 + 65536) as u64
    } else {
        weight as u64
    };
    bytes::push_le(buf, time_ms, 2);
    bytes::push_le(buf, pressure as u64, 2);
    bytes::push_le(buf, temperature as u64, 2);
    bytes::push_le(buf, weight_bits, 2);
    bytes::push_le(buf, flow as u64, 2);
    assert(buf@ =~= old(buf)@ + encoded_point(*p));
}

/// Encodes a shot.
pub fn encode_shot(shot: &ShotRecord) -> (r: Vec<u8>)
    ensures
        r@ == encoded(shot@),
{
    let n: usize = if shot.points.len() > MAX_SHOT_POINTS {
        MAX_SHOT_POINTS
    } else {
        shot.points.len()
    };
    let ghost stored = stored_points(shot.points@);
    let ghost header = encoded_header(shot.id, shot.unix_timestamp, n as nat);
    let mut buf: Vec<u8> = Vec::new();
    bytes::push_le(&mut buf, shot.id as u64, 4);
    bytes::push_le(&mut buf, shot.unix_timestamp, 8);
    bytes::push_le(&mut buf, n as u64, 2);
    bytes::push_le(&mut buf, 0, 6);
    assert(buf@ =~= header);
    let mut i: usize = 0;
    assert(header + encoded_points(stored.take(0)) =~= header);
    while i < n
        invariant
            i <= n,
            n <= shot.points.len(),
            n == stored.len(),
            stored == stored_points(shot.points@),
            buf@ == header + encoded_points(stored.take(i as int)),
        decreases n - i,
    {
        let ghost before = stored.take(i as int);
        let ghost longer = stored.take(i + 1);
        push_point(&mut buf, &shot.points[i]);
        proof {
            assert(longer.drop_last() =~= before);
            assert(longer.last() == shot.points@[i as int]);
            assert((header + encoded_points(before)) + encoded_point(longer.last()) =~= header + (
            encoded_points(before) + encoded_point(longer.last())));
        }
        i = i + 1;
    }
    assert(stored.take(n as int) =~= stored);
    buf
}

fn read_word(buf: &[u8], at: usize) -> (r: u16)
    requires
        at + 2 <= buf.len(),
    ensures
        r == word_at(buf@, at as int),
{
    proof {
        reveal_with_fuel(bytes::byte_range, 3);
    }
    bytes::read_le(buf, at, 2) as u16
}

fn read_point(buf: &[u8], at: usize) -> (r: ShotPoint)
    requires
        at + 10 <= buf.len(),
    ensures
        r == point_at(buf@, at as int),
{
    let hundred = Binary32::from_bits(0x42c8_0000);
    let ten = Binary32::from_bits(0x4120_0000);
    let w: i64 = read_word(buf, at + 6) as i64;
    let weight: i64 = if w >= 32768 {
        w - 65536
    } else {
        w
    };
    ShotPoint {
        time_ms: read_word(buf, at) as u32,
        pressure_bar: Binary32::from_unsigned(read_word(buf, at + 2) as u64).divided_by(hundred),
        temperature_c: Binary32::from_unsigned(read_word(buf, at + 4) as u64).divided_by(ten),
        weight_g: Binary32::from_signed(weight).divided_by(ten),
        flow_gps: Binary32::from_unsigned(read_word(buf, at + 8) as u64).divided_by(hundred),
    }
}

/// Decodes a shot.
pub fn decode_shot(buf: &[u8]) -> (r: Option<ShotRecord>)
    ensures
        match decoded(buf@) {
            Some(shot) => r is Some && r->0@ == shot,
            None => r is None,
        },
{
    if buf.len() < HEADER_LEN {
        return None;
    }
    proof {
        reveal_with_fuel(bytes::byte_range, 9);
    }
    let id: u32 = bytes::read_le(buf, 0, 4) as u32;
    if id == 0 {
        return None;
    }
    let unix_timestamp: u64 = bytes::read_le(buf, 4, 8);
    let point_count: usize = read_word(buf, 12) as usize;
    if point_count > MAX_SHOT_POINTS || buf.len() < HEADER_LEN + point_count * POINT_LEN {
        return None;
    }
    let ghost expected = decoded(buf@)->0.points;
    let mut points: Vec<ShotPoint> = Vec::new();
    let mut i: usize = 0;
    while i < point_count
        invariant
            i <= point_count <= MAX_SHOT_POINTS,
            buf.len() >= HEADER_LEN + point_count * POINT_LEN,
            expected == Seq::new(
                point_count as nat,
                |i: int| point_at(buf@, HEADER_LEN + i * POINT_LEN),
            ),
            points@ == expected.take(i as int),
        decreases point_count - i,
    {
        let p = read_point(buf, HEADER_LEN + i * POINT_LEN);
        assert(expected.take(i + 1) =~= expected.take(i as int).push(expected[i as int]));
        points.push(p);
        i = i + 1;
    }
    assert(points@ =~= expected);
    Some(ShotRecord { id, unix_timestamp, points })
}

proof fn lemma_encoded_point(p: ShotPoint)
    ensures
        encoded_point(p).len() == 10,
        point_at(encoded_point(p), 0) == kept(p),
{
    reveal_with_fuel(bytes::byte_range, 3);
    reveal(convert::rounded_within);
    let a = bytes::le_bytes(capped16(p.time_ms as int) as nat, 2);
    let b = bytes::le_bytes(hundredths(p.pressure_bar) as nat, 2);
    let c = bytes::le_bytes(tenths(p.temperature_c) as nat, 2);
    let d = bytes::le_bytes(bits16(signed_tenths(p.weight_g)) as nat, 2);
    let e = bytes::le_bytes(hundredths(p.flow_gps) as nat, 2);
    bytes::lemma_bytes_round_trip(capped16(p.time_ms as int) as nat, 2);
    bytes::lemma_bytes_round_trip(hundredths(p.pressure_bar) as nat, 2);
    bytes::lemma_bytes_round_trip(tenths(p.temperature_c) as nat, 2);
    bytes::lemma_bytes_round_trip(bits16(signed_tenths(p.weight_g)) as nat, 2);
    bytes::lemma_bytes_round_trip(hundredths(p.flow_gps) as nat, 2);
    let all = encoded_point(p);
    assert(all.subrange(0, 2) =~= a);
    assert(all.subrange(2, 4) =~= b);
    assert(all.subrange(4, 6) =~= c);
    assert(all.subrange(6, 8) =~= d);
    assert(all.subrange(8, 10) =~= e);
}

proof fn lemma_encoded_points(points: Seq<ShotPoint>, i: int)
    requires
        0 <= i < points.len(),
    ensures
        encoded_points(points).len() == points.len() * 10,
        encoded_points(points).subrange(10 * i, 10 * i + 10) == encoded_point(points[i]),
    decreases points.len(),
{
    let shorter = points.drop_last();
    let front = encoded_points(shorter);
    lemma_encoded_point(points.last());
    if shorter.len() > 0 {
        lemma_encoded_points(shorter, 0);
    } else {
        assert(front.len() == 0);
    }
    if i < shorter.len() {
        lemma_encoded_points(shorter, i);
        assert(encoded_points(points).subrange(10 * i, 10 * i + 10) =~= front.subrange(
            10 * i,
            10 * i + 10,
        ));
    } else {
        assert(encoded_points(points).subrange(10 * i, 10 * i + 10) =~= encoded_point(
            points.last(),
        ));
    }
}

proof fn lemma_point_in_context(whole: Seq<u8>, part: Seq<u8>, at: int)
    requires
        part.len() == 10,
        0 <= at,
        at + 10 <= whole.len(),
        whole.subrange(at, at + 10) == part,
    ensures
        point_at(whole, at) == point_at(part, 0),
{
    assert(whole.subrange(at, at + 2) =~= part.subrange(0, 2));
    assert(whole.subrange(at + 2, at + 4) =~= part.subrange(2, 4));
    assert(whole.subrange(at + 4, at + 6) =~= part.subrange(4, 6));
    assert(whole.subrange(at + 6, at + 8) =~= part.subrange(6, 8));
    assert(whole.subrange(at + 8, at + 10) =~= part.subrange(8, 10));
}

/// Decoding what was encoded gives the shot back, as far as storing keeps it: the first 200
/// points, in steps of the stored units.
pub proof fn lemma_round_trip(shot: ShotRecordView)
    requires
        shot.id != 0,
    ensures
        decoded(encoded(shot)) == Some(kept_shot(shot)),
        encoded(shot).len() == HEADER_LEN + stored_points(shot.points).len() * POINT_LEN,
        encoded(shot).len() <= HEADER_LEN + MAX_SHOT_POINTS * POINT_LEN,
{
    let points = stored_points(shot.points);
    let n = points.len();
    let header = encoded_header(shot.id, shot.unix_timestamp, n);
    let body = encoded_points(points);
    let all = encoded(shot);
    assert(all == header + body);
    reveal_with_fuel(bytes::byte_range, 9);
    bytes::lemma_bytes_round_trip(shot.id as nat, 4);
    bytes::lemma_bytes_round_trip(shot.unix_timestamp as nat, 8);
    bytes::lemma_bytes_round_trip(n, 2);
    bytes::lemma_bytes_round_trip(0, 6);
    assert(all.subrange(0, 4) =~= bytes::le_bytes(shot.id as nat, 4));
    assert(all.subrange(4, 12) =~= bytes::le_bytes(shot.unix_timestamp as nat, 8));
    assert(all.subrange(12, 14) =~= bytes::le_bytes(n, 2));
    if n > 0 {
        lemma_encoded_points(points, 0);
    } else {
        assert(body.len() == 0);
    }
    assert(header.len() == 20);
    let kept_points = kept_shot(shot).points;
    let decoded_points = Seq::new(n, |i: int| point_at(all, HEADER_LEN + i * POINT_LEN));
    assert forall|i: int| 0 <= i < n implies decoded_points[i] == #[trigger] kept_points[i] by {
        lemma_encoded_points(points, i);
        lemma_encoded_point(points[i]);
        let at = 20 + 10 * i;
        assert(all.subrange(at, at + 10) =~= body.subrange(10 * i, 10 * i + 10));
        lemma_point_in_context(all, encoded_point(points[i]), at);
        assert(HEADER_LEN + i * POINT_LEN == at);
    }
    assert(decoded_points =~= kept_points);
}

/// What the ten slots hold: the bytes last written to each, if any.
pub type Slots = Seq<Option<Seq<u8>>>;

/// The contents of slots read from storage.
pub open spec fn slot_contents(slots: Seq<Option<Vec<u8>>>) -> Slots {
    slots.map_values(
        |s: Option<Vec<u8>>|
            match s {
                Some(b) => Some(b@),
                None => None,
            },
    )
}

/// The shot in a slot, if the slot holds one.
pub open spec fn shot_in(slots: Slots, slot: int) -> Option<ShotRecordView> {
    match slots[slot] {
        Some(b) => decoded(b),
        None => None,
    }
}

/// The shots in some slots, in order. Slots that hold none are passed over.
pub open spec fn shots_in(slots: Slots, order: Seq<int>) -> Seq<ShotRecordView>
    decreases order.len(),
{
    if order.len() == 0 {
        seq![]
    } else {
        let front = shots_in(slots, order.drop_last());
        match shot_in(slots, order.last()) {
            Some(shot) => front.push(shot),
            None => front,
        }
    }
}

/// The slots in use, oldest first.
pub open spec fn slot_order(head: int, count: int) -> Seq<int> {
    Seq::new(count as nat, |i: int| (head + 10 - count + i) % 10)
}

/// The bytes of a slot that holds no shot any more.
pub open spec fn erased_slot() -> Seq<u8> {
    Seq::new(HEADER_LEN as nat, |i: int| 0u8)
}

/// The key under which a slot is stored: `s0` to `s9`.
pub open spec fn key_of_slot(slot: nat) -> Seq<char> {
    seq!['s'] + text::decimal(slot)
}

/// The first of some shots with a number.
pub open spec fn first_with_id(shots: Seq<ShotRecordView>, id: u32) -> Option<ShotRecordView>
    decreases shots.len(),
{
    if shots.len() == 0 {
        None
    } else {
        match first_with_id(shots.drop_last(), id) {
            Some(shot) => Some(shot),
            None => if shots.last().id == id {
                Some(shots.last())
            } else {
                None
            },
        }
    }
}

/// The summaries of some shots.
pub open spec fn summaries(shots: Seq<ShotRecordView>) -> Seq<ShotSummary> {
    shots.map_values(
        |s: ShotRecordView| shot_recorder::summary(s.id, s.unix_timestamp, s.points),
    )
}

/// Whether summaries are sorted, the highest number first.
pub open spec fn newest_first(list: Seq<ShotSummary>) -> bool {
    forall|i: int, j: int| 0 <= i <= j < list.len() ==> (#[trigger] list[i]).id >= (
    #[trigger] list[j]).id
}

/// Whether the numbers of shots rise from each to the next.
pub open spec fn ascending(shots: Seq<ShotRecordView>) -> bool {
    forall|i: int, j: int| 0 <= i < j < shots.len() ==> (#[trigger] shots[i]).id < (
    #[trigger] shots[j]).id
}

/// A count that is stored as one byte; anything else counts as 0.
pub open spec fn stored_count(blob: Option<Seq<u8>>) -> nat {
    match blob {
        Some(b) => if b.len() == 1 {
            b[0] as nat
        } else {
            0
        },
        None => 0,
    }
}

/// The stored number of the next shot, at least 1.
pub open spec fn stored_next_id(blob: Option<Seq<u8>>) -> u32 {
    let n = match blob {
        Some(b) => if b.len() == 4 {
            bytes::le_value(b)
        } else {
            0x100_0000
        },
        None => 1,
    };
    if n == 0 {
        1
    } else {
        n as u32
    }
}

/// The bytes of a stored value, where there is one.
pub open spec fn blob_bytes(blob: Option<Vec<u8>>) -> Option<Seq<u8>> {
    match blob {
        Some(b) => Some(b@),
        None => None,
    }
}

/// The ring that stored metadata describes.
pub open spec fn stored_ring(
    head: Option<Seq<u8>>,
    count: Option<Seq<u8>>,
    next_id: Option<Seq<u8>>,
) -> NvsShotStore {
    NvsShotStore {
        head: if stored_count(head) < MAX_STORED_SHOTS {
            stored_count(head) as usize
        } else {
            9
        },
        count: if stored_count(count) < MAX_STORED_SHOTS {
            stored_count(count) as usize
        } else {
            10
        },
        next_id: stored_next_id(next_id),
    }
}

/// The number that follows `id`: never 0, which marks an empty slot.
pub open spec fn id_after(id: u32) -> u32 {
    if id == u32::MAX {
        1
    } else {
        (id + 1) as u32
    }
}

/// The ring of slots that holds the stored shots.
#[derive(Debug, Clone, Copy, PartialEq, Eq, Structural)]
pub struct NvsShotStore {
    /// The slot that is written next.
    pub head: usize,
    /// How many slots are in use.
    pub count: usize,
    /// The number of the next shot.
    pub next_id: u32,
}

/// A shot to be written to a slot.
#[derive(Debug)]
pub struct SlotWrite {
    pub slot: usize,
    pub id: u32,
    pub blob: Vec<u8>,
}

impl NvsShotStore {
    /// What holds of every ring.
    pub open spec fn wf(&self) -> bool {
        &&& self.head < MAX_STORED_SHOTS
        &&& self.count <= MAX_STORED_SHOTS
        &&& self.next_id >= 1
    }

    /// The slots in use, oldest first.
    pub open spec fn order(&self) -> Seq<int> {
        slot_order(self.head as int, self.count as int)
    }

    /// The slots that stay in use when another shot is stored: all but the oldest where the ring
    /// is full.
    pub open spec fn staying_order(&self) -> Seq<int> {
        if self.count < MAX_STORED_SHOTS {
            self.order()
        } else {
            self.order().skip(1)
        }
    }

    /// The stored shots, oldest first.
    pub open spec fn shots(&self, slots: Slots) -> Seq<ShotRecordView> {
        shots_in(slots, self.order())
    }

    /// The ring after the slot at its head was written.
    pub open spec fn advanced(&self) -> NvsShotStore {
        NvsShotStore {
            head: ((self.head + 1) % 10) as usize,
            count: if self.count < MAX_STORED_SHOTS {
                (self.count + 1) as usize
            } else {
                self.count
            },
            next_id: self.next_id,
        }
    }

    /// The ring that stored metadata describes. A missing head or count, or one that is not a
    /// single byte, is 0, and larger ones are cut to the ring. The next number is 1 where it is
    /// missing or 0, and `0x100_0000` where it is not four bytes.
    pub fn new(head: Option<Vec<u8>>, count: Option<Vec<u8>>, next_id: Option<Vec<u8>>) -> (r: Self)
        ensures
            r.wf(),
            r == stored_ring(blob_bytes(head), blob_bytes(count), blob_bytes(next_id)),
    {
        let h: usize = read_count(&head);
        let c: usize = read_count(&count);
        let n: u32 = match next_id {
            Some(b) => if b.len() == 4 {
                proof {
                    reveal_with_fuel(bytes::byte_range, 5);
                    assert(b@.subrange(0, 4) =~= b@);
                }
                bytes::read_le(b.as_slice(), 0, 4) as u32
            } else {
                0x100_0000
            },
            None => 1,
        };
        NvsShotStore {
            head: if h < MAX_STORED_SHOTS {
                h
            } else {
                9
            },
            count: if c < MAX_STORED_SHOTS {
                c
            } else {
                10
            },
            next_id: if n == 0 {
                1
            } else {
                n
            },
        }
    }

    /// The slots in use, oldest first.
    pub fn slots_in_use(&self) -> (r: Vec<usize>)
        requires
            self.wf(),
        ensures
            r.len() == self.count,
            forall|i: int| 0 <= i < r.len() ==> #[trigger] r@[i] == self.order()[i],
            forall|i: int| 0 <= i < r.len() ==> #[trigger] r@[i] < MAX_STORED_SHOTS,
    {
        let mut out: Vec<usize> = Vec::new();
        let mut i: usize = 0;
        while i < self.count
            invariant
                self.wf(),
                i <= self.count,
                out.len() == i,
                forall|j: int| 0 <= j < i ==> #[trigger] out@[j] == self.order()[j],
                forall|j: int| 0 <= j < i ==> #[trigger] out@[j] < MAX_STORED_SHOTS,
            decreases self.count - i,
        {
            out.push((self.head + MAX_STORED_SHOTS - self.count + i) % MAX_STORED_SHOTS);
            i = i + 1;
        }
        out
    }

    /// Prepares to store a shot: it gets the ring's next number, whatever number it had. The
    /// number is used up even where writing the slot then fails.
    pub fn begin_save(&mut self, shot: &ShotRecord) -> (r: SlotWrite)
        requires
            old(self).wf(),
        ensures
            final(self).wf(),
            *final(self) == (NvsShotStore { next_id: id_after(old(self).next_id), ..*old(self) }),
            r.slot == old(self).head,
            r.id == old(self).next_id,
            r.blob@ == encoded((ShotRecordView { id: old(self).next_id, ..shot@ })),
    {
        let id: u32 = self.next_id;
        self.next_id = if id == u32::MAX {
            1
        } else {
            id + 1
        };
        let renumbered = ShotRecord {
            id,
            unix_timestamp: shot.unix_timestamp,
            points: copy_points(&shot.points),
        };
        let blob = encode_shot(&renumbered);
        SlotWrite { slot: self.head, id, blob }
    }

    /// Notes that the slot at the head was written.
    pub fn commit_save(&mut self)
        requires
            old(self).wf(),
        ensures
            final(self).wf(),
            *final(self) == old(self).advanced(),
    {
        self.head = (self.head + 1) % MAX_STORED_SHOTS;
        if self.count < MAX_STORED_SHOTS {
            self.count = self.count + 1;
        }
    }

    /// The metadata to store: head, count and next number.
    pub fn metadata(&self) -> (r: (Vec<u8>, Vec<u8>, Vec<u8>))
        requires
            self.wf(),
        ensures
            r.0@ == seq![self.head as u8],
            r.1@ == seq![self.count as u8],
            r.2@ == bytes::le_bytes(self.next_id as nat, 4),
    {
        let mut head: Vec<u8> = Vec::new();
        head.push(self.head as u8);
        let mut count: Vec<u8> = Vec::new();
        count.push(self.count as u8);
        let mut next_id: Vec<u8> = Vec::new();
        bytes::push_le(&mut next_id, self.next_id as u64, 4);
        assert(next_id@ =~= bytes::le_bytes(self.next_id as nat, 4));
        (head, count, next_id)
    }

    /// The summaries of the stored shots, newest first.
    pub fn list_summaries(&self, slots: &Vec<Option<Vec<u8>>>) -> (r: Vec<ShotSummary>)
        requires
            self.wf(),
            slots.len() == MAX_STORED_SHOTS,
        ensures
            newest_first(r@),
            r@.to_multiset() == summaries(self.shots(slot_contents(slots@))).to_multiset(),
            ascending(self.shots(slot_contents(slots@))) ==> r@ == summaries(
                self.shots(slot_contents(slots@)),
            ).reverse(),
    {
        let ghost contents = slot_contents(slots@);
        let order = self.slots_in_use();
        let mut out: Vec<ShotSummary> = Vec::new();
        let ghost mut shots: Seq<ShotRecordView> = seq![];
        let mut i: usize = 0;
        assert(self.order().take(0) =~= seq![]);
        assert(summaries(shots) =~= seq![]);
        assert(summaries(shots).reverse() =~= seq![]);
        while i < order.len()
            invariant
                i <= order.len(),
                order.len() == self.count,
                forall|j: int| 0 <= j < order.len() ==> #[trigger] order@[j] == self.order()[j],
                forall|j: int| 0 <= j < order.len() ==> #[trigger] order@[j] < MAX_STORED_SHOTS,
                slots.len() == MAX_STORED_SHOTS,
                contents == slot_contents(slots@),
                shots == shots_in(contents, self.order().take(i as int)),
                newest_first(out@),
                out@.to_multiset() == summaries(shots).to_multiset(),
                ascending(shots) ==> out@ == summaries(shots).reverse(),
            decreases order.len() - i,
        {
            let slot: usize = order[i];
            proof {
                let longer = self.order().take(i + 1);
                assert(longer.drop_last() =~= self.order().take(i as int));
                assert(longer.last() == slot);
            }
            match read_slot(slots, slot) {
                Some(shot) => {
                    let item = shot.to_summary();
                    let ghost listed = out@;
                    insert_summary(&mut out, item);
                    proof {
                        let more = shots.push(shot@);
                        if ascending(more) {
                            lemma_front_is_ascending(shots, shot@);
                            assert forall|j: int| 0 <= j < listed.len() implies (
                            #[trigger] listed[j]).id < item.id by {
                                let k = shots.len() - 1 - j;
                                assert(listed[j] == summaries(shots)[k]);
                                assert(more[k].id < more[shots.len() as int].id);
                            }
                            assert(out@ =~= summaries(more).reverse());
                        }
                        assert(summaries(more) =~= summaries(shots).push(item));
                        summaries(shots).to_multiset_ensures();
                        shots = more;
                    }
                },
                None => {},
            }
            i = i + 1;
        }
        assert(self.order().take(i as int) =~= self.order());
        out
    }

    /// The stored shot with a number: the oldest one, should there be several.
    pub fn get_shot(&self, slots: &Vec<Option<Vec<u8>>>, id: u32) -> (r: Option<ShotRecord>)
        requires
            self.wf(),
            slots.len() == MAX_STORED_SHOTS,
        ensures
            match first_with_id(self.shots(slot_contents(slots@)), id) {
                Some(shot) => r is Some && r->0@ == shot,
                None => r is None,
            },
    {
        match self.find(slots, id) {
            Some((_, shot)) => Some(shot),
            None => None,
        }
    }

    /// The slot to erase in order to delete a shot, if it is stored. The count of slots in use
    /// stays: the erased slot is passed over from then on.
    pub fn delete_shot(&self, slots: &Vec<Option<Vec<u8>>>, id: u32) -> (r: Option<usize>)
        requires
            self.wf(),
            slots.len() == MAX_STORED_SHOTS,
        ensures
            r is Some <==> first_with_id(self.shots(slot_contents(slots@)), id) is Some,
            r matches Some(slot) ==> self.holds(slot_contents(slots@), slot as int, id),
    {
        match self.find(slots, id) {
            Some((slot, _)) => Some(slot),
            None => None,
        }
    }

    /// Whether a slot is the oldest one in use that holds a shot with a number.
    pub open spec fn holds(&self, slots: Slots, slot: int, id: u32) -> bool {
        exists|i: int|
            {
                &&& 0 <= i < self.count
                &&& #[trigger] self.order()[i] == slot
                &&& shot_in(slots, slot) matches Some(shot) && shot.id == id
                &&& first_with_id(shots_in(slots, self.order().take(i)), id) is None
            }
    }

    fn find(&self, slots: &Vec<Option<Vec<u8>>>, id: u32) -> (r: Option<(usize, ShotRecord)>)
        requires
            self.wf(),
            slots.len() == MAX_STORED_SHOTS,
        ensures
            match first_with_id(self.shots(slot_contents(slots@)), id) {
                Some(shot) => r matches Some(found) && found.1@ == shot && found.0
                    < MAX_STORED_SHOTS && self.holds(slot_contents(slots@), found.0 as int, id),
                None => r is None,
            },
    {
        let ghost contents = slot_contents(slots@);
        let order = self.slots_in_use();
        let mut i: usize = 0;
        assert(shots_in(contents, self.order().take(0)) =~= seq![]);
        while i < order.len()
            invariant
                i <= order.len(),
                order.len() == self.count,
                forall|j: int| 0 <= j < order.len() ==> #[trigger] order@[j] == self.order()[j],
                forall|j: int| 0 <= j < order.len() ==> #[trigger] order@[j] < MAX_STORED_SHOTS,
                slots.len() == MAX_STORED_SHOTS,
                contents == slot_contents(slots@),
                first_with_id(shots_in(contents, self.order().take(i as int)), id) is None,
            decreases order.len() - i,
        {
            let slot: usize = order[i];
            let ghost seen = shots_in(contents, self.order().take(i as int));
            let ghost longer = self.order().take(i + 1);
            proof {
                assert(longer.drop_last() =~= self.order().take(i as int));
                assert(longer.last() == slot);
            }
            match read_slot(slots, slot) {
                Some(shot) => {
                    proof {
                        assert(seen.push(shot@).drop_last() =~= seen);
                    }
                    if shot.id == id {
                        proof {
                            assert(self.order()[i as int] == slot);
                            lemma_first_stays_first(contents, self.order(), i + 1, id);
                        }
                        return Some((slot, shot));
                    }
                },
                None => {},
            }
            i = i + 1;
        }
        assert(self.order().take(i as int) =~= self.order());
        None
    }
}

proof fn lemma_front_is_ascending(shots: Seq<ShotRecordView>, last: ShotRecordView)
    requires
        ascending(shots.push(last)),
    ensures
        ascending(shots),
{
    let more = shots.push(last);
    assert forall|i: int, j: int| 0 <= i < j < shots.len() implies (#[trigger] shots[i]).id < (
    #[trigger] shots[j]).id by {
        assert(more[i].id < more[j].id);
    }
}

/// A shot found among the first slots is the one found among all of them.
proof fn lemma_first_stays_first(slots: Slots, order: Seq<int>, n: int, id: u32)
    requires
        0 <= n <= order.len(),
        first_with_id(shots_in(slots, order.take(n)), id) is Some,
    ensures
        first_with_id(shots_in(slots, order), id) == first_with_id(
            shots_in(slots, order.take(n)),
            id,
        ),
    decreases order.len(),
{
    if n == order.len() {
        assert(order.take(n) =~= order);
    } else {
        let shorter = order.drop_last();
        assert(shorter.take(n) =~= order.take(n));
        lemma_first_stays_first(slots, shorter, n, id);
        let front = shots_in(slots, shorter);
        match shot_in(slots, order.last()) {
            Some(shot) => {
                assert(front.push(shot).drop_last() =~= front);
            },
            None => {},
        }
    }
}

fn read_count(blob: &Option<Vec<u8>>) -> (r: usize)
    ensures
        r == stored_count(
            match *blob {
                Some(b) => Some(b@),
                None => None,
            },
        ),
        r < 256,
{
    match blob {
        Some(b) => if b.len() == 1 {
            b[0] as usize
        } else {
            0
        },
        None => 0,
    }
}

fn read_slot(slots: &Vec<Option<Vec<u8>>>, slot: usize) -> (r: Option<ShotRecord>)
    requires
        slot < slots.len(),
    ensures
        match shot_in(slot_contents(slots@), slot as int) {
            Some(shot) => r is Some && r->0@ == shot,
            None => r is None,
        },
{
    match &slots[slot] {
        Some(b) => decode_shot(b.as_slice()),
        None => None,
    }
}

fn copy_points(points: &Vec<ShotPoint>) -> (r: Vec<ShotPoint>)
    ensures
        r@ == points@,
{
    let mut out: Vec<ShotPoint> = Vec::new();
    let mut i: usize = 0;
    while i < points.len()
        invariant
            i <= points.len(),
            out@ == points@.take(i as int),
        decreases points.len() - i,
    {
        out.push(points[i]);
        assert(points@.take(i + 1) =~= points@.take(i as int).push(points@[i as int]));
        i = i + 1;
    }
    assert(out@ =~= points@);
    out
}

/// Inserts a summary behind those with a higher number.
fn insert_summary(list: &mut Vec<ShotSummary>, item: ShotSummary)
    requires
        newest_first(old(list)@),
    ensures
        newest_first(final(list)@),
        final(list)@.to_multiset() == old(list)@.to_multiset().insert(item),
        (forall|j: int| 0 <= j < old(list)@.len() ==> (#[trigger] old(list)@[j]).id < item.id)
            ==> final(list)@ == seq![item] + old(list)@,
{
    let mut at: usize = 0;
    while at < list.len() && list[at].id > item.id
        invariant
            at <= list.len(),
            list@ == old(list)@,
            forall|j: int| 0 <= j < at ==> (#[trigger] list@[j]).id > item.id,
        decreases list.len() - at,
    {
        at = at + 1;
    }
    list.insert(at, item);
    proof {
        let before = old(list)@;
        let after = list@;
        before.to_multiset_ensures();
        assert(after =~= before.insert(at as int, item));
        if forall|j: int| 0 <= j < before.len() ==> (#[trigger] before[j]).id < item.id {
            assert(at == 0) by {
                if at > 0 {
                    assert(before[0].id > item.id);
                }
            }
            assert(after =~= seq![item] + before);
        }
        vstd::seq_lib::to_multiset_insert(before, at as int, item);
        assert forall|i: int, j: int| 0 <= i <= j < after.len() implies (#[trigger] after[i]).id
            >= (#[trigger] after[j]).id by {
            if i < at && j > at {
                assert(after[i] == before[i] && after[j] == before[j - 1]);
            } else if i > at {
                assert(after[i] == before[i - 1] && after[j] == before[j - 1]);
            } else if j < at {
                assert(after[i] == before[i] && after[j] == before[j]);
            } else if i == at && j > at {
                assert(after[j] == before[j - 1]);
                assert(before[at as int].id >= before[j - 1].id);
            }
        }
    }
}

/// The key under which a slot is stored.
pub fn slot_key(slot: usize) -> (r: String)
    ensures
        r@ == key_of_slot(slot as nat),
{
    let mut key = String::new();
    key.push('s');
    text::push_decimal(&mut key, slot as u128);
    assert(key@ =~= key_of_slot(slot as nat));
    key
}

/// The shots in two rows of slots are those of the one and then those of the other.
pub proof fn lemma_shots_of_joined_orders(slots: Slots, a: Seq<int>, b: Seq<int>)
    ensures
        shots_in(slots, a + b) == shots_in(slots, a) + shots_in(slots, b),
    decreases b.len(),
{
    if b.len() == 0 {
        assert(a + b =~= a);
        assert(shots_in(slots, a) + shots_in(slots, b) =~= shots_in(slots, a));
    } else {
        let shorter = b.drop_last();
        lemma_shots_of_joined_orders(slots, a, shorter);
        assert((a + b).drop_last() =~= a + shorter);
        assert((a + b).last() == b.last());
        match shot_in(slots, b.last()) {
            Some(shot) => {
                assert((shots_in(slots, a) + shots_in(slots, shorter)).push(shot) =~= shots_in(
                    slots,
                    a,
                ) + shots_in(slots, shorter).push(shot));
            },
            None => {},
        }
    }
}

proof fn lemma_other_slots_keep_their_shots(
    slots: Slots,
    order: Seq<int>,
    slot: int,
    contents: Option<Seq<u8>>,
)
    requires
        0 <= slot < slots.len(),
        forall|i: int| 0 <= i < order.len() ==> 0 <= #[trigger] order[i] < slots.len() && order[i] != slot,
    ensures
        shots_in(slots.update(slot, contents), order) == shots_in(slots, order),
    decreases order.len(),
{
    if order.len() > 0 {
        let shorter = order.drop_last();
        assert(forall|i: int| 0 <= i < shorter.len() ==> #[trigger] shorter[i] == order[i]);
        lemma_other_slots_keep_their_shots(slots, shorter, slot, contents);
        assert(order.last() == order[order.len() - 1]);
    }
}

proof fn lemma_order_after_save(store: NvsShotStore)
    requires
        store.wf(),
    ensures
        store.advanced().order() == store.staying_order().push(store.head as int),
        forall|i: int|
            0 <= i < store.staying_order().len() ==> 0 <= #[trigger] store.staying_order()[i]
                < MAX_STORED_SHOTS && store.staying_order()[i] != store.head,
{
    assert(store.advanced().order() =~= store.staying_order().push(store.head as int));
}

/// Storing a shot adds it behind the stored ones, as far as storing keeps it. Where all slots
/// were in use the oldest slot is lost, and nothing else is.
pub proof fn lemma_save_adds_shot(store: NvsShotStore, slots: Slots, shot: ShotRecordView)
    requires
        store.wf(),
        slots.len() == MAX_STORED_SHOTS,
    ensures
        ({
            let numbered = ShotRecordView { id: store.next_id, ..shot };
            let after = slots.update(store.head as int, Some(encoded(numbered)));
            store.advanced().shots(after) == shots_in(slots, store.staying_order()).push(
                kept_shot(numbered),
            )
        }),
{
    let numbered = ShotRecordView { id: store.next_id, ..shot };
    let blob = encoded(numbered);
    let after = slots.update(store.head as int, Some(blob));
    let staying = store.staying_order();
    lemma_order_after_save(store);
    assert(store.advanced().order().drop_last() =~= staying);
    assert(store.advanced().order().last() == store.head);
    lemma_other_slots_keep_their_shots(slots, staying, store.head as int, Some(blob));
    lemma_round_trip(numbered);
}

/// A shot that was just stored can be read back under its number, where no stored shot had that
/// number before.
pub proof fn lemma_saved_shot_is_found(store: NvsShotStore, slots: Slots, shot: ShotRecordView)
    requires
        store.wf(),
        slots.len() == MAX_STORED_SHOTS,
        first_with_id(store.shots(slots), store.next_id) is None,
    ensures
        ({
            let numbered = ShotRecordView { id: store.next_id, ..shot };
            let after = slots.update(store.head as int, Some(encoded(numbered)));
            first_with_id(store.advanced().shots(after), store.next_id) == Some(
                kept_shot(numbered),
            )
        }),
{
    let numbered = ShotRecordView { id: store.next_id, ..shot };
    lemma_save_adds_shot(store, slots, shot);
    let staying = if store.count < MAX_STORED_SHOTS {
        store.shots(slots)
    } else {
        shots_in(slots, store.order().skip(1))
    };
    let id = store.next_id;
    if store.count == MAX_STORED_SHOTS {
        let oldest = store.order().take(1);
        assert(oldest + store.order().skip(1) =~= store.order());
        lemma_shots_of_joined_orders(slots, oldest, store.order().skip(1));
        lemma_none_in_part(shots_in(slots, oldest), staying, id);
    }
    assert(staying.push(kept_shot(numbered)).drop_last() =~= staying);
}

proof fn lemma_none_in_part(a: Seq<ShotRecordView>, b: Seq<ShotRecordView>, id: u32)
    requires
        first_with_id(a + b, id) is None,
    ensures
        first_with_id(b, id) is None,
    decreases b.len(),
{
    if b.len() > 0 {
        assert((a + b).drop_last() =~= a + b.drop_last());
        assert((a + b).last() == b.last());
        lemma_none_in_part(a, b.drop_last(), id);
    }
}

/// The ring is the same after a restart: its metadata describe it.
pub proof fn lemma_ring_survives_restart(store: NvsShotStore)
    requires
        store.wf(),
    ensures
        stored_ring(
            Some(seq![store.head as u8]),
            Some(seq![store.count as u8]),
            Some(bytes::le_bytes(store.next_id as nat, 4)),
        ) == store,
{
    reveal_with_fuel(bytes::byte_range, 5);
    bytes::lemma_bytes_round_trip(store.next_id as nat, 4);
}

/// Erasing the slot of a shot takes that shot away and leaves every other one.
pub proof fn lemma_delete_removes_shot(store: NvsShotStore, slots: Slots, i: int)
    requires
        store.wf(),
        slots.len() == MAX_STORED_SHOTS,
        0 <= i < store.count,
        shot_in(slots, store.order()[i]) is Some,
    ensures
        ({
            let slot = store.order()[i];
            let after = slots.update(slot, Some(erased_slot()));
            let older = shots_in(slots, store.order().take(i));
            let newer = shots_in(slots, store.order().skip(i + 1));
            &&& store.shots(slots) == older.push(shot_in(slots, slot)->0) + newer
            &&& store.shots(after) == older + newer
        }),
{
    let order = store.order();
    let slot = order[i];
    let after = slots.update(slot, Some(erased_slot()));
    let front = order.take(i);
    let back = order.skip(i + 1);
    let one = seq![slot];
    assert(order =~= (front + one) + back);
    assert(forall|j: int|
        0 <= j < front.len() ==> 0 <= #[trigger] front[j] < slots.len() && front[j] != slot);
    assert(forall|j: int|
        0 <= j < back.len() ==> 0 <= #[trigger] back[j] < slots.len() && back[j] != slot);
    lemma_other_slots_keep_their_shots(slots, front, slot, Some(erased_slot()));
    lemma_other_slots_keep_their_shots(slots, back, slot, Some(erased_slot()));
    lemma_shots_of_joined_orders(slots, front + one, back);
    lemma_shots_of_joined_orders(after, front + one, back);
    assert((front + one).drop_last() =~= front);
    assert((front + one).last() == slot);
    assert(erased_slot().subrange(0, 4) =~= seq![0u8, 0u8, 0u8, 0u8]);
    reveal_with_fuel(bytes::le_value, 5);
    assert(decoded(erased_slot()) is None);
    assert(shots_in(after, front + one) == shots_in(slots, front));
}

/// The bytes that erase a slot.
pub fn erased_blob() -> (r: Vec<u8>)
    ensures
        r@ == erased_slot(),
{
    let mut blob: Vec<u8> = Vec::new();
    let mut i: usize = 0;
    while i < HEADER_LEN
        invariant
            i <= HEADER_LEN,
            blob.len() == i,
            forall|j: int| 0 <= j < i ==> blob@[j] == 0,
        decreases HEADER_LEN - i,
    {
        blob.push(0);
        i = i + 1;
    }
    assert(blob@ =~= erased_slot());
    blob
}

} // verus!
