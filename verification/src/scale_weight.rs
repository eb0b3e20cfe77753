//! Weight measurements of several BLE scale protocols.
//!
//! Everything here works on the bytes of one notification; nothing depends on the radio.
use crate::binary32;
use crate::binary32::Binary32;
use crate::decimal;
use crate::telemetry_math;
use vstd::prelude::*;

verus! {

/// How a scale reports its weight.
#[derive(Debug, Clone, Copy, PartialEq, Eq, Structural)]
pub enum ScaleProtocol {
    StandardWeight,
    GenericNotify,
    Bookoo,
    Unknown,
}

/// A command that a Bookoo scale takes.
#[derive(Debug, Clone, Copy, PartialEq, Eq, Structural)]
pub enum BookooCommand {
    TareAndStart,
    SetFlowSmoothing(bool),
}

impl ScaleProtocol {
    /// The protocol's name.
    pub open spec fn name(self) -> Seq<char> {
        match self {
            ScaleProtocol::StandardWeight => "standard-weight"@,
            ScaleProtocol::GenericNotify => "generic-notify"@,
            ScaleProtocol::Bookoo => "bookoo"@,
            ScaleProtocol::Unknown => "unknown"@,
        }
    }

    /// The protocol's name.
    pub fn as_str(self) -> (r: &'static str)
        ensures
            r@ == self.name(),
    {
        match self {
            ScaleProtocol::StandardWeight => "standard-weight",
            ScaleProtocol::GenericNotify => "generic-notify",
            ScaleProtocol::Bookoo => "bookoo",
            ScaleProtocol::Unknown => "unknown",
        }
    }
}

/// 5.0 g: the resolution of the standard service in SI units.
pub const SI_STEP_G: u32 = 0x40a0_0000;

/// 4.5359237 g: the resolution of the standard service in imperial units, a hundredth of a pound.
pub const IMPERIAL_STEP_G: u32 = 0x4091_2649;

/// 500.0: the penalty of a raw value so small that it is likely a header byte.
pub const PENALTY_LOW_RAW: u32 = 0x43fa_0000;

/// 200.0: the penalty of a value from the second half of the packet.
pub const PENALTY_TRAILER: u32 = 0x4348_0000;

/// 10000.0: the distance of a zero weight while no weight is known.
pub const PENALTY_ZERO_UNSEEDED: u32 = 0x461c_4000;

/// 5000.0: the penalty of a small raw value while no weight is known.
pub const PENALTY_LOW_RAW_UNSEEDED: u32 = 0x459c_4000;

/// 1000.0: the penalty of a value from the second half while no weight is known.
pub const PENALTY_TRAILER_UNSEEDED: u32 = 0x447a_0000;

/// The largest finite number: the distance to beat before there is any candidate.
pub const LARGEST_DISTANCE: u32 = 0x7f7f_ffff;

/// The 16 bits at `i`, lowest byte first.
pub open spec fn le16(v: Seq<u8>, i: int) -> int {
    v[i] + v[i + 1] * 256
}

/// The 16 bits at `i`, highest byte first.
pub open spec fn be16(v: Seq<u8>, i: int) -> int {
    v[i] * 256 + v[i + 1]
}

/// The 24 bits at `i`, lowest byte first.
pub open spec fn le24(v: Seq<u8>, i: int) -> int {
    v[i] + v[i + 1] * 256 + v[i + 2] * 65536
}

/// The 24 bits at `i`, highest byte first.
pub open spec fn be24(v: Seq<u8>, i: int) -> int {
    v[i] * 65536 + v[i + 1] * 256 + v[i + 2]
}

/// The 32 bits at `i`, lowest byte first.
pub open spec fn le32(v: Seq<u8>, i: int) -> int {
    le24(v, i) + v[i + 3] * 0x100_0000
}

/// The 32 bits at `i`, highest byte first.
pub open spec fn be32(v: Seq<u8>, i: int) -> int {
    be24(v, i) * 256 + v[i + 3]
}

/// An unsigned integer of 16 bits read as two's complement.
pub open spec fn signed16(n: int) -> int {
    if n >= 0x8000 {
        n - 0x1_0000
    } else {
        n
    }
}

/// An unsigned integer of 32 bits read as two's complement.
pub open spec fn signed32(n: int) -> int {
    if n >= 0x8000_0000 {
        n - 0x1_0000_0000
    } else {
        n
    }
}

/// The weight of a standard packet: flags, then 16 bits counting steps of the flagged unit.
pub open spec fn standard_weight(v: Seq<u8>) -> Option<Binary32> {
    if v.len() < 3 {
        None
    } else {
        let step = if v[0] % 2 == 0 {
            SI_STEP_G
        } else {
            IMPERIAL_STEP_G
        };
        Some(
            telemetry_math::clean_weight(
                binary32::of_int(le16(v, 1)).product(Binary32::from_bits(step)),
            ),
        )
    }
}

/// The weight of a Bookoo packet: the header `03 0B`, the sign in byte 6 and hundredths of a
/// gram in the 24 bits that follow.
pub open spec fn bookoo_weight(v: Seq<u8>) -> Option<Binary32> {
    if v.len() < 10 || v[0] != 0x03 || v[1] != 0x0B {
        None
    } else {
        let sign = if v[6] == 0x2D {
            0xbf80_0000u32
        } else {
            0x3f80_0000u32
        };
        Some(
            telemetry_math::clean_signed_weight(
                Binary32::from_bits(sign).product(binary32::of_int(be24(v, 7))).quotient(
                    Binary32::from_bits(0x42c8_0000),
                ),
            ),
        )
    }
}

/// Whether a byte can stand in a decimal number: a digit or a point.
pub open spec fn is_number_byte(b: u8) -> bool {
    (48 <= b && b <= 57) || b == 46
}

/// The longest row of number bytes at the front.
pub open spec fn number_prefix(v: Seq<u8>) -> Seq<char>
    decreases v.len(),
{
    if v.len() > 0 && is_number_byte(v[0]) {
        seq![v[0] as char] + number_prefix(v.skip(1))
    } else {
        seq![]
    }
}

/// The first row of number bytes.
pub open spec fn first_number(v: Seq<u8>) -> Seq<char>
    decreases v.len(),
{
    if v.len() == 0 {
        seq![]
    } else if is_number_byte(v[0]) {
        number_prefix(v)
    } else {
        first_number(v.skip(1))
    }
}

/// The weight of a packet that holds text: the first decimal number in it.
pub open spec fn ascii_weight(v: Seq<u8>) -> Option<Binary32> {
    match decimal::number(first_number(v)) {
        Some(x) => Some(telemetry_math::clean_weight(x)),
        None => None,
    }
}

/// One way to read a weight out of a packet.
#[derive(Debug, Clone, Copy, PartialEq, Eq, Structural)]
pub struct WeightCandidate {
    pub weight_g: Binary32,
    pub offset: usize,
    pub raw_abs: u64,
    pub in_trailer: bool,
}

/// How far a candidate is from what is expected: from the previous weight where there is one,
/// else from zero, with penalties for what is unlikely to be the weight.
pub open spec fn distance(c: WeightCandidate, previous_weight_g: Binary32) -> Binary32 {
    if binary32::zero().below(previous_weight_g) {
        let near = c.weight_g.difference(previous_weight_g).absolute();
        let low = if c.raw_abs < 10 {
            near.sum(Binary32::from_bits(PENALTY_LOW_RAW))
        } else {
            near
        };
        if c.in_trailer {
            low.sum(Binary32::from_bits(PENALTY_TRAILER))
        } else {
            low
        }
    } else if c.weight_g.at_most(binary32::zero()) {
        Binary32::from_bits(PENALTY_ZERO_UNSEEDED)
    } else {
        let low = if c.raw_abs < 10 {
            c.weight_g.sum(Binary32::from_bits(PENALTY_LOW_RAW_UNSEEDED))
        } else {
            c.weight_g
        };
        if c.in_trailer {
            low.sum(Binary32::from_bits(PENALTY_TRAILER_UNSEEDED))
        } else {
            low
        }
    }
}

/// Whether a candidate's weight can be one: more than nothing and at most 5 kg.
pub open spec fn plausible(c: WeightCandidate) -> bool {
    c.weight_g.finite() && binary32::zero().below(c.weight_g) && c.weight_g.at_most(
        Binary32::from_bits(telemetry_math::MAX_ABS_WEIGHT_G),
    )
}

/// The distance of the best candidate so far.
pub open spec fn distance_to_beat(
    best: Option<WeightCandidate>,
    previous_weight_g: Binary32,
) -> Binary32 {
    match best {
        Some(b) => distance(b, previous_weight_g),
        None => Binary32::from_bits(LARGEST_DISTANCE),
    }
}

/// The better of the best candidate so far and another one: the nearer, of two equally near
/// ones the one closer to the front of the packet, else the earlier.
pub open spec fn better(
    best: Option<WeightCandidate>,
    c: WeightCandidate,
    previous_weight_g: Binary32,
) -> Option<WeightCandidate> {
    let d = distance(c, previous_weight_g);
    let to_beat = distance_to_beat(best, previous_weight_g);
    let front = match best {
        Some(b) => b.offset as int,
        None => usize::MAX as int,
    };
    if plausible(c) && (d.below(to_beat) || (d.same_number(to_beat) && c.offset < front)) {
        Some(c)
    } else {
        best
    }
}

/// The best of some candidates, taken in order.
pub open spec fn best_of(
    candidates: Seq<WeightCandidate>,
    previous_weight_g: Binary32,
) -> Option<WeightCandidate>
    decreases candidates.len(),
{
    if candidates.len() == 0 {
        None
    } else {
        better(
            best_of(candidates.drop_last(), previous_weight_g),
            candidates.last(),
            previous_weight_g,
        )
    }
}

/// The candidate that a raw value gives with a divisor.
pub open spec fn candidate(raw: int, divisor: u32, offset: usize, half: usize) -> WeightCandidate {
    WeightCandidate {
        weight_g: binary32::of_int(raw).quotient(Binary32::from_bits(divisor)),
        offset,
        raw_abs: binary32::distance_from_zero(raw) as u64,
        in_trailer: offset > half,
    }
}

/// The candidates that a raw value gives: grams, tenths, hundredths and thousandths.
#[verifier::opaque]
pub open spec fn candidates_of(raw: int, offset: usize, half: usize) -> Seq<WeightCandidate> {
    seq![
        candidate(raw, 0x3f80_0000, offset, half),
        candidate(raw, 0x4120_0000, offset, half),
        candidate(raw, 0x42c8_0000, offset, half),
        candidate(raw, 0x447a_0000, offset, half),
    ]
}

/// The candidates of 32 bits that start at one byte, in both byte orders.
pub open spec fn wide_candidates(v: Seq<u8>, start: usize, half: usize) -> Seq<WeightCandidate> {
    let i = start as int;
    if v.len() - i >= 4 {
        candidates_of(signed32(le32(v, i)), start, half) + candidates_of(
            signed32(be32(v, i)),
            start,
            half,
        )
    } else {
        seq![]
    }
}

/// The candidates of 24 bits that start at one byte, in both byte orders.
pub open spec fn middle_candidates(v: Seq<u8>, start: usize, half: usize) -> Seq<WeightCandidate> {
    let i = start as int;
    if v.len() - i >= 3 {
        candidates_of(le24(v, i), start, half) + candidates_of(be24(v, i), start, half)
    } else {
        seq![]
    }
}

/// The candidates of 16 bits that start at one byte, with and without sign, in both byte
/// orders.
pub open spec fn narrow_candidates(v: Seq<u8>, start: usize, half: usize) -> Seq<WeightCandidate> {
    let i = start as int;
    if v.len() - i >= 2 {
        candidates_of(signed16(le16(v, i)), start, half) + candidates_of(le16(v, i), start, half)
            + candidates_of(signed16(be16(v, i)), start, half) + candidates_of(
            be16(v, i),
            start,
            half,
        )
    } else {
        seq![]
    }
}

/// The candidates that start at one byte.
pub open spec fn candidates_at(v: Seq<u8>, start: usize, half: usize) -> Seq<WeightCandidate> {
    wide_candidates(v, start, half) + middle_candidates(v, start, half) + narrow_candidates(
        v,
        start,
        half,
    )
}

/// The candidates that start in the first `n` bytes.
pub open spec fn candidates_before(v: Seq<u8>, n: nat, half: usize) -> Seq<WeightCandidate>
    decreases n,
{
    if n == 0 {
        seq![]
    } else {
        candidates_before(v, (n - 1) as nat, half) + candidates_at(v, (n - 1) as usize, half)
    }
}

/// Every candidate of a packet.
pub open spec fn all_candidates(v: Seq<u8>) -> Seq<WeightCandidate> {
    candidates_before(v, v.len(), (v.len() / 2) as usize)
}

/// The weight of a packet of unknown layout: the number where it holds text, else the best of
/// all candidates.
pub open spec fn generic_weight(v: Seq<u8>, previous_weight_g: Binary32) -> Option<Binary32> {
    match ascii_weight(v) {
        Some(w) => Some(w),
        None => match best_of(all_candidates(v), previous_weight_g) {
            Some(c) => Some(telemetry_math::clean_weight(c.weight_g)),
            None => None,
        },
    }
}

/// The weight of a packet, by protocol.
pub open spec fn weight(
    protocol: ScaleProtocol,
    v: Seq<u8>,
    previous_weight_g: Binary32,
) -> Option<Binary32> {
    match protocol {
        ScaleProtocol::StandardWeight => standard_weight(v),
        ScaleProtocol::Bookoo => bookoo_weight(v),
        _ => generic_weight(v, previous_weight_g),
    }
}

/// Parses a packet with the parser of the detected protocol.
pub fn parse_weight(protocol: ScaleProtocol, value: &[u8], previous_weight_g: Binary32) -> (r:
    Option<Binary32>)
    ensures
        r == weight(protocol, value@, previous_weight_g),
{
    match protocol {
        ScaleProtocol::StandardWeight => parse_standard(value),
        ScaleProtocol::Bookoo => parse_bookoo(value),
        ScaleProtocol::GenericNotify => parse_generic(value, previous_weight_g),
        ScaleProtocol::Unknown => parse_generic(value, previous_weight_g),
    }
}

/// The packet of a Bookoo command.
pub open spec fn bookoo_packet(command: BookooCommand) -> Seq<u8> {
    match command {
        BookooCommand::TareAndStart => seq![0x03u8, 0x0A, 0x07, 0x00, 0x00, 0x0E],
        BookooCommand::SetFlowSmoothing(enabled) => seq![
            0x03u8,
            0x0A,
            0x08,
            if enabled {
                1u8
            } else {
                0u8
            },
            0x00,
            if enabled {
                0u8
            } else {
                1u8
            },
        ],
    }
}

/// The last byte of every command packet is the exclusive or of the bytes before it.
pub proof fn lemma_bookoo_checksum(command: BookooCommand)
    ensures
        ({
            let p = bookoo_packet(command);
            p.len() == 6 && p[5] == p[0] ^ p[1] ^ p[2] ^ p[3] ^ p[4]
        }),
{
    assert(0x03u8 ^ 0x0Au8 ^ 0x07u8 ^ 0u8 ^ 0u8 == 0x0Eu8) by (bit_vector);
    assert(0x03u8 ^ 0x0Au8 ^ 0x08u8 ^ 0u8 ^ 0u8 == 1u8) by (bit_vector);
    assert(0x03u8 ^ 0x0Au8 ^ 0x08u8 ^ 1u8 ^ 0u8 == 0u8) by (bit_vector);
}

/// Encodes a Bookoo command.
pub fn encode_bookoo_command(command: BookooCommand) -> (r: [u8; 6])
    ensures
        r@ == bookoo_packet(command),
{
    let (kind, argument): (u8, u8) = match command {
        BookooCommand::TareAndStart => (0x07, 0x00),
        BookooCommand::SetFlowSmoothing(enabled) => (
            0x08,
            if enabled {
                1
            } else {
                0
            },
        ),
    };
    let checksum: u8 = 0x03 ^ 0x0A ^ kind ^ argument ^ 0x00;
    proof {
        lemma_bookoo_checksum(command);
    }
    let packet: [u8; 6] = [0x03, 0x0A, kind, argument, 0x00, checksum];
    assert(packet@ =~= bookoo_packet(command));
    packet
}

/// Parses a packet of the standard BLE weight scale service.
pub fn parse_standard(value: &[u8]) -> (r: Option<Binary32>)
    ensures
        r == standard_weight(value@),
{
    if value.len() < 3 {
        return None;
    }
    let raw: u64 = value[1] as u64 + value[2] as u64 * 256;
    let step: u32 = if value[0] % 2 == 0 {
        SI_STEP_G
    } else {
        IMPERIAL_STEP_G
    };
    Some(
        telemetry_math::sanitize_weight_g(
            Binary32::from_unsigned(raw).times(Binary32::from_bits(step)),
        ),
    )
}

/// Parses a Bookoo packet.
pub fn parse_bookoo(value: &[u8]) -> (r: Option<Binary32>)
    ensures
        r == bookoo_weight(value@),
{
    if value.len() < 10 {
        return None;
    }
    if value[0] != 0x03 || value[1] != 0x0B {
        return None;
    }
    let sign: u32 = if value[6] == 0x2D {
        0xbf80_0000
    } else {
        0x3f80_0000
    };
    let raw: u64 = value[7] as u64 * 65536 + value[8] as u64 * 256 + value[9] as u64;
    Some(
        telemetry_math::sanitize_signed_weight_g(
            Binary32::from_bits(sign).times(Binary32::from_unsigned(raw)).divided_by(
                Binary32::from_bits(0x42c8_0000),
            ),
        ),
    )
}

/// How far a candidate is from what is expected.
pub fn candidate_distance(candidate: &WeightCandidate, previous_weight_g: Binary32) -> (r: Binary32)
    ensures
        r == distance(*candidate, previous_weight_g),
{
    if Binary32::from_bits(0).less(previous_weight_g) {
        let mut d = candidate.weight_g.minus(previous_weight_g).abs();
        if candidate.raw_abs < 10 {
            d = d.plus(Binary32::from_bits(PENALTY_LOW_RAW));
        }
        if candidate.in_trailer {
            d = d.plus(Binary32::from_bits(PENALTY_TRAILER));
        }
        d
    } else {
        if candidate.weight_g.less_or_equal(Binary32::from_bits(0)) {
            return Binary32::from_bits(PENALTY_ZERO_UNSEEDED);
        }
        let mut score = candidate.weight_g;
        if candidate.raw_abs < 10 {
            score = score.plus(Binary32::from_bits(PENALTY_LOW_RAW_UNSEEDED));
        }
        if candidate.in_trailer {
            score = score.plus(Binary32::from_bits(PENALTY_TRAILER_UNSEEDED));
        }
        score
    }
}

/// Takes a candidate where it is better than the best so far.
fn consider(
    best: Option<WeightCandidate>,
    c: WeightCandidate,
    previous_weight_g: Binary32,
) -> (r: Option<WeightCandidate>)
    ensures
        r == better(best, c, previous_weight_g),
{
    let w = c.weight_g;
    if !w.is_finite() || !Binary32::from_bits(0).less(w) || !w.less_or_equal(
        Binary32::from_bits(telemetry_math::MAX_ABS_WEIGHT_G),
    ) {
        return best;
    }
    let d = candidate_distance(&c, previous_weight_g);
    let (to_beat, front): (Binary32, usize) = match best {
        Some(b) => (candidate_distance(&b, previous_weight_g), b.offset),
        None => (Binary32::from_bits(LARGEST_DISTANCE), usize::MAX),
    };
    if d.less(to_beat) || (d.equals(to_beat) && c.offset < front) {
        Some(c)
    } else {
        best
    }
}

/// Considers the four candidates of a raw value.
fn consider_raw(
    best: Option<WeightCandidate>,
    raw: i64,
    offset: usize,
    half: usize,
    previous_weight_g: Binary32,
    Ghost(seen): Ghost<Seq<WeightCandidate>>,
) -> (r: Option<WeightCandidate>)
    requires
        best == best_of(seen, previous_weight_g),
        raw > i64::MIN,
    ensures
        r == best_of(seen + candidates_of(raw as int, offset, half), previous_weight_g),
{
    reveal(candidates_of);
    let raw_abs: u64 = if raw < 0 {
        (-raw) as u64
    } else {
        raw as u64
    };
    let divisors: [u32; 4] = [0x3f80_0000, 0x4120_0000, 0x42c8_0000, 0x447a_0000];
    let number = Binary32::from_signed(raw);
    let ghost all = candidates_of(raw as int, offset, half);
    let mut best = best;
    let mut i: usize = 0;
    assert(seen + all.take(0) =~= seen);
    while i < 4
        invariant
            i <= 4,
            all == candidates_of(raw as int, offset, half),
            divisors@ == seq![0x3f80_0000u32, 0x4120_0000, 0x42c8_0000, 0x447a_0000],
            number == binary32::of_int(raw as int),
            raw_abs == binary32::distance_from_zero(raw as int),
            best == best_of(seen + all.take(i as int), previous_weight_g),
        decreases 4 - i,
    {
        let c = WeightCandidate {
            weight_g: number.divided_by(Binary32::from_bits(divisors[i])),
            offset,
            raw_abs,
            in_trailer: offset > half,
        };
        proof {
            reveal(candidates_of);
            assert(c == all[i as int]);
            let longer = seen + all.take(i + 1);
            assert(longer.drop_last() =~= seen + all.take(i as int));
            assert(longer.last() == c);
        }
        best = consider(best, c, previous_weight_g);
        i = i + 1;
    }
    assert(all.take(4) =~= all);
    best
}

/// Considers the candidates of 32 bits.
fn consider_wide(
    best: Option<WeightCandidate>,
    value: &[u8],
    start: usize,
    half: usize,
    previous_weight_g: Binary32,
    Ghost(seen): Ghost<Seq<WeightCandidate>>,
) -> (r: Option<WeightCandidate>)
    requires
        best == best_of(seen, previous_weight_g),
        start < value.len(),
    ensures
        r == best_of(seen + wide_candidates(value@, start, half), previous_weight_g),
{
    if value.len() - start < 4 {
        assert(seen + wide_candidates(value@, start, half) =~= seen);
        return best;
    }
    let i = start;
    let le: u32 = value[i] as u32 + value[i + 1] as u32 * 256 + value[i + 2] as u32 * 65536
        + value[i + 3] as u32 * 0x100_0000;
    let be: u32 = (value[i] as u32 * 65536 + value[i + 1] as u32 * 256 + value[i + 2] as u32) * 256
        + value[i + 3] as u32;
    let raw_le: i64 = if le >= 0x8000_0000 {
        le as i64 - 0x1_0000_0000
    } else {
        le as i64
    };
    let raw_be: i64 = if be >= 0x8000_0000 {
        be as i64 - 0x1_0000_0000
    } else {
        be as i64
    };
    let best = consider_raw(best, raw_le, start, half, previous_weight_g, Ghost(seen));
    let ghost seen1 = seen + candidates_of(raw_le as int, start, half);
    let best = consider_raw(best, raw_be, start, half, previous_weight_g, Ghost(seen1));
    let ghost seen2 = seen1 + candidates_of(raw_be as int, start, half);
    assert(seen2 =~= seen + wide_candidates(value@, start, half));
    best
}

/// Considers the candidates of 24 bits.
fn consider_middle(
    best: Option<WeightCandidate>,
    value: &[u8],
    start: usize,
    half: usize,
    previous_weight_g: Binary32,
    Ghost(seen): Ghost<Seq<WeightCandidate>>,
) -> (r: Option<WeightCandidate>)
    requires
        best == best_of(seen, previous_weight_g),
        start < value.len(),
    ensures
        r == best_of(seen + middle_candidates(value@, start, half), previous_weight_g),
{
    if value.len() - start < 3 {
        assert(seen + middle_candidates(value@, start, half) =~= seen);
        return best;
    }
    let i = start;
    let le: i64 = value[i] as i64 + value[i + 1] as i64 * 256 + value[i + 2] as i64 * 65536;
    let be: i64 = value[i] as i64 * 65536 + value[i + 1] as i64 * 256 + value[i + 2] as i64;
    let best = consider_raw(best, le, start, half, previous_weight_g, Ghost(seen));
    let ghost seen1 = seen + candidates_of(le as int, start, half);
    let best = consider_raw(best, be, start, half, previous_weight_g, Ghost(seen1));
    let ghost seen2 = seen1 + candidates_of(be as int, start, half);
    assert(seen2 =~= seen + middle_candidates(value@, start, half));
    best
}

/// Considers the candidates of 16 bits.
fn consider_narrow(
    best: Option<WeightCandidate>,
    value: &[u8],
    start: usize,
    half: usize,
    previous_weight_g: Binary32,
    Ghost(seen): Ghost<Seq<WeightCandidate>>,
) -> (r: Option<WeightCandidate>)
    requires
        best == best_of(seen, previous_weight_g),
        start < value.len(),
    ensures
        r == best_of(seen + narrow_candidates(value@, start, half), previous_weight_g),
{
    if value.len() - start < 2 {
        assert(seen + narrow_candidates(value@, start, half) =~= seen);
        return best;
    }
    let i = start;
    let le: i64 = value[i] as i64 + value[i + 1] as i64 * 256;
    let be: i64 = value[i] as i64 * 256 + value[i + 1] as i64;
    let signed_le: i64 = if le >= 0x8000 {
        le - 0x1_0000
    } else {
        le
    };
    let signed_be: i64 = if be >= 0x8000 {
        be - 0x1_0000
    } else {
        be
    };
    let best = consider_raw(best, signed_le, start, half, previous_weight_g, Ghost(seen));
    let ghost seen1 = seen + candidates_of(signed_le as int, start, half);
    let best = consider_raw(best, le, start, half, previous_weight_g, Ghost(seen1));
    let ghost seen2 = seen1 + candidates_of(le as int, start, half);
    let best = consider_raw(best, signed_be, start, half, previous_weight_g, Ghost(seen2));
    let ghost seen3 = seen2 + candidates_of(signed_be as int, start, half);
    let best = consider_raw(best, be, start, half, previous_weight_g, Ghost(seen3));
    let ghost seen4 = seen3 + candidates_of(be as int, start, half);
    assert(seen4 =~= seen + narrow_candidates(value@, start, half));
    best
}

/// The best candidate of a packet.
fn best_candidate(value: &[u8], previous_weight_g: Binary32) -> (r: Option<WeightCandidate>)
    ensures
        r == best_of(all_candidates(value@), previous_weight_g),
{
    let half: usize = value.len() / 2;
    let n: usize = value.len();
    let ghost v = value@;
    let mut best: Option<WeightCandidate> = None;
    let mut start: usize = 0;
    while start < n
        invariant
            start <= n,
            n == value.len(),
            v == value@,
            half == v.len() / 2,
            best == best_of(candidates_before(v, start as nat, half), previous_weight_g),
        decreases n - start,
    {
        let ghost seen = candidates_before(v, start as nat, half);
        let ghost wide = seen + wide_candidates(v, start, half);
        let ghost middle = wide + middle_candidates(v, start, half);
        best = consider_wide(best, value, start, half, previous_weight_g, Ghost(seen));
        best = consider_middle(best, value, start, half, previous_weight_g, Ghost(wide));
        best = consider_narrow(best, value, start, half, previous_weight_g, Ghost(middle));
        assert(middle + narrow_candidates(v, start, half) =~= seen + candidates_at(v, start, half));
        start = start + 1;
    }
    best
}

/// Parses a packet of unknown layout: text first, then the candidate nearest to the previous
/// reading.
pub fn parse_generic(value: &[u8], previous_weight_g: Binary32) -> (r: Option<Binary32>)
    ensures
        r == generic_weight(value@, previous_weight_g),
{
    match parse_ascii(value) {
        Some(parsed) => Some(parsed),
        None => match best_candidate(value, previous_weight_g) {
            Some(c) => Some(telemetry_math::sanitize_weight_g(c.weight_g)),
            None => None,
        },
    }
}

/// Parses the first decimal number in a packet. Bytes outside ASCII are never part of one.
pub fn parse_ascii(value: &[u8]) -> (r: Option<Binary32>)
    ensures
        r == ascii_weight(value@),
{
    let ghost v = value@;
    let mut from: usize = 0;
    assert(v.skip(0) =~= v);
    while from < value.len() && !((48 <= value[from] && value[from] <= 57) || value[from] == 46)
        invariant
            from <= value.len(),
            v == value@,
            first_number(v) == first_number(v.skip(from as int)),
        decreases value.len() - from,
    {
        assert(v.skip(from as int).skip(1) =~= v.skip(from + 1));
        from = from + 1;
    }
    let mut number = String::new();
    let mut i: usize = from;
    assert(first_number(v) == number_prefix(v.skip(from as int)));
    assert(number@ + number_prefix(v.skip(from as int)) =~= number_prefix(v.skip(from as int)));
    while i < value.len() && ((48 <= value[i] && value[i] <= 57) || value[i] == 46)
        invariant
            from <= i <= value.len(),
            v == value@,
            number@ + number_prefix(v.skip(i as int)) == first_number(v),
        decreases value.len() - i,
    {
        proof {
            let rest = v.skip(i as int);
            assert(rest.skip(1) =~= v.skip(i + 1));
            assert(number@.push(rest[0] as char) + number_prefix(rest.skip(1)) =~= number@ + (seq![
                rest[0] as char,
            ] + number_prefix(rest.skip(1))));
        }
        number.push(value[i] as char);
        i = i + 1;
    }
    assert(number@ + number_prefix(v.skip(i as int)) =~= number@);
    match decimal::read_number(number.as_str()) {
        Some(parsed) => Some(telemetry_math::sanitize_weight_g(parsed)),
        None => None,
    }
}

/// Whether `b` is a nearest plausible candidate: no plausible candidate is nearer, and of those
/// equally near none starts closer to the front of the packet.
pub open spec fn is_nearest(
    b: WeightCandidate,
    candidates: Seq<WeightCandidate>,
    previous_weight_g: Binary32,
) -> bool {
    let d = distance(b, previous_weight_g);
    &&& plausible(b)
    &&& candidates.contains(b)
    &&& d.at_most(Binary32::from_bits(LARGEST_DISTANCE))
    &&& forall|i: int|
        0 <= i < candidates.len() && plausible(#[trigger] candidates[i]) ==> {
            let other = distance(candidates[i], previous_weight_g);
            !other.below(d) && (other.same_number(d) ==> b.offset <= candidates[i].offset)
        }
}

/// The chosen candidate is a nearest one; none is chosen only where no plausible candidate has a
/// finite distance.
pub proof fn lemma_best_is_nearest(
    candidates: Seq<WeightCandidate>,
    previous_weight_g: Binary32,
)
    requires
        forall|i: int| 0 <= i < candidates.len() ==> (#[trigger] candidates[i]).offset < usize::MAX,
    ensures
        match best_of(candidates, previous_weight_g) {
            Some(b) => is_nearest(b, candidates, previous_weight_g),
            None => forall|i: int|
                0 <= i < candidates.len() && plausible(#[trigger] candidates[i]) ==> !distance(
                    candidates[i],
                    previous_weight_g,
                ).at_most(Binary32::from_bits(LARGEST_DISTANCE)),
        },
    decreases candidates.len(),
{
    if candidates.len() > 0 {
        let shorter = candidates.drop_last();
        let last = candidates.last();
        assert forall|i: int| 0 <= i < shorter.len() implies (#[trigger] shorter[i]).offset
            < usize::MAX by {
            assert(shorter[i] == candidates[i]);
        }
        lemma_best_is_nearest(shorter, previous_weight_g);
        assert(forall|i: int|
            0 <= i < shorter.len() ==> #[trigger] candidates[i] == shorter[i]);
        match best_of(candidates, previous_weight_g) {
            Some(b) => {
                if b == last {
                    assert(candidates[candidates.len() - 1] == b);
                } else {
                    assert(shorter.contains(b));
                    let j = choose|j: int| 0 <= j < shorter.len() && shorter[j] == b;
                    assert(candidates[j] == b);
                }
            },
            None => {},
        }
    }
}

/// A weight read from a packet that holds no text is more than nothing and at most 5 kg.
pub proof fn lemma_generic_weight_is_plausible(v: Seq<u8>, previous_weight_g: Binary32)
    requires
        ascii_weight(v) is None,
        generic_weight(v, previous_weight_g) is Some,
        v.len() < usize::MAX,
    ensures
        ({
            let w = generic_weight(v, previous_weight_g)->0;
            binary32::zero().below(w) && w.at_most(
                Binary32::from_bits(telemetry_math::MAX_ABS_WEIGHT_G),
            )
        }),
{
    lemma_candidate_offsets(v, v.len(), (v.len() / 2) as usize);
    lemma_best_is_nearest(all_candidates(v), previous_weight_g);
}

/// Whether the candidates all start in front of a place.
pub open spec fn offsets_below(s: Seq<WeightCandidate>, limit: int) -> bool {
    forall|i: int| 0 <= i < s.len() ==> (#[trigger] s[i]).offset < limit
}

proof fn lemma_offsets_of_sum(a: Seq<WeightCandidate>, b: Seq<WeightCandidate>, limit: int)
    requires
        offsets_below(a, limit),
        offsets_below(b, limit),
    ensures
        offsets_below(a + b, limit),
{
    assert forall|i: int| 0 <= i < (a + b).len() implies (#[trigger] (a + b)[i]).offset
        < limit by {
        if i < a.len() {
            assert((a + b)[i] == a[i]);
        } else {
            assert((a + b)[i] == b[i - a.len()]);
        }
    }
}

/// No candidate starts behind the packet.
pub proof fn lemma_candidate_offsets(v: Seq<u8>, n: nat, half: usize)
    requires
        n < usize::MAX,
    ensures
        offsets_below(candidates_before(v, n, half), usize::MAX as int),
    decreases n,
{
    reveal(candidates_of);
    let m = usize::MAX as int;
    if n > 0 {
        let before = candidates_before(v, (n - 1) as nat, half);
        let start = (n - 1) as usize;
        let i = start as int;
        lemma_candidate_offsets(v, (n - 1) as nat, half);
        let wide = wide_candidates(v, start, half);
        let middle = middle_candidates(v, start, half);
        let narrow = narrow_candidates(v, start, half);
        lemma_offsets_of_sum(
            candidates_of(signed32(le32(v, i)), start, half),
            candidates_of(signed32(be32(v, i)), start, half),
            m,
        );
        lemma_offsets_of_sum(
            candidates_of(le24(v, i), start, half),
            candidates_of(be24(v, i), start, half),
            m,
        );
        let two = candidates_of(signed16(le16(v, i)), start, half) + candidates_of(
            le16(v, i),
            start,
            half,
        );
        let third = candidates_of(signed16(be16(v, i)), start, half);
        let fourth = candidates_of(be16(v, i), start, half);
        lemma_offsets_of_sum(
            candidates_of(signed16(le16(v, i)), start, half),
            candidates_of(le16(v, i), start, half),
            m,
        );
        lemma_offsets_of_sum(two, third, m);
        lemma_offsets_of_sum(two + third, fourth, m);
        lemma_offsets_of_sum(wide, middle, m);
        lemma_offsets_of_sum(wide + middle, narrow, m);
        lemma_offsets_of_sum(before, candidates_at(v, start, half), m);
    }
}

} // verus!
