//! What the packets of a scale come to as weights.
use crate::arithmetic_laws;
use crate::binary32;
use crate::binary32::Binary32;
use crate::convert;
use crate::decimal;
use crate::scale_weight;
use crate::scale_weight::{BookooCommand, ScaleProtocol, WeightCandidate};
use crate::telemetry_math;
use crate::text;
use crate::wifi_provision::settings_laws;
use vstd::arithmetic::power2::*;
use vstd::prelude::*;

verus! {

/// Whether bytes are all digits and points.
pub open spec fn digits_and_points(b: Seq<u8>) -> bool {
    forall|i: int| 0 <= i < b.len() ==> (48 <= #[trigger] b[i] <= 57 || b[i] == 46)
}

/// Whether bytes hold no digit and no point.
pub open spec fn no_digit_or_point(b: Seq<u8>) -> bool {
    forall|i: int| 0 <= i < b.len() ==> !(48 <= #[trigger] b[i] <= 57) && b[i] != 46
}

/// The characters with some codes.
pub open spec fn as_chars(b: Seq<u8>) -> Seq<char> {
    b.map_values(|x: u8| x as char)
}

/// The codes of some ASCII characters.
pub open spec fn as_codes(s: Seq<char>) -> Seq<u8> {
    s.map_values(|c: char| c as u8)
}

proof fn lemma_prefix_is_taken(digits: Seq<u8>, rest: Seq<u8>)
    requires
        digits_and_points(digits),
        rest.len() > 0 ==> !(48 <= rest[0] <= 57) && rest[0] != 46,
    ensures
        scale_weight::number_prefix(digits + rest) == as_chars(digits),
    decreases digits.len(),
{
    let all = digits + rest;
    if digits.len() > 0 {
        let tail = digits.skip(1);
        assert(all[0] == digits[0]);
        assert(all.skip(1) =~= tail + rest);
        assert forall|i: int| 0 <= i < tail.len() implies (48 <= #[trigger] tail[i] <= 57 || tail[i]
            == 46) by {
            assert(tail[i] == digits[i + 1]);
        }
        lemma_prefix_is_taken(tail, rest);
        assert(as_chars(digits) =~= seq![digits[0] as char] + as_chars(tail));
    } else {
        assert(all =~= rest);
        assert(as_chars(digits) =~= Seq::<char>::empty());
    }
}

proof fn lemma_front_is_skipped(front: Seq<u8>, rest: Seq<u8>)
    requires
        no_digit_or_point(front),
    ensures
        scale_weight::first_number(front + rest) == scale_weight::first_number(rest),
    decreases front.len(),
{
    let all = front + rest;
    if front.len() > 0 {
        let tail = front.skip(1);
        assert(all[0] == front[0]);
        assert(all.skip(1) =~= tail + rest);
        assert forall|i: int| 0 <= i < tail.len() implies !(48 <= #[trigger] tail[i] <= 57)
            && tail[i] != 46 by {
            assert(tail[i] == front[i + 1]);
        }
        lemma_front_is_skipped(tail, rest);
    } else {
        assert(all =~= rest);
    }
}

/// The weight in a text is the first row of digits and points in it, the whole of it and no
/// more, read as a number.
pub proof fn lemma_first_row_of_digits_is_read(front: Seq<u8>, digits: Seq<u8>, rest: Seq<u8>)
    requires
        no_digit_or_point(front),
        digits_and_points(digits),
        digits.len() > 0,
        rest.len() > 0 ==> !(48 <= rest[0] <= 57) && rest[0] != 46,
    ensures
        scale_weight::ascii_weight(front + digits + rest) == match decimal::number(
            as_chars(digits),
        ) {
            Some(x) => Some(telemetry_math::clean_weight(x)),
            None => None,
        },
{
    assert(front + digits + rest =~= front + (digits + rest));
    lemma_front_is_skipped(front, digits + rest);
    assert((digits + rest)[0] == digits[0]);
    lemma_prefix_is_taken(digits, rest);
}

/// A packet without a digit or a point holds no number.
pub proof fn lemma_text_without_digits_has_no_weight(v: Seq<u8>)
    requires
        no_digit_or_point(v),
    ensures
        scale_weight::ascii_weight(v) is None,
{
    let none = Seq::<u8>::empty();
    assert(v =~= v + none);
    lemma_front_is_skipped(v, none);
    reveal(decimal::number);
    let empty = Seq::<char>::empty();
    reveal_strlit("inf");
    reveal_strlit("infinity");
    reveal_strlit("nan");
    assert(text::lower(empty).len() == 0);
    assert(decimal::after_whole(empty).len() == 0);
    assert(decimal::plain_field(empty) is None);
}

/// The digits of a number that is not negative are digits and a point.
proof fn lemma_written_digits(x: Binary32)
    requires
        x.finite(),
        !x.negative(),
    ensures
        digits_and_points(as_codes(convert::fixed3(x))),
        as_chars(as_codes(convert::fixed3(x))) == convert::fixed3(x),
        convert::fixed3(x).len() > 0,
{
    reveal(convert::fixed3);
    let t = convert::thousandths(x);
    let whole = text::decimal(t / 1000);
    let three = convert::three_digits(t % 1000);
    let s = convert::fixed3(x);
    settings_laws::lemma_decimal_value(t / 1000);
    settings_laws::lemma_three_digits(whole, t % 1000);
    assert(s =~= whole + seq!['.'] + three);
    assert forall|i: int| 0 <= i < s.len() implies decimal::is_digit(#[trigger] s[i]) || s[i]
        == '.' by {
        if i < whole.len() {
            assert(s[i] == whole[i]);
        } else if i > whole.len() {
            assert(s[i] == three[i - whole.len() - 1]);
        }
    }
    let codes = as_codes(s);
    assert forall|i: int| 0 <= i < codes.len() implies (48 <= #[trigger] codes[i] <= 57 || codes[i]
        == 46) by {
        assert(decimal::is_digit(s[i]) || s[i] == '.');
    }
    assert forall|i: int| 0 <= i < s.len() implies as_chars(codes)[i] == #[trigger] s[i] by {
        assert(decimal::is_digit(s[i]) || s[i] == '.');
    }
    assert(as_chars(codes) =~= s);
}

/// A weight that is written with three digits behind the point is read out of every text around
/// it, to a thousandth.
pub proof fn lemma_written_weight_is_read(x: Binary32, front: Seq<u8>, rest: Seq<u8>)
    requires
        x.finite(),
        !x.negative(),
        no_digit_or_point(front),
        rest.len() > 0 ==> !(48 <= rest[0] <= 57) && rest[0] != 46,
    ensures
        scale_weight::ascii_weight(front + as_codes(convert::fixed3(x)) + rest) == Some(
            telemetry_math::clean_weight(settings_laws::to_thousandths(x)),
        ),
{
    let digits = as_codes(convert::fixed3(x));
    lemma_written_digits(x);
    lemma_first_row_of_digits_is_read(front, digits, rest);
    settings_laws::lemma_three_digits_are_read_back(x);
}

/// Cleaning keeps a weight that is a finite number and not below zero, and makes every other one
/// zero.
pub proof fn lemma_good_weight_is_kept(w: Binary32)
    ensures
        telemetry_math::clean_weight(w).finite(),
        telemetry_math::clean_weight(w).value() == if w.finite() && w.value() > 0 {
            w.value()
        } else {
            0
        },
        w.finite() && w.value() > 0 ==> telemetry_math::clean_weight(w) == w,
{
    crate::ieee::lemma_magnitude_value_of_zero(0, binary32::HIDDEN_BIT as nat);
    if w.finite() {
        binary32::lemma_order_is_by_value(binary32::zero(), w);
    }
}

proof fn lemma_five_kilograms()
    ensures
        Binary32::from_bits(0x459c_4000).value() == 5000 * pow2(149),
        Binary32::from_bits(0x459c_4000).negated().value() == -5000 * pow2(149),
{
    let most = Binary32::from_bits(0x459c_4000);
    binary32::lemma_value_of(most, 0x9c_4000, 138);
    lemma2_to64();
    lemma_pow2_adds(138, 11);
    assert(0x9c_4000 * pow2(138) == 5000 * pow2(149)) by (nonlinear_arith)
        requires
            pow2(138) * pow2(11) == pow2(149),
            pow2(11) == 0x800,
    ;
    assert(most.negated().value() == -most.value());
}

/// Cleaning a signed weight keeps it up to 5 kg either way, and moves one beyond that to 5 kg.
/// What is no finite number becomes zero.
pub proof fn lemma_good_signed_weight_is_kept(w: Binary32)
    ensures
        ({
            let r = telemetry_math::clean_signed_weight(w);
            let most = 5000 * pow2(149);
            &&& r.finite()
            &&& r.value() == if !w.finite() {
                0
            } else if w.value() > most {
                most as int
            } else if w.value() < -most {
                -most
            } else {
                w.value()
            }
        }),
{
    let most = Binary32::from_bits(0x459c_4000);
    lemma_five_kilograms();
    crate::ieee::lemma_magnitude_value_of_zero(0, binary32::HIDDEN_BIT as nat);
    if w.finite() {
        binary32::lemma_order_is_by_value(w, most.negated());
        binary32::lemma_order_is_by_value(most, w);
    }
}

/// The product of two whole numbers is exact where it stays below `2^24`.
proof fn lemma_whole_product(a: Binary32, b: Binary32, j: nat, k: nat)
    requires
        a.finite() && b.finite(),
        arithmetic_laws::size(a) == j * pow2(149),
        arithmetic_laws::size(b) == k * pow2(149),
        j * k < 0x100_0000,
    ensures
        a.product(b).finite(),
        arithmetic_laws::size(a.product(b)) == (j * k) * pow2(149),
        a.product(b).negative() == (a.negative() != b.negative()),
{
    reveal(Binary32::product);
    reveal(binary32::of_int);
    let u = pow2(149);
    let h = binary32::HIDDEN_BIT as nat;
    let n = j * k;
    lemma_pow2_pos(149);
    assert((j * u) * (k * u) == (n * u) * u) by (nonlinear_arith)
        requires
            n == j * k,
    ;
    arithmetic_laws::lemma_integer_is_exact(n as int);
    arithmetic_laws::lemma_common_factor_is_dropped(n * u, 1, u, h);
    assert(1 * u == u);
    assert(arithmetic_laws::size(a) == crate::rounding::magnitude_value(a.magnitude(), h));
    assert(arithmetic_laws::size(b) == crate::rounding::magnitude_value(b.magnitude(), h));
    let r = a.product(b);
    assert(arithmetic_laws::size(r) == crate::rounding::magnitude_value(r.magnitude(), h));
    crate::ieee::lemma_magnitude_value_of_zero(0, h);
    crate::ieee::lemma_magnitude_value_of_zero(r.magnitude(), h);
    if n == 0 {
        assert(n * u == 0) by (nonlinear_arith)
            requires
                n == 0,
        ;
        crate::rounding::lemma_magnitude_is_exact(0, h);
    } else {
        assert(n * u > 0) by (nonlinear_arith)
            requires
                n > 0,
                u > 0,
        ;
        assert(binary32::of_int(n as int).magnitude() == r.magnitude());
    }
}

/// A packet of the standard service counts steps of 5 g where its flags are even: the weight is
/// exact.
pub proof fn lemma_standard_grams(v: Seq<u8>, previous: Binary32)
    requires
        v.len() >= 3,
        v[0] % 2 == 0,
    ensures
        scale_weight::weight(ScaleProtocol::StandardWeight, v, previous) matches Some(w)
            && w.finite() && w.value() == 5 * (v[1] + 256 * v[2]) * pow2(149),
{
    let n = v[1] + 256 * v[2];
    let step = Binary32::from_bits(0x40a0_0000);
    let u = pow2(149);
    binary32::lemma_value_of(step, 0xa0_0000, 128);
    lemma2_to64();
    lemma_pow2_pos(149);
    lemma_pow2_adds(128, 21);
    assert(0xa0_0000 * pow2(128) == 5 * u) by (nonlinear_arith)
        requires
            pow2(128) * pow2(21) == u,
            pow2(21) == 0x20_0000,
    ;
    let a = binary32::of_int(n);
    arithmetic_laws::lemma_integer_is_exact(n);
    assert(n * u >= 0) by (nonlinear_arith)
        requires
            n >= 0,
            u > 0,
    ;
    lemma_whole_product(a, step, n as nat, 5);
    assert(n * 5 == 5 * n);
    let w = a.product(step);
    assert(w.value() == arithmetic_laws::size(w));
    lemma_good_weight_is_kept(w);
    assert(scale_weight::le16(v, 1) == n);
}

/// A packet of the standard service counts hundredths of a pound, 4.5359237 g each, where its
/// flags are odd: the weight is within 5 parts in ten million of a gram for each step.
pub proof fn lemma_standard_pounds(v: Seq<u8>, previous: Binary32)
    requires
        v.len() >= 3,
        v[0] % 2 == 1,
    ensures
        ({
            let n = v[1] + 256 * v[2];
            scale_weight::weight(ScaleProtocol::StandardWeight, v, previous) matches Some(w)
                && w.finite() && arithmetic_laws::apart(
                10_000_000 * w.value(),
                45_359_237 * n * pow2(149),
            ) <= 5 * n * pow2(149)
        }),
{
    let n = v[1] + 256 * v[2];
    let step = Binary32::from_bits(0x4091_2649);
    let u = pow2(149) as int;
    binary32::lemma_value_of(step, 0x91_2649, 128);
    lemma2_to64();
    lemma_pow2_pos(149);
    lemma_pow2_pos(128);
    lemma_pow2_adds(128, 21);
    let a = binary32::of_int(n);
    let p = pow2(128) as int;
    let s = step.value();
    assert(u == 0x20_0000 * p) by (nonlinear_arith)
        requires
            p * pow2(21) == u,
            pow2(21) == 0x20_0000,
    ;
    assert(s == 0x91_2649 * p);
    arithmetic_laws::lemma_integer_is_exact(n);
    assert(n * u >= 0) by (nonlinear_arith)
        requires
            n >= 0,
            u > 0,
    ;
    let w = a.product(step);
    assert(s >= 0x80_0000) by (nonlinear_arith)
        requires
            s == 0x91_2649 * p,
            p >= 1,
    ;
    if n == 0 {
        assert(n * u == 0 && 45_359_237 * n * u == 0 && 5 * n * u == 0) by (nonlinear_arith)
            requires
                n == 0,
        ;
        lemma_whole_product_of_zero(a, step);
        lemma_good_weight_is_kept(w);
    } else {
        let most = binary32::of_int(5 * n);
        arithmetic_laws::lemma_integer_is_exact(5 * n);
        assert(a.value() * s <= most.value() * u) by (nonlinear_arith)
            requires
                a.value() == n * u,
                most.value() == 5 * n * u,
                s <= 5 * u,
                n >= 0,
                u >= 0,
        ;
        binary32::lemma_product_at_most(a, step, most);
        arithmetic_laws::lemma_product_is_close(a, step);
        assert(w.value() == arithmetic_laws::size(w));
        let t = w.value();
        assert(0x100_0000 * (t - n * s) <= n * s && 0x100_0000 * (n * s - t) <= n * s)
            by (nonlinear_arith)
            requires
                u > 0,
                n >= 1,
                s >= 0x80_0000,
                0x100_0000 * (t * u - (n * u) * s) <= arithmetic_laws::larger_of(
                    (n * u) * s,
                    0x80_0000 * u,
                ),
                0x100_0000 * ((n * u) * s - t * u) <= arithmetic_laws::larger_of(
                    (n * u) * s,
                    0x80_0000 * u,
                ),
        ;
        let q = n * p;
        assert(n * s == 0x91_2649 * q) by (nonlinear_arith)
            requires
                s == 0x91_2649 * p,
                q == n * p,
        ;
        assert(45_359_237 * n * u == 45_359_237 * 0x20_0000 * q && 5 * n * u == 5 * 0x20_0000 * q)
            by (nonlinear_arith)
            requires
                u == 0x20_0000 * p,
                q == n * p,
        ;
        assert(q >= 1) by (nonlinear_arith)
            requires
                q == n * p,
                n >= 1,
                p >= 1,
        ;
        assert(t > 0);
        lemma_good_weight_is_kept(w);
        let x = 45_359_237 * n * u;
        let y = 5 * n * u;
        assert(x == 95_125_214_593_024 * q && y == 10_485_760 * q);
        assert(10_000_000 * (n * s) == 95_125_210_000_000 * q);
        assert(10_000_000 * t - x <= y);
        assert(x - 10_000_000 * t <= y);
        assert(arithmetic_laws::apart(10_000_000 * t, 45_359_237 * n * u) <= 5 * n * u);
    }
    assert(scale_weight::le16(v, 1) == n);
}

proof fn lemma_whole_product_of_zero(a: Binary32, b: Binary32)
    requires
        a.finite() && b.finite(),
        a.value() == 0,
    ensures
        a.product(b).finite(),
        a.product(b).value() == 0,
{
    reveal(Binary32::product);
    let h = binary32::HIDDEN_BIT as nat;
    lemma_pow2_pos(149);
    crate::ieee::lemma_magnitude_value_of_zero(0, h);
    crate::rounding::lemma_magnitude_is_exact(0, h);
    arithmetic_laws::lemma_common_factor_is_dropped(0, 1, pow2(149), h);
    assert(0 * pow2(149) == 0 && 1 * pow2(149) == pow2(149));
    let m = crate::rounding::magnitude_value(b.magnitude(), h);
    assert(0 * m == 0);
}

/// A packet of the standard service with less than three bytes has no weight.
pub proof fn lemma_short_standard_packet(v: Seq<u8>, previous: Binary32)
    requires
        v.len() < 3,
    ensures
        scale_weight::weight(ScaleProtocol::StandardWeight, v, previous) is None,
{
}

/// A Bookoo packet has hundredths of a gram in its bytes 7 to 9, highest first: the weight is
/// that to a part in `2^24`, up to 5 kg, and below zero where byte 6 is a minus sign.
pub proof fn lemma_bookoo_hundredths(v: Seq<u8>, previous: Binary32)
    requires
        v.len() >= 10,
        v[0] == 0x03,
        v[1] == 0x0B,
    ensures
        ({
            let raw = 65536 * v[7] + 256 * v[8] + v[9];
            let u = pow2(149) as int;
            scale_weight::weight(ScaleProtocol::Bookoo, v, previous) matches Some(w) && w.finite()
                && (raw <= 500_000 ==> 0x100_0000 * arithmetic_laws::apart(
                100 * arithmetic_laws::size(w) as int,
                raw * u,
            ) <= raw * u) && (raw > 500_000 ==> arithmetic_laws::size(w) == 5000 * u) && (raw > 0
                ==> (w.value() < 0 <==> v[6] == 0x2D))
        }),
{
    let raw = 65536 * v[7] + 256 * v[8] + v[9];
    let u = pow2(149) as int;
    let sign = Binary32::from_bits(
        if v[6] == 0x2D {
            0xbf80_0000u32
        } else {
            0x3f80_0000u32
        },
    );
    let one = Binary32::from_bits(0x3f80_0000);
    let hundred = Binary32::from_bits(0x42c8_0000);
    lemma2_to64();
    lemma_pow2_pos(149);
    binary32::lemma_value_of(one, 0x80_0000, 126);
    lemma_pow2_adds(126, 23);
    binary32::lemma_value_of(hundred, 0xc8_0000, 132);
    lemma_pow2_adds(132, 17);
    assert(0x80_0000 * pow2(126) == u && 0xc8_0000 * pow2(132) == 100 * u) by (nonlinear_arith)
        requires
            pow2(126) * pow2(23) == u,
            pow2(23) == 0x80_0000,
            pow2(132) * pow2(17) == u,
            pow2(17) == 0x2_0000,
    ;
    assert(sign.magnitude() == one.magnitude());
    assert(arithmetic_laws::size(sign) == 1 * u);
    arithmetic_laws::lemma_integer_is_exact(raw);
    let n = binary32::of_int(raw);
    assert(raw * u >= 0) by (nonlinear_arith)
        requires
            raw >= 0,
            u > 0,
    ;
    lemma_whole_product(sign, n, 1, raw as nat);
    let p = sign.product(n);
    let q = p.quotient(hundred);
    let top = arithmetic_laws::size(p) as int;
    assert(top == raw * u) by {
        assert(1 * raw == raw);
    }
    let c = arithmetic_laws::size(hundred) as int;
    assert(top * u <= top * c) by (nonlinear_arith)
        requires
            u <= c,
            top >= 0,
    ;
    let level = Binary32 { bits: p.magnitude() as u32 };
    assert(arithmetic_laws::size(level) == top);
    arithmetic_laws::lemma_quotient_at_most(p, hundred, level);
    arithmetic_laws::lemma_quotient_is_close(p, hundred);
    let t = arithmetic_laws::size(q) as int;
    assert(u >= 0x3200_0000) by {
        lemma_pow2_adds(64, 85);
        lemma_pow2_pos(85);
        assert(u >= pow2(64)) by (nonlinear_arith)
            requires
                u == pow2(64) * pow2(85),
                pow2(85) >= 1,
                pow2(64) > 0,
        ;
    }
    if raw >= 1 {
        assert(raw * u >= 0x3200_0000) by (nonlinear_arith)
            requires
                raw >= 1,
                u >= 0x3200_0000,
        ;
    }
    let most = arithmetic_laws::larger_of(raw * u, 0x3200_0000);
    assert(0x100_0000 * (100 * t - raw * u) <= most && 0x100_0000 * (raw * u - 100 * t) <= most)
        by (nonlinear_arith)
        requires
            u > 0,
            c == 100 * u,
            top == raw * u,
            most == arithmetic_laws::larger_of(raw * u, 0x3200_0000),
            0x100_0000 * (t * c - top * u) <= arithmetic_laws::larger_of(top * u, 0x80_0000 * c),
            0x100_0000 * (top * u - t * c) <= arithmetic_laws::larger_of(top * u, 0x80_0000 * c),
    ;
    if raw == 0 {
        assert(raw * u == 0) by (nonlinear_arith)
            requires
                raw == 0,
        ;
        assert(t == 0);
    }
    assert(0x100_0000 * arithmetic_laws::apart(100 * t, raw * u) <= raw * u);
    if raw <= 500_000 {
        let limit = Binary32::from_bits(0x459c_4000);
        lemma_five_kilograms();
        assert(top * u <= (5000 * u) * c) by (nonlinear_arith)
            requires
                top == raw * u,
                c == 100 * u,
                raw <= 500_000,
                u > 0,
        ;
        arithmetic_laws::lemma_quotient_at_most(p, hundred, limit);
    } else {
        assert(raw * u >= 500_001 * u) by (nonlinear_arith)
            requires
                raw >= 500_001,
                u > 0,
        ;
        assert(t > 5000 * u);
    }
    lemma_good_signed_weight_is_kept(q);
    assert(scale_weight::be24(v, 7) == raw);
}

/// A packet without the header of a Bookoo scale, or too short for a weight, has none.
pub proof fn lemma_other_packet_is_no_bookoo_weight(v: Seq<u8>, previous: Binary32)
    requires
        v.len() < 10 || v[0] != 0x03 || v[1] != 0x0B,
    ensures
        scale_weight::weight(ScaleProtocol::Bookoo, v, previous) is None,
{
}

/// The number in `width` bytes from `start` on, highest or lowest byte first.
pub open spec fn number_at(v: Seq<u8>, start: int, width: nat, high_first: bool) -> int
    decreases width,
{
    if width == 0 {
        0
    } else if high_first {
        256 * number_at(v, start, (width - 1) as nat, true) + v[start + width - 1]
    } else {
        v[start] + 256 * number_at(v, start + 1, (width - 1) as nat, false)
    }
}

/// Whether a number can stand in `width` bytes from `start` on: of 2 bytes with or without a
/// sign, of 3 without and of 4 with one.
pub open spec fn can_stand(v: Seq<u8>, start: int, width: nat, n: int) -> bool {
    &&& 0 <= start
    &&& start + width <= v.len()
    &&& exists|high_first: bool| {
        let plain = #[trigger] number_at(v, start, width, high_first);
        ||| width == 2 && (n == plain || (plain >= 0x8000 && n == plain - 0x1_0000))
        ||| width == 3 && n == plain
        ||| width == 4 && n == if plain >= 0x8000_0000 {
            plain - 0x1_0000_0000
        } else {
            plain
        }
    }
}

/// Whether a candidate is a number at `start` in units of a `d`-th of a gram.
pub open spec fn is_reading(c: WeightCandidate, v: Seq<u8>, start: int, n: int, d: int) -> bool {
    let size = binary32::distance_from_zero(n) as int;
    let u = pow2(149) as int;
    &&& c.offset == start
    &&& c.raw_abs == size
    &&& c.in_trailer == (start > v.len() / 2)
    &&& c.weight_g.finite()
    &&& c.weight_g.negative() == (n < 0)
    &&& 0x100_0000 * arithmetic_laws::apart(arithmetic_laws::size(c.weight_g) * d, size * u) <= 3
        * (size * u)
}

proof fn lemma_divisors()
    ensures
        Binary32::from_bits(0x3f80_0000).value() == 1 * pow2(149),
        Binary32::from_bits(0x4120_0000).value() == 10 * pow2(149),
        Binary32::from_bits(0x42c8_0000).value() == 100 * pow2(149),
        Binary32::from_bits(0x447a_0000).value() == 1000 * pow2(149),
{
    lemma2_to64();
    binary32::lemma_value_of(Binary32::from_bits(0x3f80_0000), 0x80_0000, 126);
    binary32::lemma_value_of(Binary32::from_bits(0x4120_0000), 0xa0_0000, 129);
    binary32::lemma_value_of(Binary32::from_bits(0x42c8_0000), 0xc8_0000, 132);
    binary32::lemma_value_of(Binary32::from_bits(0x447a_0000), 0xfa_0000, 135);
    lemma_pow2_adds(126, 23);
    lemma_pow2_adds(129, 20);
    lemma_pow2_adds(132, 17);
    lemma_pow2_adds(135, 14);
    assert(0x80_0000 * pow2(126) == pow2(149) && 0xa0_0000 * pow2(129) == 10 * pow2(149) && 0xc8_0000
        * pow2(132) == 100 * pow2(149) && 0xfa_0000 * pow2(135) == 1000 * pow2(149))
        by (nonlinear_arith)
        requires
            pow2(126) * pow2(23) == pow2(149),
            pow2(23) == 0x80_0000,
            pow2(129) * pow2(20) == pow2(149),
            pow2(20) == 0x10_0000,
            pow2(132) * pow2(17) == pow2(149),
            pow2(17) == 0x2_0000,
            pow2(135) * pow2(14) == pow2(149),
            pow2(14) == 0x4000,
    ;
}

proof fn lemma_candidate_is_reading(
    v: Seq<u8>,
    start: usize,
    half: usize,
    n: int,
    divisor: u32,
    d: int,
)
    requires
        half == v.len() / 2,
        -0x1_0000_0000 < n < 0x1_0000_0000,
        1 <= d <= 1000,
        divisor < 0x7f80_0000,
        Binary32::from_bits(divisor).value() == d * pow2(149),
    ensures
        is_reading(scale_weight::candidate(n, divisor, start, half), v, start as int, n, d),
{
    let c = scale_weight::candidate(n, divisor, start, half);
    let a = binary32::of_int(n);
    let b = Binary32::from_bits(divisor);
    let u = pow2(149) as int;
    let m = binary32::distance_from_zero(n) as int;
    lemma_pow2_pos(149);
    arithmetic_laws::lemma_integer_is_close(n);
    let w = a.quotient(b);
    let top = arithmetic_laws::size(a) as int;
    let size = arithmetic_laws::size(w) as int;
    assert(d * u >= u) by (nonlinear_arith)
        requires
            d >= 1,
            u > 0,
    ;
    assert(top * u <= top * (d * u)) by (nonlinear_arith)
        requires
            top >= 0,
            u <= d * u,
    ;
    let level = Binary32 { bits: a.magnitude() as u32 };
    assert(arithmetic_laws::size(level) == top);
    arithmetic_laws::lemma_quotient_at_most(a, b, level);
    arithmetic_laws::lemma_quotient_is_close(a, b);
    let most = arithmetic_laws::larger_of(top, 0x80_0000 * d);
    assert(0x100_0000 * (size * d - top) <= most && 0x100_0000 * (top - size * d) <= most)
        by (nonlinear_arith)
        requires
            u > 0,
            most == arithmetic_laws::larger_of(top, 0x80_0000 * d),
            0x100_0000 * (size * (d * u) - top * u) <= arithmetic_laws::larger_of(
                top * u,
                0x80_0000 * (d * u),
            ),
            0x100_0000 * (top * u - size * (d * u)) <= arithmetic_laws::larger_of(
                top * u,
                0x80_0000 * (d * u),
            ),
    ;
    lemma2_to64();
    lemma2_to64_rest();
    lemma_pow2_adds(64, 85);
    lemma_pow2_pos(85);
    assert(u >= 0x1_0000_0000_0000_0000) by (nonlinear_arith)
        requires
            u == pow2(64) * pow2(85),
            pow2(85) >= 1,
            pow2(64) == 0x1_0000_0000_0000_0000,
    ;
    if n == 0 {
        assert(m * u == 0) by (nonlinear_arith)
            requires
                m == 0,
        ;
        assert(top == 0);
        assert(size * d >= size) by (nonlinear_arith)
            requires
                d >= 1,
                size >= 0,
        ;
        assert(0x100_0000 * (size * d) <= 0x80_0000 * d);
        assert(size == 0) by (nonlinear_arith)
            requires
                0x100_0000 * (size * d) <= 0x80_0000 * d,
                d >= 1,
                size >= 0,
        ;
        assert(size * d == 0) by (nonlinear_arith)
            requires
                size == 0,
        ;
    } else {
        assert(m * u >= u) by (nonlinear_arith)
            requires
                m >= 1,
                u > 0,
        ;
        assert(top >= 0x80_0000 * d);
    }
}

proof fn lemma_within_sum<T>(a: Seq<T>, b: Seq<T>, x: T)
    requires
        a.contains(x) || b.contains(x),
    ensures
        (a + b).contains(x),
{
    if a.contains(x) {
        let i = choose|i: int| 0 <= i < a.len() && a[i] == x;
        assert((a + b)[i] == x);
    } else {
        let i = choose|i: int| 0 <= i < b.len() && b[i] == x;
        assert((a + b)[a.len() + i] == x);
    }
}

proof fn lemma_within_all(v: Seq<u8>, start: nat, n: nat, half: usize, c: WeightCandidate)
    requires
        start < n <= v.len(),
        scale_weight::candidates_at(v, start as usize, half).contains(c),
    ensures
        scale_weight::candidates_before(v, n, half).contains(c),
    decreases n,
{
    let m = (n - 1) as nat;
    if start < m {
        lemma_within_all(v, start, m, half, c);
    }
    lemma_within_sum(
        scale_weight::candidates_before(v, m, half),
        scale_weight::candidates_at(v, m as usize, half),
        c,
    );
}

proof fn lemma_number_at(v: Seq<u8>, i: int)
    ensures
        number_at(v, i, 2, false) == scale_weight::le16(v, i),
        number_at(v, i, 2, true) == scale_weight::be16(v, i),
        number_at(v, i, 3, false) == scale_weight::le24(v, i),
        number_at(v, i, 3, true) == scale_weight::be24(v, i),
        number_at(v, i, 4, false) == scale_weight::le32(v, i),
        number_at(v, i, 4, true) == scale_weight::be32(v, i),
{
    reveal_with_fuel(number_at, 5);
}

proof fn lemma_raw_has_candidates(
    v: Seq<u8>,
    start: usize,
    half: usize,
    width: nat,
    n: int,
    c: WeightCandidate,
)
    requires
        can_stand(v, start as int, width, n),
        scale_weight::candidates_of(n, start, half).contains(c),
    ensures
        scale_weight::candidates_at(v, start, half).contains(c),
{
    let i = start as int;
    lemma_number_at(v, i);
    let wide = scale_weight::wide_candidates(v, start, half);
    let middle = scale_weight::middle_candidates(v, start, half);
    let narrow = scale_weight::narrow_candidates(v, start, half);
    let high_first = choose|high_first: bool| {
        let plain = #[trigger] number_at(v, i, width, high_first);
        ||| width == 2 && (n == plain || (plain >= 0x8000 && n == plain - 0x1_0000))
        ||| width == 3 && n == plain
        ||| width == 4 && n == if plain >= 0x8000_0000 {
            plain - 0x1_0000_0000
        } else {
            plain
        }
    };
    if width == 4 {
        lemma_within_sum(
            scale_weight::candidates_of(
                scale_weight::signed32(scale_weight::le32(v, i)),
                start,
                half,
            ),
            scale_weight::candidates_of(
                scale_weight::signed32(scale_weight::be32(v, i)),
                start,
                half,
            ),
            c,
        );
    } else if width == 3 {
        lemma_within_sum(
            scale_weight::candidates_of(scale_weight::le24(v, i), start, half),
            scale_weight::candidates_of(scale_weight::be24(v, i), start, half),
            c,
        );
    } else {
        let a = scale_weight::candidates_of(
            scale_weight::signed16(scale_weight::le16(v, i)),
            start,
            half,
        );
        let b = scale_weight::candidates_of(scale_weight::le16(v, i), start, half);
        let e = scale_weight::candidates_of(
            scale_weight::signed16(scale_weight::be16(v, i)),
            start,
            half,
        );
        let f = scale_weight::candidates_of(scale_weight::be16(v, i), start, half);
        assert(a.contains(c) || b.contains(c) || e.contains(c) || f.contains(c));
        if a.contains(c) || b.contains(c) {
            lemma_within_sum(a, b, c);
        }
        if (a + b).contains(c) || e.contains(c) {
            lemma_within_sum(a + b, e, c);
        }
        lemma_within_sum(a + b + e, f, c);
    }
    if wide.contains(c) || middle.contains(c) {
        lemma_within_sum(wide, middle, c);
    }
    lemma_within_sum(wide + middle, narrow, c);
}

/// Every number that can stand in a packet, in grams and in tenths, hundredths and thousandths of
/// a gram, is among the candidates.
pub proof fn lemma_every_number_is_tried(v: Seq<u8>, start: int, width: nat, n: int, d: int)
    requires
        v.len() <= usize::MAX,
        can_stand(v, start, width, n),
        d == 1 || d == 10 || d == 100 || d == 1000,
    ensures
        exists|c: WeightCandidate| #[trigger]
            scale_weight::all_candidates(v).contains(c) && is_reading(c, v, start, n, d),
{
    let half = (v.len() / 2) as usize;
    let at = start as usize;
    let divisor: u32 = if d == 1 {
        0x3f80_0000
    } else if d == 10 {
        0x4120_0000
    } else if d == 100 {
        0x42c8_0000
    } else {
        0x447a_0000
    };
    let c = scale_weight::candidate(n, divisor, at, half);
    lemma_divisors();
    lemma_number_at(v, start);
    assert(-0x1_0000_0000 < n < 0x1_0000_0000);
    lemma_candidate_is_reading(v, at, half, n, divisor, d);
    reveal(scale_weight::candidates_of);
    let four = scale_weight::candidates_of(n, at, half);
    assert(four[0] == c || four[1] == c || four[2] == c || four[3] == c);
    lemma_raw_has_candidates(v, at, half, width, n, c);
    lemma_within_all(v, start as nat, v.len(), half, c);
    assert(scale_weight::all_candidates(v).contains(c));
}

/// How far a candidate is from what is expected, exactly: from the previous weight where there is
/// one, with 500 g more for a number below 10 and 200 g more in the second half of the packet;
/// else from nothing, with 5000 g and 1000 g more.
pub open spec fn exact_distance(c: WeightCandidate, previous: Binary32) -> int {
    let u = pow2(149) as int;
    let known = previous.finite() && previous.value() > 0;
    let near = if known {
        arithmetic_laws::apart(c.weight_g.value(), previous.value()) as int
    } else {
        c.weight_g.value()
    };
    near + (if c.raw_abs < 10 {
        if known {
            500 * u
        } else {
            5000 * u
        }
    } else {
        0
    }) + (if c.in_trailer {
        if known {
            200 * u
        } else {
            1000 * u
        }
    } else {
        0
    })
}

proof fn lemma_penalties()
    ensures
        ({
            let u = pow2(149) as int;
            &&& Binary32::from_bits(0x43fa_0000).value() == 500 * u
            &&& Binary32::from_bits(0x4348_0000).value() == 200 * u
            &&& Binary32::from_bits(0x459c_4000).value() == 5000 * u
            &&& Binary32::from_bits(0x447a_0000).value() == 1000 * u
            &&& Binary32::from_bits(0x469c_4000).value() == 20000 * u
        }),
{
    let u = pow2(149) as int;
    lemma2_to64();
    binary32::lemma_value_of(Binary32::from_bits(0x43fa_0000), 0xfa_0000, 134);
    binary32::lemma_value_of(Binary32::from_bits(0x4348_0000), 0xc8_0000, 133);
    binary32::lemma_value_of(Binary32::from_bits(0x459c_4000), 0x9c_4000, 138);
    binary32::lemma_value_of(Binary32::from_bits(0x447a_0000), 0xfa_0000, 135);
    binary32::lemma_value_of(Binary32::from_bits(0x469c_4000), 0x9c_4000, 140);
    lemma_pow2_adds(134, 15);
    lemma_pow2_adds(133, 16);
    lemma_pow2_adds(138, 11);
    lemma_pow2_adds(135, 14);
    lemma_pow2_adds(140, 9);
    let a = pow2(134) as int;
    let b = pow2(133) as int;
    let c = pow2(138) as int;
    let d = pow2(135) as int;
    let e = pow2(140) as int;
    assert(a * 0x8000 == u && b * 0x1_0000 == u && c * 0x800 == u && d * 0x4000 == u && e * 0x200
        == u);
}

/// A penalty is added to what is near to an exact distance.
proof fn lemma_penalty_is_close(a: Binary32, b: Binary32, e: int, parts: int)
    requires
        a.finite() && b.finite(),
        !a.negative() && !b.negative(),
        0 <= e <= 10_000 * pow2(149),
        b.value() <= 5000 * pow2(149),
        parts == 1 || parts == 3,
        0x100_0000 * arithmetic_laws::apart(a.value(), e) <= parts * e,
    ensures
        a.sum(b).finite(),
        !a.sum(b).negative(),
        0x100_0000 * arithmetic_laws::apart(a.sum(b).value(), e + b.value()) <= (parts + 2) * (e
            + b.value()),
{
    lemma_penalties();
    lemma_pow2_pos(149);
    assert(parts * e == e || parts * e == 3 * e);
    assert((parts + 2) * (e + b.value()) == 3 * (e + b.value()) || (parts + 2) * (e + b.value())
        == 5 * (e + b.value()));
    binary32::lemma_sum_at_most(a, b, Binary32::from_bits(0x469c_4000));
    arithmetic_laws::lemma_sum_is_close(a, b);
}

/// The distance of a plausible candidate is the exact one, to a part in `2^21`.
pub proof fn lemma_distance_is_near(c: WeightCandidate, previous: Binary32)
    requires
        c.weight_g.finite(),
        0 < c.weight_g.value() <= 5000 * pow2(149),
        previous.finite() ==> previous.value() <= 5000 * pow2(149),
        !previous.nan() ==> previous.finite(),
    ensures
        ({
            let d = scale_weight::distance(c, previous);
            let e = exact_distance(c, previous);
            &&& d.finite()
            &&& 0x20_0000 * arithmetic_laws::apart(d.value(), e) <= e
        }),
{
    let u = pow2(149) as int;
    let w = c.weight_g;
    let h = binary32::HIDDEN_BIT as nat;
    lemma_pow2_pos(149);
    lemma_penalties();
    crate::ieee::lemma_magnitude_value_of_zero(0, h);
    if previous.finite() {
        binary32::lemma_order_is_by_value(binary32::zero(), previous);
    }
    binary32::lemma_order_is_by_value(w, binary32::zero());
    let known = previous.finite() && previous.value() > 0;
    if known {
        let diff = w.difference(previous);
        let near = diff.absolute();
        let e0 = arithmetic_laws::apart(w.value(), previous.value()) as int;
        binary32::lemma_difference_is_finite(w, previous);
        assert(previous.negated().value() == -previous.value());
        arithmetic_laws::lemma_sum_is_close(w, previous.negated());
        assert(near.value() == binary32::distance_from_zero(diff.value()));
        assert(0x100_0000 * arithmetic_laws::apart(near.value(), e0) <= 1 * e0);
        let low = Binary32::from_bits(0x43fa_0000);
        let back = Binary32::from_bits(0x4348_0000);
        if c.raw_abs < 10 {
            lemma_penalty_is_close(near, low, e0, 1);
            if c.in_trailer {
                lemma_penalty_is_close(near.sum(low), back, e0 + 500 * u, 3);
            }
        } else if c.in_trailer {
            lemma_penalty_is_close(near, back, e0, 1);
        }
    } else {
        let e0 = w.value();
        let low = Binary32::from_bits(0x459c_4000);
        let back = Binary32::from_bits(0x447a_0000);
        assert(0x100_0000 * arithmetic_laws::apart(w.value(), e0) <= 1 * e0);
        if c.raw_abs < 10 {
            lemma_penalty_is_close(w, low, e0, 1);
            if c.in_trailer {
                lemma_penalty_is_close(w.sum(low), back, e0 + 5000 * u, 3);
            }
        } else if c.in_trailer {
            lemma_penalty_is_close(w, back, e0, 1);
        }
    }
}

/// A candidate is plausible where its weight is above nothing and at most 5 kg.
pub proof fn lemma_plausible_weights(c: WeightCandidate)
    ensures
        scale_weight::plausible(c) <==> c.weight_g.finite() && 0 < c.weight_g.value() <= 5000
            * pow2(149),
{
    crate::ieee::lemma_magnitude_value_of_zero(0, binary32::HIDDEN_BIT as nat);
    if c.weight_g.finite() {
        lemma_five_kilograms();
        binary32::lemma_order_is_by_value(binary32::zero(), c.weight_g);
        binary32::lemma_order_is_by_value(c.weight_g, Binary32::from_bits(0x459c_4000));
    }
}

/// A packet of an unknown layout without a number in digits has the weight of the plausible
/// candidate that is nearest to what is expected.
pub proof fn lemma_nearest_candidate_is_taken(
    protocol: ScaleProtocol,
    v: Seq<u8>,
    previous: Binary32,
)
    requires
        protocol == ScaleProtocol::GenericNotify || protocol == ScaleProtocol::Unknown,
        scale_weight::ascii_weight(v) is None,
        v.len() < usize::MAX,
    ensures
        match scale_weight::weight(protocol, v, previous) {
            Some(w) => exists|c: WeightCandidate| #[trigger]
                scale_weight::is_nearest(c, scale_weight::all_candidates(v), previous) && w
                    == c.weight_g,
            None => forall|c: WeightCandidate| #[trigger]
                scale_weight::all_candidates(v).contains(c) && scale_weight::plausible(c)
                    ==> !scale_weight::distance(c, previous).finite(),
        },
{
    let all = scale_weight::all_candidates(v);
    scale_weight::lemma_candidate_offsets(v, v.len(), (v.len() / 2) as usize);
    scale_weight::lemma_best_is_nearest(all, previous);
    match scale_weight::best_of(all, previous) {
        Some(c) => {
            assert(scale_weight::is_nearest(c, all, previous));
            lemma_plausible_weights(c);
            lemma_good_weight_is_kept(c.weight_g);
        },
        None => {
            assert forall|c: WeightCandidate| #[trigger]
                all.contains(c) && scale_weight::plausible(c) implies !scale_weight::distance(
                c,
                previous,
            ).finite() by {
                let i = choose|i: int| 0 <= i < all.len() && all[i] == c;
                assert(scale_weight::plausible(all[i]));
            }
        },
    }
}

/// A packet with a number in digits has that weight, whatever else could be read out of it.
pub proof fn lemma_digits_come_first(protocol: ScaleProtocol, v: Seq<u8>, previous: Binary32)
    requires
        protocol == ScaleProtocol::GenericNotify || protocol == ScaleProtocol::Unknown,
        scale_weight::ascii_weight(v) is Some,
    ensures
        scale_weight::weight(protocol, v, previous) == scale_weight::ascii_weight(v),
{
}

/// The packets of the commands differ in the byte that names the command and the one that says
/// on or off.
pub proof fn lemma_command_bytes(enabled: bool)
    ensures
        ({
            let tare = scale_weight::bookoo_packet(BookooCommand::TareAndStart);
            let smooth = scale_weight::bookoo_packet(BookooCommand::SetFlowSmoothing(enabled));
            &&& tare[0] == 3 && tare[1] == 10 && tare[2] == 7 && tare[3] == 0 && tare[4] == 0
            &&& smooth[0] == 3 && smooth[1] == 10 && smooth[2] == 8 && smooth[4] == 0
            &&& smooth[3] == 1 <==> enabled
            &&& smooth[3] == 0 <==> !enabled
        }),
{
}

} // verus!
