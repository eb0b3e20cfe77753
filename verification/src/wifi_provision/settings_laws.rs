//! Settings that are saved are read back.
use crate::binary32;
use crate::binary32::{Binary32, HIDDEN_BIT, INFINITE_FIELD};
use crate::convert;
use crate::decimal;
use crate::ieee::Signed;
use crate::rounding;
use crate::text;
use crate::wifi_provision::nvs;
use crate::wifi_provision::nvs::SettingsView;
use crate::wifi_provision::station;
use crate::wifi_provision::station::FormView;
use vstd::arithmetic::power::*;
use vstd::arithmetic::power2::*;
use vstd::prelude::*;

verus! {

/// The single-precision number nearest to a number's thousandths.
pub open spec fn to_thousandths(x: Binary32) -> Binary32 {
    binary32::pack(
        Signed {
            negative: x.negative(),
            mag: decimal::decimal_field(convert::thousandths(x), -3) as u64,
        },
    )
}

proof fn lemma_digit(d: nat)
    requires
        d < 10,
    ensures
        decimal::is_digit(text::digit(d)),
        decimal::digit_value(text::digit(d)) == d,
{
}

/// The digits of a number are digits, and their value is the number.
pub proof fn lemma_decimal_value(n: nat)
    ensures
        text::decimal(n).len() > 0,
        forall|i: int| 0 <= i < text::decimal(n).len() ==> decimal::is_digit(
            #[trigger] text::decimal(n)[i],
        ),
        decimal::digits_value(text::decimal(n)) == n,
    decreases n,
{
    reveal_with_fuel(decimal::digits_value, 2);
    lemma_digit(n % 10);
    if n >= 10 {
        lemma_decimal_value(n / 10);
        let front = text::decimal(n / 10);
        let all = text::decimal(n);
        assert(all =~= front.push(text::digit(n % 10)));
        assert(all.drop_last() =~= front);
    } else {
        let all = text::decimal(n);
        assert(all =~= seq![text::digit(n)]);
        assert(all.drop_last() =~= seq![]);
    }
}

/// Digits are followed by what is no digit.
proof fn lemma_leading_digits(front: Seq<char>, rest: Seq<char>)
    requires
        forall|i: int| 0 <= i < front.len() ==> decimal::is_digit(#[trigger] front[i]),
        rest.len() == 0 || !decimal::is_digit(rest[0]),
    ensures
        decimal::leading_digits(front + rest) == front.len(),
    decreases front.len(),
{
    let all = front + rest;
    if front.len() > 0 {
        assert(all[0] == front[0]);
        assert(all.skip(1) =~= front.skip(1) + rest);
        assert forall|i: int| 0 <= i < front.skip(1).len() implies decimal::is_digit(
            #[trigger] front.skip(1)[i],
        ) by {
            assert(front.skip(1)[i] == front[i + 1]);
        }
        lemma_leading_digits(front.skip(1), rest);
    } else {
        assert(all =~= rest);
    }
}

/// Three digits behind others add their value to a thousandfold of that of the others.
pub proof fn lemma_three_digits(front: Seq<char>, n: nat)
    requires
        n < 1000,
    ensures
        decimal::digits_value(front + convert::three_digits(n)) == decimal::digits_value(front)
            * 1000 + n,
        forall|i: int| 0 <= i < 3 ==> decimal::is_digit(#[trigger] convert::three_digits(n)[i]),
{
    let a = front.push(text::digit(n / 100));
    let b = a.push(text::digit(n / 10 % 10));
    let c = b.push(text::digit(n % 10));
    lemma_digit(n / 100);
    lemma_digit(n / 10 % 10);
    lemma_digit(n % 10);
    assert(front + convert::three_digits(n) =~= c);
    assert(a.drop_last() =~= front && b.drop_last() =~= a && c.drop_last() =~= b);
    let v = decimal::digits_value(front);
    assert(decimal::digits_value(a) == v * 10 + n / 100);
    assert(decimal::digits_value(b) == decimal::digits_value(a) * 10 + n / 10 % 10);
    assert(decimal::digits_value(c) == decimal::digits_value(b) * 10 + n % 10);
    assert(n == 100 * (n / 100) + 10 * (n / 10 % 10) + n % 10);
}

/// A number that is written with three digits behind the point is read back as the number
/// nearest to those digits.
pub proof fn lemma_three_digits_are_read_back(x: Binary32)
    requires
        x.finite(),
    ensures
        decimal::number(convert::fixed3(x)) == Some(to_thousandths(x)),
{
    reveal(convert::fixed3);
    reveal(decimal::number);
    let t = convert::thousandths(x);
    let whole = text::decimal(t / 1000);
    let three = convert::three_digits(t % 1000);
    let body = whole + seq!['.'] + three;
    let all = convert::fixed3(x);
    lemma_decimal_value(t / 1000);
    lemma_three_digits(whole, t % 1000);
    let rest = seq!['.'] + three;
    assert(body =~= whole + rest);
    lemma_leading_digits(whole, rest);
    assert(body.skip(whole.len() as int) =~= rest);
    assert(rest.skip(1) =~= three);
    assert(three + Seq::<char>::empty() =~= three);
    lemma_leading_digits(three, Seq::empty());
    assert(body.take(whole.len() as int) =~= whole);
    assert(three.take(3) =~= three);
    assert(decimal::after_digits(body) =~= Seq::<char>::empty());
    assert(decimal::mantissa(body) == t);
    assert(decimal::is_digit(body[0])) by {
        assert(body[0] == whole[0]);
    }
    reveal_strlit("inf");
    reveal_strlit("infinity");
    reveal_strlit("nan");
    assert(text::lower(body)[0] == body[0]);
    assert(decimal::unsigned_field(body) == decimal::plain_field(body));
    if x.negative() {
        assert(all =~= seq!['-'] + body);
        assert(all.skip(1) =~= body);
    } else {
        assert(all =~= body);
    }
}

/// Settings that are saved are those that are read afterwards; the offset is kept to a
/// thousandth. Where the credentials do not change, the network stays the one that was saved.
pub proof fn lemma_saved_settings_are_read_back(
    form: FormView,
    present: SettingsView,
    saved_ssid: Option<Seq<char>>,
)
    requires
        present.ssid == nvs::text_or(saved_ssid, Seq::empty()),
    ensures
        station::settings_outcome(form, present) matches Ok(save) ==> {
            let ssid = match save.wifi {
                Some((ssid, pass)) => Some(ssid),
                None => saved_ssid,
            };
            let read = nvs::stored_settings(
                ssid,
                Some(save.device_label),
                Some(convert::fixed3(save.temperature_offset_c)),
            );
            &&& read.device_label == save.device_label
            &&& read.temperature_offset_c == to_thousandths(save.temperature_offset_c)
            &&& read.ssid == match save.wifi {
                Some((ssid, pass)) => ssid,
                None => present.ssid,
            }
        },
{
    match station::settings_outcome(form, present) {
        Ok(save) => {
            lemma_three_digits_are_read_back(save.temperature_offset_c);
        },
        Err(_) => {},
    }
}

/// The largest offset has the value 20.
proof fn lemma_largest_offset(x: Binary32)
    requires
        station::offset_in_range(x),
    ensures
        binary32::distance_from_zero(x.value()) <= 20 * pow2(149),
        convert::thousandths(x) <= 20000,
{
    let unit = pow2(149);
    let h = HIDDEN_BIT as nat;
    let v = rounding::magnitude_value(x.magnitude(), h);
    let top: nat = 0x41a0_0000;
    lemma2_to64();
    lemma2_to64_rest();
    lemma_pow2_pos(149);
    assert(top % h == 0x20_0000 && top / h == 131);
    assert(rounding::significand(top, h) == 0xa0_0000 && rounding::doublings(top, h) == 130);
    lemma_pow2_adds(130, 19);
    assert(rounding::magnitude_value(top, h) == 20 * unit) by (nonlinear_arith)
        requires
            rounding::magnitude_value(top, h) == 0xa0_0000 * pow2(130),
            pow2(130) * pow2(19) == unit,
            pow2(19) == 0x8_0000,
    ;
    if x.magnitude() < top {
        rounding::lemma_magnitude_value_increases(x.magnitude(), top, h);
    }
    assert(binary32::distance_from_zero(x.value()) == v);
    let t = convert::thousandths(x);
    let n = v * 1000;
    vstd::arithmetic::div_mod::lemma_fundamental_div_mod(n as int, unit as int);
    assert(t <= 20000) by (nonlinear_arith)
        requires
            n == unit * (n as int / unit as int) + n as int % unit as int,
            0 <= n as int % unit as int,
            n <= 20000 * unit,
            unit > 0,
            t == n as int / unit as int || (t == n as int / unit as int + 1 && 2 * (n as int
                % unit as int) >= unit),
    ;
}

/// Saving settings that were read changes nothing: the offset is written with the same digits
/// again.
pub proof fn lemma_saving_again_changes_nothing(x: Binary32)
    requires
        station::offset_in_range(x),
    ensures
        to_thousandths(x).finite(),
        convert::fixed3(to_thousandths(x)) == convert::fixed3(x),
{
    let unit = pow2(149);
    let h = HIDDEN_BIT as nat;
    let t = convert::thousandths(x);
    let n = t * unit;
    let f = rounding::magnitude_of(n, 1000, h);
    let v = rounding::magnitude_value(f, h);
    lemma_largest_offset(x);
    lemma2_to64();
    lemma2_to64_rest();
    lemma_pow2_pos(149);
    lemma_pow2_adds(64, 85);
    lemma_pow2_pos(85);
    assert(unit >= 0x1_0000_0000_0000_0000) by (nonlinear_arith)
        requires
            unit == pow2(64) * pow2(85),
            pow2(64) == 0x1_0000_0000_0000_0000,
            pow2(85) >= 1,
    ;
    reveal(pow);
    reveal_with_fuel(pow, 4);
    assert(pow(10, 3) == 1000);
    reveal(decimal::decimal_field);
    rounding::lemma_rounding_is_close(n, 1000, h);
    assert(n <= 20000 * unit) by (nonlinear_arith)
        requires
            n == t * unit,
            t <= 20000,
    ;
    assert(2 * (v * 1000 - t * unit) < unit && 2 * (t * unit - v * 1000) < unit) by {
        assert(2 * h * (v * 1000 - n) <= 20000 * unit);
        assert(2 * h * (n - v * 1000) <= 20000 * unit);
    }
    assert(v <= 21 * unit);
    if f >= INFINITE_FIELD {
        let inf = INFINITE_FIELD as nat;
        assert(inf % h == 0 && inf / h == 255);
        assert(rounding::significand(inf, h) == 0x80_0000 && rounding::doublings(inf, h) == 254);
        lemma_pow2_adds(149, 105);
        lemma_pow2_pos(105);
        assert(rounding::magnitude_value(inf, h) >= 0x80_0000 * unit) by (nonlinear_arith)
            requires
                rounding::magnitude_value(inf, h) == 0x80_0000 * pow2(254),
                pow2(254) == unit * pow2(105),
                pow2(105) >= 1,
        ;
        if f > inf {
            rounding::lemma_magnitude_value_increases(inf, f, h);
        }
    }
    let y = to_thousandths(x);
    assert(y.magnitude() == f && y.negative() == x.negative());
    assert(binary32::distance_from_zero(y.value()) == v);
    rounding::lemma_nearest_even_close(v * 1000, unit, t);
    assert(convert::thousandths(y) == t);
    reveal(convert::fixed3);
}

} // verus!
