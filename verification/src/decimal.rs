//! Reading decimal numbers, correctly rounded to single precision.
use crate::bignum::Natural;
use crate::binary32;
use crate::binary32::{Binary32, HIDDEN_BIT, INFINITE_FIELD, UNIT};
use crate::ieee::Signed;
use crate::rounding;
use crate::text;
use vstd::arithmetic::div_mod::*;
use vstd::arithmetic::power::*;
use vstd::arithmetic::power2::*;
use vstd::prelude::*;

verus! {

/// Whether `c` is a decimal digit.
pub open spec fn is_digit(c: char) -> bool {
    '0' <= c && c <= '9'
}

/// The value of a decimal digit.
pub open spec fn digit_value(c: char) -> nat {
    (c as u32 - '0' as u32) as nat
}

/// The value of a row of decimal digits.
pub open spec fn digits_value(s: Seq<char>) -> nat
    decreases s.len(),
{
    if s.len() == 0 {
        0
    } else {
        digits_value(s.drop_last()) * 10 + digit_value(s.last())
    }
}

/// How many digits stand at the front of `s`.
pub open spec fn leading_digits(s: Seq<char>) -> nat
    decreases s.len(),
{
    if s.len() > 0 && is_digit(s[0]) {
        1 + leading_digits(s.skip(1))
    } else {
        0
    }
}

/// The magnitude field nearest to `d * 10^e`.
#[verifier::opaque]
pub open spec fn decimal_field(d: nat, e: int) -> nat {
    if e >= 0 {
        rounding::rounded(
            d * pow(10, e as nat) as nat * pow2(UNIT as nat),
            1,
            HIDDEN_BIT as nat,
            INFINITE_FIELD as nat,
        )
    } else {
        rounding::rounded(
            d * pow2(UNIT as nat),
            pow(10, (-e) as nat) as nat,
            HIDDEN_BIT as nat,
            INFINITE_FIELD as nat,
        )
    }
}

/// An exponent: digits with or without a sign in front.
pub open spec fn exponent(s: Seq<char>) -> Option<int> {
    let negative = s.len() > 0 && s[0] == '-';
    let signed = s.len() > 0 && (s[0] == '-' || s[0] == '+');
    let digits = if signed {
        s.skip(1)
    } else {
        s
    };
    if digits.len() == 0 || leading_digits(digits) != digits.len() {
        None
    } else if negative {
        Some(-(digits_value(digits) as int))
    } else {
        Some(digits_value(digits) as int)
    }
}

/// What follows the digits in front of a decimal point.
pub open spec fn after_whole(s: Seq<char>) -> Seq<char> {
    s.skip(leading_digits(s) as int)
}

/// Whether a decimal point follows the leading digits.
pub open spec fn has_point(s: Seq<char>) -> bool {
    after_whole(s).len() > 0 && after_whole(s)[0] == '.'
}

/// What follows the decimal point, or the leading digits where there is none.
pub open spec fn after_point(s: Seq<char>) -> Seq<char> {
    if has_point(s) {
        after_whole(s).skip(1)
    } else {
        after_whole(s)
    }
}

/// How many digits follow the decimal point.
pub open spec fn fraction_digits(s: Seq<char>) -> nat {
    if has_point(s) {
        leading_digits(after_point(s))
    } else {
        0
    }
}

/// What follows the digits.
pub open spec fn after_digits(s: Seq<char>) -> Seq<char> {
    after_point(s).skip(fraction_digits(s) as int)
}

/// The digits, read as one integer.
pub open spec fn mantissa(s: Seq<char>) -> nat {
    digits_value(
        s.take(leading_digits(s) as int) + after_point(s).take(fraction_digits(s) as int),
    )
}

/// The magnitude field of a number without sign, where the text is one: digits with or without
/// a decimal point, and with or without an exponent.
pub open spec fn plain_field(s: Seq<char>) -> Option<nat> {
    let f = fraction_digits(s);
    let rest = after_digits(s);
    if leading_digits(s) + f == 0 {
        None
    } else if rest.len() == 0 {
        Some(decimal_field(mantissa(s), -(f as int)))
    } else if rest[0] == 'e' || rest[0] == 'E' {
        match exponent(rest.skip(1)) {
            Some(e) => Some(decimal_field(mantissa(s), e - f)),
            None => None,
        }
    } else {
        None
    }
}

/// The magnitude field of a number without sign; infinities and NaNs have names.
pub open spec fn unsigned_field(s: Seq<char>) -> Option<nat> {
    if text::lower(s) == "inf"@ || text::lower(s) == "infinity"@ {
        Some(INFINITE_FIELD as nat)
    } else if text::lower(s) == "nan"@ {
        Some(0x7fc0_0000)
    } else {
        plain_field(s)
    }
}

/// The single-precision number that a text stands for, if it stands for one.
#[verifier::opaque]
pub open spec fn number(s: Seq<char>) -> Option<Binary32> {
    let signed = s.len() > 0 && (s[0] == '-' || s[0] == '+');
    let negative = s.len() > 0 && s[0] == '-';
    let body = if signed {
        s.skip(1)
    } else {
        s
    };
    match unsigned_field(body) {
        Some(mag) => Some(binary32::pack(Signed { negative, mag: mag as u64 })),
        None => None,
    }
}

proof fn lemma_pow_of_ten(e: nat)
    ensures
        pow(10, e) > 0,
        pow(10, e + 1) == 10 * pow(10, e),
{
    lemma_pow_positive(10, e);
    reveal(pow);
}

/// The value of `l` digits is below `10^l`.
proof fn lemma_digits_value_bound(s: Seq<char>)
    requires
        forall|j: int| 0 <= j < s.len() ==> is_digit(s[j]),
    ensures
        digits_value(s) < pow(10, s.len()),
    decreases s.len(),
{
    if s.len() == 0 {
        lemma_pow0(10);
    } else {
        lemma_digits_value_bound(s.drop_last());
        lemma_pow_of_ten((s.len() - 1) as nat);
        assert(is_digit(s.last()));
    }
}

/// The field of a large ratio, by the number of doublings it takes at least.
proof fn lemma_field_of_large_ratio(n: nat, d: nat, k: nat)
    requires
        d > 0,
        n >= pow2(k + 24) * d,
    ensures
        rounding::magnitude_of(n, d, HIDDEN_BIT as nat) >= (k + 2) * HIDDEN_BIT,
    decreases k,
{
    let h = HIDDEN_BIT as nat;
    lemma2_to64();
    assert(pow2(24) == 2 * h);
    lemma_pow2_adds(k, 24);
    lemma_pow2_pos(k);
    assert(n >= 2 * h * d) by (nonlinear_arith)
        requires
            n >= (pow2(k) * pow2(24)) * d,
            pow2(24) == 2 * h,
            pow2(k) >= 1,
    ;
    let m = rounding::magnitude_of(n, 2 * d, h);
    assert(rounding::magnitude_of(n, d, h) == h + m);
    if k == 0 {
        if n < 2 * h * (2 * d) {
            lemma_fundamental_div_mod(n as int, (2 * d) as int);
            assert(n as int / (2 * d) as int >= h) by (nonlinear_arith)
                requires
                    n == (2 * d) * (n as int / (2 * d) as int) + n as int % (2 * d) as int,
                    (n as int % (2 * d) as int) < 2 * d,
                    n >= 2 * h * d,
                    d > 0,
            ;
            assert(m >= h);
        } else {
            assert(m >= h);
        }
    } else {
        lemma_pow2_unfold(k + 24);
        assert(n >= pow2((k - 1 + 24) as nat) * (2 * d)) by (nonlinear_arith)
            requires
                n >= pow2(k + 24) * d,
                pow2(k + 24) == 2 * pow2((k - 1 + 24) as nat),
        ;
        lemma_field_of_large_ratio(n, 2 * d, (k - 1) as nat);
    }
}

/// Numbers from `10^60` on are infinite.
proof fn lemma_large_number_is_infinite(d: nat, e: nat)
    requires
        d > 0,
        e >= 60,
    ensures
        decimal_field(d, e as int) == INFINITE_FIELD,
{
    reveal(decimal_field);
    let n = d * pow(10, e) as nat * pow2(UNIT as nat);
    lemma_pow_increases(10, 60, e);
    lemma_ten_to_sixty();
    lemma_pow2_adds(128, 149);
    lemma_pow2_pos(149);
    assert(d * pow(10, e) >= pow(10, 60)) by (nonlinear_arith)
        requires
            d >= 1,
            pow(10, e) >= pow(10, 60),
            pow(10, 60) > 0,
    ;
    assert(n >= pow2(277) * 1) by (nonlinear_arith)
        requires
            n == (d * pow(10, e)) * pow2(149),
            d * pow(10, e) >= pow2(128),
            pow2(277) == pow2(128) * pow2(149),
            pow2(149) > 0,
    ;
    lemma_field_of_large_ratio(n, 1, 253);
}

/// `10^60` exceeds `2^151`.
proof fn lemma_ten_to_sixty()
    ensures
        pow(10, 60) > pow2(151),
        pow2(151) > pow2(128),
        pow(10, 60) > 0,
{
    assert(pow(10, 10) == 10_000_000_000) by {
        reveal_with_fuel(pow, 11);
    }
    lemma_pow_adds(10, 10, 10);
    lemma_pow_adds(10, 20, 20);
    lemma_pow_adds(10, 40, 20);
    lemma2_to64();
    lemma2_to64_rest();
    lemma_pow2_adds(33, 33);
    lemma_pow2_adds(66, 66);
    lemma_pow2_adds(132, 33);
    lemma_pow2_strictly_increases(151, 165);
    lemma_pow2_strictly_increases(128, 151);
    let a = pow(10, 10);
    let b = pow2(33) as int;
    assert(a > b);
    let a2 = pow(10, 20);
    let b2 = pow2(66) as int;
    assert(a2 > b2 && b2 > 0) by (nonlinear_arith)
        requires
            a2 == a * a,
            b2 == b * b,
            a > b,
            b > 0,
    ;
    let a4 = pow(10, 40);
    let b4 = pow2(132) as int;
    assert(a4 > b4 && b4 > 0) by (nonlinear_arith)
        requires
            a4 == a2 * a2,
            b4 == b2 * b2,
            a2 > b2,
            b2 > 0,
    ;
    assert(a4 * a2 > b4 * b) by (nonlinear_arith)
        requires
            a4 > b4,
            a2 > b,
            b4 > 0,
            b > 0,
    ;
}

/// Numbers below `10^-60` are zero.
proof fn lemma_small_number_is_zero(d: nat, l: nat, e: nat)
    requires
        d < pow(10, l),
        e >= l + 60,
    ensures
        decimal_field(d, -(e as int)) == 0,
{
    reveal(decimal_field);
    lemma_ten_to_sixty();
    lemma_pow_adds(10, l, 60);
    lemma_pow_increases(10, l + 60, e);
    lemma_pow_positive(10, l);
    lemma_pow2_adds(149, 2);
    lemma2_to64();
    lemma_pow2_pos(149);
    let u = pow2(149) as int;
    let t = pow(10, 60);
    assert(2 * (d * u) < pow(10, e)) by (nonlinear_arith)
        requires
            d < pow(10, l),
            pow(10, l) * t <= pow(10, e),
            t > 4 * u,
            u > 0,
            d >= 0,
            pow(10, l) > 0,
    ;
    rounding::lemma_magnitude_of_less_than_half(
        d * pow2(UNIT as nat),
        pow(10, e) as nat,
        HIDDEN_BIT as nat,
    );
}

/// The largest `q` with `q * d <= n`, which is below `2^24`.
fn quotient(n: &Natural, d: &Natural) -> (q: u32)
    requires
        d@ > 0,
        n@ < 0x100_0000 * d@,
    ensures
        q * d@ <= n@ < (q + 1) * d@,
        q < 0x100_0000,
{
    let mut low: u32 = 0;
    let mut high: u32 = 0x100_0000;
    assert(0 * d@ == 0);
    while high - low > 1
        invariant
            low < high <= 0x100_0000,
            low * d@ <= n@ < high * d@,
        decreases high - low,
    {
        let middle: u32 = low + (high - low) / 2;
        let product = d.times_plus(middle, 0);
        assert(product@ == middle * d@) by (nonlinear_arith)
            requires
                product@ == d@ * middle + 0,
        ;
        if product.at_most(n) {
            low = middle;
        } else {
            high = middle;
        }
    }
    low
}

/// The magnitude field of `n / d`.
fn round_natural(n: &Natural, d: Natural) -> (r: u64)
    requires
        d@ > 0,
    ensures
        r == rounding::rounded(n@, d@, HIDDEN_BIT as nat, INFINITE_FIELD as nat),
{
    let ghost h = HIDDEN_BIT as nat;
    let mut unit = d.times_plus(1, 0);
    let mut field: u64 = 0;
    let mut limit = unit.times_plus(0x100_0000, 0);
    while limit.at_most(n)
        invariant
            h == HIDDEN_BIT,
            unit@ > 0,
            limit@ == unit@ * 0x100_0000,
            field < INFINITE_FIELD,
            rounding::magnitude_of(n@, d@, h) == field + rounding::magnitude_of(n@, unit@, h),
        decreases n@ - unit@,
    {
        assert(n@ >= 2 * h * unit@) by (nonlinear_arith)
            requires
                n@ >= unit@ * 0x100_0000,
                h == 0x80_0000,
        ;
        unit = unit.times_plus(2, 0);
        limit = unit.times_plus(0x100_0000, 0);
        field = field + HIDDEN_BIT;
        if field >= INFINITE_FIELD {
            return INFINITE_FIELD;
        }
    }
    let q: u32 = quotient(n, &unit);
    let twice = n.times_plus(2, 0);
    let middle = unit.times_plus(2 * q + 1, 0);
    let below = twice.at_most(&middle);
    let above = middle.at_most(&twice);
    proof {
        let r = n@ - q * unit@;
        assert((q + 1) * unit@ == q * unit@ + unit@) by (nonlinear_arith);
        assert(n@ < 2 * h * unit@) by (nonlinear_arith)
            requires
                n@ < unit@ * 0x100_0000,
                h == 0x80_0000,
        ;
        lemma_fundamental_div_mod_converse(n@ as int, unit@ as int, q as int, r);
        assert(middle@ == 2 * (q * unit@) + unit@) by (nonlinear_arith)
            requires
                middle@ == unit@ * (2 * q + 1) + 0,
        ;
    }
    let up: u64 = if below && (!above || q % 2 == 0) {
        0
    } else {
        1
    };
    let total: u64 = field + q as u64 + up;
    if total < INFINITE_FIELD {
        total
    } else {
        INFINITE_FIELD
    }
}

/// `x * 10^e`.
fn times_power_of_ten(x: Natural, e: u128) -> (r: Natural)
    ensures
        r@ == x@ * pow(10, e as nat),
{
    let ghost start = x@;
    let mut r = x;
    let mut i: u128 = 0;
    proof {
        lemma_pow0(10);
    }
    while i < e
        invariant
            i <= e,
            r@ == start * pow(10, i as nat),
        decreases e - i,
    {
        proof {
            lemma_pow_of_ten(i as nat);
            assert((start * pow(10, i as nat)) * 10 == start * (10 * pow(10, i as nat)))
                by (nonlinear_arith);
        }
        r = r.times_plus(10, 0);
        i = i + 1;
    }
    r
}

/// `x * 2^149`.
fn in_units(x: Natural) -> (r: Natural)
    ensures
        r@ == x@ * pow2(UNIT as nat),
{
    let ghost start = x@;
    let mut r = x;
    let mut i: u32 = 0;
    proof {
        lemma2_to64();
    }
    while i < UNIT
        invariant
            i <= UNIT,
            r@ == start * pow2(i as nat),
        decreases UNIT - i,
    {
        proof {
            lemma_pow2_unfold((i + 1) as nat);
            assert((start * pow2(i as nat)) * 2 == start * (2 * pow2(i as nat)))
                by (nonlinear_arith);
        }
        r = r.times_plus(2, 0);
        i = i + 1;
    }
    r
}

/// The magnitude field of `d * 10^net`, where `d` has at most `l` digits.
fn field_of_decimal(d: Natural, l: usize, net: i128) -> (r: u64)
    requires
        d@ < pow(10, l as nat),
        -0x1000_0000_0000_0000_0000_0000_0000 < net,
    ensures
        r == decimal_field(d@, net as int),
        r <= INFINITE_FIELD,
{
    reveal(decimal_field);
    let one = Natural::from_small(1);
    let is_zero = !one.at_most(&d);
    if is_zero {
        proof {
            assert(d@ == 0);
            lemma_zero_field(net as int);
        }
        return 0;
    }
    if net >= 60 {
        proof {
            lemma_large_number_is_infinite(d@, net as nat);
        }
        return INFINITE_FIELD;
    }
    if net >= 0 {
        let n = in_units(times_power_of_ten(d, net as u128));
        proof {
            lemma_pow_positive(10, net as nat);
        }
        return round_natural(&n, one);
    }
    if -net >= l as i128 + 60 {
        proof {
            lemma_small_number_is_zero(d@, l as nat, (-net) as nat);
        }
        return 0;
    }
    let p = times_power_of_ten(one, (-net) as u128);
    proof {
        lemma_pow_positive(10, (-net) as nat);
        assert(1 * pow(10, (-net) as nat) == pow(10, (-net) as nat));
    }
    let n = in_units(d);
    round_natural(&n, p)
}

proof fn lemma_zero_field(e: int)
    ensures
        decimal_field(0, e) == 0,
{
    reveal(decimal_field);
    if e >= 0 {
        lemma_pow_positive(10, e as nat);
        assert(0 * pow(10, e as nat) as nat * pow2(UNIT as nat) == 0) by (nonlinear_arith);
        rounding::lemma_magnitude_of_less_than_half(0, 1, HIDDEN_BIT as nat);
    } else {
        lemma_pow_positive(10, (-e) as nat);
        assert(0 * pow2(UNIT as nat) == 0) by (nonlinear_arith);
        rounding::lemma_magnitude_of_less_than_half(
            0,
            pow(10, (-e) as nat) as nat,
            HIDDEN_BIT as nat,
        );
    }
}

/// How many digits stand in `x` from `from` on.
fn count_digits(x: &Vec<char>, from: usize) -> (r: usize)
    requires
        from <= x.len(),
    ensures
        r == leading_digits(x@.skip(from as int)),
        from + r <= x.len(),
        forall|j: int| from <= j < from + r ==> is_digit(#[trigger] x@[j]),
{
    let mut i: usize = from;
    while i < x.len() && '0' <= x[i] && x[i] <= '9'
        invariant
            from <= i <= x.len(),
            leading_digits(x@.skip(from as int)) == (i - from) + leading_digits(x@.skip(i as int)),
            forall|j: int| from <= j < i ==> is_digit(#[trigger] x@[j]),
        decreases x.len() - i,
    {
        assert(x@.skip(i as int).skip(1) =~= x@.skip(i + 1));
        i = i + 1;
    }
    i - from
}

/// Appends the digits `from..to` of `x` to the digits read so far.
fn read_digits(x: &Vec<char>, from: usize, to: usize, so_far: Natural, Ghost(prefix): Ghost<
    Seq<char>,
>) -> (r: Natural)
    requires
        from <= to <= x.len(),
        forall|j: int| from <= j < to ==> is_digit(#[trigger] x@[j]),
        so_far@ == digits_value(prefix),
    ensures
        r@ == digits_value(prefix + x@.subrange(from as int, to as int)),
{
    let mut r = so_far;
    let mut i: usize = from;
    assert(prefix + x@.subrange(from as int, from as int) =~= prefix);
    while i < to
        invariant
            from <= i <= to <= x.len(),
            forall|j: int| from <= j < to ==> is_digit(#[trigger] x@[j]),
            r@ == digits_value(prefix + x@.subrange(from as int, i as int)),
        decreases to - i,
    {
        let c = x[i];
        assert(is_digit(x@[i as int]));
        let ghost longer = prefix + x@.subrange(from as int, i + 1);
        assert(longer.drop_last() =~= prefix + x@.subrange(from as int, i as int));
        assert(longer.last() == c);
        r = r.times_plus(10, c as u32 - 48);
        i = i + 1;
    }
    r
}

/// The largest exponent that is told apart from larger ones.
pub const LARGEST_EXPONENT: u128 = 0x100_0000_0000_0000_0000_0000;

/// The value of the digits from `from` on, at most `LARGEST_EXPONENT`.
fn read_exponent_digits(x: &Vec<char>, from: usize) -> (r: u128)
    requires
        from <= x.len(),
        forall|j: int| from <= j < x.len() ==> is_digit(#[trigger] x@[j]),
    ensures
        r <= LARGEST_EXPONENT,
        r < LARGEST_EXPONENT ==> r == digits_value(x@.skip(from as int)),
        r == LARGEST_EXPONENT ==> digits_value(x@.skip(from as int)) >= LARGEST_EXPONENT,
{
    let mut r: u128 = 0;
    let mut i: usize = from;
    while i < x.len()
        invariant
            from <= i <= x.len(),
            forall|j: int| from <= j < x.len() ==> is_digit(#[trigger] x@[j]),
            r <= LARGEST_EXPONENT,
            r < LARGEST_EXPONENT ==> r == digits_value(x@.subrange(from as int, i as int)),
            r == LARGEST_EXPONENT ==> digits_value(x@.subrange(from as int, i as int))
                >= LARGEST_EXPONENT,
        decreases x.len() - i,
    {
        let c = x[i];
        assert(is_digit(x@[i as int]));
        let ghost longer = x@.subrange(from as int, i + 1);
        assert(longer.drop_last() =~= x@.subrange(from as int, i as int));
        assert(longer.last() == c);
        let next: u128 = r * 10 + (c as u32 - 48) as u128;
        r = if next < LARGEST_EXPONENT {
            next
        } else {
            LARGEST_EXPONENT
        };
        i = i + 1;
    }
    assert(x@.subrange(from as int, x@.len() as int) =~= x@.skip(from as int));
    r
}

/// Reads the digits in front of and behind the decimal point. Gives the number of digits, how
/// many of them stand behind the point, and where the digits end.
fn read_mantissa(x: &Vec<char>, from: usize) -> (r: (usize, usize, usize, Natural))
    requires
        from <= x.len(),
    ensures
        ({
            let s = x@.skip(from as int);
            &&& r.0 == leading_digits(s) + fraction_digits(s)
            &&& r.1 == fraction_digits(s)
            &&& r.2 <= x.len()
            &&& x@.skip(r.2 as int) == after_digits(s)
            &&& r.3@ == mantissa(s)
            &&& r.3@ < pow(10, r.0 as nat)
        }),
{
    let ghost s = x@.skip(from as int);
    let i: usize = count_digits(x, from);
    let whole_end: usize = from + i;
    assert(after_whole(s) =~= x@.skip(whole_end as int));
    let point = whole_end < x.len() && x[whole_end] == '.';
    let fraction_start: usize = if point {
        whole_end + 1
    } else {
        whole_end
    };
    let ghost fraction = x@.skip(fraction_start as int);
    assert(after_point(s) =~= fraction);
    let f: usize = if point {
        count_digits(x, fraction_start)
    } else {
        0
    };
    let end: usize = fraction_start + f;
    assert(after_digits(s) =~= x@.skip(end as int));
    let ghost in_front = x@.subrange(from as int, whole_end as int);
    let ghost behind = x@.subrange(fraction_start as int, end as int);
    assert(s.take(i as int) =~= in_front);
    assert(fraction.take(f as int) =~= behind);
    assert(Seq::<char>::empty() + in_front =~= in_front);
    let whole = read_digits(x, from, whole_end, Natural::new(), Ghost(Seq::empty()));
    let d = read_digits(x, fraction_start, end, whole, Ghost(in_front));
    proof {
        let digits = in_front + behind;
        assert forall|j: int| 0 <= j < digits.len() implies is_digit(digits[j]) by {
            if j < i {
                assert(digits[j] == x@[from + j]);
            } else {
                assert(digits[j] == x@[fraction_start + (j - i)]);
            }
        }
        lemma_digits_value_bound(digits);
    }
    (i + f, f, end, d)
}

/// The magnitude field of the number without sign that stands in `x` from `from` on.
fn read_plain(x: &Vec<char>, from: usize) -> (r: Option<u64>)
    requires
        from <= x.len(),
    ensures
        match plain_field(x@.skip(from as int)) {
            Some(mag) => r == Some(mag as u64) && mag <= INFINITE_FIELD,
            None => r is None,
        },
{
    let ghost s = x@.skip(from as int);
    let (l, f, end, d) = read_mantissa(x, from);
    if l == 0 {
        return None;
    }
    let ghost rest = after_digits(s);
    if end == x.len() {
        return Some(field_of_decimal(d, l, 0 - f as i128));
    }
    assert(rest[0] == x@[end as int]);
    if x[end] != 'e' && x[end] != 'E' {
        return None;
    }
    assert(rest.skip(1) =~= x@.skip(end + 1));
    match read_exponent(x, end + 1) {
        None => None,
        Some(e) => {
            let net: i128 = e - f as i128;
            proof {
                let exact = exponent(rest.skip(1))->0;
                lemma_exponents_agree(d@, l as nat, e as int, exact, f as nat);
            }
            Some(field_of_decimal(d, l, net))
        },
    }
}

/// Past the largest exponent every exponent gives the same number.
proof fn lemma_exponents_agree(d: nat, l: nat, e: int, exact: int, f: nat)
    requires
        d < pow(10, l),
        f <= l < 0x1_0000_0000_0000_0000,
        same_exponent(e, exact),
    ensures
        decimal_field(d, e - f) == decimal_field(d, exact - f),
{
    if d == 0 {
        lemma_zero_field(e - f);
        lemma_zero_field(exact - f);
    } else if e == LARGEST_EXPONENT {
        lemma_large_number_is_infinite(d, (e - f) as nat);
        lemma_large_number_is_infinite(d, (exact - f) as nat);
    } else if e == -LARGEST_EXPONENT {
        lemma_small_number_is_zero(d, l, (f - e) as nat);
        lemma_small_number_is_zero(d, l, (f - exact) as nat);
    }
}

/// Whether `e` stands for the exponent `exact`: itself or, past the largest, the largest.
pub open spec fn same_exponent(e: int, exact: int) -> bool {
    &&& -LARGEST_EXPONENT < e < LARGEST_EXPONENT ==> e == exact
    &&& e == LARGEST_EXPONENT ==> exact >= LARGEST_EXPONENT
    &&& e == -LARGEST_EXPONENT ==> exact <= -LARGEST_EXPONENT
    &&& -LARGEST_EXPONENT <= e <= LARGEST_EXPONENT
}

/// Reads the exponent that stands in `x` from `at` on.
fn read_exponent(x: &Vec<char>, at: usize) -> (r: Option<i128>)
    requires
        at <= x.len(),
    ensures
        match exponent(x@.skip(at as int)) {
            Some(exact) => r is Some && same_exponent(r->0 as int, exact),
            None => r is None,
        },
{
    let ghost tail = x@.skip(at as int);
    let negative = at < x.len() && x[at] == '-';
    let signed = negative || (at < x.len() && x[at] == '+');
    let digits_at: usize = if signed {
        at + 1
    } else {
        at
    };
    assert(signed ==> tail.skip(1) =~= x@.skip(digits_at as int));
    if digits_at == x.len() {
        return None;
    }
    let count: usize = count_digits(x, digits_at);
    if digits_at + count != x.len() {
        return None;
    }
    let e: u128 = read_exponent_digits(x, digits_at);
    if negative {
        Some(0 - e as i128)
    } else {
        Some(e as i128)
    }
}

/// Reads a decimal number.
pub fn read_number(s: &str) -> (r: Option<Binary32>)
    ensures
        r == number(s@),
{
    reveal(number);
    let x = text::chars_of(s);
    let signed = x.len() > 0 && (x[0] == '-' || x[0] == '+');
    let negative = x.len() > 0 && x[0] == '-';
    let from: usize = if signed {
        1
    } else {
        0
    };
    let body = s.substring_char(from, x.len());
    assert(body@ =~= x@.skip(from as int));
    assert(!signed ==> body@ =~= s@);
    assert(signed ==> body@ =~= s@.skip(1));
    let lowered = text::to_lower(body);
    let field: Option<u64> = if text::same_text(lowered.as_str(), "inf") || text::same_text(
        lowered.as_str(),
        "infinity",
    ) {
        Some(INFINITE_FIELD)
    } else if text::same_text(lowered.as_str(), "nan") {
        Some(0x7fc0_0000)
    } else {
        read_plain(&x, from)
    };
    match field {
        Some(mag) => {
            if negative {
                Some(Binary32::from_bits(0x8000_0000 + mag as u32))
            } else {
                Some(Binary32::from_bits(mag as u32))
            }
        },
        None => None,
    }
}

} // verus!
