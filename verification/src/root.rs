//! The square root of a single-precision number, correctly rounded.
use crate::binary32;
use crate::binary32::{Binary32, HIDDEN_BIT, INFINITE_FIELD, UNIT};
use crate::rounding;
use vstd::arithmetic::div_mod::*;
use vstd::arithmetic::power2::*;
use vstd::prelude::*;

verus! {

/// The value of a single-precision field, in units of `2^-149`.
pub open spec fn field_value(m: nat) -> nat {
    rounding::magnitude_value(m, HIDDEN_BIT as nat)
}

/// Whether the square root of `n` lies between the middle of the field `m` and the field below
/// and the middle of the field `m` and the field above, so that `m` is the nearest field.
pub open spec fn nearest_to_root(m: nat, n: nat) -> bool {
    &&& m > 0
    &&& square(field_value((m - 1) as nat) + field_value(m)) < 4 * n
    &&& 4 * n <= square(field_value(m) + field_value(m + 1))
}

/// The field nearest to the square root of `n`.
pub open spec fn field_of_root(n: nat) -> nat {
    choose|m: nat| nearest_to_root(m, n)
}

/// `n * n`.
pub open spec fn square(n: nat) -> nat {
    n * n
}

/// The square root: of a zero that zero, of any other negative number a NaN.
#[verifier::opaque]
pub open spec fn square_root(x: Binary32) -> Binary32 {
    if x.nan() {
        Binary32 { bits: 0x7fc0_0000 }
    } else if x.magnitude() == 0 {
        x
    } else if x.negative() {
        Binary32 { bits: 0x7fc0_0000 }
    } else if !x.finite() {
        x
    } else {
        Binary32 {
            bits: field_of_root(field_value(x.magnitude()) * pow2(UNIT as nat)) as u32,
        }
    }
}

proof fn lemma_squares_ordered(a: nat, b: nat)
    requires
        a <= b,
    ensures
        square(a) <= square(b),
        a < b ==> square(a) < square(b),
{
    assert(a * a <= b * b && (a < b ==> a * a < b * b)) by (nonlinear_arith)
        requires
            a <= b,
    ;
}

/// Only one field is nearest to a root.
proof fn lemma_nearest_field_is_unique(a: nat, b: nat, n: nat)
    requires
        nearest_to_root(a, n),
        nearest_to_root(b, n),
    ensures
        a == b,
{
    if a < b {
        lemma_no_two(a, b, n);
    }
    if b < a {
        lemma_no_two(b, a, n);
    }
}

proof fn lemma_no_two(a: nat, b: nat, n: nat)
    requires
        a < b,
        nearest_to_root(a, n),
    ensures
        !nearest_to_root(b, n),
{
    let h = HIDDEN_BIT as nat;
    if a < b - 1 {
        rounding::lemma_magnitude_value_increases(a, (b - 1) as nat, h);
        rounding::lemma_magnitude_value_increases((a + 1) as nat, b, h);
    }
    lemma_squares_ordered(
        field_value(a) + field_value(a + 1),
        field_value((b - 1) as nat) + field_value(b),
    );
}

/// The value of the field with the significand `q` and `k` doublings.
proof fn lemma_field_value(q: nat, k: nat)
    requires
        k >= 1,
        HIDDEN_BIT <= q <= 2 * HIDDEN_BIT,
    ensures
        field_value(k * HIDDEN_BIT as nat + q) == q * pow2(k),
{
    let h = HIDDEN_BIT as nat;
    let m = k * h + q;
    if q < 2 * h {
        lemma_fundamental_div_mod_converse(m as int, h as int, (k + 1) as int, q - h);
    } else {
        lemma_fundamental_div_mod_converse(m as int, h as int, (k + 2) as int, 0);
        lemma_pow2_unfold(k + 1);
        assert(h * pow2(k + 1) == q * pow2(k)) by (nonlinear_arith)
            requires
                q == 2 * h,
                pow2(k + 1) == 2 * pow2(k),
        ;
    }
}

/// The largest integer whose square is at most `n`.
fn integer_root(n: u128) -> (r: u64)
    requires
        n < 0x400_0000_0000_0000_0000_0000_0000,
    ensures
        square(r as nat) <= n < square((r + 1) as nat),
        r < 0x20_0000_0000_0000,
{
    let mut low: u64 = 0;
    let mut high: u64 = 0x20_0000_0000_0000;
    assert(square(0x20_0000_0000_0000) == 0x400_0000_0000_0000_0000_0000_0000) by (nonlinear_arith);
    while high - low > 1
        invariant
            low < high <= 0x20_0000_0000_0000,
            square(low as nat) <= n < square(high as nat),
        decreases high - low,
    {
        let middle: u64 = low + (high - low) / 2;
        assert(middle * middle <= 0x20_0000_0000_0000 * 0x20_0000_0000_0000) by (nonlinear_arith)
            requires
                middle <= 0x20_0000_0000_0000,
        ;
        if middle as u128 * middle as u128 <= n {
            low = middle;
        } else {
            high = middle;
        }
    }
    low
}

/// A normalized approximation of `r`: its leading 24 bits and the power of two they count.
fn leading_bits(r: u64) -> (s: (u64, u32, u64))
    requires
        0x100_0000 <= r < 0x20_0000_0000_0000,
    ensures
        HIDDEN_BIT <= s.0 < 2 * HIDDEN_BIT,
        1 <= s.1 <= 53,
        s.2 == pow2(s.1 as nat),
        s.0 * s.2 <= r < (s.0 + 1) * s.2,
        s.2 < 0x8000_0000,
{
    let mut q: u64 = r;
    let mut j: u32 = 0;
    let mut p: u64 = 1;
    proof {
        lemma2_to64();
    }
    while q >= 0x100_0000
        invariant
            r >= 0x100_0000,
            r < 0x20_0000_0000_0000,
            q >= 0x80_0000,
            j == 0 ==> q == r,
            j <= 53,
            p == pow2(j as nat),
            q * p <= r < (q + 1) * p,
            q as int + j as int <= r,
            p < 0x8000_0000,
            j + 1 <= 53 || q < 0x100_0000,
        decreases q,
    {
        proof {
            lemma_pow2_unfold((j + 1) as nat);
            lemma_pow2_pos(j as nat);
            let h = q as int / 2;
            assert(p <= 0x2000_0000) by (nonlinear_arith)
                requires
                    q * p <= r,
                    q >= 0x100_0000,
                    r < 0x20_0000_0000_0000,
            ;
            assert(h * (2 * p) <= r < (h + 1) * (2 * p)) by (nonlinear_arith)
                requires
                    q * p <= r < (q + 1) * p,
                    2 * h <= q <= 2 * h + 1,
                    p >= 1,
            ;
            lemma2_to64();
            if j + 1 >= 53 {
                lemma2_to64_rest();
                if j + 1 > 53 {
                    lemma_pow2_strictly_increases(53, (j + 1) as nat);
                }
            }
        }
        q = q / 2;
        p = 2 * p;
        j = j + 1;
    }
    (q, j, p)
}

/// The field nearest to the root of `sig * 2^k` units.
fn root_field(sig: u64, k: u32) -> (m: u64)
    requires
        0 < sig < 0x100_0000,
        k <= 253,
    ensures
        nearest_to_root(m as nat, (sig as nat * pow2(k as nat)) * pow2(UNIT as nat)),
        m < INFINITE_FIELD,
{
    let e: u32 = k + UNIT;
    let odd: u32 = e % 2;
    let doubled: u64 = if odd == 1 {
        2 * sig
    } else {
        sig
    };
    let s: u32 = (e - odd - 80) / 2;
    let n: u128 = doubled as u128 * 0x1_0000_0000_0000_0000_0000;
    let r: u64 = integer_root(n);
    let ghost exact = (sig as nat * pow2(k as nat)) * pow2(UNIT as nat);
    let ghost t = pow2(s as nat);
    proof {
        lemma2_to64();
        lemma2_to64_rest();
        lemma_pow2_pos(s as nat);
        assert(square(0x100_0000_0000) == 0x1_0000_0000_0000_0000_0000) by (nonlinear_arith);
        if r < 0x100_0000_0000 {
            lemma_squares_ordered((r + 1) as nat, 0x100_0000_0000);
        }
        lemma_exact_root_argument(sig as nat, k as nat, doubled as nat, s as nat, odd as nat);
        assert(exact == n * square(t));
    }
    let (q, j, p) = leading_bits(r);
    let half: u64 = p / 2;
    proof {
        assert((2 * q + 1) * half <= 0x200_0000 * 0x8000_0000) by (nonlinear_arith)
            requires
                q < 0x100_0000,
                half < 0x8000_0000,
        ;
    }
    let middle: u128 = (2 * q as u128 + 1) * half as u128;
    let ghost e2 = pow2((s + j) as nat);
    proof {
        lemma_pow2_unfold(j as nat);
        lemma_pow2_pos(j as nat);
        assert(p == 2 * half);
        lemma_pow2_adds(j as nat, s as nat);
        assert(2 * middle == (2 * q + 1) * p) by (nonlinear_arith)
            requires
                middle == (2 * q + 1) * half,
                p == 2 * half,
        ;
        assert(middle * middle <= 0x200_0000 * 0x8000_0000 * (0x200_0000 * 0x8000_0000))
            by (nonlinear_arith)
            requires
                middle <= 0x200_0000 * 0x8000_0000,
        ;
    }
    let field: u64 = (s + j) as u64 * HIDDEN_BIT + q;
    proof {
        let kk = (s + j) as nat;
        let h = HIDDEN_BIT as nat;
        lemma_field_value(q as nat, kk);
        lemma_field_value((q + 1) as nat, kk);
        assert(field == kk * h + q);
        assert(field_value(field as nat) == q as nat * e2);
        assert(field_value((field + 1) as nat) == (q + 1) as nat * e2);
        lemma_rounding_of_root(
            n as nat,
            r as nat,
            q as nat,
            p as nat,
            middle as nat,
            t,
            field as nat,
            exact,
        );
    }
    if middle * middle < n {
        field + 1
    } else {
        field
    }
}

proof fn lemma_exact_root_argument(sig: nat, k: nat, doubled: nat, s: nat, odd: nat)
    requires
        odd <= 1,
        doubled == (if odd == 1 {
            2 * sig
        } else {
            sig
        }),
        k + 149 == 2 * s + 80 + odd,
    ensures
        (sig * pow2(k)) * pow2(149) == (doubled * 0x1_0000_0000_0000_0000_0000nat) * square(
            pow2(s),
        ),
{
    lemma2_to64();
    lemma2_to64_rest();
    lemma_pow2_adds(k, 149);
    lemma_pow2_adds(40, 40);
    lemma_pow2_adds(s, s);
    lemma_pow2_adds(80, 2 * s);
    lemma_pow2_adds(80 + 2 * s, odd);
    assert(pow2(80) == 0x1_0000_0000_0000_0000_0000) by {
        assert(0x100_0000_0000 * 0x100_0000_0000 == 0x1_0000_0000_0000_0000_0000);
    }
    assert((sig * pow2(k)) * pow2(149) == sig * pow2(k + 149)) by (nonlinear_arith)
        requires
            pow2(k + 149) == pow2(k) * pow2(149),
    ;
    let c = pow2(80 + 2 * s);
    assert(pow2(odd) == odd + 1);
    assert(sig * (c * (odd + 1)) == (sig * (odd + 1)) * c) by (nonlinear_arith);
    assert(sig * (odd + 1) == doubled) by (nonlinear_arith)
        requires
            odd <= 1,
            doubled == (if odd == 1 {
                2 * sig
            } else {
                sig
            }),
    ;
    assert(doubled * (pow2(80) * square(pow2(s))) == (doubled * pow2(80)) * square(pow2(s)))
        by (nonlinear_arith);
}

/// Comparing the radicand with the square of the middle decides which field is nearest.
proof fn lemma_rounding_of_root(
    n: nat,
    r: nat,
    q: nat,
    p: nat,
    middle: nat,
    t: nat,
    field: nat,
    exact: nat,
)
    requires
        square(r) <= n < square(r + 1),
        q * p <= r < (q + 1) * p,
        2 * middle == (2 * q + 1) * p,
        q > 0,
        p > 0,
        t > 0,
        field > 0,
        exact == n * square(t),
        field_value(field) == q * (p * t),
        field_value(field + 1) == (q + 1) * (p * t),
    ensures
        square(middle) < n ==> nearest_to_root(field + 1, exact),
        n <= square(middle) ==> nearest_to_root(field, exact),
{
    let h = HIDDEN_BIT as nat;
    let e = p * t;
    let below = field_value((field - 1) as nat);
    let at = field_value(field);
    let above = field_value(field + 1);
    let beyond = field_value(field + 2);
    rounding::lemma_magnitude_value_increases((field - 1) as nat, field, h);
    rounding::lemma_magnitude_value_increases(field + 1, field + 2, h);
    let c = square(t);
    assert(c > 0) by (nonlinear_arith)
        requires
            t > 0,
            c == t * t,
    ;
    // The middle of the field and the one above, squared, against the radicand.
    assert(at + above == 2 * middle * t) by (nonlinear_arith)
        requires
            at == q * (p * t),
            above == (q + 1) * (p * t),
            2 * middle == (2 * q + 1) * p,
    ;
    assert(square(at + above) == 4 * (square(middle) * c)) by (nonlinear_arith)
        requires
            at + above == 2 * middle * t,
            square(at + above) == (at + above) * (at + above),
            square(middle) == middle * middle,
            c == t * t,
    ;
    if square(middle) < n {
        assert(4 * (square(middle) * c) < 4 * (n * c)) by (nonlinear_arith)
            requires
                square(middle) < n,
                c > 0,
        ;
        lemma_squares_ordered(2 * above, above + beyond);
        lemma_squares_ordered(r + 1, (q + 1) * p);
        assert(square(2 * above) == 4 * (square((q + 1) * p) * c)) by (nonlinear_arith)
            requires
                above == (q + 1) * (p * t),
                square(2 * above) == (2 * above) * (2 * above),
                square((q + 1) * p) == ((q + 1) * p) * ((q + 1) * p),
                c == t * t,
        ;
        assert(4 * (n * c) <= 4 * (square((q + 1) * p) * c)) by (nonlinear_arith)
            requires
                n <= square((q + 1) * p),
                c > 0,
        ;
        assert((field + 1 - 1) as nat == field);
        assert(field + 1 + 1 == field + 2);
    } else {
        assert(4 * (n * c) <= 4 * (square(middle) * c)) by (nonlinear_arith)
            requires
                n <= square(middle),
                c > 0,
        ;
        lemma_squares_ordered(below + at, 2 * at);
        lemma_squares_ordered(q * p, r);
        assert(square(2 * at) == 4 * (square(q * p) * c)) by (nonlinear_arith)
            requires
                at == q * (p * t),
                square(2 * at) == (2 * at) * (2 * at),
                square(q * p) == (q * p) * (q * p),
                c == t * t,
        ;
        assert(4 * (square(q * p) * c) <= 4 * (n * c)) by (nonlinear_arith)
            requires
                square(q * p) <= n,
                c > 0,
        ;
    }
}

impl Binary32 {
    /// The square root.
    pub fn sqrt(self) -> (r: Self)
        ensures
            r == square_root(self),
    {
        reveal(square_root);
        let bits: u32 = self.to_bits();
        if self.is_nan() {
            Self::from_bits(0x7fc0_0000)
        } else if bits == 0 || bits == 0x8000_0000 {
            self
        } else if bits >= 0x8000_0000 {
            Self::from_bits(0x7fc0_0000)
        } else if !self.is_finite() {
            self
        } else {
            let (sig, k) = rounding::split_magnitude(bits as u64, HIDDEN_BIT, INFINITE_FIELD);
            let m: u64 = root_field(sig, k);
            proof {
                let n = field_value(bits as nat) * pow2(UNIT as nat);
                lemma_nearest_field_is_unique(m as nat, field_of_root(n), n);
            }
            Self::from_bits(m as u32)
        }
    }
}

} // verus!
