//! Unsigned integers of any size, as far as reading decimal numbers needs them.
use vstd::arithmetic::power::*;
use vstd::prelude::*;

verus! {

/// The base of the limbs.
pub open spec fn base() -> int {
    0x1_0000_0000
}

/// The limb at `i`; limbs past the end are zero.
pub open spec fn limb(s: Seq<u32>, i: int) -> int {
    if 0 <= i < s.len() {
        s[i] as int
    } else {
        0
    }
}

/// The value of the lowest `n` limbs.
pub open spec fn low_value(s: Seq<u32>, n: nat) -> int
    decreases n,
{
    if n == 0 {
        0
    } else {
        low_value(s, (n - 1) as nat) + limb(s, n - 1) * pow(base(), (n - 1) as nat)
    }
}

/// An unsigned integer. The lowest limb comes first.
pub struct Natural {
    limbs: Vec<u32>,
}

impl View for Natural {
    type V = nat;

    closed spec fn view(&self) -> nat {
        low_value(self.limbs@, self.limbs@.len()) as nat
    }
}

proof fn lemma_low_value_bound(s: Seq<u32>, n: nat)
    ensures
        0 <= low_value(s, n) < pow(base(), n),
    decreases n,
{
    lemma_pow_positive(base(), n);
    if n == 0 {
        lemma_pow0(base());
    } else {
        let m = (n - 1) as nat;
        lemma_low_value_bound(s, m);
        lemma_pow_positive(base(), m);
        reveal(pow);
        let p = pow(base(), m);
        let x = limb(s, n - 1);
        assert(pow(base(), n) == 0x1_0000_0000 * p);
        assert(0 <= x * p <= 0xffff_ffff * p) by (nonlinear_arith)
            requires
                0 <= x <= 0xffff_ffff,
                p > 0,
        ;
    }
}

proof fn lemma_low_value_past_end(s: Seq<u32>, n: nat)
    requires
        n >= s.len(),
    ensures
        low_value(s, n) == low_value(s, s.len()),
    decreases n,
{
    if n > s.len() {
        lemma_low_value_past_end(s, (n - 1) as nat);
        assert(0 * pow(base(), (n - 1) as nat) == 0) by (nonlinear_arith);
    }
}

proof fn lemma_low_value_of_equal_limbs(a: Seq<u32>, b: Seq<u32>, n: nat)
    requires
        forall|j: int| 0 <= j < n ==> limb(a, j) == limb(b, j),
    ensures
        low_value(a, n) == low_value(b, n),
    decreases n,
{
    if n > 0 {
        lemma_low_value_of_equal_limbs(a, b, (n - 1) as nat);
    }
}

proof fn lemma_low_value_of_equal_high_limbs(a: Seq<u32>, b: Seq<u32>, i: nat, n: nat)
    requires
        i <= n,
        forall|j: int| i <= j < n ==> limb(a, j) == limb(b, j),
    ensures
        low_value(a, n) - low_value(a, i) == low_value(b, n) - low_value(b, i),
    decreases n,
{
    if n > i {
        lemma_low_value_of_equal_high_limbs(a, b, i, (n - 1) as nat);
    }
}

impl Natural {
    /// Zero.
    pub fn new() -> (r: Self)
        ensures
            r@ == 0,
    {
        Natural { limbs: Vec::new() }
    }

    /// A small number.
    pub fn from_small(n: u32) -> (r: Self)
        ensures
            r@ == n,
    {
        let mut limbs: Vec<u32> = Vec::new();
        limbs.push(n);
        proof {
            reveal_with_fuel(low_value, 2);
            lemma_pow0(base());
            assert(limb(limbs@, 0) == n);
        }
        Natural { limbs }
    }

    /// `self * factor + addend`.
    pub fn times_plus(&self, factor: u32, addend: u32) -> (r: Self)
        ensures
            r@ == self@ * factor + addend,
    {
        let mut out: Vec<u32> = Vec::new();
        let mut carry: u32 = addend;
        let mut i: usize = 0;
        let ghost s = self.limbs@;
        proof {
            lemma_pow0(base());
        }
        while i < self.limbs.len()
            invariant
                i <= self.limbs.len(),
                s == self.limbs@,
                out.len() == i,
                low_value(out@, i as nat) + carry * pow(base(), i as nat) == low_value(s, i as nat)
                    * factor + addend,
            decreases self.limbs.len() - i,
        {
            let x: u32 = self.limbs[i];
            assert(x * factor <= 0xffff_ffff * 0xffff_ffff) by (nonlinear_arith)
                requires
                    x <= 0xffff_ffff,
                    factor <= 0xffff_ffff,
            ;
            let t: u64 = x as u64 * factor as u64 + carry as u64;
            let low: u32 = (t % 0x1_0000_0000) as u32;
            let high: u32 = (t / 0x1_0000_0000) as u32;
            let ghost before = out@;
            out.push(low);
            proof {
                lemma_low_value_of_equal_limbs(before, out@, i as nat);
                let p = pow(base(), i as nat);
                reveal(pow);
                assert(pow(base(), (i + 1) as nat) == base() * p);
                assert(limb(out@, i as int) == low);
                assert(limb(s, i as int) == x);
                assert(low * p + high * (base() * p) == (x * factor) * p + carry * p)
                    by (nonlinear_arith)
                    requires
                        low + high * 0x1_0000_0000 == x * factor + carry,
                        base() == 0x1_0000_0000,
                ;
                assert((low_value(s, i as nat) + x * p) * factor == low_value(s, i as nat) * factor
                    + (x * factor) * p) by (nonlinear_arith);
            }
            carry = high;
            i = i + 1;
        }
        let ghost before = out@;
        out.push(carry);
        proof {
            lemma_low_value_of_equal_limbs(before, out@, i as nat);
            assert(limb(out@, i as int) == carry);
            lemma_low_value_bound(s, s.len());
            lemma_low_value_bound(out@, out@.len());
            assert(low_value(out@, out@.len()) == low_value(s, s.len()) * factor + addend);
        }
        Natural { limbs: out }
    }

    /// `self <= other`.
    pub fn at_most(&self, other: &Self) -> (r: bool)
        ensures
            r == (self@ <= other@),
    {
        let n: usize = if self.limbs.len() >= other.limbs.len() {
            self.limbs.len()
        } else {
            other.limbs.len()
        };
        let ghost a = self.limbs@;
        let ghost b = other.limbs@;
        proof {
            lemma_low_value_past_end(a, n as nat);
            lemma_low_value_past_end(b, n as nat);
            lemma_low_value_bound(a, a.len());
            lemma_low_value_bound(b, b.len());
        }
        let mut i: usize = n;
        while i > 0
            invariant
                i <= n,
                a == self.limbs@,
                b == other.limbs@,
                self@ == low_value(a, n as nat),
                other@ == low_value(b, n as nat),
                forall|j: int| i <= j < n ==> limb(a, j) == limb(b, j),
            decreases i,
        {
            i = i - 1;
            let x: u32 = if i < self.limbs.len() {
                self.limbs[i]
            } else {
                0
            };
            let y: u32 = if i < other.limbs.len() {
                other.limbs[i]
            } else {
                0
            };
            if x != y {
                proof {
                    lemma_low_value_of_equal_high_limbs(a, b, (i + 1) as nat, n as nat);
                    lemma_low_value_bound(a, i as nat);
                    lemma_low_value_bound(b, i as nat);
                    let p = pow(base(), i as nat);
                    assert(limb(a, i as int) == x);
                    assert(limb(b, i as int) == y);
                    if x < y {
                        assert(x * p + p <= y * p) by (nonlinear_arith)
                            requires
                                x + 1 <= y,
                                p >= 0,
                        ;
                    } else {
                        assert(y * p + p <= x * p) by (nonlinear_arith)
                            requires
                                y + 1 <= x,
                                p >= 0,
                        ;
                    }
                }
                return x < y;
            }
        }
        proof {
            lemma_low_value_of_equal_high_limbs(a, b, 0, n as nat);
        }
        true
    }
}

} // verus!
