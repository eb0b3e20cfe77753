//! Integers as bytes, lowest byte first.
use vstd::arithmetic::power::*;
use vstd::prelude::*;

verus! {

/// The lowest `k` bytes of `n`, lowest byte first.
pub open spec fn le_bytes(n: nat, k: nat) -> Seq<u8>
    decreases k,
{
    if k == 0 {
        seq![]
    } else {
        seq![(n % 256) as u8] + le_bytes(n / 256, (k - 1) as nat)
    }
}

/// The integer that the bytes stand for, lowest byte first.
pub open spec fn le_value(s: Seq<u8>) -> nat
    decreases s.len(),
{
    if s.len() == 0 {
        0
    } else {
        s[0] as nat + 256 * le_value(s.skip(1))
    }
}

/// `256^k`.
pub open spec fn byte_range(k: nat) -> nat
    decreases k,
{
    if k == 0 {
        1
    } else {
        256 * byte_range((k - 1) as nat)
    }
}

/// The bytes of an integer stand for it, where it has no more bytes.
pub proof fn lemma_bytes_round_trip(n: nat, k: nat)
    requires
        n < byte_range(k),
    ensures
        le_bytes(n, k).len() == k,
        le_value(le_bytes(n, k)) == n,
    decreases k,
{
    if k > 0 {
        lemma_bytes_round_trip(n / 256, (k - 1) as nat);
        assert(le_bytes(n, k).skip(1) =~= le_bytes(n / 256, (k - 1) as nat));
    }
}

/// `k` bytes stand for an integer below `256^k`, whose bytes they are.
pub proof fn lemma_value_round_trip(s: Seq<u8>)
    ensures
        le_value(s) < byte_range(s.len()),
        le_bytes(le_value(s), s.len()) == s,
    decreases s.len(),
{
    if s.len() > 0 {
        lemma_value_round_trip(s.skip(1));
        assert(le_value(s) / 256 == le_value(s.skip(1)));
        assert(seq![s[0]] + s.skip(1) =~= s);
    } else {
        assert(le_bytes(0, 0) =~= s);
    }
}

/// Appends the lowest `k` bytes of `n`.
pub fn push_le(out: &mut Vec<u8>, n: u64, k: usize)
    ensures
        final(out)@ == old(out)@ + le_bytes(n as nat, k as nat),
{
    let ghost start = out@;
    let mut rest: u64 = n;
    let mut left: usize = k;
    while left > 0
        invariant
            out@ + le_bytes(rest as nat, left as nat) == start + le_bytes(n as nat, k as nat),
        decreases left,
    {
        let ghost before = out@;
        out.push((rest % 256) as u8);
        proof {
            let tail = le_bytes(rest as nat / 256, (left - 1) as nat);
            assert(before.push((rest % 256) as u8) + tail =~= before + (seq![(rest % 256) as u8]
                + tail));
        }
        rest = rest / 256;
        left = left - 1;
    }
    assert(out@ + le_bytes(rest as nat, 0) =~= out@);
}

/// The integer that the `k` bytes at `at` stand for.
pub fn read_le(buf: &[u8], at: usize, k: usize) -> (r: u64)
    requires
        k <= 8,
        at + k <= buf.len(),
    ensures
        r == le_value(buf@.subrange(at as int, at + k)),
        r < byte_range(k as nat),
{
    let mut r: u64 = 0;
    let mut i: usize = k;
    proof {
        reveal_with_fuel(byte_range, 9);
        lemma_value_round_trip(buf@.subrange(at as int, at + k));
    }
    assert(buf@.subrange(at + k, at + k) =~= seq![]);
    while i > 0
        invariant
            i <= k <= 8,
            at + k <= buf.len(),
            r == le_value(buf@.subrange(at + i, at + k)),
            r < byte_range((k - i) as nat),
        decreases i,
    {
        i = i - 1;
        let ghost s = buf@.subrange(at + i, at + k);
        let b: u8 = buf[at + i];
        proof {
            reveal_with_fuel(byte_range, 9);
            assert(s.skip(1) =~= buf@.subrange(at + i + 1, at + k));
        }
        r = b as u64 + 256 * r;
    }
    r
}

} // verus!
