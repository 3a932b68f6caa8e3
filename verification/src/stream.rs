//! The mathematical model of a bit stream over a sequence of octets.
//!
//! Bit `k` of the stream is bit `k % 8` of octet `k / 8`, counted from the
//! low end, and a run of bits is read as a number whose lowest bit came
//! first.

use vstd::arithmetic::div_mod::*;
use vstd::arithmetic::mul::*;
use vstd::arithmetic::power2::*;
use vstd::prelude::*;

verus! {

/// Number of bits that the octets `s` hold.
pub open spec fn bit_len(s: Seq<u8>) -> int {
    8 * (s.len() as int)
}

/// Bit `k` of the stream, as 0 or 1.
pub open spec fn bit_at(s: Seq<u8>, k: int) -> nat {
    ((s[k / 8] as nat) / pow2((k % 8) as nat)) % 2
}

/// The `n` bits that start at bit `p`, the first of them lowest.
pub open spec fn bits_value(s: Seq<u8>, p: int, n: nat) -> nat
    decreases n,
{
    if n == 0 {
        0
    } else {
        bit_at(s, p) + 2 * bits_value(s, p + 1, (n - 1) as nat)
    }
}

/// The value of an `n`-bit pattern read as a two's complement number.
pub open spec fn signed_value(v: nat, n: nat) -> int
    recommends
        n > 0,
        v < pow2(n),
{
    if v < pow2((n - 1) as nat) {
        v as int
    } else {
        v - pow2(n)
    }
}

/// A run of `n` bits is a number below `2^n`.
pub proof fn lemma_bits_value_bound(s: Seq<u8>, p: int, n: nat)
    ensures
        bits_value(s, p, n) < pow2(n),
    decreases n,
{
    if n == 0 {
        lemma2_to64();
    } else {
        lemma_bits_value_bound(s, p + 1, (n - 1) as nat);
        lemma_pow2_unfold(n);
    }
}

/// Reading `a` bits and then `b` bits gives the same number as reading
/// `a + b` bits at once: the first run fills the low `a` bits, the second
/// the `b` bits above them.
pub proof fn lemma_bits_value_split(s: Seq<u8>, p: int, a: nat, b: nat)
    ensures
        bits_value(s, p, a + b) == bits_value(s, p, a) + pow2(a) * bits_value(s, p + a, b),
    decreases a,
{
    if a == 0 {
        lemma2_to64();
    } else {
        let rest = (a - 1) as nat;
        lemma_bits_value_split(s, p + 1, rest, b);
        lemma_pow2_unfold(a);
        let hi = bits_value(s, p + a, b);
        assert(bits_value(s, p, a + b) == bit_at(s, p) + 2 * bits_value(s, p + 1, rest + b));
        assert(2 * (pow2(rest) * hi) == pow2(a) * hi) by {
            lemma_mul_is_associative(2, pow2(rest) as int, hi as int);
        }
    }
}

/// Bit `i` of a run of `n` bits is bit `p + i` of the stream.
pub proof fn lemma_bits_value_bit(s: Seq<u8>, p: int, n: nat, i: nat)
    requires
        i < n,
    ensures
        (bits_value(s, p, n) / pow2(i)) % 2 == bit_at(s, p + i),
    decreases i,
{
    let rest = bits_value(s, p + 1, (n - 1) as nat);
    assert(bit_at(s, p) < 2);
    if i == 0 {
        lemma2_to64();
    } else {
        lemma_bits_value_bit(s, p + 1, (n - 1) as nat, (i - 1) as nat);
        lemma_pow2_unfold(i);
        lemma_pow2_pos((i - 1) as nat);
        let v = bits_value(s, p, n);
        assert(v / 2 == rest);
        assert(v as int / pow2(i) as int == (v as int / 2) / pow2((i - 1) as nat) as int) by {
            lemma_div_denominator(v as int, 2, pow2((i - 1) as nat) as int);
        }
    }
}

/// A run of bits that lies inside one octet is a bit field of that octet.
pub proof fn lemma_bits_in_octet(s: Seq<u8>, idx: int, c: nat, k: nat)
    requires
        c + k <= 8,
    ensures
        bits_value(s, 8 * idx + c, k) == ((s[idx] as nat) / pow2(c)) % pow2(k),
    decreases k,
{
    let x = s[idx] as nat;
    lemma_pow2_pos(c);
    if k == 0 {
        lemma2_to64();
    } else {
        let p = 8 * idx + c;
        assert(p / 8 == idx && p % 8 == c);
        lemma_bits_in_octet(s, idx, c + 1, (k - 1) as nat);
        lemma_pow2_unfold(c + 1);
        lemma_pow2_unfold(k);
        lemma_pow2_pos((k - 1) as nat);
        let y = x / pow2(c);
        let m = pow2((k - 1) as nat);
        assert(x as int / pow2(c + 1) as int == y as int / 2) by {
            lemma_div_denominator(x as int, pow2(c) as int, 2);
            lemma_mul_is_commutative(2, pow2(c) as int);
        }
        assert(y as int % (2 * (m as int)) == 2 * ((y as int / 2) % (m as int)) + y as int % 2) by {
            lemma_mod_breakdown(y as int, 2, m as int);
        }
    }
}

/// Eight bits that start at the boundary of octet `idx` are that octet.
pub proof fn lemma_aligned_octet(s: Seq<u8>, idx: int)
    ensures
        bits_value(s, 8 * idx, 8) == s[idx],
{
    lemma2_to64();
    lemma_bits_in_octet(s, idx, 0, 8);
}

} // verus!
