//! The mathematics of Hamming distance: counting ones, counting the bit
//! positions in which two numbers differ, and the distance between two byte
//! strings, together with the facts about them that the rest of the crate
//! builds on.
use vstd::arithmetic::power2::{lemma2_to64, lemma_pow2_unfold, pow2};
use vstd::prelude::*;

verus! {

/// The number of ones in the binary representation of `n`.
pub open spec fn popcount(n: nat) -> nat
    decreases n,
{
    if n == 0 {
        0
    } else {
        (n % 2) + popcount(n / 2)
    }
}

/// The number of bit positions in which `a` and `b` differ.
pub open spec fn bit_diff(a: nat, b: nat) -> nat
    decreases a + b,
{
    if a == 0 && b == 0 {
        0
    } else {
        (if a % 2 == b % 2 {
            0nat
        } else {
            1nat
        }) + bit_diff(a / 2, b / 2)
    }
}

/// The number whose little-endian representation is `bytes[lo..hi]`.
pub open spec fn le_value(bytes: Seq<u8>, lo: int, hi: int) -> nat
    decreases hi - lo,
{
    if lo >= hi {
        0
    } else {
        bytes[lo] as nat + 256 * le_value(bytes, lo + 1, hi)
    }
}

/// The number of bits in which `a[lo..hi]` and `b[lo..hi]` differ.
pub open spec fn hamming_range(a: Seq<u8>, b: Seq<u8>, lo: int, hi: int) -> nat
    decreases hi - lo,
{
    if lo >= hi {
        0
    } else {
        bit_diff(a[lo] as nat, b[lo] as nat) + hamming_range(a, b, lo + 1, hi)
    }
}

/// The Hamming distance between two byte strings of one length: the number
/// of bits in which they differ.
pub open spec fn hamming(a: Seq<u8>, b: Seq<u8>) -> nat {
    hamming_range(a, b, 0, a.len() as int)
}

/// Two numbers differ in as many bits one way round as the other.
pub proof fn lemma_bit_diff_symmetric(a: nat, b: nat)
    ensures
        bit_diff(a, b) == bit_diff(b, a),
    decreases a + b,
{
    if a != 0 || b != 0 {
        lemma_bit_diff_symmetric(a / 2, b / 2);
    }
}

/// Two numbers differ in no bit exactly when they are equal.
pub proof fn lemma_bit_diff_zero(a: nat, b: nat)
    ensures
        bit_diff(a, b) == 0 <==> a == b,
    decreases a + b,
{
    if a != 0 || b != 0 {
        lemma_bit_diff_zero(a / 2, b / 2);
    }
}

/// Numbers of at most `k` bits differ in at most `k` bits.
pub proof fn lemma_bit_diff_bound(a: nat, b: nat, k: nat)
    requires
        a < pow2(k),
        b < pow2(k),
    ensures
        bit_diff(a, b) <= k,
    decreases k,
{
    if k == 0 {
        lemma2_to64();
    } else {
        lemma_pow2_unfold(k);
        if a != 0 || b != 0 {
            lemma_bit_diff_bound(a / 2, b / 2, (k - 1) as nat);
        }
    }
}

/// Bits differ independently below and above bit `k`.
pub proof fn lemma_bit_diff_split(k: nat, lo1: nat, hi1: nat, lo2: nat, hi2: nat)
    requires
        lo1 < pow2(k),
        lo2 < pow2(k),
    ensures
        bit_diff(lo1 + pow2(k) * hi1, lo2 + pow2(k) * hi2) == bit_diff(lo1, lo2) + bit_diff(
            hi1,
            hi2,
        ),
    decreases k,
{
    if k == 0 {
        lemma2_to64();
        assert(pow2(k) * hi1 == hi1 && pow2(k) * hi2 == hi2) by (nonlinear_arith)
            requires
                pow2(k) == 1,
        ;
    } else {
        lemma_pow2_unfold(k);
        let p = pow2((k - 1) as nat);
        let x = lo1 + pow2(k) * hi1;
        let y = lo2 + pow2(k) * hi2;
        assert(pow2(k) * hi1 == 2 * (p * hi1)) by (nonlinear_arith)
            requires
                pow2(k) == 2 * p,
        ;
        assert(pow2(k) * hi2 == 2 * (p * hi2)) by (nonlinear_arith)
            requires
                pow2(k) == 2 * p,
        ;
        assert(x / 2 == lo1 / 2 + p * hi1);
        assert(y / 2 == lo2 / 2 + p * hi2);
        assert(x % 2 == lo1 % 2);
        assert(y % 2 == lo2 % 2);
        assert(p * hi1 >= 0 && p * hi2 >= 0) by (nonlinear_arith)
            requires
                p >= 0,
                hi1 >= 0,
                hi2 >= 0,
        ;
        lemma_bit_diff_split((k - 1) as nat, lo1 / 2, hi1, lo2 / 2, hi2);
        assert(bit_diff(x / 2, y / 2) == bit_diff(lo1 / 2, lo2 / 2) + bit_diff(hi1, hi2));
        if x == 0 && y == 0 {
            assert(p > 0);
            assert(hi1 == 0 && hi2 == 0) by (nonlinear_arith)
                requires
                    p * hi1 == 0,
                    p * hi2 == 0,
                    p > 0,
            ;
        }
        assert(bit_diff(x, y) == bit_diff(lo1, lo2) + bit_diff(hi1, hi2));
    }
}

/// The distance over a range is the distance over its two parts.
pub proof fn lemma_hamming_range_split(a: Seq<u8>, b: Seq<u8>, lo: int, mid: int, hi: int)
    requires
        lo <= mid <= hi,
    ensures
        hamming_range(a, b, lo, hi) == hamming_range(a, b, lo, mid) + hamming_range(a, b, mid, hi),
    decreases mid - lo,
{
    if lo < mid {
        lemma_hamming_range_split(a, b, lo + 1, mid, hi);
    }
}

/// Two little-endian numbers differ in as many bits as their bytes do.
pub proof fn lemma_le_value_bit_diff(a: Seq<u8>, b: Seq<u8>, lo: int, hi: int)
    requires
        0 <= lo <= hi,
        hi <= a.len(),
        hi <= b.len(),
    ensures
        bit_diff(le_value(a, lo, hi), le_value(b, lo, hi)) == hamming_range(a, b, lo, hi),
    decreases hi - lo,
{
    if lo < hi {
        lemma_le_value_bit_diff(a, b, lo + 1, hi);
        lemma2_to64();
        lemma_bit_diff_split(
            8,
            a[lo] as nat,
            le_value(a, lo + 1, hi),
            b[lo] as nat,
            le_value(b, lo + 1, hi),
        );
    }
}

/// The distance from `a` to `b` is the distance from `b` to `a`.
pub proof fn lemma_hamming_range_symmetric(a: Seq<u8>, b: Seq<u8>, lo: int, hi: int)
    ensures
        hamming_range(a, b, lo, hi) == hamming_range(b, a, lo, hi),
    decreases hi - lo,
{
    if lo < hi {
        lemma_bit_diff_symmetric(a[lo] as nat, b[lo] as nat);
        lemma_hamming_range_symmetric(a, b, lo + 1, hi);
    }
}

/// A range of `hi - lo` bytes differs in at most eight bits per byte.
pub proof fn lemma_hamming_range_bound(a: Seq<u8>, b: Seq<u8>, lo: int, hi: int)
    requires
        lo <= hi,
    ensures
        hamming_range(a, b, lo, hi) <= 8 * (hi - lo),
    decreases hi - lo,
{
    if lo < hi {
        lemma2_to64();
        lemma_bit_diff_bound(a[lo] as nat, b[lo] as nat, 8);
        lemma_hamming_range_bound(a, b, lo + 1, hi);
    }
}

/// Two ranges are at distance zero exactly when they hold the same bytes.
pub proof fn lemma_hamming_range_zero(a: Seq<u8>, b: Seq<u8>, lo: int, hi: int)
    requires
        0 <= lo <= hi,
        hi <= a.len(),
        hi <= b.len(),
    ensures
        hamming_range(a, b, lo, hi) == 0 <==> (forall|i: int| lo <= i < hi ==> a[i] == b[i]),
    decreases hi - lo,
{
    if lo < hi {
        lemma_bit_diff_zero(a[lo] as nat, b[lo] as nat);
        lemma_hamming_range_zero(a, b, lo + 1, hi);
        if hamming_range(a, b, lo, hi) == 0 {
            assert forall|i: int| lo <= i < hi implies a[i] == b[i] by {
                if i > lo {
                    assert(lo + 1 <= i < hi);
                }
            }
        }
    }
}

/// The distance is symmetric.
pub proof fn lemma_hamming_symmetric(a: Seq<u8>, b: Seq<u8>)
    requires
        a.len() == b.len(),
    ensures
        hamming(a, b) == hamming(b, a),
{
    lemma_hamming_range_symmetric(a, b, 0, a.len() as int);
}

/// The distance between two byte strings of one length is zero exactly when
/// they are equal.
pub proof fn lemma_hamming_zero(a: Seq<u8>, b: Seq<u8>)
    requires
        a.len() == b.len(),
    ensures
        hamming(a, b) == 0 <==> a == b,
{
    lemma_hamming_range_zero(a, b, 0, a.len() as int);
    if hamming(a, b) == 0 {
        assert(a =~= b);
    }
}

/// The distance is at most eight bits for each byte.
pub proof fn lemma_hamming_bound(a: Seq<u8>, b: Seq<u8>)
    ensures
        hamming(a, b) <= 8 * a.len(),
{
    lemma_hamming_range_bound(a, b, 0, a.len() as int);
}

} // verus!
