//! Distance metrics over vectors held as sequences of fixed-width chunks.
use crate::indexing::hamming::{
    bit_diff, le_value, lemma_bit_diff_bound, lemma_bit_diff_symmetric, lemma_bit_diff_zero,
    popcount,
};
use core::ops::BitXor;
use vstd::arithmetic::power2::lemma2_to64;
use vstd::layout::size_of;
use vstd::prelude::*;
use vstd::std_specs::ops::BitXorSpec;

verus! {

broadcast use vstd::layout::layout_of_primitives;

/// An unsigned integer that holds a fixed number of a vector's bytes.
pub trait VecChunk: BitXor<Output = Self> + Sized + Copy + Send + Sync {
    /// The chunk read as an unsigned integer.
    spec fn value(self) -> nat;

    /// The number of ones in the chunk.
    fn count_ones(self) -> (n: u32)
        ensures
            n == popcount(self.value()),
    ;

    /// Reads the chunk that `bytes` holds from `at` on, least significant
    /// byte first.
    fn read_le(bytes: &[u8], at: usize) -> (chunk: Self)
        requires
            at + size_of::<Self>() <= bytes.len(),
        ensures
            chunk.value() == le_value(bytes@, at as int, at + size_of::<Self>()),
    ;

    /// What the distance functions need of a chunk type: it is at least a
    /// byte wide, its values fit its width, and `^` gives a chunk with a one
    /// in exactly the bit positions in which the operands differ.
    proof fn chunk_laws(a: Self, b: Self)
        ensures
            size_of::<Self>() >= 1,
            bit_diff(a.value(), b.value()) <= 8 * size_of::<Self>(),
            Self::obeys_bitxor_spec(),
            a.bitxor_req(b),
            popcount(a.bitxor_spec(b).value()) == bit_diff(a.value(), b.value()),
    ;
}

/// `u8::count_ones`: the number of ones in the binary representation of `x`.
#[verifier::external_body]
fn count_ones_u8(x: u8) -> (n: u32)
    ensures
        n == popcount(x as nat),
{
    x.count_ones()
}

/// `u16::count_ones`: the number of ones in the binary representation of `x`.
#[verifier::external_body]
fn count_ones_u16(x: u16) -> (n: u32)
    ensures
        n == popcount(x as nat),
{
    x.count_ones()
}

/// `u32::count_ones`: the number of ones in the binary representation of `x`.
#[verifier::external_body]
fn count_ones_u32(x: u32) -> (n: u32)
    ensures
        n == popcount(x as nat),
{
    x.count_ones()
}

/// `u64::count_ones`: the number of ones in the binary representation of `x`.
#[verifier::external_body]
fn count_ones_u64(x: u64) -> (n: u32)
    ensures
        n == popcount(x as nat),
{
    x.count_ones()
}

/// `a ^ b` has a one in exactly the bit positions in which `a` and `b` differ.
proof fn lemma_xor_bit_diff(a: u64, b: u64)
    ensures
        popcount((a ^ b) as nat) == bit_diff(a as nat, b as nat),
    decreases a + b,
{
    if a == 0 && b == 0 {
        assert(a ^ b == 0) by (bit_vector)
            requires
                a == 0 && b == 0,
        ;
    } else {
        assert((a ^ b) / 2 == (a / 2) ^ (b / 2)) by (bit_vector);
        assert((a ^ b) % 2 == (if a % 2 == b % 2 {
            0u64
        } else {
            1u64
        })) by (bit_vector);
        lemma_xor_bit_diff(a / 2, b / 2);
        if a ^ b == 0 {
            assert(a == b) by (bit_vector)
                requires
                    a ^ b == 0,
            ;
            lemma_bit_diff_zero(a as nat, b as nat);
        }
    }
}

impl VecChunk for u8 {
    open spec fn value(self) -> nat {
        self as nat
    }

    fn count_ones(self) -> (n: u32) {
        count_ones_u8(self)
    }

    fn read_le(bytes: &[u8], at: usize) -> (chunk: Self) {
        proof {
            reveal_with_fuel(le_value, 2);
        }
        bytes[at]
    }

    proof fn chunk_laws(a: Self, b: Self) {
        lemma2_to64();
        lemma_bit_diff_bound(a as nat, b as nat, 8);
        lemma_xor_bit_diff(a as u64, b as u64);
        assert((a ^ b) as u64 == (a as u64) ^ (b as u64)) by (bit_vector);
    }
}

impl VecChunk for u16 {
    open spec fn value(self) -> nat {
        self as nat
    }

    fn count_ones(self) -> (n: u32) {
        count_ones_u16(self)
    }

    fn read_le(bytes: &[u8], at: usize) -> (chunk: Self) {
        let b0 = bytes[at] as u16;
        let b1 = bytes[at + 1] as u16;
        let chunk = b0 | b1 << 8;
        proof {
            assert(chunk == b0 + 256 * b1) by (bit_vector)
                requires
                    b0 < 256,
                    b1 < 256,
                    chunk == b0 | b1 << 8,
            ;
            reveal_with_fuel(le_value, 3);
        }
        chunk
    }

    proof fn chunk_laws(a: Self, b: Self) {
        lemma2_to64();
        lemma_bit_diff_bound(a as nat, b as nat, 16);
        lemma_xor_bit_diff(a as u64, b as u64);
        assert((a ^ b) as u64 == (a as u64) ^ (b as u64)) by (bit_vector);
    }
}

impl VecChunk for u32 {
    open spec fn value(self) -> nat {
        self as nat
    }

    fn count_ones(self) -> (n: u32) {
        count_ones_u32(self)
    }

    fn read_le(bytes: &[u8], at: usize) -> (chunk: Self) {
        let b0 = bytes[at] as u32;
        let b1 = bytes[at + 1] as u32;
        let b2 = bytes[at + 2] as u32;
        let b3 = bytes[at + 3] as u32;
        let chunk = b0 | b1 << 8 | b2 << 16 | b3 << 24;
        proof {
            assert(chunk == b0 + 256 * (b1 + 256 * (b2 + 256 * b3))) by (bit_vector)
                requires
                    b0 < 256,
                    b1 < 256,
                    b2 < 256,
                    b3 < 256,
                    chunk == b0 | b1 << 8 | b2 << 16 | b3 << 24,
            ;
            reveal_with_fuel(le_value, 5);
        }
        chunk
    }

    proof fn chunk_laws(a: Self, b: Self) {
        lemma2_to64();
        lemma_bit_diff_bound(a as nat, b as nat, 32);
        lemma_xor_bit_diff(a as u64, b as u64);
        assert((a ^ b) as u64 == (a as u64) ^ (b as u64)) by (bit_vector);
    }
}

impl VecChunk for u64 {
    open spec fn value(self) -> nat {
        self as nat
    }

    fn count_ones(self) -> (n: u32) {
        count_ones_u64(self)
    }

    fn read_le(bytes: &[u8], at: usize) -> (chunk: Self) {
        let b0 = bytes[at] as u64;
        let b1 = bytes[at + 1] as u64;
        let b2 = bytes[at + 2] as u64;
        let b3 = bytes[at + 3] as u64;
        let b4 = bytes[at + 4] as u64;
        let b5 = bytes[at + 5] as u64;
        let b6 = bytes[at + 6] as u64;
        let b7 = bytes[at + 7] as u64;
        let chunk = b0 | b1 << 8 | b2 << 16 | b3 << 24 | b4 << 32 | b5 << 40 | b6 << 48 | b7 << 56;
        proof {
            assert(chunk == b0 + 256 * (b1 + 256 * (b2 + 256 * (b3 + 256 * (b4 + 256 * (b5 + 256 * (
            b6 + 256 * b7))))))) by (bit_vector)
                requires
                    b0 < 256,
                    b1 < 256,
                    b2 < 256,
                    b3 < 256,
                    b4 < 256,
                    b5 < 256,
                    b6 < 256,
                    b7 < 256,
                    chunk == b0 | b1 << 8 | b2 << 16 | b3 << 24 | b4 << 32 | b5 << 40 | b6 << 48 | b7
                        << 56,
            ;
            reveal_with_fuel(le_value, 9);
        }
        chunk
    }

    proof fn chunk_laws(a: Self, b: Self) {
        lemma2_to64();
        lemma_bit_diff_bound(a as nat, b as nat, 64);
        lemma_xor_bit_diff(a, b);
    }
}

/// The distance between the first `n` chunks of `a` and of `b`: the number of
/// bits in which they differ.
pub open spec fn chunk_distance<ChunkT: VecChunk>(a: Seq<ChunkT>, b: Seq<ChunkT>, n: int) -> nat
    decreases n,
{
    if n <= 0 {
        0
    } else {
        chunk_distance(a, b, n - 1) + bit_diff(a[n - 1].value(), b[n - 1].value())
    }
}

/// The distance from `a` to `b` is the distance from `b` to `a`.
pub proof fn lemma_chunk_distance_symmetric<ChunkT: VecChunk>(
    a: Seq<ChunkT>,
    b: Seq<ChunkT>,
    n: int,
)
    ensures
        chunk_distance(a, b, n) == chunk_distance(b, a, n),
    decreases n,
{
    if n > 0 {
        lemma_chunk_distance_symmetric(a, b, n - 1);
        lemma_bit_diff_symmetric(a[n - 1].value(), b[n - 1].value());
    }
}

/// The distance from a vector to itself is zero.
pub proof fn lemma_chunk_distance_self<ChunkT: VecChunk>(a: Seq<ChunkT>, n: int)
    ensures
        chunk_distance(a, a, n) == 0,
    decreases n,
{
    if n > 0 {
        lemma_chunk_distance_self(a, n - 1);
        lemma_bit_diff_zero(a[n - 1].value(), a[n - 1].value());
    }
}

/// The distance over `n` chunks is at most the number of bits in `n` chunks:
/// eight times the number of bytes.
pub proof fn lemma_chunk_distance_bound<ChunkT: VecChunk>(a: Seq<ChunkT>, b: Seq<ChunkT>, n: int)
    requires
        0 <= n,
    ensures
        chunk_distance(a, b, n) <= 8 * (size_of::<ChunkT>() * n),
    decreases n,
{
    if n > 0 {
        lemma_chunk_distance_bound(a, b, n - 1);
        ChunkT::chunk_laws(a[n - 1], b[n - 1]);
        assert(size_of::<ChunkT>() * n == size_of::<ChunkT>() * (n - 1) + size_of::<ChunkT>())
            by (nonlinear_arith);
    } else {
        assert(size_of::<ChunkT>() * n == 0) by (nonlinear_arith)
            requires
                n == 0,
        ;
    }
}

/// Hamming distance over exactly `CHUNKS_PER_VEC` chunks.
pub fn distance_const<const CHUNKS_PER_VEC: usize, ChunkT: VecChunk>(
    a: &[ChunkT],
    b: &[ChunkT],
) -> (dist: u32)
    requires
        CHUNKS_PER_VEC <= a.len(),
        CHUNKS_PER_VEC <= b.len(),
        8 * (size_of::<ChunkT>() * CHUNKS_PER_VEC) <= u32::MAX,
    ensures
        dist == chunk_distance(a@, b@, CHUNKS_PER_VEC as int),
{
    let mut dist: u32 = 0;
    for i in 0..CHUNKS_PER_VEC
        invariant
            CHUNKS_PER_VEC <= a.len(),
            CHUNKS_PER_VEC <= b.len(),
            8 * (size_of::<ChunkT>() * CHUNKS_PER_VEC) <= u32::MAX,
            dist == chunk_distance(a@, b@, i as int),
    {
        proof {
            ChunkT::chunk_laws(a[i as int], b[i as int]);
            lemma_chunk_distance_bound(a@, b@, i + 1);
            assert(size_of::<ChunkT>() * (i + 1) <= size_of::<ChunkT>() * CHUNKS_PER_VEC)
                by (nonlinear_arith)
                requires
                    i + 1 <= CHUNKS_PER_VEC,
            ;
        }
        dist += (a[i] ^ b[i]).count_ones();
    }
    dist
}

/// Hamming distance over as many chunks as `a` has.
pub fn distance_dyn<ChunkT: VecChunk>(a: &[ChunkT], b: &[ChunkT]) -> (dist: u32)
    requires
        a.len() <= b.len(),
        8 * (size_of::<ChunkT>() * a.len()) <= u32::MAX,
    ensures
        dist == chunk_distance(a@, b@, a.len() as int),
{
    let mut dist: u32 = 0;
    for i in 0..a.len()
        invariant
            a.len() <= b.len(),
            8 * (size_of::<ChunkT>() * a.len()) <= u32::MAX,
            dist == chunk_distance(a@, b@, i as int),
    {
        proof {
            ChunkT::chunk_laws(a[i as int], b[i as int]);
            lemma_chunk_distance_bound(a@, b@, i + 1);
            assert(size_of::<ChunkT>() * (i + 1) <= size_of::<ChunkT>() * a.len())
                by (nonlinear_arith)
                requires
                    i + 1 <= a.len(),
            ;
        }
        dist += (a[i] ^ b[i]).count_ones();
    }
    dist
}

/// Distance metrics for binary vectors.
#[derive(Clone, Copy, Debug, PartialEq, Eq)]
pub enum DistanceMetric {
    /// The number of bits in which two vectors differ.
    Hamming,
}

/// A distance metric resolved for vectors of one length: the function that
/// an index calls for every stored vector.
#[derive(Clone, Copy, Debug, PartialEq, Eq)]
pub enum DistanceMetricFn {
    /// Hamming distance over exactly one chunk.
    Hamming1,
    /// Hamming distance over exactly two chunks.
    Hamming2,
    /// Hamming distance over exactly three chunks.
    Hamming3,
    /// Hamming distance over exactly four chunks.
    Hamming4,
    /// Hamming distance over exactly five chunks.
    Hamming5,
    /// Hamming distance over exactly six chunks.
    Hamming6,
    /// Hamming distance over exactly seven chunks.
    Hamming7,
    /// Hamming distance over exactly eight chunks.
    Hamming8,
    /// Hamming distance over exactly nine chunks.
    Hamming9,
    /// Hamming distance over exactly ten chunks.
    Hamming10,
    /// Hamming distance over as many chunks as the first operand has.
    HammingDyn,
}

impl DistanceMetricFn {
    /// The metric that the function computes.
    pub open spec fn metric(self) -> DistanceMetric {
        DistanceMetric::Hamming
    }

    /// The number of chunks that the function reads of each operand, where
    /// that number was fixed when the metric was resolved.
    pub open spec fn fixed_len(self) -> Option<nat> {
        match self {
            DistanceMetricFn::Hamming1 => Some(1),
            DistanceMetricFn::Hamming2 => Some(2),
            DistanceMetricFn::Hamming3 => Some(3),
            DistanceMetricFn::Hamming4 => Some(4),
            DistanceMetricFn::Hamming5 => Some(5),
            DistanceMetricFn::Hamming6 => Some(6),
            DistanceMetricFn::Hamming7 => Some(7),
            DistanceMetricFn::Hamming8 => Some(8),
            DistanceMetricFn::Hamming9 => Some(9),
            DistanceMetricFn::Hamming10 => Some(10),
            DistanceMetricFn::HammingDyn => None,
        }
    }

    /// The number of chunks that the function compares when the first
    /// operand has `a_len` chunks.
    pub open spec fn span(self, a_len: nat) -> nat {
        match self.fixed_len() {
            Some(n) => n,
            None => a_len,
        }
    }

    /// Whether the function may be called on operands of `a_len` and `b_len`
    /// chunks: it reads `span(a_len)` chunks of each and checks no bound.
    pub open spec fn accepts(self, a_len: nat, b_len: nat) -> bool {
        self.span(a_len) <= a_len && self.span(a_len) <= b_len
    }

    /// Applies the function: the distance between the first `span(a.len())`
    /// chunks of `a` and of `b`.
    pub fn call<ChunkT: VecChunk>(self, a: &[ChunkT], b: &[ChunkT]) -> (dist: u32)
        requires
            self.accepts(a.len() as nat, b.len() as nat),
            8 * (size_of::<ChunkT>() * self.span(a.len() as nat)) <= u32::MAX,
        ensures
            dist == chunk_distance(a@, b@, self.span(a.len() as nat) as int),
    {
        match self {
            DistanceMetricFn::Hamming1 => distance_const::<1, ChunkT>(a, b),
            DistanceMetricFn::Hamming2 => distance_const::<2, ChunkT>(a, b),
            DistanceMetricFn::Hamming3 => distance_const::<3, ChunkT>(a, b),
            DistanceMetricFn::Hamming4 => distance_const::<4, ChunkT>(a, b),
            DistanceMetricFn::Hamming5 => distance_const::<5, ChunkT>(a, b),
            DistanceMetricFn::Hamming6 => distance_const::<6, ChunkT>(a, b),
            DistanceMetricFn::Hamming7 => distance_const::<7, ChunkT>(a, b),
            DistanceMetricFn::Hamming8 => distance_const::<8, ChunkT>(a, b),
            DistanceMetricFn::Hamming9 => distance_const::<9, ChunkT>(a, b),
            DistanceMetricFn::Hamming10 => distance_const::<10, ChunkT>(a, b),
            DistanceMetricFn::HammingDyn => distance_dyn::<ChunkT>(a, b),
        }
    }
}

impl DistanceMetric {
    /// Resolves the metric for vectors of `chunks_per_vec` chunks. For one to
    /// ten chunks the function has that trip count built in; for any other
    /// length it loops over the operands' own length. On operands of exactly
    /// `chunks_per_vec` chunks both give the same distance.
    pub fn into_fn(self, chunks_per_vec: usize) -> (f: DistanceMetricFn)
        ensures
            f.metric() == self,
            f.fixed_len() == (if 1 <= chunks_per_vec <= 10 {
                Some(chunks_per_vec as nat)
            } else {
                None
            }),
            f.accepts(chunks_per_vec as nat, chunks_per_vec as nat),
            f.span(chunks_per_vec as nat) == chunks_per_vec,
    {
        match self {
            DistanceMetric::Hamming => {
                match chunks_per_vec {
                    1 => DistanceMetricFn::Hamming1,
                    2 => DistanceMetricFn::Hamming2,
                    3 => DistanceMetricFn::Hamming3,
                    4 => DistanceMetricFn::Hamming4,
                    5 => DistanceMetricFn::Hamming5,
                    6 => DistanceMetricFn::Hamming6,
                    7 => DistanceMetricFn::Hamming7,
                    8 => DistanceMetricFn::Hamming8,
                    9 => DistanceMetricFn::Hamming9,
                    10 => DistanceMetricFn::Hamming10,
                    _ => DistanceMetricFn::HammingDyn,
                }
            },
        }
    }
}

} // verus!
