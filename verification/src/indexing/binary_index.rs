//! An index of binary vectors that compares a search vector with every
//! stored vector.
use crate::error::{expected_bytes_message, is_size_mismatch, CustomErrors};
use crate::indexing::distance_metrics::{
    chunk_distance, DistanceMetric, DistanceMetricFn, VecChunk,
};
use crate::indexing::hamming::{
    hamming, hamming_range, le_value, lemma_hamming_bound, lemma_hamming_range_split,
    lemma_le_value_bit_diff,
};
use crate::indexing::index::{
    distances, id_range, room_for, vectors_of, within_radius, Index, SearchResult,
};
use crate::indexing::top_k::TopK;
use vstd::layout::size_of;
use vstd::prelude::*;

verus! {

/// Whether chunk `first + j` of `chunks` holds the bytes of `bytes` that
/// chunk `j` of a vector stands for, least significant byte first.
spec fn encodes<ChunkT: VecChunk>(
    chunks: Seq<ChunkT>,
    first: int,
    bytes: Seq<u8>,
    j: int,
) -> bool {
    chunks[first + j].value() == le_value(
        bytes,
        j * size_of::<ChunkT>(),
        (j + 1) * size_of::<ChunkT>(),
    )
}

/// Whether the `n` chunks of `chunks` from `first` on hold `bytes`.
spec fn holds_bytes<ChunkT: VecChunk>(
    chunks: Seq<ChunkT>,
    first: int,
    n: int,
    bytes: Seq<u8>,
) -> bool {
    forall|j: int| 0 <= j < n ==> #[trigger] encodes(chunks, first, bytes, j)
}

/// Whether `chunks`, at `per_vec` chunks for each vector, holds vector `i` of
/// `vectors`.
spec fn stores<ChunkT: VecChunk>(
    chunks: Seq<ChunkT>,
    per_vec: int,
    vectors: Seq<Seq<u8>>,
    i: int,
) -> bool {
    holds_bytes(chunks, i * per_vec, per_vec, vectors[i])
}

/// A little-endian number read in a part of a byte string is the number
/// read at that place in the whole.
proof fn lemma_le_value_subrange(bytes: Seq<u8>, lo: int, hi: int, a: int, c: int)
    requires
        0 <= lo <= hi <= bytes.len(),
        0 <= a <= c <= hi - lo,
    ensures
        le_value(bytes.subrange(lo, hi), a, c) == le_value(bytes, lo + a, lo + c),
    decreases c - a,
{
    if a < c {
        lemma_le_value_subrange(bytes, lo, hi, a + 1, c);
    }
}

/// Chunks that hold two byte strings are as far apart as the byte strings.
proof fn lemma_chunks_distance<ChunkT: VecChunk>(
    a: Seq<ChunkT>,
    b: Seq<ChunkT>,
    a_bytes: Seq<u8>,
    b_bytes: Seq<u8>,
    n: int,
    m: int,
)
    requires
        0 <= m <= n,
        n <= a.len(),
        n <= b.len(),
        holds_bytes(a, 0, n, a_bytes),
        holds_bytes(b, 0, n, b_bytes),
        a_bytes.len() == n * size_of::<ChunkT>(),
        b_bytes.len() == n * size_of::<ChunkT>(),
    ensures
        chunk_distance(a, b, m) == hamming_range(a_bytes, b_bytes, 0, m * size_of::<ChunkT>()),
    decreases m,
{
    let size = size_of::<ChunkT>() as int;
    if m > 0 {
        lemma_chunks_distance(a, b, a_bytes, b_bytes, n, m - 1);
        assert(encodes(a, 0, a_bytes, m - 1));
        assert(encodes(b, 0, b_bytes, m - 1));
        assert((m - 1) * size + size == m * size) by (nonlinear_arith);
        assert(0 <= (m - 1) * size) by (nonlinear_arith)
            requires
                m >= 1,
                size >= 0,
        ;
        assert(m * size <= n * size) by (nonlinear_arith)
            requires
                m <= n,
                size >= 0,
        ;
        lemma_le_value_bit_diff(a_bytes, b_bytes, (m - 1) * size, m * size);
        lemma_hamming_range_split(a_bytes, b_bytes, 0, (m - 1) * size, m * size);
    } else {
        assert(m * size == 0) by (nonlinear_arith)
            requires
                m == 0,
        ;
    }
}

/// Chunks appended for `n` new vectors hold those vectors, and the chunks
/// before them hold what they held.
proof fn lemma_stores_appended<ChunkT: VecChunk>(
    data: Seq<ChunkT>,
    chunks: Seq<ChunkT>,
    per_vec: int,
    vectors: Seq<Seq<u8>>,
    x: Seq<u8>,
    width: nat,
    n: nat,
)
    requires
        per_vec >= 0,
        per_vec * size_of::<ChunkT>() == width,
        data.len() == vectors.len() * per_vec,
        chunks.len() == n * per_vec,
        x.len() == n * width,
        holds_bytes(chunks, 0, chunks.len() as int, x),
        forall|i: int| 0 <= i < vectors.len() ==> #[trigger] stores(data, per_vec, vectors, i),
    ensures
        forall|i: int|
            0 <= i < vectors.len() + n ==> #[trigger] stores(
                data + chunks,
                per_vec,
                vectors + vectors_of(x, width, n),
                i,
            ),
        forall|i: int|
            0 <= i < n ==> (#[trigger] vectors_of(x, width, n)[i]).len() == width,
{
    let size = size_of::<ChunkT>() as int;
    let count = vectors.len() as int;
    let all = data + chunks;
    let added = vectors_of(x, width, n);
    assert forall|i: int| 0 <= i < n implies (#[trigger] added[i]).len() == width by {
        assert(0 <= i * width && (i + 1) * width <= n * width && (i + 1) * width == i * width
            + width) by (nonlinear_arith)
            requires
                0 <= i < n,
                width >= 0,
        ;
    }
    assert forall|i: int| 0 <= i < count + n implies #[trigger] stores(
        all,
        per_vec,
        vectors + added,
        i,
    ) by {
        assert forall|j: int| 0 <= j < per_vec implies #[trigger] encodes(
            all,
            i * per_vec,
            (vectors + added)[i],
            j,
        ) by {
            if i < count {
                assert(stores(data, per_vec, vectors, i));
                assert(encodes(data, i * per_vec, vectors[i], j));
                assert(0 <= i * per_vec + j < count * per_vec) by (nonlinear_arith)
                    requires
                        0 <= i < count,
                        0 <= j < per_vec,
                ;
            } else {
                let t = i - count;
                let c = t * per_vec + j;
                assert(0 <= t * width && (t + 1) * width <= n * width && (t + 1) * width == t
                    * width + width) by (nonlinear_arith)
                    requires
                        0 <= t < n,
                        width >= 0,
                ;
                assert(i * per_vec + j == count * per_vec + c) by (nonlinear_arith)
                    requires
                        t == i - count,
                        c == t * per_vec + j,
                ;
                assert(0 <= c < n * per_vec) by (nonlinear_arith)
                    requires
                        0 <= t < n,
                        0 <= j < per_vec,
                        c == t * per_vec + j,
                ;
                assert(all[i * per_vec + j] == chunks[c]);
                assert(encodes(chunks, 0, x, c));
                assert(c * size == t * width + j * size && (c + 1) * size == t * width + (j + 1)
                    * size) by (nonlinear_arith)
                    requires
                        c == t * per_vec + j,
                        per_vec * size == width,
                ;
                assert(0 <= j * size <= (j + 1) * size <= width) by (nonlinear_arith)
                    requires
                        0 <= j < per_vec,
                        per_vec * size == width,
                        size >= 0,
                ;
                lemma_le_value_subrange(
                    x,
                    t * width,
                    (t + 1) * width,
                    j * size,
                    (j + 1) * size,
                );
                assert((vectors + added)[i] == added[t]);
            }
        }
    }
}

/// `Vec::into_boxed_slice`: the same items in the same order.
#[verifier::external_body]
fn into_boxed_slice(ids: Vec<i64>) -> (boxed: Box<[i64]>)
    ensures
        boxed@ == ids@,
{
    ids.into_boxed_slice()
}

/// An index that holds each vector as `ChunkT` chunks and compares a search
/// vector with all of them.
pub struct IndexBinaryChunked<ChunkT: VecChunk> {
    vector_bytes: u32,
    chunks_per_vec: usize,
    distance_metric: DistanceMetricFn,
    data: Vec<ChunkT>,
    count: usize,
    vectors: Ghost<Seq<Seq<u8>>>,
}

impl<ChunkT: VecChunk> View for IndexBinaryChunked<ChunkT> {
    type V = Seq<Seq<u8>>;

    /// The stored vectors, each as its bytes, by id.
    closed spec fn view(&self) -> Seq<Seq<u8>> {
        self.vectors@
    }
}

/// The chunks that hold `x`: as many whole chunks as `x` has bytes for.
fn cast_slice_to<T: VecChunk>(x: &[u8]) -> (chunks: Vec<T>)
    ensures
        size_of::<T>() >= 1,
        chunks.len() == x.len() as int / size_of::<T>() as int,
        holds_bytes(chunks@, 0, chunks.len() as int, x@),
{
    let size = core::mem::size_of::<T>();
    proof {
        T::chunk_laws(arbitrary(), arbitrary());
    }
    let ret_cnt = x.len() / size;
    let mut chunks: Vec<T> = Vec::with_capacity(ret_cnt);
    let mut at: usize = 0;
    assert(ret_cnt * size <= x.len()) by (nonlinear_arith)
        requires
            size >= 1,
            ret_cnt == x.len() / size,
    ;
    while chunks.len() < ret_cnt
        invariant
            size == size_of::<T>(),
            size >= 1,
            chunks.len() <= ret_cnt,
            ret_cnt * size <= x.len(),
            at == chunks.len() * size,
            holds_bytes(chunks@, 0, chunks.len() as int, x@),
        decreases ret_cnt - chunks.len(),
    {
        let ghost j = chunks.len() as int;
        let ghost before = chunks@;
        assert((j + 1) * size <= ret_cnt * size) by (nonlinear_arith)
            requires
                j + 1 <= ret_cnt,
                size >= 0,
        ;
        assert((j + 1) * size == j * size + size) by (nonlinear_arith);
        let chunk = T::read_le(x, at);
        chunks.push(chunk);
        at += size;
        proof {
            assert forall|i: int| 0 <= i < j + 1 implies #[trigger] encodes(chunks@, 0, x@, i) by {
                if i < j {
                    assert(encodes(before, 0, x@, i));
                }
            }
        }
    }
    chunks
}

impl<ChunkT: VecChunk> IndexBinaryChunked<ChunkT> {
    /// The number of bytes of each vector.
    pub closed spec fn width(&self) -> nat {
        self.vector_bytes as nat
    }

    /// The metric by which the index compares.
    pub closed spec fn metric(&self) -> DistanceMetric {
        self.distance_metric.metric()
    }

    /// What holds of every index: the chunks hold the stored vectors, each
    /// of the index's width, and no distance or id can overflow.
    pub closed spec fn wf(&self) -> bool {
        &&& self.chunks_per_vec * size_of::<ChunkT>() == self.vector_bytes
        &&& 8 * self.vector_bytes <= i32::MAX
        &&& self.distance_metric.accepts(self.chunks_per_vec as nat, self.chunks_per_vec as nat)
        &&& self.distance_metric.span(self.chunks_per_vec as nat) == self.chunks_per_vec
        &&& self.count <= i64::MAX
        &&& self.data.len() == self.count * self.chunks_per_vec
        &&& self.vectors@.len() == self.count
        &&& forall|i: int|
            0 <= i < self.count ==> (#[trigger] self.vectors@[i]).len() == self.vector_bytes
        &&& forall|i: int|
            0 <= i < self.count ==> #[trigger] stores(
                self.data@,
                self.chunks_per_vec as int,
                self.vectors@,
                i,
            )
    }

    /// In a valid index every stored vector has the index's width, no
    /// distance exceeds the largest `i32` and no id the largest `i64`.
    pub proof fn lemma_sizes(&self)
        requires
            self.wf(),
        ensures
            8 * self.width() <= i32::MAX,
            self@.len() <= i64::MAX,
            forall|i: int| 0 <= i < self@.len() ==> (#[trigger] self@[i]).len() == self.width(),
    {
    }

    /// An empty index for vectors of `vector_bytes` bytes, a whole number of
    /// chunks.
    pub fn new(vector_bytes: u32, distance_metric: DistanceMetric) -> (index: Self)
        requires
            vector_bytes as int % size_of::<ChunkT>() as int == 0,
            8 * vector_bytes <= i32::MAX,
        ensures
            index.wf(),
            index@ == Seq::<Seq<u8>>::empty(),
            index.width() == vector_bytes,
            index.metric() == distance_metric,
    {
        let size = core::mem::size_of::<ChunkT>();
        proof {
            ChunkT::chunk_laws(arbitrary(), arbitrary());
        }
        let chunks_per_vec = vector_bytes as usize / size;
        assert(chunks_per_vec * size == vector_bytes) by (nonlinear_arith)
            requires
                size >= 1,
                chunks_per_vec == vector_bytes as int / size as int,
                vector_bytes as int % size as int == 0,
        ;
        let index = Self {
            vector_bytes,
            chunks_per_vec,
            distance_metric: distance_metric.into_fn(chunks_per_vec),
            data: Vec::new(),
            count: 0,
            vectors: Ghost(Seq::empty()),
        };
        assert(0 * chunks_per_vec == 0) by (nonlinear_arith);
        index
    }

    /// The number of vectors stored.
    pub fn len(&self) -> (n: usize)
        requires
            self.wf(),
        ensures
            n == self@.len(),
    {
        self.count
    }

    /// Checks that `x` has the bytes of exactly `n` vectors.
    pub fn vec_size_check(&self, n: usize, x: &[u8]) -> (r: Result<(), CustomErrors>)
        ensures
            r is Ok <==> x.len() == n * self.width(),
            r matches Err(e) ==> is_size_mismatch(e, (n * self.width()) as nat, x.len() as nat),
    {
        assert(n * self.vector_bytes <= 0x1_0000_0000_0000_0000 * 0x1_0000_0000)
            by (nonlinear_arith)
            requires
                n <= 0xffff_ffff_ffff_ffff,
                self.vector_bytes <= 0xffff_ffff,
        ;
        let expected = (n as u128) * (self.vector_bytes as u128);
        if x.len() as u128 != expected {
            return Err(CustomErrors::InvalidArguments(expected_bytes_message(expected, x.len())));
        }
        Ok(())
    }

    /// Adds the `n` vectors whose bytes `x` holds one after another, and
    /// returns their ids: the number of vectors stored before, and on from
    /// there. Where `x` is not `n` vectors long, nothing is added.
    pub fn add_raw(&mut self, n: usize, x: &[u8]) -> (r: Result<Box<[i64]>, CustomErrors>)
        requires
            old(self).wf(),
            room_for(old(self)@.len(), n as nat),
        ensures
            final(self).wf(),
            final(self).width() == old(self).width(),
            final(self).metric() == old(self).metric(),
            r is Ok <==> x.len() == n * old(self).width(),
            r matches Ok(ids) ==> ids@ == id_range(old(self)@.len(), n as nat) && final(self)@
                == old(self)@ + vectors_of(x@, old(self).width(), n as nat),
            r matches Err(e) ==> final(self)@ == old(self)@ && is_size_mismatch(
                e,
                (n * old(self).width()) as nat,
                x.len() as nat,
            ),
    {
        match self.vec_size_check(n, x) {
            Err(e) => {
                return Err(e);
            },
            Ok(()) => {},
        }
        let mut chunks = cast_slice_to::<ChunkT>(x);
        let first = self.count;
        let ghost size = size_of::<ChunkT>() as int;
        let ghost per_vec = self.chunks_per_vec as int;
        let ghost width = self.vector_bytes as nat;
        let ghost data = self.data@;
        let ghost vectors = self.vectors@;
        proof {
            assert(x.len() == (n * per_vec) * size) by (nonlinear_arith)
                requires
                    x.len() == n * width,
                    per_vec * size == width,
            ;
            vstd::arithmetic::div_mod::lemma_div_by_multiple(n * per_vec, size);
            assert(0 <= n * per_vec) by (nonlinear_arith)
                requires
                    n >= 0,
                    per_vec >= 0,
            ;
            lemma_stores_appended(data, chunks@, per_vec, vectors, x@, width, n as nat);
            assert((first + n) * per_vec == first * per_vec + n * per_vec) by (nonlinear_arith);
        }
        self.data.append(&mut chunks);
        self.count = first + n;
        self.vectors = Ghost(vectors + vectors_of(x@, width, n as nat));
        let mut ids: Vec<i64> = Vec::with_capacity(n);
        while ids.len() < n
            invariant
                ids.len() <= n,
                first + n <= i64::MAX,
                first + n <= usize::MAX,
                ids@ == id_range(first as nat, ids.len() as nat),
            decreases n - ids.len(),
        {
            ids.push((first + ids.len()) as i64);
            assert(ids@ =~= id_range(first as nat, ids.len() as nat));
        }
        Ok(into_boxed_slice(ids))
    }

    /// The distance from the search vector `query`, whose chunks are
    /// `chunks`, to the stored vector `id`, whose chunks start at `offset`.
    fn distance_to(&self, id: usize, offset: usize, chunks: &[ChunkT], Ghost(query): Ghost<
        Seq<u8>,
    >) -> (distance: u32)
        requires
            self.wf(),
            id < self@.len(),
            offset == id * self.chunks_per_vec,
            chunks.len() == self.chunks_per_vec,
            query.len() == self.width(),
            holds_bytes(chunks@, 0, chunks.len() as int, query),
        ensures
            distance == hamming(self@[id as int], query),
            distance <= i32::MAX,
            offset + self.chunks_per_vec <= self.data.len(),
    {
        let ghost per_vec = self.chunks_per_vec as int;
        let ghost size = size_of::<ChunkT>() as int;
        let ghost vector = self.vectors@[id as int];
        proof {
            assert((id + 1) * per_vec <= self.count * per_vec && (id + 1) * per_vec == id
                * per_vec + per_vec) by (nonlinear_arith)
                requires
                    0 <= id < self.count,
                    per_vec >= 0,
            ;
        }
        let stored = vstd::slice::slice_subrange(
            self.data.as_slice(),
            offset,
            offset + self.chunks_per_vec,
        );
        proof {
            assert(stores(self.data@, per_vec, self.vectors@, id as int));
            assert forall|j: int| 0 <= j < per_vec implies #[trigger] encodes(
                stored@,
                0,
                vector,
                j,
            ) by {
                assert(encodes(self.data@, id * per_vec, vector, j));
            }
            lemma_chunks_distance(stored@, chunks@, vector, query, per_vec, per_vec);
            assert(size * per_vec == per_vec * size) by (nonlinear_arith);
            lemma_hamming_bound(vector, query);
        }
        self.distance_metric.call(stored, chunks)
    }
}

impl<ChunkT: VecChunk> Index for IndexBinaryChunked<ChunkT> {
    open spec fn valid(&self) -> bool {
        self.wf()
    }

    open spec fn vector_bytes(&self) -> nat {
        self.width()
    }

    open spec fn vectors(&self) -> Seq<Seq<u8>> {
        self@
    }

    fn add(&mut self, vector: &[u8]) -> (r: Result<Box<[i64]>, CustomErrors>) {
        let r = self.add_raw(1, vector);
        proof {
            if r is Ok {
                assert(id_range(old(self)@.len(), 1) =~= seq![old(self)@.len() as i64]);
                assert(vector@.subrange(0, old(self).width() as int) =~= vector@);
                assert(vectors_of(vector@, old(self).width(), 1) =~= seq![vector@]);
                assert(old(self)@ + seq![vector@] =~= old(self)@.push(vector@));
            }
        }
        r
    }

    fn search(&self, search_vec: &[u8], k: usize) -> (r: Result<Vec<SearchResult>, CustomErrors>) {
        match self.vec_size_check(1, search_vec) {
            Err(e) => {
                return Err(e);
            },
            Ok(()) => {},
        }
        let chunks = cast_slice_to::<ChunkT>(search_vec);
        let ghost dists = distances(self@, search_vec@);
        proof {
            vstd::arithmetic::div_mod::lemma_div_by_multiple(
                self.chunks_per_vec as int,
                size_of::<ChunkT>() as int,
            );
        }
        let mut best = TopK::new(k);
        let mut offset: usize = 0;
        let mut id: usize = 0;
        assert(0 * self.chunks_per_vec == 0) by (nonlinear_arith);
        while id < self.count
            invariant
                self.wf(),
                id <= self.count,
                offset == id * self.chunks_per_vec,
                chunks.len() == self.chunks_per_vec,
                search_vec.len() == self.width(),
                holds_bytes(chunks@, 0, chunks.len() as int, search_vec@),
                dists == distances(self@, search_vec@),
                best.holds(dists, id as int),
                best.limit() == k,
            decreases self.count - id,
        {
            let distance = self.distance_to(id, offset, chunks.as_slice(), Ghost(search_vec@));
            best.offer(SearchResult { id: id as i64, distance: distance as i32 }, Ghost(dists));
            assert((id + 1) * self.chunks_per_vec == id * self.chunks_per_vec
                + self.chunks_per_vec) by (nonlinear_arith);
            offset += self.chunks_per_vec;
            id += 1;
        }
        Ok(best.into_sorted(Ghost(dists)))
    }

    fn search_range(&self, search_vec: &[u8], radius: usize) -> (r: Result<
        Vec<SearchResult>,
        CustomErrors,
    >) {
        match self.vec_size_check(1, search_vec) {
            Err(e) => {
                return Err(e);
            },
            Ok(()) => {},
        }
        let chunks = cast_slice_to::<ChunkT>(search_vec);
        let ghost dists = distances(self@, search_vec@);
        proof {
            vstd::arithmetic::div_mod::lemma_div_by_multiple(
                self.chunks_per_vec as int,
                size_of::<ChunkT>() as int,
            );
        }
        let mut result: Vec<SearchResult> = Vec::new();
        let mut offset: usize = 0;
        let mut id: usize = 0;
        assert(0 * self.chunks_per_vec == 0) by (nonlinear_arith);
        while id < self.count
            invariant
                self.wf(),
                id <= self.count,
                offset == id * self.chunks_per_vec,
                chunks.len() == self.chunks_per_vec,
                search_vec.len() == self.width(),
                holds_bytes(chunks@, 0, chunks.len() as int, search_vec@),
                dists == distances(self@, search_vec@),
                result@ == within_radius(dists, radius as int, id as int),
            decreases self.count - id,
        {
            let distance = self.distance_to(id, offset, chunks.as_slice(), Ghost(search_vec@));
            if distance as u64 <= radius as u64 {
                result.push(SearchResult { id: id as i64, distance: distance as i32 });
            }
            assert((id + 1) * self.chunks_per_vec == id * self.chunks_per_vec
                + self.chunks_per_vec) by (nonlinear_arith);
            offset += self.chunks_per_vec;
            id += 1;
        }
        Ok(result)
    }
}

/// The widest chunk, in bytes, that divides a vector of `vector_bytes` bytes
/// evenly: eight, four, two or one.
pub open spec fn widest_chunk(vector_bytes: nat) -> nat {
    if vector_bytes % 8 == 0 {
        8
    } else if vector_bytes % 4 == 0 {
        4
    } else if vector_bytes % 2 == 0 {
        2
    } else {
        1
    }
}

/// An index of binary vectors, with the chunk width chosen once for the
/// vector width.
pub enum IndexBinary {
    IndexBinaryStd8(IndexBinaryChunked<u8>),
    IndexBinaryStd16(IndexBinaryChunked<u16>),
    IndexBinaryStd32(IndexBinaryChunked<u32>),
    IndexBinaryStd64(IndexBinaryChunked<u64>),
}

impl View for IndexBinary {
    type V = Seq<Seq<u8>>;

    /// The stored vectors, each as its bytes, by id.
    open spec fn view(&self) -> Seq<Seq<u8>> {
        match self {
            IndexBinary::IndexBinaryStd8(index) => index@,
            IndexBinary::IndexBinaryStd16(index) => index@,
            IndexBinary::IndexBinaryStd32(index) => index@,
            IndexBinary::IndexBinaryStd64(index) => index@,
        }
    }
}

impl IndexBinary {
    /// What holds of every index.
    pub open spec fn wf(&self) -> bool {
        match self {
            IndexBinary::IndexBinaryStd8(index) => index.wf(),
            IndexBinary::IndexBinaryStd16(index) => index.wf(),
            IndexBinary::IndexBinaryStd32(index) => index.wf(),
            IndexBinary::IndexBinaryStd64(index) => index.wf(),
        }
    }

    /// The number of bytes of each vector.
    pub open spec fn width(&self) -> nat {
        match self {
            IndexBinary::IndexBinaryStd8(index) => index.width(),
            IndexBinary::IndexBinaryStd16(index) => index.width(),
            IndexBinary::IndexBinaryStd32(index) => index.width(),
            IndexBinary::IndexBinaryStd64(index) => index.width(),
        }
    }

    /// The metric by which the index compares.
    pub open spec fn metric(&self) -> DistanceMetric {
        match self {
            IndexBinary::IndexBinaryStd8(index) => index.metric(),
            IndexBinary::IndexBinaryStd16(index) => index.metric(),
            IndexBinary::IndexBinaryStd32(index) => index.metric(),
            IndexBinary::IndexBinaryStd64(index) => index.metric(),
        }
    }

    /// The number of bytes of each chunk.
    pub open spec fn chunk_bytes(&self) -> nat {
        match self {
            IndexBinary::IndexBinaryStd8(_) => 1,
            IndexBinary::IndexBinaryStd16(_) => 2,
            IndexBinary::IndexBinaryStd32(_) => 4,
            IndexBinary::IndexBinaryStd64(_) => 8,
        }
    }

    /// An empty index for vectors of `vec_dims` bits, that is `vec_dims / 8`
    /// bytes, held in the widest chunks that divide a vector evenly.
    pub fn new(vec_dims: u32, metric: DistanceMetric) -> (index: Self)
        requires
            vec_dims <= i32::MAX,
        ensures
            index.wf(),
            index@ == Seq::<Seq<u8>>::empty(),
            index.width() == vec_dims / 8,
            index.metric() == metric,
            index.chunk_bytes() == widest_chunk((vec_dims / 8) as nat),
    {
        let vector_bytes = vec_dims / 8;
        if vector_bytes % 8 == 0 {
            IndexBinary::IndexBinaryStd64(IndexBinaryChunked::new(vector_bytes, metric))
        } else if vector_bytes % 4 == 0 {
            IndexBinary::IndexBinaryStd32(IndexBinaryChunked::new(vector_bytes, metric))
        } else if vector_bytes % 2 == 0 {
            IndexBinary::IndexBinaryStd16(IndexBinaryChunked::new(vector_bytes, metric))
        } else {
            IndexBinary::IndexBinaryStd8(IndexBinaryChunked::new(vector_bytes, metric))
        }
    }

    /// The number of vectors stored.
    pub fn len(&self) -> (n: usize)
        requires
            self.wf(),
        ensures
            n == self@.len(),
    {
        match self {
            IndexBinary::IndexBinaryStd8(index) => index.len(),
            IndexBinary::IndexBinaryStd16(index) => index.len(),
            IndexBinary::IndexBinaryStd32(index) => index.len(),
            IndexBinary::IndexBinaryStd64(index) => index.len(),
        }
    }
}

impl Index for IndexBinary {
    open spec fn valid(&self) -> bool {
        self.wf()
    }

    open spec fn vector_bytes(&self) -> nat {
        self.width()
    }

    open spec fn vectors(&self) -> Seq<Seq<u8>> {
        self@
    }

    fn add(&mut self, vector: &[u8]) -> (r: Result<Box<[i64]>, CustomErrors>) {
        match self {
            IndexBinary::IndexBinaryStd8(index) => index.add(vector),
            IndexBinary::IndexBinaryStd16(index) => index.add(vector),
            IndexBinary::IndexBinaryStd32(index) => index.add(vector),
            IndexBinary::IndexBinaryStd64(index) => index.add(vector),
        }
    }

    fn search(&self, search_vec: &[u8], k: usize) -> (r: Result<Vec<SearchResult>, CustomErrors>) {
        match self {
            IndexBinary::IndexBinaryStd8(index) => index.search(search_vec, k),
            IndexBinary::IndexBinaryStd16(index) => index.search(search_vec, k),
            IndexBinary::IndexBinaryStd32(index) => index.search(search_vec, k),
            IndexBinary::IndexBinaryStd64(index) => index.search(search_vec, k),
        }
    }

    fn search_range(&self, search_vec: &[u8], radius: usize) -> (r: Result<
        Vec<SearchResult>,
        CustomErrors,
    >) {
        match self {
            IndexBinary::IndexBinaryStd8(index) => index.search_range(search_vec, radius),
            IndexBinary::IndexBinaryStd16(index) => index.search_range(search_vec, radius),
            IndexBinary::IndexBinaryStd32(index) => index.search_range(search_vec, radius),
            IndexBinary::IndexBinaryStd64(index) => index.search_range(search_vec, radius),
        }
    }
}

} // verus!
