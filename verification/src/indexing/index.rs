//! What every index offers, and the shape of what a search returns.
use crate::error::{is_size_mismatch, CustomErrors};
use crate::indexing::hamming::{hamming, lemma_hamming_bound};
use crate::indexing::top_k::{is_top_k, listed};
use core::cmp::Ordering;
use vstd::prelude::*;

verus! {

/// A vector that can be added to an index.
pub trait Vector: Send {
    /// The identifier that the caller knows the vector by.
    fn id(&self) -> i64;

    /// The vector's bytes.
    fn as_bytes(&self) -> &[u8];
}

/// One result of a search: the id of a stored vector and its distance from
/// the search vector.
#[derive(Debug, Clone, Copy, PartialEq, Eq, Hash, Structural)]
pub struct SearchResult {
    pub id: i64,
    pub distance: i32,
}

impl SearchResult {
    /// The order in which results are returned: by ascending distance, and
    /// among equal distances by ascending id.
    pub open spec fn ranks_before(self, other: SearchResult) -> bool {
        self.distance < other.distance || (self.distance == other.distance && self.id < other.id)
    }

    /// Whether `self` comes before `other` in the order of results.
    pub fn is_before(&self, other: &SearchResult) -> (r: bool)
        ensures
            r == self.ranks_before(*other),
    {
        self.distance < other.distance || (self.distance == other.distance && self.id < other.id)
    }
}

impl PartialOrd for SearchResult {
    /// Results compare by distance alone.
    fn partial_cmp(&self, other: &Self) -> (r: Option<Ordering>) {
        if self.distance < other.distance {
            Some(Ordering::Less)
        } else if self.distance == other.distance {
            Some(Ordering::Equal)
        } else {
            Some(Ordering::Greater)
        }
    }
}

impl vstd::std_specs::cmp::PartialOrdSpecImpl for SearchResult {
    open spec fn obeys_partial_cmp_spec() -> bool {
        true
    }

    open spec fn partial_cmp_spec(&self, other: &Self) -> Option<Ordering> {
        if self.distance < other.distance {
            Some(Ordering::Less)
        } else if self.distance == other.distance {
            Some(Ordering::Equal)
        } else {
            Some(Ordering::Greater)
        }
    }
}

/// The `n` vectors of `width` bytes each that `bytes` holds one after
/// another.
pub open spec fn vectors_of(bytes: Seq<u8>, width: nat, n: nat) -> Seq<Seq<u8>> {
    Seq::new(n, |i: int| bytes.subrange(i * width, (i + 1) * width))
}

/// The ids of `n` vectors added when `first` were stored: `first`,
/// `first + 1`, and so on.
pub open spec fn id_range(first: nat, n: nat) -> Seq<i64> {
    Seq::new(n, |i: int| (first + i) as i64)
}

/// The distance of each of `vectors` from `query`, by the vector's id.
pub open spec fn distances(vectors: Seq<Seq<u8>>, query: Seq<u8>) -> Seq<int> {
    Seq::new(vectors.len(), |i: int| hamming(vectors[i], query) as int)
}

/// The results of the vectors `0..n` whose distance is at most `radius`, in
/// ascending order of id.
pub open spec fn within_radius(dists: Seq<int>, radius: int, n: int) -> Seq<SearchResult>
    decreases n,
{
    if n <= 0 {
        Seq::empty()
    } else if dists[n - 1] <= radius {
        within_radius(dists, radius, n - 1).push(
            SearchResult { id: (n - 1) as i64, distance: dists[n - 1] as i32 },
        )
    } else {
        within_radius(dists, radius, n - 1)
    }
}

/// The results within a radius are those of the vectors `0..n` at that
/// distance or less, each once and with its distance.
pub proof fn lemma_within_radius(dists: Seq<int>, radius: int, n: int)
    requires
        0 <= n <= dists.len(),
        n <= i64::MAX,
        forall|i: int| 0 <= i < n ==> 0 <= #[trigger] dists[i] <= i32::MAX,
    ensures
        forall|j: int|
            0 <= j < within_radius(dists, radius, n).len() ==> {
                let r = #[trigger] within_radius(dists, radius, n)[j];
                0 <= r.id < n && r.distance == dists[r.id as int] && r.distance <= radius
            },
        forall|i: int, j: int|
            0 <= i < j < within_radius(dists, radius, n).len() ==> (#[trigger] within_radius(
                dists,
                radius,
                n,
            )[i]).id < (#[trigger] within_radius(dists, radius, n)[j]).id,
        forall|id: int|
            0 <= id < n && dists[id] <= radius ==> #[trigger] listed(
                within_radius(dists, radius, n),
                id,
            ),
    decreases n,
{
    if n > 0 {
        lemma_within_radius(dists, radius, n - 1);
        let before = within_radius(dists, radius, n - 1);
        let res = within_radius(dists, radius, n);
        assert forall|j: int| 0 <= j < res.len() implies {
            let r = #[trigger] res[j];
            0 <= r.id < n && r.distance == dists[r.id as int] && r.distance <= radius
        } by {
            if j < before.len() {
                assert(res[j] == before[j]);
            }
        }
        assert forall|i: int, j: int| 0 <= i < j < res.len() implies (#[trigger] res[i]).id < (
        #[trigger] res[j]).id by {
            assert(res[i] == before[i]);
            if j < before.len() {
                assert(res[j] == before[j]);
            }
        }
        assert forall|id: int| 0 <= id < n && dists[id] <= radius implies #[trigger] listed(
            res,
            id,
        ) by {
            if id < n - 1 {
                assert(listed(before, id));
                let w = choose|w: int| 0 <= w < before.len() && (#[trigger] before[w]).id == id;
                assert(res[w].id == id);
            } else {
                assert(res[before.len() as int].id == id);
            }
        }
    }
}

/// A range search returns exactly the stored vectors at distance `radius`
/// or less from the search vector, each once, with its id and its distance.
pub proof fn lemma_search_range_exact(vectors: Seq<Seq<u8>>, query: Seq<u8>, radius: int)
    requires
        vectors.len() <= i64::MAX,
        forall|i: int| 0 <= i < vectors.len() ==> 8 * (#[trigger] vectors[i]).len() <= i32::MAX,
    ensures
        forall|j: int|
            0 <= j < within_radius(distances(vectors, query), radius, vectors.len() as int).len()
                ==> {
                let r = #[trigger] within_radius(
                    distances(vectors, query),
                    radius,
                    vectors.len() as int,
                )[j];
                0 <= r.id < vectors.len() && r.distance == hamming(vectors[r.id as int], query)
                    && r.distance <= radius
            },
        forall|i: int, j: int|
            0 <= i < j < within_radius(distances(vectors, query), radius, vectors.len() as int).len()
                ==> (#[trigger] within_radius(
                distances(vectors, query),
                radius,
                vectors.len() as int,
            )[i]).id < (#[trigger] within_radius(
                distances(vectors, query),
                radius,
                vectors.len() as int,
            )[j]).id,
        forall|id: int|
            0 <= id < vectors.len() && hamming(vectors[id], query) <= radius ==> #[trigger] listed(
                within_radius(distances(vectors, query), radius, vectors.len() as int),
                id,
            ),
{
    let dists = distances(vectors, query);
    assert forall|i: int| 0 <= i < vectors.len() implies 0 <= #[trigger] dists[i] <= i32::MAX by {
        lemma_hamming_bound(vectors[i], query);
    }
    lemma_within_radius(dists, radius, vectors.len() as int);
}

/// Ids are given in the order of insertion, without gaps and never twice:
/// a batch of `n` vectors added when `stored` were there gets the ids
/// `stored` to `stored + n - 1`, and a batch of `m` added next gets the `m`
/// ids after these.
pub proof fn lemma_ids_of_batches(stored: nat, n: nat, m: nat)
    requires
        stored + n + m <= i64::MAX,
    ensures
        forall|i: int| 0 <= i < n ==> #[trigger] id_range(stored, n)[i] == stored + i,
        forall|j: int| 0 <= j < m ==> #[trigger] id_range(stored + n, m)[j] == stored + n + j,
        id_range(stored, n) + id_range(stored + n, m) == id_range(stored, n + m),
        forall|i: int, j: int|
            0 <= i < j < n + m ==> #[trigger] id_range(stored, n + m)[i] != #[trigger] id_range(
                stored,
                n + m,
            )[j],
{
    assert(id_range(stored, n) + id_range(stored + n, m) =~= id_range(stored, n + m));
}

/// Adding `n` vectors makes the number stored grow by exactly `n` and
/// leaves every vector stored before as it was, under its id.
pub proof fn lemma_added_vectors(before: Seq<Seq<u8>>, x: Seq<u8>, width: nat, n: nat)
    ensures
        (before + vectors_of(x, width, n)).len() == before.len() + n,
        forall|i: int|
            0 <= i < before.len() ==> #[trigger] (before + vectors_of(x, width, n))[i] == before[i],
        forall|i: int|
            0 <= i < n ==> #[trigger] (before + vectors_of(x, width, n))[before.len() + i]
                == x.subrange(i * width, (i + 1) * width),
{
}

/// Whether an index that stores `stored` vectors can give ids to `n` more:
/// an id is an `i64`, and the vectors are counted in a `usize`.
pub open spec fn room_for(stored: nat, n: nat) -> bool {
    stored + n <= i64::MAX && stored + n <= usize::MAX
}

/// What every index offers: vectors are added, and the stored vectors near
/// a search vector are found. A vector's id is the number of vectors that
/// were stored before it.
pub trait Index {
    /// What holds of every index that its constructor returned.
    spec fn valid(&self) -> bool;

    /// The number of bytes of each vector.
    spec fn vector_bytes(&self) -> nat;

    /// The stored vectors, each as its bytes, by id.
    spec fn vectors(&self) -> Seq<Seq<u8>>;

    /// Adds one vector and returns its id. A vector of another length than
    /// the index's is refused, and nothing is added.
    fn add(&mut self, vector: &[u8]) -> (r: Result<Box<[i64]>, CustomErrors>)
        requires
            old(self).valid(),
            room_for(old(self).vectors().len(), 1),
        ensures
            final(self).valid(),
            final(self).vector_bytes() == old(self).vector_bytes(),
            r is Ok <==> vector.len() == old(self).vector_bytes(),
            r matches Ok(ids) ==> ids@ == seq![old(self).vectors().len() as i64],
            r matches Ok(ids) ==> final(self).vectors() == old(self).vectors().push(vector@),
            r matches Err(e) ==> final(self).vectors() == old(self).vectors() && is_size_mismatch(
                e,
                old(self).vector_bytes(),
                vector.len() as nat,
            ),
    ;

    /// The `k` stored vectors nearest to `search_vec`, or all of them where
    /// fewer are stored: nearest first, and among equally near ones the one
    /// stored first. A search vector of another length than the index's is
    /// refused.
    fn search(&self, search_vec: &[u8], k: usize) -> (r: Result<Vec<SearchResult>, CustomErrors>)
        requires
            self.valid(),
        ensures
            r is Ok <==> search_vec.len() == self.vector_bytes(),
            r matches Ok(res) ==> is_top_k(distances(self.vectors(), search_vec@), k as int, res@),
            r matches Err(e) ==> is_size_mismatch(
                e,
                self.vector_bytes(),
                search_vec.len() as nat,
            ),
    ;

    /// The stored vectors at distance `radius` or less from `search_vec`, in
    /// the order in which they were stored. A search vector of another
    /// length than the index's is refused.
    fn search_range(&self, search_vec: &[u8], radius: usize) -> (r: Result<
        Vec<SearchResult>,
        CustomErrors,
    >)
        requires
            self.valid(),
        ensures
            r is Ok <==> search_vec.len() == self.vector_bytes(),
            r matches Ok(res) ==> res@ == within_radius(
                distances(self.vectors(), search_vec@),
                radius as int,
                self.vectors().len() as int,
            ),
            r matches Err(e) ==> is_size_mismatch(
                e,
                self.vector_bytes(),
                search_vec.len() as nat,
            ),
    ;
}

} // verus!
