//! The checks and conversions around a wrapped index of binary vectors: what
//! is decided before its search is called and what is made of the arrays
//! that it fills.
use crate::error::{expected_bytes_message, expected_bytes_text};
use crate::faiss::error::FaissError;
use vstd::prelude::*;

verus! {

/// A vector of a fixed number of bytes that the wrapped index can hold.
pub trait BinaryVector {
    /// The number of bytes of every vector of this type.
    const SIZE: usize;

    /// The identifier that the caller knows the vector by.
    fn id(&self) -> i64;

    /// The vector's bytes.
    fn as_bytes(&self) -> &[u8];
}

/// The results of a search: the ids of the vectors found and, at the same
/// place, the distance of each from the search vector.
#[derive(Debug, Clone, PartialEq, Eq, Hash)]
pub struct SearchResult {
    pub ids: Vec<i64>,
    pub distances: Vec<i32>,
}

/// The first place from `from` on at which `distances` holds -1, the mark of
/// a result that was not found; the length where there is none.
pub open spec fn first_missing(distances: Seq<i32>, from: int) -> int
    decreases distances.len() - from,
{
    if from >= distances.len() || distances[from] == -1 {
        from
    } else {
        first_missing(distances, from + 1)
    }
}

/// Before the first missing result every distance is one that was found, and
/// where the results end early, they end at a missing one.
pub proof fn lemma_first_missing(distances: Seq<i32>, from: int)
    requires
        0 <= from <= distances.len(),
    ensures
        from <= first_missing(distances, from) <= distances.len(),
        forall|i: int| from <= i < first_missing(distances, from) ==> distances[i] != -1,
        first_missing(distances, from) < distances.len() ==> distances[first_missing(
            distances,
            from,
        )] == -1,
    decreases distances.len() - from,
{
    if from < distances.len() && distances[from] != -1 {
        lemma_first_missing(distances, from + 1);
    }
}

impl SearchResult {
    /// The results that the arrays of a search hold: those before the first
    /// distance of -1, with as many ids.
    pub fn new(raw_distances: Vec<i32>, raw_ids: Vec<i64>) -> (result: Self)
        ensures
            result.distances@ == raw_distances@.subrange(0, first_missing(raw_distances@, 0)),
            result.ids@ == (if first_missing(raw_distances@, 0) <= raw_ids.len() {
                raw_ids@.subrange(0, first_missing(raw_distances@, 0))
            } else {
                raw_ids@
            }),
    {
        let mut distances = raw_distances;
        let mut ids = raw_ids;
        let n = distances.len();
        let mut len = n;
        let mut i: usize = 0;
        while i < n
            invariant_except_break
                i <= n,
                len == n,
                first_missing(distances@, 0) == first_missing(distances@, i as int),
            invariant
                n == distances.len(),
                distances@ == raw_distances@,
            ensures
                len == first_missing(raw_distances@, 0),
            decreases n - i,
        {
            if distances[i] == -1 {
                len = i;
                break ;
            }
            i += 1;
        }
        proof {
            lemma_first_missing(raw_distances@, 0);
        }
        distances.truncate(len);
        ids.truncate(len);
        Self { distances, ids }
    }
}

/// Whether `error` says that `got` bytes were given where `expected` were
/// due.
pub open spec fn is_size_mismatch(error: FaissError, expected: nat, got: nat) -> bool {
    error matches FaissError::InvalidArguments(text) && text@ == expected_bytes_text(
        expected,
        got,
    )
}

/// Checks that `x` is a vector of `bytes` bytes.
pub fn check_vector_bytes(bytes: usize, x: &[u8]) -> (r: Result<(), FaissError>)
    ensures
        r is Ok <==> x.len() == bytes,
        r matches Err(e) ==> is_size_mismatch(e, bytes as nat, x.len() as nat),
{
    if x.len() != bytes {
        return Err(FaissError::InvalidArguments(expected_bytes_message(bytes as u128, x.len())));
    }
    Ok(())
}

} // verus!
