use binvec::faiss::binary_index::{check_vector_bytes, BinaryVector, SearchResult as Found};
use binvec::faiss::error::FaissError;
use binvec::indexing::index::SearchResult;

struct HashIndex {
    id: i64,
    data: [u8; 64],
}

impl BinaryVector for HashIndex {
    const SIZE: usize = 64;

    fn id(&self) -> i64 {
        self.id
    }

    fn as_bytes(&self) -> &[u8] {
        &self.data
    }
}

#[test]
fn results_end_at_the_first_missing_one() {
    let found = Found::new(vec![0, 1, -1, 5], vec![1, 2, 3, 4]);
    assert_eq!(found.distances, vec![0, 1]);
    assert_eq!(found.ids, vec![1, 2]);
}

#[test]
fn full_results_are_kept_whole() {
    let found = Found::new(vec![0, 1], vec![1, 2]);
    assert_eq!(found.ids[0], 1);
    assert_eq!(found.ids[1], 2);
    assert_eq!(found.ids.len(), 2);
    assert_eq!(found.distances[0], 0);
    assert_eq!(found.distances[1], 1);
}

#[test]
fn results_may_be_empty() {
    let none = Found::new(vec![-1, 3], vec![9, 8]);
    assert_eq!(none, Found { ids: vec![], distances: vec![] });
    let nothing = Found::new(vec![], vec![]);
    assert!(nothing.ids.is_empty() && nothing.distances.is_empty());
}

#[test]
fn fewer_ids_than_distances_are_left_as_they_are() {
    let found = Found::new(vec![4, 4, 4, -1], vec![7]);
    assert_eq!(found.distances, vec![4, 4, 4]);
    assert_eq!(found.ids, vec![7]);
}

#[test]
fn other_negative_distances_do_not_end_the_results() {
    let found = Found::new(vec![-2, 0, -1], vec![1, 2, 3]);
    assert_eq!(found.distances, vec![-2, 0]);
    assert_eq!(found.ids, vec![1, 2]);
}

#[test]
fn a_vector_of_its_types_size_is_accepted() {
    let v = HashIndex { id: 1, data: [0; 64] };
    assert_eq!(v.id(), 1);
    assert!(check_vector_bytes(HashIndex::SIZE, v.as_bytes()).is_ok());
}

#[test]
fn a_vector_of_another_size_is_refused_with_both_sizes() {
    match check_vector_bytes(64, &[0u8; 3]) {
        Err(FaissError::InvalidArguments(text)) => assert_eq!(text, "Expected 64 bytes, got 3"),
        Ok(()) => panic!("a size mismatch was due"),
    }
    match check_vector_bytes(0, &[0u8; 1200]) {
        Err(FaissError::InvalidArguments(text)) => assert_eq!(text, "Expected 0 bytes, got 1200"),
        Ok(()) => panic!("a size mismatch was due"),
    }
}

#[test]
fn results_compare_by_distance_alone() {
    let near = SearchResult { id: 9, distance: 1 };
    let far = SearchResult { id: 0, distance: 2 };
    let also_near = SearchResult { id: 3, distance: 1 };
    assert!(near < far);
    assert!(far > near);
    assert_eq!(near.partial_cmp(&also_near), Some(std::cmp::Ordering::Equal));
    assert!(near != also_near);
}

#[test]
fn results_rank_by_distance_and_then_by_id() {
    let near = SearchResult { id: 9, distance: 1 };
    let far = SearchResult { id: 0, distance: 2 };
    let also_near = SearchResult { id: 3, distance: 1 };
    assert!(near.is_before(&far));
    assert!(!far.is_before(&near));
    assert!(also_near.is_before(&near));
    assert!(!near.is_before(&also_near));
    assert!(!near.is_before(&near));
}
