use binvec::error::CustomErrors;
use binvec::indexing::binary_index::{IndexBinary, IndexBinaryChunked};
use binvec::indexing::distance_metrics::DistanceMetric;
use binvec::indexing::index::{Index, SearchResult, Vector};

struct HashIndex {
    id: i64,
    data: [u8; 64],
}

impl Vector for HashIndex {
    fn id(&self) -> i64 {
        self.id
    }

    fn as_bytes(&self) -> &[u8] {
        &self.data
    }
}

fn index_of(vectors: &[HashIndex]) -> IndexBinary {
    let mut idx = IndexBinary::new(512, DistanceMetric::Hamming);
    for v in vectors {
        idx.add(v.as_bytes()).unwrap();
    }
    idx
}

fn two_vectors() -> IndexBinary {
    let mut data2 = [0; 64];
    data2[0] = 1;
    index_of(&[HashIndex { id: 1, data: [0; 64] }, HashIndex { id: 2, data: data2 }])
}

#[test]
fn search() {
    let idx = two_vectors();
    let res = idx.search(&[0; 64], 2).unwrap();

    assert!(res.len() == 2);
    assert_eq!(res[0].id, 0);
    assert_eq!(res[1].id, 1);
    assert_eq!(res[0].distance, 0);
    assert_eq!(res[1].distance, 1);
}

#[test]
fn search_range() {
    let idx = two_vectors();
    let res = idx.search_range(&[0; 64], 1).unwrap();
    assert!(res.len() == 2);
}

#[test]
fn vector_ids_are_the_callers_own() {
    let v = HashIndex { id: 7, data: [3; 64] };
    assert_eq!(v.id(), 7);
    assert_eq!(v.as_bytes().len(), 64);
}

#[test]
fn sixty_four_bytes_are_held_in_eight_byte_chunks() {
    let idx = IndexBinary::new(512, DistanceMetric::Hamming);
    assert!(matches!(idx, IndexBinary::IndexBinaryStd64(_)));
    assert_eq!(idx.len(), 0);
}

#[test]
fn chunk_width_is_the_widest_that_divides_the_vector() {
    assert!(matches!(IndexBinary::new(64, DistanceMetric::Hamming), IndexBinary::IndexBinaryStd64(_)));
    assert!(matches!(IndexBinary::new(96, DistanceMetric::Hamming), IndexBinary::IndexBinaryStd32(_)));
    assert!(matches!(IndexBinary::new(48, DistanceMetric::Hamming), IndexBinary::IndexBinaryStd16(_)));
    assert!(matches!(IndexBinary::new(24, DistanceMetric::Hamming), IndexBinary::IndexBinaryStd8(_)));
    assert!(matches!(IndexBinary::new(8, DistanceMetric::Hamming), IndexBinary::IndexBinaryStd8(_)));
}

#[test]
fn range_search_returns_both_vectors_with_their_distances() {
    let idx = two_vectors();
    let res = idx.search_range(&[0; 64], 1).unwrap();
    assert_eq!(res.len(), 2);
    assert!(res.contains(&SearchResult { id: 0, distance: 0 }));
    assert!(res.contains(&SearchResult { id: 1, distance: 1 }));
}

#[test]
fn range_search_leaves_out_what_is_farther() {
    let idx = two_vectors();
    let res = idx.search_range(&[0; 64], 0).unwrap();
    assert_eq!(res, vec![SearchResult { id: 0, distance: 0 }]);
}

#[test]
fn range_search_takes_a_radius_beyond_any_distance() {
    let idx = two_vectors();
    let res = idx.search_range(&[0; 64], usize::MAX).unwrap();
    assert_eq!(res.len(), 2);
}

#[test]
fn a_payload_of_the_wrong_length_is_refused_and_nothing_is_stored() {
    let mut idx = IndexBinary::new(512, DistanceMetric::Hamming);
    let r = idx.add(&[0u8; 32]);
    match r {
        Err(CustomErrors::InvalidArguments(text)) => {
            assert_eq!(text, "Expected 64 bytes, got 32");
        }
        _ => panic!("a size mismatch was due"),
    }
    assert_eq!(idx.len(), 0);
    assert_eq!(idx.search(&[0; 64], 10).unwrap().len(), 0);
}

#[test]
fn a_search_vector_of_the_wrong_length_is_refused() {
    let idx = two_vectors();
    assert!(matches!(idx.search(&[0; 63], 2), Err(CustomErrors::InvalidArguments(_))));
    assert!(matches!(idx.search_range(&[0; 65], 2), Err(CustomErrors::InvalidArguments(_))));
}

#[test]
fn ids_are_given_in_the_order_of_insertion() {
    let mut idx = IndexBinaryChunked::<u64>::new(8, DistanceMetric::Hamming);
    let first = idx.add_raw(3, &[0u8; 24]).unwrap();
    assert_eq!(&*first, &[0i64, 1, 2]);
    let second = idx.add_raw(2, &[1u8; 16]).unwrap();
    assert_eq!(&*second, &[3i64, 4]);
    assert_eq!(idx.len(), 5);
    let one = idx.add(&[2u8; 8]).unwrap();
    assert_eq!(&*one, &[5i64]);
}

#[test]
fn a_batch_of_the_wrong_length_adds_nothing() {
    let mut idx = IndexBinaryChunked::<u32>::new(4, DistanceMetric::Hamming);
    idx.add_raw(2, &[0u8; 8]).unwrap();
    match idx.add_raw(3, &[0u8; 8]) {
        Err(CustomErrors::InvalidArguments(text)) => {
            assert_eq!(text, "Expected 12 bytes, got 8");
        }
        _ => panic!("a size mismatch was due"),
    }
    assert_eq!(idx.len(), 2);
    assert!(idx.vec_size_check(2, &[0u8; 8]).is_ok());
    assert!(idx.vec_size_check(0, &[]).is_ok());
}

#[test]
fn search_returns_as_many_as_are_stored_up_to_k() {
    let idx = two_vectors();
    assert_eq!(idx.search(&[0; 64], 0).unwrap().len(), 0);
    assert_eq!(idx.search(&[0; 64], 1).unwrap(), vec![SearchResult { id: 0, distance: 0 }]);
    assert_eq!(idx.search(&[0; 64], 5).unwrap().len(), 2);
    assert_eq!(idx.search(&[0; 64], usize::MAX).unwrap().len(), 2);
}

#[test]
fn search_orders_by_distance_and_then_by_id() {
    let mut idx = IndexBinaryChunked::<u8>::new(1, DistanceMetric::Hamming);
    // distances from 0: 8, 1, 2, 1, 0, 2, 1
    idx.add_raw(7, &[0xff, 0x01, 0x03, 0x80, 0x00, 0x30, 0x10]).unwrap();
    let res = idx.search(&[0x00], 5).unwrap();
    assert_eq!(
        res,
        vec![
            SearchResult { id: 4, distance: 0 },
            SearchResult { id: 1, distance: 1 },
            SearchResult { id: 3, distance: 1 },
            SearchResult { id: 6, distance: 1 },
            SearchResult { id: 2, distance: 2 },
        ]
    );
    let all = idx.search(&[0x00], 7).unwrap();
    assert_eq!(all.len(), 7);
    assert_eq!(all[5], SearchResult { id: 5, distance: 2 });
    assert_eq!(all[6], SearchResult { id: 0, distance: 8 });
}

#[test]
fn every_chunk_width_gives_the_same_distances() {
    let mut bytes = Vec::new();
    for i in 0..40u32 {
        for j in 0..8u32 {
            bytes.push((i.wrapping_mul(37) ^ j.wrapping_mul(101) ^ (i * j)) as u8);
        }
    }
    let query = [0x5au8, 0x00, 0xff, 0x13, 0x80, 0x01, 0x7e, 0xc3];
    let mut wide = IndexBinaryChunked::<u64>::new(8, DistanceMetric::Hamming);
    let mut half = IndexBinaryChunked::<u32>::new(8, DistanceMetric::Hamming);
    let mut short = IndexBinaryChunked::<u16>::new(8, DistanceMetric::Hamming);
    let mut narrow = IndexBinaryChunked::<u8>::new(8, DistanceMetric::Hamming);
    wide.add_raw(40, &bytes).unwrap();
    half.add_raw(40, &bytes).unwrap();
    short.add_raw(40, &bytes).unwrap();
    narrow.add_raw(40, &bytes).unwrap();
    let expected = narrow.search(&query, 40).unwrap();
    assert_eq!(expected.len(), 40);
    for (id, r) in narrow.search_range(&query, 64).unwrap().iter().enumerate() {
        let v = &bytes[id * 8..id * 8 + 8];
        let d: u32 = v.iter().zip(query.iter()).map(|(a, b)| (a ^ b).count_ones()).sum();
        assert_eq!(r.id, id as i64);
        assert_eq!(r.distance, d as i32);
    }
    assert_eq!(wide.search(&query, 40).unwrap(), expected);
    assert_eq!(half.search(&query, 40).unwrap(), expected);
    assert_eq!(short.search(&query, 40).unwrap(), expected);
    assert_eq!(wide.search(&query, 7).unwrap(), expected[..7].to_vec());
    for i in 1..expected.len() {
        let (a, b) = (&expected[i - 1], &expected[i]);
        assert!(a.distance < b.distance || (a.distance == b.distance && a.id < b.id));
    }
}

#[test]
fn the_bytes_of_a_chunk_are_read_least_significant_first() {
    // With any one byte order in both the stored vector and the search
    // vector, a bit set in byte 0 differs from a bit set in byte 7.
    let mut idx = IndexBinaryChunked::<u64>::new(8, DistanceMetric::Hamming);
    idx.add(&[1, 0, 0, 0, 0, 0, 0, 0]).unwrap();
    assert_eq!(idx.search(&[1, 0, 0, 0, 0, 0, 0, 0], 1).unwrap()[0].distance, 0);
    assert_eq!(idx.search(&[0, 0, 0, 0, 0, 0, 0, 1], 1).unwrap()[0].distance, 2);
    assert_eq!(idx.search(&[0xff; 8], 1).unwrap()[0].distance, 63);
}

#[test]
fn vectors_of_more_than_ten_chunks_are_compared_in_full() {
    let mut idx = IndexBinaryChunked::<u8>::new(12, DistanceMetric::Hamming);
    idx.add(&[0u8; 12]).unwrap();
    idx.add(&[0xffu8; 12]).unwrap();
    let res = idx.search(&[0x0fu8; 12], 2).unwrap();
    assert_eq!(res[0], SearchResult { id: 0, distance: 48 });
    assert_eq!(res[1], SearchResult { id: 1, distance: 48 });
    let far = idx.search(&[0u8; 12], 2).unwrap();
    assert_eq!(far[1], SearchResult { id: 1, distance: 96 });
}

#[test]
fn vectors_without_bytes_are_all_at_distance_zero() {
    let mut idx = IndexBinary::new(0, DistanceMetric::Hamming);
    assert_eq!(&*idx.add(&[]).unwrap(), &[0i64]);
    assert_eq!(&*idx.add(&[]).unwrap(), &[1i64]);
    assert_eq!(idx.len(), 2);
    assert_eq!(
        idx.search(&[], 3).unwrap(),
        vec![SearchResult { id: 0, distance: 0 }, SearchResult { id: 1, distance: 0 }]
    );
}

#[test]
fn eight_callers_in_turn_get_a_thousand_distinct_ids() {
    let idx = std::sync::Arc::new(tokio::sync::RwLock::new(IndexBinary::new(
        512,
        DistanceMetric::Hamming,
    )));
    let runtime = tokio::runtime::Builder::new_multi_thread().worker_threads(4).build().unwrap();
    let mut ids: Vec<i64> = runtime.block_on(async {
        let mut tasks = Vec::new();
        for caller in 0..8u8 {
            let idx = idx.clone();
            tasks.push(tokio::spawn(async move {
                let mut mine = Vec::new();
                for _ in 0..125 {
                    let mut guard = idx.write().await;
                    mine.extend_from_slice(&guard.add(&[caller; 64]).unwrap());
                    drop(guard);
                    tokio::task::yield_now().await;
                }
                mine
            }));
        }
        let mut all = Vec::new();
        for task in tasks {
            all.extend(task.await.unwrap());
        }
        all
    });
    ids.sort();
    assert_eq!(ids, (0..1000).collect::<Vec<i64>>());
    assert_eq!(runtime.block_on(idx.read()).len(), 1000);
}

#[test]
fn an_empty_index_finds_nothing() {
    let idx = IndexBinary::new(512, DistanceMetric::Hamming);
    assert_eq!(idx.search(&[0; 64], 3).unwrap(), vec![]);
    assert_eq!(idx.search_range(&[0; 64], 512).unwrap(), vec![]);
}

#[test]
fn the_nearest_of_many_are_found_whatever_k() {
    let mut idx = IndexBinaryChunked::<u16>::new(2, DistanceMetric::Hamming);
    let mut bytes = Vec::new();
    for i in 0..300u32 {
        let v = (i.wrapping_mul(2654435761) >> 13) as u16;
        bytes.extend_from_slice(&v.to_le_bytes());
    }
    idx.add_raw(300, &bytes).unwrap();
    let query = [0x3cu8, 0xa5];
    let mut expected: Vec<SearchResult> = (0..300usize)
        .map(|i| {
            let d = (bytes[2 * i] ^ query[0]).count_ones() + (bytes[2 * i + 1] ^ query[1]).count_ones();
            SearchResult { id: i as i64, distance: d as i32 }
        })
        .collect();
    expected.sort_by_key(|r| (r.distance, r.id));
    for k in [1usize, 2, 3, 7, 16, 100, 299, 300, 301] {
        let found = idx.search(&query, k).unwrap();
        assert_eq!(found, expected[..k.min(300)].to_vec());
    }
    let within: Vec<SearchResult> = idx.search_range(&query, 5).unwrap();
    let mut by_id: Vec<SearchResult> = expected.iter().filter(|r| r.distance <= 5).cloned().collect();
    by_id.sort_by_key(|r| r.id);
    assert_eq!(within, by_id);
}
