use binvec::indexing::distance_metrics::{
    distance_const, distance_dyn, DistanceMetric, DistanceMetricFn, VecChunk,
};

#[test]
fn one_to_ten_chunks_resolve_to_a_fixed_trip_count() {
    assert_eq!(DistanceMetric::Hamming.into_fn(1), DistanceMetricFn::Hamming1);
    assert_eq!(DistanceMetric::Hamming.into_fn(2), DistanceMetricFn::Hamming2);
    assert_eq!(DistanceMetric::Hamming.into_fn(3), DistanceMetricFn::Hamming3);
    assert_eq!(DistanceMetric::Hamming.into_fn(4), DistanceMetricFn::Hamming4);
    assert_eq!(DistanceMetric::Hamming.into_fn(5), DistanceMetricFn::Hamming5);
    assert_eq!(DistanceMetric::Hamming.into_fn(6), DistanceMetricFn::Hamming6);
    assert_eq!(DistanceMetric::Hamming.into_fn(7), DistanceMetricFn::Hamming7);
    assert_eq!(DistanceMetric::Hamming.into_fn(8), DistanceMetricFn::Hamming8);
    assert_eq!(DistanceMetric::Hamming.into_fn(9), DistanceMetricFn::Hamming9);
    assert_eq!(DistanceMetric::Hamming.into_fn(10), DistanceMetricFn::Hamming10);
}

#[test]
fn other_lengths_resolve_to_the_loop_over_the_operands() {
    assert_eq!(DistanceMetric::Hamming.into_fn(0), DistanceMetricFn::HammingDyn);
    assert_eq!(DistanceMetric::Hamming.into_fn(11), DistanceMetricFn::HammingDyn);
    assert_eq!(DistanceMetric::Hamming.into_fn(usize::MAX), DistanceMetricFn::HammingDyn);
}

#[test]
fn distance_is_the_number_of_differing_bits() {
    assert_eq!(distance_dyn::<u8>(&[0xff, 0x00], &[0x0f, 0x01]), 5);
    assert_eq!(distance_const::<2, u8>(&[0xff, 0x00], &[0x0f, 0x01]), 5);
    assert_eq!(distance_dyn::<u64>(&[u64::MAX], &[0]), 64);
    assert_eq!(distance_const::<1, u32>(&[0x8000_0001], &[0]), 2);
    assert_eq!(distance_dyn::<u16>(&[], &[]), 0);
}

#[test]
fn a_fixed_trip_count_reads_no_further() {
    assert_eq!(distance_const::<1, u8>(&[0x00, 0xff], &[0x00, 0x00]), 0);
    assert_eq!(DistanceMetricFn::Hamming1.call::<u8>(&[0x01, 0xff], &[0x00, 0x00]), 1);
}

#[test]
fn fixed_and_variable_loops_agree() {
    let a: Vec<u16> = (0..10u16).map(|i| i.wrapping_mul(0x1357) ^ 0xa5a5).collect();
    let b: Vec<u16> = (0..10u16).map(|i| i.wrapping_mul(0x2468) ^ 0x0ff0).collect();
    let expected: u32 = a.iter().zip(b.iter()).map(|(x, y)| (x ^ y).count_ones()).sum();
    assert_eq!(distance_dyn(&a, &b), expected);
    assert_eq!(distance_const::<10, u16>(&a, &b), expected);
    assert_eq!(DistanceMetric::Hamming.into_fn(10).call(&a, &b), expected);
    assert_eq!(DistanceMetricFn::HammingDyn.call(&a, &b), expected);
    for n in 1..=10usize {
        let part: u32 = a[..n].iter().zip(b[..n].iter()).map(|(x, y)| (x ^ y).count_ones()).sum();
        assert_eq!(DistanceMetric::Hamming.into_fn(n).call(&a[..n], &b[..n]), part);
    }
}

#[test]
fn distance_is_symmetric_zero_on_itself_and_bounded() {
    let a = [0x0123_4567_89ab_cdefu64, 0, u64::MAX, 0x8000_0000_0000_0001];
    let b = [0xfedc_ba98_7654_3210u64, u64::MAX, u64::MAX, 1];
    let f = DistanceMetric::Hamming.into_fn(4);
    assert_eq!(f.call(&a, &b), f.call(&b, &a));
    assert_eq!(f.call(&a, &a), 0);
    assert_eq!(f.call(&b, &b), 0);
    assert!(f.call(&a, &b) <= 8 * 32);
    assert_eq!(f.call(&a, &b), 64 + 64 + 0 + 1);
    assert_eq!(f.call(&[0u64; 4], &[u64::MAX; 4]), 8 * 32);
}

#[test]
fn count_ones_counts_the_ones() {
    assert_eq!(VecChunk::count_ones(0xf0u8), 4);
    assert_eq!(VecChunk::count_ones(0x8001u16), 2);
    assert_eq!(VecChunk::count_ones(0xffff_0000u32), 16);
    assert_eq!(VecChunk::count_ones(u64::MAX), 64);
    assert_eq!(VecChunk::count_ones(0u64), 0);
    assert_eq!(VecChunk::count_ones(3u8), 2);
}

#[test]
fn chunks_are_read_least_significant_byte_first() {
    let bytes = [0x01u8, 0x02, 0x03, 0x04, 0x05, 0x06, 0x07, 0x08, 0x09];
    assert_eq!(<u8 as VecChunk>::read_le(&bytes, 2), 0x03);
    assert_eq!(<u16 as VecChunk>::read_le(&bytes, 0), 0x0201);
    assert_eq!(<u32 as VecChunk>::read_le(&bytes, 1), 0x0504_0302);
    assert_eq!(<u64 as VecChunk>::read_le(&bytes, 0), 0x0807_0605_0403_0201);
    assert_eq!(<u64 as VecChunk>::read_le(&bytes, 1), 0x0908_0706_0504_0302);
    assert_eq!(<u64 as VecChunk>::read_le(&bytes, 1), u64::from_le_bytes([2, 3, 4, 5, 6, 7, 8, 9]));
}
