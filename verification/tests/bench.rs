use erasure_bench::bench::{
    benchmark_encode, benchmark_encode_inplace, benchmark_encode_new_session,
    benchmark_reconstruct, benchmark_verify, byte_count, Measurement, ParallelParam,
    INPLACE_DATA_SHARDS, INPLACE_PARITY_SHARDS, INPLACE_PER_SHARD,
};
use erasure_bench::shards::{fill_random, fill_with, make_random_shards};
use reed_solomon_erasure::ReedSolomon;

fn codec_accepts(data: usize, parity: usize, shards: &Vec<Box<[u8]>>) -> bool {
    ReedSolomon::new(data, parity).unwrap().verify_shards(shards).unwrap()
}

#[test]
fn parallel_param_new_keeps_fields() {
    let p = ParallelParam::new(32768, usize::MAX);
    assert_eq!(p.bytes_per_encode, 32768);
    assert_eq!(p.shards_per_encode, usize::MAX);
}

#[test]
fn byte_count_values() {
    assert_eq!(byte_count(500, 1232, 4), 2_464_000);
    assert_eq!(byte_count(500, 1_048_576, 5), 2_621_440_000);
    assert_eq!(byte_count(0, 1232, 4), 0);
    assert_eq!(byte_count(7, 3, 0), 0);
    assert_eq!(byte_count(3, 10, 1), 30);
}

#[test]
fn elapsed_ns_forward_and_backward() {
    let mut m = Measurement {
        data_shards: 1,
        parity_shards: 1,
        per_shard: 1,
        pparam: ParallelParam::new(1, 1),
        start_ns: 10,
        end_ns: 25,
        byte_count: 0,
    };
    assert_eq!(m.elapsed_ns(), Some(15));
    m.end_ns = 10;
    assert_eq!(m.elapsed_ns(), Some(0));
    m.end_ns = 5;
    assert_eq!(m.elapsed_ns(), None);
}

#[test]
fn random_shards_have_requested_shape() {
    let shards = make_random_shards(33, 6);
    assert_eq!(shards.len(), 6);
    assert!(shards.iter().all(|s| s.len() == 33));
    let empty = make_random_shards(10, 0);
    assert!(empty.is_empty());
}

#[test]
fn fill_random_keeps_length() {
    let mut shard: Box<[u8]> = vec![0u8; 4096].into_boxed_slice();
    fill_random(&mut shard);
    assert_eq!(shard.len(), 4096);
    // 4096 random bytes are all zero with negligible probability
    assert!(shard.iter().any(|b| *b != 0));
}

#[test]
fn encode_produces_parity_the_codec_accepts() {
    let (m, shards) = benchmark_encode(3, 4, 2, 64, ParallelParam::new(16, 4));
    assert_eq!(m.data_shards, 4);
    assert_eq!(m.parity_shards, 2);
    assert_eq!(m.per_shard, 64);
    assert_eq!(m.pparam, ParallelParam::new(16, 4));
    assert_eq!(m.byte_count, 3 * 64 * 4);
    assert_eq!(shards.len(), 6);
    assert!(shards.iter().all(|s| s.len() == 64));
    assert!(codec_accepts(4, 2, &shards));
}

#[test]
fn encode_with_zero_iterations_only_measures() {
    let (m, shards) = benchmark_encode(0, 3, 1, 8, ParallelParam::new(32768, usize::MAX));
    assert_eq!(m.byte_count, 0);
    assert_eq!(shards.len(), 4);
}

#[test]
fn encode_new_session_produces_parity_the_codec_accepts() {
    let (m, shards) = benchmark_encode_new_session(2, 5, 3, 100, ParallelParam::new(32, 1));
    assert_eq!(m.byte_count, 2 * 100 * 5);
    assert_eq!(shards.len(), 8);
    assert!(codec_accepts(5, 3, &shards));
}

#[test]
fn encode_inplace_on_zero_shards() {
    let (m, shards) = benchmark_encode_inplace(1, ParallelParam::new(32768, 4));
    assert_eq!(m.data_shards, INPLACE_DATA_SHARDS);
    assert_eq!(m.parity_shards, INPLACE_PARITY_SHARDS);
    assert_eq!(m.per_shard, INPLACE_PER_SHARD);
    assert_eq!(m.byte_count, INPLACE_PER_SHARD * INPLACE_DATA_SHARDS);
    assert_eq!(shards.len(), 7);
    assert!(shards.iter().all(|s| s.len() == 1_048_576));
    // the code is linear: zero data has zero parity
    assert!(shards.iter().all(|s| s.iter().all(|b| *b == 0)));
    assert!(codec_accepts(5, 2, &shards));
}

#[test]
fn verify_passes_every_time() {
    let (m, shards, all_passed) = benchmark_verify(4, 6, 2, 128, ParallelParam::new(50, 2));
    assert!(all_passed);
    assert_eq!(m.byte_count, 4 * 128 * (6 + 2));
    assert!(codec_accepts(6, 2, &shards));
}

#[test]
fn reconstruct_restores_the_dropped_shard() {
    let (m, slots) = benchmark_reconstruct(3, 4, 2, 200, ParallelParam::new(64, 2));
    assert_eq!(m.byte_count, 3 * 200);
    assert_eq!(slots.len(), 6);
    assert!(slots.iter().all(|s| s.is_some()));
    let shards: Vec<Box<[u8]>> = slots.into_iter().map(|s| s.unwrap()).collect();
    assert!(shards.iter().all(|s| s.len() == 200));
    assert!(codec_accepts(4, 2, &shards));
}

#[test]
fn parity_changes_random_parity_shards() {
    // a fresh random set almost never verifies; an encoded one always does
    let raw = make_random_shards(256, 6);
    assert!(!codec_accepts(4, 2, &raw));
    let (_, encoded) = benchmark_encode(1, 4, 2, 256, ParallelParam::new(32768, 1));
    assert!(codec_accepts(4, 2, &encoded));
}

#[test]
fn fill_with_stores_bytes_in_order() {
    let mut shard: Box<[u8]> = vec![0u8, 0, 0].into_boxed_slice();
    fill_with(&mut shard, &vec![7u8, 200, 7]);
    assert_eq!(&shard[..], &[7u8, 200, 7]);
    let mut empty: Box<[u8]> = Vec::new().into_boxed_slice();
    fill_with(&mut empty, &Vec::new());
    assert!(empty.is_empty());
}
