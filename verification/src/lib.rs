//! Benchmark driver logic for Reed-Solomon erasure coding, with the
//! combinatorics that rates each shard configuration.
pub mod combinatorics;
pub mod shards;
pub mod codec;
pub mod bench;
pub mod plan;
