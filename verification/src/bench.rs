//! The benchmark runs: each builds shards, drives the codec in a timed loop, and reports
//! what it measured.
use vstd::prelude::*;
use vstd::pervasive::unreached;
use crate::codec::{
    encode_shards, encode_slices, encoded_parity, is_codeword, codeword, new_codec,
    reconstruct_shards, verify_shards,
};
use crate::shards::{
    agrees_with, all_of_size, count_present, make_random_shards, option_shards_fit, option_views,
    present_views, shard_views,
};

verus! {

/// The clock: `time::precise_time_ns`, a high-resolution counter in nanoseconds since an
/// unspecified epoch.  Nothing is promised of its value.
pub assume_specification[ time::precise_time_ns ]() -> u64;

/// Parameters for parallelism: the chunk size in bytes that the codec splits its work into,
/// and a number of shards per unit of work, which is reported but not handed to the codec.
#[derive(Clone, Copy, Debug, PartialEq, Eq)]
pub struct ParallelParam {
    pub bytes_per_encode: usize,
    pub shards_per_encode: usize,
}

impl ParallelParam {
    /// Parameters with the given chunk size and shards per unit of work.
    pub fn new(bytes_per_encode: usize, shards_per_encode: usize) -> (r: ParallelParam)
        ensures
            r.bytes_per_encode == bytes_per_encode,
            r.shards_per_encode == shards_per_encode,
    {
        ParallelParam { bytes_per_encode, shards_per_encode }
    }
}

/// What one benchmark run measured.
#[derive(Clone, Copy, Debug)]
pub struct Measurement {
    pub data_shards: usize,
    pub parity_shards: usize,
    pub per_shard: usize,
    pub pparam: ParallelParam,
    /// The clock before the timed loop.
    pub start_ns: u64,
    /// The clock after the timed loop.
    pub end_ns: u64,
    /// The number of bytes the timed loop processed.
    pub byte_count: usize,
}

impl Measurement {
    /// The time the loop took, or `None` where the clock reads earlier after it than before.
    pub fn elapsed_ns(&self) -> (r: Option<u64>)
        ensures
            r == if self.end_ns >= self.start_ns {
                Some((self.end_ns - self.start_ns) as u64)
            } else {
                None::<u64>
            },
    {
        self.end_ns.checked_sub(self.start_ns)
    }
}

/// `iterations * per_shard * shard_count`: the bytes that `iterations` passes over
/// `shard_count` shards of `per_shard` bytes touch.
pub fn byte_count(iterations: usize, per_shard: usize, shard_count: usize) -> (r: usize)
    requires
        iterations * per_shard * shard_count <= usize::MAX,
    ensures
        r == iterations * per_shard * shard_count,
{
    if shard_count == 0 {
        assert(iterations * per_shard * shard_count == 0) by (nonlinear_arith)
            requires
                shard_count == 0,
        ;
        return 0;
    }
    assert(iterations * per_shard <= iterations * per_shard * shard_count) by (nonlinear_arith)
        requires
            shard_count >= 1,
    ;
    iterations * per_shard * shard_count
}

/// The byte count after one more completed pass: from `i` passes over `shard_count` shards
/// of `per_shard` bytes to `i + 1` passes.
fn add_pass(processed: usize, i: usize, iterations: usize, per_shard: usize, shard_count: usize) -> (r: usize)
    requires
        processed == i * per_shard * shard_count,
        i < iterations,
        iterations * per_shard * shard_count <= usize::MAX,
    ensures
        r == (i + 1) * per_shard * shard_count,
{
    assert((i + 1) * per_shard * shard_count <= iterations * per_shard * shard_count)
        by (nonlinear_arith)
        requires
            i < iterations,
    ;
    assert((i + 1) * per_shard * shard_count == i * per_shard * shard_count + per_shard
        * shard_count) by (nonlinear_arith);
    processed + per_shard * shard_count
}

/// Shards that each kept their length keep a common size.
proof fn lemma_sizes_kept(before: Seq<Box<[u8]>>, after: Seq<Box<[u8]>>, size: nat)
    requires
        all_of_size(shard_views(before), size),
        after.len() == before.len(),
        forall|i: int| 0 <= i < after.len() ==> (#[trigger] after[i])@.len() == before[i]@.len(),
    ensures
        all_of_size(shard_views(after), size),
{
    assert forall|k: int| 0 <= k < shard_views(after).len() implies (#[trigger] shard_views(
        after,
    )[k]).len() == size by {
        assert(after[k]@.len() == before[k]@.len());
        assert(shard_views(before)[k].len() == size);
    }
}

/// Encodes `iterations` times, with one codec, `data_shards + parity_shards` random shards of
/// `per_shard` bytes, timing the loop.
///
/// Returns the measurement and the shards, which after at least one pass are the full set of
/// shards of their (random) data shards.
pub fn benchmark_encode(
    iterations: usize,
    data_shards: usize,
    parity_shards: usize,
    per_shard: usize,
    pparam: ParallelParam,
) -> (r: (Measurement, Vec<Box<[u8]>>))
    requires
        data_shards > 0,
        parity_shards > 0,
        data_shards + parity_shards <= 256,
        iterations > 0 ==> per_shard > 0,
        iterations * per_shard * data_shards <= usize::MAX,
    ensures
        r.0.data_shards == data_shards,
        r.0.parity_shards == parity_shards,
        r.0.per_shard == per_shard,
        r.0.pparam == pparam,
        r.0.byte_count == iterations * per_shard * data_shards,
        r.1@.len() == data_shards + parity_shards,
        all_of_size(shard_views(r.1@), per_shard as nat),
        iterations > 0 ==> is_codeword(
            data_shards as nat,
            parity_shards as nat,
            shard_views(r.1@),
        ),
{
    let mut shards = make_random_shards(per_shard, data_shards + parity_shards);
    let codec = match new_codec(data_shards, parity_shards, pparam.bytes_per_encode) {
        Ok(c) => c,
        Err(_) => unreached(),
    };
    let ghost dc = data_shards as nat;
    let ghost pc = parity_shards as nat;
    let ghost data = shard_views(shards@).take(dc as int);
    let start = time::precise_time_ns();
    let mut processed: usize = 0;
    assert(0 * per_shard * data_shards == 0) by (nonlinear_arith);
    let mut i: usize = 0;
    while i < iterations
        invariant
            i <= iterations,
            iterations * per_shard * data_shards <= usize::MAX,
            processed == i * per_shard * data_shards,
            iterations > 0 ==> per_shard > 0,
            codec.data_count() == dc,
            codec.parity_count() == pc,
            dc + pc == shards@.len(),
            dc > 0,
            all_of_size(shard_views(shards@), per_shard as nat),
            shard_views(shards@).take(dc as int) == data,
            i > 0 ==> shard_views(shards@) == codeword(dc, pc, data),
        decreases iterations - i,
    {
        let ghost before = shards@;
        let res = encode_shards(&codec, &mut shards);
        proof {
            assert(res is Ok);
            assert(shard_views(shards@).take(dc as int) =~= data);
            lemma_sizes_kept(before, shards@, per_shard as nat);
        }
        match res {
            Ok(()) => {
                processed = add_pass(processed, i, iterations, per_shard, data_shards);
            },
            Err(_) => {},
        }
        i = i + 1;
    }
    let end = time::precise_time_ns();
    let m = Measurement {
        data_shards,
        parity_shards,
        per_shard,
        pparam,
        start_ns: start,
        end_ns: end,
        byte_count: processed,
    };
    (m, shards)
}

/// As `benchmark_encode`, but builds a fresh codec in every pass of the timed loop.
pub fn benchmark_encode_new_session(
    iterations: usize,
    data_shards: usize,
    parity_shards: usize,
    per_shard: usize,
    pparam: ParallelParam,
) -> (r: (Measurement, Vec<Box<[u8]>>))
    requires
        data_shards + parity_shards <= usize::MAX,
        iterations > 0 ==> {
            &&& data_shards > 0
            &&& parity_shards > 0
            &&& data_shards + parity_shards <= 256
            &&& per_shard > 0
        },
        iterations * per_shard * data_shards <= usize::MAX,
    ensures
        r.0.data_shards == data_shards,
        r.0.parity_shards == parity_shards,
        r.0.per_shard == per_shard,
        r.0.pparam == pparam,
        r.0.byte_count == iterations * per_shard * data_shards,
        r.1@.len() == data_shards + parity_shards,
        all_of_size(shard_views(r.1@), per_shard as nat),
        iterations > 0 ==> is_codeword(
            data_shards as nat,
            parity_shards as nat,
            shard_views(r.1@),
        ),
{
    let mut shards = make_random_shards(per_shard, data_shards + parity_shards);
    let ghost dc = data_shards as nat;
    let ghost pc = parity_shards as nat;
    let ghost data = shard_views(shards@).take(dc as int);
    let start = time::precise_time_ns();
    let mut processed: usize = 0;
    assert(0 * per_shard * data_shards == 0) by (nonlinear_arith);
    let mut i: usize = 0;
    while i < iterations
        invariant
            i <= iterations,
            iterations * per_shard * data_shards <= usize::MAX,
            processed == i * per_shard * data_shards,
            data_shards + parity_shards <= usize::MAX,
            iterations > 0 ==> {
                &&& data_shards > 0
                &&& parity_shards > 0
                &&& data_shards + parity_shards <= 256
                &&& per_shard > 0
            },
            dc == data_shards,
            pc == parity_shards,
            dc + pc == shards@.len(),
            all_of_size(shard_views(shards@), per_shard as nat),
            shard_views(shards@).take(dc as int) == data,
            i > 0 ==> shard_views(shards@) == codeword(dc, pc, data),
        decreases iterations - i,
    {
        let codec = match new_codec(data_shards, parity_shards, pparam.bytes_per_encode) {
            Ok(c) => c,
            Err(_) => unreached(),
        };
        let ghost before = shards@;
        let res = encode_shards(&codec, &mut shards);
        proof {
            assert(res is Ok);
            assert(shard_views(shards@).take(dc as int) =~= data);
            lemma_sizes_kept(before, shards@, per_shard as nat);
        }
        match res {
            Ok(()) => {
                processed = add_pass(processed, i, iterations, per_shard, data_shards);
            },
            Err(_) => {},
        }
        i = i + 1;
    }
    let end = time::precise_time_ns();
    let m = Measurement {
        data_shards,
        parity_shards,
        per_shard,
        pparam,
        start_ns: start,
        end_ns: end,
        byte_count: processed,
    };
    (m, shards)
}

/// The data shards of the in-place benchmark.
pub const INPLACE_DATA_SHARDS: usize = 5;

/// The parity shards of the in-place benchmark.
pub const INPLACE_PARITY_SHARDS: usize = 2;

/// The shard length in bytes of the in-place benchmark.
pub const INPLACE_PER_SHARD: usize = 1_048_576;

/// Encodes `iterations` times, through mutable byte slices, 5 data and 2 parity shards of
/// 1 MiB that start out as zeros, timing the loop.
pub fn benchmark_encode_inplace(iterations: usize, pparam: ParallelParam) -> (r: (
    Measurement,
    Vec<Box<[u8]>>,
))
    requires
        iterations * INPLACE_PER_SHARD * INPLACE_DATA_SHARDS <= usize::MAX,
    ensures
        r.0.data_shards == INPLACE_DATA_SHARDS,
        r.0.parity_shards == INPLACE_PARITY_SHARDS,
        r.0.per_shard == INPLACE_PER_SHARD,
        r.0.pparam == pparam,
        r.0.byte_count == iterations * INPLACE_PER_SHARD * INPLACE_DATA_SHARDS,
        r.1@.len() == INPLACE_DATA_SHARDS + INPLACE_PARITY_SHARDS,
        all_of_size(shard_views(r.1@), INPLACE_PER_SHARD as nat),
        forall|i: int|
            0 <= i < INPLACE_DATA_SHARDS ==> shard_views(r.1@)[i] == Seq::new(
                INPLACE_PER_SHARD as nat,
                |j: int| 0u8,
            ),
        iterations > 0 ==> is_codeword(
            INPLACE_DATA_SHARDS as nat,
            INPLACE_PARITY_SHARDS as nat,
            shard_views(r.1@),
        ),
{
    let total = INPLACE_DATA_SHARDS + INPLACE_PARITY_SHARDS;
    let mut shards: Vec<Box<[u8]>> = Vec::with_capacity(total);
    let mut k: usize = 0;
    while k < total
        invariant
            total == INPLACE_DATA_SHARDS + INPLACE_PARITY_SHARDS,
            k <= total,
            shards@.len() == k,
            forall|j: int|
                0 <= j < k ==> shard_views(shards@)[j] == Seq::new(
                    INPLACE_PER_SHARD as nat,
                    |b: int| 0u8,
                ),
        decreases total - k,
    {
        let blank = reed_solomon_erasure::make_blank_shard(INPLACE_PER_SHARD);
        let ghost before = shards@;
        shards.push(blank);
        proof {
            assert forall|j: int| 0 <= j < k + 1 implies shard_views(shards@)[j] == Seq::new(
                INPLACE_PER_SHARD as nat,
                |b: int| 0u8,
            ) by {
                if j < k {
                    assert(shards@[j] == before[j]);
                    assert(shard_views(before)[j] == before[j]@);
                }
            }
        }
        k = k + 1;
    }
    let codec = match new_codec(INPLACE_DATA_SHARDS, INPLACE_PARITY_SHARDS, pparam.bytes_per_encode) {
        Ok(c) => c,
        Err(_) => unreached(),
    };
    let ghost dc = INPLACE_DATA_SHARDS as nat;
    let ghost pc = INPLACE_PARITY_SHARDS as nat;
    let ghost data = shard_views(shards@).take(dc as int);
    let ghost zero = Seq::new(INPLACE_PER_SHARD as nat, |b: int| 0u8);
    proof {
        assert forall|j: int| 0 <= j < shards@.len() implies (#[trigger] shard_views(
            shards@,
        )[j]).len() == INPLACE_PER_SHARD by {
            assert(shard_views(shards@)[j] == zero);
        }
    }
    let start = time::precise_time_ns();
    let mut processed: usize = 0;
    assert(0 * INPLACE_PER_SHARD * INPLACE_DATA_SHARDS == 0) by (nonlinear_arith);
    let mut i: usize = 0;
    while i < iterations
        invariant
            i <= iterations,
            iterations * INPLACE_PER_SHARD * INPLACE_DATA_SHARDS <= usize::MAX,
            processed == i * INPLACE_PER_SHARD * INPLACE_DATA_SHARDS,
            codec.data_count() == dc,
            codec.parity_count() == pc,
            dc == INPLACE_DATA_SHARDS,
            pc == INPLACE_PARITY_SHARDS,
            dc + pc == shards@.len(),
            all_of_size(shard_views(shards@), INPLACE_PER_SHARD as nat),
            shard_views(shards@).take(dc as int) == data,
            forall|j: int| 0 <= j < dc ==> data[j] == zero,
            zero == Seq::new(INPLACE_PER_SHARD as nat, |b: int| 0u8),
            i > 0 ==> shard_views(shards@) == codeword(dc, pc, data),
        decreases iterations - i,
    {
        let ghost before = shards@;
        let res = encode_slices(&codec, &mut shards);
        proof {
            assert(res is Ok);
            assert(shard_views(shards@).take(dc as int) =~= data);
            lemma_sizes_kept(before, shards@, INPLACE_PER_SHARD as nat);
        }
        match res {
            Ok(()) => {
                processed = add_pass(
                    processed,
                    i,
                    iterations,
                    INPLACE_PER_SHARD,
                    INPLACE_DATA_SHARDS,
                );
            },
            Err(_) => {},
        }
        i = i + 1;
    }
    let end = time::precise_time_ns();
    proof {
        assert forall|j: int| 0 <= j < INPLACE_DATA_SHARDS implies shard_views(shards@)[j]
            == zero by {
            assert(shard_views(shards@).take(dc as int)[j] == data[j]);
        }
    }
    let m = Measurement {
        data_shards: INPLACE_DATA_SHARDS,
        parity_shards: INPLACE_PARITY_SHARDS,
        per_shard: INPLACE_PER_SHARD,
        pparam,
        start_ns: start,
        end_ns: end,
        byte_count: processed,
    };
    (m, shards)
}

/// Encodes random shards once, then checks them `iterations` times, timing the checks.
///
/// Returns the measurement, the shards, and whether every check passed, which it always does:
/// the shards are the full set of shards of their data shards.
pub fn benchmark_verify(
    iterations: usize,
    data_shards: usize,
    parity_shards: usize,
    per_shard: usize,
    pparam: ParallelParam,
) -> (r: (Measurement, Vec<Box<[u8]>>, bool))
    requires
        data_shards > 0,
        parity_shards > 0,
        data_shards + parity_shards <= 256,
        per_shard > 0,
        iterations * per_shard * (data_shards + parity_shards) <= usize::MAX,
    ensures
        r.0.data_shards == data_shards,
        r.0.parity_shards == parity_shards,
        r.0.per_shard == per_shard,
        r.0.pparam == pparam,
        r.0.byte_count == iterations * per_shard * (data_shards + parity_shards),
        r.1@.len() == data_shards + parity_shards,
        all_of_size(shard_views(r.1@), per_shard as nat),
        is_codeword(data_shards as nat, parity_shards as nat, shard_views(r.1@)),
        r.2,
{
    let mut shards = make_random_shards(per_shard, data_shards + parity_shards);
    let codec = match new_codec(data_shards, parity_shards, pparam.bytes_per_encode) {
        Ok(c) => c,
        Err(_) => unreached(),
    };
    let ghost dc = data_shards as nat;
    let ghost pc = parity_shards as nat;
    let ghost data = shard_views(shards@).take(dc as int);
    let ghost before = shards@;
    let res = encode_shards(&codec, &mut shards);
    proof {
        assert(res is Ok);
        assert(shard_views(shards@).take(dc as int) =~= data);
        lemma_sizes_kept(before, shards@, per_shard as nat);
    }
    let mut all_passed = true;
    let start = time::precise_time_ns();
    let mut processed: usize = 0;
    assert(0 * per_shard * (data_shards + parity_shards) == 0) by (nonlinear_arith);
    let mut i: usize = 0;
    while i < iterations
        invariant
            i <= iterations,
            iterations * per_shard * (data_shards + parity_shards) <= usize::MAX,
            processed == i * per_shard * (data_shards + parity_shards),
            data_shards + parity_shards <= 256,
            codec.data_count() == dc,
            codec.parity_count() == pc,
            dc + pc == shards@.len(),
            dc > 0,
            per_shard > 0,
            all_of_size(shard_views(shards@), per_shard as nat),
            shard_views(shards@).take(dc as int) == data,
            shard_views(shards@) == codeword(dc, pc, data),
            all_passed,
        decreases iterations - i,
    {
        let res = verify_shards(&codec, &shards);
        proof {
            assert(res is Ok);
            assert(shard_views(shards@).skip(dc as int) =~= encoded_parity(dc, pc, data));
        }
        match res {
            Ok(b) => {
                all_passed = all_passed && b;
                processed = add_pass(processed, i, iterations, per_shard, data_shards + parity_shards);
            },
            Err(_) => {},
        }
        i = i + 1;
    }
    let end = time::precise_time_ns();
    let m = Measurement {
        data_shards,
        parity_shards,
        per_shard,
        pparam,
        start_ns: start,
        end_ns: end,
        byte_count: processed,
    };
    (m, shards, all_passed)
}

/// With the first slot empty and every other one filled, one shard fewer than slots is present.
proof fn lemma_count_all_but_first(s: Seq<Option<Seq<u8>>>)
    requires
        s.len() >= 1,
        s[0] is None,
        forall|i: int| 1 <= i < s.len() ==> (#[trigger] s[i]) is Some,
    ensures
        count_present(s) == s.len() - 1,
    decreases s.len(),
{
    if s.len() > 1 {
        let t = s.drop_last();
        assert(t[0] is None);
        assert forall|i: int| 1 <= i < t.len() implies (#[trigger] t[i]) is Some by {
            assert(t[i] == s[i]);
        }
        lemma_count_all_but_first(t);
        assert(s.last() is Some);
    } else {
        assert(s.drop_last().len() == 0);
        assert(count_present(s.drop_last()) == 0);
        assert(s.last() is None);
    }
}

/// Encodes random shards once, then `iterations` times drops the first shard and rebuilds
/// it, timing the rebuilds.
///
/// Returns the measurement and the shards, all present again and the full set of shards of
/// their data shards.
pub fn benchmark_reconstruct(
    iterations: usize,
    data_shards: usize,
    parity_shards: usize,
    per_shard: usize,
    pparam: ParallelParam,
) -> (r: (Measurement, Vec<Option<Box<[u8]>>>))
    requires
        data_shards > 0,
        parity_shards > 0,
        data_shards + parity_shards <= 256,
        per_shard > 0,
        iterations * per_shard * 1 <= usize::MAX,
    ensures
        r.0.data_shards == data_shards,
        r.0.parity_shards == parity_shards,
        r.0.per_shard == per_shard,
        r.0.pparam == pparam,
        r.0.byte_count == iterations * per_shard * 1,
        r.1@.len() == data_shards + parity_shards,
        forall|i: int| 0 <= i < r.1@.len() ==> (#[trigger] r.1@[i]) is Some,
        all_of_size(present_views(option_views(r.1@)), per_shard as nat),
        is_codeword(
            data_shards as nat,
            parity_shards as nat,
            present_views(option_views(r.1@)),
        ),
{
    let mut shards = make_random_shards(per_shard, data_shards + parity_shards);
    let codec = match new_codec(data_shards, parity_shards, pparam.bytes_per_encode) {
        Ok(c) => c,
        Err(_) => unreached(),
    };
    let ghost dc = data_shards as nat;
    let ghost pc = parity_shards as nat;
    let ghost data = shard_views(shards@).take(dc as int);
    let ghost before = shards@;
    let res = encode_shards(&codec, &mut shards);
    proof {
        assert(res is Ok);
        assert(shard_views(shards@).take(dc as int) =~= data);
        lemma_sizes_kept(before, shards@, per_shard as nat);
    }
    let ghost encoded = shards@;
    let mut slots = reed_solomon_erasure::shards_into_option_shards(shards);
    proof {
        assert(present_views(option_views(slots@)) =~= shard_views(encoded));
    }
    let start = time::precise_time_ns();
    let mut processed: usize = 0;
    assert(0 * per_shard * 1 == 0) by (nonlinear_arith);
    let mut i: usize = 0;
    while i < iterations
        invariant
            i <= iterations,
            iterations * per_shard * 1 <= usize::MAX,
            processed == i * per_shard * 1,
            codec.data_count() == dc,
            codec.parity_count() == pc,
            dc + pc == slots@.len(),
            dc > 0,
            pc > 0,
            per_shard > 0,
            data.len() == dc,
            forall|k: int| 0 <= k < slots@.len() ==> (#[trigger] slots@[k]) is Some,
            all_of_size(present_views(option_views(slots@)), per_shard as nat),
            present_views(option_views(slots@)) == codeword(dc, pc, data),
        decreases iterations - i,
    {
        let ghost full = present_views(option_views(slots@));
        slots[0] = None;
        let ghost dropped = option_views(slots@);
        proof {
            assert forall|k: int| 1 <= k < dropped.len() implies (#[trigger] dropped[k]) is Some
                && dropped[k]->0 == full[k] by {
                assert(slots@[k] is Some);
            }
            lemma_count_all_but_first(dropped);
            assert(dropped[1] is Some);
            assert forall|a: int, b: int|
                0 <= a < dropped.len() && 0 <= b < dropped.len() && (#[trigger] dropped[a]) is Some
                    && (#[trigger] dropped[b]) is Some implies dropped[a]->0.len()
                == dropped[b]->0.len() by {
                assert(full[a].len() == per_shard);
                assert(full[b].len() == per_shard);
            }
            assert forall|a: int|
                0 <= a < dropped.len() && (#[trigger] dropped[a]) is Some implies dropped[a]->0.len()
                > 0 by {
                assert(full[a].len() == per_shard);
            }
            assert(option_shards_fit(dropped));
            assert forall|a: int| 0 <= a < dc implies (#[trigger] full[a]).len() == full[0].len() by {
                assert(full[a].len() == per_shard);
                assert(full[0].len() == per_shard);
            }
            assert(agrees_with(dropped, data + encoded_parity(dc, pc, data), dc));
        }
        let res = reconstruct_shards(&codec, &mut slots);
        proof {
            assert(res is Ok);
            assert(present_views(option_views(slots@)) == codeword(dc, pc, data));
        }
        match res {
            Ok(()) => {
                processed = add_pass(processed, i, iterations, per_shard, 1);
            },
            Err(_) => {},
        }
        i = i + 1;
    }
    let end = time::precise_time_ns();
    proof {
        assert(codeword(dc, pc, data).take(dc as int) =~= data);
    }
    let m = Measurement {
        data_shards,
        parity_shards,
        per_shard,
        pparam,
        start_ns: start,
        end_ns: end,
        byte_count: processed,
    };
    (m, slots)
}

} // verus!
