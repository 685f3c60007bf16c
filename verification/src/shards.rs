//! Shards: the equally sized byte blocks that the codec works on, and their models.
use vstd::prelude::*;

verus! {

/// The bytes of each shard, in order.
pub open spec fn shard_views(shards: Seq<Box<[u8]>>) -> Seq<Seq<u8>> {
    Seq::new(shards.len(), |i: int| shards[i]@)
}

/// The bytes of each shard that is present, in order; `None` where a shard is missing.
pub open spec fn option_views(shards: Seq<Option<Box<[u8]>>>) -> Seq<Option<Seq<u8>>> {
    Seq::new(
        shards.len(),
        |i: int|
            match shards[i] {
                Some(b) => Some(b@),
                None => None,
            },
    )
}

/// The bytes of each slot, taking a missing shard as empty.
pub open spec fn present_views(shards: Seq<Option<Seq<u8>>>) -> Seq<Seq<u8>> {
    Seq::new(
        shards.len(),
        |i: int|
            match shards[i] {
                Some(v) => v,
                None => Seq::empty(),
            },
    )
}

/// `total` shards, all of one nonzero length: what the codec accepts for encoding.
pub open spec fn shards_fit(total: nat, shards: Seq<Seq<u8>>) -> bool {
    &&& shards.len() == total
    &&& shards.len() > 0
    &&& shards[0].len() > 0
    &&& forall|i: int| 0 <= i < shards.len() ==> (#[trigger] shards[i]).len() == shards[0].len()
}

/// At least one shard present, and the present ones all of one nonzero length.
pub open spec fn option_shards_fit(shards: Seq<Option<Seq<u8>>>) -> bool {
    &&& exists|i: int| 0 <= i < shards.len() && (#[trigger] shards[i]) is Some
    &&& forall|i: int|
        0 <= i < shards.len() && (#[trigger] shards[i]) is Some ==> shards[i]->0.len() > 0
    &&& forall|i: int, j: int|
        0 <= i < shards.len() && 0 <= j < shards.len() && (#[trigger] shards[i]) is Some
            && (#[trigger] shards[j]) is Some ==> shards[i]->0.len() == shards[j]->0.len()
}

/// The number of shards present.
pub open spec fn count_present(shards: Seq<Option<Seq<u8>>>) -> nat
    decreases shards.len(),
{
    if shards.len() == 0 {
        0
    } else {
        count_present(shards.drop_last()) + if shards.last() is Some {
            1nat
        } else {
            0nat
        }
    }
}

/// Every present shard equals the corresponding shard of `full`, and the first
/// `data_shards` shards of `full` are all of one length.
pub open spec fn agrees_with(shards: Seq<Option<Seq<u8>>>, full: Seq<Seq<u8>>, data_shards: nat) -> bool {
    &&& full.len() == shards.len()
    &&& forall|i: int|
        0 <= i < shards.len() && (#[trigger] shards[i]) is Some ==> shards[i]->0 == full[i]
    &&& forall|i: int| 0 <= i < data_shards ==> (#[trigger] full[i]).len() == full[0].len()
}

/// Every shard of `shards` is `size` bytes long.
pub open spec fn all_of_size(shards: Seq<Seq<u8>>, size: nat) -> bool {
    forall|i: int| 0 <= i < shards.len() ==> (#[trigger] shards[i]).len() == size
}

/// Draws one random byte with `rand::random::<u8>()`.  Nothing is promised of the value.
#[verifier::external_body]
fn random_byte() -> (r: u8) {
    rand::random::<u8>()
}

/// Overwrites a shard with the given bytes, in index order.
pub fn fill_with(arr: &mut Box<[u8]>, bytes: &Vec<u8>)
    requires
        bytes@.len() == old(arr)@.len(),
    ensures
        final(arr)@ == bytes@,
{
    let n = arr.len();
    let mut i: usize = 0;
    while i < n
        invariant
            n == arr@.len(),
            n == bytes@.len(),
            i <= n,
            forall|j: int| 0 <= j < i ==> arr@[j] == bytes@[j],
        decreases n - i,
    {
        arr[i] = bytes[i];
        i = i + 1;
    }
    assert(arr@ =~= bytes@);
}

/// Fills a shard with random bytes: draws one byte per position, in index order, and
/// stores the draws with `fill_with`.  The shard keeps its length; the values are whatever
/// the random source yields.
pub fn fill_random(arr: &mut Box<[u8]>)
    ensures
        final(arr)@.len() == old(arr)@.len(),
{
    let n = arr.len();
    let mut drawn: Vec<u8> = Vec::with_capacity(n);
    let mut i: usize = 0;
    while i < n
        invariant
            i <= n,
            drawn@.len() == i,
        decreases n - i,
    {
        drawn.push(random_byte());
        i = i + 1;
    }
    fill_with(arr, &drawn);
}

/// `count` shards of `per_shard` random bytes each.
pub fn make_random_shards(per_shard: usize, count: usize) -> (r: Vec<Box<[u8]>>)
    ensures
        r@.len() == count,
        all_of_size(shard_views(r@), per_shard as nat),
{
    let mut shards: Vec<Box<[u8]>> = Vec::with_capacity(13);
    let mut i: usize = 0;
    while i < count
        invariant
            i <= count,
            shards@.len() == i,
            all_of_size(shard_views(shards@), per_shard as nat),
        decreases count - i,
    {
        let mut s = reed_solomon_erasure::make_blank_shard(per_shard);
        fill_random(&mut s);
        let ghost before = shards@;
        shards.push(s);
        assert(shard_views(shards@) =~= shard_views(before).push(s@));
        i = i + 1;
    }
    shards
}

} // verus!
