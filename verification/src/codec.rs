//! The Reed-Solomon codec of the `reed_solomon_erasure` crate, seen through contracts.
//!
//! Every item here that carries `#[verifier::external_body]` or is an
//! `assume_specification` is trusted: its contract is taken from the crate's source
//! and documentation and is not proved.
use vstd::prelude::*;
use crate::shards::{
    agrees_with, count_present, option_shards_fit, option_views, present_views, shard_views,
    shards_fit,
};

verus! {

/// The codec type of `reed_solomon_erasure`; opaque to verification.
#[verifier::external_type_specification]
#[verifier::external_body]
pub struct ExReedSolomon(reed_solomon_erasure::ReedSolomon);

/// The error type of `reed_solomon_erasure`; opaque to verification.
#[verifier::external_type_specification]
#[verifier::external_body]
pub struct ExCodecError(reed_solomon_erasure::Error);

/// The parity shards that the crate's encoder (`ReedSolomon::encode`) computes for the given
/// data shards, with `data_shards` data and `parity_shards` parity shards.  It depends on
/// nothing else: the encoding matrix is built from the two counts alone, and the parallelism
/// parameter only splits the same computation into chunks.  `encode_shards` delegates to
/// `encode`, and `verify_shards` runs the same computation into a buffer and compares.
pub uninterp spec fn encoded_parity(data_shards: nat, parity_shards: nat, data: Seq<Seq<u8>>) -> Seq<
    Seq<u8>,
>;

/// What the crate's reconstruction writes into the missing slots of `shards`
/// (`None` marks a missing shard).
pub uninterp spec fn reconstructed_shards(
    data_shards: nat,
    parity_shards: nat,
    shards: Seq<Option<Seq<u8>>>,
) -> Seq<Seq<u8>>;

/// The full set of shards for the given data: the data shards, then their parity shards.
pub open spec fn codeword(data_shards: nat, parity_shards: nat, data: Seq<Seq<u8>>) -> Seq<Seq<u8>> {
    data + encoded_parity(data_shards, parity_shards, data)
}

/// Encoding the full set of shards of some data again changes nothing: its data shards are
/// that data, and their parity is its parity.
pub proof fn law_encoding_is_idempotent(data_shards: nat, parity_shards: nat, data: Seq<Seq<u8>>)
    requires
        data.len() == data_shards,
    ensures
        is_codeword(data_shards, parity_shards, codeword(data_shards, parity_shards, data)),
        codeword(data_shards, parity_shards, data).skip(data_shards as int) == encoded_parity(
            data_shards,
            parity_shards,
            codeword(data_shards, parity_shards, data).take(data_shards as int),
        ),
{
    let c = codeword(data_shards, parity_shards, data);
    assert(c.take(data_shards as int) =~= data);
    assert(c.skip(data_shards as int) =~= encoded_parity(data_shards, parity_shards, data));
}

/// Whether `shards` is the full set of shards of its own data shards.
pub open spec fn is_codeword(data_shards: nat, parity_shards: nat, shards: Seq<Seq<u8>>) -> bool {
    shards =~= codeword(data_shards, parity_shards, shards.take(data_shards as int))
}

/// A Reed-Solomon encoder/decoder together with its shard counts.
pub struct Codec {
    inner: reed_solomon_erasure::ReedSolomon,
    data_shards: usize,
    parity_shards: usize,
}

impl Codec {
    /// The number of data shards.
    pub closed spec fn data_count(&self) -> nat {
        self.data_shards as nat
    }

    /// The number of parity shards.
    pub closed spec fn parity_count(&self) -> nat {
        self.parity_shards as nat
    }
}

/// `ReedSolomon::with_pparam`, with a `ParallelParam` whose `bytes_per_encode` is given.
///
/// The crate returns an error exactly when `data_shards == 0`, `parity_shards == 0` or
/// `data_shards + parity_shards > 256`, and otherwise a codec for those counts.  The sum is
/// computed in `usize`, hence the `requires`.
#[verifier::external_body]
pub(crate) fn new_codec(data_shards: usize, parity_shards: usize, bytes_per_encode: usize) -> (r: Result<
    Codec,
    reed_solomon_erasure::Error,
>)
    requires
        data_shards + parity_shards <= usize::MAX,
    ensures
        r is Ok <==> (data_shards > 0 && parity_shards > 0 && data_shards + parity_shards <= 256),
        r matches Ok(c) ==> c.data_count() == data_shards && c.parity_count() == parity_shards,
{
    let pparam = reed_solomon_erasure::ParallelParam { bytes_per_encode };
    match reed_solomon_erasure::ReedSolomon::with_pparam(data_shards, parity_shards, pparam) {
        Ok(inner) => Ok(Codec { inner, data_shards, parity_shards }),
        Err(e) => Err(e),
    }
}

/// `ReedSolomon::encode_shards`.
///
/// The crate refuses the shards, changing nothing, exactly when their number is not the
/// codec's total or they are not all of one nonzero length.  Otherwise it leaves the data
/// shards as they are and overwrites the parity shards with `encoded_parity` of the data.
#[verifier::external_body]
pub(crate) fn encode_shards(codec: &Codec, shards: &mut Vec<Box<[u8]>>) -> (r: Result<
    (),
    reed_solomon_erasure::Error,
>)
    ensures
        r is Ok <==> shards_fit(
            codec.data_count() + codec.parity_count(),
            shard_views(old(shards)@),
        ),
        r is Err ==> shard_views(final(shards)@) == shard_views(old(shards)@),
        r is Ok ==> final(shards)@.len() == old(shards)@.len(),
        r is Ok ==> forall|i: int|
            0 <= i < final(shards)@.len() ==> (#[trigger] final(shards)@[i])@.len() == old(
                shards,
            )@[i]@.len(),
        r is Ok ==> shard_views(final(shards)@) == shard_views(old(shards)@).take(
            codec.data_count() as int,
        ) + encoded_parity(
            codec.data_count(),
            codec.parity_count(),
            shard_views(old(shards)@).take(codec.data_count() as int),
        ),
{
    codec.inner.encode_shards(shards.as_mut_slice())
}

/// `ReedSolomon::encode`, on the shards borrowed as a vector of mutable byte slices.
///
/// The same checks and the same result as `encode_shards`, of which the crate documents
/// `encode_shards` to be a wrapper.
#[verifier::external_body]
pub(crate) fn encode_slices(codec: &Codec, shards: &mut Vec<Box<[u8]>>) -> (r: Result<
    (),
    reed_solomon_erasure::Error,
>)
    ensures
        r is Ok <==> shards_fit(
            codec.data_count() + codec.parity_count(),
            shard_views(old(shards)@),
        ),
        r is Err ==> shard_views(final(shards)@) == shard_views(old(shards)@),
        r is Ok ==> final(shards)@.len() == old(shards)@.len(),
        r is Ok ==> forall|i: int|
            0 <= i < final(shards)@.len() ==> (#[trigger] final(shards)@[i])@.len() == old(
                shards,
            )@[i]@.len(),
        r is Ok ==> shard_views(final(shards)@) == shard_views(old(shards)@).take(
            codec.data_count() as int,
        ) + encoded_parity(
            codec.data_count(),
            codec.parity_count(),
            shard_views(old(shards)@).take(codec.data_count() as int),
        ),
{
    let mut slices: Vec<&mut [u8]> = shards.iter_mut().map(|s| &mut **s).collect();
    codec.inner.encode(&mut slices)
}

/// `ReedSolomon::verify_shards`.
///
/// The crate reads the length of the first shard before any check, so there must be one.
/// It refuses the shards exactly as `encode_shards` does; otherwise it answers whether the
/// parity shards are `encoded_parity` of the data shards.
#[verifier::external_body]
pub(crate) fn verify_shards(codec: &Codec, shards: &Vec<Box<[u8]>>) -> (r: Result<
    bool,
    reed_solomon_erasure::Error,
>)
    requires
        shards@.len() > 0,
    ensures
        r is Ok <==> shards_fit(codec.data_count() + codec.parity_count(), shard_views(shards@)),
        r matches Ok(b) ==> b == (shard_views(shards@).skip(codec.data_count() as int)
            == encoded_parity(
            codec.data_count(),
            codec.parity_count(),
            shard_views(shards@).take(codec.data_count() as int),
        )),
{
    codec.inner.verify_shards(shards.as_slice())
}

/// `ReedSolomon::reconstruct_shards`.
///
/// The crate refuses, changing nothing, exactly when the number of slots is not the codec's
/// total, no shard is present, the present shards are not all of one nonzero length, or
/// fewer shards than the data shard count are present.  Otherwise every slot holds a shard
/// afterwards: the present ones unchanged, the missing ones filled with
/// `reconstructed_shards`.  As the crate's documentation promises, missing shards are
/// recovered: when the present shards agree with the full set of shards of some data of
/// their length, the result is that full set.
#[verifier::external_body]
pub(crate) fn reconstruct_shards(codec: &Codec, shards: &mut Vec<Option<Box<[u8]>>>) -> (r: Result<
    (),
    reed_solomon_erasure::Error,
>)
    ensures
        r is Ok <==> {
            &&& old(shards)@.len() == codec.data_count() + codec.parity_count()
            &&& option_shards_fit(option_views(old(shards)@))
            &&& count_present(option_views(old(shards)@)) >= codec.data_count()
        },
        r is Err ==> option_views(final(shards)@) == option_views(old(shards)@),
        r is Ok ==> final(shards)@.len() == old(shards)@.len(),
        r is Ok ==> forall|i: int|
            0 <= i < final(shards)@.len() ==> {
                &&& #[trigger] final(shards)@[i] is Some
                &&& old(shards)@[i] is Some ==> final(shards)@[i]->0@ == old(shards)@[i]->0@
                &&& forall|j: int|
                    0 <= j < old(shards)@.len() && (#[trigger] old(shards)@[j]) is Some
                        ==> final(shards)@[i]->0@.len() == old(shards)@[j]->0@.len()
                &&& old(shards)@[i] is None ==> final(shards)@[i]->0@ == reconstructed_shards(
                    codec.data_count(),
                    codec.parity_count(),
                    option_views(old(shards)@),
                )[i]
            },
        r is Ok ==> forall|data: Seq<Seq<u8>>|
            #![trigger encoded_parity(codec.data_count(), codec.parity_count(), data)]
            data.len() == codec.data_count() && agrees_with(
                option_views(old(shards)@),
                data + encoded_parity(codec.data_count(), codec.parity_count(), data),
                codec.data_count(),
            ) ==> present_views(option_views(final(shards)@)) == data + encoded_parity(
                codec.data_count(),
                codec.parity_count(),
                data,
            ),
{
    codec.inner.reconstruct_shards(shards.as_mut_slice())
}

/// `shards_into_option_shards`: every shard, in order, wrapped in `Some`.
pub assume_specification[ reed_solomon_erasure::shards_into_option_shards ](
    shards: Vec<Box<[u8]>>,
) -> (r: Vec<Option<Box<[u8]>>>)
    ensures
        r@.len() == shards@.len(),
        forall|i: int| 0 <= i < r@.len() ==> #[trigger] r@[i] == Some(shards@[i]),
;

/// `make_blank_shard`: a shard of `size` zero bytes.
pub assume_specification[ reed_solomon_erasure::make_blank_shard ](size: usize) -> (r: Box<[u8]>)
    ensures
        r@ == Seq::new(size as nat, |i: int| 0u8),
;

} // verus!
