//! Incremental Blake3 hashing of file contents.
use vstd::prelude::*;

verus! {

/// An incremental Blake3 state.
#[verifier::external_type_specification]
#[verifier::external_body]
pub struct ExHasher(blake3::Hasher);

/// The bytes that a hasher has taken in.
pub uninterp spec fn hashed(hasher: blake3::Hasher) -> Seq<u8>;

/// The Blake3 hash of some bytes.
pub uninterp spec fn blake3_digest(data: Seq<u8>) -> Seq<u8>;

/// `blake3::Hasher::new`: a hasher for the regular hash function that has taken
/// in nothing.
#[verifier::external_body]
pub(crate) fn new_hasher() -> (hasher: blake3::Hasher)
    ensures
        hashed(hasher) == Seq::<u8>::empty(),
{
    blake3::Hasher::new()
}

/// `blake3::Hasher::update`: takes in more bytes behind the earlier ones. The
/// hash function covers inputs of up to 64 bits of length.
#[verifier::external_body]
pub(crate) fn update(hasher: &mut blake3::Hasher, data: &[u8])
    requires
        hashed(*old(hasher)).len() + data@.len() <= u64::MAX,
    ensures
        hashed(*final(hasher)) == hashed(*old(hasher)) + data@,
{
    hasher.update(data);
}

/// `blake3::Hasher::finalize`: the hash of what was taken in, a function of
/// those bytes alone.
#[verifier::external_body]
pub(crate) fn digest(hasher: &blake3::Hasher) -> (hash: [u8; 32])
    ensures
        hash@ == blake3_digest(hashed(*hasher)),
{
    *hasher.finalize().as_bytes()
}

} // verus!
