//! Hashes.
use vstd::prelude::*;

verus! {

/// The 64-bit XXH3 hash of a byte string, with seed zero.
pub uninterp spec fn xxh3(bytes: Seq<u8>) -> u64;

/// `xxhash_rust::xxh3::xxh3_64`. The claim is that the hash depends on the
/// bytes alone.
#[verifier::external_body]
pub(crate) fn xxh3_64(bytes: &[u8]) -> (r: u64)
    ensures
        r == xxh3(bytes@),
{
    xxhash_rust::xxh3::xxh3_64(bytes)
}

} // verus!
