//! The hash that texts are told apart by.
use vstd::prelude::*;

verus! {

/// The 64-bit XXH3 hash of bytes.
pub uninterp spec fn xxh3(bytes: Seq<u8>) -> u64;

/// Calls `xxhash_rust::xxh3::xxh3_64`. The hash depends on the bytes alone.
#[verifier::external_body]
pub(crate) fn hash_of(bytes: &[u8]) -> (r: u64)
    ensures
        r == xxh3(bytes@),
{
    xxhash_rust::xxh3::xxh3_64(bytes)
}

} // verus!
