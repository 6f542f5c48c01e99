//! The one hash function of the library: XXH3 with 128 bits of output.

use vstd::prelude::*;

verus! {

/// The XXH3 128-bit digest of a byte string with the default seed and secret:
/// the value that `xxhash_rust::xxh3::xxh3_128` returns for it.
pub uninterp spec fn xxh3_128_digest(input: Seq<u8>) -> u128;

/// Calls `xxhash_rust::xxh3::xxh3_128`.
///
/// Trusted: the digest is a function of the input bytes alone, the one that
/// [`xxh3_128_digest`] names. Nothing else is claimed of it; in particular
/// not that distinct inputs have distinct digests.
#[verifier::external_body]
pub(crate) fn xxh3_128(input: &[u8]) -> (digest: u128)
    ensures
        digest == xxh3_128_digest(input@),
{
    xxhash_rust::xxh3::xxh3_128(input)
}

} // verus!
