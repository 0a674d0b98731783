//! The hash that mixes the state.

use vstd::prelude::*;

verus! {

/// The width of one hash, in bytes.
pub const HASH_BYTES: usize = 32;

/// The unkeyed BLAKE3 hash of a byte string, at its default width.
pub uninterp spec fn blake3_digest(input: Seq<u8>) -> Seq<u8>;

/// `blake3::hash`, with the bytes of its result copied out.
///
/// Believed of `blake3`: the hash is a function of the input bytes alone,
/// and `Hash::as_bytes` gives its `OUT_LEN`, that is 32, bytes.
#[verifier::external_body]
pub(crate) fn blake3_hash(input: &[u8]) -> (digest: Vec<u8>)
    ensures
        digest@ == blake3_digest(input@),
        digest@.len() == HASH_BYTES,
{
    blake3::hash(input).as_bytes().to_vec()
}

} // verus!
