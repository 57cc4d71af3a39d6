//! SHA-256, the hash behind every digest of the channel.

use vstd::prelude::*;

verus! {

/// The SHA-256 digest of a byte string, as `bitcoin::hashes::sha256::Hash::hash`
/// computes it.
pub uninterp spec fn sha256(data: Seq<u8>) -> Seq<u8>;

/// Calls `bitcoin::hashes::sha256::Hash::hash` on `data` and hands back the 32
/// bytes of the digest (`to_byte_array`). Nothing is proved of the digest
/// itself: the contract only gives it its name.
#[verifier::external_body]
pub(crate) fn sha256_of(data: &Vec<u8>) -> (out: [u8; 32])
    ensures
        out@ == sha256(data@),
{
    let digest = <bitcoin::hashes::sha256::Hash as bitcoin::hashes::Hash>::hash(data.as_slice());
    <bitcoin::hashes::sha256::Hash as bitcoin::hashes::Hash>::to_byte_array(digest)
}

} // verus!
