//! The cryptographic hash behind output identifiers.

use crate::primitives::H256;
use sp_runtime::traits::BlakeTwo256;
use vstd::prelude::*;

verus! {

/// The 32 bytes that `BlakeTwo256::hash_of` gives for the pair of a byte
/// string and a 64-bit index: the Blake2b-256 hash of the pair's SCALE
/// encoding. It is a function of the two values alone.
pub uninterp spec fn blake2_256_hash_of(encoding: Seq<u8>, index: u64) -> Seq<u8>;

/// Calls `sp_runtime::traits::BlakeTwo256::hash_of` on the pair
/// `(encoding, index)`.
///
/// Trusted: the digest is `blake2_256_hash_of` of the two arguments. Nothing
/// is claimed of its bytes, and in particular not that two pairs never share
/// a digest. The byte string must fit a 32-bit length prefix: the call
/// encodes it as a list of bytes, and panics on a longer one.
#[verifier::external_body]
pub(crate) fn hash_of_indexed(encoding: &Vec<u8>, index: u64) -> (digest: H256)
    requires
        encoding@.len() <= u32::MAX,
    ensures
        digest@ == blake2_256_hash_of(encoding@, index),
{
    H256(<BlakeTwo256 as sp_runtime::traits::Hash>::hash_of(&(encoding, index)).0)
}

} // verus!
