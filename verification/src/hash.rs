//! Keccak-256, computed by the Ethereum utility library.
use vstd::prelude::*;

verus! {

/// The Keccak-256 digest of a message: 32 bytes that depend on the message alone.
pub uninterp spec fn keccak256_digest(data: Seq<u8>) -> Seq<u8>;

/// Hashes `bytes` with `ethers_core::utils::keccak256`. The 32 bytes that come
/// back are the Keccak-256 digest of the message, in the order in which the
/// hash function writes them.
#[verifier::external_body]
pub(crate) fn keccak256_bytes(bytes: &[u8]) -> (out: [u8; 32])
    ensures
        out@ == keccak256_digest(bytes@),
{
    ethers_core::utils::keccak256(bytes)
}

/// The Keccak-256 digest of `bytes`.
pub fn keccak256(bytes: &[u8]) -> (out: [u8; 32])
    ensures
        out@ == keccak256_digest(bytes@),
{
    keccak256_bytes(bytes)
}

} // verus!
