//! The hash functions of the network: Keccak-256 for Merkle trees and
//! Ethereum, and 32-byte Blake2 for other digests.
use vstd::prelude::*;
use sha3::Digest;

verus! {

/// A 32-byte digest.
pub type Hash = [u8; 32];

/// The Keccak-256 digest of `input`.
pub uninterp spec fn keccak_digest(input: Seq<u8>) -> Hash;

/// The Blake2s-256 digest of `input`.
pub uninterp spec fn blake2s_digest(input: Seq<u8>) -> Hash;

/// The Blake2b digest of `input`, 32 bytes long.
pub uninterp spec fn blake2b_digest(input: Seq<u8>) -> Hash;

/// Keccak-256 of `input`, computed by `sha3::Keccak256`.
#[verifier::external_body]
pub fn keccak256(input: &[u8]) -> (h: Hash)
    ensures
        h == keccak_digest(input@),
{
    let mut output = [0u8; 32];
    output.copy_from_slice(sha3::Keccak256::digest(input).as_slice());
    output
}

/// Blake2s-256 of `input`, computed by `blake2::Blake2s256`.
#[verifier::external_body]
pub fn blake2256(input: &[u8]) -> (h: Hash)
    ensures
        h == blake2s_digest(input@),
{
    let mut output = [0u8; 32];
    output.copy_from_slice(blake2::Blake2s256::digest(input).as_slice());
    output
}

/// Blake2b with a 32-byte output of `input`, computed by
/// `blake2::Blake2b<U32>` (the runtime's `blake2_256`).
#[verifier::external_body]
pub(crate) fn blake2b_256(input: &[u8]) -> (h: Hash)
    ensures
        h == blake2b_digest(input@),
{
    let mut output = [0u8; 32];
    output.copy_from_slice(blake2::Blake2b::<blake2::digest::consts::U32>::digest(input).as_slice());
    output
}

/// The Keccak-256 hasher of Merkle trees.
pub struct Keccak256;

/// The `std` hasher slot of `Keccak256`, which Merkle trees never use.
pub struct PlaceholderHasher;

} // verus!
