//! Trusted bindings to the two hash functions the pool is built on: the
//! Poseidon two-to-one compression that forms the Merkle tree, and SHA-256,
//! which binds the plaintext transfer data to a proof.

use vstd::prelude::*;
use crate::field::{be_nat, p_nat};

verus! {

/// What the Poseidon two-to-one compression returns on a pair of canonical
/// field elements.
pub uninterp spec fn poseidon_pair_hash(l: Seq<u8>, r: Seq<u8>) -> Seq<u8>;

/// The precomputed root of an all-empty subtree of the given depth.
pub uninterp spec fn zero_subtree_hash(level: int) -> Seq<u8>;

/// What SHA-256 returns on a byte string.
pub uninterp spec fn sha256_hash(data: Seq<u8>) -> Seq<u8>;

/// Relies on `light_hasher::Poseidon::hashv` (Poseidon over BN254 with
/// circom parameters): on two canonical 32-byte big-endian field elements it
/// succeeds, depends on the inputs alone, and returns the canonical 32-byte
/// big-endian encoding of a field element.
#[verifier::external_body]
pub fn poseidon_hash_pair(l: &[u8; 32], r: &[u8; 32]) -> (h: [u8; 32])
    requires
        be_nat(l@) < p_nat(),
        be_nat(r@) < p_nat(),
    ensures
        h@ == poseidon_pair_hash(l@, r@),
        be_nat(h@) < p_nat(),
{
    <light_hasher::Poseidon as light_hasher::Hasher>::hashv(&[l, r]).unwrap()
}

/// Relies on `light_hasher::Poseidon::zero_bytes`: a precomputed table of 41
/// empty-subtree hashes, each the canonical 32-byte big-endian encoding of a
/// field element (entry 0 is the all-zero leaf).
#[verifier::external_body]
pub fn poseidon_zero_hash(level: usize) -> (h: [u8; 32])
    requires
        level <= 40,
    ensures
        h@ == zero_subtree_hash(level as int),
        be_nat(h@) < p_nat(),
{
    <light_hasher::Poseidon as light_hasher::Hasher>::zero_bytes()[level]
}

/// Relies on `solana_sha256_hasher::hash`: the 32-byte SHA-256 digest of the
/// input, a function of the input alone.
#[verifier::external_body]
pub fn sha256_digest(data: &[u8]) -> (h: [u8; 32])
    ensures
        h@ == sha256_hash(data@),
{
    solana_sha256_hasher::hash(data).to_bytes()
}

} // verus!
