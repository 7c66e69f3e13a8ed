//! Selector hashing.
//!
//! A selector is the first four bytes of a digest of the canonical signature
//! byte string, read most significant byte first.  Two interchangeable
//! digest algorithms are supported, so that the same contract can be
//! deployed against either convention; which one routes a call is a
//! build-time configuration.  Hashing is a pure function of the input
//! bytes: no randomness and no environment enters, so identical canonical
//! strings always yield identical selectors.

use vstd::prelude::*;
use crate::ty::{spec_canon_sig, TypeDescriptor, canonical_signature};

verus! {

/// The digest algorithms a deployment target may require.
#[derive(Clone, Copy, PartialEq, Eq, Structural, Debug)]
pub enum HashAlgorithm {
    /// Keccak-256, the convention of Ethereum-style targets.
    Keccak256,
    /// SM3, the convention of GM/T-style targets.
    Sm3,
}

/// The Keccak-256 digest of a byte sequence.  The digest is a pure function
/// of the input bytes; its 32-byte value is pinned by [`keccak256_digest`].
pub uninterp spec fn spec_keccak256(input: Seq<u8>) -> Seq<u8>;

/// The SM3 digest of a byte sequence.  The digest is a pure function of the
/// input bytes; its 32-byte value is pinned by [`sm3_digest`].
pub uninterp spec fn spec_sm3(input: Seq<u8>) -> Seq<u8>;

/// Relies on `tiny_keccak::Keccak::v256`: absorbing `input` and squeezing
/// produces the 32-byte Keccak-256 digest, a function of `input` alone.
#[verifier::external_body]
fn keccak256_digest(input: &[u8]) -> (r: Vec<u8>)
    ensures
        r@ == spec_keccak256(input@),
        r@.len() == 32,
{
    let mut hasher = tiny_keccak::Keccak::v256();
    tiny_keccak::Hasher::update(&mut hasher, input);
    let mut out = [0u8; 32];
    tiny_keccak::Hasher::finalize(hasher, &mut out);
    out.to_vec()
}

/// Relies on `sm3::Sm3` (via the `digest` traits): updating with `input`
/// and finalizing produces the 32-byte SM3 digest, a function of `input`
/// alone.
#[verifier::external_body]
fn sm3_digest(input: &[u8]) -> (r: Vec<u8>)
    ensures
        r@ == spec_sm3(input@),
        r@.len() == 32,
{
    let mut hasher = sm3::Sm3::default();
    sm3::Digest::update(&mut hasher, input);
    let out = sm3::Digest::finalize(hasher);
    out.to_vec()
}

/// The digest of `input` under `algo`.
pub open spec fn spec_digest(input: Seq<u8>, algo: HashAlgorithm) -> Seq<u8> {
    match algo {
        HashAlgorithm::Keccak256 => spec_keccak256(input),
        HashAlgorithm::Sm3 => spec_sm3(input),
    }
}

/// Assemble a selector word from the first four bytes of a digest, most
/// significant byte first.
pub open spec fn spec_selector_word(b0: u8, b1: u8, b2: u8, b3: u8) -> u32 {
    (b0 * 0x100_0000 + b1 * 0x1_0000 + b2 * 0x100 + b3) as u32
}

/// The selector of a canonical signature byte string under `algo`: the
/// first four digest bytes, most significant first.  Meaningful when the
/// digest has at least four bytes, which both algorithms guarantee.
pub open spec fn spec_selector(input: Seq<u8>, algo: HashAlgorithm) -> u32 {
    let d = spec_digest(input, algo);
    spec_selector_word(d[0], d[1], d[2], d[3])
}

/// Combine four digest bytes into the 4-byte selector value.
pub fn selector_word(b0: u8, b1: u8, b2: u8, b3: u8) -> (r: u32)
    ensures
        r == spec_selector_word(b0, b1, b2, b3),
{
    (b0 as u32) * 0x100_0000 + (b1 as u32) * 0x1_0000 + (b2 as u32) * 0x100 + (b3 as u32)
}

/// Hash a canonical signature byte string to its selector under `algo`.
pub fn hash_selector(input: &Vec<u8>, algo: HashAlgorithm) -> (r: u32)
    ensures
        r == spec_selector(input@, algo),
{
    let digest = match algo {
        HashAlgorithm::Keccak256 => keccak256_digest(input.as_slice()),
        HashAlgorithm::Sm3 => sm3_digest(input.as_slice()),
    };
    selector_word(digest[0], digest[1], digest[2], digest[3])
}

/// The selector of the function `name(T1,...,Tn)` under `algo`.
pub open spec fn spec_selector_for(
    name: Seq<u8>,
    params: Seq<TypeDescriptor>,
    algo: HashAlgorithm,
) -> u32 {
    spec_selector(spec_canon_sig(name, params), algo)
}

/// Derive the selector of a function from its name and ordered parameter
/// types: canonicalize, hash, truncate.  This is the pure derivation any
/// external tool can reproduce for a known signature.
pub fn selector_for(name: &Vec<u8>, params: &Vec<TypeDescriptor>, algo: HashAlgorithm) -> (r: u32)
    ensures
        r == spec_selector_for(name@, params@, algo),
{
    let sig = canonical_signature(name, params);
    hash_selector(&sig, algo)
}

/// Selector hashing is deterministic: equal canonical strings under the
/// same algorithm always yield the same selector.
pub proof fn lemma_selector_deterministic(s1: Seq<u8>, s2: Seq<u8>, algo: HashAlgorithm)
    requires
        s1 == s2,
    ensures
        spec_selector(s1, algo) == spec_selector(s2, algo),
{
}

} // verus!
