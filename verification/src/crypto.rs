//! Cryptographic primitives the protocols rest on: a one-way block hash built
//! on SHA-256 and a keyed universal hash built on Poly1305.
//!
//! Both digests are named rather than defined: `sha256_of` and `poly1305_of`
//! stand for whatever the outside functions compute, which is a function of
//! the arguments alone. Everything layered on top is verified against those
//! names.

use vstd::prelude::*;
use crate::bytes::{le_of, from_le_of, to_le, from_le, lemma_from_le_bound, lemma_pow256_16_val};

verus! {

/// The SHA-256 digest of a byte sequence.
pub uninterp spec fn sha256_of(data: Seq<u8>) -> Seq<u8>;

/// The Poly1305 tag of a message under a 32-byte key.
pub uninterp spec fn poly1305_of(key: Seq<u8>, data: Seq<u8>) -> Seq<u8>;

/// Relies on sha2's SHA-256: a 32-byte digest determined by the input bytes
/// alone.
#[verifier::external_body]
pub(crate) fn sha256(data: &[u8]) -> (r: Vec<u8>)
    ensures
        r@ == sha256_of(data@),
        r@.len() == 32,
{
    <sha2::Sha256 as sha2::Digest>::digest(data).0.to_vec()
}

/// Relies on poly1305's compute_unpadded: a 16-byte tag determined by the key
/// and the message alone.
#[verifier::external_body]
pub(crate) fn poly1305_tag(key: &[u8], data: &[u8]) -> (r: Vec<u8>)
    requires
        key@.len() == 32,
    ensures
        r@ == poly1305_of(key@, data@),
        r@.len() == 16,
{
    let h = <poly1305::Poly1305 as universal_hash::KeyInit>::new_from_slice(key).unwrap();
    h.compute_unpadded(data).0.to_vec()
}

/// The hash of one 128-bit block under a 128-bit tweak: the first 16 bytes of
/// the SHA-256 digest of the two blocks' byte encodings, read as an integer.
pub open spec fn hash_block_of(b: u128, t: u128) -> u128 {
    from_le_of(sha256_of(le_of(b as int, 16) + le_of(t as int, 16)).take(16)) as u128
}

/// The hash of a pair of 128-bit blocks under a 128-bit tweak.
pub open spec fn hash_block2_of(b1: u128, b2: u128, t: u128) -> u128 {
    from_le_of(
        sha256_of(le_of(b1 as int, 16) + le_of(b2 as int, 16) + le_of(t as int, 16)).take(16),
    ) as u128
}

/// Domain-separated hash of a block, used for garbled-table rows, output
/// decoding and wire-label commitments.
pub fn hash_block(b: u128, t: u128) -> (r: u128)
    ensures
        r == hash_block_of(b, t),
{
    let mut input = to_le(b, 16);
    let mut tb = to_le(t, 16);
    input.append(&mut tb);
    let d = sha256(input.as_slice());
    let half = vstd::slice::slice_subrange(d.as_slice(), 0, 16);
    proof {
        assert(half@ =~= sha256_of(le_of(b as int, 16) + le_of(t as int, 16)).take(16));
        lemma_from_le_bound(half@);
        lemma_pow256_16_val();
    }
    from_le(half)
}

/// Domain-separated hash of a pair of blocks, used to key two-input
/// garbled-table rows.
pub fn hash_block2(b1: u128, b2: u128, t: u128) -> (r: u128)
    ensures
        r == hash_block2_of(b1, b2, t),
{
    let mut input = to_le(b1, 16);
    let mut sb = to_le(b2, 16);
    input.append(&mut sb);
    let mut tb = to_le(t, 16);
    input.append(&mut tb);
    let d = sha256(input.as_slice());
    let half = vstd::slice::slice_subrange(d.as_slice(), 0, 16);
    proof {
        assert(half@ =~= sha256_of(
            le_of(b1 as int, 16) + le_of(b2 as int, 16) + le_of(t as int, 16),
        ).take(16));
        lemma_from_le_bound(half@);
        lemma_pow256_16_val();
    }
    from_le(half)
}

/// The tweak that separates hash domains: a gate or output index in the low
/// half and a row or role index in the high half.
pub open spec fn tweak2_of(i: u64, j: u64) -> u128 {
    (i as u128) | ((j as u128) << 64)
}

/// Combine two 64-bit indices into one 128-bit tweak.
pub fn tweak2(i: u64, j: u64) -> (r: u128)
    ensures
        r == tweak2_of(i, j),
{
    (i as u128) | ((j as u128) << 64)
}

} // verus!
