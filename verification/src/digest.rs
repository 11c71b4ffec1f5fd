//! Content digests of canonical objects.

use vstd::bytes::{spec_u64_from_le_bytes, u64_from_le_bytes};
use vstd::prelude::*;

verus! {

/// A 32-byte content digest, held as four little-endian words.
#[derive(Clone, Copy, Debug, PartialEq, Eq, Structural)]
pub struct ObjectDigest {
    pub w0: u64,
    pub w1: u64,
    pub w2: u64,
    pub w3: u64,
}

impl ObjectDigest {
    /// The digest whose little-endian bytes are `bytes`.
    pub open spec fn from_bytes(bytes: Seq<u8>) -> ObjectDigest {
        ObjectDigest {
            w0: spec_u64_from_le_bytes(bytes.subrange(0, 8)),
            w1: spec_u64_from_le_bytes(bytes.subrange(8, 16)),
            w2: spec_u64_from_le_bytes(bytes.subrange(16, 24)),
            w3: spec_u64_from_le_bytes(bytes.subrange(24, 32)),
        }
    }
}

/// The 32-byte BLAKE3 digest of a byte string.
pub uninterp spec fn blake3_digest(bytes: Seq<u8>) -> Seq<u8>;

/// `blake3::hash`: the BLAKE3 digest of `bytes`, a function of `bytes` alone.
#[verifier::external_body]
pub(crate) fn blake3_hash(bytes: &[u8]) -> (r: [u8; 32])
    ensures
        r@ == blake3_digest(bytes@),
{
    *blake3::hash(bytes).as_bytes()
}

/// The 32-byte key BLAKE3 derives from `material` under `context`.
pub uninterp spec fn blake3_derived_key(context: Seq<char>, material: Seq<u8>) -> Seq<u8>;

/// `blake3::derive_key`: the key derived from `material` in BLAKE3's key-derivation mode under
/// the context string `context`, a function of both alone. Feeding the same material to a
/// `Hasher::new_derive_key(context)` in pieces gives the same key.
#[verifier::external_body]
pub(crate) fn blake3_derive_key(context: &str, material: &[u8]) -> (r: [u8; 32])
    ensures
        r@ == blake3_derived_key(context@, material@),
{
    blake3::derive_key(context, material)
}

fn word_at(bytes: &[u8; 32], start: usize) -> (r: u64)
    requires
        start + 8 <= 32,
    ensures
        r == spec_u64_from_le_bytes(bytes@.subrange(start as int, start + 8)),
{
    let chunk: [u8; 8] = [
        bytes[start],
        bytes[start + 1],
        bytes[start + 2],
        bytes[start + 3],
        bytes[start + 4],
        bytes[start + 5],
        bytes[start + 6],
        bytes[start + 7],
    ];
    assert(chunk@ =~= bytes@.subrange(start as int, start + 8));
    u64_from_le_bytes(chunk.as_slice())
}

impl ObjectDigest {
    /// The digest whose little-endian bytes are `bytes`.
    pub fn from_array(bytes: &[u8; 32]) -> (r: ObjectDigest)
        ensures
            r == ObjectDigest::from_bytes(bytes@),
    {
        ObjectDigest {
            w0: word_at(bytes, 0),
            w1: word_at(bytes, 8),
            w2: word_at(bytes, 16),
            w3: word_at(bytes, 24),
        }
    }

    /// The BLAKE3 digest of `bytes`.
    pub fn of(bytes: &[u8]) -> (r: ObjectDigest)
        ensures
            r == ObjectDigest::from_bytes(blake3_digest(bytes@)),
    {
        let hash = blake3_hash(bytes);
        ObjectDigest::from_array(&hash)
    }
}

} // verus!
