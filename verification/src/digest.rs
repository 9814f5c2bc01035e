//! Bindings to the xxHash-3 content-hash functions.
//!
//! The two hashes are deterministic functions of their input bytes alone,
//! so their results carry names (`xxh64_of`, `xxh128_of_str`) that the
//! rest of the library reasons with.  Nothing is assumed about the hash
//! values themselves.

use vstd::prelude::*;

verus! {

/// The 64-bit xxHash-3 digest of a byte string: a fixed function of the
/// bytes alone, identical across processes and machines.
pub uninterp spec fn xxh64_of(bytes: Seq<u8>) -> u64;

/// The 128-bit xxHash-3 digest of the UTF-8 encoding of a character
/// string: a fixed function of the characters alone.
pub uninterp spec fn xxh128_of_str(s: Seq<char>) -> u128;

/// Relies on xxhash_rust::xxh3::xxh3_64: a deterministic digest of the
/// input bytes.
#[verifier::external_body]
pub fn hash_bytes(bytes: &[u8]) -> (r: u64)
    ensures
        r == xxh64_of(bytes@),
{
    xxhash_rust::xxh3::xxh3_64(bytes)
}

/// Relies on xxhash_rust::xxh3::xxh3_128 applied to the UTF-8 bytes of the
/// string: a deterministic digest of the characters.
#[verifier::external_body]
pub fn hash_str_128(s: &str) -> (r: u128)
    ensures
        r == xxh128_of_str(s@),
{
    xxhash_rust::xxh3::xxh3_128(s.as_bytes())
}

} // verus!
