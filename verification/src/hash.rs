//! Keccak-256, the hash behind commitments and function selectors.

use vstd::prelude::*;
use sha3::{Digest, Keccak256};
use crate::hexcode::{hex_prefixed, to_hex_prefixed};

verus! {

/// The Keccak-256 digest of `data`: what `sha3::Keccak256::digest` returns
/// for these bytes.
pub uninterp spec fn keccak256_digest(data: Seq<u8>) -> Seq<u8>;

/// `sha3::Keccak256::digest`: hashes `data` in one call; the 32 bytes that
/// come back depend on `data` alone.
#[verifier::external_body]
pub(crate) fn keccak256_raw(data: &[u8]) -> (h: [u8; 32])
    ensures
        h@ == keccak256_digest(data@),
{
    Keccak256::digest(data).into()
}

/// The Keccak-256 digest of the bytes, as `0x` and 64 lowercase hexadecimal
/// digits.
pub fn keccak256(hex_input: &[u8]) -> (s: String)
    ensures
        s@ == hex_prefixed(keccak256_digest(hex_input@)),
        s@.len() == 66,
{
    let h = keccak256_raw(hex_input);
    to_hex_prefixed(h.as_slice())
}

} // verus!
