//! The fingerprinter: a fixed-size cryptographic digest over fetched bytes.
//!
//! A fingerprint stands for the content of one fetch at a point in time;
//! two fetches with the same bytes always yield the same fingerprint.
use vstd::prelude::*;
use sha2::Digest;

verus! {

/// Byte length of a content fingerprint.
pub const FINGERPRINT_LEN: usize = 32;

/// The digest the fingerprinter assigns to a byte string: a fixed function
/// of the bytes alone.
pub uninterp spec fn sha256_of(data: Seq<u8>) -> Seq<u8>;

/// Relies on sha2::Sha256 through Digest::digest: SHA-256 is a
/// deterministic function of the input bytes alone and always produces a
/// 32-byte digest; it accepts any input, including empty bytes.
#[verifier::external_body]
fn sha256_digest(data: &Vec<u8>) -> (r: Vec<u8>)
    ensures
        r@ == sha256_of(data@),
        r@.len() == FINGERPRINT_LEN,
{
    sha2::Sha256::digest(data.as_slice()).to_vec()
}

/// Computes the fingerprint of fetched page bytes.
pub fn fingerprint(data: &Vec<u8>) -> (r: Vec<u8>)
    ensures
        r@ == sha256_of(data@),
        r@.len() == FINGERPRINT_LEN,
{
    sha256_digest(data)
}

} // verus!
