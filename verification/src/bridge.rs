//! Trusted declarations of the outside calls the library relies on.

use vstd::prelude::*;

use crate::header::bytes_to_chars;

verus! {

/// Hexadecimal SHA-256 digest of a byte sequence. The digest is a function
/// of the bytes alone; its value is not spelled out here.
pub uninterp spec fn sha256_of(bytes: Seq<u8>) -> Seq<u8>;

/// Relies on `String::from_utf8`: bytes below 128 decode to exactly one
/// character per byte, each with the byte's code.
#[verifier::external_body]
pub(crate) fn ascii_bytes_to_string(b: Vec<u8>) -> (r: String)
    requires
        forall|i: int| 0 <= i < b@.len() ==> b@[i] < 128,
    ensures
        r@ == bytes_to_chars(b@),
{
    match String::from_utf8(b) {
        Ok(s) => s,
        Err(_) => String::new(),
    }
}

/// Relies on `sha2::Sha256` (through the `Digest` trait): the digest is 32
/// bytes and depends on the input bytes alone.
#[verifier::external_body]
pub(crate) fn sha256_digest(bytes: &[u8]) -> (r: Vec<u8>)
    ensures
        r@ == sha256_of(bytes@),
        r@.len() == 32,
{
    <sha2::Sha256 as sha2::Digest>::digest(bytes).to_vec()
}

} // verus!
