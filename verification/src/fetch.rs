//! The range-fetch client's verified core: the download URL, the range
//! request value, the length prefix decoder, and the exact-length check
//! on fetched bytes. Sending the request and streaming the response stay
//! outside the library; every byte count and every string handed to the
//! transport is fixed here.

use vstd::prelude::*;

use crate::errors::FetchError;
use crate::header::bytes_to_chars;
use crate::ser::dec_digits;

verus! {

/// Decodes the container's 8-byte little-endian length prefix.
///
/// Returns the header length exactly when the prefix holds eight bytes.
pub fn header_length_from_prefix(bytes: &[u8]) -> (r: Option<u64>)
    ensures
        bytes@.len() == 8 ==> r == Some(vstd::bytes::spec_u64_from_le_bytes(bytes@)),
        bytes@.len() != 8 ==> r is None,
{
    if bytes.len() == 8 {
        Some(vstd::bytes::u64_from_le_bytes(bytes))
    } else {
        None
    }
}

/// The download URL of a file of a model.
pub open spec fn download_url(model_id: Seq<char>, file_name: Seq<char>) -> Seq<char> {
    "https://huggingface.co/"@ + model_id + "/resolve/main/"@ + file_name + "?download=true"@
}

/// Builds the download URL of a file of a model.
pub fn get_download_url_from_model_id(model_id: &str, file_name: &str) -> (r: String)
    ensures
        r@ == download_url(model_id@, file_name@),
{
    let mut s = ("https://huggingface.co/").to_owned();
    vstd::string::StringExecFns::append(&mut s, model_id);
    vstd::string::StringExecFns::append(&mut s, "/resolve/main/");
    vstd::string::StringExecFns::append(&mut s, file_name);
    vstd::string::StringExecFns::append(&mut s, "?download=true");
    s
}

/// The partial-content request value naming the inclusive byte span
/// `[offset, offset + count - 1]`.
pub open spec fn range_value(offset: u64, count: u64) -> Seq<char> {
    "bytes="@ + bytes_to_chars(dec_digits(offset as nat)) + "-"@ + bytes_to_chars(
        dec_digits((offset + count - 1) as nat),
    )
}

/// Builds the partial-content request value for `count` bytes from
/// `offset`. An empty span or one running past the largest offset is a
/// range error.
pub fn range_request_value(offset: u64, count: u64) -> (r: Result<String, FetchError>)
    ensures
        match r {
            Ok(s) => count >= 1 && offset + count - 1 <= u64::MAX && s@ == range_value(
                offset,
                count,
            ),
            Err(e) => (count == 0 || offset + count - 1 > u64::MAX) && e matches
                FetchError::BadRange,
        },
{
    if count == 0 {
        return Err(FetchError::BadRange);
    }
    if offset > u64::MAX - (count - 1) {
        return Err(FetchError::BadRange);
    }
    let last = offset + (count - 1);
    let mut out: Vec<u8> = Vec::new();
    proof {
        reveal_strlit("bytes=");
        reveal_strlit("-");
        assert(("bytes=").is_ascii());
        assert(("-").is_ascii());
    }
    crate::ser::append_ascii(&mut out, "bytes=");
    crate::ser::append_u64_dec(&mut out, offset);
    crate::ser::append_ascii(&mut out, "-");
    crate::ser::append_u64_dec(&mut out, last);
    proof {
        crate::roundtrip::lemma_dec_digits_are_digits(offset as nat);
        crate::roundtrip::lemma_dec_digits_are_digits(last as nat);
        assert(forall|i: int| 0 <= i < out@.len() ==> #[trigger] out@[i] < 128) by {
            assert(out@ == chars_to_bytes_of_range(offset, count));
        }
    }
    let s = crate::bridge::ascii_bytes_to_string(out);
    proof {
        assert(s@ =~= range_value(offset, count));
    }
    Ok(s)
}

/// The bytes of the range request value.
pub open spec fn chars_to_bytes_of_range(offset: u64, count: u64) -> Seq<u8> {
    crate::header::chars_to_bytes("bytes="@) + dec_digits(offset as nat)
        + crate::header::chars_to_bytes("-"@) + dec_digits((offset + count - 1) as nat)
}

/// Accepts fetched bytes exactly when as many arrived as were requested; a
/// short or long read is a truncation error, never a silent success.
pub fn check_fetched(expected: u64, bytes: Vec<u8>) -> (r: Result<Vec<u8>, FetchError>)
    ensures
        match r {
            Ok(out) => out@ == bytes@ && bytes@.len() == expected,
            Err(e) => bytes@.len() != expected && (e matches FetchError::TruncatedFetch {
                expected: x,
                got,
            } && x == expected && got == bytes@.len()),
        },
{
    let got = bytes.len() as u64;
    if got != expected {
        return Err(FetchError::TruncatedFetch { expected, got });
    }
    Ok(bytes)
}

/// The directory and file path of a model's hash results:
/// `base/results/account/model` and `.../hashes.json`.
pub fn hashes_file_dir_and_path(base: &str, account: &str, model: &str) -> (r: (String, String))
    ensures
        r.0@ == base@ + "/results/"@ + account@ + "/"@ + model@,
        r.1@ == r.0@ + "/hashes.json"@,
{
    let mut dir = base.to_owned();
    vstd::string::StringExecFns::append(&mut dir, "/results/");
    vstd::string::StringExecFns::append(&mut dir, account);
    vstd::string::StringExecFns::append(&mut dir, "/");
    vstd::string::StringExecFns::append(&mut dir, model);
    let mut path = dir.clone();
    vstd::string::StringExecFns::append(&mut path, "/hashes.json");
    (dir, path)
}

} // verus!
