//! Error taxonomy of the library.

use vstd::prelude::*;

verus! {

/// A malformed container header.
#[derive(Debug)]
pub enum FormatError {
    /// Fewer than eight bytes were available for the length prefix.
    MissingLengthPrefix,
    /// The buffer holds fewer body bytes than the length prefix promises.
    TruncatedBody,
    /// The JSON body does not follow the header grammar or a key repeats.
    MalformedBody,
    /// The named tensor's entry is malformed: its metadata object does not
    /// follow the grammar or its byte range is reversed.
    BadTensor { name: String },
}

/// A failed or short range fetch.
#[derive(Debug)]
pub enum FetchError {
    /// The requested byte range is empty or runs past the largest offset.
    BadRange,
    /// The response carried fewer or more bytes than requested.
    TruncatedFetch { expected: u64, got: u64 },
}

/// A failed reassembly.
#[derive(Debug)]
pub enum ExportError {
    /// The tensor ranges do not tile the data region in header order.
    BadLayout { name: String },
    /// A tensor has no stored bytes under its name.
    MissingBlob { name: String },
    /// A stored blob's length differs from the tensor's byte range.
    WrongSizeBlob { name: String },
}

} // verus!
