//! The failures that decoding and editing a PNG chunk stream can report.

use vstd::prelude::*;

verus! {

/// Why an operation on a tag, a chunk or a chunk stream did not succeed.
#[derive(Debug, Clone, Copy, PartialEq, Eq, Structural)]
pub enum PngError {
    /// A chunk type is not made of exactly four ASCII letters.
    InvalidTag,
    /// The buffer ends before the chunk frame does.
    TooShort,
    /// The stored checksum differs from the one computed over type and data.
    ChecksumMismatch,
    /// The buffer does not begin with the PNG signature.
    BadSignature,
    /// No chunk of the requested type is present.
    NotFound,
    /// The chunk data is not valid UTF-8.
    Utf8Error,
}

} // verus!
