//! The failures that stop a file from loading or from being written.

use vstd::prelude::*;

verus! {

/// The framing of a file, or of the character record in it, is wrong.
#[derive(Clone, Copy, Debug, PartialEq, Eq)]
pub enum FormatError {
    /// The file does not start with the magic bytes.
    BadMagic,
    /// The bytes end inside a field.
    Truncated,
    /// The declared payload length is not the number of bytes that follow.
    LengthMismatch,
    /// A string field is not UTF-8.
    BadString,
    /// The character payload is not a well-formed sequence of records.
    MalformedRecord,
    /// A length does not fit the four bytes that have to hold it.
    TooLong,
}

/// The payload could not be trusted.
#[derive(Clone, Copy, Debug, PartialEq, Eq)]
pub enum IntegrityError {
    /// The payload is too short to hold a digest.
    Truncated,
    /// The digest is not that of the decrypted bytes: the payload is
    /// damaged, or the key is not the one it was sealed with.
    DigestMismatch,
}

/// A compressed dataset could not be unpacked.
#[derive(Clone, Copy, Debug, PartialEq, Eq)]
pub enum ResourceError {
    /// The bytes are not a stream of Snappy frames, or a frame is damaged.
    BadCompression,
}

/// Why a file did not load.
#[derive(Clone, Copy, Debug, PartialEq, Eq)]
pub enum LoadError {
    Format(FormatError),
    Integrity(IntegrityError),
}

} // verus!
