//! The failure taxonomy of the engine: path classification, cryptographic
//! steps and container structure each fail with their own kind, and every
//! kind carries a human-readable description.

use vstd::prelude::*;

verus! {

/// Why an input path could not be used.
#[derive(Debug, Clone, Copy, PartialEq, Eq, Structural)]
pub enum PathError {
    /// The input path does not exist.
    Missing,
    /// The path exists but is neither a regular file nor a directory.
    UnknownKind,
}

/// Why a cryptographic step failed.
#[derive(Debug, Clone, Copy, PartialEq, Eq, Structural)]
pub enum CryptoError {
    /// The persisted salt line cannot be decoded, so no key can be derived.
    InvalidSalt,
    /// The operating system's random source yielded no bytes.
    RandomSource,
    /// The header names an encryption method this library does not know.
    UnsupportedMethod,
}

/// Why a container or header record is structurally invalid.
#[derive(Debug, Clone, Copy, PartialEq, Eq, Structural)]
pub enum FormatError {
    /// A header record was decoded from a buffer of the wrong width.
    HeaderLength,
    /// A length field points past the end of the header record.
    FieldOutOfBounds,
    /// An embedded name or path is not valid UTF-8.
    InvalidUtf8,
    /// The name and path do not fit in the fixed-width header record.
    RecordTooLarge,
    /// The container has no newline-terminated salt line.
    MissingSaltLine,
    /// The container ends before the nonce or the header record is complete.
    Truncated,
}

/// One failure of the engine, classified by the component that raised it.
#[derive(Debug, Clone, Copy, PartialEq, Eq, Structural)]
pub enum Error {
    Path(PathError),
    Crypto(CryptoError),
    Format(FormatError),
}

/// The description `message` returns for each failure.
pub open spec fn spec_message(e: Error) -> Seq<char> {
    match e {
        Error::Path(PathError::Missing) => "input path does not exist"@,
        Error::Path(PathError::UnknownKind) => "input path is neither a file nor a directory"@,
        Error::Crypto(CryptoError::InvalidSalt) => "invalid salt format"@,
        Error::Crypto(CryptoError::RandomSource) => "random source unavailable"@,
        Error::Crypto(CryptoError::UnsupportedMethod) => "invalid encryption method"@,
        Error::Format(FormatError::HeaderLength) => "incorrect header"@,
        Error::Format(FormatError::FieldOutOfBounds) => "failed to get slice"@,
        Error::Format(FormatError::InvalidUtf8) => "invalid UTF-8 in name"@,
        Error::Format(FormatError::RecordTooLarge) => "record too large for header"@,
        Error::Format(FormatError::MissingSaltLine) => "failed to read salt"@,
        Error::Format(FormatError::Truncated) => "container is truncated"@,
    }
}

impl Error {
    /// A human-readable description of the failure.
    pub fn message(&self) -> (r: &'static str)
        ensures
            r@ == spec_message(*self),
    {
        match *self {
            Error::Path(PathError::Missing) => "input path does not exist",
            Error::Path(PathError::UnknownKind) => "input path is neither a file nor a directory",
            Error::Crypto(CryptoError::InvalidSalt) => "invalid salt format",
            Error::Crypto(CryptoError::RandomSource) => "random source unavailable",
            Error::Crypto(CryptoError::UnsupportedMethod) => "invalid encryption method",
            Error::Format(FormatError::HeaderLength) => "incorrect header",
            Error::Format(FormatError::FieldOutOfBounds) => "failed to get slice",
            Error::Format(FormatError::InvalidUtf8) => "invalid UTF-8 in name",
            Error::Format(FormatError::RecordTooLarge) => "record too large for header",
            Error::Format(FormatError::MissingSaltLine) => "failed to read salt",
            Error::Format(FormatError::Truncated) => "container is truncated",
        }
    }
}

} // verus!
