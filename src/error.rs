//! The error type shared by the encoder and the decoder.
use vstd::prelude::*;

use std::str::Utf8Error;

verus! {

#[verifier::external_type_specification]
#[verifier::external_body]
pub struct ExUtf8Error(Utf8Error);

/// Why an encode or a decode failed.
#[derive(Debug)]
pub enum Error {
    /// Writing to the sink or reading from the source failed; running out of
    /// bytes in the middle of a value is one such failure.
    Io(String),
    /// The bytes read for a character or a string are not valid UTF-8.
    Encoding(Utf8Error),
    /// A value's own description of itself raised an error.
    Unknown(String),
    /// The requested shape cannot be decoded by this codec; the text names the operation.
    Unsupported(&'static str),
}

/// The category of an [`Error`], without its details.
#[derive(Clone, Copy, Debug, PartialEq, Eq, Structural)]
pub enum ErrorKind {
    Io,
    Encoding,
    Unknown,
    Unsupported,
}

/// The category of `e`.
pub open spec fn kind_of(e: Error) -> ErrorKind {
    match e {
        Error::Io(_) => ErrorKind::Io,
        Error::Encoding(_) => ErrorKind::Encoding,
        Error::Unknown(_) => ErrorKind::Unknown,
        Error::Unsupported(_) => ErrorKind::Unsupported,
    }
}

/// The text that an I/O error carries when the source ends in the middle of a value.
pub const UNEXPECTED_EOF: &'static str = "failed to fill whole buffer";

impl Error {
    /// The category of this error.
    pub fn kind(&self) -> (k: ErrorKind)
        ensures
            k == kind_of(*self),
    {
        match self {
            Error::Io(_) => ErrorKind::Io,
            Error::Encoding(_) => ErrorKind::Encoding,
            Error::Unknown(_) => ErrorKind::Unknown,
            Error::Unsupported(_) => ErrorKind::Unsupported,
        }
    }

    /// The error for a source that ends before the value being read is complete.
    pub fn unexpected_eof() -> (e: Error)
        ensures
            kind_of(e) == ErrorKind::Io,
    {
        Error::Io(String::from_str(UNEXPECTED_EOF))
    }
}

} // verus!
