//! Error kinds surfaced by decoding and mutation operations.
//!
//! Structural absence (a path that does not resolve) is never an error: it is
//! reported as `None` or `false`. Errors mean that the bytes themselves could
//! not be interpreted.

use vstd::prelude::*;

verus! {

/// Why an operation on a buffer failed.
#[derive(Clone, Copy, PartialEq, Eq, Structural, Debug)]
pub enum OdsError {
    /// A read requested more bytes than remain in the current byte range.
    UnexpectedEof,
    /// Bytes could not be interpreted: an invalid UTF-8 string, an
    /// unrecognized type byte, or a record whose body size cannot even cover
    /// its own name-length field.
    DecodeError,
    /// The requested operation is not defined for the value kind it was
    /// applied to.
    UnsupportedOperation,
}

impl OdsError {
    /// A short human-readable description of the error kind.
    pub fn describe(&self) -> (r: &'static str)
        ensures
            r@ == match self {
                OdsError::UnexpectedEof => "unexpected end of data"@,
                OdsError::DecodeError => "the bytes could not be decoded"@,
                OdsError::UnsupportedOperation => "unsupported operation"@,
            },
    {
        match self {
            OdsError::UnexpectedEof => "unexpected end of data",
            OdsError::DecodeError => "the bytes could not be decoded",
            OdsError::UnsupportedOperation => "unsupported operation",
        }
    }
}

} // verus!
