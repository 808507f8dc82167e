//! The error taxonomy of the crate: a machine-matchable kind wrapped in a
//! single error type.

use vstd::prelude::*;

verus! {

/// Why a header value or token was rejected.
#[derive(Clone, Copy, Debug, PartialEq, Eq, Structural)]
pub enum ErrorKind {
    /// A quality value was present but is not a well-formed q-value in
    /// `[0, 1]`, or a header value holds bytes that are not visible ASCII.
    InvalidEncoding,
    /// A token names no recognized encoding. Only the strict single-token
    /// parser returns this; the header-wide scan drops unknown tokens.
    UnknownEncoding,
}

/// An error returned by the parsing entry points.
#[derive(Clone, Copy, Debug, PartialEq, Eq, Structural)]
pub struct Error {
    /// The machine-matchable kind of this error.
    pub kind: ErrorKind,
}

impl Error {
    /// An error for a malformed quality value or a non-ASCII header value.
    pub fn invalid_encoding() -> (e: Error)
        ensures
            e == (Error { kind: ErrorKind::InvalidEncoding }),
    {
        Error { kind: ErrorKind::InvalidEncoding }
    }

    /// An error for a token that names no recognized encoding.
    pub fn unknown_encoding() -> (e: Error)
        ensures
            e == (Error { kind: ErrorKind::UnknownEncoding }),
    {
        Error { kind: ErrorKind::UnknownEncoding }
    }

    /// The machine-matchable kind of this error.
    pub fn kind(&self) -> (k: ErrorKind)
        ensures
            k == self.kind,
    {
        self.kind
    }

    /// A human-readable description of this error.
    pub fn message(&self) -> (m: String)
        ensures
            self.kind == ErrorKind::InvalidEncoding ==> m@ == "invalid quality value or header encoding"@,
            self.kind == ErrorKind::UnknownEncoding ==> m@ == "unknown encoding token"@,
    {
        match self.kind {
            ErrorKind::InvalidEncoding => "invalid quality value or header encoding".to_owned(),
            ErrorKind::UnknownEncoding => "unknown encoding token".to_owned(),
        }
    }
}

} // verus!
