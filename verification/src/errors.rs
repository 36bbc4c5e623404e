//! The shared failure-reporting convention: a tagged error with a
//! human-readable message.

use vstd::prelude::*;
use vstd::string::*;

verus! {

/// The closed taxonomy of expected failure modes.
#[derive(Debug, Clone, Copy, PartialEq, Eq, Structural)]
pub enum ErrorKind {
    /// Malformed username or finger-name encoding.
    InvalidArgument,
    /// Hardware absent.
    Unavailable,
    /// Duplicate enrollment name.
    Conflict,
    /// An expected system file is missing.
    NotFound,
    /// Privilege elevation refused or failed.
    PermissionDenied,
    /// A read, write or network transfer failed.
    IoFailure,
    /// The native library returned an unmapped code.
    Unknown,
}

/// One reported failure: a tag from the closed taxonomy and a
/// human-readable message.
#[derive(Debug, Clone)]
pub struct NativeError {
    pub kind: ErrorKind,
    pub message: String,
}

impl NativeError {
    /// Builds an error from a tag and a fixed message.
    pub fn new(kind: ErrorKind, message: &str) -> (r: NativeError)
        ensures
            r.kind == kind,
            r.message@ == message@,
    {
        NativeError { kind, message: String::from_str(message) }
    }

    /// The human-readable message, for surfacing to a caller.
    pub fn message_text(&self) -> (r: String)
        ensures
            r@ == self.message@,
    {
        self.message.clone()
    }

    /// A failed read, write or transfer, with its detail appended.
    pub fn io_failure(context: &str, detail: &str) -> (r: NativeError)
        ensures
            r.kind == ErrorKind::IoFailure,
            r.message@ == context@ + detail@,
    {
        let mut message = String::from_str(context);
        message.append(detail);
        NativeError { kind: ErrorKind::IoFailure, message }
    }
}

} // verus!
