//! Native-integration layer of a desktop biometric-enrollment application.
//!
//! Three independent components share one failure-reporting convention and
//! one outward notification model:
//!
//! * fingerprint bridge decisions: input validation, outcome mapping, and the
//!   enrolled-finger cache kept consistent with the native store;
//! * PAM sync engine: reconciling a desired enabled/disabled state with the
//!   literal text of the system authentication stack file, and the backed-up
//!   commit protocol for writing it back;
//! * model download manager: collision-free destination resolution and
//!   progress accounting for streamed downloads.

pub mod capture;
pub mod commit;
pub mod configmodel;
pub mod download;
pub mod errors;
pub mod fingerprint;
pub mod lines;
pub mod numfmt;
pub mod pam;
pub mod strutil;

use vstd::prelude::*;

verus! {

/// The discriminated outcome of one native authentication attempt.
#[derive(Debug, Clone, Copy, PartialEq, Eq, Structural)]
pub enum AuthResult {
    Success,
    Failure,
    Unavailable,
    Retry,
    Unknown,
}

/// The native status code each `AuthResult` tag stands for.
pub open spec fn auth_result_of_code(value: int) -> AuthResult {
    if value == 0 {
        AuthResult::Success
    } else if value == 1 {
        AuthResult::Failure
    } else if value == 2 {
        AuthResult::Unavailable
    } else if value == 3 {
        AuthResult::Retry
    } else {
        AuthResult::Unknown
    }
}

impl From<i32> for AuthResult {
    /// Maps a raw native status code onto the closed outcome enum; every
    /// unmapped code becomes `Unknown`, never an error.
    fn from(value: i32) -> (r: Self) {
        match value {
            0 => AuthResult::Success,
            1 => AuthResult::Failure,
            2 => AuthResult::Unavailable,
            3 => AuthResult::Retry,
            _ => AuthResult::Unknown,
        }
    }
}

impl vstd::std_specs::convert::FromSpecImpl<i32> for AuthResult {
    open spec fn obeys_from_spec() -> bool {
        true
    }

    open spec fn from_spec(value: i32) -> AuthResult {
        auth_result_of_code(value as int)
    }
}

} // verus!
