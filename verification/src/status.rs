//! Result statuses carried by every response of the cluster.

use vstd::prelude::*;

verus! {

/// The status codes that the services answer with.
#[derive(Clone, Copy, Debug, PartialEq, Eq, Structural)]
pub enum StatusCode {
    Success,
    InvalidArgument,
    Unauthenticated,
    NotFound,
    Conflict,
    InsufficientItems,
    Overloaded,
    RateLimited,
    TemporarilyUnavailable,
    ResumeExpired,
    SessionReplaced,
    Internal,
}

/// A status code with its human-readable message.
#[derive(Clone, Debug)]
pub struct Status {
    pub code: StatusCode,
    pub message: String,
}

impl Status {
    /// The status of a request that succeeded: code `Success`, empty message.
    pub fn ok() -> (r: Self)
        ensures
            r.code == StatusCode::Success,
            r.message@ == Seq::<char>::empty(),
    {
        Status { code: StatusCode::Success, message: String::new() }
    }

    /// A status with the given code and message.
    pub fn error(code: StatusCode, message: &str) -> (r: Self)
        ensures
            r.code == code,
            r.message@ == message@,
    {
        Status { code, message: message.to_owned() }
    }

    pub fn is_ok(&self) -> (r: bool)
        ensures
            r == (self.code == StatusCode::Success),
    {
        match self.code {
            StatusCode::Success => true,
            _ => false,
        }
    }
}

} // verus!
