//! What comes back from a request to one of the two services.

use vstd::prelude::*;

verus! {

/// The status code with which a service reports success.
pub const STATUS_OK: u16 = 200;

/// How a request to a service went.
#[derive(Clone, Debug, PartialEq, Eq)]
pub enum Reply<T> {
    /// The request did not complete.
    Unreachable,
    /// The service answered with this status code. The body is `None` where
    /// the answer is not a document of the kind that was asked for.
    Answered { status: u16, body: Option<T> },
}

} // verus!
