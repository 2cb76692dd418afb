//! Error kinds shared by the synchronization engine, the remote item client
//! and the storage port.

use vstd::prelude::*;

verus! {

/// The closed set of failures the engine surfaces to callers.
///
/// `RemoteAuth` is kept distinct from the generic kinds because callers are
/// expected to prompt for re-authorization rather than retry.
#[derive(Clone, Debug)]
pub enum Error {
    /// Malformed caller input.
    InvalidArgument(String),
    /// The user has no (or an invalid) remote access token.
    RemoteAuth,
    /// The bounded retry budget for transient network failures was used up.
    TransportExhausted,
    /// The remote service answered with an unexpected shape; the payload is
    /// attached for diagnostics.
    Deserialization(String),
    /// Opaque passthrough from the storage backend.
    Storage(String),
    /// An item or user lookup missed.
    NotFound(String),
}

impl Error {
    /// A human-readable rendering of the error, used by front ends that
    /// present failures as message passthrough.
    pub fn message(&self) -> (r: String)
        ensures
            self matches Error::InvalidArgument(m) ==> r@ == "invalid argument: "@ + m@,
            self is RemoteAuth ==> r@ == "user did not authorize application"@,
            self is TransportExhausted ==> r@
                == "failed to connect to or receive a response from the remote service"@,
            self matches Error::Deserialization(m) ==> r@ == "failed to deserialize payload: "@
                + m@,
            self matches Error::Storage(m) ==> r@ == "storage error: "@ + m@,
            self matches Error::NotFound(m) ==> r@ == "not found: "@ + m@,
    {
        match self {
            Error::InvalidArgument(m) => {
                let mut s = String::new();
                s.append("invalid argument: ");
                s.append(m.as_str());
                s
            },
            Error::RemoteAuth => String::from_str("user did not authorize application"),
            Error::TransportExhausted => String::from_str(
                "failed to connect to or receive a response from the remote service",
            ),
            Error::Deserialization(m) => {
                let mut s = String::new();
                s.append("failed to deserialize payload: ");
                s.append(m.as_str());
                s
            },
            Error::Storage(m) => {
                let mut s = String::new();
                s.append("storage error: ");
                s.append(m.as_str());
                s
            },
            Error::NotFound(m) => {
                let mut s = String::new();
                s.append("not found: ");
                s.append(m.as_str());
                s
            },
        }
    }
}

} // verus!
