//! The node's failure taxonomy. Every failure is contained to the peer it
//! concerns and surfaces as a registry removal plus a log line; only a bind
//! failure at startup is fatal to the whole node.

use vstd::prelude::*;

verus! {

/// What can go wrong while the node runs.
#[derive(Clone, Copy, PartialEq, Eq, Debug, Structural)]
pub enum NodeError {
    /// The listening endpoint could not be opened: fatal, aborts startup.
    BindFailure,
    /// An outbound connect failed: that one attempt is abandoned.
    DialFailure,
    /// A read or write failed mid-session: terminal for that link only.
    StreamError,
    /// The peer ended the stream gracefully: same removal path, logged apart.
    CleanClose,
    /// A discovery payload that does not parse: discarded, never fatal.
    MalformedDiscovery,
    /// A typed or derived peer address is invalid: reported, no state change.
    AddressParseFailure,
}

impl NodeError {
    /// Only a bind failure aborts the node; every other error is contained.
    pub fn is_fatal(&self) -> (r: bool)
        ensures
            r == (*self is BindFailure),
    {
        match self {
            NodeError::BindFailure => true,
            _ => false,
        }
    }

    /// A short label for log lines.
    pub fn label(&self) -> (r: &'static str)
        ensures
            *self is BindFailure ==> r@ == "bind failure"@,
            *self is DialFailure ==> r@ == "dial failure"@,
            *self is StreamError ==> r@ == "stream error"@,
            *self is CleanClose ==> r@ == "clean close"@,
            *self is MalformedDiscovery ==> r@ == "malformed discovery payload"@,
            *self is AddressParseFailure ==> r@ == "invalid peer address"@,
    {
        match self {
            NodeError::BindFailure => "bind failure",
            NodeError::DialFailure => "dial failure",
            NodeError::StreamError => "stream error",
            NodeError::CleanClose => "clean close",
            NodeError::MalformedDiscovery => "malformed discovery payload",
            NodeError::AddressParseFailure => "invalid peer address",
        }
    }
}

} // verus!
