//! The error taxonomy of the bridge.
//!
//! Every boundary operation reports a failure as exactly one of these
//! kinds; the presentation layer turns a kind into a human-readable
//! message. Cancellation of a search is not an error and has no kind
//! here: a cancelled search yields a successful partial result.

use vstd::prelude::*;

verus! {

/// What can go wrong in a bridge operation.
#[derive(Clone, Copy, Debug, PartialEq, Eq, Structural)]
pub enum BridgeError {
    /// The configuration document is invalid.
    ConfigurationError,
    /// A new conversation task could not be constructed (in particular,
    /// a generated session identifier collided with an existing one;
    /// an insertion never overwrites an existing entry).
    EngineStartupError,
    /// No session with the given identifier exists.
    UnknownSessionError,
    /// The conversation task has already terminated and rejects
    /// further operations.
    SubmissionError,
    /// The event stream is exhausted without a completion signal.
    StreamClosedError,
    /// Forwarding an event to the external sink failed.
    SinkError,
    /// The search root is missing or not a directory.
    InvalidRootError,
    /// A session identifier string is malformed.
    IdentifierParseError,
}

} // verus!
