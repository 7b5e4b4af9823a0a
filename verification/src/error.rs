//! The failures that the node and the codec report.

use vstd::prelude::*;

verus! {

/// Why a byte sequence could not be decoded into a message.
#[derive(Clone, Copy, Debug, PartialEq, Eq, Structural)]
pub enum CodecError {
    /// The bytes are not a frame: it is cut short, or its layout is not the expected one.
    Malformed,
    /// No bytes at all were available where a frame was expected.
    UnexpectedEof,
}

/// The failures of the routing core.
#[derive(Clone, Copy, Debug, PartialEq, Eq, Structural)]
pub enum RoutingError {
    /// The transport layer could not start listening.
    TransportStartupFailure,
    /// A received message could not be decoded.
    Codec(CodecError),
    /// The process-wide cryptographic subsystem could not be initialised.
    CryptoInitFailure,
}

impl From<CodecError> for RoutingError {
    fn from(e: CodecError) -> (r: RoutingError) {
        RoutingError::Codec(e)
    }
}

impl vstd::std_specs::convert::FromSpecImpl<CodecError> for RoutingError {
    open spec fn obeys_from_spec() -> bool {
        true
    }

    open spec fn from_spec(e: CodecError) -> RoutingError {
        RoutingError::Codec(e)
    }
}

impl RoutingError {
    /// Whether the process may go on after this failure.
    pub open spec fn recoverable(self) -> bool {
        !(self is CryptoInitFailure)
    }

    /// Tells whether the process may go on after this failure. A node whose listener did not
    /// start goes on without one, and an undecodable message is dropped; without the
    /// cryptographic subsystem nothing may proceed.
    pub fn is_recoverable(&self) -> (r: bool)
        ensures
            r == self.recoverable(),
    {
        match self {
            RoutingError::CryptoInitFailure => false,
            _ => true,
        }
    }
}

} // verus!
