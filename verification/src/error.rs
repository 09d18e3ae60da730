//! The error taxonomy shared by every fallible operation of the crate.

use vstd::prelude::*;

verus! {

/// Everything that can go wrong between a caller-supplied value and a
/// finished network call. Codec and lookup errors are detected
/// synchronously; transport-level outcomes (`TimedOut`, `RpcFailure`,
/// `BatchSubmissionFailed`) classify what a round-trip reported.
#[derive(Clone, Copy, Debug, PartialEq, Eq, Structural)]
pub enum EthError {
    /// The interface document's top level is not an array of entries.
    MalformedAbi,
    /// No entry of the interface document matches the method name.
    MethodNotFound,
    /// No entry of the interface document matches the event name.
    EventNotFound,
    /// The argument sequence's length differs from the expected-types length.
    ArityMismatch,
    /// A value's runtime shape contradicts the expected type.
    TypeMismatch,
    /// A value's runtime shape is one the codec does not translate.
    UnsupportedConversion,
    /// A returned token kind is one the decoder does not translate.
    UnsupportedToken,
    /// An address could not be parsed or is ill-formed.
    InvalidAddress,
    /// The interface document could not be parsed or is empty.
    InvalidAbi,
    /// A network round-trip exceeded its timeout.
    TimedOut,
    /// A network round-trip failed at the transport or RPC level.
    RpcFailure,
    /// A whole batch was rejected before any element was resolved.
    BatchSubmissionFailed,
    /// The operation needs a streaming transport and the connection has none.
    UnsupportedTransport,
}

impl EthError {
    /// A short human-readable description of the error.
    pub fn message(&self) -> (r: &'static str)
        ensures
            r@.len() > 0,
    {
        proof {
            reveal_strlit("invalid JSON, array of entries expected");
            reveal_strlit("method not found in contract");
            reveal_strlit("event not found in contract");
            reveal_strlit("invalid number of inputs for the method");
            reveal_strlit("argument shape does not match the expected type");
            reveal_strlit("argument shape is not supported by the codec");
            reveal_strlit("returned token kind is not supported");
            reveal_strlit("failed to parse an address");
            reveal_strlit("failed to parse the contract's interface document");
            reveal_strlit("RPC request timed out");
            reveal_strlit("RPC request failed");
            reveal_strlit("failed to submit the batch");
            reveal_strlit("operation needs a streaming transport");
        }
        match self {
            EthError::MalformedAbi => "invalid JSON, array of entries expected",
            EthError::MethodNotFound => "method not found in contract",
            EthError::EventNotFound => "event not found in contract",
            EthError::ArityMismatch => "invalid number of inputs for the method",
            EthError::TypeMismatch => "argument shape does not match the expected type",
            EthError::UnsupportedConversion => "argument shape is not supported by the codec",
            EthError::UnsupportedToken => "returned token kind is not supported",
            EthError::InvalidAddress => "failed to parse an address",
            EthError::InvalidAbi => "failed to parse the contract's interface document",
            EthError::TimedOut => "RPC request timed out",
            EthError::RpcFailure => "RPC request failed",
            EthError::BatchSubmissionFailed => "failed to submit the batch",
            EthError::UnsupportedTransport => "operation needs a streaming transport",
        }
    }
}

} // verus!
