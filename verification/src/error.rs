use vstd::prelude::*;

verus! {

/// Why an operation of this library failed.
#[derive(Clone, Copy, Debug, PartialEq, Eq, Structural)]
pub enum SignalProtocolError {
    /// The caller handed over a value that no call accepts.
    InvalidArgument,
    /// Key bytes of the wrong length or with an unknown type tag.
    InvalidKey,
    /// Wire bytes that do not frame a message, or a failed authentication check.
    InvalidMessage,
    /// The session lacks the state that the operation needs.
    InvalidState,
    /// A certificate chain is broken or a certificate has expired.
    SignatureVerificationFailed,
}

} // verus!
