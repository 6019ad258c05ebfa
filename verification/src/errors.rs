//! Error taxonomy of the protocol stack.

use vstd::prelude::*;

verus! {

/// Why a protocol operation failed.
///
/// - `ProtocolDenied`: the peer explicitly refused (bad shared secret,
///   failed credential check); never treated as success.
/// - `VerificationFailure`: a credential signature or subject mismatch;
///   fatal to the one trust-establishment attempt, prior state kept.
/// - `TransportError`: channel creation, timeout or send failure reported
///   by the transport layer; retry is the caller's policy.
/// - `Misuse`: the caller referenced an unknown peer name or handed in
///   malformed input; an immediate local failure, no network attempt.
/// - `Invalid`: a malformed wire message field (bad port number, bad
///   identifier string); answered where a reply is expected.
#[derive(Clone, Copy, Debug, PartialEq, Eq, Structural)]
pub enum NodeError {
    ProtocolDenied,
    VerificationFailure,
    TransportError,
    Misuse,
    Invalid,
}

} // verus!
