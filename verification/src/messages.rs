//! Wire messages of the credential-exchange protocol.

use vstd::prelude::*;

use crate::credential::{Credential, PublicIdentity};

verus! {

/// A request for a credential: the shared secret and the requester's
/// identifier in text form.
#[derive(Clone, Debug, PartialEq, Eq)]
pub struct CredentialRequest {
    pub pass: String,
    pub identity: String,
}

/// An issued credential and the issuing authority's public identity,
/// both encoded for the wire.
#[derive(Clone, Debug, PartialEq, Eq)]
pub struct CredentialResponse {
    pub credential: Vec<u8>,
    pub authority: Vec<u8>,
}

/// A credential response after decoding, ready for local verification.
#[derive(Clone, Debug)]
pub struct CredentialResponseDecoded {
    pub credential: Credential,
    pub authority: PublicIdentity,
}

/// The messages understood by a credential authority's endpoint.
#[derive(Clone, Debug, PartialEq, Eq)]
pub enum RequestCredential {
    Request(CredentialRequest),
    Response(CredentialResponse),
    Denied,
}

} // verus!
