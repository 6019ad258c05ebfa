//! The credential authority.
//!
//! One operation: answer a `RequestCredential` message. A request carrying
//! the configured shared secret and a well-formed identifier is answered
//! with a freshly issued, encoded credential and the authority's own
//! public identity; every other request is answered with `Denied`, never
//! dropped. The authority keeps no per-requester state.

use vstd::prelude::*;

use crate::codec::{
    cred_encodable, encode_credential, export_identity, lemma_credential_round_trip,
    lemma_identity_round_trip, spec_decode_credential, spec_decode_identity,
    spec_encode_credential, spec_encode_identity, MAX_CHUNK_LEN,
};
use crate::credential::spec_verifies;
use crate::credential::{AttrData, Attribute, CredData, Credential, PublicIdentity};
use crate::identifier::{check_identifier, str_bytes, str_eq, valid_identifier};
use crate::messages::{CredentialResponse, RequestCredential};

verus! {

/// The membership attribute asserted by every issued credential.
pub open spec fn member_attr() -> AttrData {
    (str_bytes("is_sonos"@), str_bytes("true"@))
}

/// The credential issued to `subject` by the authority `issuer`: the one
/// membership attribute, signed by the issuer.
pub open spec fn issued_credential(subject: Seq<u8>, issuer: Seq<u8>) -> CredData {
    (subject, seq![member_attr()], issuer)
}

/// The membership attribute fits its wire frames.
pub proof fn lemma_member_attr_ok()
    ensures
        member_attr().0.len() == 8,
        member_attr().1.len() == 4,
{
    reveal_strlit("is_sonos");
    reveal_strlit("true");
    assert(vstd::utf8::is_ascii_chars("is_sonos"@));
    assert(vstd::utf8::is_ascii_chars("true"@));
    vstd::utf8::is_ascii_chars_encode_utf8("is_sonos"@);
    vstd::utf8::is_ascii_chars_encode_utf8("true"@);
}

/// What the authority asserts of every granted request: the credential
/// in the response decodes back to the issued one, that credential is
/// bound to the requester's identifier, and it verifies against exactly
/// the authority identity returned beside it.
pub proof fn lemma_issued_credential_verifies(subject: Seq<u8>, issuer: Seq<u8>)
    requires
        cred_encodable(issued_credential(subject, issuer)),
    ensures
        spec_decode_credential(spec_encode_credential(issued_credential(subject, issuer)))
            == Some(issued_credential(subject, issuer)),
        spec_decode_identity(spec_encode_identity(issuer)) == Some(issuer),
        issued_credential(subject, issuer).0 == subject,
        spec_verifies(issued_credential(subject, issuer), seq![issuer]),
{
    lemma_credential_round_trip(issued_credential(subject, issuer));
    lemma_identity_round_trip(issuer);
    assert(seq![issuer][0] == issuer);
}

/// A request carrying the configured secret and a well-formed
/// identifier is always granted, provided the authority's own
/// identifier fits a wire frame: the issued credential is encodable, so
/// by `handle_message`'s contract the authority answers with a
/// `Response`, never `Denied`.
pub proof fn lemma_valid_request_granted(m: CredentialManager, msg: RequestCredential)
    requires
        msg matches RequestCredential::Request(req) && req.pass@ == m.secret@
            && valid_identifier(str_bytes(req.identity@)),
        m.identity.id@.len() <= MAX_CHUNK_LEN,
    ensures
        m.spec_grants(msg),
{
    lemma_member_attr_ok();
    if let RequestCredential::Request(req) = msg {
        let c = issued_credential(str_bytes(req.identity@), m.identity.id@);
        assert(c.1[0] == member_attr());
        assert(cred_encodable(c));
    }
}

/// A request that does not carry the configured secret is never granted:
/// by `handle_message`'s contract the authority answers it `Denied`,
/// never with a `Response`.
pub proof fn lemma_wrong_pass_never_granted(m: CredentialManager, msg: RequestCredential)
    requires
        !(msg matches RequestCredential::Request(req) && req.pass@ == m.secret@),
    ensures
        !m.spec_grants(msg),
{
}

/// A credential authority: its identity signs what it issues, and the
/// configured shared secret guards issuance.
pub struct CredentialManager {
    pub identity: PublicIdentity,
    pub secret: String,
}

impl CredentialManager {
    /// Whether the authority grants this message a credential: a request
    /// carrying the shared secret, a well-formed identifier, and an
    /// issued credential that fits the wire frames.
    pub open spec fn spec_grants(self, msg: RequestCredential) -> bool {
        &&& msg matches RequestCredential::Request(req)
        &&& req.pass@ == self.secret@
        &&& valid_identifier(str_bytes(req.identity@))
        &&& cred_encodable(issued_credential(str_bytes(req.identity@), self.identity.id@))
        &&& self.identity.id@.len() <= MAX_CHUNK_LEN
    }

    /// Creates an authority under the given identifier, guarded by the
    /// fixed shared secret.
    pub fn new(identifier: Vec<u8>) -> (m: Self)
        ensures
            m.identity.id@ == identifier@,
            m.secret@ == "1234"@,
    {
        CredentialManager {
            identity: PublicIdentity { id: identifier },
            secret: "1234".to_owned(),
        }
    }

    /// Answers one message: issues to a granted request, denies anything
    /// else. Every message gets a reply.
    pub fn handle_message(&self, msg: &RequestCredential) -> (r: RequestCredential)
        ensures
            self.spec_grants(*msg) ==> (r matches RequestCredential::Response(resp)
                && (msg matches RequestCredential::Request(req)
                    && resp.credential@ == spec_encode_credential(
                        issued_credential(str_bytes(req.identity@), self.identity.id@),
                    )
                    && resp.authority@ == spec_encode_identity(self.identity.id@))),
            !self.spec_grants(*msg) ==> r == RequestCredential::Denied,
    {
        let req = match msg {
            RequestCredential::Request(req) => req,
            _ => { return RequestCredential::Denied; },
        };
        if !str_eq(req.pass.as_str(), self.secret.as_str()) {
            return RequestCredential::Denied;
        }
        if !check_identifier(req.identity.as_str().as_bytes()) {
            return RequestCredential::Denied;
        }
        let name = vstd::slice::slice_to_vec("is_sonos".as_bytes());
        let value = vstd::slice::slice_to_vec("true".as_bytes());
        let subject = vstd::slice::slice_to_vec(req.identity.as_str().as_bytes());
        let issuer = vstd::slice::slice_to_vec(self.identity.id.as_slice());
        let cred = Credential {
            subject,
            attributes: vec![Attribute { name, value }],
            issuer,
        };
        assert(cred.model() == issued_credential(str_bytes(req.identity@), self.identity.id@));
        let credential = match encode_credential(&cred) {
            Some(v) => v,
            None => { return RequestCredential::Denied; },
        };
        let authority = match export_identity(&self.identity) {
            Some(v) => v,
            None => { return RequestCredential::Denied; },
        };
        RequestCredential::Response(CredentialResponse { credential, authority })
    }
}

} // verus!
