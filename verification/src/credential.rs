//! Credentials, public identities, and credential verification.
//!
//! A credential binds a subject identifier to a map from attribute names to
//! attribute values and carries its issuer's identifier. The issuer field
//! models the authority's signature: the substrate signs on issue and checks
//! the signature on receipt, and what that check authenticates — which
//! authority vouches for the assertion — is exactly the issuer identifier.
//! A credential is never mutated after issuance.

use vstd::prelude::*;

use crate::identifier::bytes_eq;

verus! {

/// The ghost value of one attribute: its name and its value.
pub type AttrData = (Seq<u8>, Seq<u8>);

/// The ghost value of a credential: subject, attributes, issuer.
pub type CredData = (Seq<u8>, Seq<AttrData>, Seq<u8>);

/// One name/value pair asserted by a credential.
#[derive(Clone, Debug)]
pub struct Attribute {
    pub name: Vec<u8>,
    pub value: Vec<u8>,
}

/// A signed attribute assertion, immutable once issued.
#[derive(Clone, Debug)]
pub struct Credential {
    /// Identifier of the principal the assertion is about.
    pub subject: Vec<u8>,
    /// The asserted attribute map, in issuance order.
    pub attributes: Vec<Attribute>,
    /// Identifier of the authority whose signature covers the assertion.
    pub issuer: Vec<u8>,
}

/// The exportable public form of an identity: the identifier other
/// principals verify signatures against.
#[derive(Clone, Debug)]
pub struct PublicIdentity {
    pub id: Vec<u8>,
}

impl Attribute {
    pub open spec fn model(self) -> AttrData {
        (self.name@, self.value@)
    }
}

/// The ghost value of a vector of attributes.
pub open spec fn attrs_model(attrs: Seq<Attribute>) -> Seq<AttrData> {
    attrs.map_values(|a: Attribute| a.model())
}

impl Credential {
    pub open spec fn model(self) -> CredData {
        (self.subject@, attrs_model(self.attributes@), self.issuer@)
    }
}

/// The credential's signature verifies against some authority in the set:
/// its issuer is one of the trusted identifiers.
pub open spec fn spec_verifies(cred: CredData, authorities: Seq<Seq<u8>>) -> bool {
    exists|i: int| 0 <= i < authorities.len() && authorities[i] == cred.2
}

/// The ghost identifiers of a vector of public identities.
pub open spec fn authority_ids(authorities: Seq<PublicIdentity>) -> Seq<Seq<u8>> {
    authorities.map_values(|a: PublicIdentity| a.id@)
}

/// The attribute map contains `name` with value `value`.
pub open spec fn spec_has_attribute(attrs: Seq<AttrData>, name: Seq<u8>, value: Seq<u8>) -> bool {
    exists|i: int| 0 <= i < attrs.len() && attrs[i] == (name, value)
}

/// Checks a credential's signature against a trusted-authority set: it
/// verifies exactly when its issuer is one of the given authorities.
pub fn verify_credential(cred: &Credential, authorities: &Vec<PublicIdentity>) -> (r: bool)
    ensures
        r == spec_verifies(cred.model(), authority_ids(authorities@)),
{
    let n = authorities.len();
    let mut i: usize = 0;
    while i < n
        invariant
            0 <= i <= n,
            n == authorities@.len(),
            forall|j: int| 0 <= j < i ==> authority_ids(authorities@)[j] != cred.issuer@,
        decreases n - i,
    {
        if bytes_eq(authorities[i].id.as_slice(), cred.issuer.as_slice()) {
            assert(authority_ids(authorities@)[i as int] == cred.issuer@);
            return true;
        }
        i = i + 1;
    }
    false
}

/// Looks for `name = value` in a credential's attribute map.
pub fn has_attribute(cred: &Credential, name: &[u8], value: &[u8]) -> (r: bool)
    ensures
        r == spec_has_attribute(cred.model().1, name@, value@),
{
    let n = cred.attributes.len();
    let mut i: usize = 0;
    while i < n
        invariant
            0 <= i <= n,
            n == cred.attributes@.len(),
            forall|j: int| 0 <= j < i ==> cred.model().1[j] != (name@, value@),
        decreases n - i,
    {
        let a = &cred.attributes[i];
        if bytes_eq(a.name.as_slice(), name) && bytes_eq(a.value.as_slice(), value) {
            assert(cred.model().1[i as int] == (name@, value@));
            return true;
        }
        assert(cred.model().1[i as int] == (cred.attributes@[i as int].name@,
            cred.attributes@[i as int].value@));
        i = i + 1;
    }
    false
}

} // verus!
