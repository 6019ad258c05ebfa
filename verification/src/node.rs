//! The trust peer: connection table, authority set, and the credential
//! lifecycle around them.
//!
//! A node owns its identity, a table of named peer connections, and the
//! authorities it trusts. Channel establishment, message transport and
//! signature bytes belong to the substrate; each method here makes one
//! protocol decision over plain values — which the substrate hands in and
//! carries out — and its contract pins that decision down. Per peer
//! connection the trust lifecycle runs: unconnected, channel established
//! (`connect`), credentials exchanged (`present_credential`), and from
//! there attribute-gated endpoints re-check trust on every message.

use vstd::prelude::*;

use crate::codec::{spec_decode_credential, spec_decode_identity};
use crate::credential::{
    authority_ids, spec_verifies, verify_credential, Credential, PublicIdentity,
};
use crate::errors::NodeError;
use crate::identifier::{bytes_eq, str_bytes, str_eq};
use crate::messages::{CredentialRequest, CredentialResponseDecoded, RequestCredential};

verus! {

/// One established authenticated channel, under its logical peer name.
#[derive(Clone, Debug)]
pub struct Connection {
    pub name: String,
    pub addr: String,
}

/// A node's own identity: its identifier, and the credential currently
/// attached to it, if any.
#[derive(Debug)]
pub struct NodeIdentity {
    pub identifier: String,
    pub credential: Option<Credential>,
}

/// A trust peer.
#[derive(Debug)]
pub struct Node {
    /// Peer name to channel address, an entry per completed handshake.
    pub connections: Vec<Connection>,
    /// The node's own identity and attached credential.
    pub identity: NodeIdentity,
    /// Trusted credential authorities, in the order they were added.
    pub authorities: Vec<PublicIdentity>,
}

/// The address recorded under `name`: the first matching entry.
pub open spec fn spec_lookup(conns: Seq<Connection>, name: Seq<char>) -> Option<Seq<char>>
    decreases conns.len(),
{
    if conns.len() == 0 {
        None
    } else if conns[0].name@ == name {
        Some(conns[0].addr@)
    } else {
        spec_lookup(conns.drop_first(), name)
    }
}

/// Appending an entry leaves every recorded name alone and records the
/// new one if it was absent.
proof fn lemma_lookup_push(conns: Seq<Connection>, c: Connection, name: Seq<char>)
    ensures
        spec_lookup(conns.push(c), name) == if spec_lookup(conns, name) is Some {
            spec_lookup(conns, name)
        } else if c.name@ == name {
            Some(c.addr@)
        } else {
            None::<Seq<char>>
        },
    decreases conns.len(),
{
    if conns.len() == 0 {
        assert(conns.push(c).drop_first() =~= Seq::<Connection>::empty());
    } else {
        assert(conns.push(c).drop_first() =~= conns.drop_first().push(c));
        lemma_lookup_push(conns.drop_first(), c, name);
    }
}

/// Overwriting the first entry for a name rebinds that name and no other.
proof fn lemma_lookup_update(conns: Seq<Connection>, i: int, c: Connection, name: Seq<char>)
    requires
        0 <= i < conns.len(),
        conns[i].name@ == c.name@,
        forall|j: int| 0 <= j < i ==> conns[j].name@ != c.name@,
    ensures
        spec_lookup(conns.update(i, c), name) == if name == c.name@ {
            Some(c.addr@)
        } else {
            spec_lookup(conns, name)
        },
    decreases i,
{
    if i == 0 {
        assert(conns.update(0, c).drop_first() =~= conns.drop_first());
    } else {
        assert(conns.update(i, c).drop_first() =~= conns.drop_first().update(i - 1, c));
        lemma_lookup_update(conns.drop_first(), i - 1, c, name);
    }
}

/// Both ends hold credentials, each verifiable under the other end's
/// authority set and bound to its own holder's identifier.
pub open spec fn spec_mutual_ok(
    my_id: Seq<char>,
    my_cred: Option<Credential>,
    my_auth: Seq<PublicIdentity>,
    peer_id: Seq<char>,
    peer_cred: Option<Credential>,
    peer_auth: Seq<PublicIdentity>,
) -> bool {
    &&& my_cred matches Some(c) && spec_verifies(c.model(), authority_ids(peer_auth))
        && c.subject@ == str_bytes(my_id)
    &&& peer_cred matches Some(c) && spec_verifies(c.model(), authority_ids(my_auth))
        && c.subject@ == str_bytes(peer_id)
}

/// Mutual presentation is defeated by either side: it cannot succeed
/// unless both ends hold a credential, and each end's credential
/// verifies under the other end's trusted-authority set — so a missing
/// credential, or one signed by an authority outside the peer's set,
/// fails the exchange.
pub proof fn lemma_mutual_requires_both(
    my_id: Seq<char>,
    my_cred: Option<Credential>,
    my_auth: Seq<PublicIdentity>,
    peer_id: Seq<char>,
    peer_cred: Option<Credential>,
    peer_auth: Seq<PublicIdentity>,
)
    ensures
        my_cred is None ==> !spec_mutual_ok(my_id, my_cred, my_auth, peer_id, peer_cred, peer_auth),
        peer_cred is None ==> !spec_mutual_ok(
            my_id, my_cred, my_auth, peer_id, peer_cred, peer_auth),
        spec_mutual_ok(my_id, my_cred, my_auth, peer_id, peer_cred, peer_auth)
            ==> (my_cred matches Some(c)
                && spec_verifies(c.model(), authority_ids(peer_auth))
                && c.subject@ == str_bytes(my_id)),
        spec_mutual_ok(my_id, my_cred, my_auth, peer_id, peer_cred, peer_auth)
            ==> (peer_cred matches Some(c)
                && spec_verifies(c.model(), authority_ids(my_auth))
                && c.subject@ == str_bytes(peer_id)),
{
}

impl Node {
    /// A fresh node under its own identifier: no connections, no attached
    /// credential, no trusted authorities.
    pub fn new(identifier: String) -> (n: Node)
        ensures
            n.identity.identifier@ == identifier@,
            n.identity.credential is None,
            n.connections@.len() == 0,
            n.authorities@.len() == 0,
    {
        Node {
            connections: Vec::new(),
            identity: NodeIdentity { identifier, credential: None },
            authorities: Vec::new(),
        }
    }

    /// Index of the first connection-table entry for `name`, if any.
    fn find_connection(&self, name: &str) -> (r: Option<usize>)
        ensures
            r matches Some(i) ==> i < self.connections@.len()
                && self.connections@[i as int].name@ == name@
                && spec_lookup(self.connections@, name@)
                    == Some(self.connections@[i as int].addr@)
                && forall|j: int| 0 <= j < i ==> self.connections@[j].name@ != name@,
            r is None ==> spec_lookup(self.connections@, name@) is None,
    {
        let n = self.connections.len();
        proof {
            assert(self.connections@.skip(0) =~= self.connections@);
        }
        let mut i: usize = 0;
        while i < n
            invariant
                0 <= i <= n,
                n == self.connections@.len(),
                forall|j: int| 0 <= j < i ==> self.connections@[j].name@ != name@,
                spec_lookup(self.connections@.skip(i as int), name@)
                    == spec_lookup(self.connections@, name@),
            decreases n - i,
        {
            proof {
                assert(self.connections@.skip(i as int)[0] == self.connections@[i as int]);
                assert(self.connections@.skip(i as int).drop_first()
                    =~= self.connections@.skip(i as int + 1));
            }
            if str_eq(self.connections[i].name.as_str(), name) {
                return Some(i);
            }
            i = i + 1;
        }
        assert(self.connections@.skip(n as int) =~= Seq::<Connection>::empty());
        None
    }

    /// Trusts one more authority: appends its public identity to the set
    /// consulted by every later credential verification.
    pub fn add_authority(&mut self, identity: PublicIdentity) -> (r: Result<(), NodeError>)
        ensures
            r is Ok,
            final(self).authorities@ == old(self).authorities@.push(identity),
            final(self).connections == old(self).connections,
            final(self).identity == old(self).identity,
    {
        self.authorities.push(identity);
        Ok(())
    }

    /// Records the outcome the substrate reports for one authenticated
    /// channel handshake to `addr`: a completed handshake binds `name` to
    /// the channel's address, replacing any previous binding; a failed or
    /// timed-out one leaves the table untouched and surfaces a transport
    /// error, retry being the caller's policy.
    pub fn connect(&mut self, name: String, handshake: Option<String>) -> (r: Result<
        (),
        NodeError,
    >)
        ensures
            final(self).identity == old(self).identity,
            final(self).authorities == old(self).authorities,
            handshake matches Some(addr) ==> {
                &&& r is Ok
                &&& spec_lookup(final(self).connections@, name@) == Some(addr@)
                &&& forall|m: Seq<char>| m != name@
                    ==> #[trigger] spec_lookup(final(self).connections@, m)
                        == spec_lookup(old(self).connections@, m)
            },
            handshake is None ==> r == Err::<(), NodeError>(NodeError::TransportError)
                && final(self).connections == old(self).connections,
    {
        let addr = match handshake {
            Some(addr) => addr,
            None => { return Err(NodeError::TransportError); },
        };
        let entry = Connection { name, addr };
        match self.find_connection(entry.name.as_str()) {
            Some(i) => {
                proof {
                    lemma_lookup_update(self.connections@, i as int, entry, entry.name@);
                    assert(forall|m: Seq<char>| m != entry.name@
                        ==> #[trigger] spec_lookup(self.connections@.update(i as int, entry), m)
                            == spec_lookup(self.connections@, m)) by {
                        assert forall|m: Seq<char>| m != entry.name@
                            implies #[trigger] spec_lookup(
                                self.connections@.update(i as int, entry), m)
                                == spec_lookup(self.connections@, m) by {
                            lemma_lookup_update(self.connections@, i as int, entry, m);
                        }
                    }
                }
                self.connections[i] = entry;
            },
            None => {
                proof {
                    assert forall|m: Seq<char>| m != entry.name@
                        implies #[trigger] spec_lookup(self.connections@.push(entry), m)
                            == spec_lookup(self.connections@, m) by {
                        lemma_lookup_push(self.connections@, entry, m);
                    }
                    lemma_lookup_push(self.connections@, entry, entry.name@);
                }
                self.connections.push(entry);
            },
        }
        Ok(())
    }

    /// The mutual presentation decision, as run by either the caller of
    /// `present_credential` or the long-lived exchange responder: this
    /// end's credential must verify under the peer's authority set and be
    /// bound to this node, and the peer's presented credential must verify
    /// under this node's current authority set and be bound to the
    /// channel's authenticated peer identifier. Evaluated against the
    /// node's state at the time of the exchange, so a credential installed
    /// later is honoured by later exchanges.
    pub fn present_credential_mutual(
        &self,
        peer_identifier: &str,
        peer_credential: &Option<Credential>,
        peer_authorities: &Vec<PublicIdentity>,
    ) -> (r: Result<(), NodeError>)
        ensures
            r is Ok <==> spec_mutual_ok(
                self.identity.identifier@,
                self.identity.credential,
                self.authorities@,
                peer_identifier@,
                *peer_credential,
                peer_authorities@,
            ),
            r is Err ==> r == Err::<(), NodeError>(NodeError::VerificationFailure),
    {
        let mine = match &self.identity.credential {
            Some(c) => c,
            None => { return Err(NodeError::VerificationFailure); },
        };
        if !verify_credential(mine, peer_authorities) {
            return Err(NodeError::VerificationFailure);
        }
        if !bytes_eq(mine.subject.as_slice(), self.identity.identifier.as_str().as_bytes()) {
            return Err(NodeError::VerificationFailure);
        }
        let theirs = match peer_credential {
            Some(c) => c,
            None => { return Err(NodeError::VerificationFailure); },
        };
        if !verify_credential(theirs, &self.authorities) {
            return Err(NodeError::VerificationFailure);
        }
        if !bytes_eq(theirs.subject.as_slice(), peer_identifier.as_bytes()) {
            return Err(NodeError::VerificationFailure);
        }
        Ok(())
    }

    /// Runs the mutual presentation protocol with the named peer, over
    /// what the peer presented on the channel. An unknown peer name
    /// fails immediately with `Misuse` — nothing reaches the transport.
    /// A known one succeeds exactly when the mutual decision does, and
    /// a failed exchange leaves the connection open — gated endpoints
    /// simply keep rejecting.
    pub fn present_credential(
        &self,
        name: &str,
        peer_identifier: &str,
        peer_credential: &Option<Credential>,
        peer_authorities: &Vec<PublicIdentity>,
    ) -> (r: Result<(), NodeError>)
        ensures
            spec_lookup(self.connections@, name@) is None
                ==> r == Err::<(), NodeError>(NodeError::Misuse),
            spec_lookup(self.connections@, name@) is Some ==> (r is Ok <==> spec_mutual_ok(
                self.identity.identifier@,
                self.identity.credential,
                self.authorities@,
                peer_identifier@,
                *peer_credential,
                peer_authorities@,
            )),
            spec_lookup(self.connections@, name@) is Some && r is Err
                ==> r == Err::<(), NodeError>(NodeError::VerificationFailure),
    {
        match self.find_connection(name) {
            None => Err(NodeError::Misuse),
            Some(_) => self.present_credential_mutual(
                peer_identifier,
                peer_credential,
                peer_authorities,
            ),
        }
    }

    /// Names the well-known endpoint on a peer at which its credential
    /// authority answers: where the message prepared by
    /// `request_credential` is to be sent.
    pub fn identity_manager_endpoint(&self) -> (r: String)
        ensures
            r@ == "identity_manager"@,
    {
        "identity_manager".to_owned()
    }

    /// Names the well-known endpoint at which the substrate is to
    /// register the long-lived credential-exchange responder. Each
    /// inbound exchange there is judged by `present_credential_mutual`
    /// against the node's state at the time it occurs — not a snapshot
    /// taken at registration — so a credential installed later is
    /// honoured by later exchanges.
    pub fn start_credential_exchange(&self) -> (r: String)
        ensures
            r@ == "credential_exchange"@,
    {
        "credential_exchange".to_owned()
    }

    /// Installs a decoded credential: it must verify against the decoded
    /// authority alone and be bound to this node's own identifier. On
    /// success the credential is attached (replacing any previous one) and
    /// the authority joins the trusted set; on failure nothing changes.
    pub fn set_identity(&mut self, cred: CredentialResponseDecoded) -> (r: Result<(), NodeError>)
        ensures
            ({
                let ok = spec_verifies(cred.credential.model(), seq![cred.authority.id@])
                    && cred.credential.subject@ == str_bytes(old(self).identity.identifier@);
                if ok {
                    &&& r is Ok
                    &&& final(self).identity.credential == Some(cred.credential)
                    &&& final(self).identity.identifier == old(self).identity.identifier
                    &&& final(self).authorities@ == old(self).authorities@.push(cred.authority)
                    &&& final(self).connections == old(self).connections
                } else {
                    r == Err::<(), NodeError>(NodeError::VerificationFailure)
                        && *final(self) == *old(self)
                }
            }),
    {
        let signed = bytes_eq(cred.credential.issuer.as_slice(), cred.authority.id.as_slice());
        proof {
            if cred.credential.issuer@ == cred.authority.id@ {
                assert(seq![cred.authority.id@][0] == cred.credential.model().2);
            }
        }
        if !signed {
            return Err(NodeError::VerificationFailure);
        }
        if !bytes_eq(
            cred.credential.subject.as_slice(),
            self.identity.identifier.as_str().as_bytes(),
        ) {
            return Err(NodeError::VerificationFailure);
        }
        self.identity.credential = Some(cred.credential);
        self.authorities.push(cred.authority);
        Ok(())
    }

    /// Prepares the credential request for the named peer: the route
    /// address to the peer's authority endpoint and the request message,
    /// carrying the shared secret and this node's identifier. An unknown
    /// peer name fails immediately with `Misuse` — nothing is handed to
    /// the transport.
    pub fn request_credential(&self, from: &str) -> (r: Result<
        (String, RequestCredential),
        NodeError,
    >)
        ensures
            r is Err <==> spec_lookup(self.connections@, from@) is None,
            r matches Err(e) ==> e == NodeError::Misuse,
            r matches Ok((addr, msg)) ==> {
                &&& spec_lookup(self.connections@, from@) == Some(addr@)
                &&& msg matches RequestCredential::Request(req)
                &&& req.pass@ == "1234"@
                &&& req.identity@ == self.identity.identifier@
            },
    {
        let i = match self.find_connection(from) {
            Some(i) => i,
            None => { return Err(NodeError::Misuse); },
        };
        let addr = self.connections[i].addr.clone();
        let msg = RequestCredential::Request(CredentialRequest {
            pass: "1234".to_owned(),
            identity: self.identity.identifier.clone(),
        });
        Ok((addr, msg))
    }

    /// Decodes the authority's reply to a credential request. A response
    /// whose credential and authority bytes both decode is returned for
    /// local verification — trust is not installed here; an explicit
    /// denial fails as refused by the peer; anything else is malformed.
    pub fn handle_credential_response(&self, reply: &RequestCredential) -> (r: Result<
        CredentialResponseDecoded,
        NodeError,
    >)
        ensures
            r matches Ok(d) ==> (reply matches RequestCredential::Response(resp)
                && spec_decode_credential(resp.credential@) == Some(d.credential.model())
                && spec_decode_identity(resp.authority@) == Some(d.authority.id@)),
            reply matches RequestCredential::Response(resp) ==> (r is Ok <==> (
                spec_decode_credential(resp.credential@) is Some
                && spec_decode_identity(resp.authority@) is Some)),
            reply matches RequestCredential::Response(resp)
                && (spec_decode_credential(resp.credential@) is None
                    || spec_decode_identity(resp.authority@) is None)
                ==> r == Err::<CredentialResponseDecoded, NodeError>(NodeError::Invalid),
            *reply == RequestCredential::Denied ==> r == Err::<
                CredentialResponseDecoded,
                NodeError,
            >(NodeError::ProtocolDenied),
            reply matches RequestCredential::Request(_) ==> r == Err::<
                CredentialResponseDecoded,
                NodeError,
            >(NodeError::Invalid),
    {
        let resp = match reply {
            RequestCredential::Response(resp) => resp,
            RequestCredential::Denied => { return Err(NodeError::ProtocolDenied); },
            RequestCredential::Request(_) => { return Err(NodeError::Invalid); },
        };
        let credential = match crate::codec::decode_credential(resp.credential.as_slice()) {
            Some(c) => c,
            None => { return Err(NodeError::Invalid); },
        };
        let authority = match crate::codec::import_identity(resp.authority.as_slice()) {
            Some(p) => p,
            None => { return Err(NodeError::Invalid); },
        };
        Ok(CredentialResponseDecoded { credential, authority })
    }

    /// Resolves the route for one request/reply exchange with the named
    /// peer: the channel address recorded for `name` and the endpoint to
    /// address on it. An unknown name fails immediately with `Misuse` —
    /// nothing is handed to the transport, which otherwise carries the
    /// message and exactly one correlated reply.
    pub fn send(&self, name: &str, endpoint: &str) -> (r: Result<(String, String), NodeError>)
        ensures
            r is Err <==> spec_lookup(self.connections@, name@) is None,
            r matches Err(e) ==> e == NodeError::Misuse,
            r matches Ok((addr, ep)) ==> spec_lookup(self.connections@, name@) == Some(addr@)
                && ep@ == endpoint@,
    {
        let i = match self.find_connection(name) {
            Some(i) => i,
            None => { return Err(NodeError::Misuse); },
        };
        Ok((self.connections[i].addr.clone(), endpoint.to_owned()))
    }
}

} // verus!
