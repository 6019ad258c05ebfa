use serva::authority::CredentialManager;
use serva::codec::{decode_credential, encode_credential, import_identity};
use serva::credential::{has_attribute, verify_credential, Attribute, Credential, PublicIdentity};
use serva::errors::NodeError;
use serva::messages::{CredentialRequest, CredentialResponseDecoded, RequestCredential};
use serva::node::Node;

fn request(pass: &str, identity: &str) -> RequestCredential {
    RequestCredential::Request(CredentialRequest {
        pass: pass.to_string(),
        identity: identity.to_string(),
    })
}

fn issue_to(authority: &CredentialManager, identity: &str) -> CredentialResponseDecoded {
    let reply = authority.handle_message(&request("1234", identity));
    let resp = match reply {
        RequestCredential::Response(resp) => resp,
        other => panic!("expected a response, got {:?}", other),
    };
    CredentialResponseDecoded {
        credential: decode_credential(&resp.credential).expect("credential decodes"),
        authority: import_identity(&resp.authority).expect("authority decodes"),
    }
}

#[test]
fn authority_grants_valid_request() {
    let authority = CredentialManager::new(b"Pcafe".to_vec());
    let reply = authority.handle_message(&request("1234", "Pdeadbeef"));
    let resp = match reply {
        RequestCredential::Response(resp) => resp,
        other => panic!("expected a response, got {:?}", other),
    };
    let cred = decode_credential(&resp.credential).expect("credential decodes");
    let auth = import_identity(&resp.authority).expect("authority decodes");
    assert_eq!(cred.subject, b"Pdeadbeef".to_vec());
    assert_eq!(auth.id, b"Pcafe".to_vec());
    assert!(verify_credential(&cred, &vec![auth]));
    assert!(has_attribute(&cred, b"is_sonos", b"true"));
}

#[test]
fn authority_denies_wrong_pass() {
    let authority = CredentialManager::new(b"Pcafe".to_vec());
    for pass in ["4321", "", "12345", "1234 "] {
        let reply = authority.handle_message(&request(pass, "Pdeadbeef"));
        assert_eq!(reply, RequestCredential::Denied);
    }
}

#[test]
fn authority_denies_malformed_identifier() {
    let authority = CredentialManager::new(b"Pcafe".to_vec());
    for identity in ["", "P", "deadbeef", "PDEADBEEF", "Pdead beef", "Qdeadbeef"] {
        let reply = authority.handle_message(&request("1234", identity));
        assert_eq!(reply, RequestCredential::Denied);
    }
}

#[test]
fn authority_answers_every_message() {
    let authority = CredentialManager::new(b"Pcafe".to_vec());
    let reply = authority.handle_message(&RequestCredential::Denied);
    assert_eq!(reply, RequestCredential::Denied);
}

#[test]
fn codec_round_trip() {
    let cred = Credential {
        subject: b"Pdeadbeef".to_vec(),
        attributes: vec![
            Attribute { name: b"is_sonos".to_vec(), value: b"true".to_vec() },
            Attribute { name: b"tier".to_vec(), value: b"gold".to_vec() },
        ],
        issuer: b"Pcafe".to_vec(),
    };
    let bytes = encode_credential(&cred).expect("encodable");
    let back = decode_credential(&bytes).expect("decodes");
    assert_eq!(back.subject, cred.subject);
    assert_eq!(back.issuer, cred.issuer);
    assert_eq!(back.attributes.len(), 2);
    assert_eq!(back.attributes[0].name, b"is_sonos".to_vec());
    assert_eq!(back.attributes[0].value, b"true".to_vec());
    assert_eq!(back.attributes[1].name, b"tier".to_vec());
    assert_eq!(back.attributes[1].value, b"gold".to_vec());
}

#[test]
fn codec_rejects_malformed_buffers() {
    assert!(decode_credential(&[]).is_none());
    assert!(decode_credential(&[1, 2, 3]).is_none());
    let cred = Credential {
        subject: b"Pdead".to_vec(),
        attributes: vec![Attribute { name: b"is_sonos".to_vec(), value: b"true".to_vec() }],
        issuer: b"Pcafe".to_vec(),
    };
    let bytes = encode_credential(&cred).expect("encodable");
    // Truncated and padded buffers are both refused.
    assert!(decode_credential(&bytes[..bytes.len() - 1]).is_none());
    let mut padded = bytes.clone();
    padded.push(0);
    assert!(decode_credential(&padded).is_none());
    assert!(import_identity(&[7]).is_none());
}

#[test]
fn set_identity_installs_verified_credential() {
    let authority = CredentialManager::new(b"Pcafe".to_vec());
    let mut node = Node::new("Pdeadbeef".to_string());
    let decoded = issue_to(&authority, "Pdeadbeef");
    assert!(node.set_identity(decoded).is_ok());
    assert!(node.identity.credential.is_some());
    assert_eq!(node.authorities.len(), 1);
    assert_eq!(node.authorities[0].id, b"Pcafe".to_vec());
}

#[test]
fn set_identity_failure_leaves_state_untouched() {
    let authority = CredentialManager::new(b"Pcafe".to_vec());
    let mut node = Node::new("Pdeadbeef".to_string());
    node.add_authority(PublicIdentity { id: b"Paaaa".to_vec() }).unwrap();

    // Credential issued to a different subject: subject check fails.
    let wrong_subject = issue_to(&authority, "Pbeef");
    assert_eq!(node.set_identity(wrong_subject), Err(NodeError::VerificationFailure));

    // Authority swapped out from under the credential: signature check fails.
    let mut tampered = issue_to(&authority, "Pdeadbeef");
    tampered.authority = PublicIdentity { id: b"Pother".to_vec() };
    assert_eq!(node.set_identity(tampered), Err(NodeError::VerificationFailure));

    assert!(node.identity.credential.is_none());
    assert_eq!(node.authorities.len(), 1);
    assert_eq!(node.authorities[0].id, b"Paaaa".to_vec());
}

#[test]
fn connect_records_only_completed_handshakes() {
    let mut node = Node::new("Pdeadbeef".to_string());
    assert_eq!(
        node.connect("peer".to_string(), None),
        Err(NodeError::TransportError)
    );
    assert_eq!(node.send("peer", "echo"), Err(NodeError::Misuse));

    assert!(node.connect("peer".to_string(), Some("addr-1".to_string())).is_ok());
    assert_eq!(
        node.send("peer", "echo"),
        Ok(("addr-1".to_string(), "echo".to_string()))
    );

    // A later handshake to the same name replaces the binding.
    assert!(node.connect("peer".to_string(), Some("addr-2".to_string())).is_ok());
    assert_eq!(
        node.send("peer", "echo"),
        Ok(("addr-2".to_string(), "echo".to_string()))
    );
}

#[test]
fn unknown_peer_fails_with_misuse() {
    let node = Node::new("Pdeadbeef".to_string());
    assert!(matches!(node.request_credential("nobody"), Err(NodeError::Misuse)));
    assert_eq!(node.send("nobody", "echo"), Err(NodeError::Misuse));
}

#[test]
fn request_credential_builds_the_wire_request() {
    let mut node = Node::new("Pdeadbeef".to_string());
    node.connect("key_manager".to_string(), Some("addr-c".to_string())).unwrap();
    let (addr, msg) = node.request_credential("key_manager").unwrap();
    assert_eq!(addr, "addr-c".to_string());
    assert_eq!(
        msg,
        RequestCredential::Request(CredentialRequest {
            pass: "1234".to_string(),
            identity: "Pdeadbeef".to_string(),
        })
    );
}

#[test]
fn credential_response_decoding() {
    let node = Node::new("Pdeadbeef".to_string());
    assert!(matches!(
        node.handle_credential_response(&RequestCredential::Denied),
        Err(NodeError::ProtocolDenied)
    ));
    let bad = RequestCredential::Response(serva::messages::CredentialResponse {
        credential: vec![1, 2],
        authority: vec![3],
    });
    assert!(matches!(node.handle_credential_response(&bad), Err(NodeError::Invalid)));
    let req = request("1234", "Pdeadbeef");
    assert!(matches!(node.handle_credential_response(&req), Err(NodeError::Invalid)));
}

#[test]
fn mutual_presentation_needs_both_sides() {
    let authority = CredentialManager::new(b"Pcafe".to_vec());
    let mut a = Node::new("Paaaa".to_string());
    let mut b = Node::new("Pbbbb".to_string());
    a.set_identity(issue_to(&authority, "Paaaa")).unwrap();
    b.set_identity(issue_to(&authority, "Pbbbb")).unwrap();

    // Both hold credentials from an authority the other trusts.
    assert!(a
        .present_credential_mutual("Pbbbb", &b.identity.credential, &b.authorities)
        .is_ok());
    assert!(b
        .present_credential_mutual("Paaaa", &a.identity.credential, &a.authorities)
        .is_ok());

    // A peer without a credential defeats the exchange.
    let bare = Node::new("Pcccc".to_string());
    assert_eq!(
        a.present_credential_mutual("Pcccc", &bare.identity.credential, &bare.authorities),
        Err(NodeError::VerificationFailure)
    );

    // A credential from an authority outside the peer's set defeats it.
    let rogue_authority = CredentialManager::new(b"Pbadbad".to_vec());
    let mut rogue = Node::new("Pdddd".to_string());
    rogue.set_identity(issue_to(&rogue_authority, "Pdddd")).unwrap();
    assert_eq!(
        a.present_credential_mutual("Pdddd", &rogue.identity.credential, &rogue.authorities),
        Err(NodeError::VerificationFailure)
    );

    // A credential bound to someone else defeats it too.
    assert_eq!(
        a.present_credential_mutual("Peeee", &b.identity.credential, &b.authorities),
        Err(NodeError::VerificationFailure)
    );
}

#[test]
fn well_known_endpoints_are_fixed() {
    let node = Node::new("Paaaa".to_string());
    assert_eq!(node.start_credential_exchange(), "credential_exchange".to_string());
    assert_eq!(node.identity_manager_endpoint(), "identity_manager".to_string());
}

#[test]
fn present_credential_to_unknown_peer_is_misuse() {
    let a = Node::new("Paaaa".to_string());
    let b = Node::new("Pbbbb".to_string());
    assert_eq!(
        a.present_credential("stranger", "Pbbbb", &b.identity.credential, &b.authorities),
        Err(NodeError::Misuse)
    );
}
