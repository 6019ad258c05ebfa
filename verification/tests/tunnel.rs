use serva::authority::CredentialManager;
use serva::codec::{decode_credential, import_identity};
use serva::credential::{Attribute, Credential};
use serva::errors::NodeError;
use serva::gate::AttributeGate;
use serva::messages::{CredentialRequest, CredentialResponseDecoded, RequestCredential};
use serva::node::Node;
use serva::tunnel::{guarded_handle_tunnel_request, handle_tunnel_request, BASE_PORT};

fn route(hops: &[&str]) -> Vec<String> {
    hops.iter().map(|h| h.to_string()).collect()
}

#[test]
fn offset_zero_opens_base_port() {
    let r = route(&["addr-a", "inlet_manager"]);
    let action = handle_tunnel_request("0 outlet", &r).expect("well-formed request");
    assert_eq!(action.port, 9000);
    assert_eq!(action.reply, "9000".to_string());
    assert_eq!(action.inlet_route, route(&["addr-a", "outlet"]));
}

#[test]
fn offset_is_added_to_base_port() {
    let r = route(&["addr-a", "inlet_manager"]);
    let action = handle_tunnel_request("42 outlet", &r).expect("well-formed request");
    assert_eq!(action.port, 9042);
    assert_eq!(action.reply, "9042".to_string());
    let action = handle_tunnel_request("65535 outlet", &r).expect("largest offset");
    assert_eq!(action.port, BASE_PORT + 65535);
    assert_eq!(action.reply, "74535".to_string());
}

#[test]
fn malformed_requests_open_nothing() {
    let r = route(&["addr-a", "inlet_manager"]);
    for msg in ["x outlet", " outlet", "", "12x outlet", "65536 outlet", "7 "] {
        assert_eq!(handle_tunnel_request(msg, &r), Err(NodeError::Invalid), "msg {:?}", msg);
    }
}

#[test]
fn single_token_is_both_offset_and_destination() {
    let r = route(&["addr-a", "inlet_manager"]);
    let action = handle_tunnel_request("7", &r).expect("one token");
    assert_eq!(action.port, 9007);
    assert_eq!(action.inlet_route, route(&["addr-a", "7"]));
}

#[test]
fn gate_blocks_channels_without_the_attribute() {
    let gate = AttributeGate::member_gate();
    let r = route(&["addr-a", "inlet_manager"]);

    // No credential presented on the channel at all.
    assert!(guarded_handle_tunnel_request(&gate, &None, "0 outlet", &r).is_none());

    // A credential lacking the required attribute.
    let lacking = Credential {
        subject: b"Paaaa".to_vec(),
        attributes: vec![Attribute { name: b"tier".to_vec(), value: b"gold".to_vec() }],
        issuer: b"Pcafe".to_vec(),
    };
    assert!(guarded_handle_tunnel_request(&gate, &Some(lacking), "0 outlet", &r).is_none());

    // The required attribute with the wrong value.
    let wrong = Credential {
        subject: b"Paaaa".to_vec(),
        attributes: vec![Attribute { name: b"is_sonos".to_vec(), value: b"false".to_vec() }],
        issuer: b"Pcafe".to_vec(),
    };
    assert!(guarded_handle_tunnel_request(&gate, &Some(wrong), "0 outlet", &r).is_none());

    // The required attribute lets the message through.
    let member = Credential {
        subject: b"Paaaa".to_vec(),
        attributes: vec![Attribute { name: b"is_sonos".to_vec(), value: b"true".to_vec() }],
        issuer: b"Pcafe".to_vec(),
    };
    let handled = guarded_handle_tunnel_request(&gate, &Some(member), "0 outlet", &r);
    assert!(matches!(handled, Some(Ok(_))));
}

fn obtain_credential(
    node: &mut Node,
    authority: &CredentialManager,
    authority_name: &str,
) -> Result<(), NodeError> {
    let (_addr, msg) = node.request_credential(authority_name)?;
    let reply = authority.handle_message(&msg);
    let decoded = node.handle_credential_response(&reply)?;
    node.set_identity(decoded)
}

#[test]
fn end_to_end_tunnel_provisioning() {
    // Authority C issues; nodes A and B establish mutual trust through it;
    // B's gated endpoint then provisions a tunnel for A.
    let authority = CredentialManager::new(b"Pcafe".to_vec());
    let mut a = Node::new("Paaaa".to_string());
    let mut b = Node::new("Pbbbb".to_string());

    a.connect("key_manager".to_string(), Some("addr-c".to_string())).unwrap();
    b.connect("key_manager".to_string(), Some("addr-c".to_string())).unwrap();
    obtain_credential(&mut a, &authority, "key_manager").unwrap();
    obtain_credential(&mut b, &authority, "key_manager").unwrap();

    a.connect("sibling1".to_string(), Some("addr-b".to_string())).unwrap();
    b.connect("sibling0".to_string(), Some("addr-a".to_string())).unwrap();

    // Mutual presentation, from both ends of the channel.
    assert!(a
        .present_credential("sibling1", "Pbbbb", &b.identity.credential, &b.authorities)
        .is_ok());
    assert!(b
        .present_credential("sibling0", "Paaaa", &a.identity.credential, &a.authorities)
        .is_ok());

    // A routes a tunnel request to B's gated endpoint.
    let (addr, endpoint) = a.send("sibling1", "inlet_manager").unwrap();
    assert_eq!(addr, "addr-b".to_string());
    assert_eq!(endpoint, "inlet_manager".to_string());

    // B's gate sees the credential A presented on the channel.
    let gate = AttributeGate::member_gate();
    let return_route = route(&["addr-a", "outlet_requester"]);
    let handled =
        guarded_handle_tunnel_request(&gate, &a.identity.credential, "17 outlet", &return_route);
    let action = handled.expect("gate admits a member").expect("request is well-formed");
    assert!(action.port >= 9000 && action.port <= 9000 + 65535);
    assert_eq!(action.port, 9017);
    assert_eq!(action.reply, "9017".to_string());
    assert_eq!(action.inlet_route, route(&["addr-a", "outlet"]));
}

#[test]
fn issued_response_decodes_and_verifies() {
    // The authority's wire response carries bytes that decode back to the
    // issued credential and its issuer.
    let authority = CredentialManager::new(b"Pcafe".to_vec());
    let reply = authority.handle_message(&RequestCredential::Request(CredentialRequest {
        pass: "1234".to_string(),
        identity: "Pabcdef".to_string(),
    }));
    let resp = match reply {
        RequestCredential::Response(resp) => resp,
        other => panic!("expected a response, got {:?}", other),
    };
    let decoded = CredentialResponseDecoded {
        credential: decode_credential(&resp.credential).unwrap(),
        authority: import_identity(&resp.authority).unwrap(),
    };
    let mut holder = Node::new("Pabcdef".to_string());
    assert!(holder.set_identity(decoded).is_ok());
}
