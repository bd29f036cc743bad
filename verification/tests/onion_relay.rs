use miasma_core::onion_relay::{
    encrypt_relay_response, next_hop_request, process_onion_layer, relay_back_response, OnionRelayAction,
    OnionRelayRequest, OnionRelayResponse,
};
use miasma_core::packet::CircuitId;
use miasma_core::packet::{decrypt_response, parse_onion_layer, OnionLayerProcessor, OnionPacketBuilder};
use rand::RngCore;

fn make_keypair() -> ([u8; 32], [u8; 32]) {
    let mut secret = [0u8; 32];
    rand::thread_rng().fill_bytes(&mut secret);
    let s = x25519_dalek::StaticSecret::from(secret);
    let pubkey = x25519_dalek::PublicKey::from(&s);
    (s.to_bytes(), pubkey.to_bytes())
}

#[test]
fn process_onion_layer_r1_forwards() {
    let (r1_sec, r1_pub) = make_keypair();
    let (_r2_sec, r2_pub) = make_keypair();
    let (packet, _rp) = OnionPacketBuilder::build(
        &r1_pub,
        &r2_pub,
        b"r2_peer".to_vec(),
        b"target".to_vec(),
        b"r2_addr".to_vec(),
        b"test body".to_vec(),
    )
    .unwrap();
    let action = process_onion_layer(&r1_sec, packet.circuit_id, &packet.layer).unwrap();
    match action {
        OnionRelayAction::ForwardToNext { next_hop_peer_id, return_key, .. } => {
            assert_eq!(next_hop_peer_id, b"r2_peer");
            assert_ne!(return_key, [0u8; 32]);
        }
        _ => panic!("expected ForwardToNext"),
    }
}

#[test]
fn process_onion_layer_r2_delivers() {
    let (r1_sec, r1_pub) = make_keypair();
    let (r2_sec, r2_pub) = make_keypair();
    let body = b"share fetch request".to_vec();
    let (packet, _rp) = OnionPacketBuilder::build(
        &r1_pub,
        &r2_pub,
        b"r2_peer".to_vec(),
        b"target".to_vec(),
        b"r2_addr".to_vec(),
        body.clone(),
    )
    .unwrap();
    let action1 = process_onion_layer(&r1_sec, packet.circuit_id, &packet.layer).unwrap();
    let (inner_layer, r1_return_key) = match action1 {
        OnionRelayAction::ForwardToNext { inner_layer, return_key, .. } => (inner_layer, return_key),
        _ => panic!("expected ForwardToNext"),
    };
    let action2 = process_onion_layer(&r2_sec, packet.circuit_id, &inner_layer).unwrap();
    match action2 {
        OnionRelayAction::DeliverToTarget {
            target_peer_id,
            body: delivered_body,
            return_key: r2_return_key,
            ..
        } => {
            assert_eq!(target_peer_id, b"target");
            assert_eq!(delivered_body, body);
            assert_ne!(r2_return_key, r1_return_key);
        }
        _ => panic!("expected DeliverToTarget"),
    }
}

#[test]
fn response_encryption_layering() {
    let (r1_sec, r1_pub) = make_keypair();
    let (r2_sec, r2_pub) = make_keypair();
    let (packet, _rp) = OnionPacketBuilder::build(
        &r1_pub,
        &r2_pub,
        b"r2_peer".to_vec(),
        b"target".to_vec(),
        b"r2_addr".to_vec(),
        b"query".to_vec(),
    )
    .unwrap();
    let action1 = process_onion_layer(&r1_sec, packet.circuit_id, &packet.layer).unwrap();
    let (inner_layer, r1_return_key) = match action1 {
        OnionRelayAction::ForwardToNext { inner_layer, return_key, .. } => (inner_layer, return_key),
        _ => panic!("expected ForwardToNext"),
    };
    let action2 = process_onion_layer(&r2_sec, packet.circuit_id, &inner_layer).unwrap();
    let r2_return_key = match action2 {
        OnionRelayAction::DeliverToTarget { return_key, .. } => return_key,
        _ => panic!("expected DeliverToTarget"),
    };
    let response = b"share data payload".to_vec();
    let r2_encrypted = encrypt_relay_response(&r2_return_key, &response).unwrap();
    let r1_encrypted = encrypt_relay_response(&r1_return_key, &r2_encrypted).unwrap();
    let after_r1 = decrypt_response(&r1_return_key, &r1_encrypted).unwrap();
    let plaintext = decrypt_response(&r2_return_key, &after_r1).unwrap();
    assert_eq!(plaintext, response);
}

#[test]
fn e2e_encrypted_build_and_relay_delivery() {
    let (r1_sec, r1_pub) = make_keypair();
    let (r2_sec, r2_pub) = make_keypair();
    let (target_sec, target_pub) = make_keypair();
    let body = b"secret share request".to_vec();
    let (packet, _rp, session_key) = OnionPacketBuilder::build_e2e(
        &r1_pub,
        &r2_pub,
        &target_pub,
        b"r2_peer".to_vec(),
        b"target".to_vec(),
        b"r2_addr".to_vec(),
        body.clone(),
    )
    .unwrap();
    let action1 = process_onion_layer(&r1_sec, packet.circuit_id, &packet.layer).unwrap();
    let inner_layer = match action1 {
        OnionRelayAction::ForwardToNext { inner_layer, .. } => inner_layer,
        _ => panic!("expected ForwardToNext"),
    };
    let action2 = process_onion_layer(&r2_sec, packet.circuit_id, &inner_layer).unwrap();
    let delivered_body = match action2 {
        OnionRelayAction::DeliverToTarget { body, .. } => body,
        _ => panic!("expected DeliverToTarget"),
    };
    assert!(delivered_body.len() > 32);
    let recv_session_key: [u8; 32] = delivered_body[..32].try_into().unwrap();
    assert_eq!(recv_session_key, session_key);
    let e2e_layer = parse_onion_layer(&delivered_body[32..]).unwrap();
    let e2e_payload = OnionLayerProcessor::peel(&target_sec, &e2e_layer).unwrap();
    assert!(e2e_payload.next_hop.is_none());
    assert_eq!(e2e_payload.data, body);
}

#[test]
fn delivery_action_becomes_deliver_request() {
    let action = OnionRelayAction::DeliverToTarget {
        target_peer_id: vec![7, 7],
        circuit_id: CircuitId([3; 16]),
        body: b"body".to_vec(),
        return_key: [9; 32],
    };
    let (peer, req, key) = next_hop_request(action);
    assert_eq!(peer, vec![7, 7]);
    assert_eq!(key, [9; 32]);
    match req {
        OnionRelayRequest::Deliver { circuit_id, body } => {
            assert_eq!(circuit_id, CircuitId([3; 16]));
            assert_eq!(body, b"body".to_vec());
        }
        _ => panic!("expected a delivery"),
    }
}

#[test]
fn relayed_back_response_is_sealed_with_return_key() {
    let key = [4u8; 32];
    match relay_back_response(&key, OnionRelayResponse::Data(b"share".to_vec())) {
        OnionRelayResponse::Data(sealed) => assert_eq!(decrypt_response(&key, &sealed).unwrap(), b"share".to_vec()),
        OnionRelayResponse::Error(e) => panic!("unexpected error {e}"),
    }
    match relay_back_response(&key, OnionRelayResponse::Error("boom".to_string())) {
        OnionRelayResponse::Error(e) => assert_eq!(e, "boom"),
        OnionRelayResponse::Data(_) => panic!("expected the error"),
    }
}
