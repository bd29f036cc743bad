use miasma_core::packet::{
    decrypt_response, derive_onion_static_key, encrypt_response, pad_to_fixed_size,
    parse_inner_payload, parse_layer_payload, parse_onion_layer, unpad_fixed_size, CircuitId,
    LayerPayload, OnionLayerProcessor, OnionPacketBuilder, CIRCUIT_ID_LEN,
};
use rand::RngCore;

fn make_relay_keypair() -> ([u8; 32], [u8; 32]) {
    let mut secret = [0u8; 32];
    rand::thread_rng().fill_bytes(&mut secret);
    let s = x25519_dalek::StaticSecret::from(secret);
    let pubkey = x25519_dalek::PublicKey::from(&s);
    (s.to_bytes(), pubkey.to_bytes())
}

#[test]
fn build_and_peel_two_layers() {
    let (r1_sec, r1_pub) = make_relay_keypair();
    let (r2_sec, r2_pub) = make_relay_keypair();
    let body = b"DHT query: get MID abc123".to_vec();
    let (packet, _return_path) = OnionPacketBuilder::build(
        &r1_pub,
        &r2_pub,
        b"r2_peer_id".to_vec(),
        b"target_peer_id".to_vec(),
        b"r2_addr".to_vec(),
        body.clone(),
    )
    .unwrap();
    let payload1 = OnionLayerProcessor::peel(&r1_sec, &packet.layer).unwrap();
    assert_eq!(payload1.next_hop, Some(b"r2_peer_id".to_vec()));
    let inner_layer = parse_onion_layer(&payload1.data).unwrap();
    let payload2 = OnionLayerProcessor::peel(&r2_sec, &inner_layer).unwrap();
    assert_eq!(payload2.next_hop, Some(b"target_peer_id".to_vec()));
    let inner = parse_inner_payload(&payload2.data).unwrap();
    assert_eq!(inner.body, body);
}

#[test]
fn wrong_key_fails_to_peel() {
    let (_r1_sec, r1_pub) = make_relay_keypair();
    let (r2_sec, r2_pub) = make_relay_keypair();
    let (packet, _) = OnionPacketBuilder::build(
        &r1_pub,
        &r2_pub,
        b"r2".to_vec(),
        b"target".to_vec(),
        b"addr".to_vec(),
        b"payload".to_vec(),
    )
    .unwrap();
    assert!(OnionLayerProcessor::peel(&r2_sec, &packet.layer).is_err());
}

#[test]
fn response_encrypt_decrypt() {
    let mut key = [0u8; 32];
    rand::thread_rng().fill_bytes(&mut key);
    let response = b"DHT response data".to_vec();
    let encrypted = encrypt_response(&key, &response).unwrap();
    let decrypted = decrypt_response(&key, &encrypted).unwrap();
    assert_eq!(decrypted, response);
}

#[test]
fn circuit_ids_are_unique() {
    let ids: Vec<CircuitId> = (0..100).map(|_| CircuitId::random()).collect();
    let unique: std::collections::HashSet<[u8; CIRCUIT_ID_LEN]> = ids.iter().map(|id| id.0).collect();
    assert_eq!(unique.len(), 100);
}

#[test]
fn derive_onion_key_is_deterministic() {
    let master = [0x42u8; 32];
    let k1 = derive_onion_static_key(&master).unwrap();
    let k2 = derive_onion_static_key(&master).unwrap();
    assert_eq!(k1, k2);
    assert_ne!(k1, master);
}

#[test]
fn response_layout_and_wrong_key() {
    let key = [1u8; 32];
    let enc = encrypt_response(&key, b"abc").unwrap();
    assert_eq!(enc.len(), 24 + 3 + 16);
    assert!(decrypt_response(&[2u8; 32], &enc).is_err());
    assert!(decrypt_response(&key, &enc[..10]).is_err());
}

#[test]
fn padding_roundtrip_and_size() {
    let data = b"hello onion".to_vec();
    let padded = pad_to_fixed_size(&data, 64);
    assert_eq!(padded.len(), 64);
    assert_eq!(&padded[..4], &(data.len() as u32).to_le_bytes());
    assert_eq!(unpad_fixed_size(&padded).unwrap(), data);
    let big = pad_to_fixed_size(&[7u8; 100], 10);
    assert_eq!(big.len(), 104);
    assert!(unpad_fixed_size(&[1, 2]).is_err());
    assert!(unpad_fixed_size(&[200, 0, 0, 0, 1]).is_err());
}

#[test]
fn layer_payload_wire_roundtrip() {
    let p = LayerPayload { next_hop: Some(b"hop".to_vec()), data: vec![1, 2, 3], return_key: None };
    let bytes = p.to_bytes();
    let back = parse_layer_payload(&bytes).unwrap();
    assert_eq!(back.next_hop, p.next_hop);
    assert_eq!(back.data, p.data);
    assert_eq!(back.return_key, None);
    assert!(parse_layer_payload(&bytes[..bytes.len() - 1]).is_none());
}
