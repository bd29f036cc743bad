use miasma_core::circuit::CircuitManager;
use miasma_core::packet::{encrypt_response, CircuitId, ReturnPath};
use rand::RngCore;

fn dummy_return_path() -> ReturnPath {
    let mut r2_r1_key = [0u8; 32];
    let mut r1_init_key = [0u8; 32];
    rand::rngs::OsRng.fill_bytes(&mut r2_r1_key);
    rand::rngs::OsRng.fill_bytes(&mut r1_init_key);
    ReturnPath { circuit_id: CircuitId::random(), r2_addr: b"addr".to_vec(), r2_r1_key, r1_init_key }
}

#[test]
fn register_and_deliver() {
    let mut mgr = CircuitManager::with_default_ttl();
    let rp = dummy_return_path();
    let cid = mgr.register(rp.clone());
    assert_eq!(mgr.active_count(), 1);

    let response_body = b"DHT result data".to_vec();
    let intermediate = encrypt_response(&rp.r2_r1_key, &response_body).unwrap();
    let blob = encrypt_response(&rp.r1_init_key, &intermediate).unwrap();
    let delivered = mgr.deliver_response(cid, &blob).unwrap();
    assert!(delivered.is_some());
    assert_eq!(delivered.unwrap(), response_body);
    assert_eq!(mgr.active_count(), 0);
}

#[test]
fn unknown_circuit_returns_false() {
    let mut mgr = CircuitManager::with_default_ttl();
    let unknown = CircuitId::random();
    let result = mgr.deliver_response(unknown, &vec![0u8; 40]).unwrap();
    assert!(result.is_none());
}

#[test]
fn duplicate_register_overwrites() {
    let mut mgr = CircuitManager::with_default_ttl();
    let rp1 = dummy_return_path();
    let rp2 = ReturnPath { circuit_id: rp1.circuit_id, ..dummy_return_path() };
    mgr.register(rp1);
    mgr.register(rp2);
    assert_eq!(mgr.active_count(), 1);
}

#[test]
fn expired_circuits_are_dropped_on_register() {
    let mut mgr = CircuitManager::new(1_000);
    let old = dummy_return_path();
    let old_id = old.circuit_id;
    mgr.register_at(old, 0);
    assert_eq!(mgr.active_count_at(999), 1);
    assert_eq!(mgr.active_count_at(1_000), 0);
    mgr.register_at(dummy_return_path(), 5_000);
    assert_eq!(mgr.active_count_at(5_000), 1);
    assert!(mgr.deliver_response(old_id, &vec![0u8; 40]).unwrap().is_none());
}

#[test]
fn garbled_response_is_an_error_and_forgets_the_circuit() {
    let mut mgr = CircuitManager::with_default_ttl();
    let rp = dummy_return_path();
    let cid = mgr.register(rp);
    assert!(mgr.deliver_response(cid, &vec![0u8; 40]).is_err());
    assert!(mgr.deliver_response(cid, &vec![0u8; 40]).unwrap().is_none());
}

#[test]
fn expired_circuit_delivery_returns_none() {
    let mut mgr = CircuitManager::new(1_000);
    let rp = dummy_return_path();
    let body = b"late".to_vec();
    let intermediate = encrypt_response(&rp.r2_r1_key, &body).unwrap();
    let blob = encrypt_response(&rp.r1_init_key, &intermediate).unwrap();
    let cid = mgr.register_at(rp.clone(), 0);
    assert!(mgr.deliver_response_at(cid, &blob, 1_000).unwrap().is_none());
    assert_eq!(mgr.active_count_at(0), 0);
    let cid = mgr.register_at(rp, 2_000);
    assert_eq!(mgr.deliver_response_at(cid, &blob, 2_999).unwrap(), Some(body));
}
