use miasma_core::relay_probe::{probe_frame_ok, ProbeRequest, ProbeResponse, PROBE_MSG_MAX};

#[test]
fn probe_request_roundtrip() {
    let nonce = [0xABu8; 32];
    let req = ProbeRequest { nonce };
    let bytes = req.to_bytes();
    let decoded = ProbeRequest::from_bytes(&bytes).unwrap();
    assert_eq!(decoded.nonce, nonce);
}

#[test]
fn probe_response_roundtrip() {
    let nonce = [0xCDu8; 32];
    let resp = ProbeResponse { nonce };
    let bytes = resp.to_bytes();
    let decoded = ProbeResponse::from_bytes(&bytes).unwrap();
    assert_eq!(decoded.nonce, nonce);
}

#[test]
fn wire_form_is_bincode_of_the_nonce() {
    let nonce = [7u8; 32];
    assert_eq!(ProbeRequest { nonce }.to_bytes(), bincode::serialize(&nonce).unwrap());
    assert!(ProbeRequest::from_bytes(&[1u8; 31]).is_none());
}

#[test]
fn echo_matches_and_frames() {
    let req = ProbeRequest { nonce: [9u8; 32] };
    let resp = ProbeResponse::echo(&req);
    assert!(resp.matches(&req));
    assert!(!ProbeResponse { nonce: [8u8; 32] }.matches(&req));
    assert!(probe_frame_ok(PROBE_MSG_MAX as u32));
    assert!(!probe_frame_ok(257));
}
