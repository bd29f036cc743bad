use vstd::prelude::*;
use crate::crypto_prims::x25519_public_of;
use crate::error::MiasmaError;
use crate::bytes::pow256;
use crate::packet::{CircuitId, lemma_inner_roundtrip, lemma_two_hop_unwraps, InnerPayload, OnionLayer, OnionLayerProcessor, OnionPacket, ReturnPath,
    decode_inner, decode_layer, encrypt_response, inner_view, layer_bytes, layer_view, parse_inner_payload,
    parse_onion_layer, peel_spec, response_plain, return_path_bytes, two_hop};

verus! {

/// Largest onion relay message accepted on the wire.
pub const ONION_MSG_MAX: usize = 65536;

/// Metadata about a known relay node.
#[derive(Debug, Clone)]
pub struct RelayInfo {
    /// The relay's peer id bytes.
    pub peer_id: Vec<u8>,
    /// The relay's static X25519 public key.
    pub onion_pubkey: [u8; 32],
    /// The relay's network address.
    pub addr: Vec<u8>,
}

/// Request of the onion relay protocol.
#[derive(Debug, Clone)]
pub enum OnionRelayRequest {
    /// Initial packet from the initiator to the first relay.
    Packet { circuit_id: CircuitId, layer: OnionLayer },
    /// Cell forwarded from the first relay to the second.
    Forward { circuit_id: CircuitId, layer: OnionLayer },
    /// Final delivery from the second relay to the target.
    Deliver { circuit_id: CircuitId, body: Vec<u8> },
}

/// Response travelling back through the onion path.
#[derive(Debug, Clone)]
pub enum OnionRelayResponse {
    /// Encrypted response data.
    Data(Vec<u8>),
    /// The request could not be processed.
    Error(String),
}

/// What a relay does with an incoming layer.
pub enum OnionRelayAction {
    /// Forward the inner layer to the next relay.
    ForwardToNext { next_hop_peer_id: Vec<u8>, circuit_id: CircuitId, inner_layer: OnionLayer, return_key: [u8; 32] },
    /// Deliver the body to the target.
    DeliverToTarget { target_peer_id: Vec<u8>, circuit_id: CircuitId, body: Vec<u8>, return_key: [u8; 32] },
}

/// The action a relay with X25519 secret `rs` takes for a layer: `None`
/// when the layer does not peel, lacks a next hop or a return key, or
/// carries neither a layer nor an inner payload. A payload whose data
/// decodes as a layer is forwarded; otherwise its inner payload's body is
/// delivered.
pub open spec fn relay_action(rs: Seq<u8>, l: OnionLayer) -> Option<(bool, Seq<u8>, Seq<u8>, Seq<u8>)> {
    match peel_spec(rs, l) {
        None => None,
        Some((hop, data, rk)) => match (hop, rk) {
            (Some(h), Some(k)) => match decode_layer(data) {
                Some(_) => Some((true, h, data, k)),
                None => match decode_inner(data) {
                    Some(iv) => Some((false, h, iv.4, k)),
                    None => None,
                },
            },
            _ => None,
        },
    }
}

/// Process an incoming onion layer at a relay: peel it, then forward its
/// inner layer to the next hop or deliver its body to the target.
pub fn process_onion_layer(relay_static_secret: &[u8; 32], circuit_id: CircuitId, layer: &OnionLayer)
    -> (r: Result<OnionRelayAction, MiasmaError>)
    ensures
        match r {
            Ok(OnionRelayAction::ForwardToNext { next_hop_peer_id, circuit_id: c, inner_layer, return_key }) =>
                c == circuit_id && (relay_action(relay_static_secret@, *layer) matches Some((fwd, h, data, k))
                && fwd && h == next_hop_peer_id@ && decode_layer(data) == Some(layer_view(inner_layer))
                && k == return_key@),
            Ok(OnionRelayAction::DeliverToTarget { target_peer_id, circuit_id: c, body, return_key }) =>
                c == circuit_id && (relay_action(relay_static_secret@, *layer) matches Some((fwd, h, b, k))
                && !fwd && h == target_peer_id@ && b == body@ && k == return_key@),
            Err(_) => relay_action(relay_static_secret@, *layer) is None,
        },
{
    let payload = match OnionLayerProcessor::peel(relay_static_secret, layer) {
        Ok(p) => p,
        Err(e) => return Err(e),
    };
    let next_hop = match payload.next_hop {
        Some(h) => h,
        None => return Err(MiasmaError::Sss(crate::text::owned("relay received a layer with no next_hop"))),
    };
    let return_key = match payload.return_key {
        Some(k) => k,
        None => return Err(MiasmaError::Sss(crate::text::owned("relay layer missing return_key"))),
    };
    match parse_onion_layer(payload.data.as_slice()) {
        Some(inner_layer) => Ok(OnionRelayAction::ForwardToNext {
            next_hop_peer_id: next_hop,
            circuit_id,
            inner_layer,
            return_key,
        }),
        None => match parse_inner_payload(payload.data.as_slice()) {
            Some(inner) => Ok(OnionRelayAction::DeliverToTarget {
                target_peer_id: next_hop,
                circuit_id,
                body: inner.body,
                return_key,
            }),
            None => Err(MiasmaError::Serialization(crate::text::owned("relay: failed to parse inner payload"))),
        },
    }
}

/// Encrypt a response blob with a per-hop return key.
pub fn encrypt_relay_response(return_key: &[u8; 32], response: &[u8]) -> (r: Result<Vec<u8>, MiasmaError>)
    ensures
        response@.len() / 64 < 0xffff_ffff ==> r is Ok,
        match r {
            Ok(blob) => response_plain(return_key@, blob@) == Some(response@),
            Err(e) => e is Encryption,
        },
{
    encrypt_response(return_key, response)
}

/// The request a relay sends on for an action, the peer it goes to, and
/// the return key the relay keeps to seal the answer: the inner layer is
/// forwarded to the next relay, or the body delivered to the target.
pub fn next_hop_request(action: OnionRelayAction) -> (r: (Vec<u8>, OnionRelayRequest, [u8; 32]))
    ensures
        match action {
            OnionRelayAction::ForwardToNext { next_hop_peer_id, circuit_id, inner_layer, return_key } =>
                r.0@ == next_hop_peer_id@ && r.2 == return_key
                && (r.1 matches OnionRelayRequest::Forward { circuit_id: c, layer } && c == circuit_id
                    && layer == inner_layer),
            OnionRelayAction::DeliverToTarget { target_peer_id, circuit_id, body, return_key } =>
                r.0@ == target_peer_id@ && r.2 == return_key
                && (r.1 matches OnionRelayRequest::Deliver { circuit_id: c, body: b } && c == circuit_id
                    && b@ == body@),
        },
{
    match action {
        OnionRelayAction::ForwardToNext { next_hop_peer_id, circuit_id, inner_layer, return_key } =>
            (next_hop_peer_id, OnionRelayRequest::Forward { circuit_id, layer: inner_layer }, return_key),
        OnionRelayAction::DeliverToTarget { target_peer_id, circuit_id, body, return_key } =>
            (target_peer_id, OnionRelayRequest::Deliver { circuit_id, body }, return_key),
    }
}

/// The response a relay passes back for the answer to its sub-request:
/// data is sealed with the relay's return key (an error when it cannot
/// be), and an error is passed on as it is.
pub fn relay_back_response(return_key: &[u8; 32], response: OnionRelayResponse) -> (r: OnionRelayResponse)
    ensures
        match response {
            OnionRelayResponse::Data(d) => match r {
                OnionRelayResponse::Data(e) => response_plain(return_key@, e@) == Some(d@),
                OnionRelayResponse::Error(_) => d@.len() / 64 >= 0xffff_ffff,
            },
            OnionRelayResponse::Error(e) => r matches OnionRelayResponse::Error(e2) && e2@ == e@,
        },
{
    match response {
        OnionRelayResponse::Data(data) => match encrypt_relay_response(return_key, data.as_slice()) {
            Ok(encrypted) => OnionRelayResponse::Data(encrypted),
            Err(_) => OnionRelayResponse::Error(crate::text::owned("relay encrypt failed")),
        },
        OnionRelayResponse::Error(e) => OnionRelayResponse::Error(e),
    }
}

/// A forwarded onion cell, after the first relay stripped the outer layer.
#[derive(Debug, Clone)]
pub struct ForwardCell {
    pub circuit_id: CircuitId,
    /// The inner onion layer, for the second relay.
    pub layer: OnionLayer,
}

/// A response cell travelling back toward the initiator.
#[derive(Debug, Clone)]
pub struct ResponseCell {
    pub circuit_id: CircuitId,
    /// The encrypted response body.
    pub encrypted_body: Vec<u8>,
}

/// Handles onion cells at a relay node with a static X25519 secret.
pub struct OnionRelayHandler {
    relay_secret: [u8; 32],
}

impl OnionRelayHandler {
    /// The relay's static secret.
    pub closed spec fn secret(&self) -> Seq<u8> {
        self.relay_secret@
    }

    /// A handler for a relay with this static X25519 secret.
    pub fn new(relay_secret: [u8; 32]) -> (h: Self)
        ensures
            h.secret() == relay_secret@,
    {
        OnionRelayHandler { relay_secret }
    }

    /// At the first relay: peel the packet's layer and decode the inner layer
    /// to forward; gives the next hop and the cell.
    pub fn handle_packet(&self, packet: &OnionPacket) -> (r: Result<(Vec<u8>, ForwardCell), MiasmaError>)
        ensures
            match r {
                Ok((hop, cell)) => peel_spec(self.secret(), packet.layer) matches Some((Some(h), data, _))
                    && h == hop@ && cell.circuit_id == packet.circuit_id
                    && decode_layer(data) == Some(layer_view(cell.layer)),
                Err(_) => !(peel_spec(self.secret(), packet.layer) matches Some((Some(h), data, _))
                    && decode_layer(data) is Some),
            },
    {
        let payload = match OnionLayerProcessor::peel(&self.relay_secret, &packet.layer) {
            Ok(p) => p,
            Err(e) => return Err(e),
        };
        let next_hop = match payload.next_hop {
            Some(h) => h,
            None => return Err(MiasmaError::Sss(crate::text::owned("Relay1 got a packet with no next_hop"))),
        };
        let inner_layer = match parse_onion_layer(payload.data.as_slice()) {
            Some(l) => l,
            None => return Err(MiasmaError::Serialization(crate::text::owned("malformed onion layer"))),
        };
        Ok((next_hop, ForwardCell { circuit_id: packet.circuit_id, layer: inner_layer }))
    }

    /// At the second relay: peel the cell's layer and decode the inner
    /// payload; gives the target and the payload.
    pub fn handle_forward_cell(&self, cell: &ForwardCell) -> (r: Result<(Vec<u8>, InnerPayload), MiasmaError>)
        ensures
            match r {
                Ok((target, inner)) => peel_spec(self.secret(), cell.layer) matches Some((Some(h), data, _))
                    && h == target@ && decode_inner(data) == Some(inner_view(inner)),
                Err(_) => !(peel_spec(self.secret(), cell.layer) matches Some((Some(h), data, _))
                    && decode_inner(data) is Some),
            },
    {
        let payload = match OnionLayerProcessor::peel(&self.relay_secret, &cell.layer) {
            Ok(p) => p,
            Err(e) => return Err(e),
        };
        let target = match payload.next_hop {
            Some(h) => h,
            None => return Err(MiasmaError::Sss(crate::text::owned("Relay2 got a ForwardCell with no next_hop"))),
        };
        let inner = match parse_inner_payload(payload.data.as_slice()) {
            Some(ip) => ip,
            None => return Err(MiasmaError::Serialization(crate::text::owned("malformed inner payload"))),
        };
        Ok((target, inner))
    }
}

/// A packet built for two relays reaches its target through them: the first
/// relay's secret peels it to the second relay and the first return key, and
/// the layer it forwards peels, with the second relay's secret, to the target,
/// the second return key and the return path and body.
pub proof fn lemma_relay_path_delivers(pkt: OnionPacket, rp: ReturnPath, s1: Seq<u8>, s2: Seq<u8>, r2_peer: Seq<u8>,
    target: Seq<u8>, r2_addr: Seq<u8>, body: Seq<u8>, forwarded: OnionLayer)
    requires
        s1.len() == 32,
        s2.len() == 32,
        two_hop(pkt, rp, x25519_public_of(s1), x25519_public_of(s2), r2_peer, target, r2_addr, body),
        r2_peer.len() <= u32::MAX,
        target.len() <= u32::MAX,
        return_path_bytes(rp, body).len() <= u32::MAX,
        peel_spec(s1, pkt.layer) matches Some((_, data, _)) && decode_layer(data) == Some(layer_view(forwarded)),
    ensures
        peel_spec(s1, pkt.layer) matches Some((Some(h), _, Some(k))) && h == r2_peer && k == rp.r1_init_key@,
        peel_spec(s2, forwarded) matches Some((Some(t), data, Some(k))) && t == target && k == rp.r2_r1_key@
            && decode_inner(data) == Some((rp.circuit_id.0@, rp.r2_addr@, rp.r2_r1_key@, rp.r1_init_key@, body)),
{
    lemma_two_hop_unwraps(pkt, rp, s1, s2, r2_peer, target, r2_addr, body);
    let l2 = choose|l2: OnionLayer| {
        &&& #[trigger] peel_spec(s1, pkt.layer) == Some((Some(r2_peer), layer_bytes(l2), Some(rp.r1_init_key@)))
        &&& decode_layer(layer_bytes(l2)) == Some(layer_view(l2))
        &&& peel_spec(s2, l2) == Some((Some(target), return_path_bytes(rp, body), Some(rp.r2_r1_key@)))
    };
    assert(layer_view(forwarded) == layer_view(l2));
    assert(peel_spec(s2, forwarded) == peel_spec(s2, l2));
    assert(pow256(8) == 0x1_0000_0000_0000_0000) by {
        reveal_with_fuel(pow256, 9);
    }
    crate::bytes::lemma_le_seq_len(rp.r2_addr@.len(), 8);
    crate::bytes::lemma_le_seq_len(body.len(), 8);
    lemma_inner_roundtrip(rp, body, Seq::empty());
    assert(return_path_bytes(rp, body) + Seq::<u8>::empty() =~= return_path_bytes(rp, body));
}

} // verus!
