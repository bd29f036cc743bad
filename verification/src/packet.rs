use vstd::prelude::*;
use crate::bytes::{extend_bytes, le_seq, le_value, lemma_le_roundtrip, lemma_le_seq_len, lemma_le_value_bound,
    pow256, read_u64_le, slice_to_vec, u32_le};
use crate::wire::{bytes_field, push_bytes_field};
use crate::crypto_prims::{hkdf_sha256_32, hkdf_sha256_expand32, random_16, random_24, random_32, random_bytes,
    x25519_public_key, x25519_public_of, x25519_shared, x25519_shared_of, xchacha_decrypt, xchacha_encrypt,
    xchacha_open};
use crate::error::MiasmaError;
use vstd::utf8::encode_utf8;

verus! {

/// Length of a circuit identifier.
pub const CIRCUIT_ID_LEN: usize = 16;
/// Length of an X25519 key.
pub const X25519_KEY_LEN: usize = 32;
/// Fixed size every onion layer's data is padded to before encryption.
pub const ONION_PAD_TARGET: usize = 8192;

/// Ephemeral, unique-per-circuit identifier.
#[derive(Debug, Clone, Copy, PartialEq, Eq, Hash)]
pub struct CircuitId(pub [u8; 16]);

impl CircuitId {
    /// A fresh random circuit id.
    pub fn random() -> (c: Self)
    {
        CircuitId(random_16())
    }
}

// ─── Padding ────────────────────────────────────────────────────────────────

/// Whether `out` is `data` padded to `target`: a 4-byte LE length, the
/// data, then padding up to `max(target, 4 + len)` bytes.
pub open spec fn is_padding_of(out: Seq<u8>, data: Seq<u8>, target: nat) -> bool {
    &&& out.len() == if 4 + data.len() > target { 4 + data.len() } else { target }
    &&& out.subrange(0, 4) == le_seq(data.len(), 4)
    &&& out.subrange(4, 4 + data.len() as int) == data
}

/// What unpadding gives: the data its length prefix announces, or `None`
/// when the prefix is missing or announces more than there is.
pub open spec fn unpad_spec(padded: Seq<u8>) -> Option<Seq<u8>> {
    if padded.len() < 4 {
        None
    } else {
        let n = le_value(padded.subrange(0, 4));
        if 4 + n > padded.len() { None } else { Some(padded.subrange(4, 4 + n as int)) }
    }
}

/// Pad `data` to `target_size` bytes with a length prefix and random padding.
pub fn pad_to_fixed_size(data: &[u8], target_size: usize) -> (out: Vec<u8>)
    requires
        data@.len() <= u32::MAX,
        4 + data@.len() <= usize::MAX,
    ensures
        is_padding_of(out@, data@, target_size as nat),
{
    let min_size = 4 + data.len();
    let padded_size = if min_size > target_size { min_size } else { target_size };
    let mut out = u32_le(data.len() as u32);
    extend_bytes(&mut out, data);
    proof {
        lemma_le_seq_len(data@.len(), 4);
    }
    if out.len() < padded_size {
        let pad = random_bytes(padded_size - out.len());
        extend_bytes(&mut out, pad.as_slice());
    }
    assert(out@.subrange(0, 4) =~= le_seq(data@.len(), 4));
    assert(out@.subrange(4, 4 + data@.len() as int) =~= data@);
    out
}

fn le_u32_at_start(b: &[u8]) -> (n: u64)
    requires
        b@.len() >= 4,
    ensures
        n == le_value(b@.subrange(0, 4)),
        n < 0x1_0000_0000,
{
    let ghost s = b@.subrange(0, 4);
    assert(s.drop_first().drop_first().drop_first().drop_first().len() == 0);
    assert(le_value(s) == s[0] + 256 * (s[1] + 256 * (s[2] + 256 * (s[3] + 256 * 0)))) by {
        reveal_with_fuel(le_value, 5);
        assert(s.drop_first()[0] == s[1]);
        assert(s.drop_first().drop_first()[0] == s[2]);
        assert(s.drop_first().drop_first().drop_first()[0] == s[3]);
    }
    let b0 = b[0] as u64;
    let b1 = b[1] as u64;
    let b2 = b[2] as u64;
    let b3 = b[3] as u64;
    assert(b0 + 256 * (b1 + 256 * (b2 + 256 * b3)) < 0x1_0000_0000) by (nonlinear_arith)
        requires
            b0 < 256,
            b1 < 256,
            b2 < 256,
            b3 < 256,
    ;
    b0 + 256 * (b1 + 256 * (b2 + 256 * b3))
}

fn decimal_text(n: u64) -> (s: Vec<char>)
    ensures
        s@ == crate::text::decimal(n as nat),
{
    let mut s: Vec<char> = Vec::new();
    crate::text::push_decimal(&mut s, n);
    assert(s@ =~= crate::text::decimal(n as nat));
    s
}

/// Remove the padding added by `pad_to_fixed_size`.
pub fn unpad_fixed_size(padded: &[u8]) -> (r: Result<Vec<u8>, MiasmaError>)
    ensures
        match r {
            Ok(d) => unpad_spec(padded@) == Some(d@),
            Err(e) => unpad_spec(padded@) is None && e is Decryption,
        },
{
    if padded.len() < 4 {
        return Err(MiasmaError::Decryption(crate::text::owned("padded data too short for length prefix")));
    }
    let original_len = le_u32_at_start(padded);
    if 4 + original_len > padded.len() as u64 {
        let mut msg = crate::text::chars_of("padded data claims length ");
        let a = decimal_text(original_len);
        crate::text::extend_chars(&mut msg, &a);
        let mid = crate::text::chars_of(" but buffer is only ");
        crate::text::extend_chars(&mut msg, &mid);
        let b = decimal_text(padded.len() as u64);
        crate::text::extend_chars(&mut msg, &b);
        let tail = crate::text::chars_of(" bytes");
        crate::text::extend_chars(&mut msg, &tail);
        return Err(MiasmaError::Decryption(crate::text::string_from_chars(&msg)));
    }
    Ok(slice_to_vec(padded, 4, 4 + original_len as usize))
}

/// Unpadding what was padded gives the data back.
pub proof fn lemma_unpad_inverts_pad(out: Seq<u8>, data: Seq<u8>, target: nat)
    requires
        is_padding_of(out, data, target),
        data.len() <= u32::MAX,
    ensures
        unpad_spec(out) == Some(data),
{
    assert(pow256(4) == 0x1_0000_0000) by {
        reveal_with_fuel(pow256, 5);
    }
    lemma_le_roundtrip(data.len(), 4);
}

// ─── Response encryption ────────────────────────────────────────────────────

/// What decrypting a return-path blob gives: the plaintext when the blob
/// holds a 24-byte nonce and a ciphertext that authenticates.
pub open spec fn response_plain(key: Seq<u8>, blob: Seq<u8>) -> Option<Seq<u8>> {
    if blob.len() < 24 {
        None
    } else {
        xchacha_open(key, blob.subrange(0, 24), blob.subrange(24, blob.len() as int))
    }
}

fn nonce_of(blob: &[u8]) -> (n: [u8; 24])
    requires
        blob@.len() >= 24,
    ensures
        n@ == blob@.subrange(0, 24),
{
    let mut n = [0u8; 24];
    let mut i: usize = 0;
    while i < 24
        invariant
            i <= 24,
            blob@.len() >= 24,
            n@.len() == 24,
            forall|j: int| 0 <= j < i ==> n@[j] == blob@[j],
        decreases 24 - i,
    {
        n[i] = blob[i];
        i = i + 1;
    }
    assert(n@ =~= blob@.subrange(0, 24));
    n
}

/// Encrypt a response for the return path: a random 24-byte nonce followed
/// by the XChaCha20-Poly1305 ciphertext.
pub fn encrypt_response(key: &[u8; 32], response: &[u8]) -> (r: Result<Vec<u8>, MiasmaError>)
    ensures
        response@.len() / 64 < 0xffff_ffff ==> r is Ok,
        match r {
            Ok(blob) => response_plain(key@, blob@) == Some(response@) && blob@.len() == response@.len() + 40,
            Err(e) => e is Encryption,
        },
{
    let nonce = random_24();
    let ct = match xchacha_encrypt(key, &nonce, response) {
        Some(ct) => ct,
        None => return Err(MiasmaError::Encryption(crate::text::owned("aead::Error"))),
    };
    let mut out: Vec<u8> = Vec::new();
    extend_bytes(&mut out, nonce.as_slice());
    extend_bytes(&mut out, ct.as_slice());
    assert(out@.subrange(0, 24) =~= nonce@);
    assert(out@.subrange(24, out@.len() as int) =~= ct@);
    Ok(out)
}

/// Decrypt a return-path response.
pub fn decrypt_response(key: &[u8; 32], blob: &[u8]) -> (r: Result<Vec<u8>, MiasmaError>)
    ensures
        match r {
            Ok(pt) => response_plain(key@, blob@) == Some(pt@),
            Err(e) => response_plain(key@, blob@) is None && e is Decryption,
        },
{
    if blob.len() < 24 {
        return Err(MiasmaError::Decryption(crate::text::owned("response blob too short")));
    }
    let nonce = nonce_of(blob);
    let ct = slice_to_vec(blob, 24, blob.len());
    match xchacha_decrypt(key, &nonce, ct.as_slice()) {
        Some(pt) => Ok(pt),
        None => Err(MiasmaError::Decryption(crate::text::owned("aead::Error"))),
    }
}

/// The label a relay's static X25519 key is derived with.
pub open spec fn onion_static_label() -> Seq<u8> {
    encode_utf8("miasma-onion-x25519-v1"@)
}

/// Derive a relay's static X25519 secret key from its master key.
pub fn derive_onion_static_key(master_key: &[u8]) -> (r: Result<[u8; 32], MiasmaError>)
    ensures
        r matches Ok(k) && k@ == hkdf_sha256_32(master_key@, onion_static_label()),
{
    match hkdf_sha256_expand32(master_key, "miasma-onion-x25519-v1".as_bytes()) {
        Some(k) => Ok(k),
        None => Err(MiasmaError::KeyDerivation(crate::text::owned("invalid length"))),
    }
}

// ─── Wire types ─────────────────────────────────────────────────────────────

/// One encrypted onion layer.
#[derive(Debug, Clone)]
pub struct OnionLayer {
    /// Initiator's ephemeral X25519 public key for this hop.
    pub ephemeral_pubkey: [u8; 32],
    /// XChaCha20-Poly1305 nonce.
    pub nonce: [u8; 24],
    /// XChaCha20-Poly1305 ciphertext (with its 16-byte tag).
    pub ciphertext: Vec<u8>,
}

/// Plaintext content inside a decrypted onion layer.
#[derive(Debug)]
pub struct LayerPayload {
    /// `Some(peer)`: forward the data to this peer; `None`: this hop is the destination.
    pub next_hop: Option<Vec<u8>>,
    /// The next layer's bytes, or the final payload.
    pub data: Vec<u8>,
    /// Per-hop key for encrypting the response on its way back.
    pub return_key: Option<[u8; 32]>,
}

/// A 2-hop onion packet ready to send to the first relay.
#[derive(Debug, Clone)]
pub struct OnionPacket {
    /// Ephemeral circuit identifier.
    pub circuit_id: CircuitId,
    /// Outermost layer, only the first relay can decrypt it.
    pub layer: OnionLayer,
}

/// The return path embedded in the innermost payload.
#[derive(Debug, Clone)]
pub struct ReturnPath {
    /// Circuit id the response must carry.
    pub circuit_id: CircuitId,
    /// The second relay's address.
    pub r2_addr: Vec<u8>,
    /// Re-encryption key for the second relay to the first.
    pub r2_r1_key: [u8; 32],
    /// Re-encryption key for the first relay to the initiator.
    pub r1_init_key: [u8; 32],
}

/// Final destination payload.
#[derive(Debug)]
pub struct InnerPayload {
    /// Return path for the response.
    pub return_path: ReturnPath,
    /// The query or message.
    pub body: Vec<u8>,
}

/// The plain view of a layer payload: next hop, data, return key.
pub open spec fn payload_view(p: LayerPayload) -> (Option<Seq<u8>>, Seq<u8>, Option<Seq<u8>>) {
    (match p.next_hop { Some(v) => Some(v@), None => None }, p.data@,
        match p.return_key { Some(k) => Some(k@), None => None })
}

/// An optional byte field: tag 0, or tag 1 and the length-prefixed bytes.
pub open spec fn opt_bytes(o: Option<Seq<u8>>) -> Seq<u8> {
    match o { None => seq![0u8], Some(v) => seq![1u8] + bytes_field(v) }
}

/// An optional 32-byte key: tag 0, or tag 1 and the key.
pub open spec fn opt_key(o: Option<Seq<u8>>) -> Seq<u8> {
    match o { None => seq![0u8], Some(k) => seq![1u8] + k }
}

/// The serialized layer payload.
pub open spec fn payload_bytes(v: (Option<Seq<u8>>, Seq<u8>, Option<Seq<u8>>)) -> Seq<u8> {
    opt_bytes(v.0) + bytes_field(v.1) + opt_key(v.2)
}

/// The serialized onion layer: key, nonce, length-prefixed ciphertext.
pub open spec fn layer_bytes(l: OnionLayer) -> Seq<u8> {
    l.ephemeral_pubkey@ + l.nonce@ + bytes_field(l.ciphertext@)
}

/// The serialized inner payload: circuit id, the second relay's address,
/// both return keys, and the body.
pub open spec fn inner_bytes(ip: InnerPayload) -> Seq<u8> {
    return_path_bytes(ip.return_path, ip.body@)
}

/// The serialized inner payload of a return path and a body.
pub open spec fn return_path_bytes(rp: ReturnPath, body: Seq<u8>) -> Seq<u8> {
    rp.circuit_id.0@ + bytes_field(rp.r2_addr@) + rp.r2_r1_key@ + rp.r1_init_key@ + bytes_field(body)
}

/// Reading a length-prefixed byte field at `pos`: the bytes and the
/// position after them.
pub open spec fn read_field(b: Seq<u8>, pos: int) -> Option<(Seq<u8>, int)> {
    if pos < 0 || pos + 8 > b.len() {
        None
    } else {
        let n = le_value(b.subrange(pos, pos + 8));
        if pos + 8 + n > b.len() { None } else { Some((b.subrange(pos + 8, pos + 8 + n), pos + 8 + n)) }
    }
}

/// Decoding a layer payload from the front of `b` (trailing bytes are
/// ignored); `None` when the bytes are not one.
pub open spec fn decode_payload(b: Seq<u8>) -> Option<(Option<Seq<u8>>, Seq<u8>, Option<Seq<u8>>)> {
    if b.len() < 1 {
        None
    } else {
        let hop: Option<(Option<Seq<u8>>, int)> = if b[0] == 0 {
            Some((None, 1))
        } else if b[0] == 1 {
            match read_field(b, 1) { Some((v, p)) => Some((Some(v), p)), None => None }
        } else {
            None
        };
        match hop {
            None => None,
            Some((h, p1)) => match read_field(b, p1) {
                None => None,
                Some((data, p2)) => if p2 >= b.len() {
                    None
                } else if b[p2] == 0 {
                    Some((h, data, None))
                } else if b[p2] == 1 && p2 + 33 <= b.len() {
                    Some((h, data, Some(b.subrange(p2 + 1, p2 + 33))))
                } else {
                    None
                },
            },
        }
    }
}

impl LayerPayload {
    /// The serialized payload.
    pub fn to_bytes(&self) -> (v: Vec<u8>)
        ensures
            v@ == payload_bytes(payload_view(*self)),
    {
        let mut v: Vec<u8> = Vec::new();
        match &self.next_hop {
            None => v.push(0),
            Some(h) => {
                v.push(1);
                push_bytes_field(&mut v, h.as_slice());
            },
        }
        push_bytes_field(&mut v, self.data.as_slice());
        match &self.return_key {
            None => v.push(0),
            Some(k) => {
                v.push(1);
                extend_bytes(&mut v, k.as_slice());
            },
        }
        assert(v@ =~= payload_bytes(payload_view(*self)));
        v
    }
}

impl OnionLayer {
    /// The serialized layer.
    pub fn to_bytes(&self) -> (v: Vec<u8>)
        ensures
            v@ == layer_bytes(*self),
    {
        let mut v: Vec<u8> = Vec::new();
        extend_bytes(&mut v, self.ephemeral_pubkey.as_slice());
        extend_bytes(&mut v, self.nonce.as_slice());
        push_bytes_field(&mut v, self.ciphertext.as_slice());
        assert(v@ =~= layer_bytes(*self));
        v
    }
}

impl InnerPayload {
    /// The serialized inner payload.
    pub fn to_bytes(&self) -> (v: Vec<u8>)
        ensures
            v@ == inner_bytes(*self),
    {
        let mut v: Vec<u8> = Vec::new();
        extend_bytes(&mut v, self.return_path.circuit_id.0.as_slice());
        push_bytes_field(&mut v, self.return_path.r2_addr.as_slice());
        extend_bytes(&mut v, self.return_path.r2_r1_key.as_slice());
        extend_bytes(&mut v, self.return_path.r1_init_key.as_slice());
        push_bytes_field(&mut v, self.body.as_slice());
        assert(v@ =~= inner_bytes(*self));
        v
    }
}

fn read_field_exec(b: &[u8], pos: usize) -> (r: Option<(Vec<u8>, usize)>)
    ensures
        match r {
            Some((v, p)) => read_field(b@, pos as int) == Some((v@, p as int)),
            None => read_field(b@, pos as int) is None,
        },
{
    if pos > b.len() || b.len() - pos < 8 {
        return None;
    }
    let n = read_u64_le(b, pos);
    if n > (b.len() - pos - 8) as u64 {
        return None;
    }
    let start = pos + 8;
    let end = start + n as usize;
    Some((slice_to_vec(b, start, end), end))
}

fn key32_at(b: &[u8], pos: usize) -> (k: [u8; 32])
    requires
        pos + 32 <= b@.len(),
    ensures
        k@ == b@.subrange(pos as int, pos + 32),
{
    let mut k = [0u8; 32];
    let mut i: usize = 0;
    let blen = b.len();
    while i < 32
        invariant
            i <= 32,
            pos + 32 <= b@.len(),
            blen == b@.len(),
            k@.len() == 32,
            forall|j: int| 0 <= j < i ==> k@[j] == b@[pos + j],
        decreases 32 - i,
    {
        k[i] = b[pos + i];
        i = i + 1;
    }
    assert(k@ =~= b@.subrange(pos as int, pos + 32));
    k
}

/// Decode a layer payload from the front of `b`.
pub fn parse_layer_payload(b: &[u8]) -> (r: Option<LayerPayload>)
    ensures
        match r {
            Some(p) => decode_payload(b@) == Some(payload_view(p)),
            None => decode_payload(b@) is None,
        },
{
    if b.len() < 1 {
        return None;
    }
    let (next_hop, p1) = if b[0] == 0 {
        (None, 1usize)
    } else if b[0] == 1 {
        match read_field_exec(b, 1) {
            Some((v, p)) => (Some(v), p),
            None => return None,
        }
    } else {
        return None;
    };
    let (data, p2) = match read_field_exec(b, p1) {
        Some((v, p)) => (v, p),
        None => return None,
    };
    if p2 >= b.len() {
        return None;
    }
    let return_key = if b[p2] == 0 {
        None
    } else if b[p2] == 1 && b.len() - p2 >= 33 {
        Some(key32_at(b, p2 + 1))
    } else {
        return None;
    };
    Some(LayerPayload { next_hop, data, return_key })
}

/// Decoding what was encoded gives it back, whatever follows it.
pub proof fn lemma_payload_roundtrip(v: (Option<Seq<u8>>, Seq<u8>, Option<Seq<u8>>), rest: Seq<u8>)
    requires
        v.0 matches Some(h) ==> h.len() < pow256(8),
        v.1.len() < pow256(8),
        v.2 matches Some(k) ==> k.len() == 32,
    ensures
        decode_payload(payload_bytes(v) + rest) == Some(v),
{
    let b = payload_bytes(v) + rest;
    lemma_le_seq_len(v.1.len(), 8);
    lemma_le_roundtrip(v.1.len(), 8);
    let p1: int = match v.0 {
        None => 1,
        Some(h) => {
            lemma_le_seq_len(h.len(), 8);
            lemma_le_roundtrip(h.len(), 8);
            9 + h.len() as int
        },
    };
    assert(b.subrange(0, p1) =~= opt_bytes(v.0));
    if let Some(h) = v.0 {
        assert(b.subrange(1, 9) =~= le_seq(h.len(), 8));
        assert(b.subrange(9, 9 + h.len() as int) =~= h);
    }
    assert(b.subrange(p1, p1 + 8) =~= le_seq(v.1.len(), 8));
    assert(b.subrange(p1 + 8, p1 + 8 + v.1.len()) =~= v.1);
    let p2 = p1 + 8 + v.1.len();
    if let Some(k) = v.2 {
        assert(b.subrange(p2 + 1, p2 + 33) =~= k);
    }
    assert(b[p2] == opt_key(v.2)[0]);
    if let Some(h) = v.0 {
        assert(b[0] == 1u8);
    } else {
        assert(b[0] == 0u8);
    }
}

// ─── Layers ─────────────────────────────────────────────────────────────────

/// The label layer keys are derived with.
pub open spec fn onion_enc_label() -> Seq<u8> {
    encode_utf8("miasma-onion-enc-v1"@)
}

/// The symmetric key of a layer, from the X25519 shared secret.
pub open spec fn layer_key(shared: Seq<u8>) -> Seq<u8> {
    hkdf_sha256_32(shared, onion_enc_label())
}

/// Whether `l` holds payload `v` sealed for the holder of the X25519 secret
/// behind public key `pk`: its data padded to the target size, serialized,
/// and encrypted under the key any such holder derives.
#[verifier::opaque]
pub open spec fn sealed_for(l: OnionLayer, pk: Seq<u8>, v: (Option<Seq<u8>>, Seq<u8>, Option<Seq<u8>>)) -> bool {
    exists|padded: Seq<u8>, k: Seq<u8>|
        #![trigger is_padding_of(padded, v.1, ONION_PAD_TARGET as nat), xchacha_open(k, l.nonce@, l.ciphertext@)]
        is_padding_of(padded, v.1, ONION_PAD_TARGET as nat)
        && (forall|rs: Seq<u8>| rs.len() == 32 && #[trigger] x25519_public_of(rs) == pk
            ==> layer_key(x25519_shared_of(rs, l.ephemeral_pubkey@)) == k)
        && xchacha_open(k, l.nonce@, l.ciphertext@) == Some(payload_bytes((v.0, padded, v.2)))
}

/// What peeling a layer with X25519 secret `rs` gives: the payload, its
/// data unpadded, or `None` when the layer does not decrypt or decode.
pub open spec fn peel_spec(rs: Seq<u8>, l: OnionLayer) -> Option<(Option<Seq<u8>>, Seq<u8>, Option<Seq<u8>>)> {
    match xchacha_open(layer_key(x25519_shared_of(rs, l.ephemeral_pubkey@)), l.nonce@, l.ciphertext@) {
        None => None,
        Some(pt) => match decode_payload(pt) {
            None => None,
            Some(v) => match unpad_spec(v.1) {
                None => None,
                Some(d) => Some((v.0, d, v.2)),
            },
        },
    }
}

fn derive_enc_key(shared: &[u8; 32]) -> (r: Result<[u8; 32], MiasmaError>)
    ensures
        r matches Ok(k) && k@ == layer_key(shared@),
{
    match hkdf_sha256_expand32(shared.as_slice(), "miasma-onion-enc-v1".as_bytes()) {
        Some(k) => Ok(k),
        None => Err(MiasmaError::KeyDerivation(crate::text::owned("invalid length"))),
    }
}

/// The ciphertext length of a sealed payload: the serialized payload with
/// its data padded, and the 16-byte tag.
pub open spec fn sealed_len(v: (Option<Seq<u8>>, Seq<u8>, Option<Seq<u8>>)) -> int {
    (match v.0 { Some(h) => 9 + h.len(), None => 1 }) + 8 + padded_len(v.1.len() as int)
        + (match v.2 { Some(k) => 1 + k.len(), None => 1 }) + 16
}

/// Builds 2-hop onion packets.
pub struct OnionPacketBuilder;

impl OnionPacketBuilder {
    /// Seal one layer for the holder of `recipient_static_pubkey`: pad the
    /// data, agree on a key with a fresh ephemeral X25519 key, and encrypt
    /// the serialized payload under a random nonce.
    pub fn encrypt_layer(recipient_static_pubkey: &[u8; 32], payload: LayerPayload) -> (r: Result<OnionLayer, MiasmaError>)
        requires
            payload.data@.len() <= u32::MAX,
            4 + payload.data@.len() <= usize::MAX,
        ensures
            (payload.next_hop matches Some(h) ==> h@.len() <= u32::MAX) ==> r is Ok,
            match r {
                Ok(l) => sealed_for(l, recipient_static_pubkey@, payload_view(payload))
                    && l.ciphertext@.len() == sealed_len(payload_view(payload)),
                Err(e) => e is Encryption,
            },
    {
        let ghost v = payload_view(payload);
        let padded = pad_to_fixed_size(payload.data.as_slice(), ONION_PAD_TARGET);
        let padded_payload = LayerPayload { next_hop: payload.next_hop, data: padded, return_key: payload.return_key };
        let eph_secret = random_32();
        let eph_pub = x25519_public_key(&eph_secret);
        let shared = x25519_shared(&eph_secret, recipient_static_pubkey);
        let enc_key = match derive_enc_key(&shared) {
            Ok(k) => k,
            Err(e) => return Err(MiasmaError::Encryption(crate::text::owned("invalid length"))),
        };
        let plaintext = padded_payload.to_bytes();
        let nonce = random_24();
        proof {
            assert(payload_view(padded_payload) == (v.0, padded@, v.2));
            lemma_le_seq_len(padded@.len(), 8);
            let pt = payload_bytes((v.0, padded@, v.2));
            match v.0 {
                Some(h) => {
                    lemma_le_seq_len(h.len(), 8);
                    assert(opt_bytes(v.0).len() == 9 + h.len());
                },
                None => {},
            }
            assert(opt_key(v.2).len() <= 33);
            assert(padded@.len() <= 8192 + 4 + u32::MAX);
            assert(v.0 matches Some(h) && h.len() <= u32::MAX ==> pt.len() / 64 < 0xffff_ffff);
            assert(v.0 is None ==> pt.len() / 64 < 0xffff_ffff);
            assert(pt.len() + 16 == sealed_len(v));
        }
        let ciphertext = match xchacha_encrypt(&enc_key, &nonce, plaintext.as_slice()) {
            Some(ct) => ct,
            None => return Err(MiasmaError::Encryption(crate::text::owned("aead::Error"))),
        };
        let layer = OnionLayer { ephemeral_pubkey: eph_pub, nonce, ciphertext };
        proof {
            reveal(sealed_for);
            assert forall|rs: Seq<u8>| rs.len() == 32 && #[trigger] x25519_public_of(rs) == recipient_static_pubkey@
                implies layer_key(x25519_shared_of(rs, layer.ephemeral_pubkey@)) == enc_key@ by {
                assert(shared@ == x25519_shared_of(rs, x25519_public_of(eph_secret@)));
            }
            assert(is_padding_of(padded@, v.1, ONION_PAD_TARGET as nat));
        }
        Ok(layer)
    }
}

/// Processes (peels) one onion layer with a relay's static X25519 secret.
pub struct OnionLayerProcessor;

impl OnionLayerProcessor {
    /// Peel one layer: decrypt it with the key agreed with its ephemeral
    /// key, decode the payload and remove the data's padding.
    pub fn peel(relay_static_secret: &[u8; 32], layer: &OnionLayer) -> (r: Result<LayerPayload, MiasmaError>)
        ensures
            match r {
                Ok(p) => peel_spec(relay_static_secret@, *layer) == Some(payload_view(p)),
                Err(_) => peel_spec(relay_static_secret@, *layer) is None,
            },
    {
        let shared = x25519_shared(relay_static_secret, &layer.ephemeral_pubkey);
        let enc_key = match derive_enc_key(&shared) {
            Ok(k) => k,
            Err(e) => return Err(e),
        };
        let plaintext = match xchacha_decrypt(&enc_key, &layer.nonce, layer.ciphertext.as_slice()) {
            Some(pt) => pt,
            None => return Err(MiasmaError::Decryption(crate::text::owned("aead::Error"))),
        };
        let payload = match parse_layer_payload(plaintext.as_slice()) {
            Some(p) => p,
            None => return Err(MiasmaError::Serialization(crate::text::owned("malformed layer payload"))),
        };
        let data = match unpad_fixed_size(payload.data.as_slice()) {
            Ok(d) => d,
            Err(e) => return Err(e),
        };
        Ok(LayerPayload { next_hop: payload.next_hop, data, return_key: payload.return_key })
    }
}

/// A layer sealed for the holder of a secret peels, with that secret, to
/// the payload it was sealed with.
pub proof fn lemma_peel_inverts_seal(rs: Seq<u8>, l: OnionLayer, v: (Option<Seq<u8>>, Seq<u8>, Option<Seq<u8>>))
    requires
        rs.len() == 32,
        sealed_for(l, x25519_public_of(rs), v),
        v.0 matches Some(h) ==> h.len() < pow256(8),
        v.1.len() <= u32::MAX,
        v.2 matches Some(k) ==> k.len() == 32,
    ensures
        peel_spec(rs, l) == Some(v),
{
    reveal(sealed_for);
    let (padded, k) = choose|padded: Seq<u8>, k: Seq<u8>|
        #![trigger is_padding_of(padded, v.1, ONION_PAD_TARGET as nat), xchacha_open(k, l.nonce@, l.ciphertext@)]
        is_padding_of(padded, v.1, ONION_PAD_TARGET as nat)
        && (forall|rs2: Seq<u8>| rs2.len() == 32 && #[trigger] x25519_public_of(rs2) == x25519_public_of(rs)
            ==> layer_key(x25519_shared_of(rs2, l.ephemeral_pubkey@)) == k)
        && xchacha_open(k, l.nonce@, l.ciphertext@) == Some(payload_bytes((v.0, padded, v.2)));
    assert(layer_key(x25519_shared_of(rs, l.ephemeral_pubkey@)) == k);
    assert(pow256(8) == 0x1_0000_0000_0000_0000) by {
        reveal_with_fuel(pow256, 9);
    }
    lemma_payload_roundtrip((v.0, padded, v.2), Seq::empty());
    assert(payload_bytes((v.0, padded, v.2)) + Seq::<u8>::empty() =~= payload_bytes((v.0, padded, v.2)));
    lemma_unpad_inverts_pad(padded, v.1, ONION_PAD_TARGET as nat);
}

impl ReturnPath {
    /// A copy of this return path.
    pub fn copy(&self) -> (c: ReturnPath)
        ensures
            c.circuit_id == self.circuit_id,
            c.r2_addr@ == self.r2_addr@,
            c.r2_r1_key == self.r2_r1_key,
            c.r1_init_key == self.r1_init_key,
    {
        let addr = self.r2_addr.clone();
        assert(addr@ =~= self.r2_addr@);
        ReturnPath { circuit_id: self.circuit_id, r2_addr: addr, r2_r1_key: self.r2_r1_key, r1_init_key: self.r1_init_key }
    }
}

/// The size of the padded data of a layer whose data has `n` bytes.
pub open spec fn padded_len(n: int) -> int {
    if 4 + n > ONION_PAD_TARGET { 4 + n } else { ONION_PAD_TARGET as int }
}

/// Whether a 2-hop packet over these sizes keeps every layer's data within
/// the 4-byte length prefix: the inner payload, and the second layer that
/// the first layer carries.
pub open spec fn fits_onion(r2_addr_len: int, body_len: int, target_len: int, r2_peer_len: int) -> bool {
    let inner = 96 + r2_addr_len + body_len;
    let layer2 = 32 + 24 + 8 + (1 + 8 + target_len + 8 + padded_len(inner) + 33) + 16;
    &&& inner <= u32::MAX
    &&& 4 + inner <= usize::MAX
    &&& target_len <= u32::MAX
    &&& layer2 <= u32::MAX
    &&& 4 + layer2 <= usize::MAX
    &&& r2_peer_len <= u32::MAX
}

impl OnionPacketBuilder {
    /// Build a 2-hop onion packet: the inner layer, for the second relay,
    /// names the target and carries the return path and body; the outer
    /// layer, for the first relay, names the second relay and carries the
    /// inner layer. Gives the packet and the return path to keep.
    pub fn build(r1_static_pubkey: &[u8; 32], r2_static_pubkey: &[u8; 32], r2_peer_id: Vec<u8>,
        target_peer_id: Vec<u8>, r2_addr: Vec<u8>, body: Vec<u8>) -> (r: Result<(OnionPacket, ReturnPath), MiasmaError>)
        requires
            fits_onion(r2_addr@.len() as int, body@.len() as int, target_peer_id@.len() as int, r2_peer_id@.len() as int),
        ensures
            r is Ok,
            r matches Ok((pkt, rp)) ==> two_hop(pkt, rp, r1_static_pubkey@, r2_static_pubkey@, r2_peer_id@,
                target_peer_id@, r2_addr@, body@),
    {
        let circuit_id = CircuitId::random();
        let r2_r1_key = random_32();
        let r1_init_key = random_32();
        let return_path = ReturnPath { circuit_id, r2_addr, r2_r1_key, r1_init_key };
        let inner = InnerPayload { return_path: return_path.copy(), body };
        let inner_bytes = inner.to_bytes();
        proof {
            lemma_le_seq_len(inner.return_path.r2_addr@.len(), 8);
            lemma_le_seq_len(inner.body@.len(), 8);
            assert(inner_bytes@.len() == 96 + return_path.r2_addr@.len() + inner.body@.len());
        }
        let ghost inner_view = inner_bytes@;
        let layer2 = match Self::encrypt_layer(r2_static_pubkey,
            LayerPayload { next_hop: Some(target_peer_id), data: inner_bytes, return_key: Some(r2_r1_key) }) {
            Ok(l) => l,
            Err(e) => return Err(e),
        };
        let layer2_bytes = layer2.to_bytes();
        proof {
            lemma_le_seq_len(layer2.ciphertext@.len(), 8);
            assert(layer2_bytes@.len() == 64 + layer2.ciphertext@.len());
        }
        let layer1 = match Self::encrypt_layer(r1_static_pubkey,
            LayerPayload { next_hop: Some(r2_peer_id), data: layer2_bytes, return_key: Some(r1_init_key) }) {
            Ok(l) => l,
            Err(e) => return Err(e),
        };
        proof {
            reveal(two_hop);
        }
        Ok((OnionPacket { circuit_id, layer: layer1 }, return_path))
    }
}

/// Whether `(pkt, rp)` is a 2-hop packet carrying `body` to `target` through
/// the relays with public keys `r1` and `r2`.
#[verifier::opaque]
pub open spec fn two_hop(pkt: OnionPacket, rp: ReturnPath, r1: Seq<u8>, r2: Seq<u8>, r2_peer: Seq<u8>, target: Seq<u8>,
    r2_addr: Seq<u8>, body: Seq<u8>) -> bool {
    &&& pkt.circuit_id == rp.circuit_id
    &&& rp.r2_addr@ == r2_addr
    &&& exists|l2: OnionLayer| sealed_for(pkt.layer, r1, (Some(r2_peer), #[trigger] layer_bytes(l2), Some(rp.r1_init_key@)))
        && sealed_for(l2, r2, (Some(target), return_path_bytes(rp, body), Some(rp.r2_r1_key@)))
        && layer_bytes(l2).len() <= u32::MAX
}

/// Whether `(pkt, rp)` carries, with session key `sk`, `body` sealed for
/// the target with public key `t` along a 2-hop packet.
pub open spec fn e2e_built(pkt: OnionPacket, rp: ReturnPath, sk: Seq<u8>, r1: Seq<u8>, r2: Seq<u8>, t: Seq<u8>,
    r2_peer: Seq<u8>, target: Seq<u8>, r2_addr: Seq<u8>, body: Seq<u8>) -> bool {
    exists|e2e: OnionLayer| sealed_for(e2e, t, (None, body, None))
        && #[trigger] two_hop(pkt, rp, r1, r2, r2_peer, target, r2_addr, sk + layer_bytes(e2e))
}

impl OnionPacketBuilder {
    /// Build a 2-hop packet whose body is also sealed for the target: the
    /// relayed body is a fresh session key followed by the body sealed for
    /// `target_static_pubkey`. Gives the packet, the return path and the
    /// session key.
    pub fn build_e2e(r1_static_pubkey: &[u8; 32], r2_static_pubkey: &[u8; 32], target_static_pubkey: &[u8; 32],
        r2_peer_id: Vec<u8>, target_peer_id: Vec<u8>, r2_addr: Vec<u8>, body: Vec<u8>)
        -> (r: Result<(OnionPacket, ReturnPath, [u8; 32]), MiasmaError>)
        requires
            body@.len() <= u32::MAX,
            4 + body@.len() <= usize::MAX,
            fits_onion(r2_addr@.len() as int, 32 + 64 + sealed_len((None, body@, None)),
                target_peer_id@.len() as int, r2_peer_id@.len() as int),
        ensures
            r is Ok,
            r matches Ok((pkt, rp, sk)) ==> e2e_built(pkt, rp, sk@, r1_static_pubkey@, r2_static_pubkey@,
                target_static_pubkey@, r2_peer_id@, target_peer_id@, r2_addr@, body@),
    {
        let ghost body_view = body@;
        let e2e_payload = LayerPayload { next_hop: None, data: body, return_key: None };
        assert(payload_view(e2e_payload) == (None::<Seq<u8>>, body_view, None::<Seq<u8>>));
        let e2e_layer = match Self::encrypt_layer(target_static_pubkey, e2e_payload) {
            Ok(l) => l,
            Err(e) => return Err(e),
        };
        let e2e_bytes = e2e_layer.to_bytes();
        let session_key = random_32();
        let mut wrapped: Vec<u8> = Vec::new();
        extend_bytes(&mut wrapped, session_key.as_slice());
        extend_bytes(&mut wrapped, e2e_bytes.as_slice());
        proof {
            lemma_le_seq_len(e2e_layer.ciphertext@.len(), 8);
            assert(wrapped@.len() == 32 + 64 + sealed_len((None, body_view, None)));
        }
        let ghost wrapped_view = wrapped@;
        assert(wrapped_view =~= session_key@ + layer_bytes(e2e_layer));
        let (packet, return_path) = match Self::build(r1_static_pubkey, r2_static_pubkey, r2_peer_id, target_peer_id,
            r2_addr, wrapped) {
            Ok(pr) => pr,
            Err(e) => return Err(e),
        };
        proof {
            assert(wrapped_view == session_key@ + layer_bytes(e2e_layer));
            assert(two_hop(packet, return_path, r1_static_pubkey@, r2_static_pubkey@, r2_peer_id@, target_peer_id@,
                r2_addr@, session_key@ + layer_bytes(e2e_layer)));
            assert(sealed_for(e2e_layer, target_static_pubkey@, (None, body_view, None)));
            assert(sealed_for(e2e_layer, target_static_pubkey@, (None, body@, None)));
            assert(e2e_built(packet, return_path, session_key@, r1_static_pubkey@, r2_static_pubkey@,
                target_static_pubkey@, r2_peer_id@, target_peer_id@, r2_addr@, body@));
        }
        Ok((packet, return_path, session_key))
    }
}

/// Decoding an onion layer from the front of `b`: key, nonce and
/// length-prefixed ciphertext (trailing bytes are ignored).
pub open spec fn decode_layer(b: Seq<u8>) -> Option<(Seq<u8>, Seq<u8>, Seq<u8>)> {
    if b.len() < 56 {
        None
    } else {
        match read_field(b, 56) {
            None => None,
            Some((ct, _)) => Some((b.subrange(0, 32), b.subrange(32, 56), ct)),
        }
    }
}

/// The plain view of an onion layer.
pub open spec fn layer_view(l: OnionLayer) -> (Seq<u8>, Seq<u8>, Seq<u8>) {
    (l.ephemeral_pubkey@, l.nonce@, l.ciphertext@)
}

fn nonce_at(b: &[u8], pos: usize) -> (n: [u8; 24])
    requires
        pos + 24 <= b@.len(),
    ensures
        n@ == b@.subrange(pos as int, pos + 24),
{
    let mut n = [0u8; 24];
    let mut i: usize = 0;
    let blen = b.len();
    while i < 24
        invariant
            i <= 24,
            pos + 24 <= b@.len(),
            blen == b@.len(),
            n@.len() == 24,
            forall|j: int| 0 <= j < i ==> n@[j] == b@[pos + j],
        decreases 24 - i,
    {
        n[i] = b[pos + i];
        i = i + 1;
    }
    assert(n@ =~= b@.subrange(pos as int, pos + 24));
    n
}

/// Decode an onion layer from the front of `b`.
pub fn parse_onion_layer(b: &[u8]) -> (r: Option<OnionLayer>)
    ensures
        match r {
            Some(l) => decode_layer(b@) == Some(layer_view(l)),
            None => decode_layer(b@) is None,
        },
{
    if b.len() < 56 {
        return None;
    }
    let ephemeral_pubkey = key32_at(b, 0);
    let nonce = nonce_at(b, 32);
    match read_field_exec(b, 56) {
        Some((ciphertext, _)) => Some(OnionLayer { ephemeral_pubkey, nonce, ciphertext }),
        None => None,
    }
}

/// Decoding a serialized layer gives it back, whatever follows it.
pub proof fn lemma_layer_roundtrip(l: OnionLayer, rest: Seq<u8>)
    requires
        l.ciphertext@.len() < pow256(8),
    ensures
        decode_layer(layer_bytes(l) + rest) == Some(layer_view(l)),
{
    let b = layer_bytes(l) + rest;
    lemma_le_seq_len(l.ciphertext@.len(), 8);
    lemma_le_roundtrip(l.ciphertext@.len(), 8);
    assert(b.subrange(0, 32) =~= l.ephemeral_pubkey@);
    assert(b.subrange(32, 56) =~= l.nonce@);
    assert(b.subrange(56, 64) =~= le_seq(l.ciphertext@.len(), 8));
    assert(b.subrange(64, 64 + l.ciphertext@.len() as int) =~= l.ciphertext@);
}

/// A 2-hop packet unwraps hop by hop: the first relay's secret peels the
/// outer layer to the second relay's id, a serialized inner layer and the
/// first return key; that layer decodes, and the second relay's secret
/// peels it to the target, the serialized return path and body, and the
/// second return key.
pub proof fn lemma_two_hop_unwraps(pkt: OnionPacket, rp: ReturnPath, s1: Seq<u8>, s2: Seq<u8>, r2_peer: Seq<u8>,
    target: Seq<u8>, r2_addr: Seq<u8>, body: Seq<u8>)
    requires
        s1.len() == 32,
        s2.len() == 32,
        two_hop(pkt, rp, x25519_public_of(s1), x25519_public_of(s2), r2_peer, target, r2_addr, body),
        r2_peer.len() <= u32::MAX,
        target.len() <= u32::MAX,
        return_path_bytes(rp, body).len() <= u32::MAX,
    ensures
        exists|l2: OnionLayer| {
            &&& #[trigger] peel_spec(s1, pkt.layer) == Some((Some(r2_peer), layer_bytes(l2), Some(rp.r1_init_key@)))
            &&& decode_layer(layer_bytes(l2)) == Some(layer_view(l2))
            &&& peel_spec(s2, l2) == Some((Some(target), return_path_bytes(rp, body), Some(rp.r2_r1_key@)))
        },
{
    reveal(two_hop);
    let l2 = choose|l2: OnionLayer| sealed_for(pkt.layer, x25519_public_of(s1),
        (Some(r2_peer), #[trigger] layer_bytes(l2), Some(rp.r1_init_key@)))
        && sealed_for(l2, x25519_public_of(s2), (Some(target), return_path_bytes(rp, body), Some(rp.r2_r1_key@)))
        && layer_bytes(l2).len() <= u32::MAX;
    assert(pow256(8) == 0x1_0000_0000_0000_0000) by {
        reveal_with_fuel(pow256, 9);
    }
    lemma_peel_inverts_seal(s2, l2, (Some(target), return_path_bytes(rp, body), Some(rp.r2_r1_key@)));
    let lb = layer_bytes(l2);
    lemma_le_seq_len(l2.ciphertext@.len(), 8);
    lemma_peel_inverts_seal(s1, pkt.layer, (Some(r2_peer), lb, Some(rp.r1_init_key@)));
    lemma_layer_roundtrip(l2, Seq::empty());
    assert(lb + Seq::<u8>::empty() =~= lb);
}

/// Decoding an inner payload from the front of `b`: circuit id, the second
/// relay's address, both return keys and the body.
pub open spec fn decode_inner(b: Seq<u8>) -> Option<(Seq<u8>, Seq<u8>, Seq<u8>, Seq<u8>, Seq<u8>)> {
    if b.len() < 16 {
        None
    } else {
        match read_field(b, 16) {
            None => None,
            Some((addr, p)) => if p + 64 > b.len() {
                None
            } else {
                match read_field(b, p + 64) {
                    None => None,
                    Some((body, _)) => Some((b.subrange(0, 16), addr, b.subrange(p, p + 32),
                        b.subrange(p + 32, p + 64), body)),
                }
            },
        }
    }
}

/// The plain view of an inner payload.
pub open spec fn inner_view(ip: InnerPayload) -> (Seq<u8>, Seq<u8>, Seq<u8>, Seq<u8>, Seq<u8>) {
    (ip.return_path.circuit_id.0@, ip.return_path.r2_addr@, ip.return_path.r2_r1_key@,
        ip.return_path.r1_init_key@, ip.body@)
}

fn id16_at(b: &[u8]) -> (k: [u8; 16])
    requires
        16 <= b@.len(),
    ensures
        k@ == b@.subrange(0, 16),
{
    let mut k = [0u8; 16];
    let mut i: usize = 0;
    while i < 16
        invariant
            i <= 16,
            16 <= b@.len(),
            k@.len() == 16,
            forall|j: int| 0 <= j < i ==> k@[j] == b@[j],
        decreases 16 - i,
    {
        k[i] = b[i];
        i = i + 1;
    }
    assert(k@ =~= b@.subrange(0, 16));
    k
}

/// Decode an inner payload from the front of `b`.
pub fn parse_inner_payload(b: &[u8]) -> (r: Option<InnerPayload>)
    ensures
        match r {
            Some(ip) => decode_inner(b@) == Some(inner_view(ip)),
            None => decode_inner(b@) is None,
        },
{
    if b.len() < 16 {
        return None;
    }
    let cid = id16_at(b);
    let (r2_addr, p) = match read_field_exec(b, 16) {
        Some(x) => x,
        None => return None,
    };
    if b.len() - p < 64 {
        return None;
    }
    let k1 = key32_at(b, p);
    let k2 = key32_at(b, p + 32);
    let (body, _) = match read_field_exec(b, p + 64) {
        Some(x) => x,
        None => return None,
    };
    Some(InnerPayload {
        return_path: ReturnPath { circuit_id: CircuitId(cid), r2_addr, r2_r1_key: k1, r1_init_key: k2 },
        body,
    })
}

/// Decoding a serialized inner payload gives it back, whatever follows it.
pub proof fn lemma_inner_roundtrip(rp: ReturnPath, body: Seq<u8>, rest: Seq<u8>)
    requires
        rp.r2_addr@.len() < pow256(8),
        body.len() < pow256(8),
    ensures
        decode_inner(return_path_bytes(rp, body) + rest)
            == Some((rp.circuit_id.0@, rp.r2_addr@, rp.r2_r1_key@, rp.r1_init_key@, body)),
{
    let b = return_path_bytes(rp, body) + rest;
    let a = rp.r2_addr@;
    lemma_le_seq_len(a.len(), 8);
    lemma_le_roundtrip(a.len(), 8);
    lemma_le_seq_len(body.len(), 8);
    lemma_le_roundtrip(body.len(), 8);
    let p: int = 24 + a.len() as int;
    assert(b.subrange(0, 16) =~= rp.circuit_id.0@);
    assert(b.subrange(16, 24) =~= le_seq(a.len(), 8));
    assert(b.subrange(24, p) =~= a);
    assert(b.subrange(p, p + 32) =~= rp.r2_r1_key@);
    assert(b.subrange(p + 32, p + 64) =~= rp.r1_init_key@);
    assert(b.subrange(p + 64, p + 72) =~= le_seq(body.len(), 8));
    assert(b.subrange(p + 72, p + 72 + body.len() as int) =~= body);
}

} // verus!
