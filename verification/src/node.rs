use vstd::prelude::*;
use crate::bbs_credential::{BbsCredential, BbsCredentialAttributes, BbsIssuer, messages_spec, signed_with};
use crate::bytes::{extend_bytes, le_seq, read_u64_le, u32_le};
use crate::credential::{CAP_ROUTE, CAP_STORE, CredentialBody, CredentialIssuer, CredentialPresentation, CredentialTier,
    CredentialWallet, SignedCredential, cred_key, cred_view, credential_bytes_spec, epoch_valid_spec, holder_tag_spec,
    issue_message, issuer_signed, key_listed, present_message, verify_presentation};
use crate::crypto_prims::random_bytes;
use crate::signing::ed25519_signature_of;
use crate::descriptor::PeerDescriptor;
use crate::sybil::NodeIdPoW;

verus! {

// ─── Wire types of the request-response protocols ───────────────────────────

/// Request for one shard of a dissolved content item.
#[derive(Debug, Clone, Copy, PartialEq, Eq)]
pub struct ShareFetchRequest {
    pub mid_digest: [u8; 32],
    pub slot_index: u16,
    pub segment_index: u32,
}

/// PoW admission request — sent after Identify to exchange proof of work.
#[derive(Debug, Clone, Copy)]
pub struct AdmissionRequest {
    /// The requesting node's own PoW proof.
    pub pow: NodeIdPoW,
}

/// PoW admission response — the peer replies with its own PoW proof.
#[derive(Debug, Clone, Copy)]
pub struct AdmissionResponse {
    /// The responding node's PoW proof.
    pub pow: NodeIdPoW,
}

/// Request a credential from an issuer peer after admission.
#[derive(Debug, Clone, Copy)]
pub struct CredentialRequest {
    /// Holder's ephemeral public key (for the current epoch).
    pub ephemeral_pubkey: [u8; 32],
    /// Holder's holder tag (BLAKE3 of the ephemeral public key).
    pub holder_tag: [u8; 32],
    /// Epoch for which the credential is requested.
    pub epoch: u64,
    /// BBS+ link secret, for BBS+ credential issuance.
    pub bbs_link_secret: Option<[u8; 32]>,
}

/// Credential exchange response.
#[derive(Debug, Clone)]
pub struct CredentialResponse {
    /// The signed credential, or `None` if the peer is not eligible.
    pub credential: Option<SignedCredential>,
    /// BBS+ credential (within-epoch unlinkable).
    pub bbs_credential: Option<BbsCredential>,
}

/// Request a peer's descriptor (carrying our own, for a reciprocal exchange).
#[derive(Debug, Clone)]
pub struct DescriptorRequest {
    pub descriptor: Option<PeerDescriptor>,
}

/// Descriptor exchange response.
#[derive(Debug, Clone)]
pub struct DescriptorResponse {
    /// The peer's current descriptor.
    pub descriptor: Option<PeerDescriptor>,
}

// ─── Framing of the codecs ──────────────────────────────────────────────────

/// Max message size for credential exchange (8 KiB).
pub const CREDENTIAL_MSG_MAX: usize = 8192;

/// Max message size for descriptor exchange (16 KiB).
pub const DESCRIPTOR_MSG_MAX: usize = 16384;

/// Max message size for share exchange (4 MiB).
pub const SHARE_MSG_MAX: usize = 4194304;

/// Max message size for the admission protocol (4 KiB).
pub const ADMISSION_MSG_MAX: usize = 4096;

/// A frame: the payload's length as 4 little-endian bytes (truncated to
/// 32 bits), then the payload.
pub open spec fn frame_spec(payload: Seq<u8>) -> Seq<u8> {
    le_seq(payload.len() % 0x1_0000_0000, 4) + payload
}

/// Frame a payload for the wire.
pub fn encode_frame(payload: &[u8]) -> (v: Vec<u8>)
    ensures
        v@ == frame_spec(payload@),
{
    let n = payload.len() as u64;
    #[verifier::truncate]
    let len32 = n as u32;
    assert(len32 == n % 0x1_0000_0000u64) by (bit_vector)
        requires
            len32 == n as u32,
    ;
    let mut v = u32_le(len32);
    extend_bytes(&mut v, payload);
    v
}

/// Whether an announced frame length is within a protocol's limit.
pub open spec fn frame_fits(len: u32, max: usize) -> bool {
    len <= max
}

/// Bincode + 4-byte LE length-prefix codec for `/miasma/credential/1.0.0`.
#[derive(Debug, Clone, Copy, Default)]
pub struct CredentialCodec;

impl CredentialCodec {
    /// Whether a frame of `len` bytes is accepted.
    pub fn frame_ok(&self, len: u32) -> (b: bool)
        ensures
            b == frame_fits(len, CREDENTIAL_MSG_MAX),
    {
        (len as usize) <= CREDENTIAL_MSG_MAX
    }
}

/// Bincode + 4-byte LE length-prefix codec for `/miasma/descriptor/1.0.0`.
#[derive(Debug, Clone, Copy, Default)]
pub struct DescriptorCodec;

impl DescriptorCodec {
    /// Whether a frame of `len` bytes is accepted.
    pub fn frame_ok(&self, len: u32) -> (b: bool)
        ensures
            b == frame_fits(len, DESCRIPTOR_MSG_MAX),
    {
        (len as usize) <= DESCRIPTOR_MSG_MAX
    }
}

/// Bincode + 4-byte LE length-prefix codec for share fetches.
#[derive(Debug, Clone, Copy, Default)]
pub struct ShareCodec;

impl ShareCodec {
    /// Whether a frame of `len` bytes is accepted.
    pub fn frame_ok(&self, len: u32) -> (b: bool)
        ensures
            b == frame_fits(len, SHARE_MSG_MAX),
    {
        (len as usize) <= SHARE_MSG_MAX
    }
}

/// Bincode + 4-byte LE length-prefix codec for PoW admission.
#[derive(Debug, Clone, Copy, Default)]
pub struct AdmissionCodec;

impl AdmissionCodec {
    /// Whether a frame of `len` bytes is accepted.
    pub fn frame_ok(&self, len: u32) -> (b: bool)
        ensures
            b == frame_fits(len, ADMISSION_MSG_MAX),
    {
        (len as usize) <= ADMISSION_MSG_MAX
    }
}

// ─── Credential exchange decisions ──────────────────────────────────────────

/// The capabilities granted with an issued credential: store and route.
pub open spec fn granted_capabilities() -> u8 {
    CAP_STORE | CAP_ROUTE
}

/// Answer a credential request with a given BBS+ nonce: a peer that passed
/// verification gets a Verified credential for the requested epoch and
/// holder tag (and a BBS+ credential over its link secret when it sent
/// one); any other peer gets nothing.
pub fn answer_credential_request_with_nonce(peer_verified: bool, request: &CredentialRequest,
    issuer: &CredentialIssuer, bbs_issuer: &BbsIssuer, nonce: u64) -> (r: CredentialResponse)
    requires
        issuer.wf(),
        bbs_issuer.issuer_key().wf(),
    ensures
        !peer_verified ==> r.credential is None && r.bbs_credential is None,
        peer_verified ==> (r.credential matches Some(c) && c.body == (CredentialBody {
            tier: CredentialTier::Verified,
            epoch: request.epoch,
            capabilities: granted_capabilities(),
            holder_tag: request.holder_tag,
        }) && c.issuer_pubkey == issuer.public()
            && c.issuer_signature@ == ed25519_signature_of(issuer.secret(), issue_message(c.body))),
        peer_verified ==> match request.bbs_link_secret {
            None => r.bbs_credential is None,
            Some(ls) => (r.bbs_credential matches Some(b) && b.attributes == (BbsCredentialAttributes {
                link_secret: ls,
                tier: CredentialTier::Verified,
                capabilities: granted_capabilities(),
                epoch: request.epoch,
                nonce,
            }) && b.issuer_pk@ == bbs_issuer.issuer_key().public()@
                && signed_with(bbs_issuer.issuer_key().secret(), messages_spec(b.attributes), b.signature)),
        },
{
    if !peer_verified {
        return CredentialResponse { credential: None, bbs_credential: None };
    }
    let caps: u8 = CAP_STORE | CAP_ROUTE;
    let cred = issuer.issue(CredentialTier::Verified, request.epoch, caps, request.holder_tag);
    let bbs = match request.bbs_link_secret {
        None => None,
        Some(ls) => Some(bbs_issuer.issue(BbsCredentialAttributes {
            link_secret: ls,
            tier: CredentialTier::Verified,
            capabilities: caps,
            epoch: request.epoch,
            nonce,
        })),
    };
    CredentialResponse { credential: Some(cred), bbs_credential: bbs }
}

/// Answer a credential request, drawing the BBS+ nonce at random.
pub fn answer_credential_request(peer_verified: bool, request: &CredentialRequest, issuer: &CredentialIssuer,
    bbs_issuer: &BbsIssuer) -> (r: CredentialResponse)
    requires
        issuer.wf(),
        bbs_issuer.issuer_key().wf(),
    ensures
        !peer_verified ==> r.credential is None && r.bbs_credential is None,
        peer_verified ==> (r.credential matches Some(c) && c.body == (CredentialBody {
            tier: CredentialTier::Verified,
            epoch: request.epoch,
            capabilities: granted_capabilities(),
            holder_tag: request.holder_tag,
        }) && c.issuer_pubkey == issuer.public()
            && c.issuer_signature@ == ed25519_signature_of(issuer.secret(), issue_message(c.body))),
        peer_verified ==> match request.bbs_link_secret {
            None => r.bbs_credential is None,
            Some(ls) => (r.bbs_credential matches Some(b) && b.attributes.link_secret == ls
                && b.attributes.tier == CredentialTier::Verified && b.attributes.capabilities == granted_capabilities()
                && b.attributes.epoch == request.epoch && b.issuer_pk@ == bbs_issuer.issuer_key().public()@
                && signed_with(bbs_issuer.issuer_key().secret(), messages_spec(b.attributes), b.signature)),
        },
{
    let bytes = random_bytes(8);
    let nonce = read_u64_le(bytes.as_slice(), 0);
    answer_credential_request_with_nonce(peer_verified, request, issuer, bbs_issuer, nonce)
}

/// Whether a credential returned by an issuer is accepted: presented under
/// the wallet's own identity in `context`, it must come from a listed
/// issuer, carry a valid issuer signature, be bound to the wallet's holder
/// tag and be within the epoch window of `current_epoch`.
pub open spec fn credential_acceptable(cred: SignedCredential, holder_pubkey: [u8; 32], known: Seq<[u8; 32]>,
    current_epoch: u64) -> bool {
    &&& key_listed(known, cred.issuer_pubkey@)
    &&& issuer_signed(cred)
    &&& holder_tag_spec(holder_pubkey@) == cred.body.holder_tag@
    &&& epoch_valid_spec(cred.body.epoch, current_epoch)
}

/// Check a credential an issuer returned and store it in the wallet when it
/// verifies (any tier is accepted). Returns whether it was stored.
pub fn accept_issued_credential(wallet: &mut CredentialWallet, cred: SignedCredential, known_issuers: &[[u8; 32]],
    current_epoch: u64, context: &[u8]) -> (stored: bool)
    requires
        old(wallet).wf(),
    ensures
        final(wallet).wf(),
        stored == credential_acceptable(cred, old(wallet).public(), known_issuers@, current_epoch),
        !stored ==> *final(wallet) == *old(wallet),
        stored ==> final(wallet).creds().contains(cred_view(cred)) && final(wallet).public() == old(wallet).public()
            && final(wallet).epoch_value() == old(wallet).epoch_value(),
{
    let presentation = CredentialPresentation::create(&cred, wallet.identity(), context);
    proof {
        assert(credential_bytes_spec(presentation.credential) == credential_bytes_spec(cred));
        assert(presentation.credential.issuer_signature@ == cred.issuer_signature@);
        assert(issuer_signed(presentation.credential) == issuer_signed(cred));
        assert(present_message(presentation.credential, context@) == present_message(cred, context@));
    }
    match verify_presentation(&presentation, context, known_issuers, current_epoch, CredentialTier::Observed) {
        Ok(_) => {
            let ghost before = wallet.creds();
            wallet.store(cred);
            proof {
                let cv = cred_view(cred);
                if exists|i: int| 0 <= i < before.len() && cred_key(before[i]) == cred_key(cv) {
                    let i = choose|i: int| 0 <= i < before.len() && cred_key(before[i]) == cred_key(cv);
                    assert(wallet.creds()[i] == cv);
                } else {
                    assert(wallet.creds()[before.len() as int] == cv);
                }
            }
            true
        },
        Err(_) => false,
    }
}

} // verus!
