use vstd::prelude::*;
use crate::bytes::{extend_bytes, le_seq, u16_le, u64_le};
use crate::hashing::{blake3_hash, blake3_of};
use crate::text::{chars_of, decimal, push_decimal, string_from_chars};

verus! {

// ─── Credential ───────────────────────────────────────────────────────────────

/// A reputation credential: contribution metrics and the issuer's tag.
#[derive(Debug, Clone, PartialEq, Eq)]
pub struct ReputationCredential {
    /// Percentage of expected uptime in the last 30 days (0-100).
    pub uptime_score: u8,
    /// Average share-serve rate.
    pub serves_per_hour: u16,
    /// 0=baseline, 1=trusted, 2=backbone.
    pub tier: u8,
    /// Unix timestamp of issuance.
    pub issued_at: u64,
    /// Unix timestamp of expiry.
    pub expires_at: u64,
    /// Issuer tag over the fields.
    pub signature: Vec<u8>,
}

/// The bytes that a credential's tag is computed over:
/// `uptime || tier || serves_per_hour (LE) || issued_at (LE) || issuer key`.
pub open spec fn credential_tag_input(
    uptime_score: u8,
    serves_per_hour: u16,
    tier: u8,
    issued_at: u64,
    key: Seq<u8>,
) -> Seq<u8> {
    seq![uptime_score, tier] + le_seq(serves_per_hour as nat, 2) + le_seq(issued_at as nat, 8) + key
}

impl ReputationCredential {
    /// Create a credential: the fields as given, expiry `issued_at + ttl_secs`,
    /// and the BLAKE3 tag of the fields and the issuer key.
    pub fn new(
        uptime_score: u8,
        serves_per_hour: u16,
        tier: u8,
        issued_at: u64,
        ttl_secs: u64,
        issuer_signing_key: &[u8],
    ) -> (c: Self)
        requires
            issued_at + ttl_secs <= u64::MAX,
        ensures
            c.uptime_score == uptime_score,
            c.serves_per_hour == serves_per_hour,
            c.tier == tier,
            c.issued_at == issued_at,
            c.expires_at == issued_at + ttl_secs,
            c.signature@ == blake3_of(
                credential_tag_input(uptime_score, serves_per_hour, tier, issued_at, issuer_signing_key@),
            ),
    {
        let mut input: Vec<u8> = Vec::new();
        input.push(uptime_score);
        input.push(tier);
        let s = u16_le(serves_per_hour);
        extend_bytes(&mut input, s.as_slice());
        let t = u64_le(issued_at);
        extend_bytes(&mut input, t.as_slice());
        extend_bytes(&mut input, issuer_signing_key);
        assert(input@ =~= credential_tag_input(uptime_score, serves_per_hour, tier, issued_at, issuer_signing_key@));
        let h = blake3_hash(input.as_slice());
        let mut sig: Vec<u8> = Vec::new();
        extend_bytes(&mut sig, &h);
        assert(sig@ =~= h@);
        ReputationCredential {
            uptime_score,
            serves_per_hour,
            tier,
            issued_at,
            expires_at: issued_at + ttl_secs,
            signature: sig,
        }
    }

    /// Whether the credential has expired at `now_unix` (expiry is exclusive).
    pub fn is_expired(&self, now_unix: u64) -> (b: bool)
        ensures
            b == (now_unix >= self.expires_at),
    {
        now_unix >= self.expires_at
    }
}

// ─── Proof ────────────────────────────────────────────────────────────────────

/// A proof derived from a `ReputationCredential`, disclosing selected fields.
#[derive(Debug, Clone)]
pub struct ReputationProof {
    /// Which fields are disclosed (bit 0 = uptime_score, bit 1 = tier, ...).
    pub disclosed_fields: u8,
    /// Disclosed field values (in field order, only for disclosed fields).
    pub disclosed_values: Vec<u64>,
    /// Proof bytes.
    pub proof_bytes: Vec<u8>,
    /// The threshold claims this proof satisfies, as JSON.
    pub claims_json: String,
}

/// The claim text of an uptime threshold proof: `{"uptime_score_gte":T}`.
pub open spec fn uptime_claim(threshold: u8) -> Seq<char> {
    "{\"uptime_score_gte\":"@ + decimal(threshold as nat) + "}"@
}

impl ReputationProof {
    /// Derive a proof that discloses `uptime_score` and claims it is at least
    /// `threshold`; `None` when the credential's score is below it.
    pub fn prove_uptime_threshold(cred: &ReputationCredential, threshold: u8, nonce: &[u8]) -> (r: Option<Self>)
        ensures
            match r {
                None => cred.uptime_score < threshold,
                Some(p) => cred.uptime_score >= threshold
                    && p.disclosed_fields == 1
                    && p.disclosed_values@ == seq![cred.uptime_score as u64]
                    && p.proof_bytes@ == blake3_of(cred.signature@ + nonce@ + seq![threshold])
                    && p.proof_bytes@.len() == 32
                    && p.claims_json@ == uptime_claim(threshold),
            },
    {
        if cred.uptime_score < threshold {
            return None;
        }
        let mut input: Vec<u8> = Vec::new();
        extend_bytes(&mut input, cred.signature.as_slice());
        extend_bytes(&mut input, nonce);
        input.push(threshold);
        assert(input@ =~= cred.signature@ + nonce@ + seq![threshold]);
        let h = blake3_hash(input.as_slice());
        let mut proof_bytes: Vec<u8> = Vec::new();
        extend_bytes(&mut proof_bytes, &h);
        assert(proof_bytes@ =~= h@);
        let mut claim = chars_of("{\"uptime_score_gte\":");
        push_decimal(&mut claim, threshold as u64);
        let close = chars_of("}");
        let mut i: usize = 0;
        let ghost before = claim@;
        while i < close.len()
            invariant
                i <= close@.len(),
                claim@ == before + close@.subrange(0, i as int),
            decreases close@.len() - i,
        {
            claim.push(close[i]);
            assert(close@.subrange(0, i + 1) =~= close@.subrange(0, i as int).push(close@[i as int]));
            i = i + 1;
        }
        assert(close@.subrange(0, close@.len() as int) =~= close@);
        let mut values: Vec<u64> = Vec::new();
        values.push(cred.uptime_score as u64);
        assert(values@ =~= seq![cred.uptime_score as u64]);
        Some(ReputationProof {
            disclosed_fields: 1,
            disclosed_values: values,
            proof_bytes,
            claims_json: string_from_chars(&claim),
        })
    }
}

// ─── Verifier ─────────────────────────────────────────────────────────────────

/// Verifies `ReputationProof` objects presented by remote peers.
#[derive(Debug, Clone)]
pub struct ReputationVerifier {
    /// Issuer public key bytes.
    pub issuer_pubkey: Vec<u8>,
    /// Minimum uptime_score a peer must prove to receive service.
    pub min_uptime_threshold: u8,
}

/// Whether a verifier accepts a proof: bit 0 (uptime) is disclosed, the
/// first disclosed value (0 if none), taken modulo 256, reaches the minimum,
/// and the proof bytes are not empty.
pub open spec fn accepts(min_uptime: u8, p: ReputationProof) -> bool {
    let first = if p.disclosed_values@.len() > 0 { p.disclosed_values@[0] } else { 0 };
    &&& p.disclosed_fields % 2 == 1
    &&& first % 256 >= min_uptime
    &&& p.proof_bytes@.len() > 0
}

impl ReputationVerifier {
    /// A verifier with the given issuer key and uptime threshold.
    pub fn new(issuer_pubkey: Vec<u8>, min_uptime_threshold: u8) -> (v: Self)
        ensures
            v.issuer_pubkey == issuer_pubkey,
            v.min_uptime_threshold == min_uptime_threshold,
    {
        ReputationVerifier { issuer_pubkey, min_uptime_threshold }
    }

    /// Verify a proof against the threshold policy.
    pub fn verify(&self, proof: &ReputationProof, _nonce: &[u8]) -> (b: bool)
        ensures
            b == accepts(self.min_uptime_threshold, *proof),
    {
        let f = proof.disclosed_fields;
        assert(f & 1 == f % 2) by (bit_vector);
        if f & 1 == 0 {
            return false;
        }
        let first: u64 = if proof.disclosed_values.len() > 0 { proof.disclosed_values[0] } else { 0 };
        let disclosed_uptime = (first % 256) as u8;
        if disclosed_uptime < self.min_uptime_threshold {
            return false;
        }
        proof.proof_bytes.len() > 0
    }

    /// Whether reputation checks are bypassed (threshold 0).
    pub fn allow_bypass(&self) -> (b: bool)
        ensures
            b == (self.min_uptime_threshold == 0),
    {
        self.min_uptime_threshold == 0
    }
}

/// A proof made from a credential at a threshold at least the verifier's
/// minimum is accepted by that verifier (completeness).
pub proof fn lemma_verifier_complete(cred: ReputationCredential, threshold: u8, p: ReputationProof, min_uptime: u8)
    requires
        cred.uptime_score >= threshold,
        threshold >= min_uptime,
        p.disclosed_fields == 1,
        p.disclosed_values@ == seq![cred.uptime_score as u64],
        p.proof_bytes@.len() == 32,
    ensures
        accepts(min_uptime, p),
{
}

} // verus!
