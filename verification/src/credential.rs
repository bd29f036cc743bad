use vstd::prelude::*;
use crate::bytes::{extend_bytes, le_seq, u32_le, u64_le};
use crate::clock::now_unix_secs;
use crate::hashing::{blake3_hash, blake3_of};
use crate::signing::{ed25519_public_key, ed25519_public_of, ed25519_sign, ed25519_signature_of, ed25519_valid,
    ed25519_verify, random_secret_key, signature_array};
use crate::text::{decimal, push_decimal, push_literal, string_from_chars};
use vstd::utf8::encode_utf8;

verus! {

// ─── Constants ──────────────────────────────────────────────────────────────

/// Epoch duration in seconds (1 hour).
pub const EPOCH_DURATION_SECS: u64 = 3600;

/// Number of past epochs accepted (grace period for clock skew).
pub const EPOCH_GRACE: u64 = 1;

/// Can store shares on behalf of other peers.
pub const CAP_STORE: u8 = 0x01;
/// Can act as a relay for NAT traversal.
pub const CAP_RELAY: u8 = 0x02;
/// Can participate in DHT routing.
pub const CAP_ROUTE: u8 = 0x04;
/// Can issue credentials to other peers (trust authority).
pub const CAP_ISSUE: u8 = 0x08;

// ─── Credential tier ────────────────────────────────────────────────────────

/// Trust tier encoded in a credential.
#[derive(Debug, Clone, Copy, PartialEq, Eq, Hash)]
pub enum CredentialTier {
    /// Passed Identify exchange.
    Observed,
    /// Passed PoW admission.
    Verified,
    /// Vouched by a credential-issuing authority.
    Endorsed,
}

/// The wire number of a tier: Observed=1, Verified=2, Endorsed=3. Tiers are
/// ordered by this number.
pub open spec fn tier_number(t: CredentialTier) -> u64 {
    match t {
        CredentialTier::Observed => 1,
        CredentialTier::Verified => 2,
        CredentialTier::Endorsed => 3,
    }
}

/// The tier with a given wire number, if any.
pub open spec fn tier_from_number(n: u64) -> Option<CredentialTier> {
    if n == 1 {
        Some(CredentialTier::Observed)
    } else if n == 2 {
        Some(CredentialTier::Verified)
    } else if n == 3 {
        Some(CredentialTier::Endorsed)
    } else {
        None
    }
}

/// The display name of a tier.
pub open spec fn tier_name(t: CredentialTier) -> Seq<char> {
    match t {
        CredentialTier::Observed => "Observed"@,
        CredentialTier::Verified => "Verified"@,
        CredentialTier::Endorsed => "Endorsed"@,
    }
}

impl CredentialTier {
    /// The wire number of this tier (Observed=1, Verified=2, Endorsed=3).
    pub fn number(&self) -> (n: u64)
        ensures
            n == tier_number(*self),
    {
        match self {
            CredentialTier::Observed => 1,
            CredentialTier::Verified => 2,
            CredentialTier::Endorsed => 3,
        }
    }

    /// The tier with the given wire number, if it names one.
    pub fn from_number(n: u64) -> (t: Option<CredentialTier>)
        ensures
            t == tier_from_number(n),
    {
        if n == 1 {
            Some(CredentialTier::Observed)
        } else if n == 2 {
            Some(CredentialTier::Verified)
        } else if n == 3 {
            Some(CredentialTier::Endorsed)
        } else {
            None
        }
    }

    /// Whether this tier is at least `other`.
    pub fn at_least(&self, other: CredentialTier) -> (b: bool)
        ensures
            b == (tier_number(*self) >= tier_number(other)),
    {
        self.number() >= other.number()
    }

    /// The display name of this tier, as an owned string.
    pub fn to_string(&self) -> (s: String)
        ensures
            s@ == tier_name(*self),
    {
        crate::text::owned(self.name())
    }

    /// The display name of this tier.
    pub fn name(&self) -> (s: &'static str)
        ensures
            s@ == tier_name(*self),
    {
        match self {
            CredentialTier::Observed => "Observed",
            CredentialTier::Verified => "Verified",
            CredentialTier::Endorsed => "Endorsed",
        }
    }
}

/// Round trip of the wire numbering.
pub proof fn lemma_tier_number_roundtrip(t: CredentialTier)
    ensures
        tier_from_number(tier_number(t)) == Some(t),
{
}

// ─── Credentials ────────────────────────────────────────────────────────────

/// The claims inside a credential. This is what the issuer signs.
#[derive(Debug, Clone, Copy, PartialEq, Eq)]
pub struct CredentialBody {
    /// Trust tier this credential attests.
    pub tier: CredentialTier,
    /// Epoch in which this credential was issued.
    pub epoch: u64,
    /// Capability bitfield (CAP_STORE, CAP_RELAY, CAP_ROUTE, CAP_ISSUE).
    pub capabilities: u8,
    /// Pseudonymous holder binding: `BLAKE3(domain || ephemeral_pubkey)`.
    pub holder_tag: [u8; 32],
}

/// A credential signed by an issuer (trust authority).
#[derive(Debug, Clone)]
pub struct SignedCredential {
    /// The signed claims.
    pub body: CredentialBody,
    /// Ed25519 signature over `BLAKE3(DOMAIN_ISSUE || body_bytes)`.
    pub issuer_signature: Vec<u8>,
    /// Issuer's Ed25519 public key.
    pub issuer_pubkey: [u8; 32],
}

/// A credential presentation proves tier membership without revealing PeerId.
#[derive(Debug, Clone)]
pub struct CredentialPresentation {
    /// The signed credential from the issuer.
    pub credential: SignedCredential,
    /// The ephemeral public key (its holder tag must match the credential's).
    pub ephemeral_pubkey: [u8; 32],
    /// Ed25519 signature from the ephemeral key over the presentation message.
    pub context_signature: Vec<u8>,
}

// ─── Epoch helpers ──────────────────────────────────────────────────────────

/// Whether `epoch` lies in the window `[now - grace, now]` (saturating at 0).
pub open spec fn epoch_valid_spec(epoch: u64, now_epoch: u64) -> bool {
    epoch <= now_epoch && epoch + EPOCH_GRACE >= now_epoch
}

/// Whether `e` is the epoch of some Unix time.
pub open spec fn is_epoch(e: u64) -> bool {
    exists|t: u64| e == epoch_of(t)
}

/// The epoch that contains Unix time `secs`.
pub open spec fn epoch_of(secs: u64) -> u64 {
    secs / EPOCH_DURATION_SECS
}

/// The epoch containing the Unix time `secs`.
pub fn epoch_at(secs: u64) -> (e: u64)
    ensures
        e == epoch_of(secs),
{
    secs / EPOCH_DURATION_SECS
}

/// Return the current epoch number.
pub fn current_epoch() -> (e: u64)
    ensures
        exists|t: u64| e == epoch_of(t),
{
    epoch_at(now_unix_secs())
}

/// Check whether `epoch` is within the acceptable window: the current epoch
/// or the one before it.
pub fn epoch_is_valid(epoch: u64, now_epoch: u64) -> (b: bool)
    ensures
        b == epoch_valid_spec(epoch, now_epoch),
{
    epoch >= now_epoch.saturating_sub(EPOCH_GRACE) && epoch <= now_epoch
}

// ─── Known-issuer registry ──────────────────────────────────────────────────

/// Whether two 32-byte keys are equal.
pub fn key32_eq(a: &[u8; 32], b: &[u8; 32]) -> (r: bool)
    ensures
        r == (a@ == b@),
{
    let mut i: usize = 0;
    while i < 32
        invariant
            i <= 32,
            a@.len() == 32,
            b@.len() == 32,
            forall|j: int| 0 <= j < i ==> a@[j] == b@[j],
        decreases 32 - i,
    {
        if a[i] != b[i] {
            return false;
        }
        i = i + 1;
    }
    assert(a@ =~= b@);
    true
}

/// Index of `key` in `keys`, if present.
pub fn find_key32(keys: &Vec<[u8; 32]>, key: &[u8; 32]) -> (r: Option<usize>)
    ensures
        match r {
            Some(i) => i < keys@.len() && keys@[i as int]@ == key@,
            None => forall|i: int| 0 <= i < keys@.len() ==> keys@[i]@ != key@,
        },
{
    let mut i: usize = 0;
    while i < keys.len()
        invariant
            i <= keys@.len(),
            forall|j: int| 0 <= j < i ==> keys@[j]@ != key@,
        decreases keys@.len() - i,
    {
        if key32_eq(&keys[i], key) {
            return Some(i);
        }
        i = i + 1;
    }
    None
}

/// The set of byte strings of a list of keys.
pub open spec fn key_set(keys: Seq<[u8; 32]>) -> Set<Seq<u8>> {
    Set::new(|k: Seq<u8>| exists|i: int| 0 <= i < keys.len() && keys[i]@ == k)
}

/// Registry of known credential issuers (trust authorities).
pub struct IssuerRegistry {
    /// Known issuer public keys, each at most once.
    issuers: Vec<[u8; 32]>,
    /// Whether to auto-add verified peers as issuers (bootstrap mode).
    pub bootstrap_mode: bool,
}

impl IssuerRegistry {
    /// The set of known issuer keys.
    pub closed spec fn view(&self) -> Set<Seq<u8>> {
        key_set(self.issuers@)
    }

    /// No key is stored twice.
    pub closed spec fn wf(&self) -> bool {
        forall|i: int, j: int|
            0 <= i < j < self.issuers@.len() ==> self.issuers@[i]@ != self.issuers@[j]@
    }

    /// Whether bootstrap mode is on.
    pub closed spec fn bootstrap(&self) -> bool {
        self.bootstrap_mode
    }

    /// The number of known issuers.
    pub closed spec fn count(&self) -> nat {
        self.issuers@.len()
    }

    /// The count is the size of the set of known keys.
    pub proof fn lemma_count_is_set_len(&self)
        requires
            self.wf(),
        ensures
            self.view().finite(),
            self.view().len() == self.count(),
    {
        lemma_key_set_len(self.issuers@);
    }

    /// An empty registry.
    pub fn new(bootstrap_mode: bool) -> (r: Self)
        ensures
            r.wf(),
            r.view() == Set::<Seq<u8>>::empty(),
            r.count() == 0,
            r.bootstrap() == bootstrap_mode,
    {
        let r = IssuerRegistry { issuers: Vec::new(), bootstrap_mode };
        assert(key_set(r.issuers@) =~= Set::<Seq<u8>>::empty());
        r
    }

    /// Add an issuer's public key.
    pub fn add_issuer(&mut self, pubkey: [u8; 32])
        requires
            old(self).wf(),
        ensures
            final(self).wf(),
            final(self).view() == old(self).view().insert(pubkey@),
            final(self).bootstrap() == old(self).bootstrap(),
    {
        match find_key32(&self.issuers, &pubkey) {
            Some(_) => {
                assert(key_set(self.issuers@) =~= key_set(self.issuers@).insert(pubkey@));
            },
            None => {
                let ghost before = self.issuers@;
                self.issuers.push(pubkey);
                assert(key_set(self.issuers@) =~= key_set(before).insert(pubkey@)) by {
                    assert forall|k: Seq<u8>| key_set(before).insert(pubkey@).contains(k)
                        implies key_set(self.issuers@).contains(k) by {
                        if k == pubkey@ {
                            assert(self.issuers@[before.len() as int]@ == k);
                        } else {
                            let i = choose|i: int| 0 <= i < before.len() && before[i]@ == k;
                            assert(self.issuers@[i]@ == k);
                        }
                    }
                    assert forall|k: Seq<u8>| key_set(self.issuers@).contains(k)
                        implies key_set(before).insert(pubkey@).contains(k) by {
                        let i = choose|i: int| 0 <= i < self.issuers@.len() && self.issuers@[i]@ == k;
                        if i < before.len() {
                            assert(before[i]@ == k);
                        }
                    }
                }
            },
        }
    }

    /// Remove an issuer.
    pub fn remove_issuer(&mut self, pubkey: &[u8; 32])
        requires
            old(self).wf(),
        ensures
            final(self).wf(),
            final(self).view() == old(self).view().remove(pubkey@),
            final(self).bootstrap() == old(self).bootstrap(),
    {
        match find_key32(&self.issuers, pubkey) {
            Some(i) => {
                let ghost before = self.issuers@;
                self.issuers.remove(i);
                assert(key_set(self.issuers@) =~= key_set(before).remove(pubkey@)) by {
                    assert forall|k: Seq<u8>| key_set(before).remove(pubkey@).contains(k)
                        implies key_set(self.issuers@).contains(k) by {
                        let j = choose|j: int| 0 <= j < before.len() && before[j]@ == k;
                        if j < i {
                            assert(self.issuers@[j]@ == k);
                        } else {
                            assert(j != i);
                            assert(self.issuers@[j - 1]@ == k);
                        }
                    }
                    assert forall|k: Seq<u8>| key_set(self.issuers@).contains(k)
                        implies key_set(before).remove(pubkey@).contains(k) by {
                        let j = choose|j: int| 0 <= j < self.issuers@.len() && self.issuers@[j]@ == k;
                        if j < i {
                            assert(before[j]@ == k);
                            assert(k != pubkey@);
                        } else {
                            assert(before[j + 1]@ == k);
                            assert(k != pubkey@);
                        }
                    }
                }
            },
            None => {
                assert(key_set(self.issuers@) =~= key_set(self.issuers@).remove(pubkey@));
            },
        }
    }

    /// Check if a pubkey is a known issuer.
    pub fn is_known(&self, pubkey: &[u8; 32]) -> (b: bool)
        ensures
            b == self.view().contains(pubkey@),
    {
        find_key32(&self.issuers, pubkey).is_some()
    }

    /// All known issuers, each once.
    pub fn issuer_list(&self) -> (v: Vec<[u8; 32]>)
        requires
            self.wf(),
        ensures
            key_set(v@) == self.view(),
            v@.len() == self.count(),
    {
        self.issuers.clone()
    }

    /// Number of known issuers.
    pub fn issuer_count(&self) -> (n: usize)
        ensures
            n == self.count(),
    {
        self.issuers.len()
    }
}

/// A list of distinct keys has as many elements as its key set.
pub proof fn lemma_key_set_len(keys: Seq<[u8; 32]>)
    requires
        forall|i: int, j: int| 0 <= i < j < keys.len() ==> keys[i]@ != keys[j]@,
    ensures
        key_set(keys).finite(),
        key_set(keys).len() == keys.len(),
    decreases keys.len(),
{
    if keys.len() == 0 {
        assert(key_set(keys) =~= Set::<Seq<u8>>::empty());
    } else {
        let prefix = keys.drop_last();
        lemma_key_set_len(prefix);
        let last = keys.last();
        assert(key_set(keys) =~= key_set(prefix).insert(last@)) by {
            assert forall|k: Seq<u8>| key_set(keys).contains(k)
                implies key_set(prefix).insert(last@).contains(k) by {
                let i = choose|i: int| 0 <= i < keys.len() && keys[i]@ == k;
                if i < prefix.len() {
                    assert(prefix[i]@ == k);
                }
            }
            assert forall|k: Seq<u8>| key_set(prefix).insert(last@).contains(k)
                implies key_set(keys).contains(k) by {
                if k != last@ {
                    let i = choose|i: int| 0 <= i < prefix.len() && prefix[i]@ == k;
                    assert(keys[i]@ == k);
                } else {
                    assert(keys[keys.len() - 1]@ == k);
                }
            }
        }
        assert(!key_set(prefix).contains(last@)) by {
            if key_set(prefix).contains(last@) {
                let i = choose|i: int| 0 <= i < prefix.len() && prefix[i]@ == last@;
                assert(keys[i]@ == keys[keys.len() - 1]@);
            }
        }
    }
}

// ─── Wire forms and signatures ─────────────────────────────────────────────

/// Domain separator for holder tags.
pub open spec fn domain_holder_tag() -> Seq<u8> {
    encode_utf8("miasma-cred-holder-v1"@)
}

/// Domain separator for issuer signatures.
pub open spec fn domain_issue() -> Seq<u8> {
    encode_utf8("miasma-cred-issue-v1"@)
}

/// Domain separator for presentation signatures.
pub open spec fn domain_present() -> Seq<u8> {
    encode_utf8("miasma-cred-present-v1"@)
}

/// The position of a tier among the enum's variants (its wire tag).
pub open spec fn tier_variant(t: CredentialTier) -> nat {
    match t {
        CredentialTier::Observed => 0,
        CredentialTier::Verified => 1,
        CredentialTier::Endorsed => 2,
    }
}

/// The serialized credential body: the tier's variant tag (4 bytes LE), the
/// epoch (8 bytes LE), the capability byte and the 32-byte holder tag.
pub open spec fn body_bytes_spec(b: CredentialBody) -> Seq<u8> {
    le_seq(tier_variant(b.tier), 4) + le_seq(b.epoch as nat, 8) + seq![b.capabilities] + b.holder_tag@
}

/// The serialized signed credential: the body, the signature with its
/// length (8 bytes LE) in front, and the issuer key.
pub open spec fn credential_bytes_spec(c: SignedCredential) -> Seq<u8> {
    body_bytes_spec(c.body) + le_seq(c.issuer_signature@.len(), 8) + c.issuer_signature@ + c.issuer_pubkey@
}

/// The holder tag of an ephemeral public key: `BLAKE3(domain || key)`.
pub open spec fn holder_tag_spec(pk: Seq<u8>) -> Seq<u8> {
    blake3_of(domain_holder_tag() + pk)
}

/// The message an issuer signs for a body.
pub open spec fn issue_message(b: CredentialBody) -> Seq<u8> {
    blake3_of(domain_issue() + body_bytes_spec(b))
}

/// The message a holder signs to present a credential in a context.
pub open spec fn present_message(c: SignedCredential, context: Seq<u8>) -> Seq<u8> {
    blake3_of(domain_present() + credential_bytes_spec(c) + context)
}

fn tier_variant_u32(t: CredentialTier) -> (n: u32)
    ensures
        n == tier_variant(t),
{
    match t {
        CredentialTier::Observed => 0,
        CredentialTier::Verified => 1,
        CredentialTier::Endorsed => 2,
    }
}

impl CredentialBody {
    /// The bytes the issuer signs.
    pub fn to_signing_bytes(&self) -> (v: Vec<u8>)
        ensures
            v@ == body_bytes_spec(*self),
    {
        let mut v = u32_le(tier_variant_u32(self.tier));
        let e = u64_le(self.epoch);
        extend_bytes(&mut v, e.as_slice());
        v.push(self.capabilities);
        extend_bytes(&mut v, self.holder_tag.as_slice());
        assert(v@ =~= body_bytes_spec(*self));
        v
    }
}

impl SignedCredential {
    /// The bytes of the credential, as presentations sign them.
    pub fn to_bytes(&self) -> (v: Vec<u8>)
        ensures
            v@ == credential_bytes_spec(*self),
    {
        let mut v = self.body.to_signing_bytes();
        let n = u64_le(self.issuer_signature.len() as u64);
        extend_bytes(&mut v, n.as_slice());
        extend_bytes(&mut v, self.issuer_signature.as_slice());
        extend_bytes(&mut v, self.issuer_pubkey.as_slice());
        assert(v@ =~= credential_bytes_spec(*self));
        v
    }

    /// Whether the issuer signature is a valid Ed25519 signature, under the
    /// credential's own issuer key, over the credential's body.
    pub fn issuer_signature_valid(&self) -> (b: bool)
        ensures
            b == issuer_signed(*self),
    {
        let body_bytes = self.body.to_signing_bytes();
        let mut data: Vec<u8> = Vec::new();
        extend_bytes(&mut data, "miasma-cred-issue-v1".as_bytes());
        extend_bytes(&mut data, body_bytes.as_slice());
        let issue_msg = blake3_hash(data.as_slice());
        let issuer_sig = match signature_array(self.issuer_signature.as_slice()) {
            Some(s) => s,
            None => return false,
        };
        ed25519_verify(&self.issuer_pubkey, issue_msg.as_slice(), &issuer_sig)
    }

    /// A copy of this credential.
    pub fn copy(&self) -> (c: SignedCredential)
        ensures
            c.body == self.body,
            c.issuer_signature@ == self.issuer_signature@,
            c.issuer_pubkey == self.issuer_pubkey,
    {
        let sig = self.issuer_signature.clone();
        assert(sig@ =~= self.issuer_signature@);
        SignedCredential { body: self.body, issuer_signature: sig, issuer_pubkey: self.issuer_pubkey }
    }
}

/// Compute the holder tag of a raw ephemeral public key.
pub fn compute_holder_tag(ephemeral_pubkey: &[u8; 32]) -> (tag: [u8; 32])
    ensures
        tag@ == holder_tag_spec(ephemeral_pubkey@),
{
    let mut data: Vec<u8> = Vec::new();
    extend_bytes(&mut data, "miasma-cred-holder-v1".as_bytes());
    extend_bytes(&mut data, ephemeral_pubkey.as_slice());
    blake3_hash(data.as_slice())
}

/// Epoch-scoped ephemeral identity for pseudonymous presentation: an
/// Ed25519 key pair and its epoch.
pub struct EphemeralIdentity {
    secret_key: [u8; 32],
    /// The public key.
    pub verifying_key: [u8; 32],
    /// The epoch this identity belongs to.
    pub epoch: u64,
}

impl EphemeralIdentity {
    /// The secret key.
    pub closed spec fn secret(&self) -> Seq<u8> {
        self.secret_key@
    }

    /// The public key.
    pub closed spec fn public(&self) -> [u8; 32] {
        self.verifying_key
    }

    /// The epoch.
    pub closed spec fn epoch_value(&self) -> u64 {
        self.epoch
    }

    /// The public key is the secret key's.
    pub closed spec fn wf(&self) -> bool {
        self.verifying_key@ == ed25519_public_of(self.secret_key@)
    }

    /// A fresh random identity for `epoch`.
    pub fn generate(epoch: u64) -> (id: Self)
        ensures
            id.wf(),
            id.epoch_value() == epoch,
    {
        let secret_key = random_secret_key();
        Self::from_secret(secret_key, epoch)
    }

    /// The identity with a given secret key.
    pub fn from_secret(secret_key: [u8; 32], epoch: u64) -> (id: Self)
        ensures
            id.wf(),
            id.secret() == secret_key@,
            id.epoch_value() == epoch,
    {
        let verifying_key = ed25519_public_key(&secret_key);
        EphemeralIdentity { secret_key, verifying_key, epoch }
    }

    /// The holder tag (this epoch's pseudonym).
    pub fn holder_tag(&self) -> (tag: [u8; 32])
        ensures
            tag@ == holder_tag_spec(self.public()@),
    {
        compute_holder_tag(&self.verifying_key)
    }

    /// The public key bytes.
    pub fn pubkey_bytes(&self) -> (pk: [u8; 32])
        ensures
            pk == self.public(),
    {
        self.verifying_key
    }

    /// Sign a context-bound presentation proof over credential bytes.
    pub fn sign_context(&self, credential_bytes: &[u8], context: &[u8]) -> (sig: Vec<u8>)
        requires
            self.wf(),
        ensures
            sig@ == ed25519_signature_of(self.secret(),
                blake3_of(domain_present() + credential_bytes@ + context@)),
            ed25519_valid(self.public()@, blake3_of(domain_present() + credential_bytes@ + context@), sig@),
            sig@.len() == 64,
    {
        let mut data: Vec<u8> = Vec::new();
        extend_bytes(&mut data, "miasma-cred-present-v1".as_bytes());
        extend_bytes(&mut data, credential_bytes);
        extend_bytes(&mut data, context);
        assert(data@ =~= domain_present() + credential_bytes@ + context@);
        let message = blake3_hash(data.as_slice());
        let sig = ed25519_sign(&self.secret_key, message.as_slice());
        let mut out: Vec<u8> = Vec::new();
        extend_bytes(&mut out, sig.as_slice());
        assert(out@ =~= sig@);
        out
    }
}

/// Whether a credential carries a valid issuer signature over its body.
pub open spec fn issuer_signed(c: SignedCredential) -> bool {
    c.issuer_signature@.len() == 64 && ed25519_valid(c.issuer_pubkey@, issue_message(c.body), c.issuer_signature@)
}

/// Whether a presentation is valid on its own terms: its credential is
/// signed by the issuer it names, and its holder tag is that of the
/// presenting ephemeral key. (The context signature, the issuer's standing
/// and the epoch need the verifier's context, known issuers and clock.)
pub open spec fn presentation_intact(p: CredentialPresentation) -> bool {
    issuer_signed(p.credential) && holder_tag_spec(p.ephemeral_pubkey@) == p.credential.body.holder_tag@
}

impl CredentialPresentation {
    /// Whether this presentation is valid on its own terms (see
    /// `presentation_intact`).
    pub fn is_intact(&self) -> (b: bool)
        ensures
            b == presentation_intact(*self),
    {
        if !self.credential.issuer_signature_valid() {
            return false;
        }
        let expected_tag = compute_holder_tag(&self.ephemeral_pubkey);
        key32_eq(&expected_tag, &self.credential.body.holder_tag)
    }

    /// Present a credential under an identity, bound to `context`.
    pub fn create(credential: &SignedCredential, identity: &EphemeralIdentity, context: &[u8]) -> (p: Self)
        requires
            identity.wf(),
        ensures
            p.credential.body == credential.body,
            p.credential.issuer_signature@ == credential.issuer_signature@,
            p.credential.issuer_pubkey == credential.issuer_pubkey,
            p.ephemeral_pubkey == identity.public(),
            p.context_signature@ == ed25519_signature_of(identity.secret(), present_message(*credential, context@)),
            ed25519_valid(p.ephemeral_pubkey@, present_message(*credential, context@), p.context_signature@),
            p.context_signature@.len() == 64,
    {
        let cred_bytes = credential.to_bytes();
        let context_signature = identity.sign_context(cred_bytes.as_slice(), context);
        CredentialPresentation {
            credential: credential.copy(),
            ephemeral_pubkey: identity.pubkey_bytes(),
            context_signature,
        }
    }
}

/// Issues credentials to peers that pass admission.
pub struct CredentialIssuer {
    secret_key: [u8; 32],
    /// The issuer's public key.
    pub verifying_key: [u8; 32],
}

impl CredentialIssuer {
    /// The secret key.
    pub closed spec fn secret(&self) -> Seq<u8> {
        self.secret_key@
    }

    /// The public key.
    pub closed spec fn public(&self) -> [u8; 32] {
        self.verifying_key
    }

    /// The public key is the secret key's.
    pub closed spec fn wf(&self) -> bool {
        self.verifying_key@ == ed25519_public_of(self.secret_key@)
    }

    /// An issuer with the given Ed25519 secret key.
    pub fn new(secret_key: [u8; 32]) -> (i: Self)
        ensures
            i.wf(),
            i.secret() == secret_key@,
    {
        let verifying_key = ed25519_public_key(&secret_key);
        CredentialIssuer { secret_key, verifying_key }
    }

    /// The public key bytes verifiers know this issuer by.
    pub fn pubkey_bytes(&self) -> (pk: [u8; 32])
        ensures
            pk == self.public(),
    {
        self.verifying_key
    }

    /// Issue a credential binding `holder_tag` to a tier and capabilities.
    pub fn issue(&self, tier: CredentialTier, epoch: u64, capabilities: u8, holder_tag: [u8; 32]) -> (c: SignedCredential)
        requires
            self.wf(),
        ensures
            c.body == (CredentialBody { tier, epoch, capabilities, holder_tag }),
            c.issuer_pubkey == self.public(),
            c.issuer_signature@ == ed25519_signature_of(self.secret(), issue_message(c.body)),
            ed25519_valid(c.issuer_pubkey@, issue_message(c.body), c.issuer_signature@),
    {
        let body = CredentialBody { tier, epoch, capabilities, holder_tag };
        let body_bytes = body.to_signing_bytes();
        let mut data: Vec<u8> = Vec::new();
        extend_bytes(&mut data, "miasma-cred-issue-v1".as_bytes());
        extend_bytes(&mut data, body_bytes.as_slice());
        let message = blake3_hash(data.as_slice());
        let sig = ed25519_sign(&self.secret_key, message.as_slice());
        let mut sig_vec: Vec<u8> = Vec::new();
        extend_bytes(&mut sig_vec, sig.as_slice());
        assert(sig_vec@ =~= sig@);
        SignedCredential { body, issuer_signature: sig_vec, issuer_pubkey: self.verifying_key }
    }
}

/// Why a credential presentation was rejected.
#[derive(Debug, Clone, Copy, PartialEq, Eq)]
pub enum CredentialError {
    /// Issuer public key not among the known trust authorities.
    UnknownIssuer,
    /// Issuer's signature over the credential body is invalid.
    InvalidIssuerSignature,
    /// Holder's context-bound presentation signature is invalid.
    InvalidHolderProof,
    /// The ephemeral key's holder tag differs from the credential's.
    HolderTagMismatch,
    /// Credential epoch is outside the acceptable window.
    ExpiredEpoch { credential_epoch: u64, current_epoch: u64 },
    /// Credential tier is below the required minimum.
    InsufficientTier { required: CredentialTier, actual: CredentialTier },
}

/// The message of each credential error.
pub open spec fn credential_error_text(e: CredentialError) -> Seq<char> {
    match e {
        CredentialError::UnknownIssuer => "unknown issuer"@,
        CredentialError::InvalidIssuerSignature => "invalid issuer signature"@,
        CredentialError::InvalidHolderProof => "invalid holder proof"@,
        CredentialError::HolderTagMismatch => "holder tag mismatch"@,
        CredentialError::ExpiredEpoch { credential_epoch, current_epoch } =>
            "expired epoch: cred="@ + decimal(credential_epoch as nat) + " current="@ + decimal(current_epoch as nat),
        CredentialError::InsufficientTier { required, actual } =>
            "insufficient tier: need "@ + tier_name(required) + ", have "@ + tier_name(actual),
    }
}

impl CredentialError {
    /// The human-readable message.
    pub fn to_string(&self) -> (s: String)
        ensures
            s@ == credential_error_text(*self),
    {
        let mut out: Vec<char> = Vec::new();
        match self {
            CredentialError::UnknownIssuer => push_literal(&mut out, "unknown issuer"),
            CredentialError::InvalidIssuerSignature => push_literal(&mut out, "invalid issuer signature"),
            CredentialError::InvalidHolderProof => push_literal(&mut out, "invalid holder proof"),
            CredentialError::HolderTagMismatch => push_literal(&mut out, "holder tag mismatch"),
            CredentialError::ExpiredEpoch { credential_epoch, current_epoch } => {
                push_literal(&mut out, "expired epoch: cred=");
                push_decimal(&mut out, *credential_epoch);
                push_literal(&mut out, " current=");
                push_decimal(&mut out, *current_epoch);
            },
            CredentialError::InsufficientTier { required, actual } => {
                push_literal(&mut out, "insufficient tier: need ");
                push_literal(&mut out, required.name());
                push_literal(&mut out, ", have ");
                push_literal(&mut out, actual.name());
            },
        }
        string_from_chars(&out)
    }
}

/// Whether `k` is among `keys`.
pub open spec fn key_listed(keys: Seq<[u8; 32]>, k: Seq<u8>) -> bool {
    exists|i: int| 0 <= i < keys.len() && keys[i]@ == k
}

/// The outcome of verifying a presentation, check by check: known issuer,
/// issuer signature, holder tag, holder signature, epoch window, tier.
pub open spec fn presentation_verdict(p: CredentialPresentation, context: Seq<u8>, known: Seq<[u8; 32]>,
    current_epoch: u64, min_tier: CredentialTier) -> Result<CredentialTier, CredentialError> {
    let c = p.credential;
    if !key_listed(known, c.issuer_pubkey@) {
        Err(CredentialError::UnknownIssuer)
    } else if !issuer_signed(c) {
        Err(CredentialError::InvalidIssuerSignature)
    } else if holder_tag_spec(p.ephemeral_pubkey@) != c.body.holder_tag@ {
        Err(CredentialError::HolderTagMismatch)
    } else if !(p.context_signature@.len() == 64 && ed25519_valid(p.ephemeral_pubkey@, present_message(c, context),
        p.context_signature@)) {
        Err(CredentialError::InvalidHolderProof)
    } else if !epoch_valid_spec(c.body.epoch, current_epoch) {
        Err(CredentialError::ExpiredEpoch { credential_epoch: c.body.epoch, current_epoch })
    } else if tier_number(c.body.tier) < tier_number(min_tier) {
        Err(CredentialError::InsufficientTier { required: min_tier, actual: c.body.tier })
    } else {
        Ok(c.body.tier)
    }
}

/// Verify a credential presentation in `context` against the known issuers,
/// the current epoch and a minimum tier; gives the credential's tier.
pub fn verify_presentation(presentation: &CredentialPresentation, context: &[u8], known_issuers: &[[u8; 32]],
    current_epoch: u64, min_tier: CredentialTier) -> (r: Result<CredentialTier, CredentialError>)
    ensures
        r == presentation_verdict(*presentation, context@, known_issuers@, current_epoch, min_tier),
{
    let cred = &presentation.credential;
    let mut i: usize = 0;
    let mut known = false;
    while i < known_issuers.len() && !known
        invariant
            i <= known_issuers@.len(),
            !known ==> forall|j: int| 0 <= j < i ==> known_issuers@[j]@ != cred.issuer_pubkey@,
            known ==> key_listed(known_issuers@, cred.issuer_pubkey@),
        decreases known_issuers@.len() - i,
    {
        if key32_eq(&known_issuers[i], &cred.issuer_pubkey) {
            known = true;
        }
        i = i + 1;
    }
    if !known {
        return Err(CredentialError::UnknownIssuer);
    }
    if !cred.issuer_signature_valid() {
        return Err(CredentialError::InvalidIssuerSignature);
    }
    let expected_tag = compute_holder_tag(&presentation.ephemeral_pubkey);
    if !key32_eq(&expected_tag, &cred.body.holder_tag) {
        return Err(CredentialError::HolderTagMismatch);
    }
    let cred_bytes = cred.to_bytes();
    let mut pdata: Vec<u8> = Vec::new();
    extend_bytes(&mut pdata, "miasma-cred-present-v1".as_bytes());
    extend_bytes(&mut pdata, cred_bytes.as_slice());
    extend_bytes(&mut pdata, context);
    assert(pdata@ =~= domain_present() + credential_bytes_spec(*cred) + context@);
    let present_msg = blake3_hash(pdata.as_slice());
    let holder_sig = match signature_array(presentation.context_signature.as_slice()) {
        Some(s) => s,
        None => return Err(CredentialError::InvalidHolderProof),
    };
    if !ed25519_verify(&presentation.ephemeral_pubkey, present_msg.as_slice(), &holder_sig) {
        return Err(CredentialError::InvalidHolderProof);
    }
    if !epoch_is_valid(cred.body.epoch, current_epoch) {
        return Err(CredentialError::ExpiredEpoch { credential_epoch: cred.body.epoch, current_epoch });
    }
    if !cred.body.tier.at_least(min_tier) {
        return Err(CredentialError::InsufficientTier { required: min_tier, actual: cred.body.tier });
    }
    Ok(cred.body.tier)
}

/// A credential issued for an identity's holder tag and presented under that
/// identity verifies: with its issuer known, its epoch in the window and its
/// tier at least the minimum, verification gives its tier.
pub proof fn lemma_issued_presentation_verifies(issuer_secret: Seq<u8>, issuer_pk: [u8; 32],
    c: SignedCredential, p: CredentialPresentation, context: Seq<u8>, known: Seq<[u8; 32]>,
    current_epoch: u64, min_tier: CredentialTier)
    requires
        issuer_pk@ == ed25519_public_of(issuer_secret),
        c.issuer_pubkey == issuer_pk,
        c.issuer_signature@ == ed25519_signature_of(issuer_secret, issue_message(c.body)),
        c.issuer_signature@.len() == 64,
        ed25519_valid(c.issuer_pubkey@, issue_message(c.body), c.issuer_signature@),
        c.body.holder_tag@ == holder_tag_spec(p.ephemeral_pubkey@),
        p.credential.body == c.body,
        p.credential.issuer_signature@ == c.issuer_signature@,
        p.credential.issuer_pubkey == c.issuer_pubkey,
        p.context_signature@.len() == 64,
        ed25519_valid(p.ephemeral_pubkey@, present_message(c, context), p.context_signature@),
        key_listed(known, issuer_pk@),
        epoch_valid_spec(c.body.epoch, current_epoch),
        tier_number(c.body.tier) >= tier_number(min_tier),
    ensures
        presentation_verdict(p, context, known, current_epoch, min_tier) == Ok::<CredentialTier, CredentialError>(c.body.tier),
{
    assert(credential_bytes_spec(p.credential) == credential_bytes_spec(c));
}

// ─── Credential wallet ──────────────────────────────────────────────────────

/// The plain view of a signed credential: body, signature bytes, issuer key.
pub open spec fn cred_view(c: SignedCredential) -> (CredentialBody, Seq<u8>, [u8; 32]) {
    (c.body, c.issuer_signature@, c.issuer_pubkey)
}

/// The key a wallet files a credential under: issuer and epoch.
pub open spec fn cred_key(c: (CredentialBody, Seq<u8>, [u8; 32])) -> (Seq<u8>, u64) {
    (c.2@, c.0.epoch)
}

/// Whether a credential is within the epoch window of `now_epoch`.
pub open spec fn cred_valid_at(now_epoch: u64) -> spec_fn((CredentialBody, Seq<u8>, [u8; 32])) -> bool {
    |c: (CredentialBody, Seq<u8>, [u8; 32])| epoch_valid_spec(c.0.epoch, now_epoch)
}

/// Filtering keeps credential keys distinct, and keeps only elements of the input.
pub proof fn lemma_filter_distinct_keys(s: Seq<(CredentialBody, Seq<u8>, [u8; 32])>,
    p: spec_fn((CredentialBody, Seq<u8>, [u8; 32])) -> bool)
    requires
        forall|i: int, j: int| 0 <= i < j < s.len() ==> cred_key(s[i]) != cred_key(s[j]),
    ensures
        forall|i: int, j: int| 0 <= i < j < s.filter(p).len() ==> cred_key(s.filter(p)[i]) != cred_key(s.filter(p)[j]),
        forall|i: int| 0 <= i < s.filter(p).len() ==> exists|k: int| 0 <= k < s.len() && s[k] == #[trigger] s.filter(p)[i],
    decreases s.len(),
{
    if s.len() > 0 {
        let rest = s.drop_last();
        lemma_filter_distinct_keys(rest, p);
        let f = rest.filter(p);
        let fs = s.filter(p);
        assert(rest.push(s.last()) =~= s);
        rest.lemma_filter_push(s.last(), p);
        assert forall|i: int| 0 <= i < f.len() implies exists|k: int| 0 <= k < s.len() && s[k] == #[trigger] f[i] by {
            let k = choose|k: int| 0 <= k < rest.len() && rest[k] == f[i];
            assert(s[k] == f[i]);
        }
        if p(s.last()) {
            assert(fs == f.push(s.last()));
            assert forall|i: int| 0 <= i < fs.len() implies exists|k: int| 0 <= k < s.len() && s[k] == #[trigger] fs[i] by {
                if i < f.len() {
                    assert(fs[i] == f[i]);
                } else {
                    assert(s[s.len() - 1] == fs[i]);
                }
            }
            assert forall|i: int, j: int| 0 <= i < j < fs.len() implies cred_key(fs[i]) != cred_key(fs[j]) by {
                assert(fs[i] == f[i]);
                if j == f.len() {
                    let k = choose|k: int| 0 <= k < rest.len() && rest[k] == f[i];
                    assert(s[k] == f[i]);
                    assert(fs[j] == s[s.len() - 1]);
                } else {
                    assert(fs[j] == f[j]);
                }
            }
        } else {
            assert(fs == f);
        }
    }
}

/// Stores the credentials this node holds (one per issuer per epoch) and its
/// current ephemeral identity.
pub struct CredentialWallet {
    identity: EphemeralIdentity,
    credentials: Vec<SignedCredential>,
}

impl CredentialWallet {
    /// The held credentials.
    pub closed spec fn creds(&self) -> Seq<(CredentialBody, Seq<u8>, [u8; 32])> {
        self.credentials@.map_values(|c: SignedCredential| cred_view(c))
    }

    /// The current identity's epoch.
    pub closed spec fn epoch_value(&self) -> u64 {
        self.identity.epoch_value()
    }

    /// The current identity's public key.
    pub closed spec fn public(&self) -> [u8; 32] {
        self.identity.public()
    }

    /// A well-formed identity, and one credential per issuer and epoch.
    pub closed spec fn wf(&self) -> bool {
        &&& self.identity.wf()
        &&& forall|i: int, j: int| 0 <= i < j < self.creds().len() ==> cred_key(self.creds()[i]) != cred_key(self.creds()[j])
    }

    /// A wallet with a fresh identity for the current epoch.
    pub fn new() -> (w: Self)
        ensures
            w.wf(),
            w.creds() == Seq::<(CredentialBody, Seq<u8>, [u8; 32])>::empty(),
            exists|t: u64| w.epoch_value() == epoch_of(t),
    {
        let epoch = current_epoch();
        let w = CredentialWallet { identity: EphemeralIdentity::generate(epoch), credentials: Vec::new() };
        assert(w.creds() =~= Seq::<(CredentialBody, Seq<u8>, [u8; 32])>::empty());
        w
    }

    /// What rotating at `now_epoch` makes of this wallet: `after`, and
    /// whether it rotated.
    pub open spec fn rotate_outcome(&self, after: CredentialWallet, now_epoch: u64, rotated: bool) -> bool {
        &&& rotated == (now_epoch != self.epoch_value())
        &&& rotated ==> after.epoch_value() == now_epoch
            && after.creds() == self.creds().filter(cred_valid_at(now_epoch))
        &&& !rotated ==> after.creds() == self.creds() && after.public() == self.public()
    }

    /// Whether `r` is the best credential valid at `now_epoch`: one of the
    /// highest tier among those valid then, or none when none is.
    pub open spec fn best_outcome(&self, now_epoch: u64, r: Option<&SignedCredential>) -> bool {
        match r {
            Some(c) => self.creds().contains(cred_view(*c)) && epoch_valid_spec(c.body.epoch, now_epoch)
                && forall|j: int| 0 <= j < self.creds().len() && epoch_valid_spec(#[trigger] self.creds()[j].0.epoch, now_epoch)
                    ==> tier_number(self.creds()[j].0.tier) <= tier_number(c.body.tier),
            None => forall|j: int| 0 <= j < self.creds().len() ==> !epoch_valid_spec(#[trigger] self.creds()[j].0.epoch, now_epoch),
        }
    }

    /// Whether `r` is what presenting in `context` at `now_epoch` gives: a
    /// presentation of a credential valid then, signed by this wallet's
    /// ephemeral key, or none exactly when no credential is valid then.
    pub open spec fn present_outcome(&self, context: Seq<u8>, now_epoch: u64, r: Option<CredentialPresentation>) -> bool {
        &&& r is None <==> forall|j: int| 0 <= j < self.creds().len()
            ==> !epoch_valid_spec(#[trigger] self.creds()[j].0.epoch, now_epoch)
        &&& r matches Some(p) ==> self.creds().contains(cred_view(p.credential))
            && epoch_valid_spec(p.credential.body.epoch, now_epoch)
            && p.ephemeral_pubkey == self.public()
            && ed25519_valid(p.ephemeral_pubkey@, present_message(p.credential, context), p.context_signature@)
    }

    /// Rotate to a fresh identity when `now_epoch` differs from the current
    /// one, keeping only the credentials still within the epoch window;
    /// gives whether it rotated.
    pub fn maybe_rotate_at(&mut self, now_epoch: u64) -> (rotated: bool)
        requires
            old(self).wf(),
        ensures
            final(self).wf(),
            rotated == (now_epoch != old(self).epoch_value()),
            rotated ==> final(self).epoch_value() == now_epoch
                && final(self).creds() == old(self).creds().filter(cred_valid_at(now_epoch)),
            !rotated ==> final(self).creds() == old(self).creds() && final(self).public() == old(self).public(),
    {
        if now_epoch == self.identity.epoch {
            return false;
        }
        self.identity = EphemeralIdentity::generate(now_epoch);
        let mut kept: Vec<SignedCredential> = Vec::new();
        let ghost all = self.creds();
        let mut i: usize = 0;
        while i < self.credentials.len()
            invariant
                i <= self.credentials@.len(),
                all == self.credentials@.map_values(|c: SignedCredential| cred_view(c)),
                kept@.map_values(|c: SignedCredential| cred_view(c)) == all.take(i as int).filter(cred_valid_at(now_epoch)),
            decreases self.credentials@.len() - i,
        {
            let c = &self.credentials[i];
            proof {
                assert(all.take(i + 1) =~= all.take(i as int).push(all[i as int]));
                all.take(i as int).lemma_filter_push(all[i as int], cred_valid_at(now_epoch));
                assert(all[i as int] == cred_view(*c));
            }
            let ghost before = kept@;
            if epoch_is_valid(c.body.epoch, now_epoch) {
                kept.push(c.copy());
                assert(kept@.map_values(|c: SignedCredential| cred_view(c))
                    =~= before.map_values(|c: SignedCredential| cred_view(c)).push(cred_view(*c)));
            }
            i = i + 1;
        }
        assert(all.take(all.len() as int) =~= all);
        self.credentials = kept;
        proof {
            assert(all == old(self).creds());
            lemma_filter_distinct_keys(all, cred_valid_at(now_epoch));
        }
        true
    }

    /// Rotate the identity if the epoch has changed; gives whether it rotated.
    pub fn maybe_rotate(&mut self) -> (rotated: bool)
        requires
            old(self).wf(),
        ensures
            final(self).wf(),
            exists|e: u64| is_epoch(e) && #[trigger] old(self).rotate_outcome(*final(self), e, rotated),
    {
        let now = current_epoch();
        let rotated = self.maybe_rotate_at(now);
        assert(old(self).rotate_outcome(*self, now, rotated));
        rotated
    }

    /// The current holder tag (this epoch's pseudonym).
    pub fn holder_tag(&self) -> (tag: [u8; 32])
        requires
            self.wf(),
        ensures
            tag@ == holder_tag_spec(self.public()@),
    {
        self.identity.holder_tag()
    }

    /// The current ephemeral public key.
    pub fn ephemeral_pubkey(&self) -> (pk: [u8; 32])
        ensures
            pk == self.public(),
    {
        self.identity.pubkey_bytes()
    }

    /// The current epoch.
    pub fn epoch(&self) -> (e: u64)
        ensures
            e == self.epoch_value(),
    {
        self.identity.epoch
    }

    /// The current ephemeral identity.
    pub fn identity(&self) -> (id: &EphemeralIdentity)
        requires
            self.wf(),
        ensures
            id.wf(),
            id.public() == self.public(),
            id.epoch_value() == self.epoch_value(),
    {
        &self.identity
    }

    /// Store a credential, replacing one from the same issuer for the same epoch.
    pub fn store(&mut self, credential: SignedCredential)
        requires
            old(self).wf(),
        ensures
            final(self).wf(),
            final(self).epoch_value() == old(self).epoch_value(),
            final(self).public() == old(self).public(),
            (exists|i: int| 0 <= i < old(self).creds().len() && cred_key(old(self).creds()[i]) == cred_key(cred_view(credential)))
                ==> final(self).creds() == old(self).creds().update(
                    choose|i: int| 0 <= i < old(self).creds().len() && cred_key(old(self).creds()[i]) == cred_key(cred_view(credential)),
                    cred_view(credential)),
            !(exists|i: int| 0 <= i < old(self).creds().len() && cred_key(old(self).creds()[i]) == cred_key(cred_view(credential)))
                ==> final(self).creds() == old(self).creds().push(cred_view(credential)),
    {
        let ghost c = cred_view(credential);
        let mut i: usize = 0;
        while i < self.credentials.len()
            invariant
                old(self).wf(),
                i <= self.credentials@.len(),
                self.identity == old(self).identity,
                self.credentials@ == old(self).credentials@,
                self.creds() == old(self).creds(),
                c == cred_view(credential),
                forall|j: int| 0 <= j < i ==> cred_key(self.creds()[j]) != cred_key(c),
            decreases self.credentials@.len() - i,
        {
            let same = key32_eq(&self.credentials[i].issuer_pubkey, &credential.issuer_pubkey)
                && self.credentials[i].body.epoch == credential.body.epoch;
            assert(self.creds()[i as int] == cred_view(self.credentials@[i as int]));
            if same {
                let ghost oc = old(self).creds();
                proof {
                    assert(cred_key(oc[i as int]) == cred_key(c));
                    let k = choose|k: int| 0 <= k < oc.len() && cred_key(oc[k]) == cred_key(c);
                    if k < i {
                        assert(cred_key(oc[k]) != cred_key(oc[i as int]));
                    } else if k > i {
                        assert(cred_key(oc[i as int]) != cred_key(oc[k]));
                    }
                }
                self.credentials.set(i, credential);
                assert(self.creds() =~= oc.update(i as int, c));
                proof {
                    assert forall|a: int, b: int| 0 <= a < b < self.creds().len() implies
                        cred_key(self.creds()[a]) != cred_key(self.creds()[b]) by {
                        if a == i {
                            assert(cred_key(oc[a]) != cred_key(oc[b]));
                        } else if b == i {
                            assert(cred_key(oc[a]) != cred_key(oc[b]));
                        } else {
                            assert(cred_key(oc[a]) != cred_key(oc[b]));
                        }
                    }
                }
                return;
            }
            i = i + 1;
        }
        self.credentials.push(credential);
        assert(self.creds() =~= old(self).creds().push(c));
    }

    /// The highest-tier credential within the epoch window of `now_epoch`.
    pub fn best_credential_at(&self, now_epoch: u64) -> (r: Option<&SignedCredential>)
        requires
            self.wf(),
        ensures
            match r {
                Some(c) => self.creds().contains(cred_view(*c)) && epoch_valid_spec(c.body.epoch, now_epoch)
                    && forall|j: int| 0 <= j < self.creds().len() && epoch_valid_spec(#[trigger] self.creds()[j].0.epoch, now_epoch)
                        ==> tier_number(self.creds()[j].0.tier) <= tier_number(c.body.tier),
                None => forall|j: int| 0 <= j < self.creds().len() ==> !epoch_valid_spec(#[trigger] self.creds()[j].0.epoch, now_epoch),
            },
    {
        let mut best: Option<usize> = None;
        let mut i: usize = 0;
        while i < self.credentials.len()
            invariant
                i <= self.credentials@.len(),
                self.creds() == self.credentials@.map_values(|c: SignedCredential| cred_view(c)),
                match best {
                    Some(b) => b < i && epoch_valid_spec(self.creds()[b as int].0.epoch, now_epoch)
                        && forall|j: int| 0 <= j < i && epoch_valid_spec(#[trigger] self.creds()[j].0.epoch, now_epoch)
                            ==> tier_number(self.creds()[j].0.tier) <= tier_number(self.creds()[b as int].0.tier),
                    None => forall|j: int| 0 <= j < i ==> !epoch_valid_spec(#[trigger] self.creds()[j].0.epoch, now_epoch),
                },
            decreases self.credentials@.len() - i,
        {
            let c = &self.credentials[i];
            assert(self.creds()[i as int] == cred_view(*c));
            if epoch_is_valid(c.body.epoch, now_epoch) {
                match best {
                    None => {
                        best = Some(i);
                    },
                    Some(b) => {
                        if c.body.tier.number() >= self.credentials[b].body.tier.number() {
                            best = Some(i);
                        }
                    },
                }
            }
            i = i + 1;
        }
        match best {
            None => None,
            Some(b) => {
                assert(self.creds()[b as int] == cred_view(self.credentials@[b as int]));
                Some(&self.credentials[b])
            },
        }
    }

    /// The highest-tier credential valid in the current epoch.
    pub fn best_credential(&self) -> (r: Option<&SignedCredential>)
        requires
            self.wf(),
        ensures
            exists|e: u64| is_epoch(e) && #[trigger] self.best_outcome(e, r),
    {
        let now = current_epoch();
        let r = self.best_credential_at(now);
        assert(self.best_outcome(now, r));
        r
    }

    /// Present the best credential valid at `now_epoch` in `context`.
    pub fn present_at(&self, context: &[u8], now_epoch: u64) -> (r: Option<CredentialPresentation>)
        requires
            self.wf(),
        ensures
            r is None <==> forall|j: int| 0 <= j < self.creds().len()
                ==> !epoch_valid_spec(#[trigger] self.creds()[j].0.epoch, now_epoch),
            r matches Some(p) ==> self.creds().contains(cred_view(p.credential))
                && epoch_valid_spec(p.credential.body.epoch, now_epoch)
                && p.ephemeral_pubkey == self.public()
                && ed25519_valid(p.ephemeral_pubkey@, present_message(p.credential, context@), p.context_signature@),
    {
        match self.best_credential_at(now_epoch) {
            None => None,
            Some(cred) => {
                proof {
                    let j = choose|j: int| 0 <= j < self.creds().len() && self.creds()[j] == cred_view(*cred);
                    assert(epoch_valid_spec(self.creds()[j].0.epoch, now_epoch));
                }
                let p = CredentialPresentation::create(cred, &self.identity, context);
                assert(cred_view(p.credential) == cred_view(*cred));
                assert(credential_bytes_spec(p.credential) == credential_bytes_spec(*cred));
                Some(p)
            },
        }
    }

    /// Present the best credential valid now in `context`.
    pub fn present(&self, context: &[u8]) -> (r: Option<CredentialPresentation>)
        requires
            self.wf(),
        ensures
            exists|e: u64| is_epoch(e) && #[trigger] self.present_outcome(context@, e, r),
    {
        let now = current_epoch();
        let r = self.present_at(context, now);
        assert(self.present_outcome(context@, now, r));
        r
    }

    /// The number of stored credentials.
    pub fn credential_count(&self) -> (n: usize)
        ensures
            n == self.creds().len(),
    {
        self.credentials.len()
    }
}

/// Snapshot of the credential subsystem.
#[derive(Debug, Clone)]
pub struct CredentialStats {
    /// Current epoch number.
    pub current_epoch: u64,
    /// Number of credentials in the wallet.
    pub held_credentials: usize,
    /// Best held credential tier, if any.
    pub best_tier: Option<String>,
    /// Number of known issuers.
    pub known_issuers: usize,
    /// Whether bootstrap mode is active.
    pub bootstrap_mode: bool,
}

} // verus!
