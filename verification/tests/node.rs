use miasma_core::bbs_credential::{
    accept_issued_bbs_credential, BbsCredentialAttributes, BbsCredentialWallet, BbsIssuer, BbsIssuerKey,
    BbsIssuerRegistry,
};
use miasma_core::credential::{CredentialIssuer, CredentialTier, CredentialWallet, CAP_ROUTE, CAP_STORE};
use miasma_core::node::{accept_issued_credential, answer_credential_request, answer_credential_request_with_nonce};
use miasma_core::node::{
    encode_frame, AdmissionCodec, CredentialCodec, DescriptorCodec, ShareCodec, ShareFetchRequest,
};

#[test]
fn frame_layout() {
    let f = encode_frame(b"abc");
    assert_eq!(f, vec![3, 0, 0, 0, b'a', b'b', b'c']);
    assert_eq!(encode_frame(&[]), vec![0, 0, 0, 0]);
}

#[test]
fn codec_limits() {
    assert!(CredentialCodec.frame_ok(8192));
    assert!(!CredentialCodec.frame_ok(8193));
    assert!(DescriptorCodec.frame_ok(16384));
    assert!(!DescriptorCodec.frame_ok(16385));
    assert!(ShareCodec.frame_ok(4 * 1024 * 1024));
    assert!(!AdmissionCodec.frame_ok(4097));
}

#[test]
fn share_request_fields() {
    let r = ShareFetchRequest { mid_digest: [1u8; 32], slot_index: 3, segment_index: 9 };
    assert_eq!(r, ShareFetchRequest { mid_digest: [1u8; 32], slot_index: 3, segment_index: 9 });
}

fn exchange_request(wallet: &CredentialWallet, with_bbs: bool) -> miasma_core::node::CredentialRequest {
    miasma_core::node::CredentialRequest {
        ephemeral_pubkey: wallet.ephemeral_pubkey(),
        holder_tag: wallet.holder_tag(),
        epoch: wallet.epoch(),
        bbs_link_secret: if with_bbs { Some([5u8; 32]) } else { None },
    }
}

#[test]
fn credentials_issued_only_to_verified_peers() {
    let issuer = CredentialIssuer::new([0x42; 32]);
    let bbs_issuer = BbsIssuer::new(BbsIssuerKey::from_seed(b"issuer"));
    let wallet = CredentialWallet::new();
    let req = exchange_request(&wallet, true);
    let denied = answer_credential_request(false, &req, &issuer, &bbs_issuer);
    assert!(denied.credential.is_none() && denied.bbs_credential.is_none());
    let granted = answer_credential_request_with_nonce(true, &req, &issuer, &bbs_issuer, 77);
    let c = granted.credential.unwrap();
    assert_eq!(c.body.tier, CredentialTier::Verified);
    assert_eq!(c.body.epoch, req.epoch);
    assert_eq!(c.body.capabilities, CAP_STORE | CAP_ROUTE);
    assert_eq!(c.body.holder_tag, req.holder_tag);
    let b = granted.bbs_credential.unwrap();
    assert_eq!(b.attributes.link_secret, [5u8; 32]);
    assert_eq!(b.attributes.nonce, 77);
    let no_bbs = answer_credential_request(true, &exchange_request(&wallet, false), &issuer, &bbs_issuer);
    assert!(no_bbs.credential.is_some() && no_bbs.bbs_credential.is_none());
}

#[test]
fn issued_credential_accepted_only_when_valid() {
    let issuer = CredentialIssuer::new([0x42; 32]);
    let bbs_issuer = BbsIssuer::new(BbsIssuerKey::from_seed(b"issuer"));
    let mut wallet = CredentialWallet::new();
    let req = exchange_request(&wallet, false);
    let cred = answer_credential_request(true, &req, &issuer, &bbs_issuer).credential.unwrap();
    let epoch = wallet.epoch();
    assert!(!accept_issued_credential(&mut wallet, cred.clone(), &[[9u8; 32]], epoch, b"ctx"));
    assert_eq!(wallet.credential_count(), 0);
    let mut forged = cred.clone();
    forged.issuer_signature = vec![0u8; 64];
    assert!(!accept_issued_credential(&mut wallet, forged, &[issuer.pubkey_bytes()], epoch, b"ctx"));
    assert!(accept_issued_credential(&mut wallet, cred, &[issuer.pubkey_bytes()], epoch, b"ctx"));
    assert_eq!(wallet.credential_count(), 1);
}

#[test]
fn issued_bbs_credential_accepted_only_from_known_issuer() {
    let key = BbsIssuerKey::from_seed(b"issuer");
    let issuer = BbsIssuer::new(key.clone());
    let mut wallet = BbsCredentialWallet::new();
    let cred = issuer.issue(BbsCredentialAttributes {
        link_secret: wallet.link_secret(),
        tier: CredentialTier::Verified,
        capabilities: 5,
        epoch: 10,
        nonce: 1,
    });
    let mut registry = BbsIssuerRegistry::new();
    assert!(!accept_issued_bbs_credential(&mut wallet, &registry, cred.clone(), b"ctx"));
    assert_eq!(wallet.credential_count(), 0);
    registry.add_issuer(key.pk_bytes());
    assert!(accept_issued_bbs_credential(&mut wallet, &registry, cred, b"ctx"));
    assert_eq!(wallet.credential_count(), 1);
}
