use ed25519_dalek::Signer;
use ed25519_dalek::SigningKey;
use openzax::codec::base64_decode;
use openzax::codec::decode_base64_simple;
use openzax::codec::hex_decode;
use openzax::codec::hex_encode;
use openzax::market::MarketplaceConfig;
use openzax::market::MarketplaceError;
use openzax::market::PaginatedResponse;
use openzax::market::Review;
use openzax::market::ReviewStatus;
use openzax::market::SkillCategory;
use openzax::market::SkillSearchQuery;
use openzax::signing::build_signed_payload;
use openzax::signing::compute_wasm_hash;
use openzax::signing::KeyRegistry;
use openzax::signing::SignatureError;
use openzax::signing::SkillPackage;
use openzax::signing::SkillVerifier;
use openzax::signing::TrustLevel;

#[test]
fn categories_round_trip() {
    for c in [
        SkillCategory::Productivity,
        SkillCategory::Development,
        SkillCategory::Security,
        SkillCategory::DataAnalysis,
        SkillCategory::Communication,
        SkillCategory::Automation,
        SkillCategory::Integration,
        SkillCategory::Utilities,
    ] {
        assert_eq!(SkillCategory::from_str(&c.to_string()).unwrap(), c);
    }
    assert_eq!(SkillCategory::DataAnalysis.to_string(), "data_analysis");
    match SkillCategory::from_str("games") {
        Err(MarketplaceError::InvalidCategory(m)) => assert_eq!(m, "games"),
        _ => panic!("expected an invalid category"),
    }
}

#[test]
fn review_statuses_round_trip() {
    assert_eq!(ReviewStatus::AutoScanPassed.as_db_str(), "auto_scan_passed");
    assert!(matches!(ReviewStatus::from_db_str("approved"), ReviewStatus::Approved));
    assert!(matches!(ReviewStatus::from_db_str("whatever"), ReviewStatus::Pending));
    let r = Review { id: 1, skill_id: 2, reviewer_id: 3, rating: 6, comment: String::new(), created_at: 0, is_community_review: false };
    assert!(!r.validate_rating());
}

#[test]
fn payouts_and_pages() {
    let c = MarketplaceConfig::default();
    assert_eq!(c.platform_fee_bps, 1500);
    assert_eq!(c.developer_payout_cents(1000), 850);
    assert_eq!(c.developer_payout_cents(999), 850);
    assert_eq!(c.developer_payout_cents(0), 0);
    let p = PaginatedResponse::new(vec![1, 2], 41, 1, 20);
    assert_eq!(p.total_pages, 3);
    let e: PaginatedResponse<u8> = PaginatedResponse::new(vec![], 0, 1, 20);
    assert_eq!(e.total_pages, 0);
    let q = SkillSearchQuery::default();
    assert_eq!(q.per_page, 20);
}

#[test]
fn hex_and_base64() {
    assert_eq!(hex_encode(&[0x0a, 0xff, 0x00]), "0aff00");
    assert_eq!(hex_decode("0aFF").unwrap(), vec![0x0a, 0xff]);
    assert_eq!(hex_decode("abc").unwrap_err(), "odd hex length");
    assert_eq!(hex_decode("zz").unwrap_err(), "invalid digit found in string");
    assert_eq!(base64_decode("aGVsbG8h").unwrap(), b"hello!".to_vec());
    assert_eq!(base64_decode("a b").unwrap_err(), "invalid base64 characters");
    assert_eq!(decode_base64_simple("aGk=").unwrap(), b"hi".to_vec());
    assert_eq!(decode_base64_simple("YQ==").unwrap(), b"a".to_vec());
    assert_eq!(decode_base64_simple("YWJj").unwrap(), b"abc".to_vec());
    assert_eq!(decode_base64_simple("YWJjZ").unwrap(), b"abc".to_vec());
    assert_eq!(decode_base64_simple("YW!=").unwrap_err(), "invalid base64 character");
    assert_eq!(decode_base64_simple("a-bc").unwrap_err(), "invalid base64 character");
}

#[test]
fn wasm_hash_is_sha256_hex() {
    assert_eq!(compute_wasm_hash(b"abc"), "ba7816bf8f01cfea414140de5dae2223b00361a396177a9cb410ff61f20015ad");
    assert_eq!(build_signed_payload("h", b"x").len(), 32);
    assert_ne!(build_signed_payload("h", b"x"), build_signed_payload("h", b"y"));
}

fn signed_package(tamper: bool) -> (SkillPackage, Vec<u8>) {
    let key = SigningKey::from_bytes(&[7u8; 32]);
    let wasm = b"\0asm\x01\0\0\0".to_vec();
    let manifest = compute_wasm_hash(&wasm);
    let payload = build_signed_payload(&manifest, &wasm);
    let sig = key.sign(&payload).to_bytes().to_vec();
    let public = key.verifying_key().to_bytes().to_vec();
    let mut body = wasm.clone();
    if tamper {
        body.push(1);
    }
    (SkillPackage { wasm_bytes: body, signature: sig, signer_public_key: public.clone(), manifest_hash: manifest }, public)
}

#[test]
fn packages_are_verified() {
    let v = SkillVerifier::new(KeyRegistry::new());
    let (good, _) = signed_package(false);
    assert!(v.verify_package(&good).is_ok());
    let (bad, _) = signed_package(true);
    assert!(matches!(v.verify_package(&bad), Err(SignatureError::VerificationFailed)));
    let (mut short, _) = signed_package(false);
    short.signer_public_key = vec![1, 2, 3];
    match v.verify_package(&short) {
        Err(SignatureError::InvalidPublicKey(m)) => assert_eq!(m, "expected 32 bytes, got 3"),
        _ => panic!("expected a key error"),
    }
}

#[test]
fn registry_tracks_reputation() {
    let (_, public) = signed_package(false);
    let mut reg = KeyRegistry::new();
    assert!(reg.register_key(&public, Some(9), TrustLevel::Verified).is_ok());
    assert!(reg.register_key(&[1, 2], None, TrustLevel::Staff).is_err());
    let hex = hex_encode(&public);
    assert_eq!(reg.get(&hex).unwrap().trust_level, TrustLevel::Verified);
    assert_eq!(reg.trusted_key_count(), 1);
    reg.increment_signed_count(&hex);
    assert_eq!(reg.get(&hex).unwrap().total_skills_signed, 1);
    reg.record_violation(&hex);
    assert_eq!(reg.get(&hex).unwrap().violation_count, 1);
    let v = SkillVerifier::new(reg);
    assert!(v.is_trusted(&public, TrustLevel::Community));
    assert!(!v.is_trusted(&public, TrustLevel::Partner));
    assert!(v.verify_signer_reputation(&public).is_ok());
    match v.verify_signer_reputation(&[0u8; 32]) {
        Err(SignatureError::UntrustedSigner { key_hex }) => assert_eq!(key_hex, "0000000000000000"),
        _ => panic!("expected an unknown signer"),
    }
    let mut reg2 = KeyRegistry::new();
    reg2.register_key(&public, None, TrustLevel::Staff).unwrap();
    assert!(reg2.ban_key(&hex, "malware"));
    assert!(!reg2.ban_key("00", "x"));
    let v2 = SkillVerifier::new(reg2);
    assert!(!v2.is_trusted(&public, TrustLevel::Unknown));
    match v2.verify_signer_reputation(&public) {
        Err(SignatureError::BannedSigner { reason }) => assert_eq!(reason, "malware"),
        _ => panic!("expected a banned signer"),
    }
}

#[test]
fn decoding_reads_back_every_standard_encoding() {
    use_base64_roundtrip();
}

fn use_base64_roundtrip() {
    let engine = base64::engine::general_purpose::STANDARD;
    for len in 0..40usize {
        let bytes: Vec<u8> = (0..len).map(|k| (k * 37 + len * 11) as u8).collect();
        let text = base64::Engine::encode(&engine, &bytes);
        assert_eq!(decode_base64_simple(&text).unwrap(), bytes);
    }
}
