use openzax::text::i64_to_decimal;
use openzax::text::u64_to_decimal;
use base64::Engine as _;
use openzax::auth::OidcConfig;
use sha2::Digest as _;
use openzax::auth::extract_xml_element;
use openzax::auth::AuthError;
use openzax::auth::AuthManager;
use openzax::auth::AuthProvider;
use openzax::codec::hex_encode;
use openzax::scanner::compute_risk_score;
use openzax::scanner::is_sensitive_import;
use openzax::scanner::scan_wasm_bytes;
use openzax::scanner::version_less_than;
use openzax::scanner::version_matches_range;
use openzax::scanner::DependencyAuditor;
use openzax::scanner::ScanViolation;
use openzax::scanner::Tier1Scanner;
use openzax::signing::compute_wasm_hash;

#[test]
fn tiny_modules_fail() {
    let r = scan_wasm_bytes(b"\0asm");
    assert!(!r.passed);
    assert_eq!(r.violations.len(), 1);
    assert_eq!(r.violations[0].description, "WASM binary too small to be valid");
    let bad = scan_wasm_bytes(b"XXXXXXXX");
    assert!(!bad.passed);
    let ok = scan_wasm_bytes(b"\0asm\x01\0\0\0");
    assert!(ok.passed);
    assert_eq!(ok.section_count, 0);
    let s = Tier1Scanner::new();
    assert_eq!(s.count_wasm_sections(b"\0asm\x01\0\0\0\x01\x00"), 1);
}

#[test]
fn risk_scores_add_up() {
    let v = vec![
        ScanViolation::critical("a".to_string()),
        ScanViolation::high("b".to_string()),
        ScanViolation::medium("c".to_string()),
    ];
    assert_eq!(compute_risk_score(&v), 170);
    assert_eq!(compute_risk_score(&[]), 0);
}

#[test]
fn imports_and_versions() {
    assert!(is_sensitive_import("wasi:filesystem/types"));
    assert!(is_sensitive_import("sys:exec"));
    assert!(!is_sensitive_import("wasi:random"));
    assert!(version_less_than("1.2.3", "1.10.0"));
    assert!(!version_less_than("2.0", "2.0"));
    assert!(version_matches_range("3.0.6", "< 3.0.7"));
    assert!(!version_matches_range("3.0.7", "< 3.0.7"));
    assert!(version_matches_range("3.0.7", "<= 3.0.7"));
    assert!(!version_matches_range("1.0", "> 0.5"));
    let a = DependencyAuditor::new();
    let found = a.audit_dependencies(&[
        ("OpenSSL".to_string(), "1.1.1".to_string()),
        ("serde".to_string(), "1.0.0".to_string()),
    ]);
    assert_eq!(found.len(), 1);
    assert_eq!(found[0].cve_id, "CVE-2022-3786");
}

#[test]
fn xml_elements_are_read() {
    assert_eq!(extract_xml_element("<a><NameID> bob </NameID></a>", "NameID"), Some("bob".to_string()));
    assert_eq!(extract_xml_element("<a></a>", "NameID"), None);
}

#[test]
fn local_logins_check_the_hash() {
    let m = AuthManager::new(b"key".to_vec());
    let stored = compute_wasm_hash(b"secret");
    let s = m.authenticate_local("ann", "secret", &stored, "1.2.3.4", "agent").unwrap();
    assert_eq!(s.user_id, "ann");
    assert_eq!(s.provider, "local");
    assert_eq!(s.expires_at - s.created_at, 8 * 3600 * 1000);
    assert!(s.is_valid_at(s.created_at));
    assert!(!s.is_valid_at(s.expires_at + 1));
    assert!(matches!(m.authenticate_local("ann", "wrong", &stored, "", ""), Err(AuthError::InvalidCredentials)));
    let longer = AuthManager::new(vec![1]).with_session_ttl(24);
    let s2 = longer.authenticate_local("b", "secret", &stored, "", "").unwrap();
    assert_eq!(s2.expires_at - s2.created_at, 24 * 3600 * 1000);
    assert_eq!(hex_encode(&[0xab]), "ab");
    assert_eq!(AuthProvider::Local.variant_name(), "local");
}

#[test]
fn oidc_token_status() {
    assert!(AuthManager::check_token_status(200, "200 OK").is_ok());
    assert!(AuthManager::check_token_status(400, "400 Bad Request").is_err());
}

#[test]
fn oidc_flows_use_pkce_verifiers() {
    let m = AuthManager::new(b"secret".to_vec());
    let cfg = OidcConfig {
        issuer_url: "https://idp.example".to_string(),
        client_id: "cid".to_string(),
        client_secret: "x".to_string(),
        redirect_uri: "https://app/cb".to_string(),
        scopes: vec!["openid".to_string(), "email".to_string()],
        attribute_mapping: vec![],
    };
    let f = m.initiate_oidc_flow(&cfg).unwrap();
    assert_eq!(f.code_verifier.len(), 43);
    assert!(f.code_verifier.chars().all(|c| c.is_ascii_alphanumeric() || "-._~".contains(c)));
    let digest = sha2::Sha256::digest(f.code_verifier.as_bytes());
    let expected = base64::engine::general_purpose::URL_SAFE_NO_PAD.encode(digest);
    assert_eq!(f.code_challenge, expected);
    assert!(f.authorization_url.starts_with("https://idp.example/authorize?response_type=code&client_id=cid"));
    assert!(f.authorization_url.ends_with(&format!("&state={}&code_challenge={}&code_challenge_method=S256", f.state, f.code_challenge)));
}

#[test]
fn numbers_render_and_parse_in_decimal() {
    assert_eq!(u64_to_decimal(0), "0");
    assert_eq!(u64_to_decimal(1234567890), "1234567890");
    assert_eq!(u64_to_decimal(u64::MAX), "18446744073709551615");
    assert_eq!(i64_to_decimal(-5), "-5");
    assert_eq!(i64_to_decimal(i64::MIN), "-9223372036854775808");
    assert_eq!(i64_to_decimal(42), "42");
    assert!(version_less_than("1.+2", "1.3"));
    assert!(version_less_than("18446744073709551616", "1"));
    assert!(version_less_than("1.x", "1.1"));
}

fn module_importing(module: &str, field: &str) -> Vec<u8> {
    let mut content = vec![1u8, module.len() as u8];
    content.extend_from_slice(module.as_bytes());
    content.push(field.len() as u8);
    content.extend_from_slice(field.as_bytes());
    content.extend_from_slice(&[0, 0]);
    let mut bytes = b"\0asm\x01\0\0\0".to_vec();
    bytes.push(2);
    bytes.push(content.len() as u8);
    bytes.extend_from_slice(&content);
    bytes
}

#[test]
fn undeclared_sensitive_imports_are_reported() {
    let s = Tier1Scanner::new();
    let bytes = module_importing("wasi:filesystem", "open");
    let r = s.scan(&bytes, &["network".to_string()], None);
    assert!(r
        .violations
        .iter()
        .any(|v| v.description == "Undeclared sensitive import detected: 'wasi:filesystem::open' not in manifest permissions"));
    let covered = s.scan(&bytes, &["wasi:filesystem".to_string()], None);
    assert!(!covered.violations.iter().any(|v| v.description.starts_with("Undeclared")));
}

#[test]
fn modules_with_malicious_patterns_never_pass() {
    let s = Tier1Scanner::new();
    let mut bytes = b"\0asm\x01\0\0\0".to_vec();
    bytes.extend_from_slice(b"bash -i >&");
    let r = s.scan(&bytes, &[], None);
    assert!(!r.passed);
    assert!(r.violations.iter().any(|v| v.description == "Suspicious pattern detected: reverse_shell"));
}

#[test]
fn stored_sessions_are_checked_against_the_clock() {
    use_session_step();
}

fn use_session_step() {
    let s = openzax::auth::AuthSession {
        session_id: 7,
        user_id: "u".to_string(),
        created_at: 0,
        expires_at: 1000,
        last_active: 0,
        ip_address: String::new(),
        user_agent: String::new(),
        provider: "local".to_string(),
    };
    assert_eq!(openzax::auth::session_step(None, 10), openzax::auth::SessionStep::Missing);
    assert_eq!(openzax::auth::session_step(Some(&s), 999), openzax::auth::SessionStep::Touch);
    assert_eq!(openzax::auth::session_step(Some(&s), 1000), openzax::auth::SessionStep::Revoke);
}
