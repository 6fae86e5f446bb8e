use openzax::cli::also_general_key;
use openzax::cli::initial_key;
use openzax::cli::initial_model;
use openzax::cli::position_of_id;
use openzax::cli::DEFAULT_MODEL;
use openzax::cli::wasm_version_of;
use openzax::signing::key_texts;
use base64::Engine;
use openzax::cli::mask_token;
use openzax::cli::package_file_name;
use openzax::cli::search_url;
use openzax::cli::skill_language;
use openzax::cli::skill_meta_url;
use openzax::cli::wasm_file_name;
use openzax::cli::SkillLanguage;
use openzax::llm::confirmed;
use openzax::llm::find_model;
use openzax::llm::ModelInfo;
use openzax::llm::ModelProvider;
use openzax::market::MarketplaceError;
use openzax::market_api::error_message;
use openzax::market_api::error_response;
use openzax::signing::check_download;
use openzax::signing::key_fingerprint;
use openzax::signing::sign_package;
use sha2::Digest;

fn local(id: &str, name: &str) -> ModelInfo {
    ModelInfo {
        id: id.to_string(),
        name: name.to_string(),
        provider: ModelProvider::Local,
        context_window: 4096,
        capabilities: vec![],
        size_bytes: None,
        quantization: None,
        is_local: true,
        path: None,
    }
}

fn b64(b: &[u8]) -> String {
    base64::engine::general_purpose::STANDARD.encode(b)
}

#[test]
fn models_are_found_by_id_or_name() {
    let models = vec![local("llama-3-8b", "Llama 3 8B"), local("mistral-7b", "Mistral 7B Instruct")];
    assert_eq!(find_model(&models, "mistral-7b"), Some(1));
    assert_eq!(find_model(&models, "Llama"), Some(0));
    assert_eq!(find_model(&models, "7B"), Some(1));
    assert_eq!(find_model(&models, "gpt"), None);
}

#[test]
fn only_y_confirms() {
    assert!(confirmed("y\n"));
    assert!(confirmed("  Y "));
    assert!(!confirmed("yes"));
    assert!(!confirmed(""));
}

#[test]
fn signed_packages_pass_the_download_check() {
    let secret = [7u8; 32];
    let package = b"package bytes";
    let (sig, public) = sign_package(&format!("  {}\n", b64(&secret)), package).unwrap();
    assert_eq!(check_download(package, &sig, &public), Ok(true));
    assert_eq!(
        check_download(b"other bytes", &sig, &public),
        Err("Signature verification failed – package may be tampered".to_string())
    );
    assert_eq!(check_download(package, "", &public), Ok(false));
    assert_eq!(check_download(package, &sig, ""), Ok(false));
    assert_eq!(check_download(package, &sig, &b64(&[1u8; 16])), Err("Invalid public key length".to_string()));
    assert_eq!(check_download(package, &b64(&[1u8; 10]), &public), Err("Invalid signature length".to_string()));
    assert!(check_download(package, "!!", &public).is_err());
    assert_eq!(
        sign_package(&b64(&[1u8; 31]), package),
        Err("Invalid private key length (expected 32 bytes)".to_string())
    );
    assert!(sign_package("not base64!", package).is_err());
}

#[test]
fn fingerprints_group_digest_bytes() {
    let key = [3u8; 32];
    let d = sha2::Sha256::digest(key);
    let groups: Vec<String> = d[..16].chunks(2).map(|c| format!("{:02x}{:02x}", c[0], c[1])).collect();
    let fp = key_fingerprint(&key);
    assert_eq!(fp, groups.join(":"));
    assert_eq!(fp.len(), 39);
}

#[test]
fn tokens_are_masked() {
    assert_eq!(mask_token("abcdefgh"), "****");
    assert_eq!(mask_token("abcdefghij"), "abcd...ghij");
}

#[test]
fn skill_commands_name_their_files() {
    assert_eq!(skill_language("rust"), SkillLanguage::Rust);
    assert_eq!(skill_language("ts"), SkillLanguage::TypeScript);
    assert_eq!(skill_language("py"), SkillLanguage::Python);
    assert_eq!(skill_language("go"), SkillLanguage::Unsupported);
    assert_eq!(wasm_file_name(Some("my-cool-skill")), "my_cool_skill.wasm");
    assert_eq!(wasm_file_name(None), "skill.wasm");
    assert_eq!(package_file_name(Some("tool"), Some("1.2.0")), "tool-1.2.0.ozskill");
    assert_eq!(package_file_name(None, None), "skill-0.1.0.ozskill");
}

#[test]
fn marketplace_addresses() {
    assert_eq!(search_url("pdf tools", None, 20), "https://api.openzax.dev/v1/search?q=pdf%20tools&limit=20");
    assert_eq!(
        search_url("x", Some("security"), 5),
        "https://api.openzax.dev/v1/search?q=x&category=security&limit=5"
    );
    assert_eq!(skill_meta_url("a b", None), "https://api.openzax.dev/v1/skills/a%20b/latest");
    assert_eq!(skill_meta_url("tool", Some("1.0.0")), "https://api.openzax.dev/v1/skills/tool/1.0.0");
}

#[test]
fn refused_requests_get_status_and_message() {
    let e = MarketplaceError::SkillNotFound(0);
    assert_eq!(error_message(&e), "Skill not found: 00000000-0000-0000-0000-000000000000");
    assert_eq!(error_response(&e).0, 404);
    assert_eq!(error_response(&MarketplaceError::AuthenticationRequired), (401, "Authentication required".to_string()));
    assert_eq!(error_response(&MarketplaceError::PermissionDenied("no".into())), (403, "Permission denied: no".to_string()));
    assert_eq!(
        error_response(&MarketplaceError::InvalidRating),
        (400, "Invalid rating: must be between 1 and 5".to_string())
    );
    assert_eq!(
        error_response(&MarketplaceError::PackageTooLarge { size: 20, limit: 10 }),
        (413, "Package too large: 20 bytes exceeds limit of 10 bytes".to_string())
    );
    assert_eq!(error_response(&MarketplaceError::Database("locked".into())), (500, "Internal server error".to_string()));
    assert_eq!(error_message(&MarketplaceError::Database("locked".into())), "Database error: locked");
}

#[test]
fn sessions_start_with_a_key_and_a_model() {
    let s = |t: &str| Some(t.to_string());
    assert_eq!(initial_key(s("arg"), s("oz"), s("or"), s("cfg")), s("arg"));
    assert_eq!(initial_key(None, s("oz"), s("or"), s("cfg")), s("oz"));
    assert_eq!(initial_key(None, None, s("or"), s("cfg")), s("or"));
    assert_eq!(initial_key(None, None, None, s("cfg")), s("cfg"));
    assert_eq!(initial_key(None, None, None, s("")), None);
    assert_eq!(initial_model(DEFAULT_MODEL, Some("groq/llama")), "groq/llama");
    assert_eq!(initial_model(DEFAULT_MODEL, Some("")), DEFAULT_MODEL);
    assert_eq!(initial_model("other", Some("groq/llama")), "other");
    assert_eq!(position_of_id(&["a", "b", "b"], "b"), Some(1));
    assert_eq!(position_of_id(&["a"], "z"), None);
    assert!(also_general_key("openrouter_key"));
    assert!(!also_general_key("groq_key"));
}

#[test]
fn module_headers_give_their_version() {
    assert_eq!(wasm_version_of(&[0, 0x61, 0x73, 0x6d, 1, 0, 0, 0]), Some(1));
    assert_eq!(wasm_version_of(&[0, 0x61, 0x73, 0x6d, 2, 1, 0, 0]), Some(258));
    assert_eq!(wasm_version_of(b"MZ\x90\x00"), None);
    assert_eq!(wasm_version_of(&[]), None);
}

#[test]
fn keygen_texts_match_the_signing_key() {
    let secret = [9u8; 32];
    let t = key_texts(&secret);
    assert_eq!(t.private_b64, b64(&secret));
    let (_, public) = sign_package(&t.private_b64, b"x").unwrap();
    assert_eq!(t.public_b64, public);
    assert_eq!(t.fingerprint.len(), 39);
}
