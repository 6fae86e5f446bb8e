use openzax::cli::config_key_for;
use openzax::cli::resolve_provider_key;
use openzax::fleet::config_diff;
use openzax::fleet::FleetError;
use openzax::keys::Mode;
use openzax::prompt::mode_prompt;
use openzax::prompt::model_catalog;
use openzax::prompt::replace_text;
use openzax::prompt::CatalogModel;
use openzax::prompt::PromptTexts;
use openzax::update::asset_name;
use openzax::update::exe_name;
use openzax::update::find_download;
use openzax::update::is_latest;
use openzax::update::needs_update;
use openzax::update::release_url;
use openzax::update::tag_version;
use openzax::update::update_notice;
use openzax::update::Platform;

fn model(id: &str, display: &str, category: &str, strength: &str) -> CatalogModel {
    CatalogModel {
        id: id.to_string(),
        display: display.to_string(),
        category: category.to_string(),
        strength: strength.to_string(),
    }
}

#[test]
fn replace_finds_occurrences_from_the_left() {
    assert_eq!(replace_text("aaa", "aa", "b"), "ba");
    assert_eq!(replace_text("x{A}y{A}", "{A}", "--"), "x--y--");
    assert_eq!(replace_text("none", "zz", "q"), "none");
}

#[test]
fn catalog_lists_text_and_vision_then_images() {
    let ms = vec![
        model("a/one", "One", "text", "fast"),
        model("b/img", "Img", "image", "pictures"),
        model("c/eye", "Eye", "vision", "sees"),
        model("d/other", "Other", "audio", "hears"),
    ];
    assert_eq!(
        model_catalog(&ms),
        "- **One** (`a/one`): fast\n- **Eye** (`c/eye`): sees\n\n### Image Generation Models:\n- **Img** (`b/img`): pictures\n"
    );
}

#[test]
fn prompts_follow_mode_and_tier() {
    let texts = PromptTexts {
        build: "BUILD".to_string(),
        plan: "PLAN".to_string(),
        agent_template: "AGENTS:\n{MODEL_CATALOG}END".to_string(),
        high_boost: "+HIGH".to_string(),
        max_boost: "+MAX".to_string(),
    };
    let ms = vec![model("a/one", "One", "text", "fast")];
    assert_eq!(mode_prompt(Mode::Build, 0, &texts, &ms, "m"), "BUILD");
    assert_eq!(mode_prompt(Mode::Plan, 1, &texts, &ms, "m"), "PLAN+HIGH");
    assert_eq!(mode_prompt(Mode::Build, 2, &texts, &ms, "m"), "BUILD+MAX");
    assert_eq!(
        mode_prompt(Mode::MultiAgent, 0, &texts, &ms, "a/one"),
        "AGENTS:\n- **One** (`a/one`): fast\n\n### Image Generation Models:\nEND\n\n## YOUR CURRENT MODEL: `a/one`\nNEVER assign this model to sub-agents. Always pick a DIFFERENT model."
    );
}

#[test]
fn provider_keys_come_from_environment_then_configuration() {
    assert_eq!(config_key_for("GROQ_API_KEY"), Some("groq_key"));
    assert_eq!(config_key_for("OTHER"), None);
    let cfg = vec![
        ("groq_key".to_string(), "".to_string()),
        ("api_key".to_string(), "general".to_string()),
        ("openrouter_key".to_string(), "or-key".to_string()),
    ];
    assert_eq!(
        resolve_provider_key("GROQ_API_KEY", Some("env".to_string()), Some("all".to_string()), &cfg),
        Some("env".to_string())
    );
    assert_eq!(resolve_provider_key("GROQ_API_KEY", None, Some("all".to_string()), &cfg), Some("all".to_string()));
    assert_eq!(resolve_provider_key("GROQ_API_KEY", None, None, &cfg), Some("general".to_string()));
    assert_eq!(resolve_provider_key("OPENROUTER_API_KEY", None, None, &cfg), Some("or-key".to_string()));
    assert_eq!(resolve_provider_key("OTHER", None, None, &cfg), None);
    assert_eq!(resolve_provider_key("CEREBRAS_API_KEY", None, None, &[]), None);
}

#[test]
fn release_addresses_and_versions() {
    assert_eq!(release_url(None), "https://api.github.com/repos/zAxCoder/OpenZax/releases/latest");
    assert_eq!(release_url(Some("1.2.3")), "https://api.github.com/repos/zAxCoder/OpenZax/releases/tags/v1.2.3");
    assert!(is_latest("v0.1.0", "0.1.0"));
    assert!(is_latest("0.1.0", "0.1.0"));
    assert!(!is_latest("v0.2.0", "0.1.0"));
    assert_eq!(update_notice("v0.1.0", "0.1.0"), None);
    assert_eq!(update_notice("v0.2.0", "0.1.0"), Some("v0.1.0 → v0.2.0 available".to_string()));
    assert_eq!(tag_version("vv1.0"), "1.0");
    assert!(!needs_update("v0.1.0", "0.1.0"));
    assert!(needs_update("v0.1.1", "0.1.0"));
}

#[test]
fn downloads_match_the_platform() {
    assert_eq!(asset_name(Platform::Windows), "openzax-windows-x86_64.zip");
    assert_eq!(asset_name(Platform::MacOs), "openzax-macos-aarch64.tar.gz");
    assert_eq!(asset_name(Platform::Linux), "openzax-linux-x86_64.tar.gz");
    assert_eq!(exe_name(Platform::Windows), "openzax.exe");
    assert_eq!(exe_name(Platform::Linux), "openzax");
    let assets = vec![
        ("openzax-linux-x86_64.tar.gz".to_string(), None),
        ("openzax-windows-x86_64.zip".to_string(), Some("https://w".to_string())),
        ("openzax-linux-x86_64.tar.gz".to_string(), Some("https://l".to_string())),
    ];
    assert_eq!(find_download(&assets, "openzax-linux-x86_64.tar.gz"), Some("https://l".to_string()));
    assert_eq!(find_download(&assets, "openzax-macos-aarch64.tar.gz"), None);
}

#[test]
fn configuration_versions_are_compared_field_by_field() {
    let a = r#"{"a":1,"b":"x"}"#;
    let b = r#"{"a":2,"c":true}"#;
    let lines = config_diff(Some(a), "v1", Some(b), "v2").unwrap();
    assert_eq!(
        lines,
        vec![
            r#"Field 'a': "1" -> "2""#.to_string(),
            r#"Field 'b': "\"x\"" -> """#.to_string(),
            r#"Field 'a': "1" -> "2""#.to_string(),
            r#"Field 'c': "" -> "true""#.to_string(),
        ]
    );
    assert!(config_diff(Some(r#"{"a":1.0}"#), "v1", Some(r#"{"a":1.0}"#), "v2").unwrap().is_empty());
    assert!(config_diff(Some("[1]"), "v1", Some("{}"), "v2").unwrap().is_empty());
    match config_diff(None, "v1", Some("{}"), "v2") {
        Err(FleetError::EndpointNotFound(id)) => assert_eq!(id, "v1"),
        _ => panic!("expected a missing version"),
    }
    match config_diff(Some("{}"), "v1", None, "v2") {
        Err(FleetError::EndpointNotFound(id)) => assert_eq!(id, "v2"),
        _ => panic!("expected a missing version"),
    }
    assert!(matches!(config_diff(Some("{"), "v1", None, "v2"), Err(FleetError::Serialization(_))));
}

#[test]
fn the_sdk_announces_its_version() {
    assert_eq!(openzax::init(), "OpenZax SDK v0.1.0");
}
