use openzax::cli::input_height;
use openzax::cli::mask_key;
use openzax::cli::model_short_name;
use openzax::cli::popup_rect;
use openzax::cli::slash_command;
use openzax::cli::InputLine;
use openzax::cli::SlashCommand;
use openzax::llm::capability_list;
use openzax::llm::select_candidates;
use openzax::llm::LlmError;
use openzax::llm::ModelCapability;
use openzax::llm::ModelInfo;
use openzax::llm::ModelProvider as EngineProvider;
use openzax::routing::local_preference_tenths;
use openzax::routing::matched_capabilities;
use openzax::routing::meets_requirements;
use openzax::routing::AvailabilityTable;
use openzax::routing::Capability;
use openzax::routing::ModelProvider;

#[test]
fn input_line_edits() {
    let mut l = InputLine::new();
    l.insert('a');
    l.insert('c');
    l.left();
    l.insert('b');
    assert_eq!(l.text(), "abc");
    assert_eq!(l.cursor(), 2);
    l.backspace();
    assert_eq!(l.text(), "ac");
    l.right();
    l.right();
    assert_eq!(l.cursor(), 2);
    l.insert('é');
    assert_eq!(l.text(), "acé");
    assert_eq!(l.take(), "acé");
    assert_eq!(l.text(), "");
    assert_eq!(l.cursor(), 0);
    l.backspace();
    l.left();
    assert_eq!(l.cursor(), 0);
}

#[test]
fn insert_then_backspace_restores() {
    let mut l = InputLine::new();
    l.insert('x');
    l.insert('y');
    l.left();
    l.insert('z');
    l.backspace();
    assert_eq!(l.text(), "xy");
    assert_eq!(l.cursor(), 1);
}

#[test]
fn input_box_height() {
    assert_eq!(input_height("", 80), 5);
    assert_eq!(input_height("hello", 6), 5);
    assert_eq!(input_height("hello", 80), 5);
    assert_eq!(input_height("a\nb\nc\nd", 80), 6);
    assert_eq!(input_height(&"x".repeat(100), 16), 12);
    assert_eq!(input_height(&"x".repeat(35), 16), 6);
}

#[test]
fn keys_are_masked() {
    assert_eq!(mask_key("short"), "****");
    assert_eq!(mask_key("sk-or-v1-abcdef123456"), "sk-or...3456");
}

#[test]
fn short_names_drop_path_and_free_tag() {
    assert_eq!(model_short_name("deepseek/deepseek-r1-0528:free"), "deepseek-r1-0528");
    assert_eq!(model_short_name("plain"), "plain");
    assert_eq!(model_short_name("a/b:free:free"), "b");
}

#[test]
fn popups_are_centred() {
    assert_eq!(popup_rect(100, 40, 60, 20), (20, 10, 60, 20));
    assert_eq!(popup_rect(30, 10, 60, 20), (2, 1, 26, 8));
    assert_eq!(popup_rect(3, 1, 60, 20), (1, 0, 0, 0));
}

#[test]
fn slash_commands_are_recognised() {
    assert_eq!(slash_command(" /help "), Some(SlashCommand::Help));
    assert_eq!(slash_command("/new"), Some(SlashCommand::Clear));
    assert_eq!(slash_command("/model"), Some(SlashCommand::Model));
    assert_eq!(slash_command("/q"), Some(SlashCommand::Exit));
    assert_eq!(slash_command("/keys"), Some(SlashCommand::Connect));
    assert_eq!(slash_command("/unknown"), None);
    assert_eq!(slash_command("hello"), None);
}

#[test]
fn providers_and_capabilities() {
    assert_eq!(ModelProvider::OpenAI.as_str(), "openai");
    let custom = ModelProvider::Custom { name: "acme".to_string(), base_url: "http://x".to_string() };
    assert_eq!(custom.as_str(), "custom:acme");
    assert!(ModelProvider::Local.is_local());
    assert!(!custom.is_local());
    let offered = [Capability::Coding, Capability::Math];
    assert_eq!(matched_capabilities(&[Capability::Coding, Capability::Creative], &offered), 1);
    assert!(meets_requirements(true, 8000, &offered, 100, 4000, &[Capability::Math], Some(200)));
    assert!(!meets_requirements(false, 8000, &offered, 100, 4000, &[], None));
    assert!(!meets_requirements(true, 1000, &offered, 100, 4000, &[], None));
    assert!(!meets_requirements(true, 8000, &offered, 100, 4000, &[Capability::Creative], None));
    assert!(!meets_requirements(true, 8000, &offered, 300, 4000, &[], Some(200)));
    assert_eq!(local_preference_tenths(true, true), 10);
    assert_eq!(local_preference_tenths(false, true), 5);
    assert_eq!(local_preference_tenths(true, false), 0);
}

#[test]
fn availability_switches() {
    let mut t = AvailabilityTable::new();
    assert!(t.is_available("m1"));
    t.set("m1", false);
    assert!(!t.is_available("m1"));
    assert!(t.is_available("m2"));
    t.set("m1", true);
    assert!(t.is_available("m1"));
    t.set("m1", false);
    t.remove("m1");
    assert!(t.is_available("m1"));
}

fn info(id: &str, ctx: usize, caps: Vec<ModelCapability>) -> ModelInfo {
    ModelInfo {
        id: id.to_string(),
        name: id.to_string(),
        provider: EngineProvider::Local,
        context_window: ctx,
        capabilities: caps,
        size_bytes: None,
        quantization: None,
        is_local: true,
        path: None,
    }
}

#[test]
fn candidates_are_selected() {
    let models = vec![
        info("fast-model", 2048, vec![ModelCapability::Chat]),
        info("large-model", 8192, vec![ModelCapability::Chat, ModelCapability::Code]),
    ];
    assert_eq!(select_candidates(&models, &[ModelCapability::Chat], 1000).unwrap(), vec![0, 1]);
    assert_eq!(select_candidates(&models, &[ModelCapability::Code], 1000).unwrap(), vec![1]);
    match select_candidates(&models, &[ModelCapability::Vision, ModelCapability::Code], 1000) {
        Err(LlmError::ModelNotFound(m)) => assert_eq!(m, "No model found matching requirements: [Vision, Code]"),
        _ => panic!("expected no model"),
    }
    match select_candidates(&[], &[], 1) {
        Err(LlmError::ModelNotFound(m)) => assert_eq!(m, "No models registered"),
        _ => panic!("expected no model"),
    }
    assert_eq!(capability_list(&[]), "[]");
    assert!(models[1].supports_capability(ModelCapability::Code));
    assert!(!models[0].supports_capability(ModelCapability::Code));
}

use openzax::llm::model_info_from_file;
use openzax::llm::LocalModelManager;

#[test]
fn model_files_are_read() {
    let m = model_info_from_file("llama-3.3-70b-q4_k_m", 42, "/models/llama-3.3-70b-q4_k_m.gguf");
    assert_eq!(m.id, "llama-3.3-70b-q4_k_m");
    assert_eq!(m.name, "llama 3.3 70b q4_k_m");
    assert_eq!(m.quantization, Some("q4_k_m".to_string()));
    assert_eq!(m.context_window, 4096);
    assert_eq!(m.capabilities, vec![ModelCapability::Chat, ModelCapability::Code]);
    assert_eq!(m.size_bytes, Some(42));
    assert!(m.is_local);
    let plain = model_info_from_file("mistral-7b", 1, "p");
    assert_eq!(plain.quantization, None);
    let mgr = LocalModelManager::new("/tmp/openzax-test-models");
    assert_eq!(mgr.get_models_dir(), "/tmp/openzax-test-models");
}

use openzax::cli::package_findings;
use openzax::cli::permission_icon;
use openzax::cli::urlencoding;
use openzax::cli::ManifestFields;
use openzax::cli::ManifestRead;
use openzax::cli::WasmEntry;

#[test]
fn queries_are_percent_encoded() {
    assert_eq!(urlencoding("code review"), "code%20review");
    assert_eq!(urlencoding("a-b_c.d~e"), "a-b_c.d~e");
    assert_eq!(urlencoding("x/y?"), "x%2Fy%3F");
    assert_eq!(urlencoding("é"), "é");
}

#[test]
fn permission_marks() {
    assert_eq!(permission_icon("net:api.example.com"), "[net]");
    assert_eq!(permission_icon("http:get"), "[net]");
    assert_eq!(permission_icon("fs:read"), "[fs]");
    assert_eq!(permission_icon("env:HOME"), "[key]");
}

#[test]
fn packages_are_checked() {
    let good = ManifestRead::Fields(ManifestFields {
        name: Some("n".to_string()),
        version: Some("1".to_string()),
        description: Some("d".to_string()),
        author: Some("a".to_string()),
        has_permissions: true,
    });
    let wasm = Some(WasmEntry { header: b"\0asm\x01\0\0\0".to_vec(), size: 8 });
    let (e, w) = package_findings(&good, &wasm);
    assert!(e.is_empty() && w.is_empty());
    let partial = ManifestRead::Fields(ManifestFields {
        name: Some(String::new()),
        version: None,
        description: Some("d".to_string()),
        author: Some("a".to_string()),
        has_permissions: false,
    });
    let bad_wasm = Some(WasmEntry { header: b"abcd".to_vec(), size: 4 });
    let (e, w) = package_findings(&partial, &bad_wasm);
    assert_eq!(
        e,
        vec![
            "package manifest missing required field: name".to_string(),
            "package manifest missing required field: version".to_string(),
            "skill.wasm is too small to be a valid WASM module".to_string(),
        ]
    );
    assert_eq!(w, vec!["package manifest: 'permissions' field missing (defaulting to empty)".to_string()]);
    let (e, _) = package_findings(&ManifestRead::Missing, &None);
    assert_eq!(e, vec!["Missing package manifest".to_string(), "Missing skill.wasm".to_string()]);
    let wrong = Some(WasmEntry { header: b"XXXXXXXX".to_vec(), size: 100 });
    let (e, _) = package_findings(&ManifestRead::Invalid("eof".to_string()), &wrong);
    assert_eq!(
        e,
        vec!["package manifest is not valid JSON: eof".to_string(), "skill.wasm has invalid WASM magic bytes".to_string()]
    );
}
