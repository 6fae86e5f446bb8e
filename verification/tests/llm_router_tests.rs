use openzax::llm::LlmError;
use openzax::llm::ModelCapability;
use openzax::llm::ModelInfo;
use openzax::llm::ModelProvider;
use openzax::llm::ModelRouter;

fn model(id: &str, name: &str, ctx: usize, caps: Vec<ModelCapability>) -> ModelInfo {
    ModelInfo {
        id: id.to_string(),
        name: name.to_string(),
        provider: ModelProvider::Local,
        context_window: ctx,
        capabilities: caps,
        size_bytes: None,
        quantization: None,
        is_local: true,
        path: None,
    }
}

#[test]
fn test_model_registration() {
    let mut router = ModelRouter::new();
    router.register_model(model("test-model", "Test Model", 4096, vec![ModelCapability::Chat]));
    let retrieved = router.get_model("test-model").unwrap();
    assert_eq!(retrieved.id, "test-model");
}

#[test]
fn test_model_selection() {
    let mut router = ModelRouter::new();
    router.register_model(model("fast-model", "Fast Model", 2048, vec![ModelCapability::Chat]));
    router.register_model(model("large-model", "Large Model", 8192, vec![ModelCapability::Chat, ModelCapability::Code]));
    let candidates = router.candidates(&[ModelCapability::Chat], 1000).unwrap();
    for i in candidates {
        let selected = &router.list_models()[i];
        assert!(selected.context_window >= 1000);
    }
}

#[test]
fn registering_replaces_and_removing_forgets() {
    let mut router = ModelRouter::new();
    router.register_model(model("m", "First", 1024, vec![]));
    router.register_model(model("m", "Second", 2048, vec![]));
    assert_eq!(router.list_models().len(), 1);
    assert_eq!(router.get_model("m").unwrap().name, "Second");
    assert!(router.unregister_model("m").is_ok());
    assert!(matches!(router.get_model("m"), Err(LlmError::ModelNotFound(id)) if id == "m"));
    assert!(matches!(router.unregister_model("m"), Err(LlmError::ModelNotFound(id)) if id == "m"));
    assert!(matches!(router.candidates(&[], 10), Err(LlmError::ModelNotFound(m)) if m == "No models registered"));
}
