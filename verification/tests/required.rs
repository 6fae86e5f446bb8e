use openzax::mcp::McpClientConfig;
use openzax::VERSION;

#[test]
fn test_config_defaults() {
    let config = McpClientConfig::default();
    assert_eq!(config.client_name, "OpenZax");
    assert_eq!(config.protocol_version, "2024-11-05");
    assert_eq!(config.timeout_ms, 30000);
}

#[test]
fn test_version() {
    assert!(!VERSION.is_empty());
}
