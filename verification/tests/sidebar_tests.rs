use openzax::agent::SubAgentStatus;
use openzax::sidebar::first_chars;
use openzax::sidebar::shorten_cwd;
use openzax::sidebar::sidebar_lines;

#[test]
fn the_sidebar_lists_session_agents_memory_and_update() {
    let subs = vec![
        SubAgentStatus { task: "Write the parser for the config format".to_string(), done: true },
        SubAgentStatus { task: "tests".to_string(), done: false },
    ];
    let memory: Vec<(String, String)> = (1..=7).map(|k| (format!("k{}", k), "a value that is rather long".to_string())).collect();
    let lines = sidebar_lines(
        Some("Please build me a small web server"),
        "/home/user/projects/openzax/crates/cli",
        42,
        "deepseek-r1",
        "OpenRouter",
        "Build",
        "Normal",
        &subs,
        &memory,
        Some("v0.1.0 → v0.2.0 available"),
        "0.1.0",
    );
    let expected: Vec<&str> = vec![
        "Please build me a sm",
        "",
        "Context",
        "  42s elapsed",
        "  $0.00 (free)",
        "",
        "Model",
        "  deepseek-r1",
        "  OpenRouter",
        "",
        "Session",
        "  Build · Normal",
        "  ...ects/openzax/crates/cli",
        "",
        "Agents (1/2)",
        "  ✓ #1 Write the parser for t",
        "  … #2 tests",
        "",
        "Memory",
        "  k1: a value that is ra",
        "  k2: a value that is ra",
        "  k3: a value that is ra",
        "  k4: a value that is ra",
        "  k5: a value that is ra",
        "",
        "Free API keys",
        "  openrouter.ai/keys",
        "  console.groq.com",
        "  cloud.cerebras.ai",
        "",
        "★ Update Available",
        "  v0.1.0 → v0.1.0 → v0.2.0 available",
        "  openzax upgrade",
    ];
    assert_eq!(lines, expected);
}

#[test]
fn an_empty_session_has_a_plain_sidebar() {
    let lines = sidebar_lines(None, "/tmp", 0, "m", "p", "Plan", "Max", &[], &[], None, "0.1.0");
    assert_eq!(lines[0], "New session");
    assert_eq!(lines[12], "  /tmp");
    assert_eq!(lines.len(), 18);
    assert_eq!(lines[13], "");
    assert_eq!(lines[14], "Free API keys");
}

#[test]
fn long_directories_keep_their_last_bytes() {
    assert_eq!(shorten_cwd("/a/b"), "/a/b");
    assert_eq!(shorten_cwd("abcdefghijklmnopqrstuvwxyz"), "abcdefghijklmnopqrstuvwxyz");
    assert_eq!(shorten_cwd("abcdefghijklmnopqrstuvwxyz0"), "...efghijklmnopqrstuvwxyz0");
    assert_eq!(first_chars("héllo", 2), "hé");
    assert_eq!(first_chars("hi", 5), "hi");
}
