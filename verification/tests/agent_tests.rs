use openzax::agent::api_error_text;
use openzax::agent::args_preview;
use openzax::agent::build_messages;
use openzax::agent::command_output;
use openzax::agent::descends_into;
use openzax::agent::file_pattern_matches;
use openzax::agent::file_read_result;
use openzax::agent::glob_name_matches;
use openzax::agent::remembered_reply;
use openzax::agent::result_preview;
use openzax::agent::retries_without_tools;
use openzax::agent::route_tool;
use openzax::agent::save_to_history;
use openzax::agent::search_hit_line;
use openzax::agent::short_task;
use openzax::agent::stream_line;
use openzax::agent::streaming_api_key;
use openzax::agent::sub_agent_failure;
use openzax::agent::sub_agent_label;
use openzax::agent::sub_agent_refusal;
use openzax::agent::sub_agent_result;
use openzax::agent::system_text;
use openzax::agent::tool_loop_step;
use openzax::agent::trim_history;
use openzax::agent::ChatTurn;
use openzax::agent::StreamLine;
use openzax::agent::ToolCallBuffer;
use openzax::agent::ToolLoopStep;
use openzax::agent::ToolRoute;
use openzax::agent::UserMemory;
use openzax::agent::MAX_HISTORY_MESSAGES;

#[test]
fn stream_lines_are_read() {
    assert!(matches!(stream_line("event: ping"), StreamLine::Skip));
    assert!(matches!(stream_line("data: [DONE]"), StreamLine::Done));
    match stream_line("data: {\"a\":1}") {
        StreamLine::Data(d) => assert_eq!(d, "{\"a\":1}"),
        _ => panic!("expected data"),
    }
}

#[test]
fn tool_call_pieces_gather_in_order() {
    let mut b = ToolCallBuffer::new();
    b.apply(1, Some("call_b"), Some("read_"), Some("{\"pa"));
    b.apply(0, Some("call_a"), Some("list_directory"), Some("{}"));
    b.apply(1, None, Some("file"), Some("th\":\"x\"}"));
    let calls = b.calls();
    assert_eq!(calls.len(), 2);
    assert_eq!(calls[0], ("call_a".to_string(), "list_directory".to_string(), "{}".to_string()));
    assert_eq!(calls[1], ("call_b".to_string(), "read_file".to_string(), "{\"path\":\"x\"}".to_string()));
}

#[test]
fn history_keeps_last_hundred() {
    let mut h: Vec<u32> = (0..130).collect();
    trim_history(&mut h);
    assert_eq!(h.len(), MAX_HISTORY_MESSAGES);
    assert_eq!(h[0], 30);
    assert_eq!(h[99], 129);
    let mut short: Vec<u32> = vec![1, 2, 3];
    trim_history(&mut short);
    assert_eq!(short, vec![1, 2, 3]);
}

#[test]
fn tools_are_routed_by_name() {
    assert_eq!(route_tool("spawn_agent"), ToolRoute::SpawnAgent);
    assert_eq!(route_tool("remember_user"), ToolRoute::RememberUser);
    assert_eq!(route_tool("read_file"), ToolRoute::Builtin);
}

#[test]
fn previews_cut_long_texts() {
    let long = "a".repeat(100);
    assert_eq!(args_preview(&long), format!("{}...", "a".repeat(80)));
    assert_eq!(args_preview("{}"), "{}");
    let task = "t".repeat(61);
    assert_eq!(short_task(&task), format!("{}...", "t".repeat(57)));
    assert_eq!(short_task("short"), "short");
    let result = "r".repeat(501);
    assert_eq!(result_preview(&result), format!("{}...\n[501 chars total]", "r".repeat(500)));
    assert_eq!(result_preview("ok"), "ok");
    let content = "c".repeat(20001);
    assert_eq!(file_read_result(&content), format!("[File truncated to 20000 chars]\n{}", "c".repeat(20000)));
}

#[test]
fn command_output_texts() {
    assert_eq!(command_output("", "", Some(0)), "Command completed with exit code 0");
    assert_eq!(command_output("", "", None), "Command completed with exit code -1");
    assert_eq!(command_output("out", "", Some(1)), "out");
    assert_eq!(command_output("", "bad", Some(2)), "STDERR: bad");
    assert_eq!(command_output("out", "bad", Some(2)), "out\nSTDERR: bad");
}

#[test]
fn glob_patterns_match_names() {
    assert!(glob_name_matches("*.rs", "main.rs"));
    assert!(!glob_name_matches("*.rs", "main.py"));
    assert!(glob_name_matches("**/*.toml", "Cargo.toml"));
    assert!(glob_name_matches("*", "anything"));
    assert!(glob_name_matches("mai", "main.rs"));
    assert!(!glob_name_matches("lib", "main.rs"));
    assert!(descends_into("src"));
    assert!(!descends_into(".git"));
    assert!(!descends_into("node_modules"));
    assert!(!descends_into("target"));
    assert!(file_pattern_matches(None, "x.txt"));
    assert!(file_pattern_matches(Some("**/*.rs"), "a.rs"));
    assert!(!file_pattern_matches(Some("*.rs"), "a.txt"));
    assert_eq!(search_hit_line("src/a.rs", 3, "   let x = 1;  "), "src/a.rs:3:let x = 1;");
}

#[test]
fn history_records_exchanges() {
    let mut h: Vec<ChatTurn> = Vec::new();
    save_to_history(&mut h, "hi", "hello");
    save_to_history(&mut h, "again", "");
    assert_eq!(h.len(), 3);
    assert_eq!(h[0].role, "user");
    assert_eq!(h[1].role, "assistant");
    assert_eq!(h[1].content, "hello");
    assert_eq!(h[2].content, "again");
    for i in 0..60 {
        save_to_history(&mut h, &format!("u{}", i), "a");
    }
    assert_eq!(h.len(), 100);
    assert_eq!(h[99].content, "a");
}

#[test]
fn memory_replaces_and_orders() {
    let mut m = UserMemory::new();
    assert!(m.is_empty());
    m.remember("name", "Ann");
    m.remember("lang", "Rust");
    m.remember("name", "Bo");
    let e = m.entry_list();
    assert_eq!(e, vec![("name".to_string(), "Bo".to_string()), ("lang".to_string(), "Rust".to_string())]);
    assert_eq!(
        system_text(Some("Base"), &m),
        "Base\n\n## User Profile (remembered across sessions)\n- name: Bo\n- lang: Rust\n"
    );
    assert_eq!(system_text(None, &UserMemory::new()), "");
}

#[test]
fn messages_are_built_around_history() {
    let m = UserMemory::new();
    let history = vec![ChatTurn::new("user", "q1"), ChatTurn::new("assistant", "a1")];
    let msgs = build_messages(Some("sys"), &m, &history, "q2");
    assert_eq!(msgs.len(), 4);
    assert_eq!(msgs[0].role, "system");
    assert_eq!(msgs[0].content, "sys");
    assert_eq!(msgs[3].role, "user");
    assert_eq!(msgs[3].content, "q2");
    let bare = build_messages(None, &m, &[], "q");
    assert_eq!(bare.len(), 1);
}

#[test]
fn request_decisions() {
    assert_eq!(streaming_api_key(Some("k")).unwrap(), "k");
    assert!(streaming_api_key(Some("")).is_err());
    assert_eq!(
        streaming_api_key(None).unwrap_err(),
        "No API key set. Get a FREE key at https://openrouter.ai/keys then use /connect to add it"
    );
    assert_eq!(
        api_error_text(401, "401 Unauthorized", "x"),
        "Invalid API key (401 Unauthorized). Check your key at https://openrouter.ai/keys and re-enter it with /connect"
    );
    assert_eq!(api_error_text(500, "500 Internal Server Error", "boom"), "LLM API error (500 Internal Server Error): boom");
    assert!(!retries_without_tools("LLM API error (401 Unauthorized)"));
    assert!(retries_without_tools("timeout"));
    assert_eq!(tool_loop_step(0, 8, false), ToolLoopStep::Answer);
    assert_eq!(tool_loop_step(0, 8, true), ToolLoopStep::RunToolsThenAsk);
    assert_eq!(tool_loop_step(7, 8, true), ToolLoopStep::RunToolsThenStop);
    assert_eq!(remembered_reply("k", "v"), "Remembered: k = v");
}

#[test]
fn sub_agent_texts() {
    assert_eq!(sub_agent_refusal("", Some("k")).unwrap(), "Error: task description is required");
    assert_eq!(sub_agent_refusal("t", None).unwrap(), "Error: no API key configured");
    assert!(sub_agent_refusal("t", Some("k")).is_none());
    assert_eq!(sub_agent_label(0, "do it"), "[Agent #1] do it");
    assert_eq!(sub_agent_result(2, ""), "Agent #3 completed but returned no response");
    assert_eq!(sub_agent_result(2, "done"), "done");
    assert_eq!(sub_agent_failure(0, "x"), "Agent #1 error: x");
}

#[test]
fn the_agent_offers_its_eleven_tools() {
    let tools = openzax::agent::builtin_tools();
    let names: Vec<&str> = tools.iter().map(|t| t.name).collect();
    assert_eq!(
        names,
        vec![
            "read_file", "write_file", "list_directory", "execute_command", "delete_file", "create_directory",
            "move_file", "search_files", "search_text", "spawn_agent", "remember_user"
        ]
    );
    assert!(tools[2].params.iter().all(|p| !p.required));
    assert_eq!(tools[6].params.len(), 2);
    assert!(tools[6].params.iter().all(|p| p.required));
    assert_eq!(tools[8].params[2].name, "file_pattern");
    assert_eq!(tools[0].description, "Read the contents of a file from the filesystem");
}

#[test]
fn searches_stop_at_their_limits_and_report_what_they_found() {
    use_walk();
}

fn use_walk() {
    assert!(openzax::agent::walk_enters(0));
    assert!(openzax::agent::walk_enters(10));
    assert!(!openzax::agent::walk_enters(11));
    assert!(!openzax::agent::walk_full(openzax::agent::WalkKind::Files, 99));
    assert!(openzax::agent::walk_full(openzax::agent::WalkKind::Files, 100));
    assert!(!openzax::agent::walk_full(openzax::agent::WalkKind::Text, 49));
    assert!(openzax::agent::walk_full(openzax::agent::WalkKind::Text, 50));
    assert_eq!(openzax::agent::file_walk_step("*.rs", "src", true), openzax::agent::WalkStep::Descend);
    assert_eq!(openzax::agent::file_walk_step("*.rs", "target", true), openzax::agent::WalkStep::Pass);
    assert_eq!(openzax::agent::file_walk_step("*.rs", ".git", true), openzax::agent::WalkStep::Pass);
    assert_eq!(openzax::agent::file_walk_step("*.rs", "main.rs", false), openzax::agent::WalkStep::Take);
    assert_eq!(openzax::agent::file_walk_step("*.rs", "main.py", false), openzax::agent::WalkStep::Pass);
    assert_eq!(openzax::agent::text_walk_step(None, "any.txt", false), openzax::agent::WalkStep::Take);
    assert_eq!(openzax::agent::text_walk_step(Some("*.md"), "a.rs", false), openzax::agent::WalkStep::Pass);
    assert_eq!(
        openzax::agent::walk_report(openzax::agent::WalkKind::Files, "*.rs", ".", &[]),
        "No files matching '*.rs' found in '.'"
    );
    assert_eq!(openzax::agent::walk_report(openzax::agent::WalkKind::Text, "fn", "src", &[]), "No matches for 'fn' in 'src'");
    let found = vec!["a.rs".to_string(), "b.rs".to_string()];
    assert_eq!(openzax::agent::walk_report(openzax::agent::WalkKind::Files, "*.rs", ".", &found), "a.rs\nb.rs");
}
