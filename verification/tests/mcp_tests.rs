use openzax::mcp::inspect_next;
use openzax::mcp::mock_reply;
use openzax::mcp::read_reply;
use openzax::mcp::server_command;
use openzax::mcp::InspectPhase;
use openzax::mcp::InspectRequest;
use openzax::mcp::McpReply;
use openzax::mcp::MockReply;
use openzax::mcp::MockResult;
use openzax::mcp::http_status_error;
use openzax::mcp::method_name;
use openzax::mcp::missing_result;
use openzax::mcp::reply_outcome;
use openzax::mcp::HeaderSet;
use openzax::mcp::McpError;
use openzax::mcp::McpOperation;
use openzax::mcp::RequestCounter;
use openzax::mcp::TransportState;

#[test]
fn requests_name_their_methods() {
    assert_eq!(method_name(McpOperation::Initialize), "initialize");
    assert_eq!(method_name(McpOperation::CallTool), "tools/call");
    assert_eq!(method_name(McpOperation::ReadResource), "resources/read");
    assert_eq!(method_name(McpOperation::GetPrompt), "prompts/get");
    assert!(matches!(missing_result(McpOperation::Initialize), McpError::Protocol(m) if m == "No result in response"));
    assert!(matches!(missing_result(McpOperation::ListTools), McpError::Protocol(m) if m == "No result"));
}

#[test]
fn requests_are_numbered_from_one() {
    let mut c = RequestCounter::new();
    assert_eq!(c.next_id(), 1);
    assert_eq!(c.next_id(), 2);
    assert_eq!(c.next_id(), 3);
}

#[test]
fn headers_keep_the_last_value_per_name() {
    let h = HeaderSet::new().with_header("X-A", "1").with_header("X-B", "2").with_header("X-A", "3").with_auth("tok");
    let e: Vec<(String, String)> = h.entries().clone();
    assert_eq!(
        e,
        vec![
            ("X-A".to_string(), "3".to_string()),
            ("X-B".to_string(), "2".to_string()),
            ("Authorization".to_string(), "Bearer tok".to_string()),
        ]
    );
}

#[test]
fn transports_refuse_after_closing() {
    let mut t = TransportState::new();
    assert!(t.check_open().is_ok());
    assert!(t.after_read(10).is_ok());
    assert!(matches!(t.after_read(0), Err(McpError::ConnectionClosed)));
    assert!(!t.connected);
    assert!(matches!(t.check_open(), Err(McpError::ConnectionClosed)));
    let mut u = TransportState::new();
    u.close();
    assert!(u.check_open().is_err());
    assert!(matches!(http_status_error("404 Not Found"), McpError::Transport(m) if m == "HTTP error: 404 Not Found"));
    assert!(reply_outcome(None).is_ok());
    assert!(matches!(
        reply_outcome(Some((-32601, "Method not found".to_string()))),
        Err(McpError::JsonRpc { code: -32601, message }) if message == "Method not found"
    ));
}

fn review(rating: u8) -> openzax::market::Review {
    openzax::market::Review {
        id: 0,
        skill_id: 9,
        reviewer_id: 1,
        rating,
        comment: String::new(),
        created_at: 0,
        is_community_review: false,
    }
}

#[test]
fn ratings_are_tallied() {
    let reviews = vec![review(5), review(4), review(5), review(1)];
    let r = openzax::market::SkillRating::compute(9, &reviews);
    assert_eq!(r.skill_id, 9);
    assert_eq!(r.total_reviews, 4);
    assert_eq!(r.star_sum, 15);
    assert_eq!(r.distribution[5], 2);
    assert_eq!(r.distribution[4], 1);
    assert_eq!(r.distribution[1], 1);
    assert_eq!(r.distribution[3], 0);
    let none = openzax::market::SkillRating::compute(9, &[]);
    assert_eq!(none.total_reviews, 0);
    assert_eq!(none.star_sum, 0);
}

#[test]
fn mock_server_skips_blank_lines_and_the_initialized_notification() {
    assert!(matches!(mock_reply("   ", "srv", "now"), MockReply::Skip));
    assert!(matches!(mock_reply("", "srv", "now"), MockReply::Skip));
    let r = mock_reply(r#"{"jsonrpc":"2.0","method":"notifications/initialized"}"#, "srv", "now");
    assert!(matches!(r, MockReply::Skip));
}

#[test]
fn mock_server_answers_unreadable_lines_with_a_parse_error() {
    match mock_reply("{", "srv", "now") {
        MockReply::Error { id, code, message } => {
            assert!(id.is_none());
            assert_eq!(code, -32700);
            assert!(message.starts_with("Parse error: "));
            assert!(message.len() > "Parse error: ".len());
        },
        _ => panic!("expected a parse error"),
    }
}

#[test]
fn mock_server_answers_unknown_methods_with_a_method_error() {
    match mock_reply(r#"{"jsonrpc":"2.0","id":7,"method":"x"}"#, "srv", "now") {
        MockReply::Error { id, code, message } => {
            assert_eq!(id, Some(serde_json::Value::from(7u64)));
            assert_eq!(code, -32601);
            assert_eq!(message, "Method not found: x");
        },
        _ => panic!("expected a method error"),
    }
    match mock_reply(r#"{"id":8}"#, "srv", "now") {
        MockReply::Error { code, message, .. } => {
            assert_eq!(code, -32601);
            assert_eq!(message, "Method not found: ");
        },
        _ => panic!("expected a method error"),
    }
}

#[test]
fn mock_server_answers_known_requests_with_their_ids() {
    match mock_reply(r#"{"jsonrpc":"2.0","id":1,"method":"initialize"}"#, "srv", "now") {
        MockReply::Result { id, result } => {
            assert_eq!(id, serde_json::Value::from(1u64));
            assert!(matches!(result, MockResult::Initialize));
        },
        _ => panic!("expected a result"),
    }
    match mock_reply(r#"{"id":"a","method":"tools/list"}"#, "srv", "now") {
        MockReply::Result { id, result } => {
            assert_eq!(id, serde_json::Value::from("a"));
            assert!(matches!(result, MockResult::ToolsList));
        },
        _ => panic!("expected a result"),
    }
    match mock_reply(r#"{"method":"resources/list"}"#, "srv", "now") {
        MockReply::Result { id, result } => {
            assert!(id.is_null());
            assert!(matches!(result, MockResult::ResourcesList));
        },
        _ => panic!("expected a result"),
    }
}

#[test]
fn mock_tools_echo_tell_the_time_and_flag_unknown_tools() {
    let echo = r#"{"id":4,"method":"tools/call","params":{"name":"echo","arguments":{"message":"hello"}}}"#;
    assert!(matches!(mock_reply(echo, "srv", "now"), MockReply::Result { result: MockResult::ToolText(t), .. } if t == "hello"));
    let bare = r#"{"id":4,"method":"tools/call","params":{"name":"echo"}}"#;
    assert!(matches!(mock_reply(bare, "srv", "now"), MockReply::Result { result: MockResult::ToolText(t), .. } if t.is_empty()));
    let time = r#"{"id":5,"method":"tools/call","params":{"name":"time"}}"#;
    assert!(matches!(mock_reply(time, "srv", "2024-01-02T03:04:05+00:00"),
        MockReply::Result { result: MockResult::ToolText(t), .. } if t == "2024-01-02T03:04:05+00:00"));
    let other = r#"{"id":6,"method":"tools/call","params":{"name":"nope"}}"#;
    assert!(matches!(mock_reply(other, "srv", "now"), MockReply::Result { result: MockResult::UnknownTool(t), .. } if t == "Unknown tool: nope"));
}

#[test]
fn mock_readme_resource_names_the_server() {
    let read = r#"{"id":9,"method":"resources/read","params":{"uri":"mock://readme"}}"#;
    assert!(matches!(mock_reply(read, "srv", "now"),
        MockReply::Result { result: MockResult::Readme(t), .. } if t == "Mock MCP server 'srv' – OpenZax CLI"));
    let other = r#"{"id":9,"method":"resources/read","params":{"uri":"mock://other"}}"#;
    assert!(matches!(mock_reply(other, "srv", "now"), MockReply::Result { result: MockResult::NoContents, .. }));
}

#[test]
fn server_commands_split_into_program_and_arguments() {
    let (program, args) = server_command("  node  server.js --port 3 ").unwrap();
    assert_eq!(program, "node");
    assert_eq!(args, vec!["server.js".to_string(), "--port".to_string(), "3".to_string()]);
    let (program, args) = server_command("srv").unwrap();
    assert_eq!(program, "srv");
    assert!(args.is_empty());
    assert_eq!(server_command("   ").unwrap_err(), "Empty server command");
    assert_eq!(server_command("").unwrap_err(), "Empty server command");
}

#[test]
fn inspection_walks_through_its_three_requests() {
    let (p, req) = inspect_next(InspectPhase::Start, None);
    assert_eq!(p, InspectPhase::AwaitInit);
    assert_eq!(req, Some(InspectRequest::Initialize));
    let (p, req) = inspect_next(p, Some(McpReply { id: Some(2) }));
    assert_eq!(p, InspectPhase::AwaitInit);
    assert_eq!(req, None);
    let (p, req) = inspect_next(p, None);
    assert_eq!(p, InspectPhase::AwaitInit);
    assert_eq!(req, None);
    let (p, req) = inspect_next(p, Some(McpReply { id: Some(1) }));
    assert_eq!(p, InspectPhase::AwaitTools);
    assert_eq!(req, Some(InspectRequest::InitializedThenToolsList));
    let (p, req) = inspect_next(p, Some(McpReply { id: None }));
    assert_eq!(p, InspectPhase::AwaitTools);
    assert_eq!(req, None);
    let (p, req) = inspect_next(p, Some(McpReply { id: Some(2) }));
    assert_eq!(p, InspectPhase::AwaitResources);
    assert_eq!(req, Some(InspectRequest::ResourcesList));
    let (p, req) = inspect_next(p, Some(McpReply { id: Some(3) }));
    assert_eq!(p, InspectPhase::Done);
    assert_eq!(req, None);
    let (p, req) = inspect_next(p, Some(McpReply { id: Some(1) }));
    assert_eq!(p, InspectPhase::Done);
    assert_eq!(req, None);
}

#[test]
fn server_lines_are_read_by_their_ids() {
    assert!(matches!(read_reply("  "), Ok(None)));
    let (reply, v) = read_reply(r#"{"id":2,"result":{"tools":[]}}"#).unwrap().unwrap();
    assert_eq!(reply, McpReply { id: Some(2) });
    assert!(v["result"]["tools"].is_array());
    let (reply, _) = read_reply(r#"{"id":"x"}"#).unwrap().unwrap();
    assert_eq!(reply, McpReply { id: None });
    let (reply, _) = read_reply(r#"{"id":-1}"#).unwrap().unwrap();
    assert_eq!(reply, McpReply { id: None });
    assert!(read_reply("not json").is_err());
}
