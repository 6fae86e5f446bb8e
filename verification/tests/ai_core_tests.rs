use openzax::context::ContextAssembler;
use openzax::context::ContextCompressor;
use openzax::context::ContextWindow;
use openzax::context::Message;
use openzax::delegation::join_backoff;
use openzax::delegation::AgentBudget;
use openzax::delegation::AgentSpawner;
use openzax::delegation::AgentStatus;
use openzax::delegation::BudgetEnforcer;
use openzax::delegation::DelegationError;
use openzax::deterministic::DeterministicConfig;
use openzax::deterministic::SeededRng;
use openzax::selfhealing::healing_step;
use openzax::selfhealing::ErrorClass;
use openzax::selfhealing::ErrorClassifier;
use openzax::selfhealing::FallbackStrategy;
use openzax::selfhealing::HealingError;
use openzax::selfhealing::HealingStep;

#[test]
fn token_estimates_round_up() {
    assert_eq!(ContextCompressor::estimate_tokens(""), 0);
    assert_eq!(ContextCompressor::estimate_tokens("abcd"), 1);
    assert_eq!(ContextCompressor::estimate_tokens("abcde"), 2);
    let m = Message::user("hello world!");
    assert_eq!(m.role, "user");
    assert_eq!(m.token_count, 3);
    assert_eq!(Message::system("s").role, "system");
    assert_eq!(Message::assistant("a").role, "assistant");
}

#[test]
fn window_counts_tokens() {
    let mut w = ContextWindow::new(10);
    assert_eq!(w.remaining_tokens(), 10);
    ContextCompressor::add_message(&mut w, Message::user("abcdefgh"));
    assert_eq!(w.used_tokens, 2);
    assert_eq!(w.remaining_tokens(), 8);
    assert_eq!(w.messages.len(), 1);
    let msgs = vec![Message::user("abcd"), Message::user("abcdefgh")];
    assert_eq!(ContextAssembler::total_tokens(&msgs), 3);
    assert!(ContextAssembler::fits_in_window(&msgs, 3));
    assert!(!ContextAssembler::fits_in_window(&msgs, 2));
}

#[test]
fn sliding_window_keeps_system_prompt() {
    let mut w = ContextWindow::new(1000);
    ContextCompressor::add_message(&mut w, Message::system("sys"));
    for i in 0..6 {
        ContextCompressor::add_message(&mut w, Message::user(&format!("m{}", i)));
    }
    ContextCompressor::sliding_window(&mut w, 2);
    assert_eq!(w.messages.len(), 3);
    assert_eq!(w.messages[0].role, "system");
    assert_eq!(w.messages[1].content, "m4");
    assert_eq!(w.messages[2].content, "m5");
}

#[test]
fn assembly_puts_task_last() {
    let history = vec![Message::user("old"), Message::assistant("reply")];
    let out = ContextAssembler::assemble("sys", &history, &[], "task", 1000);
    assert_eq!(out.len(), 4);
    assert_eq!(out[0].role, "system");
    assert_eq!(out[1].content, "old");
    assert_eq!(out[3].content, "task");
}

#[test]
fn budgets_refuse_overspending() {
    let b = AgentBudget::new(100, 60, 2, 512, 1000);
    assert!(BudgetEnforcer::check_token_budget(&b, 100).is_ok());
    match BudgetEnforcer::check_token_budget(&b, 101) {
        Err(DelegationError::BudgetExhausted(m)) => assert_eq!(m, "Token budget exceeded: 0/100 (need 101 more)"),
        _ => panic!("expected a refusal"),
    }
    let mut b2 = AgentBudget::new(100, 60, 1, 512, 1000);
    assert!(BudgetEnforcer::consume_tool_call(&mut b2).is_ok());
    match BudgetEnforcer::check_tool_call(&b2) {
        Err(DelegationError::BudgetExhausted(m)) => assert_eq!(m, "Tool call budget exceeded: 1/1"),
        _ => panic!("expected a refusal"),
    }
    assert!(BudgetEnforcer::consume_tokens(&mut b2, 40).is_ok());
    assert_eq!(b2.current_tokens, 40);
    assert_eq!(b.time_remaining_after(20), 40);
    assert_eq!(b.time_remaining_after(90), 0);
    assert!(BudgetEnforcer::is_exhausted_after(&b, 60));
    assert!(!BudgetEnforcer::is_exhausted_after(&b, 10));
    assert!(b.time_remaining() <= 60);
}

#[test]
fn spawner_tracks_agents() {
    let mut s = AgentSpawner::new();
    let h = s
        .spawn("t", AgentBudget::new(100, 60, 5, 1, 1), vec!["read".to_string()], None)
        .unwrap();
    let id = h.agent_id;
    assert!(matches!(h.status, AgentStatus::Running));
    assert!(s.poll_join(id).is_none());
    assert!(s.update_budget_tokens(id, 50).is_ok());
    assert!(s.update_budget_tokens(id, 60).is_err());
    assert!(s.fail_agent(id, "bad").is_ok());
    match s.poll_join(id) {
        Some(Err(DelegationError::BudgetExhausted(m))) => assert_eq!(m, "bad"),
        _ => panic!("expected the failure"),
    }
    assert!(matches!(s.complete_agent(id, serde_json::Value::Null), Err(DelegationError::AlreadyCompleted)));
    assert!(matches!(s.kill(7, "x"), Err(DelegationError::AgentNotFound(7))));
    assert_eq!(join_backoff(100), 200);
    assert_eq!(join_backoff(1500), 2000);
}

#[test]
fn completed_agents_hand_back_results() {
    let mut s = AgentSpawner::new();
    let h = s.spawn("t", AgentBudget::new(10, 10, 1, 1, 1), vec![], None).unwrap();
    s.complete_agent(h.agent_id, serde_json::Value::Bool(true)).unwrap();
    match s.poll_join(h.agent_id) {
        Some(Ok(v)) => assert_eq!(v, &serde_json::Value::Bool(true)),
        _ => panic!("expected the result"),
    }
    let tree = s.get_agent_tree();
    assert_eq!(tree.agent_id, h.agent_id);
    assert_eq!(tree.task, "t");
}

#[test]
fn seeded_rng_is_deterministic() {
    let mut r = SeededRng::new(42);
    assert_eq!(r.next_u64(), 10481999410520546993);
    assert_eq!(r.next_u64(), 4159066171780167020);
    let mut r2 = SeededRng::new(42);
    assert_eq!(r2.next_u32(), 2440530669);
    let mut r3 = SeededRng::new(7);
    for _ in 0..20 {
        let x = r3.next_range(5, 9);
        assert!((5..9).contains(&x));
    }
    assert_eq!(r3.next_range(4, 4), 4);
    let mut v = vec![1, 2, 3, 4, 5, 6];
    let mut a = SeededRng::new(9);
    a.shuffle(&mut v);
    let mut w = vec![1, 2, 3, 4, 5, 6];
    let mut b = SeededRng::new(9);
    b.shuffle(&mut w);
    assert_eq!(v, w);
    let mut sorted = v.clone();
    sorted.sort();
    assert_eq!(sorted, vec![1, 2, 3, 4, 5, 6]);
    let c = DeterministicConfig::recording(5, "/tmp/r.json");
    assert_eq!(c.record_to_file, Some("/tmp/r.json".to_string()));
    assert!(c.replay_from_file.is_none());
    let c2 = DeterministicConfig::replaying(5, "/tmp/r.json");
    assert!(c2.record_to_file.is_none());
    assert_eq!(c2.seed, 5);
}

#[test]
fn errors_are_classified() {
    assert_eq!(ErrorClassifier::classify("HTTP 429 Too Many Requests"), ErrorClass::RateLimited);
    assert_eq!(ErrorClassifier::classify("Unauthorized"), ErrorClass::AuthFailure);
    assert_eq!(ErrorClassifier::classify("connection reset"), ErrorClass::Transient);
    assert_eq!(ErrorClassifier::classify("Out of memory"), ErrorClass::ResourceExhausted);
    assert_eq!(ErrorClassifier::classify("parse error at 3"), ErrorClass::InvalidInput);
    assert_eq!(ErrorClassifier::classify("FATAL"), ErrorClass::Unrecoverable);
    assert_eq!(ErrorClassifier::classify("something odd"), ErrorClass::Transient);
    assert_eq!(ErrorClassifier::suggest_fallback(&ErrorClass::ResourceExhausted, 1), FallbackStrategy::SwitchModel);
    assert_eq!(ErrorClassifier::suggest_fallback(&ErrorClass::ResourceExhausted, 2), FallbackStrategy::AskUser);
    assert_eq!(ErrorClassifier::suggest_fallback(&ErrorClass::InvalidInput, 0), FallbackStrategy::SkipStep);
    assert!(ErrorClassifier::is_retryable(&ErrorClass::RateLimited));
    assert!(!ErrorClassifier::is_retryable(&ErrorClass::AuthFailure));
}

#[test]
fn healing_steps() {
    assert!(matches!(healing_step("timeout", 0, 3), HealingStep::Retry));
    assert!(matches!(healing_step("timeout", 3, 3), HealingStep::GiveUp(HealingError::MaxRetriesExceeded(4))));
    match healing_step("fatal crash", 0, 3) {
        HealingStep::GiveUp(HealingError::Unrecoverable(m)) => assert_eq!(m, "fatal crash"),
        _ => panic!("expected to give up"),
    }
    match healing_step("403 forbidden", 0, 3) {
        HealingStep::GiveUp(HealingError::Unrecoverable(m)) => assert_eq!(m, "Requires user intervention: 403 forbidden"),
        _ => panic!("expected to ask the user"),
    }
    match healing_step("bad request", 0, 3) {
        HealingStep::GiveUp(HealingError::Unrecoverable(m)) => assert_eq!(m, "Step skipped due to: bad request"),
        _ => panic!("expected to skip"),
    }
}

use openzax::deterministic::DeterministicError;
use openzax::deterministic::ExecutionReplayer;
use openzax::deterministic::LlmCallRecord;
use openzax::deterministic::RecordEntry;
use openzax::deterministic::ToolCallRecord;

fn tool(name: &str, params: serde_json::Value, result: serde_json::Value) -> ToolCallRecord {
    ToolCallRecord { call_id: 1, tool_name: name.to_string(), parameters: params, result, timestamp: 0, duration_ms: 3 }
}

#[test]
fn replays_follow_recorded_order() {
    let p = serde_json::Value::String("x".to_string());
    let entries = vec![
        RecordEntry::ToolCall(tool("read", p.clone(), serde_json::Value::String("first".to_string()))),
        RecordEntry::ToolCall(tool("read", p.clone(), serde_json::Value::String("second".to_string()))),
        RecordEntry::LlmCall(LlmCallRecord {
            call_id: 2,
            prompt_hash: "h1".to_string(),
            seed: 0,
            response: "answer".to_string(),
            timestamp: 0,
        }),
    ];
    let mut r = ExecutionReplayer::from_entries(entries);
    assert_eq!(r.replay_tool_call("read", &p).unwrap(), serde_json::Value::String("first".to_string()));
    assert_eq!(r.replay_tool_call("read", &p).unwrap(), serde_json::Value::String("second".to_string()));
    assert_eq!(r.replay_tool_call("read", &p).unwrap(), serde_json::Value::String("second".to_string()));
    match r.replay_tool_call("write", &serde_json::Value::Null) {
        Err(DeterministicError::NotFound(m)) => assert_eq!(m, "write(Null)"),
        _ => panic!("expected no recording"),
    }
    assert_eq!(r.replay_llm_call("h1"), Some("answer"));
    assert_eq!(r.replay_llm_call("h2"), None);
    assert_eq!(r.get_all_tool_calls().len(), 2);
}

#[test]
fn replays_report_discrepancies() {
    let r = ExecutionReplayer::from_entries(vec![]);
    let a = vec![tool("t", serde_json::Value::Null, serde_json::Value::Bool(true))];
    let b = vec![tool("t", serde_json::Value::Null, serde_json::Value::Bool(false))];
    let d = r.verify_replay(&a, &b);
    assert_eq!(d.len(), 1);
    assert_eq!(d[0].field, "result");
    assert!(r.verify_replay(&a, &a).is_empty());
    let longer = r.verify_replay(&a, &[]);
    assert_eq!(longer.len(), 1);
    assert_eq!(longer[0].field, "call_count");
}

#[test]
fn assembly_keeps_system_first_when_the_task_is_too_long() {
    let history = vec![Message::user("old"), Message::assistant("reply")];
    let task = "x".repeat(4000);
    let out = ContextAssembler::assemble("sys", &history, &[], &task, 40);
    assert_eq!(out[0].role, "system");
    assert_eq!(out[0].content, "sys");
    assert_eq!(out.len(), 3);
    assert_eq!(out[1].content, "old");
    assert_eq!(out[2].content, "reply");
}

#[test]
fn generators_with_one_seed_shuffle_alike() {
    let mut a = SeededRng::new(2024);
    let mut b = SeededRng::new(2024);
    let mut nums = [0u32, 1, 2, 3, 4, 5, 6, 7];
    let mut words = ["a", "b", "c", "d", "e", "f", "g", "h"];
    a.shuffle(&mut nums);
    b.shuffle(&mut words);
    let from_nums: Vec<&str> = nums.iter().map(|&k| ["a", "b", "c", "d", "e", "f", "g", "h"][k as usize]).collect();
    assert_eq!(from_nums, words.to_vec());
    assert_eq!(a.next_u64(), b.next_u64());
    assert_eq!(a.next_u32(), b.next_u32());
    assert_eq!(a.next_range(3, 17), b.next_range(3, 17));
}
