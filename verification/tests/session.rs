use atlas::agent::json::{Json, JsonNumber};
use atlas::agent::protocol::{ToolCall, ToolResult};
use atlas::agent::response::AgentResponse;
use atlas::agent::session::{generate_session_id, AgentSession};
use atlas::agent::types::{
    AgentConfig, AgentState, AgentStep, AgentStopReason, ThinkingPhase, TokenUsage,
};

fn minimal_config() -> AgentConfig {
    AgentConfig { max_steps: 3, timeout_secs: 0, ..AgentConfig::default() }
}

fn session_with(config: AgentConfig) -> AgentSession {
    AgentSession::new(config, generate_session_id(1_700_000_000, 255))
}

fn step(state: AgentState, duration_ms: u64, usage: TokenUsage) -> AgentStep {
    AgentStep {
        step_number: 0,
        state,
        thinking_phase: None,
        thought: None,
        tool_calls: vec![],
        tool_results: vec![],
        duration_ms,
        token_usage: usage,
    }
}

fn object(fields: Vec<(&str, Json)>) -> Json {
    Json::Object(fields.into_iter().map(|(k, v)| (k.to_string(), v)).collect())
}

fn decimal(text: &str) -> Json {
    Json::Number(JsonNumber::Decimal(text.to_string()))
}

fn respond_after(s: &AgentSession, elapsed_ms: u64) -> AgentResponse {
    let relevances: Vec<u32> = s
        .found_sources()
        .iter()
        .map(|f| {
            let score: f64 = match &f.score {
                Some(JsonNumber::Unsigned(n)) => *n as f64,
                Some(JsonNumber::Negative(n)) => *n as f64,
                Some(JsonNumber::Decimal(t)) => t.parse().unwrap(),
                None => 0.0,
            };
            (score as f32).to_bits()
        })
        .collect();
    s.to_response(elapsed_ms, &relevances)
}

fn respond(s: &AgentSession) -> AgentResponse {
    respond_after(s, 0)
}

#[test]
fn new_session_initial_state() {
    let s = session_with(minimal_config());
    assert_eq!(s.state(), AgentState::Thinking);
    assert_eq!(s.thinking_phase(), ThinkingPhase::Planning);
    assert_eq!(s.current_step(), 0);
    assert_eq!(s.remaining_steps(), 3);
    assert!(!s.is_done());
    assert!(!s.is_failed());
    assert!(s.stop_reason().is_none());
    assert!(s.final_answer().is_none());
    assert!(!s.id().is_empty());
}

#[test]
fn add_step_updates_counters_and_normalizes_number() {
    let mut s = session_with(minimal_config());
    let mut st = step(
        AgentState::Thinking,
        100,
        TokenUsage { prompt_tokens: 10, completion_tokens: 5, total_tokens: 15 },
    );
    st.step_number = 99;
    s.add_step(st);

    assert_eq!(s.current_step(), 1);
    assert_eq!(s.steps()[0].step_number, 1);
    assert_eq!(s.total_duration_ms(), 100);
    assert_eq!(s.total_token_usage().total_tokens, 15);
    assert_eq!(s.metrics().total_steps, 1);
    assert_eq!(s.metrics().thinking_time_ms, 100);
    assert_eq!(s.remaining_steps(), 2);
}

#[test]
fn add_step_accumulates_across_steps() {
    let mut s = session_with(minimal_config());
    s.add_step(step(
        AgentState::Thinking,
        50,
        TokenUsage { prompt_tokens: 10, completion_tokens: 0, total_tokens: 10 },
    ));
    s.add_step(step(
        AgentState::Acting,
        30,
        TokenUsage { prompt_tokens: 20, completion_tokens: 5, total_tokens: 25 },
    ));

    assert_eq!(s.current_step(), 2);
    assert_eq!(s.total_duration_ms(), 80);
    assert_eq!(s.total_token_usage().prompt_tokens, 30);
    assert_eq!(s.total_token_usage().completion_tokens, 5);
    assert_eq!(s.total_token_usage().total_tokens, 35);
    assert_eq!(s.metrics().thinking_time_ms, 50);
    assert_eq!(s.metrics().acting_time_ms, 30);
}

#[test]
fn is_timed_out_respects_zero_timeout() {
    let mut cfg = minimal_config();
    cfg.timeout_secs = 0;
    let s = session_with(cfg);
    assert!(!s.is_timed_out(0));
    assert!(!s.is_timed_out(u64::MAX));
}

#[test]
fn is_timed_out_triggers_after_expiry() {
    let mut cfg = minimal_config();
    cfg.timeout_secs = 1;
    let s = session_with(cfg);
    assert!(!s.is_timed_out(0));
    assert!(!s.is_timed_out(999));
    assert!(s.is_timed_out(1000));
}

#[test]
fn remaining_steps_saturates_at_zero() {
    let mut s = session_with(minimal_config());
    for _ in 0..5 {
        s.add_step(step(AgentState::Thinking, 1, TokenUsage::default()));
    }
    assert_eq!(s.remaining_steps(), 0);
}

#[test]
fn remaining_budget_decreases_with_messages() {
    let mut s = session_with(minimal_config());
    let initial = s.remaining_budget();
    s.chat.set_system_prompt(Some("a".repeat(400)));
    let after = s.remaining_budget();
    assert!(after < initial, "{after} should be < {initial}");
    assert_eq!(initial - after, 100);
    assert_eq!(s.used_budget(), 100);
}

#[test]
fn to_response_uses_final_answer_when_set() {
    let mut s = session_with(minimal_config());
    s.set_final_answer("the answer");
    let resp = respond(&s);
    assert_eq!(resp.answer, "the answer");
    assert_eq!(resp.total_tool_calls, 0);
    assert!(resp.sources.is_empty());
}

#[test]
fn to_response_falls_back_to_last_thought() {
    let mut s = session_with(minimal_config());
    let mut st = step(AgentState::Thinking, 10, TokenUsage::default());
    st.thought = Some("a conclusion".into());
    s.add_step(st);
    let resp = respond(&s);
    assert_eq!(resp.answer, "a conclusion");
}

#[test]
fn to_response_stop_reason_derived_from_state() {
    let mut s = session_with(minimal_config());
    s.set_state(AgentState::Done);
    let resp = respond(&s);
    assert!(matches!(resp.stop_reason, AgentStopReason::Completed));

    s.set_state(AgentState::Failed);
    let resp = respond(&s);
    assert!(matches!(resp.stop_reason, AgentStopReason::Error(_)));
}

#[test]
fn to_response_stop_reason_explicit_overrides_state() {
    let mut s = session_with(minimal_config());
    s.set_state(AgentState::Done);
    s.set_stop_reason(AgentStopReason::Timeout);
    let resp = respond(&s);
    assert!(matches!(resp.stop_reason, AgentStopReason::Timeout));
}

#[test]
fn to_response_stop_reason_max_steps_when_exhausted() {
    let mut cfg = minimal_config();
    cfg.max_steps = 1;
    let mut s = session_with(cfg);
    s.add_step(step(AgentState::Thinking, 1, TokenUsage::default()));
    let resp = respond(&s);
    assert!(matches!(resp.stop_reason, AgentStopReason::MaxSteps));
}

#[test]
fn to_response_stop_reason_timeout_while_at_work() {
    let mut cfg = minimal_config();
    cfg.timeout_secs = 2;
    let s = session_with(cfg);
    assert!(matches!(respond_after(&s, 2000).stop_reason, AgentStopReason::Timeout));
    assert!(matches!(respond_after(&s, 1999).stop_reason, AgentStopReason::Completed));
}

#[test]
fn to_response_extracts_sources_from_search_results() {
    let mut s = session_with(minimal_config());
    let mut st = step(AgentState::Acting, 10, TokenUsage::default());
    st.tool_results = vec![ToolResult::success(object(vec![(
        "results",
        Json::Array(vec![
            object(vec![
                ("file", Json::text("src/a.rs")),
                ("start_line", Json::natural(1)),
                ("end_line", Json::natural(5)),
                ("symbol", Json::text("foo")),
                ("score", decimal("0.9")),
            ]),
            object(vec![
                ("file", Json::text("src/b.rs")),
                ("start_line", Json::natural(10)),
                ("symbol", Json::text("bar")),
                ("score", decimal("0.5")),
            ]),
        ]),
    )]))];
    s.add_step(st);

    let resp = respond(&s);
    assert_eq!(resp.sources.len(), 2);
    assert_eq!(resp.sources[0].file_path, "src/a.rs");
    assert_eq!(resp.sources[0].line_start, 1);
    assert_eq!(resp.sources[0].line_end, 5);
    assert_eq!(resp.sources[0].symbol_name.as_deref(), Some("foo"));
    assert!(
        f32::from_bits(resp.sources[0].relevance) > f32::from_bits(resp.sources[1].relevance)
    );
}

#[test]
fn sources_come_by_relevance() {
    let mut s = session_with(minimal_config());
    let mut st = step(AgentState::Acting, 10, TokenUsage::default());
    let place = |file: &str, score: Json| {
        object(vec![("file_path", Json::text(file)), ("line", Json::natural(3)), ("relevance", score)])
    };
    st.tool_results = vec![ToolResult::success(Json::Array(vec![
        place("low", decimal("-0.5")),
        place("first", Json::natural(2)),
        place("second", Json::natural(2)),
        place("mid", decimal("0.25")),
    ]))];
    s.add_step(st);
    let resp = respond(&s);
    let names: Vec<&str> = resp.sources.iter().map(|s| s.file_path.as_str()).collect();
    assert_eq!(names, vec!["first", "second", "mid", "low"]);
}

#[test]
fn to_response_extracts_sources_from_grep_matches() {
    let mut s = session_with(minimal_config());
    let mut st = step(AgentState::Acting, 10, TokenUsage::default());
    st.tool_results = vec![ToolResult::success(object(vec![(
        "matches",
        Json::Array(vec![object(vec![
            ("file", Json::text("src/c.rs")),
            ("line", Json::natural(42)),
            ("text", Json::text("fn main")),
        ])]),
    )]))];
    s.add_step(st);

    let resp = respond(&s);
    assert_eq!(resp.sources.len(), 1);
    assert_eq!(resp.sources[0].file_path, "src/c.rs");
    assert_eq!(resp.sources[0].line_start, 42);
}

#[test]
fn to_response_skips_failed_tool_results() {
    let mut s = session_with(minimal_config());
    let mut st = step(AgentState::Acting, 10, TokenUsage::default());
    st.tool_results = vec![
        ToolResult::error("boom"),
        ToolResult::success(object(vec![(
            "results",
            Json::Array(vec![object(vec![
                ("file", Json::text("x.rs")),
                ("start_line", Json::natural(1)),
            ])]),
        )])),
    ];
    s.add_step(st);

    let resp = respond(&s);
    assert_eq!(resp.sources.len(), 1);
    assert_eq!(resp.sources[0].file_path, "x.rs");
}

#[test]
fn to_response_counts_total_tool_calls() {
    let mut s = session_with(minimal_config());
    let mut st1 = step(AgentState::Acting, 10, TokenUsage::default());
    st1.tool_calls = vec![ToolCall::new("read_file"), ToolCall::new("grep_code")];
    let mut st2 = step(AgentState::Acting, 10, TokenUsage::default());
    st2.tool_calls = vec![ToolCall::new("read_file")];
    s.add_step(st1);
    s.add_step(st2);

    let resp = respond(&s);
    assert_eq!(resp.total_tool_calls, 3);
    assert_eq!(resp.metrics.tool_calls_by_name.get(&"read_file".to_string()), Some(2));
    assert_eq!(resp.metrics.tool_calls_by_name.get(&"grep_code".to_string()), Some(1));
}

#[test]
fn record_methods_increment_metrics() {
    let mut s = session_with(minimal_config());
    s.record_cache_hit();
    s.record_cache_hit();
    s.record_retry();
    s.record_loop_detection();
    assert_eq!(s.metrics().tool_cache_hits, 2);
    assert_eq!(s.metrics().tool_retries, 1);
    assert_eq!(s.metrics().loop_detection_triggered, 1);
}

#[test]
fn set_state_and_thinking_phase_roundtrip() {
    let mut s = session_with(minimal_config());
    s.set_state(AgentState::Acting);
    s.set_thinking_phase(ThinkingPhase::Observing);
    assert_eq!(s.state(), AgentState::Acting);
    assert_eq!(s.thinking_phase(), ThinkingPhase::Observing);
}

#[test]
fn budget_manager_reflects_config() {
    let mut cfg = minimal_config();
    cfg.token_budget.total_budget = 5000;
    let s = session_with(cfg);
    assert_eq!(s.budget_manager().config().total_budget, 5000);
}

#[test]
fn a_session_is_named_by_the_time() {
    assert_eq!(generate_session_id(255, 16), "agent-ff-10");
    assert_eq!(generate_session_id(0, 0), "agent-0-0");
}

#[test]
fn a_session_has_room_for_a_step() {
    let s = session_with(minimal_config());
    assert!(s.has_room_for(&step(AgentState::Thinking, 10, TokenUsage::default())));
    assert!(!s.has_room_for(&step(
        AgentState::Thinking,
        10,
        TokenUsage { prompt_tokens: usize::MAX, completion_tokens: 1, total_tokens: 0 },
    )));
}

#[test]
fn a_session_keeps_the_budget_that_it_began_with() {
    let mut cfg = minimal_config();
    cfg.token_budget.total_budget = 5000;
    let mut s = session_with(cfg);
    let left = s.remaining_budget();
    s.config_mut().token_budget.total_budget = 10;
    assert_eq!(s.config().token_budget.total_budget, 10);
    assert_eq!(s.budget_manager().config().total_budget, 5000);
    assert_eq!(s.remaining_budget(), left);
}
