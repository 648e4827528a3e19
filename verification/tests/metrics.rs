use atlas::agent::json::Json;
use atlas::agent::protocol::{ToolCall, ToolResult};
use atlas::agent::types::{AgentMetrics, AgentState, AgentStep, TokenUsage};

fn success_rate(metrics: &AgentMetrics) -> f64 {
    if metrics.total_results == 0 {
        0.0
    } else {
        metrics.success_results as f64 / metrics.total_results as f64
    }
}

fn usage(prompt: usize, completion: usize) -> TokenUsage {
    TokenUsage {
        prompt_tokens: prompt,
        completion_tokens: completion,
        total_tokens: prompt + completion,
    }
}

#[test]
fn token_usage_merge_sums_fields() {
    let mut a = usage(10, 20);
    let b = usage(5, 7);
    a.merge(&b);
    assert_eq!(a.prompt_tokens, 15);
    assert_eq!(a.completion_tokens, 27);
    assert_eq!(a.total_tokens, 42);
}

#[test]
fn token_usage_merge_ignores_inconsistent_total() {
    let mut a = usage(10, 20);
    let mut b = usage(1, 2);
    b.total_tokens = 999; // 故意错误
    a.merge(&b);
    assert_eq!(a.total_tokens, 33);
}

#[test]
fn token_usage_add_usage_accumulates() {
    let mut a = usage(0, 0);
    a.add_usage(3, 4);
    a.add_usage(2, 1);
    assert_eq!(a.prompt_tokens, 5);
    assert_eq!(a.completion_tokens, 5);
    assert_eq!(a.total_tokens, 10);
}

#[test]
fn merge_step_accumulates_tokens_and_timing() {
    let mut metrics = AgentMetrics::default();
    let step = AgentStep {
        step_number: 1,
        state: AgentState::Thinking,
        thinking_phase: None,
        thought: None,
        tool_calls: vec![],
        tool_results: vec![],
        duration_ms: 100,
        token_usage: usage(50, 10),
    };
    metrics.merge_step(&step);
    assert_eq!(metrics.total_input_tokens, 50);
    assert_eq!(metrics.total_output_tokens, 10);
    assert_eq!(metrics.thinking_time_ms, 100);
    assert_eq!(metrics.acting_time_ms, 0);
}

#[test]
fn merge_step_counts_tool_calls_by_name() {
    let mut metrics = AgentMetrics::default();
    let step = AgentStep {
        step_number: 1,
        state: AgentState::Acting,
        thinking_phase: None,
        thought: None,
        tool_calls: vec![
            ToolCall::new("read_file"),
            ToolCall::new("read_file"),
            ToolCall::new("grep_code"),
        ],
        tool_results: vec![],
        duration_ms: 30,
        token_usage: usage(0, 0),
    };
    metrics.merge_step(&step);
    assert_eq!(metrics.tool_calls_by_name.get(&"read_file".to_string()), Some(2));
    assert_eq!(metrics.tool_calls_by_name.get(&"grep_code".to_string()), Some(1));
}

#[test]
fn recompute_derived_empty_steps() {
    let mut metrics = AgentMetrics::default();
    metrics.recompute_derived(&vec![]);
    assert_eq!(metrics.total_steps, 0);
    assert_eq!(success_rate(&metrics), 0.0);
    assert_eq!(metrics.avg_tool_latency_ms, 0);
}

#[test]
fn recompute_derived_success_rate_and_latency() {
    let mut metrics = AgentMetrics::default();
    let step = AgentStep {
        step_number: 1,
        state: AgentState::Acting,
        thinking_phase: None,
        thought: None,
        tool_calls: vec![],
        tool_results: vec![
            ToolResult::success(Json::Null),
            ToolResult::error("boom"),
        ],
        duration_ms: 40,
        token_usage: usage(0, 0),
    };
    metrics.recompute_derived(&vec![step]);
    assert_eq!(metrics.total_steps, 1);
    assert_eq!(success_rate(&metrics), 0.5);
    // 2 results sharing 40ms => avg 20ms
    assert_eq!(metrics.avg_tool_latency_ms, 20);
}

#[test]
fn recompute_derived_ignores_thinking_step_latency() {
    let mut metrics = AgentMetrics::default();
    let thinking = AgentStep {
        step_number: 1,
        state: AgentState::Thinking,
        thinking_phase: None,
        thought: None,
        tool_calls: vec![],
        tool_results: vec![ToolResult::success(Json::Null)],
        duration_ms: 999,
        token_usage: usage(0, 0),
    };
    metrics.recompute_derived(&vec![thinking]);
    assert_eq!(metrics.avg_tool_latency_ms, 0);
    // success rate still computed
    assert_eq!(success_rate(&metrics), 1.0);
}

#[test]
fn record_counters_increment() {
    let mut metrics = AgentMetrics::default();
    metrics.record_cache_hit();
    metrics.record_cache_hit();
    metrics.record_retry();
    metrics.record_loop_detection();
    assert_eq!(metrics.tool_cache_hits, 2);
    assert_eq!(metrics.tool_retries, 1);
    assert_eq!(metrics.loop_detection_triggered, 1);
}

#[test]
fn merge_then_recompute_full_flow() {
    let mut metrics = AgentMetrics::default();
    let step1 = AgentStep {
        step_number: 1,
        state: AgentState::Thinking,
        thinking_phase: None,
        thought: None,
        tool_calls: vec![],
        tool_results: vec![],
        duration_ms: 50,
        token_usage: usage(100, 20),
    };
    let step2 = AgentStep {
        step_number: 2,
        state: AgentState::Acting,
        thinking_phase: None,
        thought: None,
        tool_calls: vec![
            ToolCall::new("read_file"),
        ],
        tool_results: vec![ToolResult::success(Json::Null)],
        duration_ms: 30,
        token_usage: usage(200, 40),
    };
    let steps = vec![step1.clone(), step2.clone()];

    metrics.merge_step(&step1);
    metrics.merge_step(&step2);
    metrics.recompute_derived(&steps);

    assert_eq!(metrics.total_steps, 2);
    assert_eq!(metrics.total_input_tokens, 300);
    assert_eq!(metrics.total_output_tokens, 60);
    assert_eq!(metrics.thinking_time_ms, 50);
    assert_eq!(metrics.acting_time_ms, 30);
    assert_eq!(metrics.tool_calls_by_name.get(&"read_file".to_string()), Some(1));
    assert_eq!(success_rate(&metrics), 1.0);
    assert_eq!(metrics.avg_tool_latency_ms, 30);
}

#[test]
fn uses_add_up_in_any_order() {
    let mut a = usage(1, 2);
    a.merge(&usage(3, 4));
    a.merge(&usage(5, 6));
    let mut b = usage(1, 2);
    b.add_usage(8, 10);
    assert_eq!(a, b);
    assert_eq!(a.total_tokens, 21);
}
