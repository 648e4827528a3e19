use atlas::agent::json::Json;
use atlas::agent::protocol::{ToolCall, ToolResult};
use atlas::agent::response::{AgentResponse, SelfEvaluation};
use atlas::agent::trace::{
    html_escape, truncate_str_md, BenchmarkNumbers, PerformanceBenchmark, TraceNumbers,
    TraceRenderer,
};
use atlas::agent::types::{
    AgentMetrics, AgentState, AgentStep, AgentStopReason, SourceReference, ThinkingPhase,
    TokenUsage,
};

fn rate(metrics: &AgentMetrics) -> f64 {
    if metrics.total_results == 0 {
        0.0
    } else {
        metrics.success_results as f64 / metrics.total_results as f64
    }
}

fn numbers(r: &AgentResponse) -> TraceNumbers {
    let percent = |x: f64| format!("{:.0}", x * 100.0);
    let (confidence, evaluated) = match &r.self_evaluation {
        Some(e) => (f64::from_bits(e.confidence_score), f64::from_bits(e.tool_success_rate)),
        None => (0.0, 0.0),
    };
    TraceNumbers {
        seconds: format!("{:.2}", r.total_duration_ms as f64 / 1000.0),
        success_percent: percent(rate(&r.metrics)),
        confidence_percent: percent(confidence),
        evaluated_percent: percent(evaluated),
    }
}

fn html(r: &AgentResponse) -> String {
    TraceRenderer::render_html(r, &numbers(r))
}

fn markdown(r: &AgentResponse) -> String {
    TraceRenderer::render_markdown(r, &numbers(r))
}

fn usage(tokens: usize) -> TokenUsage {
    TokenUsage { prompt_tokens: tokens / 2, completion_tokens: tokens / 2, total_tokens: tokens }
}

fn make_response(answer: &str, steps: usize, duration_ms: u64, tokens: usize) -> AgentResponse {
    let mut metrics = AgentMetrics::default();
    metrics.total_steps = steps;
    metrics.total_results = 1;
    metrics.success_results = 1;
    AgentResponse {
        answer: answer.into(),
        sources: vec![SourceReference {
            file_path: "src/main.rs".into(),
            line_start: 1,
            line_end: 10,
            symbol_name: Some("main".into()),
            relevance: 1.0f32.to_bits(),
        }],
        steps: (0..steps)
            .map(|i| AgentStep {
                step_number: i + 1,
                state: AgentState::Thinking,
                thinking_phase: Some(ThinkingPhase::Planning),
                thought: Some(format!("Thinking step {}", i + 1)),
                tool_calls: vec![],
                tool_results: vec![],
                duration_ms: 100,
                token_usage: usage(tokens),
            })
            .collect(),
        total_token_usage: usage(tokens),
        total_duration_ms: duration_ms,
        total_tool_calls: 0,
        stop_reason: AgentStopReason::Completed,
        metrics,
        self_evaluation: None,
    }
}

fn make_response_with_tool_call() -> AgentResponse {
    let mut metrics = AgentMetrics::default();
    metrics.total_steps = 2;
    metrics.total_results = 1;
    metrics.success_results = 1;
    metrics.tool_calls_by_name.add("read_file".to_string());

    let thinking = AgentStep {
        step_number: 1,
        state: AgentState::Thinking,
        thinking_phase: Some(ThinkingPhase::Planning),
        thought: Some("I need to read the file".into()),
        tool_calls: vec![],
        tool_results: vec![],
        duration_ms: 50,
        token_usage: TokenUsage { prompt_tokens: 10, completion_tokens: 5, total_tokens: 15 },
    };
    let acting = AgentStep {
        step_number: 2,
        state: AgentState::Acting,
        thinking_phase: None,
        thought: None,
        tool_calls: vec![ToolCall::new("read_file").with_argument("path", Json::text("main.rs"))],
        tool_results: vec![ToolResult::success(Json::Object(vec![(
            "content".to_string(),
            Json::text("fn main() {}"),
        )]))],
        duration_ms: 100,
        token_usage: TokenUsage { prompt_tokens: 20, completion_tokens: 10, total_tokens: 30 },
    };
    AgentResponse {
        answer: "The main function is at src/main.rs:1".into(),
        sources: vec![],
        steps: vec![thinking, acting],
        total_token_usage: TokenUsage { prompt_tokens: 30, completion_tokens: 15, total_tokens: 45 },
        total_duration_ms: 150,
        total_tool_calls: 1,
        stop_reason: AgentStopReason::Completed,
        metrics,
        self_evaluation: None,
    }
}

fn averages() -> BenchmarkNumbers {
    BenchmarkNumbers {
        steps: "2.00".into(),
        duration_ms: "150.00".into(),
        duration_secs: "0.15".into(),
        tokens: "45.0".into(),
        tool_calls: "1.00".into(),
        success_percent: "100.0".into(),
        token_efficiency: "22.5".into(),
    }
}

#[test]
fn render_html_contains_required_sections() {
    let resp = make_response_with_tool_call();
    let html = html(&resp);
    assert!(html.contains("<!DOCTYPE html>"));
    assert!(html.contains("Execution Trace"));
    assert!(html.contains("Summary"));
    assert!(html.contains("read_file"));
    assert!(html.contains("src/main.rs"));
    assert!(html.contains("</html>"));
}

#[test]
fn render_html_shows_a_call_with_its_result() {
    let html = html(&make_response_with_tool_call());
    assert!(html.contains("<div class=\"tool-call\">\u{2192} read_file(1)</div>\n"));
    assert!(html.contains(
        "<div class=\"tool-result\">{\n  &quot;content&quot;: &quot;fn main() {}&quot;\n}</div>\n"
    ));
    assert!(html.contains("<h3>Step 1: Thinking (Planning) <small>50ms \u{b7} 15 tokens</small></h3>"));
}

#[test]
fn render_markdown_contains_required_sections() {
    let resp = make_response_with_tool_call();
    let md = markdown(&resp);
    assert!(md.contains("# ChatVCode Agent Execution Trace"));
    assert!(md.contains("## Summary"));
    assert!(md.contains("read_file"));
    assert!(md.contains("Final Answer"));
    assert!(md.contains("- **read_file**(1 args)\n  - \u{2713} Result: `{\"content\":\"fn main() {}\"}`\n"));
}

#[test]
fn render_html_escapes_special_characters() {
    let mut resp = make_response("answer", 1, 100, 50);
    resp.answer = "<script>alert('xss')</script>".into();
    let html = html(&resp);
    assert!(!html.contains("<script>alert('xss')</script>"));
    assert!(html.contains("&lt;script&gt;"));
}

#[test]
fn render_html_with_self_evaluation() {
    let mut resp = make_response("test answer that is long enough", 2, 200, 100);
    resp.self_evaluation = Some(SelfEvaluation {
        confidence_score: 0.75f64.to_bits(),
        has_source_citations: true,
        answer_length: 100,
        sufficient_exploration: true,
        tool_success_rate: 1.0f64.to_bits(),
        notes: vec!["Looks good".into()],
    });
    let html = html(&resp);
    assert!(html.contains("Self-Evaluation"));
    assert!(html.contains("75%"));
    assert!(html.contains("Looks good"));
}

#[test]
fn render_markdown_with_self_evaluation() {
    let mut resp = make_response("test answer", 2, 200, 100);
    resp.self_evaluation = Some(SelfEvaluation {
        confidence_score: 0.5f64.to_bits(),
        has_source_citations: false,
        answer_length: 11,
        sufficient_exploration: true,
        tool_success_rate: 0.5f64.to_bits(),
        notes: vec!["Could be better".into()],
    });
    let md = markdown(&resp);
    assert!(md.contains("Self-Evaluation"));
    assert!(md.contains("50%"));
    assert!(md.contains("Could be better"));
}

#[test]
fn an_error_is_shown_as_for_debugging() {
    let mut resp = make_response("", 0, 1500, 0);
    resp.stop_reason = AgentStopReason::Error("a \"b\"".into());
    assert!(markdown(&resp).contains("| Stop reason | Error(\"a \\\"b\\\"\") |\n"));
    assert!(markdown(&resp).contains("| Duration | 1.50s |\n"));
    assert!(!markdown(&resp).contains("Final Answer"));
}

#[test]
fn benchmark_counts_runs() {
    let mut bench = PerformanceBenchmark::new();
    bench.add(&make_response("answer", 5, 1000, 500));
    assert_eq!(bench.run_count, 1);
    bench.add(&make_response("b", 4, 300, 150));
    assert_eq!(bench.run_count, 2);
}

#[test]
fn benchmark_tracks_tool_usage() {
    let mut bench = PerformanceBenchmark::new();
    bench.add(&make_response_with_tool_call());
    assert_eq!(bench.tool_usage.get(&"read_file".to_string()), Some(1));
    bench.add(&make_response_with_tool_call());
    assert_eq!(bench.tool_usage.get(&"read_file".to_string()), Some(2));
}

#[test]
fn benchmark_tracks_stop_reasons() {
    let mut bench = PerformanceBenchmark::new();
    bench.add(&make_response("a", 1, 100, 50));
    assert_eq!(bench.stop_reasons.get(&"Completed".to_string()), Some(1));
}

#[test]
fn benchmark_render_markdown() {
    let mut bench = PerformanceBenchmark::new();
    bench.add(&make_response_with_tool_call());
    let md = bench.render_markdown(&averages());
    assert!(md.contains("Performance Benchmark"));
    assert!(md.contains("Runs analyzed"));
    assert!(md.contains("Tool Usage"));
    assert!(md.contains("read_file"));
    assert!(md.contains("| Duration | 150.00ms (0.15s) |\n"));
    assert!(md.contains("## Stop Reasons\n\n| Reason | Count |\n|--------|-------|\n| Completed | 1 |\n"));
}

#[test]
fn html_escape_covers_all_special_chars() {
    assert_eq!(html_escape("a&b<c>d\"e'f"), "a&amp;b&lt;c&gt;d&quot;e&#x27;f");
}

#[test]
fn escaping_goes_by_parts() {
    assert_eq!(html_escape("<a") + &html_escape("&>"), html_escape("<a&>"));
}

#[test]
fn truncate_str_md_short_and_long() {
    assert_eq!(truncate_str_md("hi", 10), "hi");
    let long = "x".repeat(50);
    let t = truncate_str_md(&long, 10);
    assert!(t.ends_with("..."));
    assert_eq!(t, "xxxxxxxxxx...");
}
