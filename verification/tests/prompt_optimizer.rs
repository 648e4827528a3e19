use std::sync::atomic::{AtomicUsize, Ordering};
use std::sync::Arc;

use atlas::agent::prompt_optimizer::{
    Measured, OptimizationResult, PromptMetric, PromptOptimizer, PromptRunRunner, PromptVariant,
};
use atlas::agent::protocol::{AgentError, AgentResult};
use atlas::agent::response::AgentResponse;
use atlas::agent::types::{
    AgentMetrics, AgentState, AgentStep, AgentStopReason, SourceReference, TokenUsage,
};

fn synth(answer: &str, sources: bool, successes: usize, results: usize, steps: usize, tokens: usize) -> AgentResponse {
    let sources = if sources {
        vec![SourceReference {
            file_path: "a.rs".into(),
            line_start: 1,
            line_end: 5,
            symbol_name: Some("foo".into()),
            relevance: 0.9f32.to_bits(),
        }]
    } else {
        vec![]
    };
    AgentResponse {
        answer: answer.to_string(),
        sources,
        steps: (0..steps)
            .map(|i| AgentStep {
                step_number: i + 1,
                state: AgentState::Acting,
                thinking_phase: None,
                thought: None,
                tool_calls: vec![],
                tool_results: vec![],
                duration_ms: 10,
                token_usage: TokenUsage::default(),
            })
            .collect(),
        total_token_usage: TokenUsage {
            prompt_tokens: tokens / 2,
            completion_tokens: tokens / 2,
            total_tokens: tokens,
        },
        total_duration_ms: 100,
        total_tool_calls: steps,
        stop_reason: AgentStopReason::Completed,
        metrics: AgentMetrics {
            total_results: results,
            success_results: successes,
            total_steps: steps,
            ..Default::default()
        },
        self_evaluation: None,
    }
}

fn rate(m: &PromptMetric) -> f64 {
    if m.total_results == 0 {
        0.0
    } else {
        m.success_results as f64 / m.total_results as f64
    }
}

fn score(m: &PromptMetric) -> f64 {
    let t = m.terms();
    let mut score = 0.0;
    if t.cited {
        score += 1.5;
    }
    score += rate(m).clamp(0.0, 1.0) * 1.5;
    score += (t.steps as f64 / 3.0).clamp(0.0, 1.0);
    if t.fitting {
        score += 0.5;
    }
    score -= 0.2 * (t.excess as f64 / 1000.0);
    score += t.answer_length as f64 / t.tokens as f64 * 0.5;
    score.max(0.0)
}

fn optimize<R: PromptRunRunner>(
    optimizer: &PromptOptimizer<'_, R>,
    query: &str,
) -> AgentResult<OptimizationResult> {
    let measured: Vec<Measured> = optimizer.measure(query)?;
    let scores: Vec<u64> = measured.iter().map(|m| score(&m.metric).to_bits()).collect();
    Ok(optimizer.optimize(&measured, &scores))
}

struct CannedRunner {
    answer: String,
    calls: Arc<AtomicUsize>,
}

impl PromptRunRunner for CannedRunner {
    fn run_with_prompt(&self, _query: &str, _system_prompt: &str) -> AgentResult<AgentResponse> {
        self.calls.fetch_add(1, Ordering::SeqCst);
        Ok(synth(&self.answer, true, 9, 10, 3, 200))
    }
}

struct FailingRunner;

impl PromptRunRunner for FailingRunner {
    fn run_with_prompt(&self, _: &str, _: &str) -> AgentResult<AgentResponse> {
        Err(AgentError::Internal("injected failure".into()))
    }
}

#[test]
fn optimizer_picks_best_variant() {
    let calls = Arc::new(AtomicUsize::new(0));
    let runner = CannedRunner { answer: "answer".into(), calls: Arc::clone(&calls) };
    let variants = vec![
        PromptVariant::new("a", "prompt A"),
        PromptVariant::new(
            "b",
            "prompt B - longer than A and richer description, so scoring might differ",
        ),
    ];
    let opt = PromptOptimizer::new(variants, &runner);
    let result = optimize(&opt, "test").unwrap();
    assert_eq!(result.scores.len(), 2);
    assert!(f64::from_bits(result.best_score) > 0.0);
    assert_eq!(calls.load(Ordering::SeqCst), 2);
}

#[test]
fn optimizer_handles_empty_variants() {
    let runner = CannedRunner { answer: "x".into(), calls: Arc::new(AtomicUsize::new(0)) };
    let opt = PromptOptimizer::new(vec![], &runner);
    let result = optimize(&opt, "q");
    assert!(result.is_err());
}

#[test]
fn optimizer_records_zero_score_on_failure() {
    let runner = FailingRunner;
    let variants = vec![PromptVariant::new("a", "p")];
    let opt = PromptOptimizer::new(variants, &runner);
    let result = optimize(&opt, "q").unwrap();
    assert_eq!(result.scores.len(), 1);
    assert_eq!(f64::from_bits(result.scores[0].score), 0.0);
    assert_eq!(result.best_variant_name, "a");
}

#[test]
fn variant_score_evaluates_dimensions() {
    let v = PromptVariant::new("x", "short");
    let resp = synth("a thousand characters answer", true, 1, 1, 4, 100);
    let metric = PromptMetric::from_response(&v, &resp);
    assert!(score(&metric) > 0.0);
    assert!(metric.has_sources);
    assert_eq!(metric.total_steps, 4);
}

#[test]
fn long_prompt_is_penalized() {
    let v_short = PromptVariant::new("s", "p");
    let v_long = PromptVariant::new("l", &"x".repeat(2200));
    let resp = synth("answer", true, 8, 10, 2, 100);
    let score_short = score(&PromptMetric::from_response(&v_short, &resp));
    let score_long = score(&PromptMetric::from_response(&v_long, &resp));
    assert!(score_long < score_short);
    assert_eq!(PromptMetric::from_response(&v_long, &resp).terms().excess, 1200);
}

#[test]
fn metric_from_response_extracts_fields() {
    let v = PromptVariant::new("v", "prompt");
    let resp = synth("hello world this is an answer of moderate length", false, 1, 2, 1, 500);
    let m = PromptMetric::from_response(&v, &resp);
    assert_eq!(m.prompt_length, 6);
    assert!(!m.has_sources);
    assert_eq!(m.total_tokens, 500);
    assert_eq!(rate(&m), 0.5);
}

#[test]
fn the_last_of_the_best_is_taken() {
    let runner = FailingRunner;
    let variants = vec![
        PromptVariant::new("a", "p"),
        PromptVariant::new("b", "p"),
        PromptVariant::new("c", "p"),
    ];
    let opt = PromptOptimizer::new(variants, &runner);
    let m = Measured { metric: PromptMetric::of_failure(&opt.variants[0]), failed: false };
    let measured = vec![m, m, m];
    let scores = vec![2.0f64.to_bits(), 2.0f64.to_bits(), (-1.0f64).to_bits()];
    let result = opt.optimize(&measured, &scores);
    assert_eq!(result.best_variant_index, 1);
    assert_eq!(result.best_variant_name, "b");
    assert_eq!(f64::from_bits(result.best_score), 2.0);
}
