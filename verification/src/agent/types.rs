//! What the agent is set up with, what it does step by step, and what it answers.

use vstd::prelude::*;
use vstd::string::*;

use crate::agent::protocol;
use crate::agent::protocol::{CallSpec, ResultSpec, ToolCall, ToolResult};
use crate::paths;
use crate::tally;
use crate::tally::Tally;
use crate::text;

verus! {

/// How many tokens were used.
#[derive(Debug, Clone, Copy, PartialEq, Eq, Structural)]
pub struct TokenUsage {
    pub prompt_tokens: usize,
    pub completion_tokens: usize,
    pub total_tokens: usize,
}

impl Default for TokenUsage {
    fn default() -> (r: Self)
        ensures
            r == no_usage(),
    {
        TokenUsage { prompt_tokens: 0, completion_tokens: 0, total_tokens: 0 }
    }
}

/// No tokens.
pub open spec fn no_usage() -> TokenUsage {
    TokenUsage { prompt_tokens: 0, completion_tokens: 0, total_tokens: 0 }
}

/// What the agent is doing.
#[derive(Debug, Clone, Copy, PartialEq, Eq, Structural)]
pub enum AgentState {
    Thinking,
    Acting,
    Done,
    Failed,
}

/// What the agent thinks about.
#[derive(Debug, Clone, Copy, PartialEq, Eq, Structural)]
pub enum ThinkingPhase {
    Planning,
    Observing,
    Concluding,
}

/// Why the agent stopped.
#[derive(Debug)]
pub enum AgentStopReason {
    Completed,
    MaxSteps,
    Timeout,
    UserCancel,
    LoopDetected,
    Error(String),
}

/// Why the agent stopped.
pub enum StopSpec {
    Completed,
    MaxSteps,
    Timeout,
    UserCancel,
    LoopDetected,
    Error(Seq<char>),
}

impl AgentStopReason {
    /// What the reason says.
    pub open spec fn spec(&self) -> StopSpec {
        match self {
            AgentStopReason::Completed => StopSpec::Completed,
            AgentStopReason::MaxSteps => StopSpec::MaxSteps,
            AgentStopReason::Timeout => StopSpec::Timeout,
            AgentStopReason::UserCancel => StopSpec::UserCancel,
            AgentStopReason::LoopDetected => StopSpec::LoopDetected,
            AgentStopReason::Error(m) => StopSpec::Error(m@),
        }
    }
}

/// What an optional reason says.
pub open spec fn opt_stop(o: Option<AgentStopReason>) -> Option<StopSpec> {
    match o {
        Some(r) => Some(r.spec()),
        None => None,
    }
}

impl Clone for AgentStopReason {
    fn clone(&self) -> (r: Self)
        ensures
            r.spec() == self.spec(),
    {
        match self {
            AgentStopReason::Completed => AgentStopReason::Completed,
            AgentStopReason::MaxSteps => AgentStopReason::MaxSteps,
            AgentStopReason::Timeout => AgentStopReason::Timeout,
            AgentStopReason::UserCancel => AgentStopReason::UserCancel,
            AgentStopReason::LoopDetected => AgentStopReason::LoopDetected,
            AgentStopReason::Error(m) => AgentStopReason::Error(m.clone()),
        }
    }
}

/// One step of the agent.
pub struct AgentStep {
    pub step_number: usize,
    pub state: AgentState,
    pub thinking_phase: Option<ThinkingPhase>,
    pub thought: Option<String>,
    pub tool_calls: Vec<ToolCall>,
    pub tool_results: Vec<ToolResult>,
    pub duration_ms: u64,
    pub token_usage: TokenUsage,
}

/// What a step says.
pub struct StepSpec {
    pub step_number: usize,
    pub state: AgentState,
    pub thinking_phase: Option<ThinkingPhase>,
    pub thought: Option<Seq<char>>,
    pub calls: Seq<CallSpec>,
    pub results: Seq<ResultSpec>,
    pub duration_ms: u64,
    pub usage: TokenUsage,
}

impl AgentStep {
    /// What the step says.
    pub open spec fn spec(&self) -> StepSpec {
        StepSpec {
            step_number: self.step_number,
            state: self.state,
            thinking_phase: self.thinking_phase,
            thought: paths::opt_view(self.thought),
            calls: protocol::call_specs(self.tool_calls@),
            results: protocol::result_specs(self.tool_results@),
            duration_ms: self.duration_ms,
            usage: self.token_usage,
        }
    }
}

/// What steps say.
pub open spec fn step_specs(v: Seq<AgentStep>) -> Seq<StepSpec> {
    Seq::new(v.len(), |i: int| v[i].spec())
}

/// A second list of the same calls.
pub fn copy_calls(v: &Vec<ToolCall>) -> (r: Vec<ToolCall>)
    ensures
        protocol::call_specs(r@) == protocol::call_specs(v@),
{
    let ghost all = protocol::call_specs(v@);
    let mut r: Vec<ToolCall> = Vec::new();
    let mut i: usize = 0;
    assert(protocol::call_specs(r@) =~= all.take(0));
    while i < v.len()
        invariant
            i <= v@.len(),
            all == protocol::call_specs(v@),
            protocol::call_specs(r@) == all.take(i as int),
        decreases v@.len() - i,
    {
        let ghost before = protocol::call_specs(r@);
        let c = v[i].clone();
        r.push(c);
        i += 1;
        assert(protocol::call_specs(r@) =~= before.push(c.spec()));
        assert(protocol::call_specs(r@) =~= all.take(i as int));
    }
    assert(all.take(all.len() as int) =~= all);
    r
}

/// A second list of the same results.
pub fn copy_results(v: &Vec<ToolResult>) -> (r: Vec<ToolResult>)
    ensures
        protocol::result_specs(r@) == protocol::result_specs(v@),
{
    let ghost all = protocol::result_specs(v@);
    let mut r: Vec<ToolResult> = Vec::new();
    let mut i: usize = 0;
    assert(protocol::result_specs(r@) =~= all.take(0));
    while i < v.len()
        invariant
            i <= v@.len(),
            all == protocol::result_specs(v@),
            protocol::result_specs(r@) == all.take(i as int),
        decreases v@.len() - i,
    {
        let ghost before = protocol::result_specs(r@);
        let c = v[i].clone();
        r.push(c);
        i += 1;
        assert(protocol::result_specs(r@) =~= before.push(c.spec()));
        assert(protocol::result_specs(r@) =~= all.take(i as int));
    }
    assert(all.take(all.len() as int) =~= all);
    r
}

impl Clone for AgentStep {
    fn clone(&self) -> (r: Self)
        ensures
            r.spec() == self.spec(),
    {
        AgentStep {
            step_number: self.step_number,
            state: self.state,
            thinking_phase: self.thinking_phase,
            thought: self.thought.clone(),
            tool_calls: copy_calls(&self.tool_calls),
            tool_results: copy_results(&self.tool_results),
            duration_ms: self.duration_ms,
            token_usage: self.token_usage,
        }
    }
}

/// A second list of the same steps.
pub fn copy_steps(v: &Vec<AgentStep>) -> (r: Vec<AgentStep>)
    ensures
        step_specs(r@) == step_specs(v@),
{
    let ghost all = step_specs(v@);
    let mut r: Vec<AgentStep> = Vec::new();
    let mut i: usize = 0;
    assert(step_specs(r@) =~= all.take(0));
    while i < v.len()
        invariant
            i <= v@.len(),
            all == step_specs(v@),
            step_specs(r@) == all.take(i as int),
        decreases v@.len() - i,
    {
        let ghost before = step_specs(r@);
        let c = v[i].clone();
        r.push(c);
        i += 1;
        assert(step_specs(r@) =~= before.push(c.spec()));
        assert(step_specs(r@) =~= all.take(i as int));
    }
    assert(all.take(all.len() as int) =~= all);
    r
}

/// How many tokens a conversation may take.
#[derive(Debug, Clone, Copy, PartialEq, Eq, Structural)]
pub struct TokenBudgetConfig {
    pub total_budget: usize,
    pub system_prompt_reserve: usize,
    pub tool_result_max: usize,
    pub history_budget: usize,
    pub response_reserve: usize,
}

/// The budget unless another is asked for.
pub open spec fn default_budget() -> TokenBudgetConfig {
    TokenBudgetConfig {
        total_budget: 8192,
        system_prompt_reserve: 1500,
        tool_result_max: 2000,
        history_budget: 4000,
        response_reserve: 1500,
    }
}

impl Default for TokenBudgetConfig {
    fn default() -> (r: Self)
        ensures
            r == default_budget(),
    {
        TokenBudgetConfig {
            total_budget: 8192,
            system_prompt_reserve: 1500,
            tool_result_max: 2000,
            history_budget: 4000,
            response_reserve: 1500,
        }
    }
}

/// When a tool is run once more.
#[derive(Debug, Clone, Copy, PartialEq, Eq, Structural)]
pub struct ToolRetryConfig {
    pub max_retries: usize,
    pub retry_on_timeout: bool,
    pub retry_on_transient_error: bool,
    pub backoff_ms: u64,
}

/// The retries unless others are asked for.
pub open spec fn default_retry() -> ToolRetryConfig {
    ToolRetryConfig {
        max_retries: 2,
        retry_on_timeout: true,
        retry_on_transient_error: true,
        backoff_ms: 100,
    }
}

impl Default for ToolRetryConfig {
    fn default() -> (r: Self)
        ensures
            r == default_retry(),
    {
        ToolRetryConfig {
            max_retries: 2,
            retry_on_timeout: true,
            retry_on_transient_error: true,
            backoff_ms: 100,
        }
    }
}

/// What the agent is set up with.
#[derive(Debug)]
pub struct AgentConfig {
    pub max_steps: usize,
    /// 0 for no limit.
    pub timeout_secs: u64,
    pub max_tool_calls_per_step: usize,
    /// The tools that may be called; all if empty.
    pub allowed_tools: Vec<String>,
    pub project_path: String,
    pub verbose: bool,
    pub system_prompt: Option<String>,
    pub token_budget: TokenBudgetConfig,
    pub tool_retry: ToolRetryConfig,
    pub require_plan_confirmation: bool,
    pub auto_approve_threshold: usize,
    /// Whether the calls of one step may run at the same time.
    pub enable_parallel_tool_calls: bool,
    /// Whether the answer is evaluated.
    pub enable_self_evaluation: bool,
}

/// What a configuration says.
pub struct ConfigSpec {
    pub max_steps: usize,
    pub timeout_secs: u64,
    pub max_tool_calls_per_step: usize,
    pub allowed_tools: Seq<Seq<char>>,
    pub project_path: Seq<char>,
    pub verbose: bool,
    pub system_prompt: Option<Seq<char>>,
    pub token_budget: TokenBudgetConfig,
    pub tool_retry: ToolRetryConfig,
    pub require_plan_confirmation: bool,
    pub auto_approve_threshold: usize,
    pub enable_parallel_tool_calls: bool,
    pub enable_self_evaluation: bool,
}

impl AgentConfig {
    /// What the configuration says.
    pub open spec fn spec(&self) -> ConfigSpec {
        ConfigSpec {
            max_steps: self.max_steps,
            timeout_secs: self.timeout_secs,
            max_tool_calls_per_step: self.max_tool_calls_per_step,
            allowed_tools: text::views(self.allowed_tools@),
            project_path: self.project_path@,
            verbose: self.verbose,
            system_prompt: paths::opt_view(self.system_prompt),
            token_budget: self.token_budget,
            tool_retry: self.tool_retry,
            require_plan_confirmation: self.require_plan_confirmation,
            auto_approve_threshold: self.auto_approve_threshold,
            enable_parallel_tool_calls: self.enable_parallel_tool_calls,
            enable_self_evaluation: self.enable_self_evaluation,
        }
    }
}

/// The configuration unless another is asked for.
pub open spec fn default_config() -> ConfigSpec {
    ConfigSpec {
        max_steps: 10,
        timeout_secs: 120,
        max_tool_calls_per_step: 5,
        allowed_tools: Seq::empty(),
        project_path: "."@,
        verbose: false,
        system_prompt: None,
        token_budget: default_budget(),
        tool_retry: default_retry(),
        require_plan_confirmation: false,
        auto_approve_threshold: 3,
        enable_parallel_tool_calls: false,
        enable_self_evaluation: false,
    }
}

impl Default for AgentConfig {
    fn default() -> (r: Self)
        ensures
            r.spec() == default_config(),
    {
        let r = AgentConfig {
            max_steps: 10,
            timeout_secs: 120,
            max_tool_calls_per_step: 5,
            allowed_tools: Vec::new(),
            project_path: ".".to_owned(),
            verbose: false,
            system_prompt: None,
            token_budget: TokenBudgetConfig::default(),
            tool_retry: ToolRetryConfig::default(),
            require_plan_confirmation: false,
            auto_approve_threshold: 3,
            enable_parallel_tool_calls: false,
            enable_self_evaluation: false,
        };
        assert(text::views(r.allowed_tools@) =~= Seq::empty());
        r
    }
}

impl Clone for AgentConfig {
    fn clone(&self) -> (r: Self)
        ensures
            r.spec() == self.spec(),
    {
        AgentConfig {
            max_steps: self.max_steps,
            timeout_secs: self.timeout_secs,
            max_tool_calls_per_step: self.max_tool_calls_per_step,
            allowed_tools: text::copy_texts(&self.allowed_tools),
            project_path: self.project_path.clone(),
            verbose: self.verbose,
            system_prompt: self.system_prompt.clone(),
            token_budget: self.token_budget,
            tool_retry: self.tool_retry,
            require_plan_confirmation: self.require_plan_confirmation,
            auto_approve_threshold: self.auto_approve_threshold,
            enable_parallel_tool_calls: self.enable_parallel_tool_calls,
            enable_self_evaluation: self.enable_self_evaluation,
        }
    }
}

/// A place in the code that an answer rests on. The relevance is a floating-point number, given by
/// its bits.
#[derive(Debug)]
pub struct SourceReference {
    pub file_path: String,
    pub line_start: usize,
    pub line_end: usize,
    pub symbol_name: Option<String>,
    pub relevance: u32,
}

/// What the agent counts while it works.
pub struct AgentMetrics {
    pub total_steps: usize,
    pub tool_calls_by_name: Tally<String>,
    /// How many results there are.
    pub total_results: usize,
    /// How many of the results are successes.
    pub success_results: usize,
    pub avg_tool_latency_ms: u64,
    pub total_input_tokens: usize,
    pub total_output_tokens: usize,
    pub thinking_time_ms: u64,
    pub acting_time_ms: u64,
    pub loop_detection_triggered: usize,
    pub tool_cache_hits: usize,
    pub tool_retries: usize,
}

/// What metrics say.
pub struct MetricsSpec {
    pub total_steps: nat,
    pub calls: Map<Seq<char>, nat>,
    pub total_results: nat,
    pub success_results: nat,
    pub avg_tool_latency_ms: nat,
    pub total_input_tokens: nat,
    pub total_output_tokens: nat,
    pub thinking_time_ms: nat,
    pub acting_time_ms: nat,
    pub loop_detection_triggered: nat,
    pub tool_cache_hits: nat,
    pub tool_retries: nat,
}

impl AgentMetrics {
    /// What the metrics say.
    pub open spec fn spec(&self) -> MetricsSpec {
        MetricsSpec {
            total_steps: self.total_steps as nat,
            calls: self.tool_calls_by_name.counts(),
            total_results: self.total_results as nat,
            success_results: self.success_results as nat,
            avg_tool_latency_ms: self.avg_tool_latency_ms as nat,
            total_input_tokens: self.total_input_tokens as nat,
            total_output_tokens: self.total_output_tokens as nat,
            thinking_time_ms: self.thinking_time_ms as nat,
            acting_time_ms: self.acting_time_ms as nat,
            loop_detection_triggered: self.loop_detection_triggered as nat,
            tool_cache_hits: self.tool_cache_hits as nat,
            tool_retries: self.tool_retries as nat,
        }
    }

    /// Each tool has one count.
    pub open spec fn well_formed(&self) -> bool {
        self.tool_calls_by_name.well_formed()
    }
}

/// Metrics of nothing.
pub open spec fn no_metrics() -> MetricsSpec {
    MetricsSpec {
        total_steps: 0,
        calls: Map::empty(),
        total_results: 0,
        success_results: 0,
        avg_tool_latency_ms: 0,
        total_input_tokens: 0,
        total_output_tokens: 0,
        thinking_time_ms: 0,
        acting_time_ms: 0,
        loop_detection_triggered: 0,
        tool_cache_hits: 0,
        tool_retries: 0,
    }
}

impl Default for AgentMetrics {
    fn default() -> (r: Self)
        ensures
            r.well_formed(),
            r.spec() == no_metrics(),
            r.tool_calls_by_name.total() == 0,
    {
        AgentMetrics {
            total_steps: 0,
            tool_calls_by_name: Tally::new(),
            total_results: 0,
            success_results: 0,
            avg_tool_latency_ms: 0,
            total_input_tokens: 0,
            total_output_tokens: 0,
            thinking_time_ms: 0,
            acting_time_ms: 0,
            loop_detection_triggered: 0,
            tool_cache_hits: 0,
            tool_retries: 0,
        }
    }
}

impl Clone for AgentMetrics {
    fn clone(&self) -> (r: Self)
        ensures
            r.spec() == self.spec(),
            self.well_formed() ==> r.well_formed(),
    {
        AgentMetrics {
            total_steps: self.total_steps,
            tool_calls_by_name: tally::copy_tally(&self.tool_calls_by_name),
            total_results: self.total_results,
            success_results: self.success_results,
            avg_tool_latency_ms: self.avg_tool_latency_ms,
            total_input_tokens: self.total_input_tokens,
            total_output_tokens: self.total_output_tokens,
            thinking_time_ms: self.thinking_time_ms,
            acting_time_ms: self.acting_time_ms,
            loop_detection_triggered: self.loop_detection_triggered,
            tool_cache_hits: self.tool_cache_hits,
            tool_retries: self.tool_retries,
        }
    }
}

} // verus!
