//! The agent's loop, one decision at a time.
//!
//! The loop thinks and acts by turns until it comes to an end. What it cannot do itself, asking the
//! language model, running tools and asking the user, happens between two decisions.

use vstd::prelude::*;
use vstd::string::*;

use crate::agent::budget;
use crate::agent::budget::Role;
use crate::agent::cache;
use crate::agent::confirmation;
use crate::agent::confirmation::{ConfirmationRequest, ConfirmationResponse};
use crate::agent::json;
use crate::agent::json::{Fields, Json, JsonValue};
use crate::agent::protocol;
use crate::agent::protocol::{AgentError, AgentResult, CallSpec, ResultSpec, ToolCall, ToolResult};
use crate::agent::response::AgentResponse;
use crate::agent::session;
use crate::agent::session::{AgentSession, MessageSpec};
use crate::agent::state;
use crate::agent::state::{AgentStateMachine, EventSpec, MachineSpec, TransitionEvent};
use crate::agent::tool;
use crate::agent::types;
use crate::agent::types::{
    AgentConfig, AgentState, AgentStep, AgentStopReason, ConfigSpec, MetricsSpec, StepSpec,
    StopSpec, ThinkingPhase, TokenUsage,
};
use crate::paths;
use crate::text;

verus! {

/// What the agent tells while it works.
pub enum AgentEvent {
    StateChanged { from: AgentState, to: AgentState },
    ThinkingPhaseChanged { phase: ThinkingPhase },
    Thinking { text: String },
    ToolCallStarted { name: String, arguments: Json },
    ToolCallCompleted { name: String, result: ToolResult, cached: bool },
    ToolCallFailed { name: String, error: String, will_retry: bool },
    ToolCallRetrying { name: String, attempt: usize, max_attempts: usize },
    StepCompleted { step: AgentStep },
    LoopDetected { detection_type: Json },
    AnswerStarted,
    AnswerToken { text: String },
    AnswerCompleted { response: AgentResponse },
    Error { message: String },
    TokenBudgetWarning { used: usize, remaining: usize },
}

/// What the agent tells while it works.
pub enum NoteSpec {
    StateChanged(AgentState, AgentState),
    PhaseChanged(ThinkingPhase),
    Thinking(Seq<char>),
    Started(Seq<char>, JsonValue),
    Completed(Seq<char>, ResultSpec, bool),
    Failed(Seq<char>, Seq<char>, bool),
    Retrying(Seq<char>, usize, usize),
    StepCompleted(StepSpec),
    LoopDetected(JsonValue),
    AnswerStarted,
    AnswerToken(Seq<char>),
    AnswerCompleted(AgentResponse),
    Error(Seq<char>),
    BudgetWarning(usize, usize),
}

impl AgentEvent {
    /// What the event tells.
    pub open spec fn note(&self) -> NoteSpec {
        match self {
            AgentEvent::StateChanged { from, to } => NoteSpec::StateChanged(*from, *to),
            AgentEvent::ThinkingPhaseChanged { phase } => NoteSpec::PhaseChanged(*phase),
            AgentEvent::Thinking { text } => NoteSpec::Thinking(text@),
            AgentEvent::ToolCallStarted { name, arguments } => NoteSpec::Started(
                name@,
                arguments.model(),
            ),
            AgentEvent::ToolCallCompleted { name, result, cached } => NoteSpec::Completed(
                name@,
                result.spec(),
                *cached,
            ),
            AgentEvent::ToolCallFailed { name, error, will_retry } => NoteSpec::Failed(
                name@,
                error@,
                *will_retry,
            ),
            AgentEvent::ToolCallRetrying { name, attempt, max_attempts } => NoteSpec::Retrying(
                name@,
                *attempt,
                *max_attempts,
            ),
            AgentEvent::StepCompleted { step } => NoteSpec::StepCompleted(step.spec()),
            AgentEvent::LoopDetected { detection_type } => NoteSpec::LoopDetected(
                detection_type.model(),
            ),
            AgentEvent::AnswerStarted => NoteSpec::AnswerStarted,
            AgentEvent::AnswerToken { text } => NoteSpec::AnswerToken(text@),
            AgentEvent::AnswerCompleted { response } => NoteSpec::AnswerCompleted(*response),
            AgentEvent::Error { message } => NoteSpec::Error(message@),
            AgentEvent::TokenBudgetWarning { used, remaining } => NoteSpec::BudgetWarning(
                *used,
                *remaining,
            ),
        }
    }
}

/// What events tell.
pub open spec fn notes(v: Seq<AgentEvent>) -> Seq<NoteSpec> {
    Seq::new(v.len(), |i: int| v[i].note())
}

/// What was found out about repeated calls.
#[derive(Debug)]
pub enum LoopDetectionResult {
    NoLoop,
    /// The same call was made again and again.
    ExactLoop { tool_name: String, occurrences: usize },
    /// Calls like each other were made again and again.
    SimilarLoop { pattern: String, occurrences: usize },
}

/// Why the agent does not go on as usual.
pub enum Limit {
    MaxSteps,
    Timeout,
    Budget,
    Similar(Seq<char>, nat),
    Exact(Seq<char>, nat),
}

/// The budget is low.
pub open spec fn budget_is_low(s: AgentSession) -> bool {
    budget::left(s.budget_manager.config, session::conversation_tokens(s.chat))
        < s.budget_manager.config.response_reserve
}

/// Why the agent does not go on as usual, if it does not: no steps or no time is left; or, while
/// it thinks and is not yet coming to an end, the budget is low or it goes round in circles.
pub open spec fn limit_of(s: AgentSession, elapsed_ms: u64, detection: LoopDetectionResult) -> Option<
    Limit,
> {
    if session::steps_left(s.config.max_steps, s.history().len()) == 0 {
        Some(Limit::MaxSteps)
    } else if session::times_out(s.config.timeout_secs, elapsed_ms) {
        Some(Limit::Timeout)
    } else if s.state != AgentState::Thinking || s.thinking_phase == ThinkingPhase::Concluding {
        None
    } else if budget_is_low(s) {
        Some(Limit::Budget)
    } else {
        match detection {
            LoopDetectionResult::NoLoop => None,
            LoopDetectionResult::ExactLoop { tool_name, occurrences } => Some(
                Limit::Exact(tool_name@, occurrences as nat),
            ),
            LoopDetectionResult::SimilarLoop { pattern, occurrences } => Some(
                Limit::Similar(pattern@, occurrences as nat),
            ),
        }
    }
}

/// Which limit an agent meets: that it has done all its steps comes before that its time is over, and
/// both before anything that matters only while it thinks and is not yet coming to an end; of these
/// the budget comes before going round in circles.
pub proof fn law_limits_come_in_order(
    s: AgentSession,
    elapsed_ms: u64,
    detection: LoopDetectionResult,
)
    ensures
        ({
            let met = limit_of(s, elapsed_ms, detection);
            let used = session::conversation_tokens(s.chat);
            let budget = s.budget_manager.config;
            let no_steps = s.history().len() >= s.config.max_steps;
            let no_time = s.config.timeout_secs > 0 && elapsed_ms >= 1000 * s.config.timeout_secs;
            let at_ease = s.state == AgentState::Thinking && s.thinking_phase
                != ThinkingPhase::Concluding;
            let low = budget.response_reserve > 0 && used + 2 * budget.response_reserve
                > budget.total_budget;
            &&& met == Some(Limit::MaxSteps) <==> no_steps
            &&& met == Some(Limit::Timeout) <==> !no_steps && no_time
            &&& !no_steps && !no_time && !at_ease ==> met is None
            &&& met == Some(Limit::Budget) <==> !no_steps && !no_time && at_ease && low
            &&& !no_steps && !no_time && at_ease && !low ==> match detection {
                LoopDetectionResult::NoLoop => met is None,
                LoopDetectionResult::ExactLoop { tool_name, occurrences } => met == Some(
                    Limit::Exact(tool_name@, occurrences as nat),
                ),
                LoopDetectionResult::SimilarLoop { pattern, occurrences } => met == Some(
                    Limit::Similar(pattern@, occurrences as nat),
                ),
            }
        }),
{
    budget::law_budget_adds_up(
        s.budget_manager.config,
        session::conversation_tokens(s.chat),
        0,
    );
}

/// What a limit moves the agent to.
pub open spec fn limit_event(limit: Limit) -> EventSpec {
    match limit {
        Limit::MaxSteps => EventSpec::MaxStepsReached,
        Limit::Timeout => EventSpec::Timeout,
        Limit::Budget => EventSpec::ForceConclusion,
        Limit::Similar(_, _) => EventSpec::Continue,
        Limit::Exact(_, _) => EventSpec::ForceConclusion,
    }
}

/// What the agent is told about a limit.
pub open spec fn limit_hint(limit: Limit) -> Option<Seq<char>> {
    match limit {
        Limit::MaxSteps => None,
        Limit::Timeout => None,
        Limit::Budget => Some(
            "Token budget is running low. Please provide a concise final answer now."@,
        ),
        Limit::Similar(pattern, occurrences) => Some(
            "I notice you've called '"@ + pattern + "' "@ + text::decimal(occurrences)
                + " times with similar arguments. Please try a different approach or provide a final answer with the information you have."@,
        ),
        Limit::Exact(_, _) => Some(
            "You appear to be repeating the same tool call. Please provide a final answer based on the information gathered so far."@,
        ),
    }
}

/// The fields of a report on a loop.
pub open spec fn loop_fields(kind: Seq<char>, key: Seq<char>, name: Seq<char>, occurrences: nat) -> Seq<
    (Seq<char>, JsonValue),
> {
    seq![
        ("type"@, JsonValue::String(kind)),
        (key, JsonValue::String(name)),
        ("occurrences"@, json::natural_value(occurrences)),
    ]
}

/// What is told about a limit.
pub open spec fn limit_notes(limit: Limit, s: AgentSession) -> Seq<NoteSpec> {
    match limit {
        Limit::MaxSteps => Seq::empty(),
        Limit::Timeout => Seq::empty(),
        Limit::Budget => {
            let used = session::conversation_tokens(s.chat);
            seq![
                NoteSpec::BudgetWarning(
                    used as usize,
                    budget::left(s.budget_manager.config, used) as usize,
                ),
            ]
        },
        Limit::Similar(pattern, n) => seq![
            NoteSpec::LoopDetected(
                JsonValue::Object(loop_fields("similar"@, "pattern"@, pattern, n)),
            ),
        ],
        Limit::Exact(name, n) => seq![
            NoteSpec::LoopDetected(JsonValue::Object(loop_fields("exact"@, "tool"@, name, n))),
        ],
    }
}

/// A limit makes the agent come to an end of its thinking.
pub open spec fn concludes(limit: Limit) -> bool {
    match limit {
        Limit::Budget => true,
        Limit::Exact(_, _) => true,
        _ => false,
    }
}

/// A limit is a loop.
pub open spec fn is_loop(limit: Limit) -> bool {
    match limit {
        Limit::Similar(_, _) => true,
        Limit::Exact(_, _) => true,
        _ => false,
    }
}

/// The numbers after a limit was met: a loop is counted.
pub open spec fn counted_loop(limit: Limit, m: MetricsSpec) -> MetricsSpec {
    if is_loop(limit) {
        MetricsSpec { loop_detection_triggered: m.loop_detection_triggered + 1, ..m }
    } else {
        m
    }
}

/// A session after a limit was met.
pub open spec fn met_limit(before: AgentSession, after: AgentSession, limit: Limit) -> bool {
    &&& after.well_formed()
    &&& after.id == before.id
    &&& after.config == before.config
    &&& after.tool_cache == before.tool_cache
    &&& after.state == before.state
    &&& after.thinking_phase == if concludes(limit) {
        ThinkingPhase::Concluding
    } else {
        before.thinking_phase
    }
    &&& after.history() == before.history()
    &&& after.chat.system_prompt == before.chat.system_prompt
    &&& after.chat.said() == match limit_hint(limit) {
        Some(hint) => before.chat.said().push(MessageSpec { role: Role::User, content: hint }),
        None => before.chat.said(),
    }
    &&& after.stop_reason == before.stop_reason
    &&& after.final_answer == before.final_answer
    &&& after.metrics.spec() == counted_loop(limit, before.metrics.spec())
}

/// An agent whose budget is low or that makes the same call again and again is told to give its
/// answer and comes to an end of its thinking; one that only makes calls like each other is told so
/// and goes on. Both loops are counted, and neither steps nor answers are touched.
pub proof fn law_limits_are_told(
    before: AgentSession,
    after: AgentSession,
    limit: Limit,
    m: MachineSpec,
)
    requires
        met_limit(before, after, limit),
        m.state == AgentState::Thinking,
    ensures
        after.history() == before.history(),
        after.final_answer == before.final_answer,
        match limit {
            Limit::MaxSteps | Limit::Timeout => {
                &&& after.chat.said() == before.chat.said()
                &&& after.thinking_phase == before.thinking_phase
                &&& state::moved(m, limit_event(limit)).state == AgentState::Failed
                &&& after.metrics.spec() == before.metrics.spec()
            },
            Limit::Budget => {
                &&& after.chat.said().len() == before.chat.said().len() + 1
                &&& after.chat.said().last().role == Role::User
                &&& after.thinking_phase == ThinkingPhase::Concluding
                &&& state::moved(m, limit_event(limit)).phase == ThinkingPhase::Concluding
                &&& after.metrics.spec() == before.metrics.spec()
            },
            Limit::Exact(_, _) => {
                &&& after.chat.said().len() == before.chat.said().len() + 1
                &&& after.chat.said().last().role == Role::User
                &&& after.thinking_phase == ThinkingPhase::Concluding
                &&& state::moved(m, limit_event(limit)).phase == ThinkingPhase::Concluding
                &&& after.metrics.spec().loop_detection_triggered
                    == before.metrics.spec().loop_detection_triggered + 1
            },
            Limit::Similar(pattern, occurrences) => {
                &&& after.chat.said().len() == before.chat.said().len() + 1
                &&& after.chat.said().last().role == Role::User
                &&& exists|a: Seq<char>, b: Seq<char>|
                    after.chat.said().last().content == #[trigger] (a + pattern + b)
                &&& after.thinking_phase == before.thinking_phase
                &&& state::moved(m, limit_event(limit)) == m
                &&& after.metrics.spec().loop_detection_triggered
                    == before.metrics.spec().loop_detection_triggered + 1
            },
        },
{
    if let Limit::Similar(pattern, occurrences) = limit {
        let a = "I notice you've called '"@;
        let c = " times with similar arguments. Please try a different approach or provide a final answer with the information you have."@;
        let b = "' "@ + text::decimal(occurrences) + c;
        assert(a + pattern + "' "@ + text::decimal(occurrences) + c =~= a + pattern + b);
    }
}

/// The report on a loop says which kind it is, what is repeated, and how often.
pub proof fn law_loop_report_names_what_is_repeated(s: AgentSession, name: Seq<char>, n: nat)
    ensures
        limit_notes(Limit::Exact(name, n), s).len() == 1,
        limit_notes(Limit::Exact(name, n), s)[0] matches NoteSpec::LoopDetected(v) && v.field(
            "type"@,
        ) == Some(JsonValue::String("exact"@)) && v.field("tool"@) == Some(
            JsonValue::String(name),
        ) && v.field("occurrences"@) == Some(json::natural_value(n)),
        limit_notes(Limit::Similar(name, n), s).len() == 1,
        limit_notes(Limit::Similar(name, n), s)[0] matches NoteSpec::LoopDetected(v) && v.field(
            "type"@,
        ) == Some(JsonValue::String("similar"@)) && v.field("pattern"@) == Some(
            JsonValue::String(name),
        ) && v.field("occurrences"@) == Some(json::natural_value(n)),
{
    reveal_strlit("type");
    reveal_strlit("tool");
    reveal_strlit("pattern");
    reveal_strlit("occurrences");
    assert("type"@.len() == 4);
    assert("tool"@.len() == 4);
    assert("pattern"@.len() == 7);
    assert("occurrences"@.len() == 11);
    assert("type"@[1] != "tool"@[1]);
    let exact = loop_fields("exact"@, "tool"@, name, n);
    let similar = loop_fields("similar"@, "pattern"@, name, n);
    json::lemma_field(exact, 0);
    json::lemma_field(exact, 1);
    json::lemma_field(exact, 2);
    json::lemma_field(similar, 0);
    json::lemma_field(similar, 1);
    json::lemma_field(similar, 2);
}

/// What a transition may change.
pub struct LoopSpec {
    pub machine: MachineSpec,
    pub state: AgentState,
    pub phase: ThinkingPhase,
    pub answer: Option<Seq<char>>,
    pub stop: Option<StopSpec>,
}

/// Why a run stopped that ended for a reason.
pub open spec fn stop_for(reason: Option<Seq<char>>) -> StopSpec {
    match reason {
        Some(r) => if r == "max_steps"@ {
            StopSpec::MaxSteps
        } else if r == "timeout"@ {
            StopSpec::Timeout
        } else if r == "completed"@ {
            StopSpec::Completed
        } else {
            StopSpec::Error(r)
        },
        None => StopSpec::Error("unknown"@),
    }
}

/// Where an event leads: the machine moves, the session follows it, an answer completes the run,
/// and at an end the reason to stop is set unless there is one already.
pub open spec fn transitioned(l: LoopSpec, e: EventSpec) -> LoopSpec {
    let m = state::moved(l.machine, e);
    let stop = if m.answer is Some {
        Some(StopSpec::Completed)
    } else {
        l.stop
    };
    LoopSpec {
        machine: MachineSpec { answer: None, ..m },
        state: if m.state != l.machine.state {
            m.state
        } else {
            l.state
        },
        phase: m.phase,
        answer: match m.answer {
            Some(a) => Some(a),
            None => l.answer,
        },
        stop: if state::is_end(m.state) && stop is None {
            Some(stop_for(m.reason))
        } else {
            stop
        },
    }
}

/// An answer out of thinking completes the run, whatever reason to stop was set before.
pub proof fn law_answer_completes(l: LoopSpec, t: Seq<char>)
    requires
        l.machine.state == AgentState::Thinking,
    ensures
        ({
            let after = transitioned(l, EventSpec::FinalAnswer(t));
            &&& after.state == AgentState::Done
            &&& after.answer == Some(t)
            &&& after.stop == Some(StopSpec::Completed)
        }),
{
}

/// A run that meets its limits fails, and says which limit it was unless it was stopped before.
pub proof fn law_limits_fail_the_run(l: LoopSpec)
    requires
        !state::is_end(l.machine.state),
        l.machine.answer is None,
        l.stop is None,
    ensures
        transitioned(l, EventSpec::MaxStepsReached).state == AgentState::Failed,
        transitioned(l, EventSpec::MaxStepsReached).stop == Some(StopSpec::MaxSteps),
        transitioned(l, EventSpec::Timeout).state == AgentState::Failed,
        transitioned(l, EventSpec::Timeout).stop == Some(StopSpec::Timeout),
{
    reveal_strlit("max_steps");
    reveal_strlit("timeout");
    assert("max_steps"@.len() != "timeout"@.len());
}

/// What is told of a state that was left for another.
pub open spec fn change_notes(from: AgentState, to: AgentState) -> Seq<NoteSpec> {
    if from != to {
        seq![NoteSpec::StateChanged(from, to)]
    } else {
        Seq::empty()
    }
}

/// A session is the same but for what a transition may change.
pub open spec fn same_record(a: AgentSession, b: AgentSession) -> bool {
    &&& a.id == b.id
    &&& a.config == b.config
    &&& a.budget_manager == b.budget_manager
    &&& a.steps == b.steps
    &&& a.chat == b.chat
    &&& a.total_token_usage == b.total_token_usage
    &&& a.total_duration_ms == b.total_duration_ms
    &&& a.tool_cache == b.tool_cache
    &&& a.metrics == b.metrics
}

/// Two sessions have the same name, the same budget, the same kept results, and as many loops, hits
/// and retries.
pub open spec fn same_standing(a: AgentSession, b: AgentSession) -> bool {
    &&& a.id == b.id
    &&& a.budget_manager == b.budget_manager
    &&& a.tool_cache == b.tool_cache
    &&& a.metrics.loop_detection_triggered == b.metrics.loop_detection_triggered
    &&& a.metrics.tool_cache_hits == b.metrics.tool_cache_hits
    &&& a.metrics.tool_retries == b.metrics.tool_retries
}

/// The agent goes on as usual only while steps are left.
pub proof fn law_goes_on_with_steps_left(
    s: AgentSession,
    elapsed_ms: u64,
    detection: LoopDetectionResult,
)
    requires
        limit_of(s, elapsed_ms, detection) is None,
    ensures
        s.history().len() < s.config.max_steps,
        !session::times_out(s.config.timeout_secs, elapsed_ms),
{
}

/// What the loop does next.
#[derive(Debug, Clone, Copy, PartialEq, Eq, Structural)]
pub enum Turn {
    /// The run has come to an end.
    Finished,
    /// A limit was dealt with; the loop goes round once more.
    Again,
    /// The language model is to be asked.
    Think,
    /// The calls that wait are to be made.
    Act,
}

/// What came of running a tool in its own thread.
pub enum CallOutcome {
    /// It returned.
    Returned(AgentResult<ToolResult>),
    /// It panicked.
    Panicked,
}

/// The calls among `calls` that may be made: all if nothing is listed.
pub open spec fn allowed_calls(calls: Seq<CallSpec>, allowed: Seq<Seq<char>>) -> Seq<CallSpec>
    decreases calls.len(),
{
    if allowed.len() == 0 {
        calls
    } else if calls.len() == 0 {
        Seq::empty()
    } else {
        let front = allowed_calls(calls.drop_last(), allowed);
        if allowed.contains(calls.last().name) {
            front.push(calls.last())
        } else {
            front
        }
    }
}

/// A thought is recorded as it was said, with what it used, and calls are recorded with their results
/// and without use of their own; each step has the number that follows.
pub proof fn law_steps_hold_what_happened(
    l: AgentLoop,
    said: Seq<char>,
    usage: TokenUsage,
    ms: u64,
    calls: Seq<CallSpec>,
    results: Seq<ResultSpec>,
)
    requires
        l.session.history().len() < usize::MAX,
    ensures
        ({
            let thought = l.thought_step(said, usage, ms);
            let acted = l.call_step(calls, results, ms);
            &&& thought.thought == Some(said)
            &&& thought.usage == usage
            &&& thought.duration_ms == ms
            &&& thought.state == AgentState::Thinking
            &&& thought.calls.len() == 0 && thought.results.len() == 0
            &&& thought.step_number == l.session.history().len() + 1
            &&& acted.calls == calls && acted.results == results
            &&& acted.thought is None
            &&& acted.duration_ms == ms
            &&& acted.state == AgentState::Acting
            &&& acted.usage.prompt_tokens == 0 && acted.usage.completion_tokens == 0
                && acted.usage.total_tokens == 0
            &&& acted.step_number == l.session.history().len() + 1
        }),
{
}

/// A change of state is told once, with both states, and only if there is one.
pub proof fn law_only_changes_are_told(from: AgentState, to: AgentState)
    ensures
        from == to ==> change_notes(from, to).len() == 0,
        from != to ==> change_notes(from, to).len() == 1 && change_notes(from, to)[0]
            == NoteSpec::StateChanged(from, to),
{
}

/// A run has ended when it is done or has failed, by its session or by its machine.
pub proof fn law_runs_end_done_or_failed(l: AgentLoop)
    ensures
        l.ended() <==> (l.machine.state == AgentState::Done || l.machine.state == AgentState::Failed
            || l.session.state == AgentState::Done || l.session.state == AgentState::Failed),
{
}

/// Unless another configuration is asked for, a run has ten steps and two minutes, every tool may be
/// called, and at most five calls are made in a step.
pub proof fn law_usual_run(n: nat, elapsed_ms: u64, calls: Seq<CallSpec>)
    ensures
        ({
            let config = types::default_config();
            &&& session::steps_left(config.max_steps, n) == 0 <==> n >= 10
            &&& session::times_out(config.timeout_secs, elapsed_ms) <==> elapsed_ms >= 120_000
            &&& allowed_calls(calls, config.allowed_tools) == calls
            &&& calls.len() <= 5 ==> calls_of_step(calls, config.max_tool_calls_per_step as nat)
                == calls
            &&& calls.len() > 5 ==> calls_of_step(calls, config.max_tool_calls_per_step as nat)
                == calls.take(5)
            &&& !config.require_plan_confirmation
        }),
{
}

/// Only tools that are listed are called, if any are listed.
pub proof fn law_only_allowed_tools_are_called(
    calls: Seq<CallSpec>,
    allowed: Seq<Seq<char>>,
    i: int,
)
    requires
        allowed.len() > 0,
        0 <= i < allowed_calls(calls, allowed).len(),
    ensures
        allowed.contains(allowed_calls(calls, allowed)[i].name),
    decreases calls.len(),
{
    if calls.len() > 0 {
        let front = allowed_calls(calls.drop_last(), allowed);
        if i < front.len() {
            law_only_allowed_tools_are_called(calls.drop_last(), allowed, i);
        }
    }
}

/// Exactly the calls of listed tools are kept, in order and as often as they were asked for,
/// wherever in the list a tool stands; with no list, every call is kept.
pub proof fn law_exactly_listed_calls_are_kept(calls: Seq<CallSpec>, allowed: Seq<Seq<char>>)
    ensures
        allowed.len() == 0 ==> allowed_calls(calls, allowed) == calls,
        allowed.len() > 0 ==> allowed_calls(calls, allowed) == calls.filter(
            |call: CallSpec|
                exists|j: int| 0 <= j < allowed.len() && #[trigger] allowed[j] == call.name,
        ),
    decreases calls.len(),
{
    let listed = |call: CallSpec|
        exists|j: int| 0 <= j < allowed.len() && #[trigger] allowed[j] == call.name;
    if allowed.len() > 0 {
        reveal(Seq::filter);
        if calls.len() > 0 {
            law_exactly_listed_calls_are_kept(calls.drop_last(), allowed);
            assert(allowed.contains(calls.last().name) == listed(calls.last()));
        } else {
            assert(calls.filter(listed) =~= Seq::empty());
        }
    }
}

/// A call of a listed tool is kept, as often as it was asked for.
pub proof fn law_listed_call_is_kept(
    calls: Seq<CallSpec>,
    allowed: Seq<Seq<char>>,
    i: int,
    j: int,
)
    requires
        0 <= i < calls.len(),
        0 <= j < allowed.len(),
        allowed[j] == calls[i].name,
    ensures
        allowed_calls(calls, allowed).contains(calls[i]),
        allowed_calls(calls, allowed).to_multiset().count(calls[i]) == calls.to_multiset().count(
            calls[i],
        ),
    decreases calls.len(),
{
    let call = calls[i];
    lemma_count_of_listed(calls, allowed, call, j);
    let kept = allowed_calls(calls, allowed);
    broadcast use vstd::seq_lib::group_to_multiset_ensures;

    assert(calls.contains(call));
    assert(kept.to_multiset().contains(call));
}

proof fn lemma_count_of_listed(
    calls: Seq<CallSpec>,
    allowed: Seq<Seq<char>>,
    call: CallSpec,
    j: int,
)
    requires
        0 <= j < allowed.len(),
        allowed[j] == call.name,
    ensures
        allowed_calls(calls, allowed).to_multiset().count(call) == calls.to_multiset().count(call),
    decreases calls.len(),
{
    broadcast use vstd::seq_lib::group_to_multiset_ensures;

    if calls.len() > 0 {
        lemma_count_of_listed(calls.drop_last(), allowed, call, j);
        assert(calls =~= calls.drop_last().push(calls.last()));
        assert(allowed.contains(allowed[j]));
    } else {
        assert(allowed_calls(calls, allowed) =~= calls);
    }
}

/// The calls that a thought asks for.
pub open spec fn wanted_calls(parsed: Option<Vec<ToolCall>>, allowed: Seq<Seq<char>>) -> Seq<
    CallSpec,
> {
    match parsed {
        Some(calls) => allowed_calls(protocol::call_specs(calls@), allowed),
        None => Seq::empty(),
    }
}

/// What comes of a thought: the calls that it asks for, or, where none may be made, its text as the
/// answer.
pub open spec fn thought_event(
    said: Seq<char>,
    parsed: Option<Vec<ToolCall>>,
    allowed: Seq<Seq<char>>,
) -> EventSpec {
    let wanted = wanted_calls(parsed, allowed);
    if wanted.len() == 0 {
        EventSpec::FinalAnswer(said)
    } else {
        EventSpec::ToolCallsDetected(wanted)
    }
}

/// A thought that asks for a tool that may be called is never taken as the answer: the call is
/// among those that are to be made. A tool may be called if it stands anywhere in the list, or if
/// nothing is listed.
pub proof fn law_thought_with_allowed_call_is_no_answer(
    said: Seq<char>,
    calls: Vec<ToolCall>,
    allowed: Seq<Seq<char>>,
    i: int,
)
    requires
        0 <= i < calls@.len(),
        allowed.len() == 0 || exists|j: int|
            0 <= j < allowed.len() && #[trigger] allowed[j] == calls@[i].name@,
    ensures
        thought_event(said, Some(calls), allowed) matches EventSpec::ToolCallsDetected(made)
            && made.contains(calls@[i].spec()),
{
    let specs = protocol::call_specs(calls@);
    assert(specs[i] == calls@[i].spec());
    if allowed.len() > 0 {
        let j = choose|j: int| 0 <= j < allowed.len() && #[trigger] allowed[j] == calls@[i].name@;
        law_listed_call_is_kept(specs, allowed, i, j);
    } else {
        assert(specs.contains(specs[i]));
    }
}

/// A thought that asks for no tool that may be called is the answer, word for word.
pub proof fn law_thought_without_allowed_call_is_the_answer(
    said: Seq<char>,
    parsed: Option<Vec<ToolCall>>,
    allowed: Seq<Seq<char>>,
)
    requires
        parsed matches Some(calls) ==> forall|i: int, j: int|
            0 <= i < calls@.len() && 0 <= j < allowed.len() ==> #[trigger] allowed[j]
                != #[trigger] calls@[i].name@,
        parsed matches Some(calls) ==> calls@.len() > 0 ==> allowed.len() > 0,
    ensures
        thought_event(said, parsed, allowed) == EventSpec::FinalAnswer(said),
{
    if let Some(calls) = parsed {
        let specs = protocol::call_specs(calls@);
        law_exactly_listed_calls_are_kept(specs, allowed);
        let listed = |call: CallSpec|
            exists|j: int| 0 <= j < allowed.len() && #[trigger] allowed[j] == call.name;
        assert forall|i: int| 0 <= i < specs.len() implies !listed(#[trigger] specs[i]) by {
            assert(specs[i] == calls@[i].spec());
        }
        specs.lemma_all_neg_filter_empty(listed);
    }
}

/// The use that a language model reports; what it reports below 0 is 0.
pub open spec fn converted(prompt: i32, completion: i32) -> TokenUsage {
    let p = if prompt < 0 {
        0
    } else {
        prompt as usize
    };
    let c = if completion < 0 {
        0
    } else {
        completion as usize
    };
    TokenUsage { prompt_tokens: p, completion_tokens: c, total_tokens: (p + c) as usize }
}

/// The use that is reported is taken over number by number, and the total is their sum.
pub proof fn law_reported_use_adds_up(prompt: i32, completion: i32)
    ensures
        prompt >= 0 ==> converted(prompt, completion).prompt_tokens == prompt,
        completion >= 0 ==> converted(prompt, completion).completion_tokens == completion,
        prompt <= 0 ==> converted(prompt, completion).prompt_tokens == 0,
        completion <= 0 ==> converted(prompt, completion).completion_tokens == 0,
        converted(prompt, completion).total_tokens == converted(prompt, completion).prompt_tokens
            + converted(prompt, completion).completion_tokens,
{
}

/// Takes over the use that a language model reports.
pub fn convert_token_usage(prompt_tokens: i32, completion_tokens: i32) -> (r: TokenUsage)
    ensures
        r == converted(prompt_tokens, completion_tokens),
{
    let prompt: usize = if prompt_tokens < 0 {
        0
    } else {
        prompt_tokens as usize
    };
    let completion: usize = if completion_tokens < 0 {
        0
    } else {
        completion_tokens as usize
    };
    TokenUsage {
        prompt_tokens: prompt,
        completion_tokens: completion,
        total_tokens: prompt + completion,
    }
}

/// What is told of a result: that the call completed, or the text of the failure.
pub open spec fn completion_note(name: Seq<char>, result: ResultSpec) -> NoteSpec {
    if result.success {
        NoteSpec::Completed(name, result, false)
    } else {
        NoteSpec::Failed(name, tool::shown(result.value), false)
    }
}

/// Tells of a result.
pub fn completion_event(name: &str, result: &ToolResult) -> (r: AgentEvent)
    ensures
        r.note() == completion_note(name@, result.spec()),
{
    if result.success {
        AgentEvent::ToolCallCompleted {
            name: name.to_owned(),
            result: result.clone(),
            cached: false,
        }
    } else {
        AgentEvent::ToolCallFailed {
            name: name.to_owned(),
            error: tool::value_text(&result.value),
            will_retry: false,
        }
    }
}

/// Tells that a call is being made.
pub fn started_event(call: &ToolCall) -> (r: AgentEvent)
    ensures
        r.note() == NoteSpec::Started(
            call.name@,
            JsonValue::Object(tool::argument_fields(*call)),
        ),
{
    AgentEvent::ToolCallStarted {
        name: call.name.clone(),
        arguments: tool::arguments_object(call),
    }
}

/// The result of a call: what the tool answered, or a failure that says what went wrong.
pub open spec fn settled(call: ToolCall, outcome: CallOutcome) -> ResultSpec {
    match outcome {
        CallOutcome::Returned(Ok(result)) => result.spec(),
        CallOutcome::Returned(Err(e)) => protocol::error_result(paths::opt_view(call.id), e),
        CallOutcome::Panicked => protocol::failed("Tool thread panicked"@),
    }
}

/// What is told of a call that was made.
pub open spec fn settled_notes(call: ToolCall, outcome: CallOutcome) -> Seq<NoteSpec> {
    match outcome {
        CallOutcome::Returned(Ok(result)) => seq![completion_note(call.name@, result.spec())],
        CallOutcome::Returned(Err(e)) => seq![
            NoteSpec::Failed(call.name@, e.display(), false),
            NoteSpec::Failed(call.name@, e.display(), false),
        ],
        CallOutcome::Panicked => Seq::empty(),
    }
}

/// A call that was answered has just that answer as its result; one that failed or panicked has a
/// failure, which says what went wrong and, if the tool returned, under which call.
pub proof fn law_calls_are_settled_as_they_went(call: ToolCall, result: ToolResult, e: AgentError)
    ensures
        settled(call, CallOutcome::Returned(Ok(result))) == result.spec(),
        settled_notes(call, CallOutcome::Returned(Ok(result))).len() == 1,
        result.success ==> settled_notes(call, CallOutcome::Returned(Ok(result)))[0]
            == NoteSpec::Completed(call.name@, result.spec(), false),
        !result.success ==> settled_notes(call, CallOutcome::Returned(Ok(result)))[0] is Failed,
        ({
            let failed = settled(call, CallOutcome::Returned(Err(e)));
            &&& !failed.success
            &&& failed.value == JsonValue::String(e.display())
            &&& failed.call_id == paths::opt_view(call.id)
        }),
        !settled(call, CallOutcome::Panicked).success,
        settled_notes(call, CallOutcome::Panicked).len() == 0,
{
}

/// Settles a call: its result, and what is told of it.
pub fn settle_call(call: &ToolCall, outcome: CallOutcome) -> (r: (ToolResult, Vec<AgentEvent>))
    ensures
        r.0.spec() == settled(*call, outcome),
        notes(r.1@) == settled_notes(*call, outcome),
{
    let mut events: Vec<AgentEvent> = Vec::new();
    match outcome {
        CallOutcome::Returned(Ok(result)) => {
            let e = completion_event(call.name.as_str(), &result);
            events.push(e);
            assert(notes(events@) =~= seq![e.note()]);
            (result, events)
        },
        CallOutcome::Returned(Err(e)) => {
            let m = e.to_text();
            let result = protocol::format_result(call, Err(e));
            let first = AgentEvent::ToolCallFailed {
                name: call.name.clone(),
                error: m,
                will_retry: false,
            };
            events.push(first);
            let second = completion_event(call.name.as_str(), &result);
            events.push(second);
            assert(notes(events@) =~= seq![first.note(), second.note()]);
            (result, events)
        },
        CallOutcome::Panicked => {
            assert(notes(events@) =~= Seq::empty());
            (ToolResult::error("Tool thread panicked"), events)
        },
    }
}

/// The loop of the agent.
pub struct AgentLoop {
    pub session: AgentSession,
    pub machine: AgentStateMachine,
    pub last_query: Option<String>,
}

/// `after` is the result `before`, cut to what a result may take. A success is cut as JSON text;
/// what is no JSON once it is cut becomes a string.
pub open spec fn is_cut_result(
    config: types::TokenBudgetConfig,
    before: ResultSpec,
    after: ResultSpec,
) -> bool {
    if !before.success {
        after == before
    } else {
        exists|t: Seq<char>|
            #[trigger] budget::is_truncated(
                budget::SimpleTokenEstimator,
                config,
                json::json_text(before.value),
                t,
            ) && after == (ResultSpec {
                value: match json::json_value(t) {
                    Some(v) => v,
                    None => JsonValue::String(t),
                },
                ..before
            })
    }
}

/// `after` is the result `before`, or says the same.
pub open spec fn is_kept_result(before: ResultSpec, after: ResultSpec) -> bool {
    &&& json::same_value(before.value, after.value)
    &&& after == (ResultSpec { value: after.value, ..before })
}

/// The result takes no more than a result may take, and is JSON that can be read again.
pub open spec fn fits(config: types::TokenBudgetConfig, result: ResultSpec) -> bool {
    &&& json::readable(result.value, 127)
    &&& budget::TokenEstimator::text_tokens(
        &budget::SimpleTokenEstimator,
        json::json_text(result.value),
    ) <= config.tool_result_max
}

/// Some success cannot be cut: no character starts where it would be.
pub open spec fn cannot_cut(config: types::TokenBudgetConfig, result: ResultSpec) -> bool {
    result.success && !budget::can_truncate(
        budget::SimpleTokenEstimator,
        config,
        json::json_text(result.value),
    )
}

/// Results that are cut to what a result may take, one by one. A result that fits stays what it is.
pub open spec fn are_cut_results(
    config: types::TokenBudgetConfig,
    before: Seq<ResultSpec>,
    after: Seq<ResultSpec>,
) -> bool {
    &&& after.len() == before.len()
    &&& forall|i: int|
        0 <= i < before.len() ==> is_cut_result(config, #[trigger] before[i], after[i])
    &&& forall|i: int|
        0 <= i < before.len() && (#[trigger] before[i]).success && fits(config, before[i])
            ==> is_kept_result(before[i], after[i])
}

/// The calls that are made in a step: the first of those that wait.
pub open spec fn calls_of_step(pending: Seq<CallSpec>, max: nat) -> Seq<CallSpec> {
    if pending.len() <= max {
        pending
    } else {
        pending.take(max as int)
    }
}

/// The calls of a step are the first that wait, in order: all of them, or as many as a step may have.
pub proof fn law_first_calls_are_made(pending: Seq<CallSpec>, max: nat)
    ensures
        calls_of_step(pending, max).is_prefix_of(pending),
        pending.len() <= max ==> calls_of_step(pending, max) == pending,
        pending.len() > max ==> calls_of_step(pending, max).len() == max,
{
}

/// A failure is never cut. A success keeps its place and its call, and is the same value as before
/// if it fits.
pub proof fn law_results_are_only_cut_for_size(
    config: types::TokenBudgetConfig,
    before: Seq<ResultSpec>,
    after: Seq<ResultSpec>,
    i: int,
)
    requires
        are_cut_results(config, before, after),
        0 <= i < before.len(),
    ensures
        after.len() == before.len(),
        after[i].success == before[i].success,
        after[i].call_id == before[i].call_id,
        !before[i].success ==> after[i].value == before[i].value,
        before[i].success && json::readable(before[i].value, 127) && text::utf8_len(
            json::json_text(before[i].value),
        ) <= 4 * config.tool_result_max ==> json::same_value(before[i].value, after[i].value),
{
    assert(is_cut_result(config, before[i], after[i]));
    budget::law_four_bytes_take_a_token(json::json_text(before[i].value));
}

/// Calls that the user is to be asked about.
pub struct PlannedCalls {
    calls: Vec<ToolCall>,
}

impl View for PlannedCalls {
    type V = Seq<CallSpec>;

    closed spec fn view(&self) -> Seq<CallSpec> {
        protocol::call_specs(self.calls@)
    }
}

/// Calls that may be made: nobody had to be asked, or the user has agreed.
pub struct ClearedCalls {
    calls: Vec<ToolCall>,
}

impl View for ClearedCalls {
    type V = Seq<CallSpec>;

    closed spec fn view(&self) -> Seq<CallSpec> {
        protocol::call_specs(self.calls@)
    }
}

impl ClearedCalls {
    /// The calls.
    pub fn calls(&self) -> (r: &Vec<ToolCall>)
        ensures
            protocol::call_specs(r@) == self@,
    {
        &self.calls
    }
}

/// Calls that were made, with their results as they are kept.
pub struct MadeCalls {
    calls: Vec<ToolCall>,
    results: Vec<ToolResult>,
}

impl View for MadeCalls {
    type V = (Seq<CallSpec>, Seq<ResultSpec>);

    closed spec fn view(&self) -> (Seq<CallSpec>, Seq<ResultSpec>) {
        (protocol::call_specs(self.calls@), protocol::result_specs(self.results@))
    }
}

impl MadeCalls {
    /// The calls.
    pub fn calls(&self) -> (r: &Vec<ToolCall>)
        ensures
            protocol::call_specs(r@) == self@.0,
    {
        &self.calls
    }

    /// The results.
    pub fn results(&self) -> (r: &Vec<ToolResult>)
        ensures
            protocol::result_specs(r@) == self@.1,
    {
        &self.results
    }
}

/// What acting comes to next. Calls are made only once they are cleared, results are taken only of
/// cleared calls, and only calls with their results are recorded.
pub enum ActStep {
    /// The user is to be asked about the calls.
    Ask(PlannedCalls, ConfirmationRequest),
    /// The calls are to be made.
    Run(ClearedCalls),
    /// No call is made, and the run follows an event.
    Stop(TransitionEvent, AgentEvent),
}

/// What acting comes to next.
pub enum ActPlan {
    Ask(Seq<CallSpec>),
    Run(Seq<CallSpec>),
    Stop(EventSpec),
}

impl ActStep {
    /// What acting comes to next.
    pub open spec fn plan(&self) -> ActPlan {
        match self {
            ActStep::Ask(calls, _) => ActPlan::Ask(calls@),
            ActStep::Run(calls) => ActPlan::Run(calls@),
            ActStep::Stop(event, _) => ActPlan::Stop(event.spec()),
        }
    }
}

/// The user is asked before calls are made: the configuration says so, somebody answers, and there
/// are calls.
pub open spec fn asks_first(config: AgentConfig, answered: bool, calls: Seq<CallSpec>) -> bool {
    config.require_plan_confirmation && answered && calls.len() > 0
}

/// How acting begins.
pub open spec fn first_plan(config: AgentConfig, answered: bool, calls: Seq<CallSpec>) -> ActPlan {
    if asks_first(config, answered, calls) {
        ActPlan::Ask(calls)
    } else {
        ActPlan::Run(calls)
    }
}

/// How acting goes on after the user's answer.
pub open spec fn plan_after(calls: Seq<CallSpec>, response: ConfirmationResponse) -> ActPlan {
    match response {
        ConfirmationResponse::Deny => ActPlan::Stop(
            EventSpec::UnrecoverableError("User denied execution"@),
        ),
        ConfirmationResponse::Approve | ConfirmationResponse::ApproveAll => ActPlan::Run(calls),
    }
}

/// What the user's answer makes of a session: nothing is asked again once everything is agreed to,
/// and a refusal ends the run.
pub open spec fn answered_session(
    before: AgentSession,
    after: AgentSession,
    response: ConfirmationResponse,
) -> bool {
    match response {
        ConfirmationResponse::Approve => after == before,
        ConfirmationResponse::ApproveAll => {
            &&& after == (AgentSession { config: after.config, ..before })
            &&& after.config.spec() == (ConfigSpec {
                require_plan_confirmation: false,
                ..before.config.spec()
            })
        },
        ConfirmationResponse::Deny => {
            &&& after == (AgentSession {
                state: AgentState::Failed,
                stop_reason: after.stop_reason,
                ..before
            })
            &&& types::opt_stop(after.stop_reason) == Some(StopSpec::UserCancel)
        },
    }
}

/// Calls that the user is asked about are made if the user agrees, and only then. A refusal ends the
/// run.
pub proof fn law_refused_calls_are_not_made(
    config: AgentConfig,
    calls: Seq<CallSpec>,
    response: ConfirmationResponse,
    m: MachineSpec,
)
    requires
        config.require_plan_confirmation,
        calls.len() > 0,
        !state::is_end(m.state),
    ensures
        first_plan(config, true, calls) == ActPlan::Ask(calls),
        response != ConfirmationResponse::Deny <==> plan_after(calls, response) == ActPlan::Run(calls),
        response == ConfirmationResponse::Deny ==> match plan_after(calls, response) {
            ActPlan::Stop(event) => state::moved(m, event).state == AgentState::Failed,
            _ => false,
        },
{
}

/// Nobody is asked, and the calls are made at once, unless the configuration says so and there is
/// somebody to ask. Once the user agrees to everything nobody is asked again.
pub proof fn law_calls_are_made_unless_asked_about(
    config: AgentConfig,
    answered: bool,
    calls: Seq<CallSpec>,
    before: AgentSession,
    after: AgentSession,
)
    requires
        answered_session(before, after, ConfirmationResponse::ApproveAll),
    ensures
        !config.require_plan_confirmation || !answered || calls.len() == 0 ==> first_plan(
            config,
            answered,
            calls,
        ) == ActPlan::Run(calls),
        !after.config.spec().require_plan_confirmation,
        first_plan(after.config, answered, calls) == ActPlan::Run(calls),
{
}

/// The steps that a run may have once it goes on after its steps were used up.
pub open spec fn more_steps(max: usize) -> usize {
    let more = if max >= 5 {
        max + max
    } else {
        max + 5
    };
    if more <= usize::MAX {
        more as usize
    } else {
        usize::MAX
    }
}

/// A run that goes on has steps left, whatever it has done: as many again as it had, and at least
/// five, unless that is more than can be counted.
pub proof fn law_going_on_gives_steps(max: usize)
    ensures
        more_steps(max) >= max,
        2 * max <= usize::MAX && max + 5 <= usize::MAX ==> more_steps(max) >= 2 * max && more_steps(
            max,
        ) >= max + 5 && (more_steps(max) == 2 * max || more_steps(max) == max + 5),
        max < usize::MAX ==> session::steps_left(more_steps(max), max as nat) > 0,
{
}

impl AgentLoop {
    /// What a transition may change.
    pub open spec fn standing(&self) -> LoopSpec {
        LoopSpec {
            machine: self.machine.spec(),
            state: self.session.state,
            phase: self.session.thinking_phase,
            answer: paths::opt_view(self.session.final_answer),
            stop: types::opt_stop(self.session.stop_reason),
        }
    }

    /// The run has come to an end.
    pub open spec fn ended(&self) -> bool {
        state::is_end(self.machine.state) || state::is_end(self.session.state)
    }

    /// Nothing was said or done yet.
    pub open spec fn is_fresh(&self) -> bool {
        &&& self.session.well_formed()
        &&& self.session.budget_manager.config == self.session.config.token_budget
        &&& self.session.history().len() == 0
        &&& self.session.chat.said().len() == 0
        &&& self.session.chat.system_prompt is None
        &&& self.session.state == AgentState::Thinking
        &&& self.session.thinking_phase == ThinkingPhase::Planning
        &&& self.session.stop_reason is None
        &&& self.session.final_answer is None
        &&& self.session.metrics.spec() == types::no_metrics()
        &&& cache::is_new_cache(self.session.tool_cache)
        &&& self.machine.spec() == state::at_start()
    }

    /// A loop that has not begun.
    #[must_use]
    pub fn new(config: AgentConfig, id: String) -> (r: Self)
        ensures
            r.is_fresh(),
            r.session.id == id,
            r.session.config == config,
            r.last_query is None,
    {
        AgentLoop {
            session: AgentSession::new(config, id),
            machine: AgentStateMachine::new(),
            last_query: None,
        }
    }

    /// The run.
    pub fn session(&self) -> (r: &AgentSession)
        ensures
            *r == self.session,
    {
        &self.session
    }

    /// The run so far, to be changed.
    pub fn session_mut(&mut self) -> (r: &mut AgentSession)
        ensures
            *r == old(self).session,
            *final(self) == (AgentLoop { session: *final(r), ..*old(self) }),
    {
        &mut self.session
    }

    /// Begins with a query, given what the system says and the prompt to plan.
    pub fn initialize(&mut self, query: &str, system_prompt: String, planning_prompt: &str) -> (r:
        AgentEvent)
        requires
            old(self).session.well_formed(),
        ensures
            final(self).session.well_formed(),
            final(self).machine.spec() == state::at_start(),
            paths::opt_view(final(self).last_query) == Some(query@),
            final(self).session == (AgentSession {
                state: AgentState::Thinking,
                thinking_phase: ThinkingPhase::Planning,
                chat: final(self).session.chat,
                ..old(self).session
            }),
            final(self).session.chat.system_prompt == Some(system_prompt),
            final(self).session.chat.said() == old(self).session.chat.said().push(
                MessageSpec { role: Role::User, content: planning_prompt@ },
            ),
            r.note() == NoteSpec::AnswerStarted,
    {
        self.machine.reset();
        self.last_query = Some(query.to_owned());
        self.session.state = AgentState::Thinking;
        self.session.thinking_phase = ThinkingPhase::Planning;
        self.session.chat.set_system_prompt(Some(system_prompt));
        self.session.chat.add_user_message(planning_prompt);
        AgentEvent::AnswerStarted
    }

    /// Tells whether the run has come to an end.
    pub fn is_terminal_state(&self) -> (r: bool)
        ensures
            r == self.ended(),
    {
        self.machine.is_terminal() || self.session.is_done() || self.session.is_failed()
    }

    /// Deals with a limit, if one is met.
    pub fn check_limits(&mut self, elapsed_ms: u64, detection: &LoopDetectionResult) -> (r: (
        Option<TransitionEvent>,
        Vec<AgentEvent>,
    ))
        requires
            old(self).session.well_formed(),
            session::conversation_tokens(old(self).session.chat) <= usize::MAX,
            old(self).session.metrics.loop_detection_triggered < usize::MAX,
        ensures
            final(self).machine == old(self).machine,
            final(self).last_query == old(self).last_query,
            match limit_of(old(self).session, elapsed_ms, *detection) {
                Some(limit) => match r.0 {
                    Some(e) => {
                        &&& e.spec() == limit_event(limit)
                        &&& notes(r.1@) == limit_notes(limit, old(self).session)
                        &&& met_limit(old(self).session, final(self).session, limit)
                    },
                    None => false,
                },
                None => {
                    &&& r.0 is None
                    &&& r.1@.len() == 0
                    &&& final(self).session == old(self).session
                },
            },
    {
        let ghost before = self.session;
        let mut events: Vec<AgentEvent> = Vec::new();
        assert(notes(events@) =~= Seq::empty());
        if self.session.remaining_steps() == 0 {
            return (Some(TransitionEvent::MaxStepsReached), events);
        }
        if self.session.is_timed_out(elapsed_ms) {
            return (Some(TransitionEvent::Timeout), events);
        }
        if self.session.state != AgentState::Thinking || self.session.thinking_phase
            == ThinkingPhase::Concluding {
            return (None, events);
        }
        let used: usize = self.session.used_budget();
        let remaining: usize = self.session.remaining_budget();
        if remaining < self.session.budget_manager.config.response_reserve {
            let e = AgentEvent::TokenBudgetWarning { used, remaining };
            events.push(e);
            assert(notes(events@) =~= limit_notes(Limit::Budget, before));
            self.session.thinking_phase = ThinkingPhase::Concluding;
            self.session.chat.add_user_message(
                "Token budget is running low. Please provide a concise final answer now.",
            );
            return (Some(TransitionEvent::ForceConclusion), events);
        }
        match detection {
            LoopDetectionResult::NoLoop => (None, events),
            LoopDetectionResult::ExactLoop { tool_name, occurrences } => {
                self.session.record_loop_detection();
                let fields = Fields::new().with("type", Json::text("exact")).with(
                    "tool",
                    Json::text(tool_name.as_str()),
                ).with("occurrences", Json::natural(*occurrences as u64));
                assert(fields.model() =~= loop_fields(
                    "exact"@,
                    "tool"@,
                    tool_name@,
                    *occurrences as nat,
                ));
                let e = AgentEvent::LoopDetected { detection_type: fields.object() };
                events.push(e);
                assert(notes(events@) =~= seq![e.note()]);
                self.session.thinking_phase = ThinkingPhase::Concluding;
                self.session.chat.add_user_message(
                    "You appear to be repeating the same tool call. Please provide a final answer based on the information gathered so far.",
                );
                (Some(TransitionEvent::ForceConclusion), events)
            },
            LoopDetectionResult::SimilarLoop { pattern, occurrences } => {
                self.session.record_loop_detection();
                let fields = Fields::new().with("type", Json::text("similar")).with(
                    "pattern",
                    Json::text(pattern.as_str()),
                ).with("occurrences", Json::natural(*occurrences as u64));
                assert(fields.model() =~= loop_fields(
                    "similar"@,
                    "pattern"@,
                    pattern@,
                    *occurrences as nat,
                ));
                let e = AgentEvent::LoopDetected { detection_type: fields.object() };
                events.push(e);
                assert(notes(events@) =~= seq![e.note()]);
                let mut hint = "I notice you've called '".to_owned();
                hint.append(pattern.as_str());
                hint.append("' ");
                let n = text::decimal_text(*occurrences as u64);
                hint.append(n.as_str());
                hint.append(
                    " times with similar arguments. Please try a different approach or provide a final answer with the information you have.",
                );
                self.session.chat.add_user_message(hint.as_str());
                (Some(TransitionEvent::Continue), events)
            },
        }
    }

    /// Follows an event, and tells of a change of state.
    pub fn handle_transition(&mut self, event: TransitionEvent) -> (r: Option<AgentEvent>)
        ensures
            final(self).standing() == transitioned(old(self).standing(), event.spec()),
            same_record(final(self).session, old(self).session),
            final(self).last_query == old(self).last_query,
            ({
                let from = old(self).machine.state;
                let to = state::moved(old(self).machine.spec(), event.spec()).state;
                match r {
                    Some(e) => from != to && e.note() == NoteSpec::StateChanged(from, to),
                    None => from == to,
                }
            }),
    {
        let from = self.machine.state;
        let to = self.machine.transition(event);
        let told = if from != to {
            self.session.state = to;
            Some(AgentEvent::StateChanged { from, to })
        } else {
            None
        };
        self.session.thinking_phase = self.machine.thinking_phase;
        match self.machine.take_final_answer() {
            Some(answer) => {
                self.session.final_answer = Some(answer);
                self.session.stop_reason = Some(AgentStopReason::Completed);
            },
            None => {},
        }
        if self.machine.is_terminal() {
            let open_end = match &self.session.stop_reason {
                Some(_) => false,
                None => true,
            };
            if open_end {
                let reason = match &self.machine.termination_reason {
                    Some(r) => {
                        if text::same_text(r.as_str(), "max_steps") {
                            AgentStopReason::MaxSteps
                        } else if text::same_text(r.as_str(), "timeout") {
                            AgentStopReason::Timeout
                        } else if text::same_text(r.as_str(), "completed") {
                            AgentStopReason::Completed
                        } else {
                            AgentStopReason::Error(r.clone())
                        }
                    },
                    None => AgentStopReason::Error("unknown".to_owned()),
                };
                self.session.stop_reason = Some(reason);
            }
        }
        told
    }

    /// Goes round the loop up to what the loop cannot do itself.
    pub fn next_turn(
        &mut self,
        elapsed_ms: u64,
        cancelled: bool,
        detection: &LoopDetectionResult,
    ) -> (r: (Turn, Vec<AgentEvent>))
        requires
            old(self).session.well_formed(),
            session::conversation_tokens(old(self).session.chat) <= usize::MAX,
            old(self).session.metrics.loop_detection_triggered < usize::MAX,
        ensures
            final(self).session.well_formed(),
            final(self).session.history() == old(self).session.history(),
            final(self).session.id == old(self).session.id,
            final(self).session.config == old(self).session.config,
            final(self).session.tool_cache == old(self).session.tool_cache,
            final(self).last_query == old(self).last_query,
            match limit_of(old(self).session, elapsed_ms, *detection) {
                _ if old(self).ended() => {
                    &&& r.0 == Turn::Finished
                    &&& r.1@.len() == 0
                    &&& *final(self) == *old(self)
                },
                _ if cancelled => {
                    &&& r.0 == Turn::Finished
                    &&& notes(r.1@) == seq![NoteSpec::Error("Agent cancelled by user"@)]
                    &&& final(self).session == (AgentSession {
                        state: AgentState::Failed,
                        stop_reason: final(self).session.stop_reason,
                        ..old(self).session
                    })
                    &&& types::opt_stop(final(self).session.stop_reason) == Some(
                        StopSpec::UserCancel,
                    )
                    &&& final(self).machine == old(self).machine
                },
                Some(limit) => {
                    let met = LoopSpec {
                        phase: if concludes(limit) {
                            ThinkingPhase::Concluding
                        } else {
                            old(self).session.thinking_phase
                        },
                        ..old(self).standing()
                    };
                    &&& final(self).standing() == transitioned(met, limit_event(limit))
                    &&& r.0 == if final(self).ended() {
                        Turn::Finished
                    } else {
                        Turn::Again
                    }
                    &&& notes(r.1@) == limit_notes(limit, old(self).session) + change_notes(
                        old(self).machine.state,
                        final(self).machine.state,
                    )
                    &&& final(self).session.metrics.spec() == counted_loop(
                        limit,
                        old(self).session.metrics.spec(),
                    )
                    &&& final(self).session.chat.system_prompt
                        == old(self).session.chat.system_prompt
                    &&& final(self).session.chat.said() == match limit_hint(limit) {
                        Some(hint) => old(self).session.chat.said().push(
                            MessageSpec { role: Role::User, content: hint },
                        ),
                        None => old(self).session.chat.said(),
                    }
                },
                None => {
                    &&& *final(self) == *old(self)
                    &&& r.1@.len() == 0
                    &&& r.0 == if old(self).session.state == AgentState::Thinking {
                        Turn::Think
                    } else {
                        Turn::Act
                    }
                    &&& old(self).session.history().len() < old(self).session.config.max_steps
                },
            },
    {
        if self.is_terminal_state() {
            return (Turn::Finished, Vec::new());
        }
        if cancelled {
            self.session.state = AgentState::Failed;
            self.session.stop_reason = Some(AgentStopReason::UserCancel);
            let mut events: Vec<AgentEvent> = Vec::new();
            let e = AgentEvent::Error { message: "Agent cancelled by user".to_owned() };
            events.push(e);
            assert(notes(events@) =~= seq![e.note()]);
            return (Turn::Finished, events);
        }
        let (limit, mut events) = self.check_limits(elapsed_ms, detection);
        match limit {
            Some(event) => {
                let ghost dealt = notes(events@);
                let told = self.handle_transition(event);
                match told {
                    Some(e) => {
                        events.push(e);
                        assert(notes(events@) =~= dealt.push(e.note()));
                    },
                    None => {},
                }
                if self.is_terminal_state() {
                    (Turn::Finished, events)
                } else {
                    (Turn::Again, events)
                }
            },
            None => {
                if self.session.state == AgentState::Thinking {
                    (Turn::Think, events)
                } else {
                    (Turn::Act, events)
                }
            },
        }
    }

    /// The step that a thought is recorded as.
    pub open spec fn thought_step(
        &self,
        text: Seq<char>,
        usage: TokenUsage,
        duration_ms: u64,
    ) -> StepSpec {
        StepSpec {
            step_number: (self.session.history().len() + 1) as usize,
            state: AgentState::Thinking,
            thinking_phase: Some(self.session.thinking_phase),
            thought: Some(text),
            calls: Seq::empty(),
            results: Seq::empty(),
            duration_ms,
            usage,
        }
    }

    /// Records what the language model said: `parsed` holds the calls that it asks for, if its text
    /// asks for any. Without a call that may be made, the text is the answer.
    pub fn after_thinking(
        &mut self,
        said: &str,
        prompt_tokens: i32,
        completion_tokens: i32,
        duration_ms: u64,
        parsed: Option<Vec<ToolCall>>,
    ) -> (r: (TransitionEvent, AgentEvent))
        requires
            old(self).session.well_formed(),
            session::room_for(
                old(self).session.history(),
                old(self).thought_step(
                    said@,
                    converted(prompt_tokens, completion_tokens),
                    duration_ms,
                ),
            ),
        ensures
            final(self).session.well_formed(),
            final(self).machine == old(self).machine,
            final(self).last_query == old(self).last_query,
            same_standing(final(self).session, old(self).session),
            final(self).session.config == old(self).session.config,
            final(self).session.state == old(self).session.state,
            final(self).session.thinking_phase == old(self).session.thinking_phase,
            final(self).session.stop_reason == old(self).session.stop_reason,
            final(self).session.final_answer == old(self).session.final_answer,
            final(self).session.chat.system_prompt == old(self).session.chat.system_prompt,
            final(self).session.chat.said() == old(self).session.chat.said().push(
                MessageSpec { role: Role::Assistant, content: said@ },
            ),
            final(self).session.history() == old(self).session.history().push(
                old(self).thought_step(
                    said@,
                    converted(prompt_tokens, completion_tokens),
                    duration_ms,
                ),
            ),
            r.0.spec() == thought_event(
                said@,
                parsed,
                text::views(old(self).session.config.allowed_tools@),
            ),
            r.1.note() == NoteSpec::Thinking(said@),
    {
        let phase = self.session.thinking_phase;
        let ghost allowed = text::views(self.session.config.allowed_tools@);
        let ghost wanted = wanted_calls(parsed, allowed);
        self.session.chat.add_assistant_message(said);
        let usage = convert_token_usage(prompt_tokens, completion_tokens);
        let calls: Vec<ToolCall> = match parsed {
            Some(c) => self.filter_allowed_tools(c),
            None => Vec::new(),
        };
        assert(protocol::call_specs(calls@) =~= wanted);
        let step = AgentStep {
            step_number: 0,
            state: AgentState::Thinking,
            thinking_phase: Some(phase),
            thought: Some(said.to_owned()),
            tool_calls: Vec::new(),
            tool_results: Vec::new(),
            duration_ms,
            token_usage: usage,
        };
        assert(protocol::call_specs(step.tool_calls@) =~= Seq::empty());
        assert(protocol::result_specs(step.tool_results@) =~= Seq::empty());
        self.session.add_step(step);
        let event = if calls.len() == 0 {
            TransitionEvent::FinalAnswer(said.to_owned())
        } else {
            TransitionEvent::ToolCallsDetected(calls)
        };
        (event, AgentEvent::Thinking { text: said.to_owned() })
    }

    /// Keeps the calls that may be made.
    pub fn filter_allowed_tools(&self, calls: Vec<ToolCall>) -> (r: Vec<ToolCall>)
        ensures
            protocol::call_specs(r@) == allowed_calls(
                protocol::call_specs(calls@),
                text::views(self.session.config.allowed_tools@),
            ),
    {
        let ghost allowed = text::views(self.session.config.allowed_tools@);
        if self.session.config.allowed_tools.len() == 0 {
            return calls;
        }
        let ghost given = calls@;
        let ghost all = protocol::call_specs(given);
        let mut r: Vec<ToolCall> = Vec::new();
        assert(protocol::call_specs(r@) =~= allowed_calls(all.take(0), allowed));
        for call in it: calls
            invariant
                it.seq() == given,
                all == protocol::call_specs(given),
                allowed == text::views(self.session.config.allowed_tools@),
                allowed.len() > 0,
                protocol::call_specs(r@) == allowed_calls(all.take(it.index() as int), allowed),
        {
            let ghost i = it.index() as int;
            let ghost before = protocol::call_specs(r@);
            assert(all.take(i + 1).drop_last() =~= all.take(i));
            assert(all.take(i + 1).last() == call.spec());
            if text::lists(&self.session.config.allowed_tools, call.name.as_str()) {
                r.push(call);
                assert(protocol::call_specs(r@) =~= before.push(call.spec()));
            }
        }
        assert(all.take(all.len() as int) =~= all);
        r
    }

    /// Takes the calls that are to be made in this step: the first of those that wait.
    fn take_calls(&mut self) -> (r: Vec<ToolCall>)
        ensures
            protocol::call_specs(r@) == calls_of_step(
                old(self).machine.spec().pending,
                old(self).session.config.max_tool_calls_per_step as nat,
            ),
            final(self).machine.spec() == (MachineSpec {
                pending: Seq::empty(),
                ..old(self).machine.spec()
            }),
            final(self).session == old(self).session,
            final(self).last_query == old(self).last_query,
    {
        let mut calls = self.machine.take_pending_tool_calls();
        let max: usize = self.session.config.max_tool_calls_per_step;
        let ghost pending = protocol::call_specs(calls@);
        assert(pending.len() == calls@.len());
        if calls.len() > max {
            calls.truncate(max);
            assert(protocol::call_specs(calls@) =~= pending.take(max as int));
        }
        calls
    }

    /// The request to confirm calls, if the user is to be asked: that is so if the configuration
    /// says so, somebody answers, and there are calls.
    fn confirmation_for(&self, calls: &Vec<ToolCall>, answered: bool) -> (r: Option<
        ConfirmationRequest,
    >)
        requires
            self.session.history().len() < usize::MAX,
        ensures
            match r {
                Some(request) => {
                    &&& self.session.config.require_plan_confirmation && answered && calls@.len()
                        > 0
                    &&& request.step_number == self.session.history().len() + 1
                    &&& text::views(request.tool_calls@) == confirmation::call_names(
                        protocol::call_specs(calls@),
                    )
                    &&& request.completed_steps == self.session.history().len()
                    &&& request.total_tokens == self.session.total_token_usage.total_tokens
                },
                None => !(self.session.config.require_plan_confirmation && answered && calls@.len()
                    > 0),
            },
    {
        if !self.session.config.require_plan_confirmation || !answered {
            return None;
        }
        let completed_steps: usize = self.session.current_step();
        let step = AgentStep {
            step_number: completed_steps + 1,
            state: AgentState::Acting,
            thinking_phase: None,
            thought: None,
            tool_calls: types::copy_calls(calls),
            tool_results: Vec::new(),
            duration_ms: 0,
            token_usage: TokenUsage::default(),
        };
        assert(protocol::call_specs(step.tool_calls@).len() == protocol::call_specs(calls@).len());
        confirmation::build_confirmation_request(
            &step,
            completed_steps,
            self.session.total_token_usage.total_tokens,
        )
    }

    /// Takes the user's answer: `Some` if the calls may not be made.
    fn confirmed(&mut self, response: ConfirmationResponse) -> (r: Option<
        (TransitionEvent, AgentEvent),
    >)
        requires
            old(self).session.well_formed(),
        ensures
            final(self).session.well_formed(),
            final(self).machine == old(self).machine,
            final(self).last_query == old(self).last_query,
            answered_session(old(self).session, final(self).session, response),
            match r {
                Some((event, told)) => {
                    &&& response == ConfirmationResponse::Deny
                    &&& event.spec() == EventSpec::UnrecoverableError("User denied execution"@)
                    &&& told.note() == NoteSpec::Error("Execution denied by user"@)
                },
                None => response != ConfirmationResponse::Deny,
            },
    {
        match response {
            ConfirmationResponse::Approve => None,
            ConfirmationResponse::ApproveAll => {
                self.session.config.require_plan_confirmation = false;
                None
            },
            ConfirmationResponse::Deny => {
                self.session.state = AgentState::Failed;
                self.session.stop_reason = Some(AgentStopReason::UserCancel);
                Some(
                    (
                        TransitionEvent::UnrecoverableError("User denied execution".to_owned()),
                        AgentEvent::Error { message: "Execution denied by user".to_owned() },
                    ),
                )
            },
        }
    }

    /// Begins to act: takes the calls of the step, and says whether they are to be made or the user
    /// is to be asked first. `answered` tells whether there is somebody to ask.
    pub fn begin_acting(&mut self, answered: bool) -> (r: ActStep)
        requires
            old(self).session.history().len() < usize::MAX,
        ensures
            r.plan() == first_plan(
                old(self).session.config,
                answered,
                calls_of_step(
                    old(self).machine.spec().pending,
                    old(self).session.config.max_tool_calls_per_step as nat,
                ),
            ),
            match r {
                ActStep::Ask(calls, request) => {
                    &&& request.step_number == old(self).session.history().len() + 1
                    &&& text::views(request.tool_calls@) == confirmation::call_names(calls@)
                    &&& request.completed_steps == old(self).session.history().len()
                    &&& request.total_tokens == old(self).session.total_token_usage.total_tokens
                },
                _ => true,
            },
            final(self).machine.spec() == (MachineSpec {
                pending: Seq::empty(),
                ..old(self).machine.spec()
            }),
            final(self).session == old(self).session,
            final(self).last_query == old(self).last_query,
    {
        let calls = self.take_calls();
        assert(protocol::call_specs(calls@).len() == calls@.len());
        match self.confirmation_for(&calls, answered) {
            Some(request) => ActStep::Ask(PlannedCalls { calls }, request),
            None => ActStep::Run(ClearedCalls { calls }),
        }
    }

    /// Goes on after the user's answer: the calls are made, or the run stops.
    pub fn answer_received(&mut self, planned: PlannedCalls, response: ConfirmationResponse) -> (r:
        ActStep)
        requires
            old(self).session.well_formed(),
        ensures
            r.plan() == plan_after(planned@, response),
            match r {
                ActStep::Stop(_, told) => told.note() == NoteSpec::Error(
                    "Execution denied by user"@,
                ),
                _ => true,
            },
            final(self).session.well_formed(),
            final(self).machine == old(self).machine,
            final(self).last_query == old(self).last_query,
            answered_session(old(self).session, final(self).session, response),
    {
        match self.confirmed(response) {
            Some((event, told)) => ActStep::Stop(event, told),
            None => ActStep::Run(ClearedCalls { calls: planned.calls }),
        }
    }

    /// Takes the results of calls, cut to what a result may take; `None` if one of them cannot be
    /// cut.
    pub fn calls_made(&self, cleared: ClearedCalls, results: &Vec<ToolResult>) -> (r: Option<
        MadeCalls,
    >)
        ensures
            match r {
                Some(made) => made@.0 == cleared@ && are_cut_results(
                    self.session.budget_manager.config,
                    protocol::result_specs(results@),
                    made@.1,
                ),
                None => exists|i: int|
                    0 <= i < results@.len() && cannot_cut(
                        self.session.budget_manager.config,
                        #[trigger] results@[i].spec(),
                    ),
            },
    {
        match self.truncate_results(results) {
            Some(cut) => {
                let ghost config = self.session.budget_manager.config;
                let ghost before = protocol::result_specs(results@);
                let ghost after = protocol::result_specs(cut@);
                proof {
                    assert forall|i: int| 0 <= i < before.len() implies is_cut_result(
                        config,
                        #[trigger] before[i],
                        after[i],
                    ) by {
                        assert(before[i] == results@[i].spec());
                        assert(after[i] == cut@[i].spec());
                    }
                    assert forall|i: int|
                        0 <= i < before.len() && (#[trigger] before[i]).success && fits(
                            config,
                            before[i],
                        ) implies is_kept_result(before[i], after[i]) by {
                        assert(before[i] == results@[i].spec());
                        assert(results@[i].success);
                        assert(after[i] == cut@[i].spec());
                    }
                }
                Some(MadeCalls { calls: cleared.calls, results: cut })
            },
            None => None,
        }
    }

    /// Tells whether calls that were made can be recorded on top of the other steps.
    pub fn has_room_for_calls(&self, made: &MadeCalls, duration_ms: u64) -> (r: bool)
        requires
            self.session.well_formed(),
        ensures
            r == session::room_for(
                self.session.history(),
                self.call_step(made@.0, made@.1, duration_ms),
            ),
    {
        let step = AgentStep {
            step_number: 0,
            state: AgentState::Acting,
            thinking_phase: None,
            thought: None,
            tool_calls: types::copy_calls(&made.calls),
            tool_results: types::copy_results(&made.results),
            duration_ms,
            token_usage: TokenUsage::default(),
        };
        self.session.has_room_for(&step)
    }

    /// Records calls that were made, and hands the prompt to observe them on.
    pub fn record_calls(&mut self, made: MadeCalls, duration_ms: u64, observing_prompt: &str) -> (r:
        TransitionEvent)
        requires
            old(self).session.well_formed(),
            session::room_for(
                old(self).session.history(),
                old(self).call_step(made@.0, made@.1, duration_ms),
            ),
        ensures
            final(self).session.well_formed(),
            final(self).machine == old(self).machine,
            final(self).last_query == old(self).last_query,
            same_standing(final(self).session, old(self).session),
            final(self).session.config == old(self).session.config,
            final(self).session.state == old(self).session.state,
            final(self).session.thinking_phase == ThinkingPhase::Observing,
            final(self).session.stop_reason == old(self).session.stop_reason,
            final(self).session.final_answer == old(self).session.final_answer,
            final(self).session.chat.system_prompt == old(self).session.chat.system_prompt,
            final(self).session.chat.said() == old(self).session.chat.said().push(
                MessageSpec { role: Role::User, content: observing_prompt@ },
            ),
            final(self).session.history() == old(self).session.history().push(
                old(self).call_step(made@.0, made@.1, duration_ms),
            ),
            r.spec() == EventSpec::ToolsExecuted(made@.1),
    {
        self.after_acting(made.calls, made.results, duration_ms, observing_prompt)
    }

    /// Tells whether it matters now if the agent goes round in circles: while it thinks and is not
    /// yet coming to an end.
    pub fn looks_for_loops(&self) -> (r: bool)
        ensures
            r == (self.session.state == AgentState::Thinking && self.session.thinking_phase
                != ThinkingPhase::Concluding),
    {
        self.session.state == AgentState::Thinking && self.session.thinking_phase
            != ThinkingPhase::Concluding
    }

    /// Tells whether calls run side by side.
    pub fn runs_in_parallel(&self, calls: &Vec<ToolCall>) -> (r: bool)
        ensures
            r == (self.session.config.enable_parallel_tool_calls && calls@.len() > 1),
    {
        self.session.config.enable_parallel_tool_calls && calls.len() > 1
    }

    /// Cuts results to what a result may take; `None` if one of them cannot be cut. A result that
    /// fits stays what it is.
    pub fn truncate_results(&self, results: &Vec<ToolResult>) -> (r: Option<Vec<ToolResult>>)
        ensures
            match r {
                Some(v) => {
                    &&& v@.len() == results@.len()
                    &&& forall|i: int|
                        0 <= i < results@.len() ==> is_cut_result(
                            self.session.budget_manager.config,
                            #[trigger] results@[i].spec(),
                            v@[i].spec(),
                        )
                    &&& forall|i: int|
                        0 <= i < results@.len() && results@[i].success && fits(
                            self.session.budget_manager.config,
                            #[trigger] results@[i].spec(),
                        ) ==> is_kept_result(results@[i].spec(), v@[i].spec())
                },
                None => exists|i: int|
                    0 <= i < results@.len() && cannot_cut(
                        self.session.budget_manager.config,
                        #[trigger] results@[i].spec(),
                    ),
            },
    {
        let config = self.session.budget_manager.config;
        let manager = self.session.budget_manager();
        let mut v: Vec<ToolResult> = Vec::new();
        let mut i: usize = 0;
        while i < results.len()
            invariant
                i <= results@.len(),
                v@.len() == i,
                config == self.session.budget_manager.config,
                manager.config == config,
                manager.estimator == budget::SimpleTokenEstimator,
                forall|k: int|
                    0 <= k < i ==> is_cut_result(
                        config,
                        #[trigger] results@[k].spec(),
                        v@[k].spec(),
                    ),
                forall|k: int|
                    0 <= k < i && results@[k].success && fits(
                        config,
                        #[trigger] results@[k].spec(),
                    ) ==> is_kept_result(results@[k].spec(), v@[k].spec()),
            decreases results@.len() - i,
        {
            let result = &results[i];
            let ghost had = v@;
            let next = if !result.success {
                result.clone()
            } else {
                let whole = json::compact(&result.value);
                if !manager.can_truncate_result(whole.as_str()) {
                    assert(cannot_cut(config, results@[i as int].spec()));
                    return None;
                }
                let cut = manager.truncate_tool_result(whole.as_str());
                let ghost t = cut@;
                let value = match json::parse_json(cut.as_str()) {
                    Some(j) => j,
                    None => Json::String(cut),
                };
                let next = ToolResult {
                    value,
                    success: result.success,
                    call_id: result.call_id.clone(),
                };
                assert(budget::is_truncated(
                    budget::SimpleTokenEstimator,
                    config,
                    json::json_text(result.spec().value),
                    t,
                ));
                next
            };
            assert(is_cut_result(config, results@[i as int].spec(), next.spec()));
            v.push(next);
            i += 1;
            assert forall|k: int| 0 <= k < i implies is_cut_result(
                config,
                #[trigger] results@[k].spec(),
                v@[k].spec(),
            ) by {
                if k < had.len() {
                    assert(v@[k] == had[k]);
                }
            }
        }
        Some(v)
    }

    /// The step that calls are recorded as.
    pub open spec fn call_step(
        &self,
        calls: Seq<CallSpec>,
        results: Seq<ResultSpec>,
        duration_ms: u64,
    ) -> StepSpec {
        StepSpec {
            step_number: (self.session.history().len() + 1) as usize,
            state: AgentState::Acting,
            thinking_phase: None,
            thought: None,
            calls,
            results,
            duration_ms,
            usage: types::no_usage(),
        }
    }

    /// Records calls with their results, and hands the prompt to observe them on.
    fn after_acting(
        &mut self,
        calls: Vec<ToolCall>,
        results: Vec<ToolResult>,
        duration_ms: u64,
        observing_prompt: &str,
    ) -> (r: TransitionEvent)
        requires
            old(self).session.well_formed(),
            session::room_for(
                old(self).session.history(),
                old(self).call_step(
                    protocol::call_specs(calls@),
                    protocol::result_specs(results@),
                    duration_ms,
                ),
            ),
        ensures
            final(self).session.well_formed(),
            final(self).machine == old(self).machine,
            final(self).last_query == old(self).last_query,
            same_standing(final(self).session, old(self).session),
            final(self).session.config == old(self).session.config,
            final(self).session.state == old(self).session.state,
            final(self).session.thinking_phase == ThinkingPhase::Observing,
            final(self).session.stop_reason == old(self).session.stop_reason,
            final(self).session.final_answer == old(self).session.final_answer,
            final(self).session.chat.system_prompt == old(self).session.chat.system_prompt,
            final(self).session.chat.said() == old(self).session.chat.said().push(
                MessageSpec { role: Role::User, content: observing_prompt@ },
            ),
            final(self).session.history() == old(self).session.history().push(
                old(self).call_step(
                    protocol::call_specs(calls@),
                    protocol::result_specs(results@),
                    duration_ms,
                ),
            ),
            r.spec() == EventSpec::ToolsExecuted(protocol::result_specs(results@)),
    {
        self.session.chat.add_user_message(observing_prompt);
        let executed = types::copy_results(&results);
        let step = AgentStep {
            step_number: 0,
            state: AgentState::Acting,
            thinking_phase: None,
            thought: None,
            tool_calls: calls,
            tool_results: results,
            duration_ms,
            token_usage: TokenUsage::default(),
        };
        self.session.add_step(step);
        self.session.thinking_phase = ThinkingPhase::Observing;
        TransitionEvent::ToolsExecuted(executed)
    }

    /// Makes a run that failed because no steps were left go on: it gets as many steps again, at
    /// least five. Says whether the run goes on.
    pub fn continue_execution(&mut self) -> (r: bool)
        requires
            old(self).session.well_formed(),
        ensures
            final(self).session.well_formed(),
            final(self).last_query == old(self).last_query,
            r == (old(self).session.state == AgentState::Failed && types::opt_stop(
                old(self).session.stop_reason,
            ) == Some(StopSpec::MaxSteps)),
            !r ==> *final(self) == *old(self),
            r ==> {
                &&& final(self).machine.spec() == state::at_start()
                &&& final(self).session == (AgentSession {
                    state: AgentState::Thinking,
                    thinking_phase: ThinkingPhase::Observing,
                    config: final(self).session.config,
                    ..old(self).session
                })
                &&& final(self).session.config.spec() == (ConfigSpec {
                    max_steps: more_steps(old(self).session.config.max_steps),
                    ..old(self).session.config.spec()
                })
            },
    {
        let stopped = match &self.session.stop_reason {
            Some(AgentStopReason::MaxSteps) => self.session.state == AgentState::Failed,
            _ => false,
        };
        if !stopped {
            return false;
        }
        let max: usize = self.session.config.max_steps;
        let extra: usize = if max >= 5 {
            max
        } else {
            5
        };
        self.session.config.max_steps = if max <= usize::MAX - extra {
            max + extra
        } else {
            usize::MAX
        };
        self.machine.reset();
        self.session.state = AgentState::Thinking;
        self.session.thinking_phase = ThinkingPhase::Observing;
        true
    }

    /// Forgets everything but the configuration and the query, which is returned.
    pub fn retry(&mut self, id: String) -> (r: String)
        ensures
            final(self).is_fresh(),
            final(self).session.id == id,
            final(self).session.config.spec() == old(self).session.config.spec(),
            final(self).last_query == old(self).last_query,
            r@ == match old(self).last_query {
                Some(q) => q@,
                None => Seq::empty(),
            },
    {
        let query = match &self.last_query {
            Some(q) => q.clone(),
            None => {
                let q = String::new();
                assert(q@ =~= Seq::empty());
                q
            },
        };
        let config = self.session.config.clone();
        self.session = AgentSession::new(config, id);
        self.machine.reset();
        query
    }
}

} // verus!
