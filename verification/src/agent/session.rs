//! One run of the agent: what was said, what was done, and what it took.

use vstd::prelude::*;
use vstd::string::*;

use crate::agent::budget;
use crate::agent::budget::{
    ChatMessage, Role, SessionContext, SimpleTokenEstimator, TokenBudgetManager, TokenEstimator,
};
use crate::agent::cache;
use crate::agent::cache::ToolResultCache;
use crate::agent::metrics;
use crate::agent::response::AgentResponse;
use crate::agent::sources;
use crate::agent::types;
use crate::agent::types::{
    AgentConfig, AgentMetrics, AgentState, AgentStep, AgentStopReason, MetricsSpec, StepSpec,
    StopSpec, ThinkingPhase, TokenUsage,
};
use crate::paths;
use crate::text;
use crate::vector_store;

verus! {

/// What was said: what the system says, and the messages.
#[derive(Debug)]
pub struct Conversation {
    pub system_prompt: Option<String>,
    pub messages: Vec<ChatMessage>,
}

/// A message.
pub struct MessageSpec {
    pub role: Role,
    pub content: Seq<char>,
}

/// What messages say.
pub open spec fn message_specs(v: Seq<ChatMessage>) -> Seq<MessageSpec> {
    Seq::new(v.len(), |i: int| MessageSpec { role: v[i].role, content: v[i].content@ })
}

impl Conversation {
    /// The messages.
    pub open spec fn said(&self) -> Seq<MessageSpec> {
        message_specs(self.messages@)
    }

    /// What the system says.
    pub open spec fn system(&self) -> Seq<char> {
        match self.system_prompt {
            Some(s) => s@,
            None => Seq::empty(),
        }
    }

    /// Nothing was said.
    pub fn new() -> (r: Self)
        ensures
            r.said().len() == 0,
            r.system_prompt is None,
    {
        Conversation { system_prompt: None, messages: Vec::new() }
    }

    /// Sets what the system says.
    pub fn set_system_prompt(&mut self, prompt: Option<String>)
        ensures
            final(self).system_prompt == prompt,
            final(self).messages == old(self).messages,
    {
        self.system_prompt = prompt;
    }

    /// Adds a message of the user.
    pub fn add_user_message(&mut self, content: &str)
        ensures
            final(self).system_prompt == old(self).system_prompt,
            final(self).said() == old(self).said().push(
                MessageSpec { role: Role::User, content: content@ },
            ),
    {
        let ghost before = self.said();
        self.messages.push(ChatMessage::user(content));
        assert(self.said() =~= before.push(MessageSpec { role: Role::User, content: content@ }));
    }

    /// Adds a message of the assistant.
    pub fn add_assistant_message(&mut self, content: &str)
        ensures
            final(self).system_prompt == old(self).system_prompt,
            final(self).said() == old(self).said().push(
                MessageSpec { role: Role::Assistant, content: content@ },
            ),
    {
        let ghost before = self.said();
        self.messages.push(ChatMessage::assistant(content));
        assert(self.said() =~= before.push(
            MessageSpec { role: Role::Assistant, content: content@ },
        ));
    }
}

/// The tokens that a conversation takes.
pub open spec fn conversation_tokens(c: Conversation) -> nat {
    budget::used(SimpleTokenEstimator, c.system(), budget::contents(c.messages@))
}

impl Conversation {
    /// Tells whether the tokens of the conversation can be counted.
    pub fn is_countable(&self) -> (r: bool)
        ensures
            r == (conversation_tokens(*self) <= usize::MAX),
    {
        proof {
            reveal_strlit("");
        }
        let system: &str = match &self.system_prompt {
            Some(s) => s.as_str(),
            None => "",
        };
        assert(system@ =~= self.system());
        let estimator = SimpleTokenEstimator::new();
        let first: usize = estimator.estimate_text(system);
        let ghost all = budget::contents(self.messages@);
        let n: usize = self.messages.len();
        let mut sum: u128 = 0;
        let mut i: usize = 0;
        assert(all.take(0) =~= Seq::empty());
        while i < n
            invariant
                i <= n == self.messages@.len(),
                all == budget::contents(self.messages@),
                sum == budget::simple_message_tokens(all.take(i as int)),
                sum <= i * 0x4000_0000_0000_0010,
            decreases n - i,
        {
            proof {
                assert(all.take(i + 1).drop_last() =~= all.take(i as int));
                assert(all.take(i + 1).last() == self.messages@[i as int].content@);
            }
            let bytes: usize = text::byte_len(self.messages[i].content.as_str());
            let t: usize = estimator.estimate_text(self.messages[i].content.as_str());
            assert(t == (bytes + 3) / 4);
            sum = sum + t as u128 + 4;
            i += 1;
        }
        assert(all.take(all.len() as int) =~= all);
        first as u128 + sum <= usize::MAX as u128
    }
}

/// The tokens that steps were prompted with.
pub open spec fn prompt_sum(steps: Seq<StepSpec>) -> nat
    decreases steps.len(),
{
    if steps.len() == 0 {
        0
    } else {
        prompt_sum(steps.drop_last()) + steps.last().usage.prompt_tokens as nat
    }
}

/// The tokens that steps completed.
pub open spec fn completion_sum(steps: Seq<StepSpec>) -> nat
    decreases steps.len(),
{
    if steps.len() == 0 {
        0
    } else {
        completion_sum(steps.drop_last()) + steps.last().usage.completion_tokens as nat
    }
}

/// The time that steps took.
pub open spec fn duration_sum(steps: Seq<StepSpec>) -> nat
    decreases steps.len(),
{
    if steps.len() == 0 {
        0
    } else {
        duration_sum(steps.drop_last()) + steps.last().duration_ms as nat
    }
}

/// The time that steps of a state took.
pub open spec fn time_in(steps: Seq<StepSpec>, state: AgentState) -> nat
    decreases steps.len(),
{
    if steps.len() == 0 {
        0
    } else {
        time_in(steps.drop_last(), state) + if steps.last().state == state {
            steps.last().duration_ms as nat
        } else {
            0
        }
    }
}

/// The number of calls of steps.
pub open spec fn calls_of(steps: Seq<StepSpec>) -> nat
    decreases steps.len(),
{
    if steps.len() == 0 {
        0
    } else {
        calls_of(steps.drop_last()) + steps.last().calls.len()
    }
}

/// How often steps called each tool.
pub open spec fn call_counts(steps: Seq<StepSpec>) -> Map<Seq<char>, nat>
    decreases steps.len(),
{
    if steps.len() == 0 {
        Map::empty()
    } else {
        metrics::with_calls(call_counts(steps.drop_last()), steps.last().calls)
    }
}

/// The steps are numbered from 1 on.
pub open spec fn numbered(steps: Seq<StepSpec>) -> bool {
    forall|i: int| 0 <= i < steps.len() ==> (#[trigger] steps[i]).step_number == i + 1
}

/// The metrics are those of steps.
pub open spec fn measures(m: MetricsSpec, steps: Seq<StepSpec>) -> bool {
    &&& m.calls == call_counts(steps)
    &&& m.total_input_tokens == prompt_sum(steps)
    &&& m.total_output_tokens == completion_sum(steps)
    &&& m.thinking_time_ms == time_in(steps, AgentState::Thinking)
    &&& m.acting_time_ms == time_in(steps, AgentState::Acting)
    &&& m == metrics::derived(m, steps)
}

/// A step more adds what it used, took and called to what the others did, and its time counts for
/// the state that it was in.
pub proof fn law_step_adds_to_the_totals(steps: Seq<StepSpec>, step: StepSpec)
    ensures
        prompt_sum(steps.push(step)) == prompt_sum(steps) + step.usage.prompt_tokens,
        completion_sum(steps.push(step)) == completion_sum(steps) + step.usage.completion_tokens,
        duration_sum(steps.push(step)) == duration_sum(steps) + step.duration_ms,
        calls_of(steps.push(step)) == calls_of(steps) + step.calls.len(),
        time_in(steps.push(step), step.state) == time_in(steps, step.state) + step.duration_ms,
        forall|state: AgentState|
            state != step.state ==> #[trigger] time_in(steps.push(step), state) == time_in(
                steps,
                state,
            ),
        prompt_sum(Seq::empty()) == 0,
        completion_sum(Seq::empty()) == 0,
        duration_sum(Seq::empty()) == 0,
        calls_of(Seq::empty()) == 0,
        forall|state: AgentState| #[trigger] time_in(Seq::empty(), state) == 0,
{
    assert(steps.push(step).drop_last() =~= steps);
}

/// A step more adds its calls to the count of each tool.
pub proof fn law_step_adds_its_calls(steps: Seq<StepSpec>, step: StepSpec, name: Seq<char>)
    ensures
        ({
            let before = call_counts(steps);
            let after = call_counts(steps.push(step));
            let times = step.calls.filter(
                |c: crate::agent::protocol::CallSpec| c.name == name,
            ).len();
            &&& after.contains_key(name) <==> before.contains_key(name) || times > 0
            &&& after.contains_key(name) ==> after[name] == times + if before.contains_key(name) {
                before[name]
            } else {
                0
            }
        }),
{
    assert(steps.push(step).drop_last() =~= steps);
    metrics::law_calls_are_counted_by_name(call_counts(steps), step.calls, name);
}

/// A step can be counted on top of others.
pub open spec fn room_for(steps: Seq<StepSpec>, step: StepSpec) -> bool {
    &&& steps.len() < usize::MAX
    &&& prompt_sum(steps) + step.usage.prompt_tokens + completion_sum(steps)
        + step.usage.completion_tokens <= usize::MAX
    &&& duration_sum(steps) + step.duration_ms <= u64::MAX
    &&& metrics::results_of(steps) + step.results.len() <= usize::MAX
    &&& calls_of(steps) + step.calls.len() <= usize::MAX
}

proof fn lemma_times(steps: Seq<StepSpec>)
    ensures
        time_in(steps, AgentState::Thinking) <= duration_sum(steps),
        time_in(steps, AgentState::Acting) <= duration_sum(steps),
        metrics::latency_of(steps) <= duration_sum(steps),
    decreases steps.len(),
{
    if steps.len() > 0 {
        lemma_times(steps.drop_last());
    }
}

/// One run of the agent.
pub struct AgentSession {
    pub id: String,
    pub config: AgentConfig,
    /// The budget that the run began with.
    pub budget_manager: TokenBudgetManager<SimpleTokenEstimator>,
    pub state: AgentState,
    pub thinking_phase: ThinkingPhase,
    pub steps: Vec<AgentStep>,
    pub chat: Conversation,
    pub total_token_usage: TokenUsage,
    pub total_duration_ms: u64,
    pub tool_cache: ToolResultCache,
    pub metrics: AgentMetrics,
    pub stop_reason: Option<AgentStopReason>,
    pub final_answer: Option<String>,
}

/// The text of the last step that thought, if it has one.
pub open spec fn last_thought(steps: Seq<StepSpec>) -> Option<Seq<char>>
    decreases steps.len(),
{
    if steps.len() == 0 {
        None
    } else if steps.last().state == AgentState::Thinking {
        steps.last().thought
    } else {
        last_thought(steps.drop_last())
    }
}

/// The answer: the final one, else the last thought, else nothing.
pub open spec fn answer_text(final_answer: Option<Seq<char>>, steps: Seq<StepSpec>) -> Seq<char> {
    match final_answer {
        Some(a) => a,
        None => match last_thought(steps) {
            Some(t) => t,
            None => Seq::empty(),
        },
    }
}

/// The answer of a run is the final answer wherever there is one; else it is what was thought in the
/// last step that was one of thinking, and nothing if there was none.
pub proof fn law_answer_is_final_or_last_thought(
    answer: Seq<char>,
    steps: Seq<StepSpec>,
    i: int,
    thought: Seq<char>,
)
    requires
        0 <= i < steps.len(),
        steps[i].state == AgentState::Thinking,
        steps[i].thought == Some(thought),
        forall|j: int|
            i < j < steps.len() ==> (#[trigger] steps[j]).state != AgentState::Thinking,
    ensures
        answer_text(Some(answer), steps) == answer,
        answer_text(None, steps) == thought,
        forall|others: Seq<StepSpec>|
            (forall|j: int|
                0 <= j < others.len() ==> (#[trigger] others[j]).state != AgentState::Thinking)
                ==> #[trigger] answer_text(None, others) == Seq::<char>::empty(),
{
    lemma_last_thought(steps, i);
    assert forall|others: Seq<StepSpec>|
        (forall|j: int|
            0 <= j < others.len() ==> (#[trigger] others[j]).state != AgentState::Thinking) implies #[trigger] answer_text(
    None, others) == Seq::<char>::empty() by {
        lemma_no_thought(others);
    }
}

proof fn lemma_last_thought(steps: Seq<StepSpec>, i: int)
    requires
        0 <= i < steps.len(),
        steps[i].state == AgentState::Thinking,
        forall|j: int|
            i < j < steps.len() ==> (#[trigger] steps[j]).state != AgentState::Thinking,
    ensures
        last_thought(steps) == steps[i].thought,
    decreases steps.len(),
{
    if i < steps.len() - 1 {
        assert(steps[steps.len() - 1].state != AgentState::Thinking);
        lemma_last_thought(steps.drop_last(), i);
    }
}

proof fn lemma_no_thought(steps: Seq<StepSpec>)
    requires
        forall|j: int|
            0 <= j < steps.len() ==> (#[trigger] steps[j]).state != AgentState::Thinking,
    ensures
        last_thought(steps) is None,
    decreases steps.len(),
{
    if steps.len() > 0 {
        assert(steps[steps.len() - 1].state != AgentState::Thinking);
        lemma_no_thought(steps.drop_last());
    }
}

/// A run stops for the reason that was set. Where none was, a run that is done has completed and one
/// that failed has failed; one that goes on is out of time before it is out of steps.
pub proof fn law_run_stops_for_a_reason(s: AgentSession, elapsed_ms: u64)
    ensures
        s.stop_reason matches Some(r) ==> stop_of(s, elapsed_ms) == r.spec(),
        s.stop_reason is None && s.state == AgentState::Done ==> stop_of(s, elapsed_ms)
            == StopSpec::Completed,
        s.stop_reason is None && s.state == AgentState::Failed ==> stop_of(s, elapsed_ms) is Error,
        s.stop_reason is None && s.state != AgentState::Done && s.state != AgentState::Failed ==> ({
            let late = s.config.timeout_secs > 0 && elapsed_ms >= 1000 * s.config.timeout_secs;
            let no_steps = s.steps@.len() >= s.config.max_steps;
            &&& stop_of(s, elapsed_ms) == StopSpec::Timeout <==> late
            &&& stop_of(s, elapsed_ms) == StopSpec::MaxSteps <==> !late && no_steps
            &&& stop_of(s, elapsed_ms) == StopSpec::Completed <==> !late && !no_steps
        }),
{
}

/// The steps that are left and those that are done make up all; none are left once all are done.
pub proof fn law_steps_left_and_done_are_all(max_steps: usize, done: nat)
    ensures
        done <= max_steps ==> steps_left(max_steps, done) + done == max_steps,
        done >= max_steps ==> steps_left(max_steps, done) == 0,
{
}

/// More time went by than is allowed; 0 seconds allow any.
pub open spec fn times_out(timeout_secs: u64, elapsed_ms: u64) -> bool {
    timeout_secs > 0 && elapsed_ms >= timeout_secs * 1000
}

/// The steps that are left.
pub open spec fn steps_left(max_steps: usize, done: nat) -> nat {
    budget::less(max_steps as nat, done)
}

/// Why a run stopped: the reason that was set, else what follows from its state.
pub open spec fn stop_of(s: AgentSession, elapsed_ms: u64) -> StopSpec {
    match s.stop_reason {
        Some(r) => r.spec(),
        None => match s.state {
            AgentState::Done => StopSpec::Completed,
            AgentState::Failed => StopSpec::Error("agent failed"@),
            AgentState::Thinking | AgentState::Acting => if times_out(
                s.config.timeout_secs,
                elapsed_ms,
            ) {
                StopSpec::Timeout
            } else if steps_left(s.config.max_steps, s.steps@.len()) == 0 {
                StopSpec::MaxSteps
            } else {
                StopSpec::Completed
            },
        },
    }
}

impl AgentSession {
    /// The steps.
    pub open spec fn history(&self) -> Seq<StepSpec> {
        types::step_specs(self.steps@)
    }

    /// What the run counts is what its steps say.
    pub open spec fn well_formed(&self) -> bool {
        &&& self.metrics.well_formed()
        &&& self.tool_cache.well_formed()
        &&& numbered(self.history())
        &&& measures(self.metrics.spec(), self.history())
        &&& self.metrics.tool_calls_by_name.total() == calls_of(self.history())
        &&& calls_of(self.history()) <= usize::MAX
        &&& self.total_token_usage.prompt_tokens == prompt_sum(self.history())
        &&& self.total_token_usage.completion_tokens == completion_sum(self.history())
        &&& self.total_token_usage.total_tokens == prompt_sum(self.history()) + completion_sum(
            self.history(),
        )
        &&& self.total_duration_ms == duration_sum(self.history())
    }

    /// A run that has not begun.
    #[must_use]
    pub fn new(config: AgentConfig, id: String) -> (r: Self)
        ensures
            r.well_formed(),
            r.id == id,
            r.config == config,
            r.budget_manager.config == config.token_budget,
            r.budget_manager.estimator == SimpleTokenEstimator,
            r.state == AgentState::Thinking,
            r.thinking_phase == ThinkingPhase::Planning,
            r.history().len() == 0,
            r.chat.said().len() == 0,
            r.chat.system_prompt is None,
            r.stop_reason is None,
            r.final_answer is None,
            r.metrics.spec() == types::no_metrics(),
            cache::is_new_cache(r.tool_cache),
    {
        let budget_manager = TokenBudgetManager::new(config.token_budget);
        let r = AgentSession {
            id,
            config,
            budget_manager,
            state: AgentState::Thinking,
            thinking_phase: ThinkingPhase::Planning,
            steps: Vec::new(),
            chat: Conversation::new(),
            total_token_usage: TokenUsage::default(),
            total_duration_ms: 0,
            tool_cache: ToolResultCache::default(),
            metrics: AgentMetrics::default(),
            stop_reason: None,
            final_answer: None,
        };
        assert(r.history() =~= Seq::empty());
        r
    }

    /// The number of steps done.
    #[must_use]
    pub fn current_step(&self) -> (n: usize)
        ensures
            n == self.history().len(),
    {
        self.steps.len()
    }

    /// Tells whether a step can be counted on top of the others.
    pub fn has_room_for(&self, step: &AgentStep) -> (r: bool)
        requires
            self.well_formed(),
        ensures
            r == room_for(self.history(), step.spec()),
    {
        let calls: usize = self.count_calls();
        let n_calls: usize = step.tool_calls.len();
        let n_results: usize = step.tool_results.len();
        assert(step.spec().calls.len() == n_calls);
        assert(step.spec().results.len() == n_results);
        let used: u128 = self.total_token_usage.prompt_tokens as u128
            + self.total_token_usage.completion_tokens as u128
            + step.token_usage.prompt_tokens as u128 + step.token_usage.completion_tokens as u128;
        self.steps.len() < usize::MAX && used <= usize::MAX as u128 && self.total_duration_ms as u128
            + step.duration_ms as u128 <= u64::MAX as u128 && self.metrics.total_results as u128
            + n_results as u128 <= usize::MAX as u128 && calls as u128 + n_calls as u128
            <= usize::MAX as u128
    }

    /// The number of calls.
    pub fn count_calls(&self) -> (n: usize)
        requires
            calls_of(self.history()) <= usize::MAX,
        ensures
            n == calls_of(self.history()),
    {
        let ghost all = self.history();
        let mut n: usize = 0;
        let mut i: usize = 0;
        assert(all.take(0) =~= Seq::empty());
        while i < self.steps.len()
            invariant
                i <= self.steps@.len(),
                all == self.history(),
                calls_of(all) <= usize::MAX,
                n == calls_of(all.take(i as int)),
            decreases self.steps@.len() - i,
        {
            proof {
                assert(all.take(i + 1).drop_last() =~= all.take(i as int));
                assert(all.take(i + 1).last() == self.steps@[i as int].spec());
                lemma_calls_prefix(all, i + 1);
                assert(self.steps@[i as int].spec().calls.len()
                    == self.steps@[i as int].tool_calls@.len());
            }
            n = n + self.steps[i].tool_calls.len();
            i += 1;
        }
        assert(all.take(all.len() as int) =~= all);
        n
    }

    /// Adds a step under the next number, and counts what it used, took and called.
    pub fn add_step(&mut self, step: AgentStep)
        requires
            old(self).well_formed(),
            room_for(old(self).history(), step.spec()),
        ensures
            final(self).well_formed(),
            final(self).history() == old(self).history().push(
                StepSpec {
                    step_number: (old(self).history().len() + 1) as usize,
                    ..step.spec()
                },
            ),
            final(self).id == old(self).id,
            final(self).config == old(self).config,
            final(self).budget_manager == old(self).budget_manager,
            final(self).state == old(self).state,
            final(self).thinking_phase == old(self).thinking_phase,
            final(self).chat == old(self).chat,
            final(self).tool_cache == old(self).tool_cache,
            final(self).stop_reason == old(self).stop_reason,
            final(self).final_answer == old(self).final_answer,
            final(self).metrics.loop_detection_triggered
                == old(self).metrics.loop_detection_triggered,
            final(self).metrics.tool_cache_hits == old(self).metrics.tool_cache_hits,
            final(self).metrics.tool_retries == old(self).metrics.tool_retries,
    {
        let ghost before = self.history();
        let mut numbered_step = step;
        numbered_step.step_number = self.steps.len() + 1;
        let ghost s = numbered_step.spec();
        let ghost after = before.push(s);
        proof {
            assert(s == (StepSpec {
                step_number: (before.len() + 1) as usize,
                ..step.spec()
            }));
            assert(after.drop_last() =~= before);
            lemma_times(before);
            lemma_times(after);
            assert(s.calls.len() == numbered_step.tool_calls@.len());
            assert(s.results.len() == numbered_step.tool_results@.len());
        }
        let usage = numbered_step.token_usage;
        self.total_token_usage.merge(&usage);
        self.total_duration_ms = self.total_duration_ms + numbered_step.duration_ms;
        self.metrics.merge_step(&numbered_step);
        self.steps.push(numbered_step);
        assert(self.history() =~= after);
        self.metrics.recompute_derived(&self.steps);
    }

    /// Tells whether the run is done.
    #[must_use]
    pub fn is_done(&self) -> (r: bool)
        ensures
            r == (self.state == AgentState::Done),
    {
        self.state == AgentState::Done
    }

    /// Tells whether the run failed.
    #[must_use]
    pub fn is_failed(&self) -> (r: bool)
        ensures
            r == (self.state == AgentState::Failed),
    {
        self.state == AgentState::Failed
    }

    /// Tells whether more time went by than is allowed.
    #[must_use]
    pub fn is_timed_out(&self, elapsed_ms: u64) -> (r: bool)
        ensures
            r == times_out(self.config.timeout_secs, elapsed_ms),
    {
        self.config.timeout_secs > 0 && elapsed_ms as u128 >= self.config.timeout_secs as u128
            * 1000
    }

    /// The steps that are left.
    #[must_use]
    pub fn remaining_steps(&self) -> (n: usize)
        ensures
            n == steps_left(self.config.max_steps, self.history().len()),
    {
        if self.config.max_steps >= self.steps.len() {
            self.config.max_steps - self.steps.len()
        } else {
            0
        }
    }

    /// The manager of the run's budget: it goes by the budget that the run began with.
    #[must_use]
    pub fn budget_manager(&self) -> (r: &TokenBudgetManager<SimpleTokenEstimator>)
        ensures
            *r == self.budget_manager,
    {
        &self.budget_manager
    }

    /// The tokens that are left.
    #[must_use]
    pub fn remaining_budget(&self) -> (n: usize)
        requires
            conversation_tokens(self.chat) <= usize::MAX,
        ensures
            n == budget::left(self.budget_manager.config, conversation_tokens(self.chat)),
    {
        proof {
            reveal_strlit("");
        }
        let system_prompt: &str = match &self.chat.system_prompt {
            Some(s) => s.as_str(),
            None => "",
        };
        assert(system_prompt@ =~= self.chat.system());
        let manager = self.budget_manager();
        let context = SessionContext { system_prompt, messages: &self.chat.messages };
        manager.remaining_tokens(&context)
    }

    /// The tokens that are used.
    #[must_use]
    pub fn used_budget(&self) -> (n: usize)
        requires
            conversation_tokens(self.chat) <= usize::MAX,
        ensures
            n == conversation_tokens(self.chat),
    {
        proof {
            reveal_strlit("");
        }
        let system_prompt: &str = match &self.chat.system_prompt {
            Some(s) => s.as_str(),
            None => "",
        };
        assert(system_prompt@ =~= self.chat.system());
        let manager = self.budget_manager();
        let context = SessionContext { system_prompt, messages: &self.chat.messages };
        manager.used_tokens(&context)
    }

    /// The answer: the final one, else the last thought, else nothing.
    pub fn answer(&self) -> (r: String)
        ensures
            r@ == answer_text(paths::opt_view(self.final_answer), self.history()),
    {
        match &self.final_answer {
            Some(a) => a.clone(),
            None => {
                let ghost all = self.history();
                let mut i: usize = self.steps.len();
                assert(all.take(i as int) =~= all);
                while i > 0
                    invariant
                        i <= self.steps@.len(),
                        all == self.history(),
                        last_thought(all) == last_thought(all.take(i as int)),
                        self.final_answer is None,
                    decreases i,
                {
                    assert(all.take(i as int).drop_last() =~= all.take(i - 1));
                    assert(all.take(i as int).last() == self.steps@[i - 1].spec());
                    if self.steps[i - 1].state == AgentState::Thinking {
                        return match &self.steps[i - 1].thought {
                            Some(t) => t.clone(),
                            None => {
                                let r = String::new();
                                assert(r@ =~= Seq::empty());
                                r
                            },
                        };
                    }
                    i -= 1;
                }
                let r = String::new();
                assert(r@ =~= Seq::empty());
                r
            },
        }
    }

    /// Why the run stopped.
    pub fn stopped_for(&self, elapsed_ms: u64) -> (r: AgentStopReason)
        ensures
            r.spec() == stop_of(*self, elapsed_ms),
    {
        match &self.stop_reason {
            Some(r) => r.clone(),
            None => match self.state {
                AgentState::Done => AgentStopReason::Completed,
                AgentState::Failed => AgentStopReason::Error("agent failed".to_owned()),
                AgentState::Thinking | AgentState::Acting => {
                    assert(self.history().len() == self.steps@.len());
                    if self.is_timed_out(elapsed_ms) {
                        AgentStopReason::Timeout
                    } else if self.remaining_steps() == 0 {
                        AgentStopReason::MaxSteps
                    } else {
                        AgentStopReason::Completed
                    }
                },
            },
        }
    }

    /// The places that the results of the run name.
    pub fn found_sources(&self) -> (r: Vec<sources::FoundSource>)
        ensures
            sources::source_specs(r@) == sources::step_sources(
                self.history(),
                self.history().len(),
            ),
    {
        sources::find_sources(&self.steps)
    }

    /// Packs the run up as an answer, given how relevant each place is that its results name.
    #[must_use]
    pub fn to_response(&self, elapsed_ms: u64, relevances: &Vec<u32>) -> (r: AgentResponse)
        requires
            self.well_formed(),
            relevances@.len() == sources::step_sources(self.history(), self.history().len()).len(),
            forall|i: int|
                0 <= i < relevances@.len() ==> !vector_store::is_nan(#[trigger] relevances@[i]),
        ensures
            r.answer@ == answer_text(paths::opt_view(self.final_answer), self.history()),
            sources::reference_specs(r.sources@) == sources::by_relevance(
                sources::step_sources(self.history(), self.history().len()),
                relevances@,
                relevances@.len(),
            ),
            types::step_specs(r.steps@) == self.history(),
            r.total_token_usage == self.total_token_usage,
            r.total_duration_ms == self.total_duration_ms,
            r.total_tool_calls == calls_of(self.history()),
            r.stop_reason.spec() == stop_of(*self, elapsed_ms),
            r.metrics.spec() == self.metrics.spec(),
            r.metrics.well_formed(),
            r.self_evaluation is None,
    {
        let found = self.found_sources();
        assert(sources::source_specs(found@).len() == found@.len());
        AgentResponse {
            answer: self.answer(),
            sources: sources::order_sources(&found, relevances),
            steps: types::copy_steps(&self.steps),
            total_token_usage: self.total_token_usage,
            total_duration_ms: self.total_duration_ms,
            total_tool_calls: self.count_calls(),
            stop_reason: self.stopped_for(elapsed_ms),
            metrics: self.metrics.clone(),
            self_evaluation: None,
        }
    }

    /// The run's name.
    #[must_use]
    pub fn id(&self) -> (r: &str)
        ensures
            r@ == self.id@,
    {
        self.id.as_str()
    }

    /// What the agent is set up with.
    #[must_use]
    pub fn config(&self) -> (r: &AgentConfig)
        ensures
            *r == self.config,
    {
        &self.config
    }

    /// The configuration, to be changed.
    pub fn config_mut(&mut self) -> (r: &mut AgentConfig)
        ensures
            *r == old(self).config,
            *final(self) == (AgentSession { config: *final(r), ..*old(self) }),
    {
        &mut self.config
    }

    /// What the agent is doing.
    #[must_use]
    pub fn state(&self) -> (r: AgentState)
        ensures
            r == self.state,
    {
        self.state
    }

    /// Sets what the agent is doing.
    pub fn set_state(&mut self, state: AgentState)
        ensures
            *final(self) == (AgentSession { state, ..*old(self) }),
    {
        self.state = state;
    }

    /// What the agent thinks about.
    #[must_use]
    pub fn thinking_phase(&self) -> (r: ThinkingPhase)
        ensures
            r == self.thinking_phase,
    {
        self.thinking_phase
    }

    /// Sets what the agent thinks about.
    pub fn set_thinking_phase(&mut self, phase: ThinkingPhase)
        ensures
            *final(self) == (AgentSession { thinking_phase: phase, ..*old(self) }),
    {
        self.thinking_phase = phase;
    }

    /// The steps.
    #[must_use]
    pub fn steps(&self) -> (r: &Vec<AgentStep>)
        ensures
            *r == self.steps,
    {
        &self.steps
    }

    /// What was said.
    #[must_use]
    pub fn chat_session(&self) -> (r: &Conversation)
        ensures
            *r == self.chat,
    {
        &self.chat
    }

    /// The conversation, to be changed.
    pub fn chat_session_mut(&mut self) -> (r: &mut Conversation)
        ensures
            *r == old(self).chat,
            *final(self) == (AgentSession { chat: *final(r), ..*old(self) }),
    {
        &mut self.chat
    }

    /// The tokens of all steps.
    #[must_use]
    pub fn total_token_usage(&self) -> (r: TokenUsage)
        ensures
            r == self.total_token_usage,
    {
        self.total_token_usage
    }

    /// The milliseconds of all steps.
    #[must_use]
    pub fn total_duration_ms(&self) -> (r: u64)
        ensures
            r == self.total_duration_ms,
    {
        self.total_duration_ms
    }

    /// The results that are kept.
    #[must_use]
    pub fn tool_cache(&self) -> (r: &ToolResultCache)
        ensures
            *r == self.tool_cache,
    {
        &self.tool_cache
    }

    /// What was counted.
    #[must_use]
    pub fn metrics(&self) -> (r: &AgentMetrics)
        ensures
            *r == self.metrics,
    {
        &self.metrics
    }

    /// The measures, to be changed.
    pub fn metrics_mut(&mut self) -> (r: &mut AgentMetrics)
        ensures
            *r == old(self).metrics,
            *final(self) == (AgentSession { metrics: *final(r), ..*old(self) }),
    {
        &mut self.metrics
    }

    /// Why the agent stopped, if it is set.
    #[must_use]
    pub fn stop_reason(&self) -> (r: Option<&AgentStopReason>)
        ensures
            match r {
                Some(reason) => self.stop_reason == Some(*reason),
                None => self.stop_reason is None,
            },
    {
        match &self.stop_reason {
            Some(reason) => Some(reason),
            None => None,
        }
    }

    /// Sets why the agent stopped.
    pub fn set_stop_reason(&mut self, reason: AgentStopReason)
        ensures
            *final(self) == (AgentSession { stop_reason: Some(reason), ..*old(self) }),
    {
        self.stop_reason = Some(reason);
    }

    /// The answer, if it is set.
    #[must_use]
    pub fn final_answer(&self) -> (r: Option<&str>)
        ensures
            match r {
                Some(answer) => paths::opt_view(self.final_answer) == Some(answer@),
                None => self.final_answer is None,
            },
    {
        match &self.final_answer {
            Some(answer) => Some(answer.as_str()),
            None => None,
        }
    }

    /// Sets the answer.
    pub fn set_final_answer(&mut self, answer: &str)
        ensures
            paths::opt_view(final(self).final_answer) == Some(answer@),
            *final(self) == (AgentSession {
                final_answer: final(self).final_answer,
                ..*old(self)
            }),
    {
        self.final_answer = Some(answer.to_owned());
    }

    /// Counts a result that was found in the cache.
    pub fn record_cache_hit(&mut self)
        requires
            old(self).well_formed(),
            old(self).metrics.tool_cache_hits < usize::MAX,
        ensures
            final(self).well_formed(),
            final(self).metrics.spec() == (MetricsSpec {
                tool_cache_hits: old(self).metrics.spec().tool_cache_hits + 1,
                ..old(self).metrics.spec()
            }),
            *final(self) == (AgentSession { metrics: final(self).metrics, ..*old(self) }),
    {
        self.metrics.record_cache_hit();
    }

    /// Counts a tool that was run once more.
    pub fn record_retry(&mut self)
        requires
            old(self).well_formed(),
            old(self).metrics.tool_retries < usize::MAX,
        ensures
            final(self).well_formed(),
            final(self).metrics.spec() == (MetricsSpec {
                tool_retries: old(self).metrics.spec().tool_retries + 1,
                ..old(self).metrics.spec()
            }),
            *final(self) == (AgentSession { metrics: final(self).metrics, ..*old(self) }),
    {
        self.metrics.record_retry();
    }

    /// Counts a loop that was detected.
    pub fn record_loop_detection(&mut self)
        requires
            old(self).well_formed(),
            old(self).metrics.loop_detection_triggered < usize::MAX,
        ensures
            final(self).well_formed(),
            final(self).metrics.spec() == (MetricsSpec {
                loop_detection_triggered: old(self).metrics.spec().loop_detection_triggered + 1,
                ..old(self).metrics.spec()
            }),
            *final(self) == (AgentSession { metrics: final(self).metrics, ..*old(self) }),
    {
        self.metrics.record_loop_detection();
    }
}

proof fn lemma_calls_prefix(steps: Seq<StepSpec>, n: int)
    requires
        0 <= n <= steps.len(),
    ensures
        calls_of(steps.take(n)) <= calls_of(steps),
    decreases steps.len(),
{
    if n == steps.len() {
        assert(steps.take(n) =~= steps);
    } else {
        lemma_calls_prefix(steps.drop_last(), n);
        assert(steps.drop_last().take(n) =~= steps.take(n));
    }
}

/// A digit of a number to the base of 16.
pub open spec fn hex_digit(d: nat) -> char {
    if d < 10 {
        (48 + d) as char
    } else {
        (87 + d) as char
    }
}

/// A number to the base of 16.
pub open spec fn hex(n: nat) -> Seq<char>
    decreases n,
{
    if n < 16 {
        seq![hex_digit(n)]
    } else {
        hex(n / 16).push(hex_digit(n % 16))
    }
}

/// The number that hexadecimal digits stand for.
pub open spec fn hex_value(s: Seq<char>) -> nat
    decreases s.len(),
{
    if s.len() == 0 {
        0
    } else {
        let c = s.last();
        hex_value(s.drop_last()) * 16 + if '0' <= c <= '9' {
            (c as nat - '0' as nat) as nat
        } else {
            (c as nat - 'a' as nat + 10) as nat
        }
    }
}

proof fn lemma_hex(n: nat)
    ensures
        hex_value(hex(n)) == n,
        forall|i: int|
            0 <= i < hex(n).len() ==> '0' <= #[trigger] hex(n)[i] <= '9' || 'a' <= hex(n)[i]
                <= 'f',
    decreases n,
{
    if n >= 16 {
        lemma_hex(n / 16);
        assert(hex(n).drop_last() =~= hex(n / 16));
        assert forall|i: int| 0 <= i < hex(n).len() implies '0' <= #[trigger] hex(n)[i] <= '9' || 'a'
            <= hex(n)[i] <= 'f' by {
            if i < hex(n / 16).len() {
                assert(hex(n)[i] == hex(n / 16)[i]);
            }
        }
    } else {
        assert(hex(n).drop_last() =~= Seq::empty());
        assert(hex_value(hex(n).drop_last()) == 0);
    }
}

/// Runs that begin at different times have different identifiers.
pub proof fn law_session_ids_tell_times_apart(
    secs: u64,
    nanos: u32,
    other_secs: u64,
    other_nanos: u32,
)
    requires
        session_id(secs, nanos) == session_id(other_secs, other_nanos),
    ensures
        secs == other_secs,
        nanos == other_nanos,
{
    reveal_strlit("-");
    reveal_strlit("agent-");
    lemma_hex(secs as nat);
    lemma_hex(nanos as nat);
    lemma_hex(other_secs as nat);
    lemma_hex(other_nanos as nat);
    let (a, b) = (hex(secs as nat), hex(nanos as nat));
    let (c, d) = (hex(other_secs as nat), hex(other_nanos as nat));
    let rest = session_id(secs, nanos).skip(6);
    assert("-"@ =~= seq!['-']);
    assert(rest =~= a + seq!['-'] + b);
    assert(rest =~= c + seq!['-'] + d);
    assert(!a.contains('-') && !c.contains('-'));
    text::lemma_same_before_first(a, b, c, d, '-');
}

fn digit_of(d: u8) -> (c: char)
    requires
        d < 16,
    ensures
        c == hex_digit(d as nat),
{
    if d < 10 {
        (48 + d) as char
    } else {
        (87 + d) as char
    }
}

fn hex_text(n: u64) -> (s: String)
    ensures
        s@ == hex(n as nat),
    decreases n,
{
    if n < 16 {
        let mut s = String::new();
        text::push_char(&mut s, digit_of(n as u8));
        assert(s@ =~= hex(n as nat));
        s
    } else {
        let mut s = hex_text(n / 16);
        text::push_char(&mut s, digit_of((n % 16) as u8));
        s
    }
}

/// The identifier of a run that begins at a time, given in seconds and nanoseconds.
pub open spec fn session_id(secs: u64, nanos: u32) -> Seq<char> {
    "agent-"@ + hex(secs as nat) + "-"@ + hex(nanos as nat)
}

/// Makes the identifier of a run that begins at a time.
pub fn generate_session_id(secs: u64, nanos: u32) -> (r: String)
    ensures
        r@ == session_id(secs, nanos),
{
    let mut r = "agent-".to_owned();
    let s = hex_text(secs);
    r.append(s.as_str());
    r.append("-");
    let n = hex_text(nanos as u64);
    r.append(n.as_str());
    r
}

} // verus!
