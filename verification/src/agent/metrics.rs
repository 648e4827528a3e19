//! Counting what the agent does.

use vstd::prelude::*;
use vstd::string::*;

use crate::agent::protocol::CallSpec;
use crate::agent::types;
use crate::agent::types::{AgentMetrics, AgentState, AgentStep, MetricsSpec, StepSpec, TokenUsage};
use crate::tally;

verus! {

/// The use with so many tokens more; the total is what was prompted and what was completed.
pub open spec fn used_more(usage: TokenUsage, prompt: usize, completion: usize) -> TokenUsage {
    TokenUsage {
        prompt_tokens: (usage.prompt_tokens + prompt) as usize,
        completion_tokens: (usage.completion_tokens + completion) as usize,
        total_tokens: (usage.prompt_tokens + prompt + usage.completion_tokens
            + completion) as usize,
    }
}

/// So many tokens more can be counted.
pub open spec fn usage_fits(usage: TokenUsage, prompt: usize, completion: usize) -> bool {
    usage.prompt_tokens + prompt + usage.completion_tokens + completion <= usize::MAX
}

impl TokenUsage {
    /// Adds another use. The total is what was prompted and what was completed, whatever the
    /// other's total says.
    pub fn merge(&mut self, other: &TokenUsage)
        requires
            usage_fits(*old(self), other.prompt_tokens, other.completion_tokens),
        ensures
            *final(self) == used_more(*old(self), other.prompt_tokens, other.completion_tokens),
    {
        self.add_usage(other.prompt_tokens, other.completion_tokens);
    }

    /// Adds tokens.
    pub fn add_usage(&mut self, prompt_tokens: usize, completion_tokens: usize)
        requires
            usage_fits(*old(self), prompt_tokens, completion_tokens),
        ensures
            *final(self) == used_more(*old(self), prompt_tokens, completion_tokens),
    {
        self.prompt_tokens = self.prompt_tokens + prompt_tokens;
        self.completion_tokens = self.completion_tokens + completion_tokens;
        self.total_tokens = self.prompt_tokens + self.completion_tokens;
    }
}

/// Adding one use and then another is adding both at once.
pub proof fn law_uses_add_up(usage: TokenUsage, p1: usize, c1: usize, p2: usize, c2: usize)
    requires
        usage_fits(usage, p1, c1),
        usage.prompt_tokens + p1 + p2 + usage.completion_tokens + c1 + c2 <= usize::MAX,
    ensures
        used_more(used_more(usage, p1, c1), p2, c2) == used_more(
            usage,
            (p1 + p2) as usize,
            (c1 + c2) as usize,
        ),
        used_more(usage, p1, c1).total_tokens == used_more(usage, p1, c1).prompt_tokens + used_more(
            usage,
            p1,
            c1,
        ).completion_tokens,
{
}

/// The counts with one occurrence of a name more.
pub open spec fn bumped(counts: Map<Seq<char>, nat>, name: Seq<char>) -> Map<Seq<char>, nat> {
    counts.insert(
        name,
        if counts.contains_key(name) {
            counts[name] + 1
        } else {
            1
        },
    )
}

/// The counts with the names of calls counted too.
pub open spec fn with_calls(counts: Map<Seq<char>, nat>, calls: Seq<CallSpec>) -> Map<Seq<char>, nat>
    decreases calls.len(),
{
    if calls.len() == 0 {
        counts
    } else {
        bumped(with_calls(counts, calls.drop_last()), calls.last().name)
    }
}

/// The metrics with what a step used, took and called added.
pub open spec fn with_step(m: MetricsSpec, step: StepSpec) -> MetricsSpec {
    MetricsSpec {
        calls: with_calls(m.calls, step.calls),
        total_input_tokens: m.total_input_tokens + step.usage.prompt_tokens as nat,
        total_output_tokens: m.total_output_tokens + step.usage.completion_tokens as nat,
        thinking_time_ms: if step.state == AgentState::Thinking {
            m.thinking_time_ms + step.duration_ms as nat
        } else {
            m.thinking_time_ms
        },
        acting_time_ms: if step.state == AgentState::Acting {
            m.acting_time_ms + step.duration_ms as nat
        } else {
            m.acting_time_ms
        },
        ..m
    }
}

/// A step adds the tokens that it used, and the time that it took to the time for what it did.
pub proof fn law_step_adds_what_it_used(m: MetricsSpec, step: StepSpec)
    ensures
        ({
            let after = with_step(m, step);
            let took = step.duration_ms as nat;
            &&& after.total_input_tokens == m.total_input_tokens + step.usage.prompt_tokens
            &&& after.total_output_tokens == m.total_output_tokens + step.usage.completion_tokens
            &&& step.state == AgentState::Thinking ==> after.thinking_time_ms == m.thinking_time_ms
                + took && after.acting_time_ms == m.acting_time_ms
            &&& step.state == AgentState::Acting ==> after.acting_time_ms == m.acting_time_ms
                + took && after.thinking_time_ms == m.thinking_time_ms
            &&& after.loop_detection_triggered == m.loop_detection_triggered
        }),
{
}

/// A step can be added to metrics.
pub open spec fn step_fits(m: AgentMetrics, step: AgentStep) -> bool {
    &&& m.total_input_tokens + step.token_usage.prompt_tokens <= usize::MAX
    &&& m.total_output_tokens + step.token_usage.completion_tokens <= usize::MAX
    &&& step.state == AgentState::Thinking ==> m.thinking_time_ms + step.duration_ms <= u64::MAX
    &&& step.state == AgentState::Acting ==> m.acting_time_ms + step.duration_ms <= u64::MAX
    &&& m.tool_calls_by_name.total() + step.tool_calls@.len() <= usize::MAX
}

/// The number of results of steps.
pub open spec fn results_of(steps: Seq<StepSpec>) -> nat
    decreases steps.len(),
{
    if steps.len() == 0 {
        0
    } else {
        results_of(steps.drop_last()) + steps.last().results.len()
    }
}

/// The number of successes among results.
pub open spec fn successes_in(results: Seq<crate::agent::protocol::ResultSpec>) -> nat
    decreases results.len(),
{
    if results.len() == 0 {
        0
    } else {
        successes_in(results.drop_last()) + if results.last().success {
            1nat
        } else {
            0nat
        }
    }
}

/// The number of successes of steps.
pub open spec fn successes_of(steps: Seq<StepSpec>) -> nat
    decreases steps.len(),
{
    if steps.len() == 0 {
        0
    } else {
        successes_of(steps.drop_last()) + successes_in(steps.last().results)
    }
}

/// A step in which tools ran.
pub open spec fn ran_tools(step: StepSpec) -> bool {
    step.state == AgentState::Acting && step.results.len() > 0
}

/// The time that steps took in which tools ran.
pub open spec fn latency_of(steps: Seq<StepSpec>) -> nat
    decreases steps.len(),
{
    if steps.len() == 0 {
        0
    } else {
        latency_of(steps.drop_last()) + if ran_tools(steps.last()) {
            steps.last().duration_ms as nat
        } else {
            0
        }
    }
}

/// The number of results of steps in which tools ran.
pub open spec fn timed_results_of(steps: Seq<StepSpec>) -> nat
    decreases steps.len(),
{
    if steps.len() == 0 {
        0
    } else {
        timed_results_of(steps.drop_last()) + if ran_tools(steps.last()) {
            steps.last().results.len()
        } else {
            0
        }
    }
}

/// The metrics with what follows from all steps: their number, how many results they have and how
/// many of these are successes, and how long one took on average.
pub open spec fn derived(m: MetricsSpec, steps: Seq<StepSpec>) -> MetricsSpec {
    MetricsSpec {
        total_steps: steps.len(),
        total_results: results_of(steps),
        success_results: successes_of(steps),
        avg_tool_latency_ms: if timed_results_of(steps) == 0 {
            0
        } else {
            latency_of(steps) / timed_results_of(steps)
        },
        ..m
    }
}

/// A step more adds its results to the results and those that succeeded to the successes; its time
/// and its results are averaged only if tools ran in it.
pub proof fn law_step_adds_its_results(steps: Seq<StepSpec>, step: StepSpec)
    ensures
        results_of(steps.push(step)) == results_of(steps) + step.results.len(),
        successes_of(steps.push(step)) == successes_of(steps) + step.results.filter(
            |r: crate::agent::protocol::ResultSpec| r.success,
        ).len(),
        step.state == AgentState::Acting && step.results.len() > 0 ==> {
            &&& latency_of(steps.push(step)) == latency_of(steps) + step.duration_ms
            &&& timed_results_of(steps.push(step)) == timed_results_of(steps) + step.results.len()
        },
        step.state != AgentState::Acting || step.results.len() == 0 ==> {
            &&& latency_of(steps.push(step)) == latency_of(steps)
            &&& timed_results_of(steps.push(step)) == timed_results_of(steps)
        },
        results_of(Seq::empty()) == 0,
        successes_of(Seq::empty()) == 0,
        latency_of(Seq::empty()) == 0,
        timed_results_of(Seq::empty()) == 0,
{
    assert(steps.push(step).drop_last() =~= steps);
    lemma_successes_are_counted(step.results);
}

proof fn lemma_successes_are_counted(results: Seq<crate::agent::protocol::ResultSpec>)
    ensures
        successes_in(results) == results.filter(
            |r: crate::agent::protocol::ResultSpec| r.success,
        ).len(),
    decreases results.len(),
{
    reveal(Seq::filter);
    if results.len() > 0 {
        lemma_successes_are_counted(results.drop_last());
    }
}

/// What follows from all steps: how many there are, and the time that a result took on average where
/// tools ran, rounded down; 0 if none ran.
pub proof fn law_average_is_time_by_results(m: MetricsSpec, steps: Seq<StepSpec>)
    ensures
        derived(m, steps).total_steps == steps.len(),
        derived(m, steps).total_results == results_of(steps),
        derived(m, steps).success_results == successes_of(steps),
        timed_results_of(steps) == 0 ==> derived(m, steps).avg_tool_latency_ms == 0,
        timed_results_of(steps) > 0 ==> derived(m, steps).avg_tool_latency_ms * timed_results_of(
            steps,
        ) <= latency_of(steps) < (derived(m, steps).avg_tool_latency_ms + 1) * timed_results_of(
            steps,
        ),
        derived(m, steps).calls == m.calls,
        derived(m, steps).total_input_tokens == m.total_input_tokens,
        derived(m, steps).total_output_tokens == m.total_output_tokens,
{
    let n = timed_results_of(steps);
    let t = latency_of(steps);
    if n > 0 {
        vstd::arithmetic::div_mod::lemma_fundamental_div_mod(t as int, n as int);
        assert((t / n) * n <= t < (t / n + 1) * n) by (nonlinear_arith)
            requires
                n > 0,
                t == n * (t / n) + t % n,
                0 <= t % n < n,
        ;
    }
}

/// Each tool is counted as often as it is called.
pub proof fn law_calls_are_counted_by_name(
    counts: Map<Seq<char>, nat>,
    calls: Seq<CallSpec>,
    name: Seq<char>,
)
    ensures
        ({
            let times = calls.filter(|c: CallSpec| c.name == name).len();
            let before = if counts.contains_key(name) {
                counts[name]
            } else {
                0
            };
            &&& with_calls(counts, calls).contains_key(name) <==> counts.contains_key(name) || times
                > 0
            &&& with_calls(counts, calls).contains_key(name) ==> with_calls(counts, calls)[name]
                == before + times
        }),
    decreases calls.len(),
{
    reveal(Seq::filter);
    let named = |c: CallSpec| c.name == name;
    if calls.len() > 0 {
        law_calls_are_counted_by_name(counts, calls.drop_last(), name);
        assert(calls.filter(named).len() == calls.drop_last().filter(named).len() + if named(
            calls.last(),
        ) {
            1int
        } else {
            0
        });
    } else {
        assert(calls.filter(named) =~= Seq::empty());
    }
}

/// There are never more successes than results, nor more timed results than results.
pub proof fn law_successes_are_results(steps: Seq<StepSpec>)
    ensures
        successes_of(steps) <= results_of(steps),
        timed_results_of(steps) <= results_of(steps),
    decreases steps.len(),
{
    if steps.len() > 0 {
        law_successes_are_results(steps.drop_last());
        lemma_successes_in(steps.last().results);
    }
}

proof fn lemma_successes_in(results: Seq<crate::agent::protocol::ResultSpec>)
    ensures
        successes_in(results) <= results.len(),
    decreases results.len(),
{
    if results.len() > 0 {
        lemma_successes_in(results.drop_last());
    }
}

proof fn lemma_prefix_sums(steps: Seq<StepSpec>, n: int)
    requires
        0 <= n <= steps.len(),
    ensures
        results_of(steps.take(n)) <= results_of(steps),
        latency_of(steps.take(n)) <= latency_of(steps),
    decreases steps.len(),
{
    if n == steps.len() {
        assert(steps.take(n) =~= steps);
    } else {
        lemma_prefix_sums(steps.drop_last(), n);
        assert(steps.drop_last().take(n) =~= steps.take(n));
    }
}

fn count_successes(results: &Vec<crate::agent::protocol::ToolResult>) -> (n: usize)
    ensures
        n == successes_in(crate::agent::protocol::result_specs(results@)),
        n <= results@.len(),
{
    let ghost all = crate::agent::protocol::result_specs(results@);
    let mut n: usize = 0;
    let mut i: usize = 0;
    assert(all.take(0) =~= Seq::empty());
    while i < results.len()
        invariant
            i <= results@.len(),
            n <= i,
            all == crate::agent::protocol::result_specs(results@),
            n == successes_in(all.take(i as int)),
        decreases results@.len() - i,
    {
        assert(all.take(i + 1).drop_last() =~= all.take(i as int));
        assert(all.take(i + 1).last() == results@[i as int].spec());
        if results[i].success {
            n += 1;
        }
        i += 1;
    }
    assert(all.take(all.len() as int) =~= all);
    n
}

impl AgentMetrics {
    /// Adds what a step used, took and called.
    pub fn merge_step(&mut self, step: &AgentStep)
        requires
            old(self).well_formed(),
            step_fits(*old(self), *step),
        ensures
            final(self).well_formed(),
            final(self).spec() == with_step(old(self).spec(), step.spec()),
            final(self).tool_calls_by_name.total() == old(self).tool_calls_by_name.total()
                + step.tool_calls@.len(),
    {
        self.total_input_tokens = self.total_input_tokens + step.token_usage.prompt_tokens;
        self.total_output_tokens = self.total_output_tokens + step.token_usage.completion_tokens;
        match step.state {
            AgentState::Thinking => {
                self.thinking_time_ms = self.thinking_time_ms + step.duration_ms;
            },
            AgentState::Acting => {
                self.acting_time_ms = self.acting_time_ms + step.duration_ms;
            },
            AgentState::Done => {},
            AgentState::Failed => {},
        }
        let ghost calls = crate::agent::protocol::call_specs(step.tool_calls@);
        let ghost start = self.tool_calls_by_name.counts();
        let ghost total = self.tool_calls_by_name.total();
        let ghost rest = *self;
        let mut i: usize = 0;
        assert(calls.take(0) =~= Seq::empty());
        while i < step.tool_calls.len()
            invariant
                i <= step.tool_calls@.len(),
                calls == crate::agent::protocol::call_specs(step.tool_calls@),
                self.tool_calls_by_name.well_formed(),
                self.tool_calls_by_name.counts() == with_calls(start, calls.take(i as int)),
                self.tool_calls_by_name.total() == total + i,
                total + step.tool_calls@.len() <= usize::MAX,
                *self == (AgentMetrics { tool_calls_by_name: self.tool_calls_by_name, ..rest }),
            decreases step.tool_calls@.len() - i,
        {
            let name = step.tool_calls[i].name.clone();
            proof {
                assert(calls.take(i + 1).drop_last() =~= calls.take(i as int));
                assert(calls.take(i + 1).last() == step.tool_calls@[i as int].spec());
                if self.tool_calls_by_name.counts().contains_key(name@) {
                    tally::lemma_count_le_total(self.tool_calls_by_name, name@);
                }
            }
            self.tool_calls_by_name.add(name);
            i += 1;
        }
        assert(calls.take(calls.len() as int) =~= calls);
    }

    /// Finds what follows from all steps.
    pub fn recompute_derived(&mut self, steps: &Vec<AgentStep>)
        requires
            results_of(types::step_specs(steps@)) <= usize::MAX,
            latency_of(types::step_specs(steps@)) <= u64::MAX,
        ensures
            final(self).spec() == derived(old(self).spec(), types::step_specs(steps@)),
            final(self).tool_calls_by_name == old(self).tool_calls_by_name,
    {
        let ghost all = types::step_specs(steps@);
        let mut total: usize = 0;
        let mut successes: usize = 0;
        let mut latency_sum: u64 = 0;
        let mut latency_count: usize = 0;
        let mut i: usize = 0;
        assert(all.take(0) =~= Seq::empty());
        while i < steps.len()
            invariant
                i <= steps@.len(),
                all == types::step_specs(steps@),
                results_of(all) <= usize::MAX,
                latency_of(all) <= u64::MAX,
                total == results_of(all.take(i as int)),
                successes == successes_of(all.take(i as int)),
                successes <= total,
                latency_sum == latency_of(all.take(i as int)),
                latency_count == timed_results_of(all.take(i as int)),
                latency_count <= total,
            decreases steps@.len() - i,
        {
            let step = &steps[i];
            proof {
                assert(all.take(i + 1).drop_last() =~= all.take(i as int));
                assert(all.take(i + 1).last() == step.spec());
                lemma_prefix_sums(all, i + 1);
                assert(step.spec().results.len() == step.tool_results@.len());
            }
            let n: usize = step.tool_results.len();
            total = total + n;
            let s: usize = count_successes(&step.tool_results);
            successes = successes + s;
            match step.state {
                AgentState::Acting => {
                    if n > 0 {
                        latency_sum = latency_sum + step.duration_ms;
                        latency_count = latency_count + n;
                    }
                },
                _ => {},
            }
            i += 1;
        }
        assert(all.take(all.len() as int) =~= all);
        self.total_steps = steps.len();
        self.total_results = total;
        self.success_results = successes;
        self.avg_tool_latency_ms = if latency_count == 0 {
            0
        } else {
            latency_sum / (latency_count as u64)
        };
    }

    /// Counts a result that was found in the cache.
    pub fn record_cache_hit(&mut self)
        requires
            old(self).tool_cache_hits < usize::MAX,
        ensures
            final(self).spec() == (MetricsSpec {
                tool_cache_hits: old(self).spec().tool_cache_hits + 1,
                ..old(self).spec()
            }),
            final(self).tool_calls_by_name == old(self).tool_calls_by_name,
    {
        self.tool_cache_hits = self.tool_cache_hits + 1;
    }

    /// Counts a tool that was run once more.
    pub fn record_retry(&mut self)
        requires
            old(self).tool_retries < usize::MAX,
        ensures
            final(self).spec() == (MetricsSpec {
                tool_retries: old(self).spec().tool_retries + 1,
                ..old(self).spec()
            }),
            final(self).tool_calls_by_name == old(self).tool_calls_by_name,
    {
        self.tool_retries = self.tool_retries + 1;
    }

    /// Counts a loop that was detected.
    pub fn record_loop_detection(&mut self)
        requires
            old(self).loop_detection_triggered < usize::MAX,
        ensures
            final(self).spec() == (MetricsSpec {
                loop_detection_triggered: old(self).spec().loop_detection_triggered + 1,
                ..old(self).spec()
            }),
            final(self).tool_calls_by_name == old(self).tool_calls_by_name,
    {
        self.loop_detection_triggered = self.loop_detection_triggered + 1;
    }
}

} // verus!
