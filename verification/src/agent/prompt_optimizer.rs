//! Choosing among several things that the system might say.

use vstd::prelude::*;
use vstd::string::*;

use crate::agent::protocol::{AgentError, AgentResult};
use crate::agent::response::AgentResponse;
use crate::text;

verus! {

/// Something that the system might say.
#[derive(Debug)]
pub struct PromptVariant {
    pub name: String,
    pub system_prompt: String,
}

impl PromptVariant {
    /// A variant.
    pub fn new(name: &str, system_prompt: &str) -> (r: Self)
        ensures
            r.name@ == name@,
            r.system_prompt@ == system_prompt@,
    {
        PromptVariant { name: name.to_owned(), system_prompt: system_prompt.to_owned() }
    }
}

/// What a run with a variant took.
#[derive(Debug, Clone, Copy, PartialEq, Eq, Structural)]
pub struct PromptMetric {
    /// The number of characters of what the system says.
    pub prompt_length: usize,
    /// The number of characters of the answer.
    pub answer_length: usize,
    /// How many results there are.
    pub total_results: usize,
    /// How many of the results are successes.
    pub success_results: usize,
    pub total_steps: usize,
    pub total_tokens: usize,
    pub total_duration_ms: u64,
    /// The answer rests on places in the code.
    pub has_sources: bool,
}

/// What a run with a variant took.
pub open spec fn metric_of(prompt: Seq<char>, response: AgentResponse) -> PromptMetric {
    PromptMetric {
        prompt_length: prompt.len() as usize,
        answer_length: response.answer@.len() as usize,
        total_results: response.metrics.total_results,
        success_results: response.metrics.success_results,
        total_steps: response.steps@.len() as usize,
        total_tokens: response.total_token_usage.total_tokens,
        total_duration_ms: response.total_duration_ms,
        has_sources: response.sources@.len() > 0,
    }
}

/// What is known of a run that failed.
pub open spec fn failed_metric(prompt: Seq<char>) -> PromptMetric {
    PromptMetric {
        prompt_length: prompt.len() as usize,
        answer_length: 0,
        total_results: 0,
        success_results: 0,
        total_steps: 0,
        total_tokens: 0,
        total_duration_ms: 0,
        has_sources: false,
    }
}

impl PromptMetric {
    /// Finds what a run with a variant took.
    pub fn from_response(variant: &PromptVariant, response: &AgentResponse) -> (r: Self)
        ensures
            r == metric_of(variant.system_prompt@, *response),
            r.prompt_length == variant.system_prompt@.len(),
            r.answer_length == response.answer@.len(),
            r.total_steps == response.steps@.len(),
    {
        let prompt = text::chars_of(variant.system_prompt.as_str());
        let answer = text::chars_of(response.answer.as_str());
        PromptMetric {
            prompt_length: prompt.len(),
            answer_length: answer.len(),
            total_results: response.metrics.total_results,
            success_results: response.metrics.success_results,
            total_steps: response.steps.len(),
            total_tokens: response.total_token_usage.total_tokens,
            total_duration_ms: response.total_duration_ms,
            has_sources: response.sources.len() > 0,
        }
    }

    /// What is known of a run that failed.
    pub fn of_failure(variant: &PromptVariant) -> (r: Self)
        ensures
            r == failed_metric(variant.system_prompt@),
            r.prompt_length == variant.system_prompt@.len(),
    {
        let prompt = text::chars_of(variant.system_prompt.as_str());
        PromptMetric {
            prompt_length: prompt.len(),
            answer_length: 0,
            total_results: 0,
            success_results: 0,
            total_steps: 0,
            total_tokens: 0,
            total_duration_ms: 0,
            has_sources: false,
        }
    }

    /// What counts for a variant and what counts against it.
    pub fn terms(&self) -> (r: ScoreTerms)
        ensures
            r == terms_of(*self),
    {
        ScoreTerms {
            cited: self.has_sources,
            steps: self.total_steps,
            fitting: self.answer_length >= 200 && self.answer_length <= 2000,
            excess: if self.prompt_length > 1000 {
                self.prompt_length - 1000
            } else {
                0
            },
            answer_length: self.answer_length,
            tokens: if self.total_tokens > 1 {
                self.total_tokens
            } else {
                1
            },
        }
    }
}

/// What counts for a variant and what counts against it.
#[derive(Debug, Clone, Copy, PartialEq, Eq, Structural)]
pub struct ScoreTerms {
    /// The answer rests on places in the code.
    pub cited: bool,
    pub steps: usize,
    /// The answer has between 200 and 2000 characters.
    pub fitting: bool,
    /// By how many characters the prompt is longer than 1000.
    pub excess: usize,
    pub answer_length: usize,
    /// How many tokens were used, at least 1.
    pub tokens: usize,
}

/// What counts for a variant and what counts against it.
pub open spec fn terms_of(m: PromptMetric) -> ScoreTerms {
    ScoreTerms {
        cited: m.has_sources,
        steps: m.total_steps,
        fitting: 200 <= m.answer_length <= 2000,
        excess: if m.prompt_length > 1000 {
            (m.prompt_length - 1000) as usize
        } else {
            0
        },
        answer_length: m.answer_length,
        tokens: if m.total_tokens > 1 {
            m.total_tokens
        } else {
            1
        },
    }
}

/// How good a variant is. The score is a floating-point number, given by its bits.
#[derive(Debug)]
pub struct VariantScore {
    pub variant_name: String,
    pub score: u64,
    pub metric: PromptMetric,
}

/// An integer that orders the bits of floating-point numbers as the numbers are ordered.
pub open spec fn rank(bits: u64) -> int {
    if bits < 0x8000_0000_0000_0000 {
        bits as int
    } else {
        -(bits - 0x8000_0000_0000_0000)
    }
}

fn rank_of(bits: u64) -> (r: i128)
    ensures
        r == rank(bits),
{
    if bits < 0x8000_0000_0000_0000 {
        bits as i128
    } else {
        -((bits - 0x8000_0000_0000_0000) as i128)
    }
}

/// The bits are those of no number.
pub open spec fn is_nan(bits: u64) -> bool {
    bits % 0x8000_0000_0000_0000 > 0x7ff0_0000_0000_0000
}

/// The place of the best score: the last of those that no other exceeds.
pub open spec fn is_best(scores: Seq<u64>, i: int) -> bool {
    &&& 0 <= i < scores.len()
    &&& forall|k: int| 0 <= k < i ==> rank(#[trigger] scores[k]) <= rank(scores[i])
    &&& forall|k: int| i < k < scores.len() ==> rank(#[trigger] scores[k]) < rank(scores[i])
}

/// There is only one best place.
pub proof fn law_best_is_unique(scores: Seq<u64>, i: int, j: int)
    requires
        is_best(scores, i),
        is_best(scores, j),
    ensures
        i == j,
{
    if i < j {
        assert(rank(scores[j]) < rank(scores[i]));
        assert(rank(scores[i]) <= rank(scores[j]));
    } else if j < i {
        assert(rank(scores[i]) < rank(scores[j]));
        assert(rank(scores[j]) <= rank(scores[i]));
    }
}

/// `a` is no smaller than `b`, for the bits of two floating-point numbers: of two without a sign the
/// larger bits are the larger number, of two with a sign the smaller ones, a number without a sign
/// is no smaller than one with it, and the two zeros are equal.
pub open spec fn is_no_smaller(a: u64, b: u64) -> bool {
    ||| a < 0x8000_0000_0000_0000 && b < 0x8000_0000_0000_0000 && b <= a
    ||| a < 0x8000_0000_0000_0000 && b >= 0x8000_0000_0000_0000
    ||| a >= 0x8000_0000_0000_0000 && b >= 0x8000_0000_0000_0000 && a <= b
    ||| a == 0x8000_0000_0000_0000 && b == 0
}

/// No score exceeds the best, and of several that are as good the last one is the best.
pub proof fn law_nothing_exceeds_the_best(scores: Seq<u64>, i: int, k: int)
    requires
        is_best(scores, i),
        0 <= k < scores.len(),
    ensures
        is_no_smaller(scores[i], scores[k]),
        k > i ==> !is_no_smaller(scores[k], scores[i]),
{
    if k < i {
        assert(rank(scores[k]) <= rank(scores[i]));
    } else if k > i {
        assert(rank(scores[k]) < rank(scores[i]));
    }
}

/// What a run took is what its answer says; a run that failed took nothing and has no answer.
pub proof fn law_runs_are_measured_by_their_answer(
    prompt: Seq<char>,
    response: AgentResponse,
    e: AgentError,
)
    requires
        prompt.len() <= usize::MAX,
        response.answer@.len() <= usize::MAX,
        response.steps@.len() <= usize::MAX,
    ensures
        ({
            let m = measured_of(prompt, Ok(response));
            &&& !m.failed
            &&& m.metric.prompt_length == prompt.len()
            &&& m.metric.answer_length == response.answer@.len()
            &&& m.metric.total_steps == response.steps@.len()
            &&& m.metric.total_results == response.metrics.total_results
            &&& m.metric.success_results == response.metrics.success_results
            &&& m.metric.total_tokens == response.total_token_usage.total_tokens
            &&& m.metric.total_duration_ms == response.total_duration_ms
            &&& m.metric.has_sources <==> response.sources@.len() > 0
        }),
        ({
            let m = measured_of(prompt, Err(e));
            &&& m.failed
            &&& m.metric.prompt_length == prompt.len()
            &&& m.metric.answer_length == 0
            &&& m.metric.total_tokens == 0
            &&& !m.metric.has_sources
        }),
{
}

/// An answer fits from 200 to 2000 characters; a prompt is charged for every character beyond a
/// thousand; and at least one token is counted.
pub proof fn law_terms_reward_and_charge(m: PromptMetric)
    ensures
        terms_of(m).cited == m.has_sources,
        terms_of(m).steps == m.total_steps,
        terms_of(m).answer_length == m.answer_length,
        terms_of(m).fitting <==> m.answer_length >= 200 && m.answer_length <= 2000,
        m.prompt_length <= 1000 ==> terms_of(m).excess == 0,
        m.prompt_length >= 1000 ==> terms_of(m).excess + 1000 == m.prompt_length,
        m.total_tokens >= 1 ==> terms_of(m).tokens == m.total_tokens,
        m.total_tokens == 0 ==> terms_of(m).tokens == 1,
{
}

/// What came of comparing variants.
#[derive(Debug)]
pub struct OptimizationResult {
    pub best_variant_index: usize,
    pub best_variant_name: String,
    /// The best score, given by its bits.
    pub best_score: u64,
    /// How good each variant is.
    pub scores: Vec<VariantScore>,
}

/// Runs the agent with something that the system says.
pub trait PromptRunRunner: Send + Sync {
    /// Runs the agent.
    fn run_with_prompt(&self, query: &str, system_prompt: &str) -> (r: AgentResult<AgentResponse>);
}

/// What a variant came to: what the run took, and whether it failed.
#[derive(Debug, Clone, Copy, PartialEq, Eq, Structural)]
pub struct Measured {
    pub metric: PromptMetric,
    pub failed: bool,
}

/// What a variant came to.
pub open spec fn measured_of(prompt: Seq<char>, run: AgentResult<AgentResponse>) -> Measured {
    match run {
        Ok(response) => Measured { metric: metric_of(prompt, response), failed: false },
        Err(_) => Measured { metric: failed_metric(prompt), failed: true },
    }
}

/// A text is what a variant lets the system say, and `m` is what a run with it came to.
pub open spec fn is_measured<R: PromptRunRunner>(
    runner: R,
    query: &str,
    variant: PromptVariant,
    m: Measured,
) -> bool {
    exists|prompt: &str, run: AgentResult<AgentResponse>|
        prompt@ == variant.system_prompt@ && #[trigger] call_ensures(
            R::run_with_prompt,
            (&runner, query, prompt),
            run,
        ) && m == measured_of(prompt@, run)
}

/// Compares variants.
pub struct PromptOptimizer<'a, R: PromptRunRunner> {
    pub variants: Vec<PromptVariant>,
    pub runner: &'a R,
}

impl<'a, R: PromptRunRunner> PromptOptimizer<'a, R> {
    /// An optimizer for some variants.
    pub fn new(variants: Vec<PromptVariant>, runner: &'a R) -> (r: Self)
        ensures
            r.variants == variants,
            r.runner == runner,
    {
        PromptOptimizer { variants, runner }
    }

    /// Runs the agent with each variant. A run that fails does not stop the others.
    pub fn measure(&self, query: &str) -> (r: AgentResult<Vec<Measured>>)
        ensures
            match r {
                Ok(v) => {
                    &&& self.variants@.len() > 0
                    &&& v@.len() == self.variants@.len()
                    &&& forall|i: int|
                        0 <= i < v@.len() ==> is_measured(
                            *self.runner,
                            query,
                            self.variants@[i],
                            #[trigger] v@[i],
                        )
                },
                Err(AgentError::ConfigError(m)) => self.variants@.len() == 0 && m@
                    == "No prompt variants provided"@,
                Err(_) => false,
            },
    {
        if self.variants.len() == 0 {
            return Err(AgentError::ConfigError("No prompt variants provided".to_owned()));
        }
        let mut v: Vec<Measured> = Vec::new();
        let mut i: usize = 0;
        while i < self.variants.len()
            invariant
                i <= self.variants@.len(),
                v@.len() == i,
                forall|k: int|
                    0 <= k < i ==> is_measured(
                        *self.runner,
                        query,
                        self.variants@[k],
                        #[trigger] v@[k],
                    ),
            decreases self.variants@.len() - i,
        {
            let variant = &self.variants[i];
            let prompt: &str = variant.system_prompt.as_str();
            let run = self.runner.run_with_prompt(query, prompt);
            assert(call_ensures(R::run_with_prompt, (&*self.runner, query, prompt), run));
            let m = match &run {
                Ok(response) => Measured {
                    metric: PromptMetric::from_response(variant, response),
                    failed: false,
                },
                Err(_) => Measured { metric: PromptMetric::of_failure(variant), failed: true },
            };
            assert(is_measured(*self.runner, query, self.variants@[i as int], m));
            v.push(m);
            i += 1;
        }
        Ok(v)
    }

    /// Picks the best variant, given the scores of all. A variant whose run failed has score 0.
    pub fn optimize(&self, measured: &Vec<Measured>, scores: &Vec<u64>) -> (r: OptimizationResult)
        requires
            self.variants@.len() > 0,
            measured@.len() == self.variants@.len(),
            scores@.len() == self.variants@.len(),
            forall|i: int| 0 <= i < scores@.len() ==> !is_nan(#[trigger] scores@[i]),
        ensures
            r.scores@.len() == self.variants@.len(),
            forall|i: int|
                0 <= i < r.scores@.len() ==> {
                    &&& (#[trigger] r.scores@[i]).variant_name@ == self.variants@[i].name@
                    &&& r.scores@[i].metric == measured@[i].metric
                    &&& r.scores@[i].score == if measured@[i].failed {
                        0
                    } else {
                        scores@[i]
                    }
                },
            is_best(
                Seq::new(r.scores@.len(), |i: int| r.scores@[i].score),
                r.best_variant_index as int,
            ),
            r.best_variant_name@ == self.variants@[r.best_variant_index as int].name@,
            r.best_score == r.scores@[r.best_variant_index as int].score,
    {
        let mut list: Vec<VariantScore> = Vec::new();
        let mut best: usize = 0;
        let mut i: usize = 0;
        while i < self.variants.len()
            invariant
                i <= self.variants@.len(),
                measured@.len() == self.variants@.len(),
                scores@.len() == self.variants@.len(),
                list@.len() == i,
                best <= i,
                i > 0 ==> best < i,
                forall|k: int|
                    0 <= k < i ==> {
                        &&& (#[trigger] list@[k]).variant_name@ == self.variants@[k].name@
                        &&& list@[k].metric == measured@[k].metric
                        &&& list@[k].score == if measured@[k].failed {
                            0
                        } else {
                            scores@[k]
                        }
                    },
                forall|k: int|
                    0 <= k < best ==> rank((#[trigger] list@[k]).score) <= rank(
                        list@[best as int].score,
                    ),
                forall|k: int|
                    best < k < i ==> rank((#[trigger] list@[k]).score) < rank(
                        list@[best as int].score,
                    ),
            decreases self.variants@.len() - i,
        {
            let score: u64 = if measured[i].failed {
                0
            } else {
                scores[i]
            };
            let ghost before = list@;
            list.push(
                VariantScore {
                    variant_name: self.variants[i].name.clone(),
                    score,
                    metric: measured[i].metric,
                },
            );
            assert forall|k: int| 0 <= k < i implies #[trigger] list@[k] == before[k] by {}
            if rank_of(list[best].score) <= rank_of(score) {
                best = i;
            }
            i += 1;
        }
        let name = list[best].variant_name.clone();
        let score: u64 = list[best].score;
        OptimizationResult {
            best_variant_index: best,
            best_variant_name: name,
            best_score: score,
            scores: list,
        }
    }
}

} // verus!
