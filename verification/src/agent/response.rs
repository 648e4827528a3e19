//! What the agent answers, and what it makes of its own answer.

use vstd::prelude::*;
use vstd::string::*;

use crate::agent::sources;
use crate::agent::sources::RankedSource;
use crate::agent::types;
use crate::agent::types::{
    AgentMetrics, AgentStep, AgentStopReason, MetricsSpec, SourceReference, StepSpec, StopSpec,
    TokenUsage,
};
use crate::text;

verus! {

/// What the agent makes of its answer. The two numbers are floating-point numbers, given by their
/// bits.
#[derive(Debug)]
pub struct SelfEvaluation {
    /// How far the answer is to be trusted, from 0 to 1.
    pub confidence_score: u64,
    /// The answer rests on places in the code.
    pub has_source_citations: bool,
    /// The number of characters of the answer.
    pub answer_length: usize,
    /// There were enough steps.
    pub sufficient_exploration: bool,
    /// The share of results that are successes, from 0 to 1.
    pub tool_success_rate: u64,
    /// What could be better.
    pub notes: Vec<String>,
}

/// What the agent answers.
pub struct AgentResponse {
    pub answer: String,
    pub sources: Vec<SourceReference>,
    pub steps: Vec<AgentStep>,
    pub total_token_usage: TokenUsage,
    pub total_duration_ms: u64,
    pub total_tool_calls: usize,
    pub stop_reason: AgentStopReason,
    pub metrics: AgentMetrics,
    pub self_evaluation: Option<SelfEvaluation>,
}

/// What an evaluation says.
pub struct EvaluationSpec {
    pub confidence_score: u64,
    pub has_source_citations: bool,
    pub answer_length: usize,
    pub sufficient_exploration: bool,
    pub tool_success_rate: u64,
    pub notes: Seq<Seq<char>>,
}

impl SelfEvaluation {
    /// What the evaluation says.
    pub open spec fn spec(&self) -> EvaluationSpec {
        EvaluationSpec {
            confidence_score: self.confidence_score,
            has_source_citations: self.has_source_citations,
            answer_length: self.answer_length,
            sufficient_exploration: self.sufficient_exploration,
            tool_success_rate: self.tool_success_rate,
            notes: text::views(self.notes@),
        }
    }
}

/// What an answer says.
pub struct ResponseSpec {
    pub answer: Seq<char>,
    pub sources: Seq<RankedSource>,
    pub steps: Seq<StepSpec>,
    pub usage: TokenUsage,
    pub duration_ms: u64,
    pub tool_calls: usize,
    pub stop: StopSpec,
    pub metrics: MetricsSpec,
    pub evaluation: Option<EvaluationSpec>,
}

impl AgentResponse {
    /// What the answer says.
    pub open spec fn spec(&self) -> ResponseSpec {
        ResponseSpec {
            answer: self.answer@,
            sources: sources::reference_specs(self.sources@),
            steps: types::step_specs(self.steps@),
            usage: self.total_token_usage,
            duration_ms: self.total_duration_ms,
            tool_calls: self.total_tool_calls,
            stop: self.stop_reason.spec(),
            metrics: self.metrics.spec(),
            evaluation: match self.self_evaluation {
                Some(e) => Some(e.spec()),
                None => None,
            },
        }
    }
}

impl Clone for AgentResponse {
    fn clone(&self) -> (r: Self)
        ensures
            r.spec() == self.spec(),
    {
        let self_evaluation = match &self.self_evaluation {
            Some(e) => Some(
                SelfEvaluation {
                    confidence_score: e.confidence_score,
                    has_source_citations: e.has_source_citations,
                    answer_length: e.answer_length,
                    sufficient_exploration: e.sufficient_exploration,
                    tool_success_rate: e.tool_success_rate,
                    notes: text::copy_texts(&e.notes),
                },
            ),
            None => None,
        };
        AgentResponse {
            answer: self.answer.clone(),
            sources: sources::copy_references(&self.sources),
            steps: types::copy_steps(&self.steps),
            total_token_usage: self.total_token_usage,
            total_duration_ms: self.total_duration_ms,
            total_tool_calls: self.total_tool_calls,
            stop_reason: self.stop_reason.clone(),
            metrics: self.metrics.clone(),
            self_evaluation,
        }
    }
}

/// What speaks for an answer.
#[derive(Debug, Clone, Copy, PartialEq, Eq, Structural)]
pub struct Credit {
    /// It rests on places in the code.
    pub cited: bool,
    /// It has more than 200 characters.
    pub long: bool,
    /// It has more than 500 characters.
    pub very_long: bool,
    /// There were at least two steps.
    pub explored: bool,
}

/// What speaks for an answer.
pub open spec fn credit_of(r: AgentResponse) -> Credit {
    Credit {
        cited: r.sources@.len() > 0,
        long: r.answer@.len() > 200,
        very_long: r.answer@.len() > 500,
        explored: r.steps@.len() >= 2,
    }
}

/// Tools were called, and less than half of the results are successes.
pub open spec fn tools_failed(r: AgentResponse) -> bool {
    r.total_tool_calls > 0 && (r.metrics.total_results == 0 || r.metrics.success_results * 2
        < r.metrics.total_results)
}

/// A list of one text, if it applies.
pub open spec fn note_if(applies: bool, note: Seq<char>) -> Seq<Seq<char>> {
    if applies {
        seq![note]
    } else {
        Seq::empty()
    }
}

/// What could be better about an answer.
pub open spec fn complaints(credit: Credit, failed: bool, percent: Seq<char>) -> Seq<Seq<char>> {
    note_if(!credit.cited, "Answer lacks code source citations (file:line references)."@)
        + note_if(!credit.long, "Answer is short; consider elaborating with more detail."@)
        + note_if(
        !credit.explored,
        "Limited exploration; answer may benefit from more tool calls."@,
    ) + note_if(
        failed,
        "Low tool success rate ("@ + percent + "%); some explorations failed."@,
    )
}

/// The notes on an answer: what could be better, or that nothing could.
pub open spec fn notes_on(credit: Credit, failed: bool, percent: Seq<char>) -> Seq<Seq<char>> {
    let list = complaints(credit, failed, percent);
    if list.len() == 0 {
        seq!["Answer appears well-supported by codebase exploration."@]
    } else {
        list
    }
}

/// There is always a note, and it is praise if and only if there is nothing to complain of.
pub proof fn law_there_is_always_a_note(credit: Credit, failed: bool, percent: Seq<char>)
    ensures
        notes_on(credit, failed, percent).len() >= 1,
        complaints(credit, failed, percent).len() == 0 <==> credit.cited && credit.long
            && credit.explored && !failed,
{
}

/// An evaluation notes everything that could be better: that no places in the code are named, that
/// the answer has no more than 200 characters, that there was no second step, and that less than
/// half of the results of the tools that were called are successes. Where nothing could be better it
/// says so.
pub proof fn law_evaluation_notes_what_is_missing(
    e: SelfEvaluation,
    response: AgentResponse,
    numbers: EvaluationNumbers,
)
    requires
        is_evaluation(e, response, numbers),
    ensures
        ({
            let notes = text::views(e.notes@);
            let uncited = response.sources@.len() == 0;
            let short = response.answer@.len() <= 200;
            let unexplored = response.steps@.len() <= 1;
            let failed = response.total_tool_calls > 0 && (response.metrics.total_results == 0
                || response.metrics.success_results < response.metrics.total_results
                - response.metrics.success_results);
            &&& e.has_source_citations == !uncited
            &&& e.sufficient_exploration == !unexplored
            &&& e.answer_length == response.answer@.len()
            &&& uncited ==> notes.contains(
                "Answer lacks code source citations (file:line references)."@,
            )
            &&& short ==> notes.contains("Answer is short; consider elaborating with more detail."@)
            &&& unexplored ==> notes.contains(
                "Limited exploration; answer may benefit from more tool calls."@,
            )
            &&& failed ==> notes.contains(
                "Low tool success rate ("@ + numbers.percent@ + "%); some explorations failed."@,
            )
            &&& notes.len() == if uncited || short || unexplored || failed {
                (if uncited { 1int } else { 0 }) + (if short { 1int } else { 0 }) + (
                if unexplored { 1int } else { 0 }) + (if failed { 1int } else { 0 })
            } else {
                1
            }
            &&& !uncited && !short && !unexplored && !failed ==> notes
                == seq!["Answer appears well-supported by codebase exploration."@]
        }),
{
    let notes = text::views(e.notes@);
    let credit = credit_of(response);
    let a = note_if(!credit.cited, "Answer lacks code source citations (file:line references)."@);
    let b = note_if(!credit.long, "Answer is short; consider elaborating with more detail."@);
    let c = note_if(
        !credit.explored,
        "Limited exploration; answer may benefit from more tool calls."@,
    );
    let d = note_if(
        tools_failed(response),
        "Low tool success rate ("@ + numbers.percent@ + "%); some explorations failed."@,
    );
    let all = a + b + c + d;
    assert(all == complaints(credit, tools_failed(response), numbers.percent@));
    if a.len() > 0 {
        assert(all[0] == a[0]);
    }
    if b.len() > 0 {
        assert(all[a.len() as int] == b[0]);
    }
    if c.len() > 0 {
        assert(all[(a + b).len() as int] == c[0]);
    }
    if d.len() > 0 {
        assert(all[(a + b + c).len() as int] == d[0]);
    }
}

/// The numbers of an evaluation, as bits and as text.
pub struct EvaluationNumbers {
    pub confidence_score: u64,
    pub tool_success_rate: u64,
    /// The share of successes in percent, as a whole number.
    pub percent: String,
}

fn add_note(notes: &mut Vec<String>, applies: bool, note: &str)
    ensures
        text::views(final(notes)@) == text::views(old(notes)@) + note_if(applies, note@),
{
    let ghost before = text::views(notes@);
    if applies {
        notes.push(note.to_owned());
        assert(text::views(notes@) =~= before.push(note@));
    }
    assert(text::views(notes@) =~= before + note_if(applies, note@));
}

impl AgentResponse {
    /// What speaks for the answer.
    pub fn credit(&self) -> (r: Credit)
        ensures
            r == credit_of(*self),
    {
        let chars = text::chars_of(self.answer.as_str());
        Credit {
            cited: self.sources.len() > 0,
            long: chars.len() > 200,
            very_long: chars.len() > 500,
            explored: self.steps.len() >= 2,
        }
    }

    /// The same answer with its evaluation.
    #[must_use]
    pub fn with_self_evaluation(self, numbers: EvaluationNumbers) -> (r: Self)
        ensures
            r.answer == self.answer,
            r.sources == self.sources,
            r.steps == self.steps,
            r.total_token_usage == self.total_token_usage,
            r.total_duration_ms == self.total_duration_ms,
            r.total_tool_calls == self.total_tool_calls,
            r.stop_reason == self.stop_reason,
            r.metrics == self.metrics,
            match r.self_evaluation {
                Some(e) => is_evaluation(e, self, numbers),
                None => false,
            },
    {
        let e = SelfEvaluation::evaluate(&self, numbers);
        AgentResponse { self_evaluation: Some(e), ..self }
    }
}

/// An evaluation is that of an answer.
pub open spec fn is_evaluation(
    e: SelfEvaluation,
    response: AgentResponse,
    numbers: EvaluationNumbers,
) -> bool {
    &&& e.confidence_score == numbers.confidence_score
    &&& e.tool_success_rate == numbers.tool_success_rate
    &&& e.has_source_citations == credit_of(response).cited
    &&& e.answer_length == response.answer@.len()
    &&& e.sufficient_exploration == credit_of(response).explored
    &&& text::views(e.notes@) == notes_on(
        credit_of(response),
        tools_failed(response),
        numbers.percent@,
    )
}

impl SelfEvaluation {
    /// Evaluates an answer; the numbers are worked out from what speaks for it.
    pub fn evaluate(response: &AgentResponse, numbers: EvaluationNumbers) -> (e: Self)
        ensures
            is_evaluation(e, *response, numbers),
    {
        let credit = response.credit();
        let chars = text::chars_of(response.answer.as_str());
        let total: usize = response.metrics.total_results;
        let successes: usize = response.metrics.success_results;
        let failed = response.total_tool_calls > 0 && (total == 0 || (successes <= total
            && successes < total - successes));
        let mut low = "Low tool success rate (".to_owned();
        low.append(numbers.percent.as_str());
        low.append("%); some explorations failed.");
        let mut notes: Vec<String> = Vec::new();
        assert(text::views(notes@) =~= Seq::empty());
        add_note(
            &mut notes,
            !credit.cited,
            "Answer lacks code source citations (file:line references).",
        );
        add_note(
            &mut notes,
            !credit.long,
            "Answer is short; consider elaborating with more detail.",
        );
        add_note(
            &mut notes,
            !credit.explored,
            "Limited exploration; answer may benefit from more tool calls.",
        );
        add_note(&mut notes, failed, low.as_str());
        assert(text::views(notes@) =~= complaints(credit, failed, numbers.percent@));
        if notes.len() == 0 {
            notes.push("Answer appears well-supported by codebase exploration.".to_owned());
        }
        assert(text::views(notes@) =~= notes_on(credit, failed, numbers.percent@));
        SelfEvaluation {
            confidence_score: numbers.confidence_score,
            has_source_citations: credit.cited,
            answer_length: chars.len(),
            sufficient_exploration: credit.explored,
            tool_success_rate: numbers.tool_success_rate,
            notes,
        }
    }
}

} // verus!
