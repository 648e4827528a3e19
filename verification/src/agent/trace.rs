//! Reports on what the agent did.

use vstd::prelude::*;
use vstd::string::*;

use crate::agent::json;
use crate::agent::protocol;
use crate::agent::protocol::{CallSpec, ResultSpec, ToolCall, ToolResult};
use crate::agent::response::{AgentResponse, EvaluationSpec, ResponseSpec, SelfEvaluation};
use crate::agent::types;
use crate::agent::types::{AgentState, AgentStep, AgentStopReason, StepSpec, StopSpec, ThinkingPhase};
use crate::tally;
use crate::tally::Tally;
use crate::text;

verus! {

/// A character as HTML shows it.
pub open spec fn escaped_char(c: char) -> Seq<char> {
    if c == '&' {
        "&amp;"@
    } else if c == '<' {
        "&lt;"@
    } else if c == '>' {
        "&gt;"@
    } else if c == '"' {
        "&quot;"@
    } else if c == '\'' {
        "&#x27;"@
    } else {
        seq![c]
    }
}

/// A text as HTML shows it.
pub open spec fn escaped(s: Seq<char>) -> Seq<char>
    decreases s.len(),
{
    if s.len() == 0 {
        Seq::empty()
    } else {
        escaped(s.drop_last()) + escaped_char(s.last())
    }
}

/// Writes a text so that HTML shows it.
pub fn html_escape(s: &str) -> (r: String)
    ensures
        r@ == escaped(s@),
{
    let chars = text::chars_of(s);
    let mut r = String::new();
    let mut i: usize = 0;
    assert(r@ =~= escaped(s@.take(0)));
    while i < chars.len()
        invariant
            i <= chars@.len(),
            chars@ == s@,
            r@ == escaped(s@.take(i as int)),
        decreases chars@.len() - i,
    {
        let c = chars[i];
        assert(s@.take(i + 1).drop_last() =~= s@.take(i as int));
        assert(s@.take(i + 1).last() == c);
        if c == '&' {
            r.append("&amp;");
        } else if c == '<' {
            r.append("&lt;");
        } else if c == '>' {
            r.append("&gt;");
        } else if c == '"' {
            r.append("&quot;");
        } else if c == '\'' {
            r.append("&#x27;");
        } else {
            text::push_char(&mut r, c);
            assert(r@ =~= escaped(s@.take(i as int)) + seq![c]);
        }
        i += 1;
    }
    assert(s@.take(s@.len() as int) =~= s@);
    r
}

/// A character means something in HTML text or in an attribute.
pub open spec fn is_markup(c: char) -> bool {
    c == '<' || c == '>' || c == '"' || c == '\''
}

/// A text that was escaped cannot open or close a tag or an attribute.
pub proof fn law_escaped_is_no_markup(s: Seq<char>, i: int)
    requires
        0 <= i < escaped(s).len(),
    ensures
        !is_markup(escaped(s)[i]),
    decreases s.len(),
{
    reveal_strlit("&amp;");
    reveal_strlit("&lt;");
    reveal_strlit("&gt;");
    reveal_strlit("&quot;");
    reveal_strlit("&#x27;");
    if s.len() > 0 {
        let front = escaped(s.drop_last());
        if i < front.len() {
            law_escaped_is_no_markup(s.drop_last(), i);
        } else {
            assert(escaped(s)[i] == escaped_char(s.last())[i - front.len()]);
        }
    }
}

/// A text is escaped character by character.
pub proof fn law_escaping_goes_by_parts(a: Seq<char>, b: Seq<char>)
    ensures
        escaped(a + b) == escaped(a) + escaped(b),
    decreases b.len(),
{
    if b.len() == 0 {
        assert(a + b =~= a);
        assert(escaped(a) + escaped(b) =~= escaped(a));
    } else {
        assert((a + b).drop_last() =~= a + b.drop_last());
        law_escaping_goes_by_parts(a, b.drop_last());
        assert(escaped(a + b) =~= escaped(a) + escaped(b));
    }
}

/// Cuts a text for a line of Markdown.
pub fn truncate_str_md(s: &str, max: usize) -> (r: String)
    ensures
        r@ == text::shortened(s@, max as nat),
{
    text::shorten(s, max)
}

/// Escaping turns the five characters that mean something into their names and leaves every other
/// as it is, so a text without any of them stays the same.
pub proof fn law_escaping_names_what_has_a_meaning(c: char, s: Seq<char>)
    ensures
        escaped(seq!['&']) == "&amp;"@,
        escaped(seq!['<']) == "&lt;"@,
        escaped(seq!['>']) == "&gt;"@,
        escaped(seq!['"']) == "&quot;"@,
        escaped(seq!['\'']) == "&#x27;"@,
        c != '&' && !is_markup(c) ==> escaped(seq![c]) == seq![c],
        (forall|i: int| 0 <= i < s.len() ==> #[trigger] s[i] != '&' && !is_markup(s[i]))
            ==> escaped(s) == s,
{
    lemma_escaped_one('&');
    lemma_escaped_one('<');
    lemma_escaped_one('>');
    lemma_escaped_one('"');
    lemma_escaped_one('\'');
    lemma_escaped_one(c);
    if forall|i: int| 0 <= i < s.len() ==> #[trigger] s[i] != '&' && !is_markup(s[i]) {
        lemma_plain_stays(s);
    }
}

proof fn lemma_escaped_one(c: char)
    ensures
        escaped(seq![c]) == escaped_char(c),
{
    assert(seq![c].drop_last() =~= Seq::empty());
    assert(escaped(seq![c].drop_last()) =~= Seq::empty());
    assert(Seq::<char>::empty() + escaped_char(c) =~= escaped_char(c));
}

proof fn lemma_plain_stays(s: Seq<char>)
    requires
        forall|i: int| 0 <= i < s.len() ==> #[trigger] s[i] != '&' && !is_markup(s[i]),
    ensures
        escaped(s) == s,
    decreases s.len(),
{
    if s.len() > 0 {
        let front = s.drop_last();
        assert forall|i: int| 0 <= i < front.len() implies #[trigger] front[i] != '&' && !is_markup(
            front[i],
        ) by {
            assert(s[i] == front[i]);
        }
        lemma_plain_stays(front);
        assert(s[s.len() - 1] == s.last());
        assert(escaped(s) =~= s);
    } else {
        assert(escaped(s) =~= s);
    }
}

/// A state's name.
pub open spec fn state_name(s: AgentState) -> Seq<char> {
    match s {
        AgentState::Thinking => "Thinking"@,
        AgentState::Acting => "Acting"@,
        AgentState::Done => "Done"@,
        AgentState::Failed => "Failed"@,
    }
}

fn state_text(s: AgentState) -> (r: &'static str)
    ensures
        r@ == state_name(s),
{
    match s {
        AgentState::Thinking => "Thinking",
        AgentState::Acting => "Acting",
        AgentState::Done => "Done",
        AgentState::Failed => "Failed",
    }
}

/// The class of a step of a state.
pub open spec fn state_class(s: AgentState) -> Seq<char> {
    match s {
        AgentState::Thinking => "step-thinking"@,
        AgentState::Acting => "step-acting"@,
        AgentState::Done => "step-done"@,
        AgentState::Failed => "step-failed"@,
    }
}

fn state_class_text(s: AgentState) -> (r: &'static str)
    ensures
        r@ == state_class(s),
{
    match s {
        AgentState::Thinking => "step-thinking",
        AgentState::Acting => "step-acting",
        AgentState::Done => "step-done",
        AgentState::Failed => "step-failed",
    }
}

/// A phase's name.
pub open spec fn phase_name(p: ThinkingPhase) -> Seq<char> {
    match p {
        ThinkingPhase::Planning => "Planning"@,
        ThinkingPhase::Observing => "Observing"@,
        ThinkingPhase::Concluding => "Concluding"@,
    }
}

fn phase_text(p: ThinkingPhase) -> (r: &'static str)
    ensures
        r@ == phase_name(p),
{
    match p {
        ThinkingPhase::Planning => "Planning",
        ThinkingPhase::Observing => "Observing",
        ThinkingPhase::Concluding => "Concluding",
    }
}

/// A reason to stop, as it is written for debugging.
pub open spec fn stop_name(s: StopSpec) -> Seq<char> {
    match s {
        StopSpec::Completed => "Completed"@,
        StopSpec::MaxSteps => "MaxSteps"@,
        StopSpec::Timeout => "Timeout"@,
        StopSpec::UserCancel => "UserCancel"@,
        StopSpec::LoopDetected => "LoopDetected"@,
        StopSpec::Error(m) => "Error("@ + text::debug_text(m) + ")"@,
    }
}

fn stop_text(s: &AgentStopReason) -> (r: String)
    ensures
        r@ == stop_name(s.spec()),
{
    match s {
        AgentStopReason::Completed => "Completed".to_owned(),
        AgentStopReason::MaxSteps => "MaxSteps".to_owned(),
        AgentStopReason::Timeout => "Timeout".to_owned(),
        AgentStopReason::UserCancel => "UserCancel".to_owned(),
        AgentStopReason::LoopDetected => "LoopDetected".to_owned(),
        AgentStopReason::Error(m) => {
            let mut r = "Error(".to_owned();
            let d = text::debug_of(m.as_str());
            r.append(d.as_str());
            r.append(")");
            r
        },
    }
}

/// The fractions of a report as they are written.
pub struct TraceNumbers {
    /// The seconds that the run took, with two digits behind the point.
    pub seconds: String,
    /// The share of results that are successes, in percent without a fraction.
    pub success_percent: String,
    /// How far the answer is to be trusted, in percent without a fraction.
    pub confidence_percent: String,
    /// The share of results that the evaluation counts as successes, in percent.
    pub evaluated_percent: String,
}

/// The fractions of a report as they are written.
pub struct NumberSpec {
    pub seconds: Seq<char>,
    pub success_percent: Seq<char>,
    pub confidence_percent: Seq<char>,
    pub evaluated_percent: Seq<char>,
}

impl TraceNumbers {
    /// The fractions as they are written.
    pub open spec fn spec(&self) -> NumberSpec {
        NumberSpec {
            seconds: self.seconds@,
            success_percent: self.success_percent@,
            confidence_percent: self.confidence_percent@,
            evaluated_percent: self.evaluated_percent@,
        }
    }
}

/// The style of a report.
pub const CSS: &'static str = "body { font-family: -apple-system, BlinkMacSystemFont, 'Segoe UI', sans-serif; margin: 2em; color: #333; }\n.summary { background: #f5f5f5; padding: 1em; border-radius: 8px; margin-bottom: 2em; }\n.summary h2 { margin-top: 0; }\n.stats { display: flex; flex-wrap: wrap; gap: 1em; }\n.stat { background: white; padding: 0.8em 1.2em; border-radius: 6px; border: 1px solid #ddd; }\n.stat .label { color: #888; font-size: 0.85em; text-transform: uppercase; }\n.stat .value { font-size: 1.4em; font-weight: bold; color: #2563eb; }\n.timeline { margin-top: 1em; }\n.step { border-left: 3px solid #2563eb; padding-left: 1em; margin-bottom: 1.5em; }\n.step-thinking { border-color: #6366f1; }\n.step-acting { border-color: #10b981; }\n.step-done { border-color: #6b7280; }\n.step-failed { border-color: #ef4444; }\n.step h3 { margin: 0 0 0.5em 0; }\n.tool-call { background: #ecfdf5; padding: 0.5em 1em; border-radius: 4px; margin: 0.3em 0; font-family: monospace; font-size: 0.9em; }\n.tool-result { background: #f0fdf4; padding: 0.5em 1em; border-radius: 4px; margin: 0.3em 0; font-family: monospace; font-size: 0.85em; white-space: pre-wrap; word-break: break-all; }\n.tool-error { background: #fef2f2; }\n.thought { background: #eef2ff; padding: 0.5em 1em; border-radius: 4px; margin: 0.3em 0; font-style: italic; }\n.evaluation { background: #fffbeb; padding: 1em; border-radius: 8px; margin-top: 2em; border: 1px solid #fde68a; }\n.evaluation h2 { margin-top: 0; }\n.confidence { font-size: 1.5em; font-weight: bold; }\n.note { color: #92400e; }\n.answer { background: #dbeafe; padding: 1em; border-radius: 8px; margin-top: 2em; }\n";

/// The style of a report.
pub open spec fn style() -> Seq<char> {
    CSS@
}

/// What a report begins with.
pub open spec fn html_head() -> Seq<char> {
    "<!DOCTYPE html>\n<html lang=\"en\">\n<head>\n<meta charset=\"UTF-8\">\n<meta name=\"viewport\" content=\"width=device-width, initial-scale=1.0\">\n<title>ChatVCode Agent Trace</title>\n<style>\n"@
        + style() + "</style>\n</head>\n<body>\n"@
}

/// The head line of a report.
pub open spec fn html_title(stop: StopSpec) -> Seq<char> {
    "<h1>ChatVCode Agent Execution Trace</h1>\n<p>Stop reason: <code>"@ + stop_name(stop)
        + "</code></p>\n"@
}

/// A number with its label.
pub open spec fn stat(label: Seq<char>, value: Seq<char>) -> Seq<char> {
    "<div class=\"stat\"><div class=\"label\">"@ + label + "</div><div class=\"value\">"@ + value
        + "</div></div>\n"@
}

/// The summary of a run.
pub open spec fn html_summary(r: ResponseSpec, n: NumberSpec) -> Seq<char> {
    "<div class=\"summary\">\n<h2>Summary</h2>\n<div class=\"stats\">\n"@ + stat(
        "Steps"@,
        text::decimal(r.metrics.total_steps),
    ) + stat("Tool calls"@, text::decimal(r.tool_calls as nat)) + stat(
        "Tokens"@,
        text::decimal(r.usage.total_tokens as nat),
    ) + stat("Duration"@, n.seconds + "s"@) + stat("Success rate"@, n.success_percent + "%"@)
        + "</div>\n"@ + (if r.answer.len() > 0 {
        "<div class=\"answer\"><h3>Final Answer</h3><p>"@ + escaped(r.answer) + "</p></div>\n"@
    } else {
        Seq::empty()
    }) + "</div>\n"@
}

/// A call with its result, if there is one.
pub open spec fn html_call(call: CallSpec, result: Option<ResultSpec>) -> Seq<char> {
    "<div class=\"tool-call\">→ "@ + escaped(call.name) + "("@ + text::decimal(
        call.arguments.dom().len(),
    ) + ")</div>\n"@ + match result {
        Some(r) => "<div class=\""@ + (if r.success {
            "tool-result"@
        } else {
            "tool-result tool-error"@
        }) + "\">"@ + escaped(json::pretty_json_text(r.value)) + "</div>\n"@,
        None => Seq::empty(),
    }
}

/// The result of a call, if there is one.
pub open spec fn result_of(results: Seq<ResultSpec>, i: int) -> Option<ResultSpec> {
    if i < results.len() {
        Some(results[i])
    } else {
        None
    }
}

/// The first `n` calls of a step.
pub open spec fn html_calls(step: StepSpec, n: nat) -> Seq<char>
    decreases n,
{
    if n == 0 {
        Seq::empty()
    } else {
        html_calls(step, (n - 1) as nat) + html_call(
            step.calls[n - 1],
            result_of(step.results, n - 1),
        )
    }
}

/// A phase in brackets, if there is one.
pub open spec fn in_brackets(phase: Option<ThinkingPhase>) -> Seq<char> {
    match phase {
        Some(p) => " ("@ + phase_name(p) + ")"@,
        None => Seq::empty(),
    }
}

/// A step.
pub open spec fn html_step(step: StepSpec) -> Seq<char> {
    "<div class=\"step "@ + state_class(step.state) + "\">\n<h3>Step "@ + text::decimal(
        step.step_number as nat,
    ) + ": "@ + state_name(step.state) + in_brackets(step.thinking_phase) + " <small>"@
        + text::decimal(step.duration_ms as nat) + "ms · "@ + text::decimal(
        step.usage.total_tokens as nat,
    ) + " tokens</small></h3>\n"@ + (match step.thought {
        Some(t) => "<div class=\"thought\">"@ + escaped(t) + "</div>\n"@,
        None => Seq::empty(),
    }) + html_calls(step, step.calls.len()) + "</div>\n"@
}

/// The first `n` steps.
pub open spec fn html_step_list(steps: Seq<StepSpec>, n: nat) -> Seq<char>
    decreases n,
{
    if n == 0 {
        Seq::empty()
    } else {
        html_step_list(steps, (n - 1) as nat) + html_step(steps[n - 1])
    }
}

/// The steps of a run.
pub open spec fn html_steps(steps: Seq<StepSpec>) -> Seq<char> {
    "<div class=\"timeline\">\n<h2>Execution Timeline</h2>\n"@ + html_step_list(
        steps,
        steps.len(),
    ) + "</div>\n"@
}

/// Yes or no.
pub open spec fn yes_no(b: bool) -> Seq<char> {
    if b {
        "Yes"@
    } else {
        "No"@
    }
}

fn yes_no_text(b: bool) -> (r: &'static str)
    ensures
        r@ == yes_no(b),
{
    if b {
        "Yes"
    } else {
        "No"
    }
}

/// The first `n` notes.
pub open spec fn html_notes(notes: Seq<Seq<char>>, n: nat) -> Seq<char>
    decreases n,
{
    if n == 0 {
        Seq::empty()
    } else {
        html_notes(notes, (n - 1) as nat) + "<li class=\"note\">"@ + escaped(notes[n - 1])
            + "</li>\n"@
    }
}

/// What the agent makes of its answer.
pub open spec fn html_evaluation(e: EvaluationSpec, n: NumberSpec) -> Seq<char> {
    "<div class=\"evaluation\">\n<h2>Self-Evaluation</h2>\n<p class=\"confidence\">Confidence: "@
        + n.confidence_percent + "%</p>\n<ul>\n<li>Source citations: "@ + yes_no(
        e.has_source_citations,
    ) + "</li>\n<li>Answer length: "@ + text::decimal(e.answer_length as nat)
        + " chars</li>\n<li>Sufficient exploration: "@ + yes_no(e.sufficient_exploration)
        + "</li>\n<li>Tool success rate: "@ + n.evaluated_percent
        + "%</li>\n</ul>\n<h4>Notes:</h4>\n<ul>\n"@ + html_notes(e.notes, e.notes.len())
        + "</ul>\n</div>\n"@
}

/// A report in HTML.
pub open spec fn html_report(r: ResponseSpec, n: NumberSpec) -> Seq<char> {
    html_head() + html_title(r.stop) + html_summary(r, n) + html_steps(r.steps)
        + (match r.evaluation {
        Some(e) => html_evaluation(e, n),
        None => Seq::empty(),
    }) + "</body>\n</html>\n"@
}

/// The summary of a run in Markdown.
pub open spec fn md_summary(r: ResponseSpec, n: NumberSpec) -> Seq<char> {
    "## Summary\n\n| Metric | Value |\n|--------|-------|\n| Steps | "@ + text::decimal(
        r.metrics.total_steps,
    ) + " |\n| Tool calls | "@ + text::decimal(r.tool_calls as nat) + " |\n| Tokens | "@
        + text::decimal(r.usage.prompt_tokens as nat) + " prompt + "@ + text::decimal(
        r.usage.completion_tokens as nat,
    ) + " completion = "@ + text::decimal(r.usage.total_tokens as nat)
        + " total |\n| Duration | "@ + n.seconds + "s |\n| Tool success rate | "@
        + n.success_percent + "% |\n| Stop reason | "@ + stop_name(r.stop) + " |\n\n"@ + (
    if r.answer.len() > 0 {
        "### Final Answer\n\n"@ + r.answer + "\n\n"@
    } else {
        Seq::empty()
    })
}

/// A call with its result, if there is one.
pub open spec fn md_call(call: CallSpec, result: Option<ResultSpec>) -> Seq<char> {
    "- **"@ + call.name + "**("@ + text::decimal(call.arguments.dom().len()) + " args)\n"@
        + match result {
        Some(r) => "  - "@ + (if r.success {
            "✓"@
        } else {
            "✗"@
        }) + " Result: `"@ + text::shortened(json::json_text(r.value), 200) + "`\n"@,
        None => Seq::empty(),
    }
}

/// The first `n` calls of a step.
pub open spec fn md_calls(step: StepSpec, n: nat) -> Seq<char>
    decreases n,
{
    if n == 0 {
        Seq::empty()
    } else {
        md_calls(step, (n - 1) as nat) + md_call(step.calls[n - 1], result_of(step.results, n - 1))
    }
}

/// A step.
pub open spec fn md_step(step: StepSpec) -> Seq<char> {
    "### Step "@ + text::decimal(step.step_number as nat) + " — "@ + state_name(step.state)
        + in_brackets(step.thinking_phase) + " _"@ + text::decimal(step.duration_ms as nat)
        + "ms · "@ + text::decimal(step.usage.total_tokens as nat) + " tokens_\n\n"@ + (
    match step.thought {
        Some(t) => "> "@ + t + "\n\n"@,
        None => Seq::empty(),
    }) + md_calls(step, step.calls.len()) + "\n"@
}

/// The first `n` steps.
pub open spec fn md_step_list(steps: Seq<StepSpec>, n: nat) -> Seq<char>
    decreases n,
{
    if n == 0 {
        Seq::empty()
    } else {
        md_step_list(steps, (n - 1) as nat) + md_step(steps[n - 1])
    }
}

/// The steps of a run.
pub open spec fn md_steps(steps: Seq<StepSpec>) -> Seq<char> {
    "## Execution Timeline\n\n"@ + md_step_list(steps, steps.len())
}

/// The first `n` notes.
pub open spec fn md_notes(notes: Seq<Seq<char>>, n: nat) -> Seq<char>
    decreases n,
{
    if n == 0 {
        Seq::empty()
    } else {
        md_notes(notes, (n - 1) as nat) + "- "@ + notes[n - 1] + "\n"@
    }
}

/// What the agent makes of its answer.
pub open spec fn md_evaluation(e: EvaluationSpec, n: NumberSpec) -> Seq<char> {
    "## Self-Evaluation\n\n**Confidence: "@ + n.confidence_percent
        + "%**\n\n| Criterion | Value |\n|-----------|-------|\n| Source citations | "@ + yes_no(
        e.has_source_citations,
    ) + " |\n| Answer length | "@ + text::decimal(e.answer_length as nat)
        + " chars |\n| Sufficient exploration | "@ + yes_no(e.sufficient_exploration)
        + " |\n| Tool success rate | "@ + n.evaluated_percent + "% |\n\n**Notes:**\n"@
        + md_notes(e.notes, e.notes.len())
}

/// A report in Markdown.
pub open spec fn md_report(r: ResponseSpec, n: NumberSpec) -> Seq<char> {
    "# ChatVCode Agent Execution Trace\n\n"@ + md_summary(r, n) + md_steps(r.steps) + (
    match r.evaluation {
        Some(e) => md_evaluation(e, n),
        None => Seq::empty(),
    })
}

proof fn lemma_html_calls(step: StepSpec, n: nat, j: int)
    requires
        0 <= j < n,
    ensures
        text::occurs_in(
            html_calls(step, n),
            html_call(step.calls[j], result_of(step.results, j)),
        ),
    decreases n,
{
    let none = Seq::<char>::empty();
    let front = html_calls(step, (n - 1) as nat);
    let last = html_call(step.calls[n - 1], result_of(step.results, n - 1));
    let all = html_calls(step, n);
    if j == n - 1 {
        text::lemma_part_occurs(front, last, none);
        assert(front + last + none =~= all);
    } else {
        lemma_html_calls(step, (n - 1) as nat, j);
        text::lemma_part_occurs(none, front, last);
        assert(none + front + last =~= all);
        text::lemma_occurs_through(
            all,
            front,
            html_call(step.calls[j], result_of(step.results, j)),
        );
    }
}

proof fn lemma_html_steps(steps: Seq<StepSpec>, n: nat, i: int)
    requires
        0 <= i < n,
    ensures
        text::occurs_in(html_step_list(steps, n), html_step(steps[i])),
    decreases n,
{
    let none = Seq::<char>::empty();
    let front = html_step_list(steps, (n - 1) as nat);
    let last = html_step(steps[n - 1]);
    let all = html_step_list(steps, n);
    if i == n - 1 {
        text::lemma_part_occurs(front, last, none);
        assert(front + last + none =~= all);
    } else {
        lemma_html_steps(steps, (n - 1) as nat, i);
        text::lemma_part_occurs(none, front, last);
        assert(none + front + last =~= all);
        text::lemma_occurs_through(all, front, html_step(steps[i]));
    }
}

proof fn lemma_md_calls(step: StepSpec, n: nat, j: int)
    requires
        0 <= j < n,
    ensures
        text::occurs_in(md_calls(step, n), md_call(step.calls[j], result_of(step.results, j))),
    decreases n,
{
    let none = Seq::<char>::empty();
    let front = md_calls(step, (n - 1) as nat);
    let last = md_call(step.calls[n - 1], result_of(step.results, n - 1));
    let all = md_calls(step, n);
    if j == n - 1 {
        text::lemma_part_occurs(front, last, none);
        assert(front + last + none =~= all);
    } else {
        lemma_md_calls(step, (n - 1) as nat, j);
        text::lemma_part_occurs(none, front, last);
        assert(none + front + last =~= all);
        text::lemma_occurs_through(all, front, md_call(step.calls[j], result_of(step.results, j)));
    }
}

proof fn lemma_md_steps(steps: Seq<StepSpec>, n: nat, i: int)
    requires
        0 <= i < n,
    ensures
        text::occurs_in(md_step_list(steps, n), md_step(steps[i])),
    decreases n,
{
    let none = Seq::<char>::empty();
    let front = md_step_list(steps, (n - 1) as nat);
    let last = md_step(steps[n - 1]);
    let all = md_step_list(steps, n);
    if i == n - 1 {
        text::lemma_part_occurs(front, last, none);
        assert(front + last + none =~= all);
    } else {
        lemma_md_steps(steps, (n - 1) as nat, i);
        text::lemma_part_occurs(none, front, last);
        assert(none + front + last =~= all);
        text::lemma_occurs_through(all, front, md_step(steps[i]));
    }
}

proof fn lemma_report_holds_step(r: ResponseSpec, n: NumberSpec, i: int)
    requires
        0 <= i < r.steps.len(),
    ensures
        text::occurs_in(html_report(r, n), html_step(r.steps[i])),
        text::occurs_in(md_report(r, n), md_step(r.steps[i])),
{
    let e = match r.evaluation {
        Some(e) => html_evaluation(e, n),
        None => Seq::empty(),
    };
    let list = html_step_list(r.steps, r.steps.len());
    let start = "<div class=\"timeline\">\n<h2>Execution Timeline</h2>\n"@;
    let before = html_head() + html_title(r.stop) + html_summary(r, n);
    let behind = e + "</body>\n</html>\n"@;
    text::lemma_part_occurs(before, html_steps(r.steps), behind);
    assert(before + html_steps(r.steps) + behind =~= html_report(r, n));
    text::lemma_part_occurs(start, list, "</div>\n"@);
    text::lemma_occurs_through(html_report(r, n), html_steps(r.steps), list);
    lemma_html_steps(r.steps, r.steps.len(), i);
    text::lemma_occurs_through(html_report(r, n), list, html_step(r.steps[i]));
    let me = match r.evaluation {
        Some(e) => md_evaluation(e, n),
        None => Seq::empty(),
    };
    let md_list = md_step_list(r.steps, r.steps.len());
    let md_before = "# ChatVCode Agent Execution Trace\n\n"@ + md_summary(r, n);
    text::lemma_part_occurs(md_before, md_steps(r.steps), me);
    assert(md_before + md_steps(r.steps) + me =~= md_report(r, n));
    let none = Seq::<char>::empty();
    text::lemma_part_occurs("## Execution Timeline\n\n"@, md_list, none);
    assert("## Execution Timeline\n\n"@ + md_list + none =~= md_steps(r.steps));
    text::lemma_occurs_through(md_report(r, n), md_steps(r.steps), md_list);
    lemma_md_steps(r.steps, r.steps.len(), i);
    text::lemma_occurs_through(md_report(r, n), md_list, md_step(r.steps[i]));
}

proof fn lemma_html_step_parts(step: StepSpec)
    ensures
        text::occurs_in(
            html_step(step),
            "<h3>Step "@ + text::decimal(step.step_number as nat) + ": "@ + state_name(step.state),
        ),
        step.thought matches Some(t) ==> text::occurs_in(
            html_step(step),
            "<div class=\"thought\">"@ + escaped(t) + "</div>\n"@,
        ),
        text::occurs_in(html_step(step), html_calls(step, step.calls.len())),
{
    let whole = html_step(step);
    let open = "<div class=\"step "@ + state_class(step.state);
    let mark = "\">\n<h3>Step "@;
    let title = "<h3>Step "@ + text::decimal(step.step_number as nat) + ": "@ + state_name(
        step.state,
    );
    let rest = in_brackets(step.thinking_phase) + " <small>"@ + text::decimal(
        step.duration_ms as nat,
    ) + "ms · "@ + text::decimal(step.usage.total_tokens as nat) + " tokens</small></h3>\n"@;
    let thought = match step.thought {
        Some(t) => "<div class=\"thought\">"@ + escaped(t) + "</div>\n"@,
        None => Seq::empty(),
    };
    let calls = html_calls(step, step.calls.len());
    reveal_strlit("\">\n<h3>Step ");
    reveal_strlit("<h3>Step ");
    reveal_strlit("\">\n");
    assert(mark =~= "\">\n"@ + "<h3>Step "@);
    text::lemma_part_occurs(open + "\">\n"@, title, rest + thought + calls + "</div>\n"@);
    assert(open + "\">\n"@ + title + (rest + thought + calls + "</div>\n"@) =~= whole);
    text::lemma_part_occurs(open + "\">\n"@ + title + rest, thought, calls + "</div>\n"@);
    assert(open + "\">\n"@ + title + rest + thought + (calls + "</div>\n"@) =~= whole);
    text::lemma_part_occurs(open + "\">\n"@ + title + rest + thought, calls, "</div>\n"@);
    assert(open + "\">\n"@ + title + rest + thought + calls + "</div>\n"@ =~= whole);
}

proof fn lemma_md_step_parts(step: StepSpec)
    ensures
        text::occurs_in(
            md_step(step),
            "### Step "@ + text::decimal(step.step_number as nat) + " — "@ + state_name(step.state),
        ),
        step.thought matches Some(t) ==> text::occurs_in(md_step(step), "> "@ + t + "\n\n"@),
        text::occurs_in(md_step(step), md_calls(step, step.calls.len())),
{
    let whole = md_step(step);
    let none = Seq::<char>::empty();
    let title = "### Step "@ + text::decimal(step.step_number as nat) + " — "@ + state_name(
        step.state,
    );
    let rest = in_brackets(step.thinking_phase) + " _"@ + text::decimal(step.duration_ms as nat)
        + "ms · "@ + text::decimal(step.usage.total_tokens as nat) + " tokens_\n\n"@;
    let thought = match step.thought {
        Some(t) => "> "@ + t + "\n\n"@,
        None => Seq::empty(),
    };
    let calls = md_calls(step, step.calls.len());
    text::lemma_part_occurs(none, title, rest + thought + calls + "\n"@);
    assert(none + title + (rest + thought + calls + "\n"@) =~= whole);
    text::lemma_part_occurs(title + rest, thought, calls + "\n"@);
    assert(title + rest + thought + (calls + "\n"@) =~= whole);
    text::lemma_part_occurs(title + rest + thought, calls, "\n"@);
    assert(title + rest + thought + calls + "\n"@ =~= whole);
}

/// Both reports show every step with its number and its state, and what was thought in it: in HTML
/// so that it cannot be taken for markup, in Markdown as it is.
pub proof fn law_reports_show_every_step(r: ResponseSpec, n: NumberSpec, i: int)
    requires
        0 <= i < r.steps.len(),
    ensures
        ({
            let step = r.steps[i];
            let number = text::decimal(step.step_number as nat);
            &&& text::occurs_in(
                html_report(r, n),
                "<h3>Step "@ + number + ": "@ + state_name(step.state),
            )
            &&& text::occurs_in(
                md_report(r, n),
                "### Step "@ + number + " — "@ + state_name(step.state),
            )
            &&& step.thought matches Some(t) ==> text::occurs_in(
                html_report(r, n),
                "<div class=\"thought\">"@ + escaped(t) + "</div>\n"@,
            ) && text::occurs_in(md_report(r, n), "> "@ + t + "\n\n"@)
        }),
{
    let step = r.steps[i];
    let number = text::decimal(step.step_number as nat);
    lemma_report_holds_step(r, n, i);
    lemma_html_step_parts(step);
    lemma_md_step_parts(step);
    text::lemma_occurs_through(
        html_report(r, n),
        html_step(step),
        "<h3>Step "@ + number + ": "@ + state_name(step.state),
    );
    text::lemma_occurs_through(
        md_report(r, n),
        md_step(step),
        "### Step "@ + number + " — "@ + state_name(step.state),
    );
    if let Some(t) = step.thought {
        text::lemma_occurs_through(
            html_report(r, n),
            html_step(step),
            "<div class=\"thought\">"@ + escaped(t) + "</div>\n"@,
        );
        text::lemma_occurs_through(md_report(r, n), md_step(step), "> "@ + t + "\n\n"@);
    }
}

proof fn lemma_html_call_parts(call: CallSpec, result: Option<ResultSpec>)
    ensures
        text::occurs_in(
            html_call(call, result),
            escaped(call.name) + "("@ + text::decimal(call.arguments.dom().len()) + ")"@,
        ),
        result matches Some(r) ==> text::occurs_in(
            html_call(call, result),
            "\">"@ + escaped(json::pretty_json_text(r.value)) + "</div>\n"@,
        ),
{
    let whole = html_call(call, result);
    let start = "<div class=\"tool-call\">→ "@;
    let shown = escaped(call.name) + "("@ + text::decimal(call.arguments.dom().len()) + ")"@;
    assert(")</div>\n"@ =~= ")"@ + "</div>\n"@) by {
        reveal_strlit(")</div>\n");
        reveal_strlit(")");
        reveal_strlit("</div>\n");
    }
    let at = start.len() as int;
    assert(whole.subrange(at, at + shown.len()) =~= shown);
    assert(text::occurs_at(whole, shown, at));
    if let Some(r) = result {
        let tail = "\">"@ + escaped(json::pretty_json_text(r.value)) + "</div>\n"@;
        let end = whole.len() - tail.len();
        assert(whole.subrange(end, end + tail.len()) =~= tail);
        assert(text::occurs_at(whole, tail, end));
    }
}

proof fn lemma_md_call_parts(call: CallSpec, result: Option<ResultSpec>)
    ensures
        text::occurs_in(
            md_call(call, result),
            "**"@ + call.name + "**("@ + text::decimal(call.arguments.dom().len()) + " args)"@,
        ),
        result matches Some(r) ==> text::occurs_in(
            md_call(call, result),
            "`"@ + text::shortened(json::json_text(r.value), 200) + "`\n"@,
        ),
{
    let whole = md_call(call, result);
    let shown = "**"@ + call.name + "**("@ + text::decimal(call.arguments.dom().len()) + " args)"@;
    assert("- **"@ =~= "- "@ + "**"@) by {
        reveal_strlit("- **");
        reveal_strlit("- ");
        reveal_strlit("**");
    }
    assert(" args)\n"@ =~= " args)"@ + "\n"@) by {
        reveal_strlit(" args)\n");
        reveal_strlit(" args)");
        reveal_strlit("\n");
    }
    let at = "- "@.len() as int;
    assert(whole.subrange(at, at + shown.len()) =~= shown);
    assert(text::occurs_at(whole, shown, at));
    if let Some(r) = result {
        assert(" Result: `"@ =~= " Result: "@ + "`"@) by {
            reveal_strlit(" Result: `");
            reveal_strlit(" Result: ");
            reveal_strlit("`");
        }
        let tail = "`"@ + text::shortened(json::json_text(r.value), 200) + "`\n"@;
        let end = whole.len() - tail.len();
        assert(whole.subrange(end, end + tail.len()) =~= tail);
        assert(text::occurs_at(whole, tail, end));
    }
}

/// Both reports show every call with its name and the number of its arguments, and with the result
/// that stands at its place: whole in HTML, cut to 200 characters in Markdown.
pub proof fn law_reports_show_every_call(r: ResponseSpec, n: NumberSpec, i: int, j: int)
    requires
        0 <= i < r.steps.len(),
        0 <= j < r.steps[i].calls.len(),
    ensures
        ({
            let call = r.steps[i].calls[j];
            let results = r.steps[i].results;
            let count = text::decimal(call.arguments.dom().len());
            &&& text::occurs_in(html_report(r, n), escaped(call.name) + "("@ + count + ")"@)
            &&& text::occurs_in(md_report(r, n), "**"@ + call.name + "**("@ + count + " args)"@)
            &&& j < results.len() ==> text::occurs_in(
                html_report(r, n),
                "\">"@ + escaped(json::pretty_json_text(results[j].value)) + "</div>\n"@,
            ) && text::occurs_in(
                md_report(r, n),
                "`"@ + text::shortened(json::json_text(results[j].value), 200) + "`\n"@,
            )
        }),
{
    let step = r.steps[i];
    let call = step.calls[j];
    let result = result_of(step.results, j);
    let count = text::decimal(call.arguments.dom().len());
    lemma_report_holds_step(r, n, i);
    lemma_html_step_parts(step);
    lemma_md_step_parts(step);
    lemma_html_calls(step, step.calls.len(), j);
    lemma_md_calls(step, step.calls.len(), j);
    lemma_html_call_parts(call, result);
    lemma_md_call_parts(call, result);
    let html = html_report(r, n);
    let md = md_report(r, n);
    text::lemma_occurs_through(html, html_step(step), html_calls(step, step.calls.len()));
    text::lemma_occurs_through(html, html_calls(step, step.calls.len()), html_call(call, result));
    text::lemma_occurs_through(md, md_step(step), md_calls(step, step.calls.len()));
    text::lemma_occurs_through(md, md_calls(step, step.calls.len()), md_call(call, result));
    text::lemma_occurs_through(
        html,
        html_call(call, result),
        escaped(call.name) + "("@ + count + ")"@,
    );
    text::lemma_occurs_through(
        md,
        md_call(call, result),
        "**"@ + call.name + "**("@ + count + " args)"@,
    );
    if j < step.results.len() {
        text::lemma_occurs_through(
            html,
            html_call(call, result),
            "\">"@ + escaped(json::pretty_json_text(step.results[j].value)) + "</div>\n"@,
        );
        text::lemma_occurs_through(
            md,
            md_call(call, result),
            "`"@ + text::shortened(json::json_text(step.results[j].value), 200) + "`\n"@,
        );
    }
}

/// Both reports show the answer, if there is one.
pub proof fn law_reports_show_the_answer(r: ResponseSpec, n: NumberSpec)
    requires
        r.answer.len() > 0,
    ensures
        text::occurs_in(html_report(r, n), "<p>"@ + escaped(r.answer) + "</p>"@),
        text::occurs_in(md_report(r, n), "### Final Answer\n\n"@ + r.answer + "\n\n"@),
{
    let none = Seq::<char>::empty();
    let part = "<p>"@ + escaped(r.answer) + "</p>"@;
    let start = "<div class=\"answer\"><h3>Final Answer</h3>"@;
    reveal_strlit("<div class=\"answer\"><h3>Final Answer</h3><p>");
    reveal_strlit("<div class=\"answer\"><h3>Final Answer</h3>");
    reveal_strlit("<p>");
    assert("<div class=\"answer\"><h3>Final Answer</h3><p>"@ =~= start + "<p>"@);
    reveal_strlit("</p></div>\n");
    reveal_strlit("</p>");
    reveal_strlit("</div>\n");
    assert("</p></div>\n"@ =~= "</p>"@ + "</div>\n"@);
    let answer = "<div class=\"answer\"><h3>Final Answer</h3><p>"@ + escaped(r.answer)
        + "</p></div>\n"@;
    text::lemma_part_occurs(start, part, "</div>\n"@);
    assert(start + part + "</div>\n"@ =~= answer);
    lemma_html_summary_ends(r, n, answer);
    lemma_html_report_holds_summary(r, n);
    text::lemma_occurs_through(html_summary(r, n), answer, part);
    text::lemma_occurs_through(html_report(r, n), html_summary(r, n), part);
    let md_part = "### Final Answer\n\n"@ + r.answer + "\n\n"@;
    lemma_md_summary_ends(r, n, md_part);
    let e = match r.evaluation {
        Some(e) => md_evaluation(e, n),
        None => Seq::empty(),
    };
    let title = "# ChatVCode Agent Execution Trace\n\n"@;
    text::lemma_part_occurs(title, md_summary(r, n), md_steps(r.steps) + e);
    assert(title + md_summary(r, n) + (md_steps(r.steps) + e) =~= md_report(r, n));
    text::lemma_occurs_through(md_report(r, n), md_summary(r, n), md_part);
}

proof fn lemma_html_summary_ends(r: ResponseSpec, n: NumberSpec, answer: Seq<char>)
    requires
        r.answer.len() > 0,
        answer == "<div class=\"answer\"><h3>Final Answer</h3><p>"@ + escaped(r.answer)
            + "</p></div>\n"@,
    ensures
        text::occurs_in(html_summary(r, n), answer),
{
    let whole = html_summary(r, n);
    let end = "</div>\n"@;
    let at = whole.len() - end.len() - answer.len();
    assert(whole.subrange(at, at + answer.len()) =~= answer);
    assert(text::occurs_at(whole, answer, at));
}

proof fn lemma_md_summary_ends(r: ResponseSpec, n: NumberSpec, answer: Seq<char>)
    requires
        r.answer.len() > 0,
        answer == "### Final Answer\n\n"@ + r.answer + "\n\n"@,
    ensures
        text::occurs_in(md_summary(r, n), answer),
{
    let whole = md_summary(r, n);
    let at = whole.len() - answer.len();
    assert(whole.subrange(at, at + answer.len()) =~= answer);
    assert(text::occurs_at(whole, answer, at));
}

proof fn lemma_html_report_holds_summary(r: ResponseSpec, n: NumberSpec)
    ensures
        text::occurs_in(html_report(r, n), html_summary(r, n)),
{
    let e = match r.evaluation {
        Some(e) => html_evaluation(e, n),
        None => Seq::empty(),
    };
    let before = html_head() + html_title(r.stop);
    let behind = html_steps(r.steps) + e + "</body>\n</html>\n"@;
    text::lemma_part_occurs(before, html_summary(r, n), behind);
    assert(before + html_summary(r, n) + behind =~= html_report(r, n));
}

/// A state goes by its own name, and so does a phase.
pub proof fn law_states_and_phases_go_by_their_names(s: AgentState, p: ThinkingPhase)
    ensures
        state_name(s) == "Thinking"@ <==> s == AgentState::Thinking,
        state_name(s) == "Acting"@ <==> s == AgentState::Acting,
        state_name(s) == "Done"@ <==> s == AgentState::Done,
        state_name(s) == "Failed"@ <==> s == AgentState::Failed,
        phase_name(p) == "Planning"@ <==> p == ThinkingPhase::Planning,
        phase_name(p) == "Observing"@ <==> p == ThinkingPhase::Observing,
        phase_name(p) == "Concluding"@ <==> p == ThinkingPhase::Concluding,
        in_brackets(Some(p)) == " ("@ + phase_name(p) + ")"@,
        in_brackets(None).len() == 0,
{
    reveal_strlit("Thinking");
    reveal_strlit("Acting");
    reveal_strlit("Done");
    reveal_strlit("Failed");
    reveal_strlit("Planning");
    reveal_strlit("Observing");
    reveal_strlit("Concluding");
    assert("Thinking"@[0] == 'T' && "Acting"@[0] == 'A' && "Done"@[0] == 'D' && "Failed"@[0]
        == 'F');
    assert("Planning"@[0] == 'P' && "Observing"@[0] == 'O' && "Concluding"@[0] == 'C');
}

/// A reason to stop goes by its own name, and an error also tells what went wrong.
pub proof fn law_reasons_go_by_their_names(s: StopSpec)
    ensures
        s != StopSpec::Completed ==> stop_name(s) != "Completed"@,
        s == StopSpec::Completed ==> stop_name(s) == "Completed"@,
        s == StopSpec::MaxSteps ==> stop_name(s) == "MaxSteps"@,
        s == StopSpec::Timeout ==> stop_name(s) == "Timeout"@,
        s == StopSpec::UserCancel ==> stop_name(s) == "UserCancel"@,
        s == StopSpec::LoopDetected ==> stop_name(s) == "LoopDetected"@,
        s matches StopSpec::Error(m) ==> text::occurs_in(stop_name(s), text::debug_text(m)),
{
    reveal_strlit("Completed");
    reveal_strlit("MaxSteps");
    reveal_strlit("Timeout");
    reveal_strlit("UserCancel");
    reveal_strlit("LoopDetected");
    reveal_strlit("Error(");
    assert("Completed"@[0] == 'C' && "MaxSteps"@[0] == 'M' && "Timeout"@[0] == 'T'
        && "UserCancel"@[0] == 'U' && "LoopDetected"@[0] == 'L' && "Error("@[0] == 'E');
    if let StopSpec::Error(m) = s {
        text::lemma_part_occurs("Error("@, text::debug_text(m), ")"@);
        assert(stop_name(s)[0] == 'E');
    }
}

/// A call that failed is marked as one, and one that did not is not.
pub proof fn law_failed_calls_are_marked(call: CallSpec, r: ResultSpec)
    ensures
        r.success ==> text::occurs_in(
            html_call(call, Some(r)),
            "<div class=\"tool-result\">"@ + escaped(json::pretty_json_text(r.value)),
        ),
        !r.success ==> text::occurs_in(
            html_call(call, Some(r)),
            "<div class=\"tool-result tool-error\">"@ + escaped(json::pretty_json_text(r.value)),
        ),
        r.success ==> text::occurs_in(md_call(call, Some(r)), "✓ Result: "@),
        !r.success ==> text::occurs_in(md_call(call, Some(r)), "✗ Result: "@),
{
    lemma_html_marks(call, r);
    lemma_md_marks(call, r);
}

proof fn lemma_html_marks(call: CallSpec, r: ResultSpec)
    ensures
        r.success ==> text::occurs_in(
            html_call(call, Some(r)),
            "<div class=\"tool-result\">"@ + escaped(json::pretty_json_text(r.value)),
        ),
        !r.success ==> text::occurs_in(
            html_call(call, Some(r)),
            "<div class=\"tool-result tool-error\">"@ + escaped(json::pretty_json_text(r.value)),
        ),
{
    let whole = html_call(call, Some(r));
    let shown = escaped(json::pretty_json_text(r.value));
    assert("<div class=\"tool-result\">"@ =~= "<div class=\""@ + "tool-result"@ + "\">"@) by {
        reveal_strlit("<div class=\"tool-result\">");
        reveal_strlit("<div class=\"");
        reveal_strlit("tool-result");
        reveal_strlit("\">");
    }
    assert("<div class=\"tool-result tool-error\">"@ =~= "<div class=\""@ + "tool-result tool-error"@
        + "\">"@) by {
        reveal_strlit("<div class=\"tool-result tool-error\">");
        reveal_strlit("<div class=\"");
        reveal_strlit("tool-result tool-error");
        reveal_strlit("\">");
    }
    let part = if r.success {
        "<div class=\"tool-result\">"@ + shown
    } else {
        "<div class=\"tool-result tool-error\">"@ + shown
    };
    let at = whole.len() - "</div>\n"@.len() - part.len();
    assert(whole.subrange(at, at + part.len()) =~= part);
    assert(text::occurs_at(whole, part, at));
}

proof fn lemma_md_marks(call: CallSpec, r: ResultSpec)
    ensures
        r.success ==> text::occurs_in(md_call(call, Some(r)), "✓ Result: "@),
        !r.success ==> text::occurs_in(md_call(call, Some(r)), "✗ Result: "@),
{
    let whole = md_call(call, Some(r));
    let tail = "`"@ + text::shortened(json::json_text(r.value), 200) + "`\n"@;
    assert(" Result: `"@ =~= " Result: "@ + "`"@) by {
        reveal_strlit(" Result: `");
        reveal_strlit(" Result: ");
        reveal_strlit("`");
    }
    assert("✓ Result: "@ =~= "✓"@ + " Result: "@) by {
        reveal_strlit("✓ Result: ");
        reveal_strlit(" Result: ");
        reveal_strlit("✓");
    }
    assert("✗ Result: "@ =~= "✗"@ + " Result: "@) by {
        reveal_strlit("✗ Result: ");
        reveal_strlit(" Result: ");
        reveal_strlit("✗");
    }
    let part = if r.success {
        "✓ Result: "@
    } else {
        "✗ Result: "@
    };
    let at = whole.len() - tail.len() - part.len();
    assert(whole.subrange(at, at + part.len()) =~= part);
    assert(text::occurs_at(whole, part, at));
}

/// Both reports tell the numbers of steps, calls and tokens, each under its label, and why the run
/// stopped.
pub proof fn law_reports_tell_the_numbers(r: ResponseSpec, n: NumberSpec)
    ensures
        text::occurs_in(
            html_report(r, n),
            "<div class=\"label\">"@ + "Steps"@ + "</div><div class=\"value\">"@ + text::decimal(
                r.metrics.total_steps,
            ) + "</div>"@,
        ),
        text::occurs_in(
            html_report(r, n),
            "<div class=\"label\">"@ + "Tool calls"@ + "</div><div class=\"value\">"@
                + text::decimal(r.tool_calls as nat) + "</div>"@,
        ),
        text::occurs_in(
            html_report(r, n),
            "<div class=\"label\">"@ + "Tokens"@ + "</div><div class=\"value\">"@ + text::decimal(
                r.usage.total_tokens as nat,
            ) + "</div>"@,
        ),
        text::occurs_in(html_report(r, n), "<code>"@ + stop_name(r.stop) + "</code>"@),
{
    let whole = html_summary(r, n);
    let report = html_report(r, n);
    lemma_html_report_holds_summary(r, n);
    let start = "<div class=\"summary\">\n<h2>Summary</h2>\n<div class=\"stats\">\n"@;
    let a = stat("Steps"@, text::decimal(r.metrics.total_steps));
    let b = stat("Tool calls"@, text::decimal(r.tool_calls as nat));
    let c = stat("Tokens"@, text::decimal(r.usage.total_tokens as nat));
    let rest = whole.skip((start + a + b + c).len() as int);
    assert(start + a + b + c + rest =~= whole);
    text::lemma_part_occurs(start, a, b + c + rest);
    assert(start + a + (b + c + rest) =~= whole);
    text::lemma_part_occurs(start + a, b, c + rest);
    assert(start + a + b + (c + rest) =~= whole);
    text::lemma_part_occurs(start + a + b, c, rest);
    lemma_stat_shows("Steps"@, text::decimal(r.metrics.total_steps));
    lemma_stat_shows("Tool calls"@, text::decimal(r.tool_calls as nat));
    lemma_stat_shows("Tokens"@, text::decimal(r.usage.total_tokens as nat));
    text::lemma_occurs_through(report, whole, a);
    text::lemma_occurs_through(report, whole, b);
    text::lemma_occurs_through(report, whole, c);
    text::lemma_occurs_through(report, a, shown_stat("Steps"@, text::decimal(r.metrics.total_steps)));
    text::lemma_occurs_through(
        report,
        b,
        shown_stat("Tool calls"@, text::decimal(r.tool_calls as nat)),
    );
    text::lemma_occurs_through(
        report,
        c,
        shown_stat("Tokens"@, text::decimal(r.usage.total_tokens as nat)),
    );
    lemma_title_shows_the_reason(r, n);
}

/// A label and the number under it, as a report shows them.
pub open spec fn shown_stat(label: Seq<char>, value: Seq<char>) -> Seq<char> {
    "<div class=\"label\">"@ + label + "</div><div class=\"value\">"@ + value + "</div>"@
}

proof fn lemma_stat_shows(label: Seq<char>, value: Seq<char>)
    ensures
        text::occurs_in(stat(label, value), shown_stat(label, value)),
{
    assert("<div class=\"stat\"><div class=\"label\">"@ =~= "<div class=\"stat\">"@
        + "<div class=\"label\">"@) by {
        reveal_strlit("<div class=\"stat\"><div class=\"label\">");
        reveal_strlit("<div class=\"stat\">");
        reveal_strlit("<div class=\"label\">");
    }
    assert("</div></div>\n"@ =~= "</div>"@ + "</div>\n"@) by {
        reveal_strlit("</div></div>\n");
        reveal_strlit("</div>");
        reveal_strlit("</div>\n");
    }
    text::lemma_part_occurs("<div class=\"stat\">"@, shown_stat(label, value), "</div>\n"@);
    assert("<div class=\"stat\">"@ + shown_stat(label, value) + "</div>\n"@ =~= stat(label, value));
}

proof fn lemma_title_shows_the_reason(r: ResponseSpec, n: NumberSpec)
    ensures
        text::occurs_in(html_report(r, n), "<code>"@ + stop_name(r.stop) + "</code>"@),
{
    let part = "<code>"@ + stop_name(r.stop) + "</code>"@;
    let head = "<h1>ChatVCode Agent Execution Trace</h1>\n<p>Stop reason: "@;
    assert("<h1>ChatVCode Agent Execution Trace</h1>\n<p>Stop reason: <code>"@ =~= head + "<code>"@) by {
        reveal_strlit("<h1>ChatVCode Agent Execution Trace</h1>\n<p>Stop reason: <code>");
        reveal_strlit("<h1>ChatVCode Agent Execution Trace</h1>\n<p>Stop reason: ");
        reveal_strlit("<code>");
    }
    assert("</code></p>\n"@ =~= "</code>"@ + "</p>\n"@) by {
        reveal_strlit("</code></p>\n");
        reveal_strlit("</code>");
        reveal_strlit("</p>\n");
    }
    text::lemma_part_occurs(head, part, "</p>\n"@);
    assert(head + part + "</p>\n"@ =~= html_title(r.stop));
    let e = match r.evaluation {
        Some(e) => html_evaluation(e, n),
        None => Seq::empty(),
    };
    let behind = html_summary(r, n) + html_steps(r.steps) + e + "</body>\n</html>\n"@;
    text::lemma_part_occurs(html_head(), html_title(r.stop), behind);
    assert(html_head() + html_title(r.stop) + behind =~= html_report(r, n));
    text::lemma_occurs_through(html_report(r, n), html_title(r.stop), part);
}

proof fn lemma_notes(notes: Seq<Seq<char>>, n: nat, i: int)
    requires
        0 <= i < n,
    ensures
        text::occurs_in(
            html_notes(notes, n),
            "<li class=\"note\">"@ + escaped(notes[i]) + "</li>\n"@,
        ),
        text::occurs_in(md_notes(notes, n), "- "@ + notes[i] + "\n"@),
    decreases n,
{
    let none = Seq::<char>::empty();
    let front = html_notes(notes, (n - 1) as nat);
    let last = "<li class=\"note\">"@ + escaped(notes[n - 1]) + "</li>\n"@;
    let md_front = md_notes(notes, (n - 1) as nat);
    let md_last = "- "@ + notes[n - 1] + "\n"@;
    assert(front + last + none =~= html_notes(notes, n));
    assert(md_front + md_last + none =~= md_notes(notes, n));
    if i == n - 1 {
        text::lemma_part_occurs(front, last, none);
        text::lemma_part_occurs(md_front, md_last, none);
    } else {
        lemma_notes(notes, (n - 1) as nat, i);
        text::lemma_part_occurs(none, front, last);
        assert(none + front + last =~= html_notes(notes, n));
        text::lemma_part_occurs(none, md_front, md_last);
        assert(none + md_front + md_last =~= md_notes(notes, n));
        text::lemma_occurs_through(
            html_notes(notes, n),
            front,
            "<li class=\"note\">"@ + escaped(notes[i]) + "</li>\n"@,
        );
        text::lemma_occurs_through(md_notes(notes, n), md_front, "- "@ + notes[i] + "\n"@);
    }
}

/// Both reports show every note of the evaluation, if there is one.
pub proof fn law_reports_show_every_note(r: ResponseSpec, n: NumberSpec, i: int)
    requires
        r.evaluation is Some,
        0 <= i < r.evaluation->0.notes.len(),
    ensures
        text::occurs_in(
            html_report(r, n),
            "<li class=\"note\">"@ + escaped(r.evaluation->0.notes[i]) + "</li>\n"@,
        ),
        text::occurs_in(md_report(r, n), "- "@ + r.evaluation->0.notes[i] + "\n"@),
{
    let e = r.evaluation->0;
    let none = Seq::<char>::empty();
    lemma_notes(e.notes, e.notes.len(), i);
    let list = html_notes(e.notes, e.notes.len());
    let whole = html_evaluation(e, n);
    let at = whole.len() - "</ul>\n</div>\n"@.len() - list.len();
    assert(whole.subrange(at, at + list.len()) =~= list);
    assert(text::occurs_at(whole, list, at));
    let front = html_head() + html_title(r.stop) + html_summary(r, n) + html_steps(r.steps);
    text::lemma_part_occurs(front, whole, "</body>\n</html>\n"@);
    assert(front + whole + "</body>\n</html>\n"@ =~= html_report(r, n));
    text::lemma_occurs_through(html_report(r, n), whole, list);
    text::lemma_occurs_through(
        html_report(r, n),
        list,
        "<li class=\"note\">"@ + escaped(e.notes[i]) + "</li>\n"@,
    );
    let md_list = md_notes(e.notes, e.notes.len());
    let md_whole = md_evaluation(e, n);
    let md_at = md_whole.len() - md_list.len();
    assert(md_whole.subrange(md_at, md_at + md_list.len()) =~= md_list);
    assert(text::occurs_at(md_whole, md_list, md_at));
    let md_front = "# ChatVCode Agent Execution Trace\n\n"@ + md_summary(r, n) + md_steps(r.steps);
    text::lemma_part_occurs(md_front, md_whole, none);
    assert(md_front + md_whole + none =~= md_report(r, n));
    text::lemma_occurs_through(md_report(r, n), md_whole, md_list);
    text::lemma_occurs_through(md_report(r, n), md_list, "- "@ + e.notes[i] + "\n"@);
}

/// Appends a number.
fn append_number(out: &mut String, n: u64)
    ensures
        final(out)@ == old(out)@ + text::decimal(n as nat),
{
    let t = text::decimal_text(n);
    out.append(t.as_str());
}

/// The number of arguments of a call.
fn argument_count(call: &ToolCall) -> (n: usize)
    ensures
        n == call.spec().arguments.dom().len(),
{
    assert(call.spec().arguments.dom() =~= call.arguments@.dom());
    call.arguments.len()
}

/// Writes reports.
pub struct TraceRenderer;

impl TraceRenderer {
    /// Writes a report in HTML.
    #[must_use]
    pub fn render_html(response: &AgentResponse, numbers: &TraceNumbers) -> (r: String)
        ensures
            r@ == html_report(response.spec(), numbers.spec()),
    {
        let mut html = "<!DOCTYPE html>\n<html lang=\"en\">\n<head>\n<meta charset=\"UTF-8\">\n<meta name=\"viewport\" content=\"width=device-width, initial-scale=1.0\">\n<title>ChatVCode Agent Trace</title>\n<style>\n".to_owned();
        html.append(Self::html_css());
        html.append("</style>\n</head>\n<body>\n");
        assert(html@ =~= html_head());
        let part = Self::render_html_header(response);
        html.append(part.as_str());
        let part = Self::render_html_summary(response, numbers);
        html.append(part.as_str());
        let part = Self::render_html_steps(response);
        html.append(part.as_str());
        let ghost before = html@;
        match &response.self_evaluation {
            Some(e) => {
                let part = Self::render_html_evaluation(e, numbers);
                html.append(part.as_str());
            },
            None => {
                assert(before + Seq::<char>::empty() =~= before);
            },
        }
        html.append("</body>\n</html>\n");
        html
    }

    /// Writes a report in Markdown.
    #[must_use]
    pub fn render_markdown(response: &AgentResponse, numbers: &TraceNumbers) -> (r: String)
        ensures
            r@ == md_report(response.spec(), numbers.spec()),
    {
        let mut md = "# ChatVCode Agent Execution Trace\n\n".to_owned();
        let part = Self::render_md_summary(response, numbers);
        md.append(part.as_str());
        let part = Self::render_md_steps(response);
        md.append(part.as_str());
        let ghost before = md@;
        match &response.self_evaluation {
            Some(e) => {
                let part = Self::render_md_evaluation(e, numbers);
                md.append(part.as_str());
            },
            None => {
                assert(before + Seq::<char>::empty() =~= before);
            },
        }
        md
    }

    /// The style of a report.
    fn html_css() -> (r: &'static str)
        ensures
            r@ == style(),
    {
        CSS
    }

    /// The head line of a report.
    fn render_html_header(response: &AgentResponse) -> (r: String)
        ensures
            r@ == html_title(response.spec().stop),
    {
        let mut r =
            "<h1>ChatVCode Agent Execution Trace</h1>\n<p>Stop reason: <code>".to_owned();
        let stop = stop_text(&response.stop_reason);
        r.append(stop.as_str());
        r.append("</code></p>\n");
        r
    }

    /// A number with its label.
    fn html_stat(label: &str, value: &str) -> (r: String)
        ensures
            r@ == stat(label@, value@),
    {
        let mut r = "<div class=\"stat\"><div class=\"label\">".to_owned();
        r.append(label);
        r.append("</div><div class=\"value\">");
        r.append(value);
        r.append("</div></div>\n");
        r
    }

    /// The summary of a run.
    fn render_html_summary(response: &AgentResponse, numbers: &TraceNumbers) -> (r: String)
        ensures
            r@ == html_summary(response.spec(), numbers.spec()),
    {
        let mut html =
            "<div class=\"summary\">\n<h2>Summary</h2>\n<div class=\"stats\">\n".to_owned();
        let value = text::decimal_text(response.metrics.total_steps as u64);
        let part = Self::html_stat("Steps", value.as_str());
        html.append(part.as_str());
        let value = text::decimal_text(response.total_tool_calls as u64);
        let part = Self::html_stat("Tool calls", value.as_str());
        html.append(part.as_str());
        let value = text::decimal_text(response.total_token_usage.total_tokens as u64);
        let part = Self::html_stat("Tokens", value.as_str());
        html.append(part.as_str());
        let mut value = numbers.seconds.clone();
        value.append("s");
        let part = Self::html_stat("Duration", value.as_str());
        html.append(part.as_str());
        let mut value = numbers.success_percent.clone();
        value.append("%");
        let part = Self::html_stat("Success rate", value.as_str());
        html.append(part.as_str());
        html.append("</div>\n");
        let ghost before = html@;
        if text::byte_len(response.answer.as_str()) > 0 {
            proof {
                text::lemma_utf8_len_bound(response.answer@);
            }
            html.append("<div class=\"answer\"><h3>Final Answer</h3><p>");
            let answer = html_escape(response.answer.as_str());
            html.append(answer.as_str());
            html.append("</p></div>\n");
            assert(html@ =~= before + ("<div class=\"answer\"><h3>Final Answer</h3><p>"@ + escaped(
                response.answer@,
            ) + "</p></div>\n"@));
        } else {
            proof {
                text::lemma_utf8_len_bound(response.answer@);
            }
            assert(html@ =~= before + Seq::<char>::empty());
        }
        html.append("</div>\n");
        html
    }

    /// A call with its result.
    fn html_call_text(call: &ToolCall, result: Option<&ToolResult>) -> (r: String)
        ensures
            r@ == html_call(
                call.spec(),
                match result {
                    Some(t) => Some(t.spec()),
                    None => None,
                },
            ),
    {
        let mut html = "<div class=\"tool-call\">→ ".to_owned();
        let name = html_escape(call.name.as_str());
        html.append(name.as_str());
        html.append("(");
        let n: usize = argument_count(call);
        append_number(&mut html, n as u64);
        html.append(")</div>\n");
        let ghost before = html@;
        match result {
            Some(t) => {
                let mut part = "<div class=\"".to_owned();
                if t.success {
                    part.append("tool-result");
                } else {
                    part.append("tool-result tool-error");
                }
                part.append("\">");
                let whole = json::pretty(&t.value);
                let body = html_escape(whole.as_str());
                part.append(body.as_str());
                part.append("</div>\n");
                html.append(part.as_str());
            },
            None => {
                assert(before + Seq::<char>::empty() =~= before);
            },
        }
        html
    }

    /// A step.
    fn html_step_text(step: &AgentStep) -> (r: String)
        ensures
            r@ == html_step(step.spec()),
    {
        let ghost s = step.spec();
        let mut html = "<div class=\"step ".to_owned();
        html.append(state_class_text(step.state));
        html.append("\">\n<h3>Step ");
        append_number(&mut html, step.step_number as u64);
        html.append(": ");
        html.append(state_text(step.state));
        let phase = bracketed(step.thinking_phase);
        html.append(phase.as_str());
        html.append(" <small>");
        append_number(&mut html, step.duration_ms);
        html.append("ms · ");
        append_number(&mut html, step.token_usage.total_tokens as u64);
        html.append(" tokens</small></h3>\n");
        let ghost before = html@;
        match &step.thought {
            Some(thought) => {
                let mut part = "<div class=\"thought\">".to_owned();
                let body = html_escape(thought.as_str());
                part.append(body.as_str());
                part.append("</div>\n");
                html.append(part.as_str());
            },
            None => {
                assert(before + Seq::<char>::empty() =~= before);
            },
        }
        let mut calls = String::new();
        let mut i: usize = 0;
        assert(calls@ =~= Seq::empty());
        while i < step.tool_calls.len()
            invariant
                i <= step.tool_calls@.len(),
                s == step.spec(),
                calls@ == html_calls(s, i as nat),
            decreases step.tool_calls@.len() - i,
        {
            let result = if i < step.tool_results.len() {
                Some(&step.tool_results[i])
            } else {
                None
            };
            assert(s.calls[i as int] == step.tool_calls@[i as int].spec());
            let part = Self::html_call_text(&step.tool_calls[i], result);
            calls.append(part.as_str());
            i += 1;
        }
        html.append(calls.as_str());
        html.append("</div>\n");
        html
    }

    /// The steps of a run.
    fn render_html_steps(response: &AgentResponse) -> (r: String)
        ensures
            r@ == html_steps(response.spec().steps),
    {
        let ghost steps = response.spec().steps;
        let mut list = String::new();
        let mut i: usize = 0;
        assert(list@ =~= Seq::empty());
        while i < response.steps.len()
            invariant
                i <= response.steps@.len(),
                steps == response.spec().steps,
                list@ == html_step_list(steps, i as nat),
            decreases response.steps@.len() - i,
        {
            let part = Self::html_step_text(&response.steps[i]);
            assert(steps[i as int] == response.steps@[i as int].spec());
            list.append(part.as_str());
            i += 1;
        }
        let mut html = "<div class=\"timeline\">\n<h2>Execution Timeline</h2>\n".to_owned();
        html.append(list.as_str());
        html.append("</div>\n");
        html
    }

    /// What the agent makes of its answer.
    fn render_html_evaluation(eval: &SelfEvaluation, numbers: &TraceNumbers) -> (r: String)
        ensures
            r@ == html_evaluation(eval.spec(), numbers.spec()),
    {
        let mut html =
            "<div class=\"evaluation\">\n<h2>Self-Evaluation</h2>\n<p class=\"confidence\">Confidence: ".to_owned();
        html.append(numbers.confidence_percent.as_str());
        html.append("%</p>\n<ul>\n<li>Source citations: ");
        html.append(yes_no_text(eval.has_source_citations));
        html.append("</li>\n<li>Answer length: ");
        append_number(&mut html, eval.answer_length as u64);
        html.append(" chars</li>\n<li>Sufficient exploration: ");
        html.append(yes_no_text(eval.sufficient_exploration));
        html.append("</li>\n<li>Tool success rate: ");
        html.append(numbers.evaluated_percent.as_str());
        html.append("%</li>\n</ul>\n<h4>Notes:</h4>\n<ul>\n");
        let ghost notes = text::views(eval.notes@);
        let mut list = String::new();
        let mut i: usize = 0;
        assert(list@ =~= Seq::empty());
        while i < eval.notes.len()
            invariant
                i <= eval.notes@.len(),
                notes == text::views(eval.notes@),
                list@ == html_notes(notes, i as nat),
            decreases eval.notes@.len() - i,
        {
            list.append("<li class=\"note\">");
            let body = html_escape(eval.notes[i].as_str());
            list.append(body.as_str());
            list.append("</li>\n");
            i += 1;
        }
        html.append(list.as_str());
        html.append("</ul>\n</div>\n");
        html
    }

    /// The summary of a run in Markdown.
    fn render_md_summary(response: &AgentResponse, numbers: &TraceNumbers) -> (r: String)
        ensures
            r@ == md_summary(response.spec(), numbers.spec()),
    {
        let mut md =
            "## Summary\n\n| Metric | Value |\n|--------|-------|\n| Steps | ".to_owned();
        append_number(&mut md, response.metrics.total_steps as u64);
        md.append(" |\n| Tool calls | ");
        append_number(&mut md, response.total_tool_calls as u64);
        md.append(" |\n| Tokens | ");
        append_number(&mut md, response.total_token_usage.prompt_tokens as u64);
        md.append(" prompt + ");
        append_number(&mut md, response.total_token_usage.completion_tokens as u64);
        md.append(" completion = ");
        append_number(&mut md, response.total_token_usage.total_tokens as u64);
        md.append(" total |\n| Duration | ");
        md.append(numbers.seconds.as_str());
        md.append("s |\n| Tool success rate | ");
        md.append(numbers.success_percent.as_str());
        md.append("% |\n| Stop reason | ");
        let stop = stop_text(&response.stop_reason);
        md.append(stop.as_str());
        md.append(" |\n\n");
        let ghost before = md@;
        if text::byte_len(response.answer.as_str()) > 0 {
            let mut part = "### Final Answer\n\n".to_owned();
            part.append(response.answer.as_str());
            part.append("\n\n");
            md.append(part.as_str());
        } else {
            assert(before + Seq::<char>::empty() =~= before);
        }
        proof {
            text::lemma_utf8_len_bound(response.answer@);
        }
        md
    }

    /// A call with its result.
    fn md_call_text(call: &ToolCall, result: Option<&ToolResult>) -> (r: String)
        ensures
            r@ == md_call(
                call.spec(),
                match result {
                    Some(t) => Some(t.spec()),
                    None => None,
                },
            ),
    {
        let mut md = "- **".to_owned();
        md.append(call.name.as_str());
        md.append("**(");
        let n: usize = argument_count(call);
        append_number(&mut md, n as u64);
        md.append(" args)\n");
        let ghost before = md@;
        match result {
            Some(t) => {
                let mut part = "  - ".to_owned();
                if t.success {
                    part.append("✓");
                } else {
                    part.append("✗");
                }
                part.append(" Result: `");
                let whole = json::compact(&t.value);
                let body = truncate_str_md(whole.as_str(), 200);
                part.append(body.as_str());
                part.append("`\n");
                md.append(part.as_str());
            },
            None => {
                assert(before + Seq::<char>::empty() =~= before);
            },
        }
        md
    }

    /// A step.
    fn md_step_text(step: &AgentStep) -> (r: String)
        ensures
            r@ == md_step(step.spec()),
    {
        let ghost s = step.spec();
        let mut md = "### Step ".to_owned();
        append_number(&mut md, step.step_number as u64);
        md.append(" — ");
        md.append(state_text(step.state));
        let phase = bracketed(step.thinking_phase);
        md.append(phase.as_str());
        md.append(" _");
        append_number(&mut md, step.duration_ms);
        md.append("ms · ");
        append_number(&mut md, step.token_usage.total_tokens as u64);
        md.append(" tokens_\n\n");
        let ghost before = md@;
        match &step.thought {
            Some(thought) => {
                let mut part = "> ".to_owned();
                part.append(thought.as_str());
                part.append("\n\n");
                md.append(part.as_str());
            },
            None => {
                assert(before + Seq::<char>::empty() =~= before);
            },
        }
        let mut calls = String::new();
        let mut i: usize = 0;
        assert(calls@ =~= Seq::empty());
        while i < step.tool_calls.len()
            invariant
                i <= step.tool_calls@.len(),
                s == step.spec(),
                calls@ == md_calls(s, i as nat),
            decreases step.tool_calls@.len() - i,
        {
            let result = if i < step.tool_results.len() {
                Some(&step.tool_results[i])
            } else {
                None
            };
            assert(s.calls[i as int] == step.tool_calls@[i as int].spec());
            let part = Self::md_call_text(&step.tool_calls[i], result);
            calls.append(part.as_str());
            i += 1;
        }
        md.append(calls.as_str());
        md.append("\n");
        md
    }

    /// The steps of a run.
    fn render_md_steps(response: &AgentResponse) -> (r: String)
        ensures
            r@ == md_steps(response.spec().steps),
    {
        let ghost steps = response.spec().steps;
        let mut list = String::new();
        let mut i: usize = 0;
        assert(list@ =~= Seq::empty());
        while i < response.steps.len()
            invariant
                i <= response.steps@.len(),
                steps == response.spec().steps,
                list@ == md_step_list(steps, i as nat),
            decreases response.steps@.len() - i,
        {
            let part = Self::md_step_text(&response.steps[i]);
            assert(steps[i as int] == response.steps@[i as int].spec());
            list.append(part.as_str());
            i += 1;
        }
        let mut md = "## Execution Timeline\n\n".to_owned();
        md.append(list.as_str());
        md
    }

    /// What the agent makes of its answer.
    fn render_md_evaluation(eval: &SelfEvaluation, numbers: &TraceNumbers) -> (r: String)
        ensures
            r@ == md_evaluation(eval.spec(), numbers.spec()),
    {
        let mut md = "## Self-Evaluation\n\n**Confidence: ".to_owned();
        md.append(numbers.confidence_percent.as_str());
        md.append(
            "%**\n\n| Criterion | Value |\n|-----------|-------|\n| Source citations | ",
        );
        md.append(yes_no_text(eval.has_source_citations));
        md.append(" |\n| Answer length | ");
        append_number(&mut md, eval.answer_length as u64);
        md.append(" chars |\n| Sufficient exploration | ");
        md.append(yes_no_text(eval.sufficient_exploration));
        md.append(" |\n| Tool success rate | ");
        md.append(numbers.evaluated_percent.as_str());
        md.append("% |\n\n**Notes:**\n");
        let ghost notes = text::views(eval.notes@);
        let mut list = String::new();
        let mut i: usize = 0;
        assert(list@ =~= Seq::empty());
        while i < eval.notes.len()
            invariant
                i <= eval.notes@.len(),
                notes == text::views(eval.notes@),
                list@ == md_notes(notes, i as nat),
            decreases eval.notes@.len() - i,
        {
            list.append("- ");
            list.append(eval.notes[i].as_str());
            list.append("\n");
            i += 1;
        }
        md.append(list.as_str());
        md
    }
}

fn bracketed(phase: Option<ThinkingPhase>) -> (r: String)
    ensures
        r@ == in_brackets(phase),
{
    match phase {
        Some(p) => {
            let mut r = " (".to_owned();
            r.append(phase_text(p));
            r.append(")");
            r
        },
        None => {
            let r = String::new();
            assert(r@ =~= Seq::empty());
            r
        },
    }
}

/// What several runs have in common. The averages over the runs are kept elsewhere.
pub struct PerformanceBenchmark {
    /// How many runs there were.
    pub run_count: usize,
    /// How often each tool was called.
    pub tool_usage: Tally<String>,
    /// How often each reason to stop occurred.
    pub stop_reasons: Tally<String>,
}

/// The averages of a benchmark as they are written.
pub struct BenchmarkNumbers {
    pub steps: String,
    pub duration_ms: String,
    pub duration_secs: String,
    pub tokens: String,
    pub tool_calls: String,
    pub success_percent: String,
    pub token_efficiency: String,
}

/// A table of counts.
pub open spec fn count_rows(list: Seq<(Seq<char>, nat)>, n: nat) -> Seq<char>
    decreases n,
{
    if n == 0 {
        Seq::empty()
    } else {
        count_rows(list, (n - 1) as nat) + "| "@ + list[n - 1].0 + " | "@ + text::decimal(
            list[n - 1].1,
        ) + " |\n"@
    }
}

/// The averages as lines of a table.
pub open spec fn benchmark_head(runs: nat, n: BenchmarkNumbers) -> Seq<char> {
    "# ChatVCode Agent Performance Benchmark\n\n**Runs analyzed:** "@ + text::decimal(runs)
        + "\n\n| Metric | Average |\n|--------|---------|\n| Steps | "@ + n.steps@
        + " |\n| Duration | "@ + n.duration_ms@ + "ms ("@ + n.duration_secs@
        + "s) |\n| Tokens | "@ + n.tokens@ + " |\n| Tool calls | "@ + n.tool_calls@
        + " |\n| Tool success rate | "@ + n.success_percent@ + "% |\n| Token efficiency | "@
        + n.token_efficiency@ + " tokens/step |\n\n"@
}

/// A benchmark in Markdown, with the tools and the reasons in the given orders.
pub open spec fn benchmark_report(
    runs: nat,
    n: BenchmarkNumbers,
    tools: Seq<(Seq<char>, nat)>,
    reasons: Seq<(Seq<char>, nat)>,
) -> Seq<char> {
    benchmark_head(runs, n) + (if tools.len() > 0 {
        "## Tool Usage\n\n| Tool | Calls |\n|------|-------|\n"@ + count_rows(tools, tools.len())
            + "\n"@
    } else {
        Seq::empty()
    }) + (if reasons.len() > 0 {
        "## Stop Reasons\n\n| Reason | Count |\n|--------|-------|\n"@ + count_rows(
            reasons,
            reasons.len(),
        )
    } else {
        Seq::empty()
    })
}

proof fn lemma_last_row(list: Seq<(Seq<char>, nat)>, n: nat)
    requires
        0 < n,
    ensures
        count_rows(list, n) == count_rows(list, (n - 1) as nat) + ("| "@ + list[n - 1].0 + " | "@
            + text::decimal(list[n - 1].1) + " |\n"@),
{
    let front = count_rows(list, (n - 1) as nat);
    let name = list[n - 1].0;
    let count = text::decimal(list[n - 1].1);
    assert(front + "| "@ + name + " | "@ + count + " |\n"@ =~= front + ("| "@ + name + " | "@ + count
        + " |\n"@));
}

proof fn lemma_count_row(list: Seq<(Seq<char>, nat)>, n: nat, i: int, row: Seq<char>)
    requires
        0 <= i < n,
        row == "| "@ + list[i].0 + " | "@ + text::decimal(list[i].1) + " |\n"@,
    ensures
        text::occurs_in(count_rows(list, n), row),
    decreases n,
{
    let none = Seq::<char>::empty();
    let front = count_rows(list, (n - 1) as nat);
    let all = count_rows(list, n);
    lemma_last_row(list, n);
    let last = all.skip(front.len() as int);
    assert(front + last =~= all);
    if i == n - 1 {
        assert(last =~= row);
        text::lemma_part_occurs(front, row, none);
        assert(front + row + none =~= all);
    } else {
        lemma_count_row(list, (n - 1) as nat, i, row);
        text::lemma_part_occurs(none, front, last);
        assert(none + front + last =~= all);
        text::lemma_occurs_through(all, front, row);
    }
}

/// A benchmark tells of how many runs it is, and has a row with the count of every tool and of every
/// reason to stop.
pub proof fn law_benchmark_counts_tools_and_reasons(
    runs: nat,
    n: BenchmarkNumbers,
    tools: Seq<(Seq<char>, nat)>,
    reasons: Seq<(Seq<char>, nat)>,
    i: int,
)
    ensures
        ({
            let report = benchmark_report(runs, n, tools, reasons);
            &&& 0 <= i < tools.len() ==> text::occurs_in(
                report,
                "| "@ + tools[i].0 + " | "@ + text::decimal(tools[i].1) + " |\n"@,
            )
            &&& 0 <= i < reasons.len() ==> text::occurs_in(
                report,
                "| "@ + reasons[i].0 + " | "@ + text::decimal(reasons[i].1) + " |\n"@,
            )
            &&& text::occurs_in(report, "**Runs analyzed:** "@ + text::decimal(runs) + "\n\n"@)
        }),
{
    let report = benchmark_report(runs, n, tools, reasons);
    let head = benchmark_head(runs, n);
    let used = count_rows(tools, tools.len());
    let used_head = "## Tool Usage\n\n| Tool | Calls |\n|------|-------|\n"@;
    let stops = count_rows(reasons, reasons.len());
    let stops_head = "## Stop Reasons\n\n| Reason | Count |\n|--------|-------|\n"@;
    let none = Seq::<char>::empty();
    let first = if tools.len() > 0 {
        used_head + used + "\n"@
    } else {
        none
    };
    let second = if reasons.len() > 0 {
        stops_head + stops
    } else {
        none
    };
    assert(head + first + second =~= report);
    if 0 <= i < tools.len() {
        lemma_count_row(
            tools,
            tools.len(),
            i,
            "| "@ + tools[i].0 + " | "@ + text::decimal(tools[i].1) + " |\n"@,
        );
        text::lemma_part_occurs(head + used_head, used, "\n"@ + second);
        assert(head + used_head + used + ("\n"@ + second) =~= report);
        text::lemma_occurs_through(
            report,
            used,
            "| "@ + tools[i].0 + " | "@ + text::decimal(tools[i].1) + " |\n"@,
        );
    }
    if 0 <= i < reasons.len() {
        lemma_count_row(
            reasons,
            reasons.len(),
            i,
            "| "@ + reasons[i].0 + " | "@ + text::decimal(reasons[i].1) + " |\n"@,
        );
        text::lemma_part_occurs(head + first + stops_head, stops, none);
        assert(head + first + stops_head + stops + none =~= report);
        text::lemma_occurs_through(
            report,
            stops,
            "| "@ + reasons[i].0 + " | "@ + text::decimal(reasons[i].1) + " |\n"@,
        );
    }
    lemma_head_tells_the_runs(runs, n);
    text::lemma_part_occurs(none, head, first + second);
    assert(none + head + (first + second) =~= report);
    text::lemma_occurs_through(
        report,
        head,
        "**Runs analyzed:** "@ + text::decimal(runs) + "\n\n"@,
    );
}

proof fn lemma_head_tells_the_runs(runs: nat, n: BenchmarkNumbers)
    ensures
        text::occurs_in(
            benchmark_head(runs, n),
            "**Runs analyzed:** "@ + text::decimal(runs) + "\n\n"@,
        ),
{
    let whole = benchmark_head(runs, n);
    let title = "# ChatVCode Agent Performance Benchmark\n\n"@;
    let part = "**Runs analyzed:** "@ + text::decimal(runs) + "\n\n"@;
    assert("# ChatVCode Agent Performance Benchmark\n\n**Runs analyzed:** "@ =~= title
        + "**Runs analyzed:** "@) by {
        reveal_strlit("# ChatVCode Agent Performance Benchmark\n\n**Runs analyzed:** ");
        reveal_strlit("# ChatVCode Agent Performance Benchmark\n\n");
        reveal_strlit("**Runs analyzed:** ");
    }
    let table = "| Metric | Average |\n|--------|---------|\n| Steps | "@;
    assert("\n\n| Metric | Average |\n|--------|---------|\n| Steps | "@ =~= "\n\n"@ + table) by {
        reveal_strlit("\n\n| Metric | Average |\n|--------|---------|\n| Steps | ");
        reveal_strlit("\n\n");
        reveal_strlit("| Metric | Average |\n|--------|---------|\n| Steps | ");
    }
    let at = title.len() as int;
    assert(whole.subrange(at, at + part.len()) =~= part);
    assert(text::occurs_at(whole, part, at));
}

/// Writes rows of a table.
fn count_rows_text(list: &Vec<(String, usize)>) -> (r: String)
    ensures
        r@ == count_rows(tally::pairs(list@), list@.len()),
{
    let ghost all = tally::pairs(list@);
    let mut r = String::new();
    let mut i: usize = 0;
    assert(r@ =~= Seq::empty());
    while i < list.len()
        invariant
            i <= list@.len(),
            all == tally::pairs(list@),
            r@ == count_rows(all, i as nat),
        decreases list@.len() - i,
    {
        r.append("| ");
        r.append(list[i].0.as_str());
        r.append(" | ");
        append_number(&mut r, list[i].1 as u64);
        r.append(" |\n");
        i += 1;
    }
    r
}

impl PerformanceBenchmark {
    /// The counts hold together: each key has one, and each run gave one reason.
    pub open spec fn well_formed(&self) -> bool {
        &&& self.tool_usage.well_formed()
        &&& self.stop_reasons.well_formed()
        &&& self.stop_reasons.total() == self.run_count
    }

    /// A benchmark of no run.
    #[must_use]
    pub fn new() -> (r: Self)
        ensures
            r.well_formed(),
            r.run_count == 0,
            r.tool_usage.counts() == Map::<Seq<char>, nat>::empty(),
            r.tool_usage.total() == 0,
            r.stop_reasons.counts() == Map::<Seq<char>, nat>::empty(),
    {
        PerformanceBenchmark {
            run_count: 0,
            tool_usage: Tally::new(),
            stop_reasons: Tally::new(),
        }
    }

    /// Counts a run.
    pub fn add(&mut self, response: &AgentResponse)
        requires
            old(self).well_formed(),
            response.metrics.well_formed(),
            old(self).run_count < usize::MAX,
            old(self).tool_usage.total() + response.metrics.tool_calls_by_name.total()
                <= usize::MAX,
        ensures
            final(self).well_formed(),
            final(self).run_count == old(self).run_count + 1,
            final(self).tool_usage.counts() == tally::added(
                old(self).tool_usage.counts(),
                response.metrics.tool_calls_by_name.counts(),
            ),
            final(self).tool_usage.total() == old(self).tool_usage.total()
                + response.metrics.tool_calls_by_name.total(),
            final(self).stop_reasons.counts() == old(self).stop_reasons.counts().insert(
                stop_name(response.stop_reason.spec()),
                tally::count_in(
                    old(self).stop_reasons.counts(),
                    stop_name(response.stop_reason.spec()),
                ) + 1,
            ),
    {
        self.run_count = self.run_count + 1;
        self.tool_usage.merge(&response.metrics.tool_calls_by_name);
        let reason = stop_text(&response.stop_reason);
        proof {
            if self.stop_reasons.counts().contains_key(reason@) {
                tally::lemma_count_le_total(self.stop_reasons, reason@);
            }
        }
        self.stop_reasons.add_many(reason, 1);
    }

    /// Writes the benchmark in Markdown; the tools that were called most come first.
    #[must_use]
    pub fn render_markdown(&self, numbers: &BenchmarkNumbers) -> (r: String)
        requires
            self.well_formed(),
        ensures
            exists|tools: Seq<(Seq<char>, nat)>, reasons: Seq<(Seq<char>, nat)>|
                tally::is_ranking(tools, self.tool_usage.counts()) && tally::is_listing(
                    reasons,
                    self.stop_reasons.counts(),
                ) && r@ == #[trigger] benchmark_report(
                    self.run_count as nat,
                    *numbers,
                    tools,
                    reasons,
                ),
    {
        let mut md = "# ChatVCode Agent Performance Benchmark\n\n**Runs analyzed:** ".to_owned();
        append_number(&mut md, self.run_count as u64);
        md.append("\n\n| Metric | Average |\n|--------|---------|\n| Steps | ");
        md.append(numbers.steps.as_str());
        md.append(" |\n| Duration | ");
        md.append(numbers.duration_ms.as_str());
        md.append("ms (");
        md.append(numbers.duration_secs.as_str());
        md.append("s) |\n| Tokens | ");
        md.append(numbers.tokens.as_str());
        md.append(" |\n| Tool calls | ");
        md.append(numbers.tool_calls.as_str());
        md.append(" |\n| Tool success rate | ");
        md.append(numbers.success_percent.as_str());
        md.append("% |\n| Token efficiency | ");
        md.append(numbers.token_efficiency.as_str());
        md.append(" tokens/step |\n\n");
        let tools = self.tool_usage.ranked();
        let reasons = self.stop_reasons.ranked();
        let ghost t = tally::pairs(tools@);
        let ghost s = tally::pairs(reasons@);
        assert(t.len() == tools@.len());
        assert(s.len() == reasons@.len());
        let ghost before = md@;
        if tools.len() > 0 {
            let mut part =
                "## Tool Usage\n\n| Tool | Calls |\n|------|-------|\n".to_owned();
            let rows = count_rows_text(&tools);
            part.append(rows.as_str());
            part.append("\n");
            md.append(part.as_str());
        } else {
            assert(before + Seq::<char>::empty() =~= before);
        }
        let ghost before = md@;
        if reasons.len() > 0 {
            let mut part =
                "## Stop Reasons\n\n| Reason | Count |\n|--------|-------|\n".to_owned();
            let rows = count_rows_text(&reasons);
            part.append(rows.as_str());
            md.append(part.as_str());
        } else {
            assert(before + Seq::<char>::empty() =~= before);
        }
        assert(md@ == benchmark_report(self.run_count as nat, *numbers, t, s));
        md
    }
}

impl Default for PerformanceBenchmark {
    fn default() -> (r: Self)
        ensures
            r.well_formed(),
            r.run_count == 0,
            r.tool_usage.counts() == Map::<Seq<char>, nat>::empty(),
            r.stop_reasons.counts() == Map::<Seq<char>, nat>::empty(),
    {
        PerformanceBenchmark::new()
    }
}

} // verus!
