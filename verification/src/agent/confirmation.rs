//! Asking before tools run.

use vstd::prelude::*;
use vstd::string::*;

use crate::agent::protocol;
use crate::agent::protocol::{CallSpec, ToolCall};
use crate::agent::types::AgentStep;
use crate::text;

verus! {

/// What is to be confirmed.
#[derive(Debug)]
pub struct ConfirmationRequest {
    /// The number of the step.
    pub step_number: usize,
    /// The names of the tools that are to be called.
    pub tool_calls: Vec<String>,
    /// How many steps are done.
    pub completed_steps: usize,
    /// How many tokens were used.
    pub total_tokens: usize,
}

/// The answer to a request.
#[derive(Debug, Clone, Copy, PartialEq, Eq, Structural)]
pub enum ConfirmationResponse {
    /// The tools may run.
    Approve,
    /// The tools may run, and nothing more is asked.
    ApproveAll,
    /// The tools may not run.
    Deny,
}

/// Answers requests.
pub trait ConfirmationHandler: Send + Sync {
    /// Answers a request.
    fn confirm(&self, request: &ConfirmationRequest) -> (r: ConfirmationResponse);
}

/// Approves every request.
pub struct AutoApproveHandler;

impl ConfirmationHandler for AutoApproveHandler {
    fn confirm(&self, request: &ConfirmationRequest) -> (r: ConfirmationResponse)
        ensures
            r == ConfirmationResponse::Approve,
    {
        ConfirmationResponse::Approve
    }
}

/// Denies every request.
pub struct AlwaysDenyHandler;

impl ConfirmationHandler for AlwaysDenyHandler {
    fn confirm(&self, request: &ConfirmationRequest) -> (r: ConfirmationResponse)
        ensures
            r == ConfirmationResponse::Deny,
    {
        ConfirmationResponse::Deny
    }
}

/// A request names every call of its step, in order.
pub proof fn law_every_call_is_named(calls: Seq<CallSpec>, i: int)
    requires
        0 <= i < calls.len(),
    ensures
        call_names(calls).len() == calls.len(),
        call_names(calls)[i] == calls[i].name,
{
}

/// The names of calls.
pub open spec fn call_names(calls: Seq<CallSpec>) -> Seq<Seq<char>> {
    Seq::new(calls.len(), |i: int| calls[i].name)
}

/// Lists the names of calls.
pub fn names_of(calls: &Vec<ToolCall>) -> (r: Vec<String>)
    ensures
        text::views(r@) == call_names(protocol::call_specs(calls@)),
{
    let ghost all = call_names(protocol::call_specs(calls@));
    let mut r: Vec<String> = Vec::new();
    let mut i: usize = 0;
    assert(text::views(r@) =~= all.take(0));
    while i < calls.len()
        invariant
            i <= calls@.len(),
            all == call_names(protocol::call_specs(calls@)),
            text::views(r@) == all.take(i as int),
        decreases calls@.len() - i,
    {
        let ghost before = text::views(r@);
        r.push(calls[i].name.clone());
        i += 1;
        assert(text::views(r@) =~= before.push(all[i - 1]));
        assert(text::views(r@) =~= all.take(i as int));
    }
    assert(all.take(all.len() as int) =~= all);
    r
}

/// Builds the request for a step; a step without calls needs none.
pub fn build_confirmation_request(
    step: &AgentStep,
    completed_steps: usize,
    total_tokens: usize,
) -> (r: Option<ConfirmationRequest>)
    ensures
        match r {
            Some(request) => {
                &&& step.tool_calls@.len() > 0
                &&& request.step_number == step.step_number
                &&& text::views(request.tool_calls@) == call_names(step.spec().calls)
                &&& request.completed_steps == completed_steps
                &&& request.total_tokens == total_tokens
            },
            None => step.tool_calls@.len() == 0,
        },
{
    if step.tool_calls.len() == 0 {
        return None;
    }
    Some(
        ConfirmationRequest {
            step_number: step.step_number,
            tool_calls: names_of(&step.tool_calls),
            completed_steps,
            total_tokens,
        },
    )
}

} // verus!
