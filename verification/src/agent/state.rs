//! What the agent does next.

use vstd::prelude::*;
use vstd::string::*;

use crate::agent::protocol;
use crate::agent::protocol::{CallSpec, ResultSpec, ToolCall, ToolResult};
use crate::agent::types::{AgentState, ThinkingPhase};
use crate::paths;

verus! {

/// What moves the agent on.
pub enum TransitionEvent {
    /// The agent wants to call tools.
    ToolCallsDetected(Vec<ToolCall>),
    /// The tools have run, with these results.
    ToolsExecuted(Vec<ToolResult>),
    /// The agent gives its answer.
    FinalAnswer(String),
    /// The agent goes on as it is.
    Continue,
    /// The agent is to come to an end.
    ForceConclusion,
    /// No steps are left.
    MaxStepsReached,
    /// No time is left.
    Timeout,
    /// The agent cannot go on.
    UnrecoverableError(String),
}

/// What moves the agent on.
pub enum EventSpec {
    ToolCallsDetected(Seq<CallSpec>),
    ToolsExecuted(Seq<ResultSpec>),
    FinalAnswer(Seq<char>),
    Continue,
    ForceConclusion,
    MaxStepsReached,
    Timeout,
    UnrecoverableError(Seq<char>),
}

impl TransitionEvent {
    /// What the event says.
    pub open spec fn spec(&self) -> EventSpec {
        match self {
            TransitionEvent::ToolCallsDetected(calls) => EventSpec::ToolCallsDetected(
                protocol::call_specs(calls@),
            ),
            TransitionEvent::ToolsExecuted(results) => EventSpec::ToolsExecuted(
                protocol::result_specs(results@),
            ),
            TransitionEvent::FinalAnswer(t) => EventSpec::FinalAnswer(t@),
            TransitionEvent::Continue => EventSpec::Continue,
            TransitionEvent::ForceConclusion => EventSpec::ForceConclusion,
            TransitionEvent::MaxStepsReached => EventSpec::MaxStepsReached,
            TransitionEvent::Timeout => EventSpec::Timeout,
            TransitionEvent::UnrecoverableError(m) => EventSpec::UnrecoverableError(m@),
        }
    }
}

/// Where the agent stands.
pub struct AgentStateMachine {
    pub state: AgentState,
    pub thinking_phase: ThinkingPhase,
    /// The calls that wait to be made.
    pub pending: Vec<ToolCall>,
    pub final_answer: Option<String>,
    /// Why the agent came to an end.
    pub termination_reason: Option<String>,
}

/// Where the agent stands.
pub struct MachineSpec {
    pub state: AgentState,
    pub phase: ThinkingPhase,
    pub pending: Seq<CallSpec>,
    pub answer: Option<Seq<char>>,
    pub reason: Option<Seq<char>>,
}

/// The agent has come to an end.
pub open spec fn is_end(state: AgentState) -> bool {
    state == AgentState::Done || state == AgentState::Failed
}

/// The machine at its start.
pub open spec fn at_start() -> MachineSpec {
    MachineSpec {
        state: AgentState::Thinking,
        phase: ThinkingPhase::Planning,
        pending: Seq::empty(),
        answer: None,
        reason: None,
    }
}

/// The machine at its end, for a reason.
pub open spec fn failed_for(m: MachineSpec, reason: Seq<char>) -> MachineSpec {
    MachineSpec { state: AgentState::Failed, reason: Some(reason), ..m }
}

/// Where an event leads: thinking leads to acting or to the answer, acting back to thinking, and
/// nothing leads away from an end.
pub open spec fn moved(m: MachineSpec, e: EventSpec) -> MachineSpec {
    if is_end(m.state) {
        m
    } else {
        match e {
            EventSpec::ToolCallsDetected(calls) => if m.state == AgentState::Thinking {
                MachineSpec { state: AgentState::Acting, pending: calls, ..m }
            } else {
                m
            },
            EventSpec::ToolsExecuted(_) => if m.state == AgentState::Acting {
                MachineSpec {
                    state: AgentState::Thinking,
                    phase: ThinkingPhase::Observing,
                    ..m
                }
            } else {
                m
            },
            EventSpec::FinalAnswer(t) => if m.state == AgentState::Thinking {
                MachineSpec {
                    state: AgentState::Done,
                    answer: Some(t),
                    reason: Some("completed"@),
                    ..m
                }
            } else {
                m
            },
            EventSpec::Continue => m,
            EventSpec::ForceConclusion => MachineSpec {
                state: AgentState::Thinking,
                phase: ThinkingPhase::Concluding,
                ..m
            },
            EventSpec::MaxStepsReached => failed_for(m, "max_steps"@),
            EventSpec::Timeout => failed_for(m, "timeout"@),
            EventSpec::UnrecoverableError(message) => failed_for(m, message),
        }
    }
}

/// Nothing leads away from an end, and the agent answers only out of thinking.
pub proof fn law_ends_are_final(m: MachineSpec, e: EventSpec)
    ensures
        is_end(m.state) ==> moved(m, e) == m,
        moved(m, e).state == AgentState::Done && m.state != AgentState::Done ==> m.state
            == AgentState::Thinking && moved(m, e).answer is Some,
        moved(m, e).state == AgentState::Acting && m.state != AgentState::Acting ==> m.state
            == AgentState::Thinking,
{
}

/// Thinking that asks for tools leads to acting, with just those calls waiting; once they have run
/// the agent observes what came of them; and an answer that is given while it thinks is the answer
/// of the run.
pub proof fn law_thinking_and_acting_take_turns(
    m: MachineSpec,
    calls: Seq<CallSpec>,
    results: Seq<ResultSpec>,
    t: Seq<char>,
)
    requires
        m.state == AgentState::Thinking,
    ensures
        ({
            let acting = moved(m, EventSpec::ToolCallsDetected(calls));
            let back = moved(acting, EventSpec::ToolsExecuted(results));
            &&& acting.state == AgentState::Acting
            &&& acting.pending == calls
            &&& acting.phase == m.phase
            &&& acting.answer == m.answer
            &&& back.state == AgentState::Thinking
            &&& back.phase == ThinkingPhase::Observing
            &&& moved(acting, EventSpec::FinalAnswer(t)) == acting
            &&& moved(m, EventSpec::ToolsExecuted(results)) == m
        }),
        moved(m, EventSpec::FinalAnswer(t)).state == AgentState::Done,
        moved(m, EventSpec::FinalAnswer(t)).answer == Some(t),
        moved(m, EventSpec::FinalAnswer(t)).reason == Some("completed"@),
{
}

/// However an unfinished machine stands, it goes on as it is or comes to a conclusion when it is
/// told to, and it fails for the reason that it is given.
pub proof fn law_unfinished_machine_does_as_told(m: MachineSpec, message: Seq<char>)
    requires
        !is_end(m.state),
    ensures
        moved(m, EventSpec::Continue) == m,
        moved(m, EventSpec::ForceConclusion).state == AgentState::Thinking,
        moved(m, EventSpec::ForceConclusion).phase == ThinkingPhase::Concluding,
        moved(m, EventSpec::ForceConclusion).answer == m.answer,
        moved(m, EventSpec::UnrecoverableError(message)).reason == Some(message),
        moved(m, EventSpec::MaxStepsReached).reason == Some("max_steps"@),
        moved(m, EventSpec::Timeout).reason == Some("timeout"@),
{
}

/// However an unfinished machine stands, these events end it.
pub proof fn law_limits_end_the_run(m: MachineSpec)
    requires
        !is_end(m.state),
    ensures
        moved(m, EventSpec::MaxStepsReached).state == AgentState::Failed,
        moved(m, EventSpec::Timeout).state == AgentState::Failed,
        forall|message: Seq<char>| (#[trigger] moved(m, EventSpec::UnrecoverableError(message))).state
            == AgentState::Failed,
{
}

impl AgentStateMachine {
    /// Where the machine stands.
    pub open spec fn spec(&self) -> MachineSpec {
        MachineSpec {
            state: self.state,
            phase: self.thinking_phase,
            pending: protocol::call_specs(self.pending@),
            answer: paths::opt_view(self.final_answer),
            reason: paths::opt_view(self.termination_reason),
        }
    }

    /// A machine at its start.
    pub fn new() -> (r: Self)
        ensures
            r.spec() == at_start(),
    {
        let r = AgentStateMachine {
            state: AgentState::Thinking,
            thinking_phase: ThinkingPhase::Planning,
            pending: Vec::new(),
            final_answer: None,
            termination_reason: None,
        };
        assert(protocol::call_specs(r.pending@) =~= Seq::empty());
        r
    }

    /// Goes back to the start.
    pub fn reset(&mut self)
        ensures
            final(self).spec() == at_start(),
    {
        *self = AgentStateMachine::new();
    }

    /// Tells whether the agent has come to an end.
    pub fn is_terminal(&self) -> (r: bool)
        ensures
            r == is_end(self.state),
    {
        self.state == AgentState::Done || self.state == AgentState::Failed
    }

    /// Follows an event.
    pub fn transition(&mut self, event: TransitionEvent) -> (r: AgentState)
        ensures
            final(self).spec() == moved(old(self).spec(), event.spec()),
            r == final(self).state,
    {
        if self.is_terminal() {
            return self.state;
        }
        match event {
            TransitionEvent::ToolCallsDetected(calls) => {
                if self.state == AgentState::Thinking {
                    self.state = AgentState::Acting;
                    self.pending = calls;
                }
            },
            TransitionEvent::ToolsExecuted(_) => {
                if self.state == AgentState::Acting {
                    self.state = AgentState::Thinking;
                    self.thinking_phase = ThinkingPhase::Observing;
                }
            },
            TransitionEvent::FinalAnswer(t) => {
                if self.state == AgentState::Thinking {
                    self.state = AgentState::Done;
                    self.final_answer = Some(t);
                    self.termination_reason = Some("completed".to_owned());
                }
            },
            TransitionEvent::Continue => {},
            TransitionEvent::ForceConclusion => {
                self.state = AgentState::Thinking;
                self.thinking_phase = ThinkingPhase::Concluding;
            },
            TransitionEvent::MaxStepsReached => {
                self.state = AgentState::Failed;
                self.termination_reason = Some("max_steps".to_owned());
            },
            TransitionEvent::Timeout => {
                self.state = AgentState::Failed;
                self.termination_reason = Some("timeout".to_owned());
            },
            TransitionEvent::UnrecoverableError(message) => {
                self.state = AgentState::Failed;
                self.termination_reason = Some(message);
            },
        }
        self.state
    }

    /// Takes the calls that wait to be made.
    pub fn take_pending_tool_calls(&mut self) -> (r: Vec<ToolCall>)
        ensures
            protocol::call_specs(r@) == old(self).spec().pending,
            final(self).spec() == (MachineSpec { pending: Seq::empty(), ..old(self).spec() }),
    {
        let mut calls: Vec<ToolCall> = Vec::new();
        std::mem::swap(&mut calls, &mut self.pending);
        assert(protocol::call_specs(self.pending@) =~= Seq::empty());
        calls
    }

    /// Takes the answer.
    pub fn take_final_answer(&mut self) -> (r: Option<String>)
        ensures
            paths::opt_view(r) == old(self).spec().answer,
            final(self).spec() == (MachineSpec { answer: None, ..old(self).spec() }),
    {
        let mut answer: Option<String> = None;
        std::mem::swap(&mut answer, &mut self.final_answer);
        answer
    }
}

} // verus!
