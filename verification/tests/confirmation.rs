use atlas::agent::confirmation::{
    build_confirmation_request, AlwaysDenyHandler, AutoApproveHandler, ConfirmationHandler,
    ConfirmationRequest, ConfirmationResponse,
};
use atlas::agent::protocol::ToolCall;
use atlas::agent::types::{AgentState, AgentStep, TokenUsage};

fn make_step_with_calls(step_number: usize, calls: Vec<ToolCall>) -> AgentStep {
    AgentStep {
        step_number,
        state: AgentState::Acting,
        thinking_phase: None,
        thought: None,
        tool_calls: calls,
        tool_results: vec![],
        duration_ms: 0,
        token_usage: TokenUsage::default(),
    }
}

fn make_call(name: &str) -> ToolCall {
    ToolCall::new(name)
}

#[test]
fn auto_approve_always_approves() {
    let handler = AutoApproveHandler;
    let req = ConfirmationRequest {
        step_number: 1,
        tool_calls: vec!["read_file".into()],
        completed_steps: 0,
        total_tokens: 100,
    };
    assert_eq!(handler.confirm(&req), ConfirmationResponse::Approve);
}

#[test]
fn always_deny_always_denies() {
    let handler = AlwaysDenyHandler;
    let req = ConfirmationRequest {
        step_number: 1,
        tool_calls: vec!["read_file".into()],
        completed_steps: 0,
        total_tokens: 100,
    };
    assert_eq!(handler.confirm(&req), ConfirmationResponse::Deny);
}

#[test]
fn build_request_from_step_with_calls() {
    let step = make_step_with_calls(2, vec![make_call("read_file"), make_call("grep_code")]);
    let req = build_confirmation_request(&step, 1, 500).unwrap();
    assert_eq!(req.step_number, 2);
    assert_eq!(req.tool_calls.len(), 2);
    assert_eq!(req.tool_calls[0], "read_file");
    assert_eq!(req.completed_steps, 1);
    assert_eq!(req.total_tokens, 500);
}

#[test]
fn build_request_from_step_without_calls_returns_none() {
    let step = AgentStep {
        step_number: 1,
        state: AgentState::Thinking,
        thinking_phase: None,
        thought: None,
        tool_calls: vec![],
        tool_results: vec![],
        duration_ms: 0,
        token_usage: TokenUsage::default(),
    };
    assert!(build_confirmation_request(&step, 0, 0).is_none());
}
