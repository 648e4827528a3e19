use atlas::agent::agent_loop::{
    convert_token_usage, settle_call, started_event, ActStep, AgentEvent, AgentLoop, CallOutcome,
    LoopDetectionResult, Turn,
};
use atlas::agent::confirmation::{
    AlwaysDenyHandler, ConfirmationHandler, ConfirmationRequest, ConfirmationResponse,
};
use atlas::agent::executor::{BuiltinToolRegistry, Start};
use atlas::agent::json::{Json, JsonNumber};
use atlas::agent::protocol::{AgentResult, ToolCall, ToolResult};
use atlas::agent::response::{AgentResponse, EvaluationNumbers};
use atlas::agent::state::TransitionEvent;
use atlas::agent::tools::files::CanonicalPaths;
use atlas::agent::tools::AgentTool;
use atlas::agent::types::{
    AgentConfig, AgentState, AgentStopReason, ThinkingPhase, ToolRetryConfig,
};

/// What the language model says: a text, and the calls that it asks for.
#[derive(Clone)]
struct Said {
    text: &'static str,
    calls: Vec<&'static str>,
}

fn answer(text: &'static str) -> Said {
    Said { text, calls: vec![] }
}

fn asks_for(calls: &[&'static str]) -> Said {
    Said { text: "I need a tool.", calls: calls.to_vec() }
}

struct ApproveAllHandler;

impl ConfirmationHandler for ApproveAllHandler {
    fn confirm(&self, _request: &ConfirmationRequest) -> ConfirmationResponse {
        ConfirmationResponse::ApproveAll
    }
}

struct Agent {
    inner: AgentLoop,
    script: Vec<Said>,
    said: usize,
    cancelled: bool,
    handler: Option<Box<dyn Fn(&ConfirmationRequest) -> ConfirmationResponse>>,
    events: Vec<AgentEvent>,
    asked: usize,
    strict: bool,
}

fn make_config(max_steps: usize) -> AgentConfig {
    AgentConfig { max_steps, timeout_secs: 0, ..AgentConfig::default() }
}

fn make_agent(script: Vec<Said>, config: AgentConfig) -> Agent {
    Agent {
        inner: AgentLoop::new(config, "agent-1".to_string()),
        script,
        said: 0,
        cancelled: false,
        handler: None,
        events: vec![],
        asked: 0,
        strict: false,
    }
}

impl Agent {
    fn detect(&self) -> LoopDetectionResult {
        let names: Vec<Vec<&str>> = self
            .inner
            .session
            .steps
            .iter()
            .filter(|s| s.state == AgentState::Acting)
            .map(|s| s.tool_calls.iter().map(|c| c.name.as_str()).collect())
            .collect();
        match names.as_slice() {
            [.., a, b, c] if a == b && b == c => {
                LoopDetectionResult::ExactLoop { tool_name: a[0].to_string(), occurrences: 3 }
            }
            _ => LoopDetectionResult::NoLoop,
        }
    }

    fn think(&mut self) {
        let said = match self.script.get(self.said) {
            Some(s) => s.clone(),
            None => answer("I have no further information."),
        };
        self.said += 1;
        let parsed = if said.calls.is_empty() {
            None
        } else {
            Some(said.calls.iter().map(|name| ToolCall::new(name)).collect())
        };
        let (event, told) = self.inner.after_thinking(said.text, 10, 5, 1, parsed);
        self.events.push(told);
        self.follow(event);
    }

    fn follow(&mut self, event: TransitionEvent) {
        if let Some(told) = self.inner.handle_transition(event) {
            self.events.push(told);
        }
    }

    fn act(&mut self) {
        let step = match self.inner.begin_acting(self.handler.is_some()) {
            ActStep::Ask(planned, request) => {
                self.asked += 1;
                let response = (self.handler.as_ref().unwrap())(&request);
                self.inner.answer_received(planned, response)
            }
            step => step,
        };
        let cleared = match step {
            ActStep::Run(cleared) => cleared,
            ActStep::Stop(event, told) => {
                self.events.push(told);
                self.follow(event);
                return;
            }
            ActStep::Ask(..) => panic!("asked twice"),
        };
        let mut results = vec![];
        for call in cleared.calls() {
            self.events.push(started_event(call));
            let outcome = if self.strict || call.name.starts_with("nonexistent") {
                CallOutcome::Returned(refusal(call))
            } else {
                CallOutcome::Returned(Ok(ToolResult::success(Json::text("found"))))
            };
            let (result, told) = settle_call(call, outcome);
            self.events.extend(told);
            results.push(result);
        }
        let made = self.inner.calls_made(cleared, &results).unwrap();
        assert!(self.inner.has_room_for_calls(&made, 1));
        let event = self.inner.record_calls(made, 1, "Here is what the tools found.");
        self.follow(event);
    }

    fn go_on(&mut self) -> AgentResponse {
        loop {
            let detection = self.detect();
            let (turn, told) = self.inner.next_turn(0, self.cancelled, &detection);
            self.events.extend(told);
            match turn {
                Turn::Finished => break,
                Turn::Again => {}
                Turn::Think => self.think(),
                Turn::Act => self.act(),
            }
        }
        let relevances = vec![0u32; self.inner.session.found_sources().len()];
        let response = self.inner.session.to_response(0, &relevances);
        if self.inner.session.config.enable_self_evaluation {
            response.with_self_evaluation(EvaluationNumbers {
                confidence_score: 0.25f64.to_bits(),
                tool_success_rate: 0.0f64.to_bits(),
                percent: "0".to_string(),
            })
        } else {
            response
        }
    }

    fn run(&mut self, query: &str) -> AgentResponse {
        let told = self.inner.initialize(query, "You explore code.".to_string(), query);
        self.events.push(told);
        self.go_on()
    }
}

/// What the tools that come with the agent answer to a call that none of them takes.
fn refusal(call: &ToolCall) -> AgentResult<ToolResult> {
    let mut registry: BuiltinToolRegistry<AgentTool> =
        BuiltinToolRegistry::new(ToolRetryConfig::default());
    registry.register_defaults();
    let found = CanonicalPaths { project: None, target: None, parent: None };
    match registry.begin(call, "/project", &found, 0) {
        Start::Done(answer) => answer,
        Start::Run(_) => panic!("the call is taken"),
    }
}

fn acting(response: &AgentResponse) -> Vec<usize> {
    response
        .steps
        .iter()
        .filter(|s| s.state == AgentState::Acting)
        .map(|s| s.tool_calls.len())
        .collect()
}

#[test]
fn direct_answer_scenario() {
    let mut agent = make_agent(vec![answer("The main function is the entry point.")], make_config(5));
    let response = agent.run("What is main?");
    assert_eq!(response.answer, "The main function is the entry point.");
    assert!(matches!(response.stop_reason, AgentStopReason::Completed));
    assert_eq!(response.steps.len(), 1);
    assert!(response.steps[0].tool_calls.is_empty());
}

#[test]
fn single_tool_call_scenario() {
    let mut agent =
        make_agent(vec![asks_for(&["list_files"]), answer("I listed the files.")], make_config(5));
    let response = agent.run("List files");
    assert_eq!(response.answer, "I listed the files.");
    assert_eq!(response.steps.len(), 3);
    assert_eq!(acting(&response), vec![1]);
    assert_eq!(response.steps[1].tool_calls[0].name, "list_files");
    assert_eq!(response.total_tool_calls, 1);
}

#[test]
fn multi_step_tool_call_scenario() {
    let mut agent = make_agent(
        vec![asks_for(&["list_files"]), asks_for(&["read_file"]), answer("Found foo.")],
        make_config(10),
    );
    let response = agent.run("Explore");
    assert_eq!(response.answer, "Found foo.");
    assert_eq!(response.total_tool_calls, 2);
    assert_eq!(acting(&response).len(), 2);
}

#[test]
fn max_steps_exceeded_scenario() {
    let script = (0..10).map(|_| asks_for(&["list_files"])).collect();
    let mut agent = make_agent(script, make_config(3));
    let response = agent.run("Loop");
    assert!(matches!(response.stop_reason, AgentStopReason::MaxSteps));
    assert!(response.steps.len() <= 3);
}

#[test]
fn timeout_scenario() {
    let mut config = make_config(100);
    config.timeout_secs = 1;
    let mut agent = make_agent(vec![answer("done")], config);
    let response = agent.run("q");
    assert!(matches!(response.stop_reason, AgentStopReason::Completed));
}

#[test]
fn no_time_left_fails_the_run() {
    let mut config = make_config(100);
    config.timeout_secs = 1;
    let mut agent = make_agent(vec![], config);
    agent.inner.initialize("q", "s".to_string(), "p");
    let (turn, _) = agent.inner.next_turn(1000, false, &LoopDetectionResult::NoLoop);
    assert_eq!(turn, Turn::Finished);
    assert_eq!(agent.inner.session.state(), AgentState::Failed);
    assert!(matches!(agent.inner.session.stop_reason(), Some(AgentStopReason::Timeout)));
}

#[test]
fn tool_execution_failure_recovery_scenario() {
    let mut agent = make_agent(
        vec![asks_for(&["nonexistent_tool"]), answer("Could not use the tool.")],
        make_config(10),
    );
    let response = agent.run("q");
    assert_eq!(response.answer, "Could not use the tool.");
    assert_eq!(acting(&response), vec![1]);
    assert_eq!(response.steps[1].tool_results.len(), 1);
    assert!(!response.steps[1].tool_results[0].success);
}

#[test]
fn loop_detection_force_conclusion_scenario() {
    let mut script: Vec<Said> = (0..6).map(|_| asks_for(&["list_files"])).collect();
    script.push(answer("Giving up now."));
    let mut agent = make_agent(script, make_config(20));
    let response = agent.run("q");
    assert_eq!(response.answer, "Giving up now.");
    assert!(response.metrics.loop_detection_triggered >= 1);
    assert!(agent.inner.session.chat.messages.iter().any(|m| m.content
        == "You appear to be repeating the same tool call. Please provide a final answer based on the information gathered so far."));
}

#[test]
fn token_budget_exhausted_scenario() {
    let mut config = make_config(100);
    config.token_budget.total_budget = 100;
    config.token_budget.response_reserve = 50;
    let mut agent = make_agent(vec![answer("final")], config);
    let response = agent.run("q");
    assert!(matches!(
        response.stop_reason,
        AgentStopReason::Completed | AgentStopReason::Error(_)
    ));
    assert!(agent.events.iter().any(|e| matches!(e, AgentEvent::TokenBudgetWarning { .. })));
}

#[test]
fn run_stream_emits_events() {
    let mut agent = make_agent(vec![answer("direct answer")], make_config(5));
    let response = agent.run("query");
    assert_eq!(response.answer, "direct answer");
    assert!(matches!(agent.events[0], AgentEvent::AnswerStarted));
    assert!(agent.events.iter().any(|e| matches!(
        e,
        AgentEvent::StateChanged { from: AgentState::Thinking, to: AgentState::Done }
    )));
}

#[test]
fn cancel_flag_stops_loop() {
    let script = (0..100).map(|_| asks_for(&["list_files"])).collect();
    let mut agent = make_agent(script, make_config(100));
    agent.cancelled = true;
    let response = agent.run("q");
    assert!(matches!(response.stop_reason, AgentStopReason::UserCancel));
}

#[test]
fn filter_allowed_tools_drops_unlisted() {
    let mut config = make_config(10);
    config.allowed_tools = vec!["list_files".into()];
    let mut agent = make_agent(vec![asks_for(&["list_files", "read_file"]), answer("ok")], config);
    let response = agent.run("q");
    assert_eq!(acting(&response), vec![1]);
    assert_eq!(response.steps[1].tool_calls[0].name, "list_files");
}

#[test]
fn a_thought_without_allowed_calls_is_the_answer() {
    let mut config = make_config(10);
    config.allowed_tools = vec!["other".into()];
    let mut agent = make_agent(vec![asks_for(&["list_files"])], config);
    let response = agent.run("q");
    assert_eq!(response.answer, "I need a tool.");
}

#[test]
fn calls_beyond_the_limit_of_a_step_are_dropped() {
    let mut config = make_config(10);
    config.max_tool_calls_per_step = 2;
    let mut agent = make_agent(vec![asks_for(&["a", "b", "c"]), answer("ok")], config);
    let response = agent.run("q");
    assert_eq!(acting(&response), vec![2]);
}

#[test]
fn retry_clears_history() {
    let mut agent = make_agent(vec![answer("first"), answer("second")], make_config(5));
    let r1 = agent.run("q");
    assert_eq!(r1.answer, "first");
    assert_eq!(agent.inner.session().steps().len(), 1);

    let query = agent.inner.retry("agent-2".to_string());
    assert_eq!(query, "q");
    let r2 = agent.run(&query);
    assert_eq!(r2.answer, "second");
    assert_eq!(agent.inner.session().steps().len(), 1);
}

#[test]
fn continue_execution_after_max_steps() {
    let mut agent =
        make_agent(vec![asks_for(&["list_files"]), answer("Done after continue.")], make_config(1));
    let r1 = agent.run("q");
    assert!(matches!(r1.stop_reason, AgentStopReason::MaxSteps));

    assert!(agent.inner.continue_execution());
    assert_eq!(agent.inner.session.config.max_steps, 6);
    let r2 = agent.go_on();
    assert_eq!(r2.answer, "Done after continue.");
    assert!(matches!(r2.stop_reason, AgentStopReason::Completed));
}

#[test]
fn only_a_run_without_steps_left_goes_on() {
    let mut agent = make_agent(vec![answer("done")], make_config(5));
    agent.run("q");
    assert!(!agent.inner.continue_execution());
    assert_eq!(agent.inner.session.config.max_steps, 5);
}

#[test]
fn convert_token_usage_clamps_negative() {
    let converted = convert_token_usage(-5, 3);
    assert_eq!(converted.prompt_tokens, 0);
    assert_eq!(converted.completion_tokens, 3);
    assert_eq!(converted.total_tokens, 3);
}

#[test]
fn truncate_results_preserves_failures() {
    let agent = make_agent(vec![answer("x")], make_config(5));
    let ok = ToolResult::success(Json::Object(vec![("data".to_string(), Json::text("value"))]));
    let err = ToolResult::error("boom");
    let truncated = agent.inner.truncate_results(&vec![ok, err]).unwrap();
    assert!(truncated[0].success);
    assert_eq!(truncated[0].value.field("data").unwrap().as_str(), Some("value"));
    assert!(!truncated[1].success);
    assert_eq!(truncated[1].value.as_str(), Some("boom"));
}

#[test]
fn a_result_that_is_cut_becomes_a_string() {
    let mut config = make_config(5);
    config.token_budget.tool_result_max = 2;
    let agent = make_agent(vec![], config);
    let long = ToolResult::success(Json::Array(vec![
        Json::Number(JsonNumber::Unsigned(1)),
        Json::text("abcdefghijkl"),
    ]));
    let truncated = agent.inner.truncate_results(&vec![long]).unwrap();
    assert!(truncated[0].value.as_str().unwrap().starts_with("[1,\"abcd"));
    let wide = ToolResult::success(Json::text("abcdef\u{4f60}\u{4f60}\u{4f60}"));
    assert!(agent.inner.truncate_results(&vec![wide]).is_none());
}

#[test]
fn direct_answer_with_mock_llm_service() {
    let mut agent = make_agent(vec![answer("A plain text answer.")], make_config(5));
    let response = agent.run("Any question");
    assert_eq!(response.answer, "A plain text answer.");
    assert!(matches!(response.stop_reason, AgentStopReason::Completed));
}

#[test]
fn empty_planning_prompt_does_not_crash() {
    let mut agent = make_agent(vec![answer("answer")], make_config(3));
    let response = agent.run("");
    assert_eq!(response.answer, "answer");
}

#[test]
fn parallel_tool_calls_executes_all_tools() {
    let mut config = make_config(10);
    config.enable_parallel_tool_calls = true;
    let mut agent =
        make_agent(vec![asks_for(&["read_file", "read_file"]), answer("Read both files.")], config);
    let response = agent.run("Read both");
    assert_eq!(response.answer, "Read both files.");
    assert_eq!(acting(&response), vec![2]);
    assert_eq!(response.steps[1].tool_results.len(), 2);
    assert!(response.steps[1].tool_results.iter().all(|r| r.success));
}

#[test]
fn self_evaluation_included_when_enabled() {
    let mut config = make_config(5);
    config.enable_self_evaluation = true;
    let mut agent = make_agent(vec![answer("short")], config);
    let response = agent.run("q");
    let eval = response.self_evaluation.expect("self_evaluation should be set");
    let confidence = f64::from_bits(eval.confidence_score);
    assert!(confidence >= 0.0 && confidence <= 1.0);
    assert!(!eval.notes.is_empty());
    assert!(confidence < 1.0);
    assert_eq!(eval.notes.len(), 3);
}

#[test]
fn self_evaluation_absent_when_disabled() {
    let mut agent = make_agent(vec![answer("answer")], make_config(5));
    let response = agent.run("q");
    assert!(response.self_evaluation.is_none());
}

#[test]
fn confirmation_handler_can_deny_execution() {
    let mut config = make_config(10);
    config.require_plan_confirmation = true;
    let mut agent = make_agent(vec![asks_for(&["list_files"]), answer("Done.")], config);
    agent.handler = Some(Box::new(|request| AlwaysDenyHandler.confirm(request)));
    let response = agent.run("q");
    assert!(matches!(response.stop_reason, AgentStopReason::UserCancel));
}

#[test]
fn confirmation_handler_approve_all_skips_future_confirmations() {
    let mut config = make_config(10);
    config.require_plan_confirmation = true;
    let mut agent = make_agent(
        vec![asks_for(&["list_files"]), asks_for(&["read_file"]), answer("Done.")],
        config,
    );
    agent.handler = Some(Box::new(|request| ApproveAllHandler.confirm(request)));
    let response = agent.run("q");
    assert_eq!(response.answer, "Done.");
    assert!(matches!(response.stop_reason, AgentStopReason::Completed));
    assert_eq!(agent.asked, 1);
}

#[test]
fn similar_calls_are_pointed_out() {
    let mut agent = make_agent(vec![], make_config(5));
    agent.inner.initialize("q", "s".to_string(), "p");
    let similar =
        LoopDetectionResult::SimilarLoop { pattern: "grep_code".to_string(), occurrences: 4 };
    let (turn, told) = agent.inner.next_turn(0, false, &similar);
    assert_eq!(turn, Turn::Again);
    assert!(matches!(told[0], AgentEvent::LoopDetected { .. }));
    let hint = &agent.inner.session.chat.messages.last().unwrap().content;
    assert_eq!(hint, "I notice you've called 'grep_code' 4 times with similar arguments. Please try a different approach or provide a final answer with the information you have.");
}

#[test]
fn a_tool_that_panics_is_a_failure() {
    let (result, told) = settle_call(&ToolCall::new("t"), CallOutcome::Panicked);
    assert!(!result.success);
    assert_eq!(result.value.as_str(), Some("Tool thread panicked"));
    assert!(told.is_empty());
}

#[test]
fn malformed_json_falls_back_to_final_answer() {
    let mut agent = make_agent(vec![answer("{not valid json")], make_config(5));
    let response = agent.run("q");
    assert_eq!(response.answer, "{not valid json");
    assert!(matches!(response.stop_reason, AgentStopReason::Completed));
}

#[test]
fn think_tags_without_tool_call_becomes_final_answer() {
    let mut agent = make_agent(vec![answer("<think>reasoning only</think>")], make_config(5));
    let response = agent.run("q");
    assert_eq!(response.answer, "<think>reasoning only</think>");
    assert!(matches!(response.stop_reason, AgentStopReason::Completed));
}

#[test]
fn calling_nonexistent_tool_recovers_and_answers() {
    let mut agent = make_agent(
        vec![asks_for(&["nonexistent_tool"]), answer("Could not use the tool.")],
        make_config(10),
    );
    let response = agent.run("q");
    assert_eq!(response.answer, "Could not use the tool.");
    assert_eq!(acting(&response).len(), 1);
    assert!(!response.steps[1].tool_results[0].success);
    let said = response.steps[1].tool_results[0].value.as_str().unwrap();
    assert!(said.contains("Unknown tool: nonexistent_tool"));
}

#[test]
fn the_session_can_be_changed() {
    let mut agent = make_agent(vec![answer("Done.")], make_config(5));
    agent.inner.session_mut().config_mut().max_steps = 7;
    agent.inner.session_mut().metrics_mut().tool_retries = 2;
    agent.inner.session_mut().chat_session_mut().add_user_message("hello");
    assert_eq!(agent.inner.session().config().max_steps, 7);
    assert_eq!(agent.inner.session().metrics().tool_retries, 2);
    assert_eq!(agent.inner.session().chat_session().messages.len(), 1);
    assert_eq!(agent.inner.session().remaining_steps(), 7);
}

fn nested(depth: usize) -> Json {
    let mut value = Json::natural(1);
    for _ in 0..depth {
        value = Json::array(vec![value]);
    }
    value
}

#[test]
fn a_result_that_fits_stays() {
    let agent = make_agent(vec![], make_config(5));
    let value = Json::object(vec![
        ("b".to_string(), Json::integer(-3)),
        ("a".to_string(), Json::array(vec![Json::text("x \"y\" \n é"), Json::Null, Json::truth(true)])),
        ("b".to_string(), Json::natural(u64::MAX)),
    ]);
    let results = vec![
        ToolResult::success(value).with_call_id("c1"),
        ToolResult::success(nested(127)),
        ToolResult::success(nested(128)),
        ToolResult::success(Json::integer(i64::MIN)),
    ];
    let kept = agent.inner.truncate_results(&results).unwrap();
    assert_eq!(kept[0].value.field("b").unwrap().as_u64(), Some(u64::MAX));
    let items = kept[0].value.field("a").unwrap().as_array().unwrap();
    assert_eq!(items.len(), 3);
    assert_eq!(items[0].as_str(), Some("x \"y\" \n é"));
    assert_eq!(items[2].as_bool(), Some(true));
    assert_eq!(kept[0].call_id.as_deref(), Some("c1"));
    assert!(kept[0].success);
    assert!(kept[1].value.as_array().is_some());
    assert!(kept[2].value.as_str().is_some());
    assert_eq!(kept[3].value.as_i64(), Some(i64::MIN));
}

#[test]
fn several_calls_run_side_by_side_if_they_may() {
    let one = vec![ToolCall::new("a")];
    let two = vec![ToolCall::new("a"), ToolCall::new("b")];
    let mut config = make_config(5);
    config.enable_parallel_tool_calls = true;
    let agent = make_agent(vec![], config);
    assert!(agent.inner.runs_in_parallel(&two));
    assert!(!agent.inner.runs_in_parallel(&one));
    let mut config = make_config(5);
    config.enable_parallel_tool_calls = false;
    let agent = make_agent(vec![], config);
    assert!(!agent.inner.runs_in_parallel(&two));
}

#[test]
fn results_are_cut_to_the_budget_that_the_run_began_with() {
    let mut agent = make_agent(vec![], make_config(5));
    agent.inner.session_mut().config_mut().token_budget.tool_result_max = 1;
    let long = ToolResult::success(Json::text("abcdefghijkl"));
    let kept = agent.inner.truncate_results(&vec![long]).unwrap();
    assert_eq!(kept[0].value.as_str(), Some("abcdefghijkl"));
}

#[test]
fn the_results_come_with_the_event() {
    let mut agent = make_agent(vec![asks_for(&["read_file"])], make_config(5));
    agent.inner.initialize("q", "s".to_string(), "q");
    agent.think();
    let cleared = match agent.inner.begin_acting(false) {
        ActStep::Run(cleared) => cleared,
        _ => panic!("Expected calls to be made"),
    };
    assert_eq!(cleared.calls().len(), 1);
    assert_eq!(cleared.calls()[0].name, "read_file");
    let results = vec![ToolResult::success(Json::text("found")).with_call_id("c1")];
    let made = agent.inner.calls_made(cleared, &results).unwrap();
    assert_eq!(made.calls().len(), 1);
    assert_eq!(made.results()[0].value.as_str(), Some("found"));
    match agent.inner.record_calls(made, 1, "Go on.") {
        TransitionEvent::ToolsExecuted(results) => {
            assert_eq!(results.len(), 1);
            assert!(results[0].success);
            assert_eq!(results[0].value.as_str(), Some("found"));
            assert_eq!(results[0].call_id.as_deref(), Some("c1"));
        }
        _ => panic!("Expected ToolsExecuted"),
    }
}

#[test]
fn only_a_failed_run_goes_on() {
    let mut agent = make_agent(vec![], make_config(5));
    agent.inner.session.stop_reason = Some(AgentStopReason::MaxSteps);
    assert!(!agent.inner.continue_execution());
    agent.inner.session.state = AgentState::Failed;
    assert!(agent.inner.continue_execution());
    assert_eq!(agent.inner.session.config.max_steps, 10);
    assert!(!agent.inner.continue_execution());
}

#[test]
fn a_refused_plan_makes_no_calls() {
    let mut config = make_config(5);
    config.require_plan_confirmation = true;
    let mut agent = make_agent(vec![asks_for(&["read_file", "list_files"])], config);
    agent.inner.initialize("q", "s".to_string(), "q");
    agent.think();
    let (planned, request) = match agent.inner.begin_acting(true) {
        ActStep::Ask(planned, request) => (planned, request),
        _ => panic!("Expected to be asked"),
    };
    assert_eq!(request.tool_calls, vec!["read_file", "list_files"]);
    assert_eq!((request.step_number, request.completed_steps), (2, 1));
    match agent.inner.answer_received(planned, ConfirmationResponse::Deny) {
        ActStep::Stop(TransitionEvent::UnrecoverableError(m), AgentEvent::Error { message }) => {
            assert_eq!(m, "User denied execution");
            assert_eq!(message, "Execution denied by user");
        }
        _ => panic!("Expected to stop"),
    }
    assert_eq!(agent.inner.session().state(), AgentState::Failed);
}

#[test]
fn a_plan_that_is_agreed_to_is_carried_out() {
    for response in [ConfirmationResponse::Approve, ConfirmationResponse::ApproveAll] {
        let again = matches!(response, ConfirmationResponse::Approve);
        let mut config = make_config(5);
        config.require_plan_confirmation = true;
        let mut agent = make_agent(vec![asks_for(&["read_file"])], config);
        agent.inner.initialize("q", "s".to_string(), "q");
        agent.think();
        let planned = match agent.inner.begin_acting(true) {
            ActStep::Ask(planned, _) => planned,
            _ => panic!("Expected to be asked"),
        };
        match agent.inner.answer_received(planned, response) {
            ActStep::Run(cleared) => assert_eq!(cleared.calls()[0].name, "read_file"),
            _ => panic!("Expected calls to be made"),
        }
        assert_eq!(agent.inner.session().config().require_plan_confirmation, again);
    }
}

#[test]
fn nobody_is_asked_where_nobody_answers() {
    let mut config = make_config(5);
    config.require_plan_confirmation = true;
    let mut agent = make_agent(vec![asks_for(&["read_file"])], config);
    agent.inner.initialize("q", "s".to_string(), "q");
    agent.think();
    assert!(matches!(agent.inner.begin_acting(false), ActStep::Run(_)));
}

#[test]
fn loops_matter_while_the_agent_thinks() {
    let mut agent = make_agent(vec![], make_config(5));
    assert!(agent.inner.looks_for_loops());
    agent.inner.session.thinking_phase = ThinkingPhase::Concluding;
    assert!(!agent.inner.looks_for_loops());
    agent.inner.session.thinking_phase = ThinkingPhase::Planning;
    agent.inner.session.state = AgentState::Acting;
    assert!(!agent.inner.looks_for_loops());
}

#[test]
fn missing_required_argument_produces_failed_tool_result() {
    let script = vec![asks_for(&["read_file"]), answer("Recovered from missing arg.")];
    let mut agent = make_agent(script, make_config(10));
    agent.strict = true;
    let response = agent.run("q");
    assert_eq!(response.answer, "Recovered from missing arg.");
    assert_eq!(acting(&response).len(), 1);
    let result = &response.steps[1].tool_results[0];
    assert!(!result.success);
    assert!(result.value.as_str().unwrap().contains("Missing required parameter: path"));
}
