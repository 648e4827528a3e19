use atlas::agent::executor::{
    attempt_result, is_retried, next_step, Attempt, BuiltinToolRegistry, NextStep, Start,
};
use atlas::agent::json::Json;
use atlas::agent::protocol::{
    format_result, validate_arguments, AgentError, AgentResult, ToolCall, ToolDefinition,
    ToolParameter, ToolResult,
};
use atlas::agent::tool::{cache_key, BuiltinTool};
use atlas::agent::tools::files::CanonicalPaths;
use atlas::agent::types::ToolRetryConfig;

enum TestTool {
    Success,
    Fail,
    Panic,
    Slow,
    Transient { fail_times: usize },
    Path,
}

impl BuiltinTool for TestTool {
    fn definition(&self) -> ToolDefinition {
        match self {
            TestTool::Success => ToolDefinition::new("success_tool")
                .description("Always succeeds")
                .parameter(ToolParameter::string("input").description("Input value").required(true)),
            TestTool::Fail => ToolDefinition::new("fail_tool").description("Always fails"),
            TestTool::Panic => ToolDefinition::new("panic_tool").description("Always panics"),
            TestTool::Slow => ToolDefinition::new("slow_tool").description("Takes a long time"),
            TestTool::Transient { .. } => {
                ToolDefinition::new("transient_tool").description("Fails N times then succeeds")
            }
            TestTool::Path => ToolDefinition::new("path_tool")
                .description("A tool that takes a path")
                .parameter(ToolParameter::string("path").description("File path").required(true)),
        }
    }

    fn is_cacheable(&self) -> bool {
        true
    }

    fn cache_key(&self, call: &ToolCall) -> String {
        cache_key(call)
    }

    fn validate_arguments(&self, call: &ToolCall) -> AgentResult<()> {
        validate_arguments(&self.definition(), call)
    }
}

impl TestTool {
    fn attempt(&self, call: &ToolCall, count: usize) -> Attempt {
        match self {
            TestTool::Success => {
                let input = call.get_string("input").unwrap_or("default");
                Attempt::Finished(Ok(ToolResult::success(Json::text(&format!("ok: {}", input)))))
            }
            TestTool::Fail => {
                Attempt::Finished(Err(AgentError::tool_error("fail_tool", "intentional failure")))
            }
            TestTool::Panic => Attempt::Panicked,
            TestTool::Slow => Attempt::TimedOut(0),
            TestTool::Transient { fail_times } => {
                if count < *fail_times {
                    Attempt::Finished(Err(AgentError::Internal(format!(
                        "transient error (attempt {})",
                        count + 1
                    ))))
                } else {
                    Attempt::Finished(Ok(ToolResult::success(Json::text("recovered"))))
                }
            }
            TestTool::Path => {
                let path = call.get_string("path").unwrap_or("");
                Attempt::Finished(Ok(ToolResult::success(Json::text(&format!("read: {}", path)))))
            }
        }
    }
}

fn nowhere() -> CanonicalPaths {
    CanonicalPaths { project: Some("/project".to_string()), target: None, parent: None }
}

fn run(
    reg: &mut BuiltinToolRegistry<TestTool>,
    call: &ToolCall,
    found: &CanonicalPaths,
) -> (AgentResult<ToolResult>, usize) {
    let place = match reg.begin(call, "/project", found, 0) {
        Start::Done(r) => return (r, 0),
        Start::Run(place) => place,
    };
    let mut attempts = 0;
    loop {
        let attempt = reg.tools.tools[place].attempt(call, attempts);
        let result = attempt_result(&call.name, attempt);
        match next_step(&reg.retry_config, attempts, result) {
            NextStep::Return(result) => {
                if let Ok(r) = &result {
                    reg.keep(place, call, r, 0);
                }
                return (result, attempts + 1);
            }
            NextStep::RetryAfter(ms) => {
                attempts += 1;
                assert_eq!(ms, reg.retry_config.backoff_ms * attempts as u64);
            }
        }
    }
}

fn execute(reg: &mut BuiltinToolRegistry<TestTool>, call: &ToolCall) -> AgentResult<ToolResult> {
    run(reg, call, &nowhere()).0
}

fn make_test_registry() -> BuiltinToolRegistry<TestTool> {
    let mut reg = BuiltinToolRegistry::new(ToolRetryConfig {
        max_retries: 0,
        retry_on_timeout: false,
        retry_on_transient_error: false,
        backoff_ms: 10,
    });
    reg.register(TestTool::Success);
    reg.register(TestTool::Fail);
    reg.register(TestTool::Panic);
    reg.register(TestTool::Slow);
    reg.register(TestTool::Path);
    reg
}

#[test]
fn test_execute_normal() {
    let mut reg = make_test_registry();
    let call = ToolCall::new("success_tool").with_argument("input", Json::text("hello"));
    let result = execute(&mut reg, &call).unwrap();
    assert!(result.success);
    assert_eq!(result.value.as_str(), Some("ok: hello"));
}

#[test]
fn test_execute_unknown_tool() {
    let mut reg = make_test_registry();
    match execute(&mut reg, &ToolCall::new("nonexistent_tool")) {
        Err(AgentError::ToolError { tool_name, message }) => {
            assert_eq!(tool_name, "nonexistent_tool");
            assert!(message.contains("Unknown tool"));
        }
        _ => panic!("Expected ToolError"),
    }
}

#[test]
fn test_execute_validation_failure() {
    let mut reg = make_test_registry();
    match execute(&mut reg, &ToolCall::new("success_tool")) {
        Err(AgentError::ToolError { message, .. }) => {
            assert!(message.contains("Missing required parameter"));
        }
        _ => panic!("Expected ToolError"),
    }
}

#[test]
fn test_execute_path_violation() {
    let mut reg = make_test_registry();
    let call =
        ToolCall::new("path_tool").with_argument("path", Json::text("../../../../etc/passwd"));
    let found = CanonicalPaths {
        project: Some("/project".to_string()),
        target: Some("/etc/passwd".to_string()),
        parent: None,
    };
    match run(&mut reg, &call, &found).0 {
        Err(AgentError::ToolError { message, .. }) => {
            assert!(message.contains("outside the project directory"));
        }
        _ => panic!("Expected ToolError for path violation"),
    }
}

#[test]
fn test_execute_timeout() {
    let mut reg = BuiltinToolRegistry::new(ToolRetryConfig {
        max_retries: 0,
        retry_on_timeout: false,
        retry_on_transient_error: false,
        backoff_ms: 10,
    });
    reg.register(TestTool::Slow);
    match execute(&mut reg, &ToolCall::new("slow_tool")) {
        Err(AgentError::Timeout(_)) => {}
        _ => panic!("Expected Timeout"),
    }
}

#[test]
fn test_execute_error() {
    let mut reg = make_test_registry();
    match execute(&mut reg, &ToolCall::new("fail_tool")) {
        Err(AgentError::ToolError { tool_name, message }) => {
            assert_eq!(tool_name, "fail_tool");
            assert!(message.contains("intentional failure"));
        }
        _ => panic!("Expected ToolError"),
    }
}

#[test]
fn test_execute_panic_captured() {
    let mut reg = make_test_registry();
    match execute(&mut reg, &ToolCall::new("panic_tool")) {
        Err(AgentError::Internal(msg)) => assert!(msg.contains("panicked")),
        _ => panic!("Expected Internal error for panic"),
    }
}

#[test]
fn test_retry_mechanism() {
    let mut reg = BuiltinToolRegistry::new(ToolRetryConfig {
        max_retries: 3,
        retry_on_timeout: true,
        retry_on_transient_error: true,
        backoff_ms: 10,
    });
    reg.register(TestTool::Transient { fail_times: 2 });
    let (result, attempts) = run(&mut reg, &ToolCall::new("transient_tool"), &nowhere());
    let result = result.unwrap();
    assert!(result.success);
    assert_eq!(result.value.as_str(), Some("recovered"));
    assert_eq!(attempts, 3);
}

#[test]
fn test_retry_exhausted() {
    let mut reg = BuiltinToolRegistry::new(ToolRetryConfig {
        max_retries: 1,
        retry_on_timeout: false,
        retry_on_transient_error: true,
        backoff_ms: 10,
    });
    reg.register(TestTool::Transient { fail_times: 5 });
    let (result, attempts) = run(&mut reg, &ToolCall::new("transient_tool"), &nowhere());
    assert!(result.is_err());
    assert_eq!(attempts, 2);
}

#[test]
fn executor_test_cache_hit() {
    let mut reg = make_test_registry();
    let call = ToolCall::new("success_tool").with_argument("input", Json::text("cached"));
    let (r1, first) = run(&mut reg, &call, &nowhere());
    let (r2, second) = run(&mut reg, &call, &nowhere());
    assert_eq!(r1.unwrap().value.as_str(), r2.unwrap().value.as_str());
    assert_eq!((first, second), (1, 0));
}

#[test]
fn test_execute_batch() {
    let mut reg = make_test_registry();
    let calls = vec![
        ToolCall::new("success_tool").with_argument("input", Json::text("a")),
        ToolCall::new("fail_tool"),
        ToolCall::new("unknown"),
    ];
    let results: Vec<ToolResult> =
        calls.iter().map(|call| format_result(call, execute(&mut reg, call))).collect();
    assert_eq!(results.len(), 3);
    assert!(results[0].success);
    assert!(!results[1].success);
    assert!(!results[2].success);
}

#[test]
fn test_list_tools() {
    let reg = make_test_registry();
    let defs = reg.list_tools();
    assert_eq!(defs.len(), 5);
    let names: Vec<&str> = defs.iter().map(|d| d.name.as_str()).collect();
    assert!(names.contains(&"success_tool"));
    assert!(names.contains(&"fail_tool"));
}

#[test]
fn test_has_tool() {
    let reg = make_test_registry();
    assert!(reg.has_tool("success_tool"));
    assert!(reg.has_tool("fail_tool"));
    assert!(!reg.has_tool("nonexistent"));
}

#[test]
fn test_format_tool_prompt() {
    let reg = make_test_registry();
    let prompt = reg.format_tool_prompt();
    assert!(prompt.contains("Available tools"));
    assert!(prompt.contains("success_tool"));
    assert!(prompt.contains("fail_tool"));
}

#[test]
fn test_register_defaults() {
    let mut reg = BuiltinToolRegistry::new(ToolRetryConfig::default());
    reg.register_defaults();
    assert_eq!(reg.list_tools().len(), 13);
    assert!(reg.has_tool("read_file"));
    assert!(reg.has_tool("list_files"));
    assert!(reg.has_tool("grep_code"));
    assert!(reg.has_tool("get_file_structure"));
    assert!(reg.has_tool("search_symbol"));
    assert!(reg.has_tool("search_code"));
    assert!(reg.has_tool("find_references"));
    assert!(reg.has_tool("get_dependencies"));
    assert!(reg.has_tool("compare_files"));
    assert!(reg.has_tool("get_project_overview"));
    assert!(reg.has_tool("write_file"));
    assert!(reg.has_tool("edit_file"));
    assert!(reg.has_tool("run_command"));
}

#[test]
fn only_a_retry_has_to_be_waited_for() {
    let config = ToolRetryConfig {
        max_retries: 1,
        retry_on_timeout: true,
        retry_on_transient_error: false,
        backoff_ms: u64::MAX,
    };
    let timeout = || -> AgentResult<ToolResult> { Err(AgentError::Timeout(1)) };
    assert!(is_retried(&config, 0, &timeout()));
    assert!(!is_retried(&config, 1, &timeout()));
    assert!(!is_retried(&config, 0, &Err(AgentError::Internal("x".to_string()))));
    assert!(!is_retried(&config, 0, &Ok(ToolResult::success(Json::Null))));
    assert!(matches!(next_step(&config, 0, timeout()), NextStep::RetryAfter(u64::MAX)));
    assert!(matches!(
        next_step(&config, 1, timeout()),
        NextStep::Return(Err(AgentError::Timeout(1)))
    ));
}

#[test]
fn test_empty_registry_format_prompt() {
    let reg: BuiltinToolRegistry<TestTool> = BuiltinToolRegistry::new(ToolRetryConfig::default());
    assert!(reg.format_tool_prompt().is_empty());
}

#[test]
fn test_format_result_error() {
    let mut call = ToolCall::new("test");
    call.id = Some("call_123".into());
    let err = Err(AgentError::ToolError { tool_name: "test".into(), message: "bad".into() });
    let result = format_result(&call, err);
    assert!(!result.success);
    assert_eq!(result.call_id.as_deref(), Some("call_123"));
}

#[test]
fn a_lost_thread_is_an_internal_error() {
    match attempt_result("x", Attempt::Disconnected) {
        Err(AgentError::Internal(m)) => assert_eq!(m, "Tool execution thread disconnected"),
        _ => panic!("Expected Internal error"),
    }
}

#[test]
fn a_failure_of_the_tool_itself_is_not_tried_again() {
    let config = ToolRetryConfig {
        max_retries: 9,
        retry_on_timeout: true,
        retry_on_transient_error: true,
        backoff_ms: 1,
    };
    let failure = Err(AgentError::tool_error("t", "m"));
    assert!(matches!(next_step(&config, 0, failure), NextStep::Return(Err(_))));
    let lost = Err(AgentError::Timeout(3));
    assert!(matches!(next_step(&config, 1, lost), NextStep::RetryAfter(2)));
}

struct OwnRules;

impl BuiltinTool for OwnRules {
    fn definition(&self) -> ToolDefinition {
        ToolDefinition::new("own").parameter(ToolParameter::string("must").required(true))
    }

    fn is_cacheable(&self) -> bool {
        true
    }

    fn cache_key(&self, _call: &ToolCall) -> String {
        "the one key".to_string()
    }

    fn validate_arguments(&self, call: &ToolCall) -> AgentResult<()> {
        if call.arguments.contains_key("bad") {
            Err(AgentError::ConfigError("bad is bad".to_string()))
        } else {
            Ok(())
        }
    }
}

#[test]
fn a_tool_may_have_a_key_and_a_check_of_its_own() {
    let mut reg = BuiltinToolRegistry::new(ToolRetryConfig {
        max_retries: 0,
        retry_on_timeout: false,
        retry_on_transient_error: false,
        backoff_ms: 10,
    });
    reg.register(OwnRules);
    let found = nowhere();
    let bad = ToolCall::new("own").with_argument("bad", Json::text("x"));
    match reg.begin(&bad, "/project", &found, 0) {
        Start::Done(Err(AgentError::ConfigError(m))) => assert_eq!(m, "bad is bad"),
        _ => panic!("Expected ConfigError"),
    }
    let first = ToolCall::new("own").with_argument("n", Json::text("1"));
    let second = ToolCall::new("own").with_argument("n", Json::text("2"));
    match reg.begin(&first, "/project", &found, 0) {
        Start::Run(place) => {
            reg.keep(place, &first, &ToolResult::success(Json::text("kept")), 0);
        }
        Start::Done(_) => panic!("Expected a run"),
    }
    match reg.begin(&second, "/project", &found, 0) {
        Start::Done(Ok(r)) => assert_eq!(r.value.as_str(), Some("kept")),
        _ => panic!("Expected the kept result"),
    }
}
