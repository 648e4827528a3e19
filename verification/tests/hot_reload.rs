use atlas::agent::executor::{RuntimeToolRegistry, Start};
use atlas::agent::json::Json;
use atlas::agent::protocol::{
    format_result, validate_arguments, AgentError, AgentResult, ToolCall, ToolDefinition, ToolResult,
};
use atlas::agent::tool::{cache_key, BuiltinTool};
use atlas::agent::tools::files::CanonicalPaths;
use atlas::agent::types::ToolRetryConfig;

enum TestTool {
    Cold,
    ColdV2,
    Hot,
}

impl BuiltinTool for TestTool {
    fn definition(&self) -> ToolDefinition {
        match self {
            TestTool::Cold => ToolDefinition::new("cold_tool").description("Cold tool"),
            TestTool::ColdV2 => ToolDefinition::new("cold_tool").description("V2"),
            TestTool::Hot => ToolDefinition::new("hot_tool").description("Hot tool"),
        }
    }

    fn is_cacheable(&self) -> bool {
        !matches!(self, TestTool::Hot)
    }

    fn cache_key(&self, call: &ToolCall) -> String {
        cache_key(call)
    }

    fn validate_arguments(&self, call: &ToolCall) -> AgentResult<()> {
        validate_arguments(&self.definition(), call)
    }
}

fn execute(reg: &mut RuntimeToolRegistry<TestTool>, call: &ToolCall) -> AgentResult<ToolResult> {
    let found = CanonicalPaths { project: None, target: None, parent: None };
    match reg.begin(call, "/project", &found, 0) {
        Start::Done(r) => r,
        Start::Run(place) => {
            let value = match reg.tools.tools[place] {
                TestTool::Cold => "cold",
                TestTool::ColdV2 => "v2",
                TestTool::Hot => "hot",
            };
            let r = ToolResult::success(Json::text(value));
            reg.keep(place, call, &r, 0);
            Ok(r)
        }
    }
}

#[test]
fn runtime_registry_starts_empty() {
    let reg: RuntimeToolRegistry<TestTool> = RuntimeToolRegistry::new(ToolRetryConfig::default());
    assert!(reg.list_tools().is_empty());
    assert!(!reg.has_tool("cold_tool"));
}

#[test]
fn runtime_registry_with_defaults_loads_all() {
    let reg = RuntimeToolRegistry::with_defaults(ToolRetryConfig::default());
    assert!(reg.has_tool("read_file"));
    assert!(reg.has_tool("run_command"));
    assert!(reg.list_tools().len() >= 13);
}

#[test]
fn register_deregister_roundtrip() {
    let mut reg = RuntimeToolRegistry::new(ToolRetryConfig::default());
    reg.register(TestTool::Cold);
    assert!(reg.has_tool("cold_tool"));
    assert!(reg.deregister("cold_tool"));
    assert!(!reg.has_tool("cold_tool"));
    assert!(!reg.deregister("cold_tool"));
}

#[test]
fn register_replaces_existing_tool() {
    let mut reg = RuntimeToolRegistry::new(ToolRetryConfig::default());
    reg.register(TestTool::Cold);
    reg.register(TestTool::Hot);
    assert_eq!(reg.tool_names().len(), 2);
    reg.register(TestTool::ColdV2);
    assert_eq!(reg.tool_names().len(), 2);
    assert_eq!(reg.list_tools()[0].description, "V2");
}

#[test]
fn execute_unknown_tool_errors() {
    let mut reg = RuntimeToolRegistry::new(ToolRetryConfig::default());
    let result = execute(&mut reg, &ToolCall::new("nope"));
    assert!(matches!(result, Err(AgentError::ToolError { .. })));
}

#[test]
fn execute_hot_tool_works_and_not_cached() {
    let mut reg = RuntimeToolRegistry::new(ToolRetryConfig::default());
    reg.register(TestTool::Hot);
    let r = execute(&mut reg, &ToolCall::new("hot_tool")).unwrap();
    assert!(r.success);
    assert_eq!(r.value.as_str(), Some("hot"));
    assert!(reg.cache.is_empty());
}

#[test]
fn format_tool_prompt_reflects_dynamic_tools() {
    let mut reg = RuntimeToolRegistry::new(ToolRetryConfig::default());
    assert!(reg.format_tool_prompt().is_empty());
    reg.register(TestTool::Cold);
    assert!(reg.format_tool_prompt().contains("cold_tool"));
    reg.deregister("cold_tool");
    assert!(reg.format_tool_prompt().is_empty());
}

#[test]
fn execute_batch_handles_mixed() {
    let mut reg = RuntimeToolRegistry::new(ToolRetryConfig::default());
    reg.register(TestTool::Hot);
    let calls = vec![ToolCall::new("hot_tool"), ToolCall::new("nope")];
    let results: Vec<ToolResult> =
        calls.iter().map(|call| format_result(call, execute(&mut reg, call))).collect();
    assert_eq!(results.len(), 2);
    assert!(results[0].success);
    assert!(!results[1].success);
}

#[test]
fn runtime_registry_retries_whatever_may_go_away() {
    let reg: RuntimeToolRegistry<TestTool> = RuntimeToolRegistry::new(ToolRetryConfig {
        max_retries: 4,
        retry_on_timeout: false,
        retry_on_transient_error: false,
        backoff_ms: 7,
    });
    let rule = reg.retry_rule();
    assert!(rule.retry_on_timeout && rule.retry_on_transient_error);
    assert_eq!((rule.max_retries, rule.backoff_ms), (4, 7));
}

#[test]
fn a_kept_result_answers_the_same_call() {
    let mut reg = RuntimeToolRegistry::new(ToolRetryConfig::default());
    reg.register(TestTool::Cold);
    assert_eq!(execute(&mut reg, &ToolCall::new("cold_tool")).unwrap().value.as_str(), Some("cold"));
    reg.register(TestTool::ColdV2);
    assert_eq!(execute(&mut reg, &ToolCall::new("cold_tool")).unwrap().value.as_str(), Some("cold"));
}
