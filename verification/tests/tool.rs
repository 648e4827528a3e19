use atlas::agent::json::{Json, JsonNumber};
use atlas::agent::protocol::{AgentError, AgentResult, ToolCall, ToolResult};
use atlas::agent::tool::{summarize_result, BuiltinTool};
use atlas::agent::tools::served::{
    GetFileStructureTool, GrepCodeTool, ListFilesTool, ReadFileTool, SearchCodeTool,
    SearchSymbolTool,
};
use atlas::agent::tools::{build_tool_definitions, find_tool, register_all_tools};

#[test]
fn test_register_all_tools() {
    let tools = register_all_tools();
    assert_eq!(tools.len(), 10);
    let names: Vec<String> = tools.iter().map(|t| t.definition().name).collect();
    assert!(names.contains(&"read_file".to_string()));
    assert!(names.contains(&"list_files".to_string()));
    assert!(names.contains(&"grep_code".to_string()));
    assert!(names.contains(&"get_file_structure".to_string()));
    assert!(names.contains(&"search_symbol".to_string()));
    assert!(names.contains(&"search_code".to_string()));
    assert!(names.contains(&"find_references".to_string()));
    assert!(names.contains(&"get_dependencies".to_string()));
    assert!(names.contains(&"compare_files".to_string()));
    assert!(names.contains(&"get_project_overview".to_string()));
}

#[test]
fn test_build_tool_definitions() {
    let tools = register_all_tools();
    let defs = build_tool_definitions(&tools);
    assert_eq!(defs.len(), 10);
    for def in &defs {
        assert!(!def.name.is_empty());
        assert!(!def.description.is_empty());
    }
}

#[test]
fn test_find_tool() {
    let tools = register_all_tools();
    assert!(find_tool(&tools, "read_file").is_some());
    assert!(find_tool(&tools, "nonexistent").is_none());
    assert_eq!(find_tool(&tools, "compare_files").unwrap().definition().name, "compare_files");
}

fn found(text: &str) -> AgentResult<ToolResult> {
    Ok(ToolResult::success(Json::text(text)))
}

fn refused(r: AgentResult<ToolResult>) -> String {
    match r {
        Err(AgentError::ToolError { tool_name, message }) => format!("{tool_name}: {message}"),
        _ => panic!("Expected ToolError"),
    }
}

#[test]
fn what_was_found_for_a_call_answers_it() {
    let call = ToolCall::new("t").with_argument("path", Json::text("a.rs"));
    assert_eq!(ReadFileTool.execute(&call, found("x")).unwrap().value.as_str(), Some("x"));
    assert_eq!(ListFilesTool.execute(&call, found("x")).unwrap().value.as_str(), Some("x"));
    assert_eq!(GetFileStructureTool.execute(&call, found("x")).unwrap().value.as_str(), Some("x"));
    let failed = ReadFileTool.execute(&call, Err(AgentError::Internal("gone".to_string())));
    assert!(matches!(failed, Err(AgentError::Internal(m)) if m == "gone"));
    let call = ToolCall::new("t").with_argument("pattern", Json::text("a+"));
    assert_eq!(GrepCodeTool.execute(&call, found("x")).unwrap().value.as_str(), Some("x"));
    let call = ToolCall::new("t").with_argument("symbol", Json::text("greet"));
    assert_eq!(SearchSymbolTool.execute(&call, found("x")).unwrap().value.as_str(), Some("x"));
    let call = ToolCall::new("t").with_argument("query", Json::text("greet function"));
    assert_eq!(SearchCodeTool.execute(&call, found("x")).unwrap().value.as_str(), Some("x"));
}

#[test]
fn a_call_without_what_its_tool_takes_is_refused() {
    let call = ToolCall::new("t");
    assert_eq!(
        refused(ReadFileTool.execute(&call, found("x"))),
        "read_file: Missing required parameter: path"
    );
    assert_eq!(
        refused(GrepCodeTool.execute(&call, found("x"))),
        "grep_code: Missing required parameter: pattern"
    );
    assert_eq!(
        refused(GetFileStructureTool.execute(&call, found("x"))),
        "get_file_structure: Missing required parameter: path"
    );
    assert_eq!(
        refused(SearchSymbolTool.execute(&call, found("x"))),
        "search_symbol: Missing required parameter: symbol"
    );
    assert_eq!(
        refused(SearchCodeTool.execute(&call, found("x"))),
        "search_code: Missing required parameter: query"
    );
    assert!(ListFilesTool.execute(&call, found("x")).is_ok());
}

#[test]
fn test_cache_key_deterministic() {
    let call1 = ToolCall::new("read_file")
        .with_argument("path", Json::text("a.rs"))
        .with_argument("offset", Json::natural(1));
    let call2 = ToolCall::new("read_file")
        .with_argument("offset", Json::natural(1))
        .with_argument("path", Json::text("a.rs"));
    assert_eq!(ReadFileTool.cache_key(&call1), ReadFileTool.cache_key(&call2));
    assert_eq!(ReadFileTool.cache_key(&call1), "read_file:offset=1,path=\"a.rs\"");
}

#[test]
fn test_summarize_result_default() {
    let ok = ToolResult::success(Json::text("hello"));
    assert_eq!(summarize_result(&ok).unwrap(), "hello");
    let err = ToolResult::error("bad");
    assert_eq!(summarize_result(&err).unwrap(), "Error: bad");
}

#[test]
fn test_summarize_result_truncation() {
    let ok = ToolResult::success(Json::text(&"x".repeat(600)));
    let summary = summarize_result(&ok).unwrap();
    assert!(summary.len() < 600);
    assert!(summary.ends_with("... (truncated)"));
}

#[test]
fn a_summary_is_not_cut_inside_a_character() {
    let ok = ToolResult::success(Json::text(&"\u{4f60}".repeat(300)));
    assert!(summarize_result(&ok).is_none());
}

#[test]
fn values_are_summed_up_as_json() {
    let ok = ToolResult::success(Json::Array(vec![
        Json::Null,
        Json::Bool(true),
        Json::Number(JsonNumber::Negative(-3)),
    ]));
    assert_eq!(summarize_result(&ok).unwrap(), "[null,true,-3]");
}

#[test]
fn test_validate_arguments_missing_required() {
    let call = ToolCall::new("read_file");
    match ReadFileTool.validate_arguments(&call) {
        Err(AgentError::ToolError { tool_name, message }) => {
            assert_eq!(tool_name, "read_file");
            assert_eq!(message, "Missing required parameter: path");
        }
        _ => panic!("Expected ToolError"),
    }
}

#[test]
fn test_validate_arguments_ok() {
    let call = ToolCall::new("read_file").with_argument("path", Json::text("test.rs"));
    assert!(ReadFileTool.validate_arguments(&call).is_ok());
}

#[test]
fn errors_are_lines_of_text() {
    assert_eq!(AgentError::tool_error("t", "m").to_text(), "Tool error [t]: m");
    assert_eq!(AgentError::Timeout(30).to_text(), "Timeout after 30s");
    assert_eq!(AgentError::Internal("m".into()).to_text(), "Internal error: m");
    assert_eq!(AgentError::LlmError("m".into()).to_text(), "LLM error: m");
    assert_eq!(AgentError::ConfigError("m".into()).to_text(), "Config error: m");
}
