use atlas::agent::json::Json;
use atlas::agent::protocol::{AgentError, AgentResult, ToolCall, ToolResult};
use atlas::agent::tool::BuiltinTool;
use atlas::agent::tools::edit_file::{EditFileTool, EditStep};
use atlas::agent::tools::files::FileAccess;

/// Edits a file that is held in memory, as the tool asks for it.
fn edit(call: &ToolCall, file: &mut FileAccess) -> AgentResult<ToolResult> {
    match EditFileTool.execute(call, file) {
        EditStep::Done(r) => r,
        EditStep::Write(e) => {
            *file = FileAccess::Text(e.content.clone());
            EditFileTool.finish(&e, None)
        }
    }
}

fn content(file: &FileAccess) -> &str {
    match file {
        FileAccess::Text(s) => s,
        _ => panic!("no text"),
    }
}

fn call(path: &str) -> ToolCall {
    ToolCall::new("edit_file").with_argument("path", Json::text(path))
}

#[test]
fn test_edit_file_find_replace() {
    let mut file = FileAccess::Text("hello world".to_string());
    let call = call("a.txt")
        .with_argument("find", Json::text("world"))
        .with_argument("replace", Json::text("rust"));
    let result = edit(&call, &mut file).unwrap();
    assert!(result.success);
    assert_eq!(content(&file), "hello rust");
}

#[test]
fn test_edit_file_find_not_found() {
    let mut file = FileAccess::Text("hello".to_string());
    let call = call("a.txt")
        .with_argument("find", Json::text("missing"))
        .with_argument("replace", Json::text("x"));
    let result = edit(&call, &mut file).unwrap();
    assert!(!result.success);
    assert_eq!(content(&file), "hello");
}

#[test]
fn test_edit_file_line_range_replace() {
    let mut file = FileAccess::Text("l1\nl2\nl3\nl4\nl5\n".to_string());
    let call = call("a.txt")
        .with_argument("offset", Json::natural(2))
        .with_argument("limit", Json::natural(2))
        .with_argument("content", Json::text("REPLACED"));
    let result = edit(&call, &mut file).unwrap();
    assert!(result.success);
    assert_eq!(content(&file), "l1\nREPLACED\nl4\nl5\n");
}

#[test]
fn test_edit_file_line_range_insert() {
    let mut file = FileAccess::Text("l1\nl2\n".to_string());
    let call = call("a.txt")
        .with_argument("offset", Json::natural(1))
        .with_argument("limit", Json::natural(0))
        .with_argument("content", Json::text("INSERTED"));
    let result = edit(&call, &mut file).unwrap();
    assert!(result.success);
    assert_eq!(content(&file), "INSERTED\nl1\nl2\n");
}

#[test]
fn test_edit_file_missing_file() {
    let call = call("nonexistent.txt")
        .with_argument("find", Json::text("x"))
        .with_argument("replace", Json::text("y"));
    let result = edit(&call, &mut FileAccess::NotAFile).unwrap();
    assert!(!result.success);
}

#[test]
fn test_edit_file_no_mode_specified() {
    let mut file = FileAccess::Text("x".to_string());
    let result = edit(&call("a.txt"), &mut file).unwrap();
    assert!(!result.success);
}

#[test]
fn test_edit_file_path_violation() {
    let call = call("../../out.txt")
        .with_argument("find", Json::text("x"))
        .with_argument("replace", Json::text("y"));
    assert!(edit(&call, &mut FileAccess::Outside).is_err());
}

#[test]
fn test_edit_file_not_cacheable() {
    assert!(!EditFileTool.is_cacheable());
}

#[test]
fn test_edit_file_definition() {
    let def = EditFileTool.definition();
    assert_eq!(def.name, "edit_file");
    assert_eq!(def.required_params(), vec!["path"]);
}

#[test]
fn only_the_first_occurrence_is_replaced() {
    let mut file = FileAccess::Text("aXbXc".to_string());
    let call = call("a.txt")
        .with_argument("find", Json::text("X"))
        .with_argument("replace", Json::text("--"));
    edit(&call, &mut file).unwrap();
    assert_eq!(content(&file), "a--bXc");
}

#[test]
fn replacing_by_itself_changes_nothing() {
    let mut file = FileAccess::Text("aXbXc".to_string());
    let call = call("a.txt")
        .with_argument("find", Json::text("bX"))
        .with_argument("replace", Json::text("bX"));
    edit(&call, &mut file).unwrap();
    assert_eq!(content(&file), "aXbXc");
}

#[test]
fn an_edit_that_cannot_be_written_fails() {
    let file = FileAccess::Text("x".to_string());
    let call = call("a.txt")
        .with_argument("find", Json::text("x"))
        .with_argument("replace", Json::text("y"));
    let e = match EditFileTool.execute(&call, &file) {
        EditStep::Write(e) => e,
        EditStep::Done(_) => panic!("nothing to write"),
    };
    match EditFileTool.finish(&e, Some("disk full".to_string())) {
        Err(AgentError::ToolError { tool_name, message }) => {
            assert_eq!(tool_name, "edit_file");
            assert!(message.contains("disk full"));
        }
        _ => panic!("Expected ToolError"),
    }
}
