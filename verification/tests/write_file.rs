use atlas::agent::json::Json;
use atlas::agent::protocol::{AgentError, AgentResult, ToolCall, ToolResult};
use atlas::agent::tool::BuiltinTool;
use atlas::agent::tools::write_file::{WriteFailure, WriteFileTool, WritePlace, WriteStep, Writing};

fn make_call(path: &str, content: &str) -> ToolCall {
    ToolCall::new("write_file")
        .with_argument("path", Json::text(path))
        .with_argument("content", Json::text(content))
}

/// Writes to a file that is held in memory, as the tool asks for it.
fn write(
    call: &ToolCall,
    place: &WritePlace,
    file: &mut Option<String>,
) -> (AgentResult<ToolResult>, bool) {
    match WriteFileTool.execute(call, place) {
        WriteStep::Done(r) => (r, false),
        WriteStep::Write(w) => {
            *file = Some(w.content.clone());
            (WriteFileTool.finish(&w, Ok(true)), w.create_directory)
        }
    }
}

#[test]
fn test_write_file_creates_new() {
    let mut file = None;
    let call = make_call("hello.txt", "line1\nline2\n");
    let result = write(&call, &WritePlace::InDirectory, &mut file).0.unwrap();
    assert!(result.success);
    assert_eq!(file.as_deref(), Some("line1\nline2\n"));
    assert_eq!(result.value.field("bytes_written").unwrap().as_u64().unwrap(), 12);
    assert_eq!(result.value.field("lines_written").unwrap().as_u64().unwrap(), 2);
}

#[test]
fn test_write_file_creates_parent_dirs() {
    let mut file = None;
    let call = make_call("sub/dir/hello.txt", "nested");
    let (result, created) = write(&call, &WritePlace::Missing("sub/dir".to_string()), &mut file);
    assert!(result.unwrap().success);
    assert!(created);
    assert!(file.is_some());
}

#[test]
fn test_write_file_overwrites_existing() {
    let mut file = Some("old".to_string());
    let result = write(&make_call("a.txt", "new"), &WritePlace::InDirectory, &mut file).0.unwrap();
    assert!(result.success);
    assert_eq!(file.as_deref(), Some("new"));
}

#[test]
fn test_write_file_no_create_dirs_when_disabled() {
    let mut file = None;
    let call = make_call("missing_dir/x.txt", "x").with_argument("create_dirs", Json::Bool(false));
    let place = WritePlace::Missing("missing_dir".to_string());
    let result = write(&call, &place, &mut file).0.unwrap();
    assert!(!result.success);
    assert!(result.value.as_str().unwrap().contains("Parent directory"));
    assert!(file.is_none());
}

#[test]
fn test_write_file_path_violation() {
    let mut file = None;
    let call = make_call("../../../etc/exploit", "x");
    assert!(write(&call, &WritePlace::Outside, &mut file).0.is_err());
    assert!(file.is_none());
}

#[test]
fn test_write_file_missing_params() {
    let mut file = None;
    let call = ToolCall::new("write_file");
    assert!(write(&call, &WritePlace::InDirectory, &mut file).0.is_err());
}

#[test]
fn test_write_file_not_cacheable() {
    assert!(!WriteFileTool.is_cacheable());
}

#[test]
fn test_write_file_definition() {
    let def = WriteFileTool.definition();
    assert_eq!(def.name, "write_file");
    assert_eq!(def.required_params(), vec!["path", "content"]);
}

#[test]
fn each_way_to_fail_has_its_message() {
    let w = Writing {
        path: "p".to_string(),
        content: "c".to_string(),
        create_directory: false,
    };
    for (failure, expected) in [
        (
            WriteFailure::Directory("e".into()),
            "Failed to create parent directories for 'p': e",
        ),
        (WriteFailure::TempFile("e".into()), "Failed to create temp file for 'p': e"),
        (WriteFailure::Content("e".into()), "Failed to write content to 'p': e"),
        (WriteFailure::Rename("e".into()), "Failed to atomic-rename temp file to 'p': e"),
    ] {
        match WriteFileTool.finish(&w, Err(failure)) {
            Err(AgentError::ToolError { tool_name, message }) => {
                assert_eq!(tool_name, "write_file");
                assert_eq!(message, expected);
            }
            _ => panic!("Expected ToolError"),
        }
    }
}
