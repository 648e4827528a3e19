use atlas::agent::json::Json;
use atlas::agent::protocol::{AgentError, ToolCall};
use atlas::agent::scenario::{
    strip_projects, BuiltinScenario, DocsTarget, DocumentScenario, DocumentTool,
    GenericTextScenario,
    ListDocsTool, ReadTextFileTool, Scenario, ScenarioRegistry, SearchTextTool, TextFile,
};
use atlas::agent::tool::BuiltinTool;
use atlas::agent::tools::files::FileAccess;

#[test]
fn document_scenario_builds_tools() {
    let s = DocumentScenario::markdown();
    let tools = s.build_tools();
    assert_eq!(tools.len(), 3);
    let names: Vec<String> = tools.iter().map(|t| t.definition().name).collect();
    assert!(names.contains(&"read_text_file".to_string()));
    assert!(names.contains(&"list_docs".to_string()));
    assert!(names.contains(&"search_text".to_string()));
}

#[test]
fn document_scenario_has_modifier() {
    let s = DocumentScenario::markdown();
    assert!(s.system_prompt_modifier().is_some());
}

#[test]
fn generic_text_scenario_only_two_tools() {
    let s = GenericTextScenario;
    assert_eq!(s.build_tools().len(), 2);
    assert!(s.system_prompt_modifier().is_none());
}

#[test]
fn read_text_file_returns_content() {
    let call = ToolCall::new("read_text_file").with_argument("path", Json::text("doc.md"));
    let file = FileAccess::Text("# Title\nbody".to_string());
    let r = ReadTextFileTool.execute(&call, &file).unwrap();
    assert!(r.success);
    assert!(r.value.field("content").unwrap().as_str().unwrap().contains("Title"));
    assert_eq!(r.value.field("lines").unwrap().as_u64().unwrap(), 2);
}

#[test]
fn read_text_file_fails() {
    let call = ToolCall::new("read_text_file").with_argument("path", Json::text("doc.md"));
    let r = ReadTextFileTool.execute(&call, &FileAccess::NotAFile).unwrap();
    assert!(!r.success);
    assert_eq!(r.value.as_str(), Some("Not a file: doc.md"));
    match ReadTextFileTool.execute(&call, &FileAccess::Unreadable("gone".to_string())) {
        Err(AgentError::ToolError { tool_name, message }) => {
            assert_eq!(tool_name, "read_text_file");
            assert_eq!(message, "Failed to read 'doc.md': gone");
        }
        _ => panic!("Expected ToolError"),
    }
    match ReadTextFileTool.execute(&call, &FileAccess::Outside) {
        Err(AgentError::ToolError { tool_name, .. }) => assert_eq!(tool_name, "path_check"),
        _ => panic!("Expected ToolError"),
    }
    match ReadTextFileTool.execute(&ToolCall::new("read_text_file"), &FileAccess::NotAFile) {
        Err(AgentError::ToolError { message, .. }) => {
            assert_eq!(message, "Missing required parameter: path");
        }
        _ => panic!("Expected ToolError"),
    }
}

#[test]
fn list_docs_filters_extensions() {
    let call = ToolCall::new("list_docs").with_argument("path", Json::text("."));
    let found = DocsTarget::Files(vec![
        "/tmp/p/b.txt".to_string(),
        "/tmp/p/ignore.rs".to_string(),
        "/tmp/p/a.md".to_string(),
        "/tmp/p/README".to_string(),
        "/tmp/p/sub/C.MD".to_string(),
    ]);
    let tool = ListDocsTool { extensions: vec!["md".into(), "txt".into()] };
    let r = tool.execute(&call, "/tmp/p", &None, &found).unwrap();
    assert!(r.success);
    let files: Vec<String> = r
        .value
        .field("files")
        .unwrap()
        .as_array()
        .unwrap()
        .iter()
        .map(|v| v.as_str().unwrap().to_string())
        .collect();
    assert!(files.contains(&"a.md".to_string()));
    assert!(files.contains(&"b.txt".to_string()));
    assert!(!files.iter().any(|f| f.ends_with(".rs")));
    assert_eq!(files, vec!["a.md", "b.txt", "sub/C.MD"]);
    assert_eq!(r.value.field("count").unwrap().as_u64(), Some(3));
}

#[test]
fn list_docs_needs_a_directory() {
    let tool = ListDocsTool { extensions: vec![] };
    let call = ToolCall::new("list_docs");
    let r = tool.execute(&call, "/p", &None, &DocsTarget::NotADirectory).unwrap();
    assert_eq!(r.value.as_str(), Some("Not a directory: ."));
    assert!(tool.execute(&call, "/p", &None, &DocsTarget::Outside).is_err());
    assert_eq!(tool.max_depth(&call), 10);
    let deep = ToolCall::new("list_docs").with_argument("max_depth", Json::integer(-4));
    assert_eq!(tool.max_depth(&deep), 1);
}

#[test]
fn search_text_finds_matches() {
    let call = ToolCall::new("search_text").with_argument("needle", Json::text("hello"));
    let files = vec![
        TextFile {
            path: "/p/a.md".to_string(),
            content: Some("hello world\nfoo bar\nhello again".to_string()),
        },
        TextFile { path: "/p/b.bin".to_string(), content: None },
    ];
    let r = SearchTextTool.execute(&call, "/p", &None, &files).unwrap();
    assert!(r.success);
    let matches = r.value.field("matches").unwrap().as_array().unwrap();
    assert_eq!(matches.len(), 2);
    assert_eq!(matches[0].field("line").unwrap().as_u64().unwrap(), 1);
    assert_eq!(matches[1].field("line").unwrap().as_u64().unwrap(), 3);
    assert_eq!(matches[1].field("path").unwrap().as_str(), Some("a.md"));
    assert_eq!(r.value.field("truncated").unwrap().as_bool(), Some(false));
}

#[test]
fn search_text_stops_at_its_limit() {
    let call = ToolCall::new("search_text")
        .with_argument("needle", Json::text("x"))
        .with_argument("limit", Json::natural(2));
    let line = "x".repeat(300);
    let content = Some(format!("{}\n{}\n{}", line, line, line));
    let files = vec![TextFile { path: "/q/a".to_string(), content }];
    let r = SearchTextTool.execute(&call, "/p", &None, &files).unwrap();
    let matches = r.value.field("matches").unwrap().as_array().unwrap();
    assert_eq!(matches.len(), 2);
    assert_eq!(matches[0].field("path").unwrap().as_str(), Some("/q/a"));
    assert_eq!(matches[0].field("text").unwrap().as_str().unwrap(), format!("{}...", "x".repeat(200)));
    assert_eq!(r.value.field("truncated").unwrap().as_bool(), Some(true));
}

#[test]
fn paths_are_shown_as_they_lie_in_the_project() {
    let canonical = Some("/real/p".to_string());
    assert_eq!(strip_projects("/p/a/b", "/p", &canonical).as_deref(), Some("a/b"));
    assert_eq!(strip_projects("/real/p/a", "/p", &canonical).as_deref(), Some("a"));
    assert!(strip_projects("/other/a", "/p", &canonical).is_none());
    assert!(strip_projects("/real/p/a", "/p", &None).is_none());
}

#[test]
fn scenario_registry_defaults() {
    let reg = ScenarioRegistry::with_defaults();
    let names = reg.names();
    assert!(names.contains(&"documents".to_string()));
    assert!(names.contains(&"generic-text".to_string()));
    assert!(reg.get("documents").is_some());
    assert!(reg.get("unknown").is_none());
}

#[test]
fn scenario_registry_default_impl_uses_with_defaults() {
    let reg = ScenarioRegistry::default();
    assert!(!reg.names().is_empty());
}

#[test]
fn a_registered_scenario_is_found() {
    let mut reg = ScenarioRegistry::new();
    reg.register(BuiltinScenario::GenericText(GenericTextScenario));
    let found = reg.get("generic-text").unwrap();
    assert_eq!(found.name(), "generic-text");
    assert_eq!(
        found.description(),
        "A generic text scenario that exposes only read-only file tools."
    );
}

#[test]
fn the_default_documents_are_markdown_and_text() {
    for reg in [ScenarioRegistry::with_defaults(), ScenarioRegistry::default()] {
        assert_eq!(reg.names(), vec!["documents", "generic-text"]);
        let documents = reg.get("documents").unwrap();
        match documents {
            BuiltinScenario::Documents(d) => assert_eq!(d.extensions, vec!["md", "markdown", "txt"]),
            BuiltinScenario::GenericText(_) => panic!("Expected documents"),
        }
        let tools = documents.build_tools();
        assert_eq!(tools.len(), 3);
        match &tools[1] {
            DocumentTool::ListDocs(t) => assert_eq!(t.extensions, vec!["md", "markdown", "txt"]),
            _ => panic!("Expected list_docs"),
        }
        assert_eq!(reg.get("generic-text").unwrap().build_tools().len(), 2);
    }
}
