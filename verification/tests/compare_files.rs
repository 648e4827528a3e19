use atlas::agent::json::Json;
use atlas::agent::protocol::{AgentError, AgentResult, ToolCall, ToolResult};
use atlas::agent::tool::BuiltinTool;
use atlas::agent::tools::compare_files::{
    apply_context_filter, compute_diff, CompareFilesTool, DiffBlock, DiffKind,
};
use atlas::agent::tools::files::FileAccess;

fn call() -> ToolCall {
    ToolCall::new("compare_files")
        .with_argument("path_a", Json::text("a.txt"))
        .with_argument("path_b", Json::text("b.txt"))
}

fn text(s: &str) -> FileAccess {
    FileAccess::Text(s.to_string())
}

fn compare(a: &str, b: &str) -> AgentResult<ToolResult> {
    CompareFilesTool.execute(&call(), &text(a), &text(b))
}

fn count(r: &ToolResult, key: &str) -> u64 {
    r.value.field(key).unwrap().as_u64().unwrap()
}

fn lines(v: &[&str]) -> Vec<String> {
    v.iter().map(|s| s.to_string()).collect()
}

#[test]
fn test_compare_identical_files() {
    let result = compare("line1\nline2\nline3\n", "line1\nline2\nline3\n").unwrap();
    assert!(result.success);
    assert!(result.value.field("identical").unwrap().as_bool().unwrap());
    assert_eq!(count(&result, "blocks_added"), 0);
    assert_eq!(count(&result, "blocks_removed"), 0);
}

#[test]
fn test_compare_with_additions() {
    let result = compare("line1\nline2\n", "line1\nline2\nline3\n").unwrap();
    assert!(result.success);
    assert!(!result.value.field("identical").unwrap().as_bool().unwrap());
    assert!(count(&result, "blocks_added") >= 1);
}

#[test]
fn test_compare_with_removals() {
    let result = compare("line1\nline2\nline3\n", "line1\nline3\n").unwrap();
    assert!(result.success);
    assert!(count(&result, "blocks_removed") >= 1);
}

#[test]
fn test_compare_missing_file() {
    let result =
        CompareFilesTool.execute(&call(), &text("content"), &FileAccess::NotAFile).unwrap();
    assert!(!result.success);
    assert_eq!(result.value.as_str(), Some("Not a file: b.txt"));
}

#[test]
fn test_compare_missing_params() {
    let call = ToolCall::new("compare_files").with_argument("path_a", Json::text("a.txt"));
    assert!(CompareFilesTool.execute(&call, &text(""), &text("")).is_err());
}

#[test]
fn test_compare_definition() {
    let def = CompareFilesTool.definition();
    assert_eq!(def.name, "compare_files");
    assert_eq!(def.required_params(), vec!["path_a", "path_b"]);
}

#[test]
fn test_compare_summarize_identical() {
    let result = ToolResult::success(Json::Object(vec![
        ("identical".to_string(), Json::Bool(true)),
        ("blocks_added".to_string(), Json::natural(0)),
        ("blocks_removed".to_string(), Json::natural(0)),
    ]));
    assert_eq!(CompareFilesTool.summarize_result(&result), "Files are identical");
}

#[test]
fn compare_outside_of_the_project() {
    match CompareFilesTool.execute(&call(), &FileAccess::Outside, &text("")) {
        Err(AgentError::ToolError { tool_name, message }) => {
            assert_eq!(tool_name, "path_check");
            assert_eq!(message, "Path 'a.txt' is outside the project directory");
        }
        _ => panic!("Expected ToolError"),
    }
}

#[test]
fn a_diff_is_as_short_as_can_be() {
    let diff = compute_diff(&lines(&["a", "b", "c", "d"]), &lines(&["a", "c", "x", "d"]), 3);
    let kinds: Vec<(&str, Vec<String>)> =
        diff.blocks.iter().map(|b| (b.kind.as_str(), b.lines.clone())).collect();
    assert_eq!(
        kinds,
        vec![
            ("context", lines(&["a"])),
            ("removed", lines(&["b"])),
            ("context", lines(&["c"])),
            ("added", lines(&["x"])),
            ("context", lines(&["d"])),
        ]
    );
    assert_eq!((diff.blocks_added, diff.blocks_removed), (1, 1));
}

#[test]
fn identical_texts_show_nothing() {
    let diff = compute_diff(&lines(&["a", "b"]), &lines(&["a", "b"]), 3);
    assert!(diff.blocks.iter().all(|b| b.kind == DiffKind::Context));
    assert_eq!((diff.blocks_added, diff.blocks_removed), (0, 0));
}

fn block(kind: DiffKind, a: usize, b: usize, v: &[&str]) -> DiffBlock {
    DiffBlock { kind, line_a_start: a, line_b_start: b, count: v.len(), lines: lines(v) }
}

type Shown = (&'static str, usize, usize, usize, Vec<String>);

fn shown(blocks: &[DiffBlock]) -> Vec<Shown> {
    blocks
        .iter()
        .map(|b| (b.kind.as_str(), b.line_a_start, b.line_b_start, b.count, b.lines.clone()))
        .collect()
}

#[test]
fn context_before_a_change_keeps_its_last_lines() {
    let blocks = vec![
        block(DiffKind::Context, 1, 1, &["1", "2", "3", "4"]),
        block(DiffKind::Added, 0, 5, &["X"]),
    ];
    assert_eq!(
        shown(&apply_context_filter(blocks, 1)),
        vec![("context", 4, 4, 1, lines(&["4"])), ("added", 0, 5, 1, lines(&["X"]))]
    );
}

#[test]
fn context_behind_a_change_keeps_its_first_lines() {
    let blocks = vec![
        block(DiffKind::Removed, 1, 0, &["X"]),
        block(DiffKind::Context, 2, 1, &["1", "2", "3", "4"]),
    ];
    assert_eq!(
        shown(&apply_context_filter(blocks, 2)),
        vec![("removed", 1, 0, 1, lines(&["X"])), ("context", 2, 1, 2, lines(&["1", "2"]))]
    );
}

#[test]
fn context_between_two_changes_keeps_both_ends() {
    let between = |v: &[&str]| {
        vec![
            block(DiffKind::Removed, 1, 0, &["X"]),
            block(DiffKind::Context, 2, 1, v),
            block(DiffKind::Added, 0, 1 + v.len(), &["Y"]),
        ]
    };
    let cut = apply_context_filter(between(&["1", "2", "3"]), 1);
    assert_eq!(
        shown(&cut),
        vec![
            ("removed", 1, 0, 1, lines(&["X"])),
            ("context", 2, 1, 1, lines(&["1"])),
            ("context", 4, 3, 1, lines(&["3"])),
            ("added", 0, 4, 1, lines(&["Y"])),
        ]
    );
    assert_eq!(apply_context_filter(between(&["1", "2"]), 1).len(), 3);
    assert_eq!(apply_context_filter(between(&["1", "2"]), 0).len(), 2);
}

#[test]
fn context_that_no_change_is_near_is_left_out() {
    let blocks = vec![
        block(DiffKind::Context, 1, 1, &["1", "2"]),
        block(DiffKind::Context, 3, 3, &["3"]),
        block(DiffKind::Added, 0, 4, &["X"]),
    ];
    assert_eq!(
        shown(&apply_context_filter(blocks, 2)),
        vec![
            ("context", 2, 2, 1, lines(&["2"])),
            ("context", 3, 3, 1, lines(&["3"])),
            ("added", 0, 4, 1, lines(&["X"])),
        ]
    );
    let quiet = vec![block(DiffKind::Context, 1, 1, &["1", "2"])];
    assert!(apply_context_filter(quiet, 2).is_empty());
}

#[test]
fn a_diff_shows_the_lines_around_a_change() {
    let a = lines(&["1", "2", "3", "4", "5", "6"]);
    let b = lines(&["1", "2", "3", "x", "4", "5", "6"]);
    let diff = compute_diff(&a, &b, 1);
    assert_eq!(
        shown(&diff.blocks),
        vec![
            ("context", 3, 3, 1, lines(&["3"])),
            ("added", 0, 4, 1, lines(&["x"])),
            ("context", 4, 5, 1, lines(&["4"])),
        ]
    );
    assert_eq!((diff.blocks_added, diff.blocks_removed, diff.blocks_unchanged), (1, 0, 2));
}
