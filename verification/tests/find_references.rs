use atlas::agent::json::Json;
use atlas::agent::protocol::{AgentError, AgentResult, ToolCall, ToolResult};
use atlas::agent::tool::BuiltinTool;
use atlas::agent::tools::find_references::{
    references, simple_glob_match, FindReferencesTool, ScannedFile, SearchTarget,
};

fn file(name: &str, content: &str) -> ScannedFile {
    ScannedFile {
        path: format!("/p/{}", name),
        file_name: name.to_string(),
        lines: content.lines().map(|l| Some(l.to_string())).collect(),
    }
}

fn search(call: &ToolCall, files: Vec<ScannedFile>) -> AgentResult<ToolResult> {
    FindReferencesTool.execute(call, "/p", &SearchTarget::Directory(files))
}

fn call(symbol: &str) -> ToolCall {
    ToolCall::new("find_references").with_argument("symbol", Json::text(symbol))
}

fn count(r: &ToolResult) -> u64 {
    r.value.field("reference_count").unwrap().as_u64().unwrap()
}

#[test]
fn test_find_references_basic() {
    let result = search(
        &call("foo"),
        vec![
            file("a.rs", "fn foo() {}\nfn caller() { foo(); }\nlet x = foo();\n"),
            file("b.rs", "foo_bar();\nfoo!();\n"),
        ],
    )
    .unwrap();
    assert!(result.success);
    let count = count(&result);
    assert!(count >= 3, "expected at least 3 references, got {}", count);
    assert_eq!(count, 4);
}

#[test]
fn test_find_references_word_boundary() {
    let result = search(&call("foo"), vec![file("test.rs", "foo\nfoobar\nfoo_bar\nfoo!\n")]).unwrap();
    let count = count(&result);
    assert_eq!(count, 2, "expected 2 references with word boundary, got {}", count);
}

#[test]
fn test_find_references_with_file_pattern() {
    let call = call("my_func").with_argument("file_pattern", Json::text("*.rs"));
    let result =
        search(&call, vec![file("a.rs", "my_func()\n"), file("b.txt", "my_func\n")]).unwrap();
    assert_eq!(count(&result), 1);
}

#[test]
fn test_find_references_max_results() {
    let content: String = (0..50).map(|_| "target\n").collect();
    let call = call("target").with_argument("max_results", Json::natural(10));
    let result = search(&call, vec![file("big.rs", &content)]).unwrap();
    assert_eq!(count(&result), 10);
    assert!(result.value.field("truncated").unwrap().as_bool().unwrap());
}

#[test]
fn test_find_references_no_results() {
    let result = search(&call("nonexistent"), vec![file("a.rs", "fn unrelated() {}")]).unwrap();
    assert!(result.success);
    assert_eq!(count(&result), 0);
}

#[test]
fn test_find_references_missing_symbol() {
    assert!(search(&ToolCall::new("find_references"), vec![]).is_err());
}

#[test]
fn test_find_references_definition() {
    let def = FindReferencesTool.definition();
    assert_eq!(def.name, "find_references");
    assert_eq!(def.required_params(), vec!["symbol"]);
}

#[test]
fn test_find_references_summarize() {
    let reference = |file: &str, line: u64| {
        Json::Object(vec![
            ("file".to_string(), Json::text(file)),
            ("line".to_string(), Json::natural(line)),
            ("symbol".to_string(), Json::text("foo")),
            ("text".to_string(), Json::text("foo()")),
        ])
    };
    let result = ToolResult::success(Json::Object(vec![
        ("symbol".to_string(), Json::text("foo")),
        ("reference_count".to_string(), Json::natural(2)),
        ("references".to_string(), Json::Array(vec![reference("a.rs", 1), reference("b.rs", 5)])),
    ]));
    let summary = FindReferencesTool.summarize_result(&result);
    assert!(summary.contains("Found 2 references"));
    assert!(summary.contains("a.rs:1"));
}

#[test]
fn a_symbol_is_taken_literally() {
    let result = search(&call("a.b"), vec![file("t.rs", "a.b\naxb\n")]).unwrap();
    assert_eq!(count(&result), 1);
}

#[test]
fn patterns_may_start_or_end_with_a_star() {
    assert!(simple_glob_match("main.rs", "*.rs"));
    assert!(simple_glob_match("main.rs", "main*"));
    assert!(simple_glob_match("main.rs", "main.rs"));
    assert!(!simple_glob_match("main.rs", "m*s"));
    assert!(!simple_glob_match("main.rs", "*.py"));
}

#[test]
fn lines_that_cannot_be_read_are_passed_over() {
    let mut f = file("a.rs", "foo\nfoo\n");
    f.lines[0] = None;
    let result = search(&call("foo"), vec![f]).unwrap();
    assert_eq!(count(&result), 1);
    let refs = result.value.field("references").unwrap().as_array().unwrap();
    assert_eq!(refs[0].field("line").unwrap().as_u64(), Some(2));
    assert_eq!(refs[0].field("file").unwrap().as_str(), Some("a.rs"));
}

#[test]
fn a_single_file_is_searched() {
    let target = SearchTarget::File(file("a.rs", "x\nfoo\n"));
    let result = FindReferencesTool.execute(&call("foo"), "/p", &target).unwrap();
    assert_eq!(count(&result), 1);
    let result = FindReferencesTool.execute(&call("foo"), "/p", &SearchTarget::Missing).unwrap();
    assert!(!result.success);
}

fn found_lines(r: &ToolResult) -> Vec<(String, u64)> {
    let refs = r.value.field("references").unwrap().as_array().unwrap();
    refs.iter()
        .map(|f| {
            let file = f.field("file").unwrap().as_str().unwrap().to_string();
            (file, f.field("line").unwrap().as_u64().unwrap())
        })
        .collect()
}

#[test]
fn references_follow_the_hits_that_are_given() {
    let target = SearchTarget::Directory(vec![file("a.rs", "x\nfoo\ny\n"), file("b.rs", "z\n")]);
    let hits = vec![vec![true, true, false], vec![true]];
    let result = references(&call("foo"), "/p", &target, &Ok(()), &hits).unwrap();
    assert_eq!(
        found_lines(&result),
        vec![("a.rs".to_string(), 1), ("a.rs".to_string(), 2), ("b.rs".to_string(), 1)]
    );
    let none = references(&call("foo"), "/p", &target, &Ok(()), &vec![]).unwrap();
    assert_eq!(count(&none), 0);
}

#[test]
fn a_pattern_that_is_refused_fails_the_search() {
    let target = SearchTarget::Directory(vec![file("a.rs", "foo\n")]);
    let refused = Err("too large".to_string());
    match references(&call("foo"), "/p", &target, &refused, &vec![vec![true]]) {
        Err(AgentError::ToolError { tool_name, message }) => {
            assert_eq!(tool_name, "find_references");
            assert_eq!(message, "Invalid symbol pattern 'foo': too large");
        }
        _ => panic!("Expected ToolError"),
    }
}

#[test]
fn a_search_stops_at_its_limit() {
    let call = call("foo").with_argument("max_results", Json::natural(3));
    let files = vec![file("a.rs", "foo\nfoo\n"), file("b.rs", "foo\nfoo\n"), file("c.rs", "foo\n")];
    let result = search(&call, files).unwrap();
    assert_eq!(
        found_lines(&result),
        vec![("a.rs".to_string(), 1), ("a.rs".to_string(), 2), ("b.rs".to_string(), 1)]
    );
}

#[test]
fn whole_words_are_found_once_a_line() {
    let text = "foo foo\nxfoo\nfoo1\n_foo\n(foo)\nFoo\n foo\n";
    let result = search(&call("foo"), vec![file("t.rs", text)]).unwrap();
    let found: Vec<u64> = found_lines(&result).into_iter().map(|f| f.1).collect();
    assert_eq!(found, vec![1, 5, 7]);
}
