use atlas::agent::json::Json;
use atlas::agent::protocol::ToolCall;
use atlas::agent::tool::BuiltinTool;
use atlas::agent::tools::get_project_overview::{
    extension_to_language, is_ignored_path, is_manifest_file, GetProjectOverviewTool,
    OverviewTarget, TreeEntry,
};

fn entry(path: &str, is_dir: bool, size: u64) -> TreeEntry {
    TreeEntry {
        path: format!("/p/{}", path),
        name: path.rsplit('/').next().unwrap().to_string(),
        is_dir,
        is_file: !is_dir,
        depth: path.split('/').count(),
        size: Some(size),
    }
}

fn tree(entries: Vec<TreeEntry>) -> OverviewTarget {
    OverviewTarget::Tree { project: "/p".to_string(), directory: "/p".to_string(), entries }
}

fn overview() -> ToolCall {
    ToolCall::new("get_project_overview")
}

#[test]
fn test_project_overview_basic() {
    let target = tree(vec![
        entry("a.rs", false, 9),
        entry("b.rs", false, 9),
        entry("c.txt", false, 5),
        entry("Cargo.toml", false, 9),
        entry("src", true, 0),
        entry("src/main.rs", false, 12),
    ]);
    let result = GetProjectOverviewTool.execute(&overview(), &target).unwrap();
    assert!(result.success);
    assert!(result.value.field("total_files").unwrap().as_u64().unwrap() >= 4);
    let manifests = result.value.field("manifest_files").unwrap().as_array().unwrap();
    assert!(manifests
        .iter()
        .any(|m| m.field("name").unwrap().as_str() == Some("Cargo.toml")));
}

#[test]
fn test_project_overview_ignores_target() {
    let target = tree(vec![
        entry("a.rs", false, 0),
        entry("target", true, 0),
        entry("target/debug", true, 0),
        entry("target/debug/binary.o", false, 6),
    ]);
    let result = GetProjectOverviewTool.execute(&overview(), &target).unwrap();
    assert!(result.success);
    assert_eq!(result.value.field("total_files").unwrap().as_u64().unwrap(), 1);
}

#[test]
fn test_project_overview_by_language() {
    let target =
        tree(vec![entry("a.rs", false, 0), entry("b.rs", false, 0), entry("c.py", false, 0)]);
    let result = GetProjectOverviewTool.execute(&overview(), &target).unwrap();
    let langs = result.value.field("by_language").unwrap().as_array().unwrap();
    let rust_count = langs
        .iter()
        .find(|l| l.field("language").unwrap().as_str() == Some("rust"))
        .map(|l| l.field("count").unwrap().as_u64().unwrap())
        .unwrap_or(0);
    assert_eq!(rust_count, 2);
    assert_eq!(langs[0].field("language").unwrap().as_str(), Some("rust"));
}

#[test]
fn test_project_overview_not_a_directory() {
    let call = overview().with_argument("path", Json::text("file.txt"));
    let result = GetProjectOverviewTool.execute(&call, &OverviewTarget::NotADirectory).unwrap();
    assert!(!result.success);
}

#[test]
fn test_project_overview_definition() {
    let def = GetProjectOverviewTool.definition();
    assert_eq!(def.name, "get_project_overview");
    assert!(def.required_params().is_empty());
}

#[test]
fn test_is_manifest_file() {
    assert!(is_manifest_file("Cargo.toml"));
    assert!(is_manifest_file("package.json"));
    assert!(is_manifest_file("go.mod"));
    assert!(!is_manifest_file("main.rs"));
}

#[test]
fn test_extension_to_language() {
    assert_eq!(extension_to_language("rs"), "rust");
    assert_eq!(extension_to_language("py"), "python");
    assert_eq!(extension_to_language("unknown"), "other");
}

#[test]
fn directories_that_are_not_counted() {
    assert!(is_ignored_path("target/debug/x"));
    assert!(is_ignored_path("a/node_modules/b"));
    assert!(!is_ignored_path("src/main.rs"));
}
