use atlas::agent::json::Json;
use atlas::agent::protocol::{AgentResult, ToolCall, ToolResult};
use atlas::agent::tool::BuiltinTool;
use atlas::agent::tools::files::FileAccess;
use atlas::agent::tools::get_dependencies::{detect_language, GetDependenciesTool};

fn dependencies(path: &str, file: FileAccess) -> AgentResult<ToolResult> {
    let call = ToolCall::new("get_dependencies").with_argument("path", Json::text(path));
    GetDependenciesTool.execute(&call, &format!("/p/{}", path), &file)
}

fn text(s: &str) -> FileAccess {
    FileAccess::Text(s.to_string())
}

fn count(r: &ToolResult) -> u64 {
    r.value.field("dependency_count").unwrap().as_u64().unwrap()
}

fn language(r: &ToolResult) -> &str {
    r.value.field("language").unwrap().as_str().unwrap()
}

#[test]
fn test_get_dependencies_rust() {
    let result = dependencies(
        "main.rs",
        text("use std::io;\nuse std::collections::HashMap;\nfn main() {}\n"),
    )
    .unwrap();
    assert!(result.success);
    assert_eq!(language(&result), "rust");
    assert_eq!(count(&result), 2);
    let deps = result.value.field("dependencies").unwrap().as_array().unwrap();
    assert_eq!(deps[0].field("module").unwrap().as_str().unwrap(), "std::io");
    assert_eq!(deps[0].field("kind").unwrap().as_str().unwrap(), "use");
    assert_eq!(deps[1].field("line").unwrap().as_u64().unwrap(), 2);
}

#[test]
fn test_get_dependencies_typescript() {
    let result = dependencies(
        "app.ts",
        text("import { foo } from './foo';\nconst bar = require('bar');\n"),
    )
    .unwrap();
    assert!(result.success);
    assert_eq!(language(&result), "typescript");
    assert_eq!(count(&result), 2);
}

#[test]
fn test_get_dependencies_python() {
    let result =
        dependencies("main.py", text("import os\nfrom collections import defaultdict\n")).unwrap();
    assert!(result.success);
    assert_eq!(language(&result), "python");
    assert_eq!(count(&result), 2);
}

#[test]
fn test_get_dependencies_not_found() {
    let result = dependencies("nonexistent.rs", FileAccess::NotAFile).unwrap();
    assert!(!result.success);
}

#[test]
fn test_get_dependencies_missing_path() {
    let call = ToolCall::new("get_dependencies");
    assert!(GetDependenciesTool.execute(&call, "", &FileAccess::NotAFile).is_err());
}

#[test]
fn test_get_dependencies_no_deps() {
    let result = dependencies("plain.rs", text("fn main() {\n    println!(\"hi\");\n}\n")).unwrap();
    assert!(result.success);
    assert_eq!(count(&result), 0);
}

#[test]
fn test_get_dependencies_definition() {
    let def = GetDependenciesTool.definition();
    assert_eq!(def.name, "get_dependencies");
    assert_eq!(def.required_params(), vec!["path"]);
}

#[test]
fn test_detect_language() {
    assert_eq!(detect_language("a.rs"), "rust");
    assert_eq!(detect_language("b.ts"), "typescript");
    assert_eq!(detect_language("c.py"), "python");
    assert_eq!(detect_language("d.go"), "go");
    assert_eq!(detect_language("e.unknown"), "other");
}

#[test]
fn dependencies_of_an_unreadable_file() {
    assert!(dependencies("a.rs", FileAccess::Unreadable("denied".to_string())).is_err());
    assert!(dependencies("a.rs", FileAccess::Outside).is_err());
}

fn listed(path: &str, content: &str) -> Vec<(String, String, u64)> {
    let result = dependencies(path, text(content)).unwrap();
    let deps = result.value.field("dependencies").unwrap().as_array().unwrap();
    deps.iter()
        .map(|d| {
            (
                d.field("module").unwrap().as_str().unwrap().to_string(),
                d.field("kind").unwrap().as_str().unwrap().to_string(),
                d.field("line").unwrap().as_u64().unwrap(),
            )
        })
        .collect()
}

fn entry(module: &str, kind: &str, line: u64) -> (String, String, u64) {
    (module.to_string(), kind.to_string(), line)
}

#[test]
fn dependencies_are_read_in_every_language() {
    assert_eq!(
        listed("a.rs", "extern crate serde;\n  use a::b;\n// use c;\n"),
        vec![entry("serde", "extern_crate", 1), entry("a::b", "use", 2)]
    );
    assert_eq!(
        listed("a.js", "import 'side';\nconst x = await import('late');\nlet y = require( \"z\" );\n"),
        vec![
            entry("side", "import", 1),
            entry("late", "dynamic_import", 2),
            entry("z", "require", 3),
        ]
    );
    assert_eq!(
        listed("a.tsx", "import { a } from \"./b\";\n"),
        vec![entry("./b", "import", 1)]
    );
    assert_eq!(
        listed("a.py", "import os.path\nfrom . import x\n"),
        vec![entry("os.path", "import", 1), entry(".", "from_import", 2)]
    );
    assert_eq!(listed("a.go", "import (\n\t\"fmt\"\n)\n"), vec![entry("fmt", "import", 2)]);
    assert_eq!(
        listed("A.java", "import java.util.List;\n"),
        vec![entry("java.util.List", "import", 1)]
    );
    assert_eq!(listed("a.kt", "import kotlin.math\n"), vec![entry("kotlin.math", "import", 1)]);
    assert_eq!(
        listed("a.c", "#include <stdio.h>\n# include \"own.h\"\n"),
        vec![entry("stdio.h", "include", 1), entry("own.h", "include", 2)]
    );
    assert_eq!(listed("a.txt", "import x\n"), vec![]);
}
