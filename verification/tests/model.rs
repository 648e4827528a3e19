use atlas::model::{
    ChunkKind, ChunkSpan, CodeChunk, FileLanguage, IndexResult, IndexStats, ParseResult, SourceFile,
};

#[test]
fn from_extension_rust() {
    assert_eq!(FileLanguage::from_extension("rs"), FileLanguage::Rust);
}

#[test]
fn from_extension_javascript() {
    assert_eq!(FileLanguage::from_extension("js"), FileLanguage::JavaScript);
}

#[test]
fn from_extension_jsx() {
    assert_eq!(FileLanguage::from_extension("jsx"), FileLanguage::Jsx);
}

#[test]
fn from_extension_typescript() {
    assert_eq!(FileLanguage::from_extension("ts"), FileLanguage::TypeScript);
}

#[test]
fn from_extension_tsx() {
    assert_eq!(FileLanguage::from_extension("tsx"), FileLanguage::Tsx);
}

#[test]
fn from_extension_unknown() {
    assert_eq!(FileLanguage::from_extension("java"), FileLanguage::Unknown);
    assert_eq!(FileLanguage::from_extension("go"), FileLanguage::Unknown);
    assert_eq!(FileLanguage::from_extension(""), FileLanguage::Unknown);
}

#[test]
fn from_path_simple_filenames() {
    assert_eq!(FileLanguage::from_path("main.rs"), FileLanguage::Rust);
    assert_eq!(FileLanguage::from_path("index.js"), FileLanguage::JavaScript);
    assert_eq!(FileLanguage::from_path("App.tsx"), FileLanguage::Tsx);
    assert_eq!(FileLanguage::from_path("Component.jsx"), FileLanguage::Jsx);
    assert_eq!(FileLanguage::from_path("types.ts"), FileLanguage::TypeScript);
}

#[test]
fn from_path_with_directory() {
    assert_eq!(FileLanguage::from_path("src/lib.rs"), FileLanguage::Rust);
    assert_eq!(
        FileLanguage::from_path("project/src/index.js"),
        FileLanguage::JavaScript
    );
}

#[test]
fn from_path_no_extension() {
    assert_eq!(FileLanguage::from_path("Makefile"), FileLanguage::Unknown);
    assert_eq!(FileLanguage::from_path("README"), FileLanguage::Unknown);
}

#[test]
fn from_path_unsupported_extension() {
    assert_eq!(FileLanguage::from_path("style.css"), FileLanguage::Unknown);
    assert_eq!(FileLanguage::from_path("data.json"), FileLanguage::Unknown);
    assert_eq!(FileLanguage::from_path("doc.md"), FileLanguage::Unknown);
}

#[test]
fn is_supported() {
    assert!(FileLanguage::Rust.is_supported());
    assert!(FileLanguage::JavaScript.is_supported());
    assert!(FileLanguage::TypeScript.is_supported());
    assert!(FileLanguage::Jsx.is_supported());
    assert!(FileLanguage::Tsx.is_supported());
    assert!(FileLanguage::Python.is_supported());
    assert!(FileLanguage::Php.is_supported());
    assert!(!FileLanguage::Unknown.is_supported());
}

#[test]
fn as_str_roundtrip() {
    for lang in FileLanguage::all_supported() {
        assert_eq!(lang.as_str(), lang.as_str().to_string());
    }
}

#[test]
fn display_format() {
    assert_eq!(FileLanguage::Rust.as_str(), "rust");
    assert_eq!(FileLanguage::JavaScript.as_str(), "javascript");
    assert_eq!(FileLanguage::TypeScript.as_str(), "typescript");
    assert_eq!(FileLanguage::Jsx.as_str(), "jsx");
    assert_eq!(FileLanguage::Tsx.as_str(), "tsx");
    assert_eq!(FileLanguage::Unknown.as_str(), "unknown");
}

#[test]
fn source_file_detects_language_from_path() {
    let sf = SourceFile::new("lib.rs", "fn main() {}");
    assert_eq!(sf.language, FileLanguage::Rust);

    let sf = SourceFile::new("app.tsx", "export default function App() {}");
    assert_eq!(sf.language, FileLanguage::Tsx);
}

#[test]
fn source_file_unknown_language() {
    let sf = SourceFile::new("style.css", "body {}");
    assert_eq!(sf.language, FileLanguage::Unknown);
}

#[test]
fn chunk_span_fields() {
    let span = ChunkSpan::new(10, 50, 2, 5);
    assert_eq!(span.start_byte, 10);
    assert_eq!(span.end_byte, 50);
    assert_eq!(span.start_line, 2);
    assert_eq!(span.end_line, 5);
}

#[test]
fn chunk_kind_display() {
    assert_eq!(ChunkKind::Function.as_str(), "function");
    assert_eq!(ChunkKind::Struct.as_str(), "struct");
    assert_eq!(ChunkKind::Enum.as_str(), "enum");
    assert_eq!(ChunkKind::Trait.as_str(), "trait");
    assert_eq!(ChunkKind::Impl.as_str(), "impl");
    assert_eq!(ChunkKind::Class.as_str(), "class");
    assert_eq!(ChunkKind::Interface.as_str(), "interface");
    assert_eq!(ChunkKind::TypeAlias.as_str(), "type_alias");
    assert_eq!(ChunkKind::Module.as_str(), "module");
    assert_eq!(ChunkKind::Constant.as_str(), "constant");
    assert_eq!(ChunkKind::Method.as_str(), "method");
    assert_eq!(ChunkKind::Unknown.as_str(), "unknown");
}

#[test]
fn index_stats_default() {
    let stats = IndexStats::default();
    assert_eq!(stats.total_files, 0);
    assert_eq!(stats.parsed_files, 0);
    assert_eq!(stats.skipped_files, 0);
    assert_eq!(stats.total_chunks, 0);
    assert_eq!(stats.total_errors, 0);
}

#[test]
fn index_result_from_parse_results_counts() {
    let file1 = SourceFile::new("a.rs", "fn a() {}");
    let chunk1 = CodeChunk {
        id: CodeChunk::generate_id("a.rs", ChunkKind::Function, Some("a"), 0),
        file_path: "a.rs".to_string(),
        language: FileLanguage::Rust,
        kind: ChunkKind::Function,
        symbol_name: Some("a".into()),
        span: ChunkSpan::new(0, 10, 0, 0),
        source_text: "fn a() {}".into(),
    };
    let pr1 = ParseResult::success(file1, vec![chunk1]);

    let file2 = SourceFile::new("b.rs", "fn b() {}");
    let chunk2 = CodeChunk {
        id: CodeChunk::generate_id("b.rs", ChunkKind::Function, Some("b"), 0),
        file_path: "b.rs".to_string(),
        language: FileLanguage::Rust,
        kind: ChunkKind::Function,
        symbol_name: Some("b".into()),
        span: ChunkSpan::new(0, 10, 0, 0),
        source_text: "fn b() {}".into(),
    };
    let pr2 = ParseResult::success(file2, vec![chunk2]);

    let result = IndexResult::from_parse_results(vec![pr1, pr2], vec![]);
    assert_eq!(result.stats.total_files, 2);
    assert_eq!(result.stats.parsed_files, 2);
    assert_eq!(result.stats.total_chunks, 2);
    assert_eq!(result.stats.total_errors, 0);
    assert_eq!(result.stats.files_by_language.get(&FileLanguage::Rust), Some(2));
    assert_eq!(result.stats.chunks_by_kind.get(&ChunkKind::Function), Some(2));
}

#[test]
fn identifiers_tell_chunks_apart() {
    let id = CodeChunk::generate_id("src/a.rs", ChunkKind::Function, Some("f"), 1);
    assert_eq!(id, "src/a.rs:function:f:1");
    assert_ne!(id, CodeChunk::generate_id("src/b.rs", ChunkKind::Function, Some("f"), 1));
    assert_ne!(id, CodeChunk::generate_id("src/a.rs", ChunkKind::Method, Some("f"), 1));
    assert_ne!(id, CodeChunk::generate_id("src/a.rs", ChunkKind::Function, Some("f:1"), 1));
    assert_ne!(id, CodeChunk::generate_id("src/a.rs", ChunkKind::Function, Some("f"), 11));
    assert_ne!(id, CodeChunk::generate_id("src/a.rs", ChunkKind::Function, None, 1));
    let colons = CodeChunk::generate_id("x", ChunkKind::Function, Some("y:function:z"), 1);
    assert_eq!(colons, CodeChunk::generate_id("x:function:y", ChunkKind::Function, Some("z"), 1));
}
