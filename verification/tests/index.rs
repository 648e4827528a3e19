use atlas::error::{AtlasError, AtlasResult, ErrorKind, ErrorSeverity};
use atlas::index::{
    index_path, index_path_with_options, note_embedding, record_files, split_large_chunk, Discovered,
    ParseSource,
};
use atlas::model::{
    ChunkKind, ChunkSpan, CodeChunk, FileLanguage, FileStamp, IndexOptions, IndexResult,
    ParseResult, SourceFile,
};
use atlas::parser::ParserService;

struct MockParser;

fn whole_file(source_file: SourceFile, name: &str) -> ParseResult {
    let chunk = CodeChunk {
        id: CodeChunk::generate_id(&source_file.path, ChunkKind::Function, Some(name), 0),
        file_path: source_file.path.clone(),
        language: source_file.language,
        kind: ChunkKind::Function,
        symbol_name: Some(name.to_string()),
        span: ChunkSpan::new(0, source_file.source_text.len(), 0, 0),
        source_text: source_file.source_text.clone(),
    };
    ParseResult::success(source_file, vec![chunk])
}

impl ParseSource for MockParser {
    fn parse(&self, source_file: SourceFile) -> AtlasResult<ParseResult> {
        Ok(whole_file(source_file, "mock"))
    }
}

struct FailingParser;

impl ParseSource for FailingParser {
    fn parse(&self, _source_file: SourceFile) -> AtlasResult<ParseResult> {
        Err(AtlasError::parse("mock parse failure"))
    }
}

struct SelectiveParser;

impl ParseSource for SelectiveParser {
    fn parse(&self, source_file: SourceFile) -> AtlasResult<ParseResult> {
        if source_file.path.contains("bad") {
            Err(AtlasError::parse("selective failure"))
        } else {
            Ok(whole_file(source_file, "good"))
        }
    }
}

fn stamp(secs: u64) -> FileStamp {
    FileStamp { mtime_secs: secs, mtime_nanos: 0, size: 10 }
}

fn found(files: &[(&str, &str)]) -> Vec<Discovered> {
    files
        .iter()
        .map(|(path, text)| Discovered {
            path: path.to_string(),
            outcome: Ok(text.to_string()),
            stamp: Some(stamp(1)),
        })
        .collect()
}

fn test_project() -> Vec<Discovered> {
    found(&[
        ("src/main.rs", "fn main() {}"),
        ("src/lib.rs", "pub fn hello() {}"),
        ("src/index.js", "function greet() {}"),
    ])
}

fn index_found<P: ParseSource>(files: Vec<Discovered>, parser: &P) -> IndexResult {
    index_path_with_options(".", Some(files), parser, &IndexOptions::new(), None)
        .unwrap()
        .unwrap()
}

#[test]
fn test_index_path_scans_and_parses() {
    let result = index_found(test_project(), &MockParser);
    assert_eq!(result.stats.total_files, 3);
    assert_eq!(result.stats.parsed_files, 3);
    assert_eq!(result.stats.total_chunks, 3);
    assert!(result.errors.is_empty());
}

#[test]
fn test_index_path_nonexistent_path() {
    let result = index_path_with_options(
        "/nonexistent/path",
        None,
        &MockParser,
        &IndexOptions::new(),
        None,
    );
    match result {
        Err(e) => assert_eq!(e.kind, ErrorKind::InvalidInput),
        Ok(_) => panic!("Expected an error"),
    }
}

#[test]
fn test_index_path_single_file() {
    let result = index_found(found(&[("test.rs", "fn test() {}")]), &MockParser);
    assert_eq!(result.stats.total_files, 1);
    assert_eq!(result.stats.parsed_files, 1);
    assert_eq!(result.stats.total_chunks, 1);
}

#[test]
fn test_index_path_collects_parse_errors() {
    let result = index_found(test_project(), &FailingParser);
    assert_eq!(result.stats.parsed_files, 0);
    assert_eq!(result.stats.total_errors, 3);
}

#[test]
fn test_parallel_index_results_match_sequential() {
    let result = index_found(test_project(), &MockParser);
    assert_eq!(result.stats.total_files, 3);
    assert_eq!(result.stats.parsed_files, 3);
    assert_eq!(result.stats.total_chunks, 3);
    assert!(result.errors.is_empty());
    assert_eq!(result.stats.files_by_language.get(&FileLanguage::Rust), Some(2));
    assert_eq!(result.stats.total_source_bytes, 48);
}

#[test]
fn test_parallel_index_mixed_success_and_failure() {
    let files = found(&[("src/good.rs", "fn good() {}"), ("src/bad.rs", "fn bad() {}")]);
    let result = index_found(files, &SelectiveParser);
    assert_eq!(result.stats.parsed_files, 1);
    assert_eq!(result.stats.total_errors, 1);
}

#[test]
fn test_index_path_nonexistent_path_is_unrecoverable() {
    let result = index_path_with_options(
        "/nonexistent/path",
        None,
        &MockParser,
        &IndexOptions::new(),
        None,
    );
    match result {
        Err(err) => {
            assert_eq!(err.kind, ErrorKind::InvalidInput);
            assert_eq!(err.severity(), ErrorSeverity::Unrecoverable);
            assert!(!err.is_recoverable());
            assert_eq!(err.message, "Path does not exist: /nonexistent/path");
        }
        Ok(_) => panic!("Expected an error"),
    }
}

#[test]
fn test_parse_errors_are_recoverable() {
    let result = index_found(test_project(), &FailingParser);
    assert_eq!(result.errors.len(), 3);
    for err in &result.errors {
        assert!(err.is_recoverable());
    }
}

#[test]
fn files_that_have_not_changed_are_left_out() {
    let first = index_found(test_project(), &MockParser);
    let stamps = vec![Some(stamp(1)), Some(stamp(1)), Some(stamp(1))];
    let state = record_files(None, &first.files, &stamps);
    let mut again = test_project();
    again[1].stamp = Some(stamp(2));
    let result =
        index_path_with_options(".", Some(again), &MockParser, &IndexOptions::new(), Some(&state))
            .unwrap()
            .unwrap();
    assert_eq!(result.files.len(), 1);
    assert_eq!(result.files[0].file.path, "src/lib.rs");
}

#[test]
fn files_that_cannot_be_read_are_errors() {
    let mut files = test_project();
    files[0].outcome = Err("denied".to_string());
    let result = index_found(files, &MockParser);
    assert_eq!(result.stats.parsed_files, 2);
    assert_eq!(result.errors[0].message, "Failed to read file src/main.rs: denied");
}

#[test]
fn unsupported_languages_are_errors() {
    let result = index_found(found(&[("a.xyz", "?"), ("a.rs", "fn a() {}")]), &ParserService);
    assert_eq!(result.stats.parsed_files, 1);
    assert_eq!(result.errors[0].kind, ErrorKind::UnsupportedLanguage);
}

fn chunk(source_text: &str) -> CodeChunk {
    let lines = source_text.lines().count();
    CodeChunk {
        id: "f:function:g:4".to_string(),
        file_path: "f".to_string(),
        language: FileLanguage::Rust,
        kind: ChunkKind::Function,
        symbol_name: Some("g".to_string()),
        span: ChunkSpan::new(100, 100 + source_text.len(), 4, 4 + lines - 1),
        source_text: source_text.to_string(),
    }
}

#[test]
fn large_chunks_are_split_at_blank_lines() {
    let whole = chunk("a\nb\n\nc\n");
    let pieces = split_large_chunk(&whole);
    let texts: Vec<&str> = pieces.iter().map(|c| c.source_text.as_str()).collect();
    assert_eq!(texts.len(), 2);
    assert!(texts[0].starts_with("a\nb"));
    assert!(texts[1].starts_with("c"));
}

#[test]
fn a_chunk_without_blank_lines_stays_whole() {
    let whole = chunk("a\nb\nc");
    let pieces = split_large_chunk(&whole);
    assert_eq!(pieces.len(), 1);
    assert_eq!(pieces[0].id, whole.id);
    assert_eq!(pieces[0].source_text, whole.source_text);
}

#[test]
fn an_index_without_embedding_says_so() {
    let mut result = index_found(test_project(), &MockParser);
    assert_eq!(result.stats.embedded_chunks, 0);
    assert_eq!(result.stats.embedding_errors, 0);
    assert_eq!(result.stats.embedding_dimension, 0);
    note_embedding(&mut result, 2, 1, 8);
    assert_eq!(result.stats.embedded_chunks, 2);
    assert_eq!(result.stats.embedding_errors, 1);
    assert_eq!(result.stats.embedding_dimension, 8);
}

#[test]
fn index_nonexistent_path_returns_error() {
    let result = index_path("/nonexistent/path", None, &ParserService::new());
    assert!(result.is_err());
}

#[test]
fn indexing_twice_gives_the_same_counts() {
    let r1 = index_path(".", Some(test_project()), &MockParser).unwrap().unwrap();
    let r2 = index_path(".", Some(test_project()), &MockParser).unwrap().unwrap();
    assert_eq!(r1.stats.total_files, r2.stats.total_files);
    assert_eq!(r1.stats.total_chunks, r2.stats.total_chunks);
    assert_eq!(r1.stats.total_files, r1.files.len());
}

#[test]
fn the_parser_sees_the_first_lines_of_a_large_file() {
    let mut options = IndexOptions::new();
    options.large_file_threshold = 12;
    options.large_file_max_lines = 2;
    let files = found(&[("a.rs", "fn a() {}\n\nfn b() {}\n"), ("b.rs", "fn c() {}\n\n\n")]);
    let result =
        index_path_with_options(".", Some(files), &MockParser, &options, None).unwrap().unwrap();
    assert!(result.files[0].file.is_large);
    assert_eq!(result.files[0].file.source_text, "fn a() {}\n\n");
    assert!(!result.files[1].file.is_large);
    assert_eq!(result.files[1].file.source_text, "fn c() {}\n\n\n");
}

#[test]
fn a_chunk_is_split_by_the_number_of_its_characters() {
    let mut options = IndexOptions::new();
    options.chunk_split_threshold = 6;
    let files = || found(&[("a.rs", "\u{4f60}\u{4f60}\n\n\u{4f60}\u{4f60}"), ("b.rs", "abc\n\ndef")]);
    let result =
        index_path_with_options(".", Some(files()), &MockParser, &options, None).unwrap().unwrap();
    assert_eq!(result.files[0].chunks.len(), 1);
    assert_eq!(result.files[1].chunks.len(), 2);
    options.chunk_split_threshold = 0;
    let result =
        index_path_with_options(".", Some(files()), &MockParser, &options, None).unwrap().unwrap();
    assert_eq!(result.files[1].chunks.len(), 1);
}
