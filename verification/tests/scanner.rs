use atlas::error::ErrorKind;
use atlas::model::FileLanguage;
use atlas::scanner::{EntryKind, RootStatus, ScanEntry, ScanOptions, Scanner};

#[test]
fn test_is_source_file() {
    assert!(Scanner::is_source_file("main.rs"));
    assert!(Scanner::is_source_file("index.js"));
    assert!(Scanner::is_source_file("app.tsx"));
    assert!(!Scanner::is_source_file("image.png"));
    assert!(!Scanner::is_source_file("README.md"));
}

#[test]
fn test_normalize_path_clean() {
    let cleaned = Scanner::clean_path("./src/../src/main.rs");
    assert_eq!(cleaned, "src/main.rs");
}

#[test]
fn test_normalize_path() {
    let normalized = Scanner::normalize_path("./src/../src/main.rs", None);
    assert!(!normalized.contains("/../"), "path still contains /../: {normalized}");
    assert!(!normalized.ends_with(".."), "path ends with '..': {normalized}");
}

#[test]
fn leading_parents_stay_in_a_clean_path() {
    assert_eq!(Scanner::clean_path("../../a"), "../../a");
    assert_eq!(Scanner::clean_path("a/../../b"), "../b");
    assert_eq!(Scanner::clean_path("./../a/./b/.."), "../a");
}

#[test]
fn only_the_first_lines_of_a_large_file_are_kept() {
    let text = "one\ntwo\r\nthree\nfour";
    let read = |threshold: usize, max_lines: usize| {
        Scanner::read_source("a/b.rs", Ok(text.to_string()), threshold, max_lines).unwrap()
    };
    let large = read(10, 2);
    assert!(large.is_large);
    assert_eq!(large.source_text, "one\ntwo\r\n");
    assert_eq!(large.path, "a/b.rs");
    assert_eq!(large.language, FileLanguage::Rust);
    assert_eq!(read(10, 0).source_text, "");
    assert_eq!(read(10, 9).source_text, text);
    let whole = read(text.len(), 2);
    assert!(!whole.is_large);
    assert_eq!(whole.source_text, text);
    assert!(read(text.len() - 1, 2).is_large);
}

#[test]
fn a_threshold_counts_bytes() {
    let text = "\u{4f60}\n\u{4f60}\n".to_string();
    assert!(!Scanner::read_source("a.py", Ok(text.clone()), 8, 1).unwrap().is_large);
    let large = Scanner::read_source("a.py", Ok(text), 7, 1).unwrap();
    assert_eq!(large.source_text, "\u{4f60}\n");
}

#[test]
fn a_file_that_cannot_be_read_is_an_error() {
    let e = Scanner::read_source("a.py", Err("denied".to_string()), 10, 1).err().unwrap();
    assert_eq!(e.kind, ErrorKind::Io);
    assert_eq!(e.message, "Failed to read file a.py: denied");
}

#[test]
fn a_scan_has_no_limits_at_first() {
    let options = ScanOptions::new("root").with_max_depth(4);
    assert_eq!(options.root, "root");
    assert_eq!(options.max_depth, Some(4));
    assert_eq!((options.large_file_threshold, options.large_file_max_lines), (None, None));
}

#[test]
fn a_file_without_a_readable_name_is_passed_over() {
    let mut scan = Scanner::scan(&ScanOptions::new("/p"), RootStatus::Directory);
    assert_eq!(scan.next_directory(), Some(("/p".to_string(), 0)));
    let odd = "/p/\u{fffd}.rs".to_string();
    let entries = vec![
        ScanEntry::Found(odd.clone(), EntryKind::Nameless(Some(odd.clone()))),
        ScanEntry::Found("/p/a.rs".to_string(), EntryKind::File(Some("/p/a.rs".to_string()))),
    ];
    scan.directory_read("/p", 0, Ok(entries));
    assert_eq!(scan.next_directory(), None);
    assert_eq!(scan.result.source_files, vec!["/p/a.rs"]);
    assert_eq!(scan.result.skipped_files, vec![odd]);
}
