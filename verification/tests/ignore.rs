use atlas::ignore::{should_ignore_dir, should_ignore_file};

#[test]
fn test_should_ignore_git_dir() {
    assert!(should_ignore_dir("/project/.git"));
    assert!(should_ignore_dir(".git"));
}

#[test]
fn test_should_ignore_target_dir() {
    assert!(should_ignore_dir("/project/target"));
    assert!(should_ignore_dir("target"));
}

#[test]
fn test_should_ignore_node_modules() {
    assert!(should_ignore_dir("/project/node_modules"));
    assert!(should_ignore_dir("node_modules"));
}

#[test]
fn test_should_not_ignore_normal_dirs() {
    assert!(!should_ignore_dir("/project/src"));
    assert!(!should_ignore_dir("crates"));
    assert!(!should_ignore_dir("tests"));
}

#[test]
fn test_should_ignore_binary_files() {
    assert!(should_ignore_file("program.exe"));
    assert!(should_ignore_file("lib.so"));
    assert!(should_ignore_file("lib.dylib"));
}

#[test]
fn test_should_ignore_image_files() {
    assert!(should_ignore_file("image.png"));
    assert!(should_ignore_file("photo.jpg"));
    assert!(should_ignore_file("icon.svg"));
}

#[test]
fn test_should_ignore_hidden_files() {
    assert!(should_ignore_file(".gitignore"));
    assert!(should_ignore_file(".env"));
}

#[test]
fn test_should_ignore_lock_files() {
    assert!(should_ignore_file("Cargo.lock"));
    assert!(should_ignore_file("package-lock.json"));
    assert!(should_ignore_file("yarn.lock"));
}

#[test]
fn test_should_not_ignore_source_files() {
    assert!(!should_ignore_file("main.rs"));
    assert!(!should_ignore_file("index.js"));
    assert!(!should_ignore_file("app.tsx"));
    assert!(!should_ignore_file("lib.rs"));
}
