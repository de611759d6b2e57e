//! The visited-file index and the incremental scan.

use strikeout::scan::{data_file_name, is_hidden, scan_new_file, FileIndex, ScannedFile};

fn entry(path: &str, is_file: bool) -> ScannedFile {
    ScannedFile { path: path.to_owned(), is_file }
}

#[test]
fn scan_reports_new_regular_files() {
    let entries = vec![
        entry("/src", false),
        entry("/src/a.mkv", true),
        entry("/src/sub", false),
        entry("/src/sub/b.mkv", true),
    ];
    let mut index = FileIndex::new();
    let new_files = scan_new_file(&entries, &mut index);
    let paths: Vec<&str> = new_files.iter().map(|e| e.path.as_str()).collect();
    assert_eq!(paths, vec!["/src/a.mkv", "/src/sub/b.mkv"]);
    assert_eq!(index.len(), 2);
    assert!(index.contains("/src/a.mkv"));
    assert!(!index.contains("/src"));
}

#[test]
fn scan_twice_finds_nothing_new() {
    let entries = vec![
        entry("/src/a.mkv", true),
        entry("/src/b.mkv", true),
        entry("/src/dir", false),
    ];
    let mut index = FileIndex::new();
    let first = scan_new_file(&entries, &mut index);
    assert_eq!(first.len(), 2);
    let second = scan_new_file(&entries, &mut index);
    assert!(second.is_empty());
    assert_eq!(index.len(), 2);
}

#[test]
fn scan_skips_already_indexed() {
    let entries = vec![entry("/src/a.mkv", true), entry("/src/b.mkv", true)];
    let mut index = FileIndex::new();
    assert!(index.insert("/src/a.mkv".to_owned()));
    let new_files = scan_new_file(&entries, &mut index);
    assert_eq!(new_files.len(), 1);
    assert_eq!(new_files[0].path, "/src/b.mkv");
}

#[test]
fn scan_ignores_duplicate_entries() {
    let entries = vec![entry("/src/a.mkv", true), entry("/src/a.mkv", true)];
    let mut index = FileIndex::new();
    let new_files = scan_new_file(&entries, &mut index);
    assert_eq!(new_files.len(), 1);
    assert_eq!(index.len(), 1);
}

#[test]
fn index_insert_reports_novelty() {
    let mut index = FileIndex::new();
    assert_eq!(index.len(), 0);
    assert!(index.insert("p".to_owned()));
    assert!(!index.insert("p".to_owned()));
    assert!(index.insert("q".to_owned()));
    assert_eq!(index.len(), 2);
    assert_eq!(index.paths().as_slice(), &["p".to_owned(), "q".to_owned()]);
}

#[test]
fn hidden_names_start_with_a_dot() {
    assert!(is_hidden(".git"));
    assert!(is_hidden("."));
    assert!(!is_hidden("a.mkv"));
    assert!(!is_hidden(""));
}

#[test]
fn index_file_named_after_working_directory() {
    assert_eq!(
        data_file_name("/home/u/.local/share", "/work/dir"),
        "/home/u/.local/share/strikeout/_work_dir"
    );
    assert_eq!(data_file_name("", "rel/dir"), "strikeout/rel_dir");
}
