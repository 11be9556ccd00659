use fcat::aggregate::{aggregate, process_files, AggregateError, FileEntry, ProcessError, RootListing};
use fcat::classify::{is_readable_text, ClassifyError};
use fcat::ignore::{build_ignore_set, default_ignores, expand_pattern, ignore_globs_for, set_matches, ConfigError};
use fcat::path::normalize_path;

fn file(root: &str, rel: &str, bytes: &[u8]) -> FileEntry {
    let probe = bytes.len().min(1024);
    FileEntry {
        display_path: format!("{}/{}", root, rel),
        relative_path: rel.to_string(),
        is_file: true,
        size: bytes.len() as u64,
        head: Some(bytes[..probe].to_vec()),
        content: Some(bytes.to_vec()),
    }
}

fn dir(root: &str, rel: &str) -> FileEntry {
    FileEntry {
        display_path: if rel.is_empty() { root.to_string() } else { format!("{}/{}", root, rel) },
        relative_path: rel.to_string(),
        is_file: false,
        size: 4096,
        head: None,
        content: None,
    }
}

fn root(entries: Vec<FileEntry>) -> RootListing {
    RootListing { exists: true, entries }
}

fn strings(v: &[&str]) -> Vec<String> {
    v.iter().map(|s| s.to_string()).collect()
}

fn run(roots: &[RootListing], patterns: &[&str]) -> Result<String, ProcessError> {
    process_files(roots, &strings(patterns))
}

#[test]
fn test_normalize_path() {
    assert_eq!(normalize_path("./Cargo.lock"), "Cargo.lock");
    assert_eq!(normalize_path("./src/./main.rs"), "src/main.rs");
}

#[test]
fn normalize_keeps_root_and_drops_empty_components() {
    assert_eq!(normalize_path("/a/./b//c/"), "/a/b/c");
    assert_eq!(normalize_path("."), "");
    assert_eq!(normalize_path(""), "");
    assert_eq!(normalize_path("a/../b"), "a/../b");
    assert_eq!(normalize_path(".hidden/./x"), ".hidden/x");
}

#[test]
fn test_is_readable_text() {
    let bytes = b"This is a text file\n";
    assert_eq!(is_readable_text(bytes.len() as u64, bytes), Ok(true));
}

#[test]
fn classify_empty_file_is_not_text() {
    assert_eq!(is_readable_text(0, b"anything"), Ok(false));
    assert_eq!(is_readable_text(10, b""), Ok(false));
}

#[test]
fn classify_null_byte_is_not_text() {
    assert_eq!(is_readable_text(4, &[0u8, 159, 146, 150]), Ok(false));
    let mut bytes = vec![0xC3u8; 900];
    bytes.push(0);
    assert_eq!(is_readable_text(bytes.len() as u64, &bytes), Ok(false));
}

#[test]
fn classify_null_byte_past_probe_is_ignored() {
    let mut bytes = vec![b'a'; 1024];
    bytes.push(0);
    assert_eq!(is_readable_text(bytes.len() as u64, &bytes), Ok(true));
}

#[test]
fn classify_invalid_utf8_sample_fails() {
    assert_eq!(is_readable_text(2, &[0xC3, 0x28]), Err(ClassifyError::NonUtf8Sample));
}

#[test]
fn classify_threshold_is_strict() {
    // 17 printable bytes of 20: exactly 85%, not more.
    let mut bytes = vec![b'x'; 17];
    bytes.extend_from_slice(&[1u8, 2, 3]);
    assert_eq!(is_readable_text(20, &bytes), Ok(false));
    // 18 of 20: 90%.
    let mut bytes = vec![b'x'; 18];
    bytes.extend_from_slice(&[1u8, 2]);
    assert_eq!(is_readable_text(20, &bytes), Ok(true));
}

#[test]
fn classify_ratio_is_over_characters() {
    // Nine of ten characters printable: 90%, though only 9 of 11 bytes.
    let text = "aaaaaaaaaé";
    assert_eq!(is_readable_text(text.len() as u64, text.as_bytes()), Ok(true));
    // Eight of ten characters printable: 80%.
    let text = "aaaaaaaaéé";
    assert_eq!(is_readable_text(text.len() as u64, text.as_bytes()), Ok(false));
    // Two-byte characters are valid UTF-8 but not ASCII printable.
    let text = "é".repeat(10);
    assert_eq!(is_readable_text(text.len() as u64, text.as_bytes()), Ok(false));
}

#[test]
fn classify_only_first_512_bytes_are_scored() {
    let mut bytes = vec![b'a'; 512];
    bytes.extend_from_slice(&[1u8; 400]);
    assert_eq!(is_readable_text(bytes.len() as u64, &bytes), Ok(true));
    // A character cut at the sample's end makes the sample invalid.
    let mut bytes = vec![b'a'; 511];
    bytes.extend_from_slice("é".as_bytes());
    assert_eq!(is_readable_text(bytes.len() as u64, &bytes), Err(ClassifyError::NonUtf8Sample));
}

#[test]
fn expansion_of_literal_pattern() {
    assert_eq!(expand_pattern("  target "), strings(&["target", "**/target", "**/target/**"]));
}

#[test]
fn expansion_of_wildcard_and_path_patterns() {
    assert_eq!(expand_pattern("*.log"), strings(&["*.log", "**/*.log"]));
    assert_eq!(expand_pattern("a?"), strings(&["a?", "**/a?"]));
    assert_eq!(expand_pattern("[ab]"), strings(&["[ab]", "**/[ab]"]));
    assert_eq!(expand_pattern("src/gen"), strings(&["src/gen"]));
    assert!(expand_pattern("   ").is_empty());
}

#[test]
fn ignore_list_keeps_defaults_first() {
    let defaults = default_ignores();
    assert_eq!(defaults.len(), 49);
    assert_eq!(defaults[0], "*.exe");
    assert_eq!(defaults[48], "*.cab");
    let all = ignore_globs_for(&strings(&["x", "", "*.md"]));
    assert_eq!(all.len(), 49 + 3 + 2);
    assert_eq!(all[..49].to_vec(), defaults);
    assert_eq!(all[49..].to_vec(), strings(&["x", "**/x", "**/x/**", "*.md", "**/*.md"]));
}

#[test]
fn ignore_set_matches_defaults_and_expansions() {
    let set = build_ignore_set(&strings(&["target", "Cargo.lock"])).unwrap();
    assert!(set_matches(&set, "image.jpg"));
    assert!(set_matches(&set, "deep/dir/archive.tar.gz"));
    assert!(set_matches(&set, "target/ignored.txt"));
    assert!(set_matches(&set, "a/target/b/c.rs"));
    assert!(set_matches(&set, "Cargo.lock"));
    assert!(set_matches(&set, "sub/Cargo.lock"));
    assert!(!set_matches(&set, "data.txt"));
    assert!(!set_matches(&set, "targets.txt"));
    assert!(!set_matches(&set, ""));
}

#[test]
fn invalid_glob_is_rejected() {
    assert!(matches!(build_ignore_set(&strings(&["[z-a"])), Err(ConfigError::InvalidGlobPattern(_))));
    assert!(matches!(run(&[root(vec![])], &["a{b"]), Err(ProcessError::InvalidPattern(_))));
    assert!(matches!(
        build_ignore_set(&strings(&["*.log", "[", "target"])),
        Err(ConfigError::InvalidGlobPattern(_))
    ));
    assert!(build_ignore_set(&strings(&["*.log", "target"])).is_ok());
}

#[test]
fn two_text_files_are_joined() {
    let listing = root(vec![dir("/r", ""), file("/r", "test1.txt", b"Hello"), file("/r", "test2.txt", b"World")]);
    let out = run(&[listing], &[]).unwrap();
    assert_eq!(out, "==== /r/test1.txt ====\nHello\n\n==== /r/test2.txt ====\nWorld\n\n");
}

#[test]
fn log_pattern_excludes_log_file() {
    let listing = root(vec![dir("/r", ""), file("/r", "file.log", b"Log"), file("/r", "file.txt", b"Text")]);
    let out = run(&[listing], &["*.log"]).unwrap();
    assert_eq!(out, "==== /r/file.txt ====\nText\n\n");
}

#[test]
fn only_empty_file_gives_empty_result() {
    let listing = root(vec![dir("/r", ""), file("/r", "empty.txt", b"")]);
    assert!(matches!(run(&[listing], &[]), Err(ProcessError::Aggregate(AggregateError::EmptyResult))));
}

#[test]
fn test_process_files_ignore() {
    let listing = root(vec![
        dir("/tmp/base", ""),
        file("/tmp/base", "Cargo.lock", b"Lock file content"),
        file("/tmp/base", "file.txt", b"Some text"),
        dir("/tmp/base", "target"),
        file("/tmp/base", "target/ignored.txt", b"Should be ignored"),
    ]);
    let result = run(&[listing], &["Cargo.lock", "target"]).unwrap();
    assert!(result.contains("file.txt"));
    assert!(!result.contains("Cargo.lock"));
    assert!(!result.contains("ignored.txt"));
}

#[test]
fn missing_root_fails_run() {
    let first = root(vec![file("/r", "a.txt", b"A")]);
    let missing = RootListing { exists: false, entries: vec![] };
    assert!(matches!(
        run(&[first, missing], &[]),
        Err(ProcessError::Aggregate(AggregateError::PathNotFound { root: 1 }))
    ));
}

#[test]
fn binary_and_default_ignored_files_are_skipped() {
    let listing = root(vec![
        file("/r", "bin.dat2", &[0u8, 159, 146, 150]),
        file("/r", "image.jpg", &[0xff, 0xd8, 0xff]),
        file("/r", "ok.txt", b"fine"),
    ]);
    assert_eq!(run(&[listing], &[]).unwrap(), "==== /r/ok.txt ====\nfine\n\n");
}

#[test]
fn undecodable_sample_fails_run() {
    let listing = root(vec![file("/r", "a.txt", b"A"), file("/r", "bad.txt", &[0xC3, 0x28])]);
    assert!(matches!(
        run(&[listing], &[]),
        Err(ProcessError::Aggregate(AggregateError::NonUtf8Sample { root: 0, entry: 1 }))
    ));
}

#[test]
fn ignored_undecodable_file_does_not_fail() {
    let listing = root(vec![file("/r", "a.txt", b"A"), file("/r", "bad.bin2", &[0xC3, 0x28])]);
    assert_eq!(run(&[listing], &["*.bin2"]).unwrap(), "==== /r/a.txt ====\nA\n\n");
}

#[test]
fn failed_probe_and_failed_read() {
    let mut unreadable = file("/r", "locked.txt", b"secret");
    unreadable.head = None;
    let listing = root(vec![unreadable]);
    assert!(matches!(
        run(&[listing], &[]),
        Err(ProcessError::Aggregate(AggregateError::ProbeFailed { root: 0, entry: 0 }))
    ));
    let mut vanished = file("/r", "gone.txt", b"text");
    vanished.content = None;
    let listing = root(vec![vanished, file("/r", "b.txt", b"B")]);
    assert_eq!(run(&[listing], &[]).unwrap(), "==== /r/b.txt ====\nB\n\n");
}

#[test]
fn lossy_decoding_of_full_content() {
    // The sample is valid; bytes past it are replaced when invalid.
    let mut bytes = vec![b'a'; 600];
    bytes.push(0xFF);
    let listing = root(vec![file("/r", "long.txt", &bytes)]);
    let out = run(&[listing], &[]).unwrap();
    let expected = format!("==== /r/long.txt ====\n{}\u{FFFD}\n\n", "a".repeat(600));
    assert_eq!(out, expected);
}

#[test]
fn aggregation_is_idempotent() {
    let make = || root(vec![file("/r", "x.txt", b"one"), dir("/r", "d"), file("/r", "d/y.txt", b"two")]);
    let set = build_ignore_set(&strings(&["z"])).unwrap();
    let a = aggregate(&set, &[make()]).unwrap();
    let b = aggregate(&set, &[make()]).unwrap();
    assert_eq!(a, b);
    assert_eq!(a, "==== /r/x.txt ====\none\n\n==== /r/d/y.txt ====\ntwo\n\n");
}

#[test]
fn dotted_relative_paths_are_normalized_before_matching() {
    let listing = root(vec![file(".", "./target/./a.txt", b"A"), file(".", "./keep.txt", b"K")]);
    assert_eq!(run(&[listing], &["target"]).unwrap(), "==== ././keep.txt ====\nK\n\n");
}

#[test]
fn trimming_removes_unicode_white_space() {
    assert_eq!(expand_pattern("\u{3000}x\t\n"), strings(&["x", "**/x", "**/x/**"]));
    assert_eq!(expand_pattern("\u{a0}*.md\u{2028}"), strings(&["*.md", "**/*.md"]));
}

#[test]
fn classify_rejects_ill_formed_utf8() {
    // An encoded surrogate, an overlong form, and a code point past U+10FFFF.
    let cases: [&[u8]; 3] = [b"ab\xed\xa0\x80", b"ab\xc0\x80", b"ab\xf4\x90\x80\x80"];
    for bytes in cases {
        assert_eq!(is_readable_text(bytes.len() as u64, bytes), Err(ClassifyError::NonUtf8Sample));
    }
    let bytes = "abcdefghij\u{10FFFF}".as_bytes();
    assert_eq!(is_readable_text(bytes.len() as u64, bytes), Ok(true));
}
