use textkit::options::{Options, TraversalSpec};
use textkit::pattern::Matcher;
use textkit::run::exit_code;
use textkit::snapshot::{search_roots, FileEntry, RootEntry};

const TEXT: &[u8] = b"i love rust\ngo is nice\nrust and go\n";

fn file(path: &str, content: &[u8]) -> FileEntry {
    FileEntry { path: path.to_string(), content: content.to_vec() }
}

fn walk(recurse: bool) -> TraversalSpec {
    TraversalSpec { recurse, include_hidden: false, respect_ignore_files: true, globs: Vec::new() }
}

fn tree() -> Vec<RootEntry> {
    vec![
        RootEntry::File(file("a", TEXT)),
        RootEntry::Directory("d".to_string(), vec![file("d/x", TEXT), file("d/y", TEXT)]),
        RootEntry::Missing("nope".to_string()),
        RootEntry::File(file("b", TEXT)),
    ]
}

#[test]
fn cap_holds_across_files_and_roots() {
    let matcher = Matcher::compile("o", false, false).unwrap();
    let opts = Options::from_flags(false, true, Some(4), false);
    let outcome = search_roots(&tree(), &matcher, &opts, &walk(true));
    assert_eq!(
        outcome.records,
        vec![
            "a:4: i love rust".to_string(),
            "a:2: go is nice".to_string(),
            "a:11: rust and go".to_string(),
            "d/x:4: i love rust".to_string(),
        ]
    );
    assert!(outcome.found_any);
    assert!(outcome.notices.is_empty());
}

#[test]
fn cap_at_a_file_end_stops_the_run() {
    let matcher = Matcher::compile("o", false, false).unwrap();
    let opts = Options::from_flags(false, true, Some(3), false);
    let outcome = search_roots(&tree(), &matcher, &opts, &walk(true));
    assert_eq!(outcome.records.len(), 3);
    assert!(outcome.records.iter().all(|r| r.starts_with("a:")));
    assert!(outcome.notices.is_empty());
}

#[test]
fn fewer_matches_than_the_cap_are_all_emitted_in_order() {
    let matcher = Matcher::compile("go", false, false).unwrap();
    let opts = Options::from_flags(true, true, Some(100), false);
    let outcome = search_roots(&tree(), &matcher, &opts, &walk(true));
    let mut expected = Vec::new();
    for path in ["a", "d/x", "d/y", "b"] {
        expected.push(format!("{path}:2:1: go is nice"));
        expected.push(format!("{path}:3:10: rust and go"));
    }
    assert_eq!(outcome.records, expected);
    assert_eq!(outcome.notices, vec!["mini-grep: not exists nope".to_string()]);
    assert!(outcome.found_any);
}

#[test]
fn a_cap_of_zero_emits_nothing() {
    let matcher = Matcher::compile("o", false, false).unwrap();
    let opts = Options::from_flags(false, true, Some(0), false);
    let roots = vec![
        RootEntry::Missing("nope".to_string()),
        RootEntry::File(file("a", TEXT)),
        RootEntry::Missing("later".to_string()),
        RootEntry::File(file("b", TEXT)),
    ];
    let outcome = search_roots(&roots, &matcher, &opts, &walk(true));
    assert!(outcome.records.is_empty());
    assert!(!outcome.found_any);
    assert_eq!(outcome.notices, vec!["mini-grep: not exists nope".to_string()]);
    assert_eq!(exit_code(&Ok(outcome.found_any)), 1);
}

#[test]
fn a_directory_without_recursion_only_gives_a_notice() {
    let matcher = Matcher::compile("rust", false, false).unwrap();
    let opts = Options::from_flags(false, true, None, false);
    let with = vec![
        RootEntry::File(file("a", TEXT)),
        RootEntry::Directory("d".to_string(), vec![file("d/x", TEXT)]),
        RootEntry::File(file("b", b"no match here\n")),
    ];
    let without = vec![RootEntry::File(file("a", TEXT)), RootEntry::File(file("b", b"no match here\n"))];
    let one = search_roots(&with, &matcher, &opts, &walk(false));
    let other = search_roots(&without, &matcher, &opts, &walk(false));
    assert_eq!(one.records, other.records);
    assert_eq!(one.records, vec!["a:8: i love rust".to_string(), "a:1: rust and go".to_string()]);
    assert_eq!(one.found_any, other.found_any);
    assert_eq!(
        one.notices,
        vec!["mini-grep: d is a directory (use -r to search recursively)".to_string()]
    );
    assert!(other.notices.is_empty());

    let alone = vec![RootEntry::Directory("d".to_string(), vec![file("d/x", TEXT)])];
    let outcome = search_roots(&alone, &matcher, &opts, &walk(false));
    assert!(outcome.records.is_empty());
    assert!(!outcome.found_any);
    assert_eq!(exit_code(&Ok(outcome.found_any)), 1);
    let walked = search_roots(&alone, &matcher, &opts, &walk(true));
    assert_eq!(walked.records.len(), 2);
    assert!(walked.notices.is_empty());
    assert_eq!(exit_code(&Ok(walked.found_any)), 0);
}

#[test]
fn binary_files_of_a_walk_are_left_out() {
    let matcher = Matcher::compile("rust", false, false).unwrap();
    let roots = vec![RootEntry::Directory(
        "d".to_string(),
        vec![file("d/bin", b"rust\0\n"), file("d/txt", b"rust\n")],
    )];
    let skip = Options::from_flags(false, true, None, false);
    let outcome = search_roots(&roots, &matcher, &skip, &walk(true));
    assert_eq!(outcome.records, vec!["d/txt:1: rust".to_string()]);
    let all = Options::from_flags(false, true, None, true);
    let outcome = search_roots(&roots, &matcher, &all, &walk(true));
    assert_eq!(outcome.records, vec!["d/bin:1: rust\0".to_string(), "d/txt:1: rust".to_string()]);
}

#[test]
fn no_roots_no_records() {
    let matcher = Matcher::compile("rust", false, false).unwrap();
    let opts = Options::from_flags(false, false, None, false);
    let outcome = search_roots(&Vec::new(), &matcher, &opts, &walk(true));
    assert!(outcome.records.is_empty());
    assert!(outcome.notices.is_empty());
    assert!(!outcome.found_any);
}
