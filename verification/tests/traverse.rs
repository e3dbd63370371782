use std::path::PathBuf;
use textkit::error::MiniGrepError;
use textkit::options::TraversalSpec;
use textkit::run::exit_code;
use textkit::traverse::{
    build_all_overrides, build_overrides, directory_notice, is_candidate, missing_notice, root_action, walk_error_notice,
    walk_settings, PathKind, RootAction, WalkSettings,
};

fn spec(recurse: bool, include_hidden: bool, respect_ignore_files: bool, globs: &[&str]) -> TraversalSpec {
    TraversalSpec {
        recurse,
        include_hidden,
        respect_ignore_files,
        globs: globs.iter().map(|g| g.to_string()).collect(),
    }
}

#[test]
fn a_file_root_is_searched_whatever_the_recursion_flag() {
    assert_eq!(root_action(PathKind::File, &spec(false, false, true, &[])), RootAction::SearchFile);
    assert_eq!(root_action(PathKind::File, &spec(true, false, true, &[])), RootAction::SearchFile);
}

#[test]
fn a_directory_root_is_walked_only_with_recursion() {
    assert_eq!(root_action(PathKind::Directory, &spec(true, false, true, &[])), RootAction::Walk);
    assert_eq!(
        root_action(PathKind::Directory, &spec(false, false, true, &[])),
        RootAction::NoteDirectory
    );
}

#[test]
fn directory_without_recursion_is_noted_and_nothing_matches() {
    let action = root_action(PathKind::Directory, &spec(false, false, true, &[]));
    assert_eq!(action, RootAction::NoteDirectory);
    assert_eq!(
        directory_notice("src"),
        "mini-grep: src is a directory (use -r to search recursively)"
    );
    assert_eq!(exit_code(&Ok(false)), 1);
    assert_eq!(exit_code(&Ok(true)), 0);
}

#[test]
fn a_missing_root_is_noted() {
    assert_eq!(root_action(PathKind::Missing, &spec(true, false, true, &[])), RootAction::NoteMissing);
    assert_eq!(root_action(PathKind::Missing, &spec(false, false, true, &[])), RootAction::NoteMissing);
    assert_eq!(missing_notice("nowhere.txt"), "mini-grep: not exists nowhere.txt");
}

#[test]
fn walk_errors_are_noted() {
    assert_eq!(walk_error_notice("permission denied"), "mini-grep: error: permission denied");
}

#[test]
fn only_regular_files_are_candidates() {
    assert!(is_candidate(Some(true)));
    assert!(!is_candidate(Some(false)));
    assert!(!is_candidate(None));
}

#[test]
fn default_walk_skips_hidden_and_honours_ignore_files() {
    assert_eq!(
        walk_settings(&spec(true, false, true, &[])),
        WalkSettings {
            skip_hidden: true,
            git_ignore: true,
            git_global: true,
            git_exclude: true,
            ignore: true,
            parents: true,
            filter_by_globs: false,
        }
    );
}

#[test]
fn ignore_files_are_switched_off_together() {
    assert_eq!(
        walk_settings(&spec(true, true, false, &["*.rs"])),
        WalkSettings {
            skip_hidden: false,
            git_ignore: false,
            git_global: false,
            git_exclude: false,
            ignore: false,
            parents: false,
            filter_by_globs: true,
        }
    );
}

#[test]
fn globs_compile_to_overrides() {
    let root = PathBuf::from("/work");
    let globs = vec!["*.rs".to_string(), "!target/**".to_string()];
    let overrides = build_overrides(&root, &globs).unwrap().unwrap();
    assert_eq!(overrides.num_whitelists(), 1);
    assert_eq!(overrides.num_ignores(), 1);
    assert!(overrides.matched("/work/src/lib.rs", false).is_whitelist());
    assert!(overrides.matched("/work/notes.txt", false).is_ignore());
    assert!(overrides.matched("/work/target/debug/x.rs", false).is_ignore());
}

#[test]
fn no_globs_means_no_overrides() {
    let root = PathBuf::from("/work");
    assert!(build_overrides(&root, &Vec::new()).unwrap().is_none());
}

#[test]
fn malformed_glob_is_an_ignore_error_with_exit_code_2() {
    let root = PathBuf::from("/work");
    let globs = vec!["*.rs".to_string(), "[abc".to_string(), "*.md".to_string()];
    let err = build_overrides(&root, &globs).unwrap_err();
    assert!(matches!(err, MiniGrepError::Ignore(_)));
    assert!(err.message().starts_with("Ignore/.gitignore: "));
    assert_eq!(exit_code(&Err(err)), 2);
}

#[test]
fn malformed_glob_carries_the_diagnostic_of_the_parser() {
    let root = PathBuf::from("/work");
    let own = ignore::overrides::OverrideBuilder::new(&root).add("[abc").unwrap_err().to_string();
    let err = build_overrides(&root, &vec!["[abc".to_string()]).unwrap_err();
    assert_eq!(err.message(), format!("Ignore/.gitignore: {own}"));
}

#[test]
fn comments_and_blank_lines_are_accepted_and_not_kept() {
    let root = PathBuf::from("/work");
    let globs = vec!["#x".to_string(), "".to_string(), "   ".to_string(), "*.rs ".to_string()];
    let overrides = build_overrides(&root, &globs).unwrap().unwrap();
    assert_eq!(overrides.num_whitelists(), 1);
    assert_eq!(overrides.num_ignores(), 0);
    assert!(overrides.matched("/work/src/lib.rs", false).is_whitelist());
    let none = build_overrides(&root, &vec!["".to_string(), "# [abc".to_string()]).unwrap().unwrap();
    assert!(none.is_empty());
    assert!(none.matched("/work/src/lib.rs", false).is_none());
}

#[test]
fn a_glob_that_ends_in_an_escaped_space_keeps_it() {
    let root = PathBuf::from("/work");
    let overrides = build_overrides(&root, &vec!["a\\ ".to_string()]).unwrap().unwrap();
    assert_eq!(overrides.num_whitelists(), 1);
    assert!(overrides.matched("/work/a ", false).is_whitelist());
    assert!(overrides.matched("/work/a", false).is_ignore());
}

#[test]
fn filters_are_built_once_for_each_root() {
    let roots = vec![PathBuf::from("/a"), PathBuf::from("/b"), PathBuf::from("/c")];
    let filters = build_all_overrides(&roots, &vec!["*.rs".to_string()]).unwrap();
    assert_eq!(filters.len(), 3);
    assert!(filters.iter().all(|f| f.is_some()));
    assert!(filters[1].as_ref().unwrap().matched("/b/x.rs", false).is_whitelist());
    let none = build_all_overrides(&roots, &Vec::new()).unwrap();
    assert_eq!(none.len(), 3);
    assert!(none.iter().all(|f| f.is_none()));
    let err = build_all_overrides(&roots, &vec!["*.rs".to_string(), "[abc".to_string()]).unwrap_err();
    assert!(matches!(err, MiniGrepError::Ignore(_)));
    assert!(build_all_overrides(&Vec::new(), &vec!["[abc".to_string()]).unwrap().is_empty());
}
