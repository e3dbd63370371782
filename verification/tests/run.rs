use textkit::error::MiniGrepError;
use textkit::options::{stop_now, MatchBudget, Options};
use textkit::pattern::Matcher;
use textkit::run::{exit_code, error_notice, SearchRun};
use textkit::scan::FileScan;

#[test]
fn stop_now_compares_with_the_cap() {
    let capped = Options::from_flags(false, false, Some(3), false);
    assert!(!stop_now(&capped, 0));
    assert!(!stop_now(&capped, 2));
    assert!(stop_now(&capped, 3));
    assert!(stop_now(&capped, 4));
    let zero = Options::from_flags(false, false, Some(0), false);
    assert!(stop_now(&zero, 0));
    let open = Options::from_flags(false, false, None, false);
    assert!(!stop_now(&open, 0));
    assert!(!stop_now(&open, usize::MAX));
}

#[test]
fn options_follow_the_switches() {
    let opts = Options::from_flags(true, true, Some(5), true);
    assert!(opts.line_number);
    assert!(!opts.color);
    assert_eq!(opts.max_count, Some(5));
    assert!(!opts.skip_binary);
    let default = Options::from_flags(false, false, None, false);
    assert!(!default.line_number);
    assert!(default.color);
    assert_eq!(default.max_count, None);
    assert!(default.skip_binary);
}

#[test]
fn budget_counts_records() {
    let mut budget = MatchBudget::new();
    assert_eq!(budget.emitted(), 0);
    budget.record();
    budget.record();
    assert_eq!(budget.emitted(), 2);
    assert!(budget.is_spent(&Options::from_flags(false, false, Some(2), false)));
    assert!(!budget.is_spent(&Options::from_flags(false, false, Some(3), false)));
    assert!(!budget.is_spent(&Options::from_flags(false, false, None, false)));
}

#[test]
fn run_remembers_any_match() {
    let matcher = Matcher::compile("rust", false, false).unwrap();
    let opts = Options::from_flags(false, true, Some(1), false);
    let mut run = SearchRun::new();
    assert!(!run.found_any());
    let mut first = FileScan::new("a");
    assert_eq!(first.scan_text("go", &matcher, &opts, &mut run.budget), None);
    assert!(!run.file_done(&first, &opts));
    assert!(!run.found_any());
    let mut second = FileScan::new("b");
    assert!(second.scan_text("rust", &matcher, &opts, &mut run.budget).is_some());
    assert!(run.file_done(&second, &opts));
    assert!(run.found_any());
    let third = FileScan::new("c");
    assert!(run.file_done(&third, &opts));
    assert!(run.found_any());
}

#[test]
fn exit_code_of_each_outcome() {
    assert_eq!(exit_code(&Ok(true)), 0);
    assert_eq!(exit_code(&Ok(false)), 1);
    let io = MiniGrepError::Io("boom".to_string());
    assert_eq!(exit_code(&Err(io)), 2);
}

#[test]
fn io_error_message_has_its_prefix() {
    let io = MiniGrepError::Io("boom".to_string());
    assert_eq!(io.message(), "I/O: boom");
    assert_eq!(error_notice(&io), "mini-grep: I/O: boom");
}

#[test]
fn message_is_the_prefix_and_the_whole_diagnostic() {
    assert_eq!(MiniGrepError::Io("no such file".to_string()).message(), "I/O: no such file");
    assert_eq!(MiniGrepError::Regex("unclosed group".to_string()).message(), "Regex: unclosed group");
    assert_eq!(
        MiniGrepError::Ignore("bad glob".to_string()).message(),
        "Ignore/.gitignore: bad glob"
    );
    assert_eq!(MiniGrepError::Io(String::new()).message(), "I/O: ");
    assert_eq!(
        error_notice(&MiniGrepError::Regex("unclosed group".to_string())),
        "mini-grep: Regex: unclosed group"
    );
}

#[test]
fn pattern_error_carries_the_diagnostic_of_the_compiler() {
    let own = regex::Regex::new("(").unwrap_err().to_string();
    let err = Matcher::compile("(", false, false).unwrap_err();
    assert_eq!(err.message(), format!("Regex: {own}"));
    assert_eq!(error_notice(&err), format!("mini-grep: Regex: {own}"));
    let direct = MiniGrepError::from_regex(&regex::Regex::new("a{2,1}").unwrap_err());
    assert_eq!(direct.message(), format!("Regex: {}", regex::Regex::new("a{2,1}").unwrap_err()));
}

#[test]
fn a_failed_read_is_noted_and_the_run_goes_on() {
    let matcher = Matcher::compile("rust", false, false).unwrap();
    let opts = Options::from_flags(false, true, Some(2), false);
    let mut run = SearchRun::new();
    let mut scan = FileScan::new("a");
    assert!(scan.scan_text("rust", &matcher, &opts, &mut run.budget).is_some());
    let (notice, stop) = run.file_failed(&scan, &opts, "permission denied");
    assert_eq!(notice, "mini-grep: I/O: permission denied");
    assert!(!stop);
    assert!(run.found_any());
    assert_eq!(run.budget.emitted(), 1);
    let mut next = FileScan::new("b");
    assert!(next.scan_text("rust", &matcher, &opts, &mut run.budget).is_some());
    let (_, stop) = run.file_failed(&next, &opts, "gone");
    assert!(stop);
    let mut fresh = SearchRun::new();
    let (_, stop) = fresh.file_failed(&FileScan::new("c"), &opts, "gone");
    assert!(!stop);
    assert!(!fresh.found_any());
}
