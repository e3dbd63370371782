use textkit::error::MiniGrepError;
use textkit::pattern::{wrap_pattern, Matcher};
use textkit::run::{exit_code, error_notice};

#[test]
fn word_boundary_wraps_pattern() {
    let pat = "rust|go";
    let wrapped = wrap_pattern(pat, true);
    assert_eq!(wrapped, r"\b(?:rust|go)\b");
}

#[test]
fn pattern_without_whole_word_is_compiled_as_given() {
    assert_eq!(wrap_pattern("rust|go", false), "rust|go");
    assert_eq!(wrap_pattern("", true), r"\b(?:)\b");
}

#[test]
fn whole_word_does_not_match_inside_identifier() {
    let m = Matcher::compile("cat", false, true).unwrap();
    assert_eq!(m.find("category"), None);
    assert_eq!(m.find("concat"), None);
    assert_eq!(m.find("a cat sat"), Some((2, 5)));
    let plain = Matcher::compile("cat", false, false).unwrap();
    assert_eq!(plain.find("category"), Some((0, 3)));
}

#[test]
fn whole_word_anchors_each_alternative() {
    let m = Matcher::compile("foo|bar", false, true).unwrap();
    assert_eq!(m.find("foobar bar"), Some((7, 10)));
    assert_eq!(m.find("xfoo foo"), Some((5, 8)));
    assert_eq!(m.find("foobar"), None);
}

#[test]
fn ignore_case_matches_any_letter_case() {
    let m = Matcher::compile("rust", true, false).unwrap();
    assert_eq!(m.find("I love RuSt"), Some((7, 11)));
    let strict = Matcher::compile("rust", false, false).unwrap();
    assert_eq!(strict.find("I love RuSt"), None);
}

#[test]
fn find_gives_the_leftmost_match_in_byte_offsets() {
    let m = Matcher::compile("go", false, false).unwrap();
    assert_eq!(m.find("rust and go, go"), Some((9, 11)));
    assert_eq!(m.find("日本語 go"), Some((10, 12)));
    assert_eq!(m.find("nothing here"), None);
}

#[test]
fn find_all_gives_non_overlapping_matches_in_order() {
    let m = Matcher::compile("aa", false, false).unwrap();
    assert_eq!(m.find_all("aaaaa"), vec![(0, 2), (2, 4)]);
    let ws = Matcher::compile("go", false, false).unwrap();
    assert_eq!(ws.find_all("go, gopher, ago"), vec![(0, 2), (4, 6), (13, 15)]);
    assert_eq!(ws.find_all("rust"), Vec::<(usize, usize)>::new());
}

#[test]
fn invalid_pattern_is_a_regex_error_with_exit_code_2() {
    let outcome = Matcher::compile("(", false, false);
    let err = outcome.unwrap_err();
    assert!(matches!(err, MiniGrepError::Regex(_)));
    let message = err.message();
    assert!(message.starts_with("Regex: "));
    assert!(message.len() > "Regex: ".len());
    assert!(error_notice(&err).starts_with("mini-grep: Regex: "));
    assert_eq!(exit_code(&Err(err)), 2);
}

#[test]
fn invalid_pattern_stays_invalid_with_whole_word() {
    assert!(Matcher::compile("(", true, true).is_err());
    assert!(Matcher::compile("[a-", false, true).is_err());
}

#[test]
fn whole_word_wraps_the_pattern_as_written() {
    assert!(Matcher::compile("a)|(b", false, false).is_err());
    let m = Matcher::compile("a)|(b", false, true).unwrap();
    assert_eq!(m.pattern(), "a)|(b");
    assert!(m.whole_word());
    assert!(!m.ignore_case());
    assert_eq!(m.find("a1"), Some((0, 1)));
    assert_eq!(m.find("1b"), Some((1, 2)));
}
