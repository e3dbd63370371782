use textkit::options::Options;
use textkit::sniff::{is_probably_binary, skips_file, SNIFF_LEN};

#[test]
fn nul_in_the_first_bytes_means_binary() {
    assert!(is_probably_binary(b"\0"));
    assert!(is_probably_binary(b"abc\0def"));
    assert!(!is_probably_binary(b"abc def"));
    assert!(!is_probably_binary(b""));
}

#[test]
fn only_the_first_1024_bytes_are_sniffed() {
    assert_eq!(SNIFF_LEN, 1024);
    let mut content = vec![b'a'; 2048];
    content[1024] = 0;
    assert!(!is_probably_binary(&content));
    content[1023] = 0;
    assert!(is_probably_binary(&content));
    let mut short = vec![b'a'; 10];
    short[9] = 0;
    assert!(is_probably_binary(&short));
}

#[test]
fn binary_files_are_skipped_by_default_only() {
    let default = Options::from_flags(false, false, None, false);
    assert!(default.skip_binary);
    assert!(skips_file(&default, b"a\0b"));
    assert!(!skips_file(&default, b"ab"));
    let with_binary = Options::from_flags(false, false, None, true);
    assert!(!with_binary.skip_binary);
    assert!(!skips_file(&with_binary, b"a\0b"));
}
