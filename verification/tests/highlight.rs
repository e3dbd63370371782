use textkit::highlight::{highlight_matches, highlight_spans};
use textkit::pattern::Matcher;

fn strip(text: &str) -> String {
    text.replace("\x1b[31m", "").replace("\x1b[0m", "")
}

#[test]
fn highlight_inserts_ansi() {
    let re = Matcher::compile("rust", false, false).unwrap();
    let s = "i love rust";
    let h = highlight_matches(s, &re);
    assert!(h.contains("\x1b[31m"));
}

#[test]
fn highlight_wraps_each_match() {
    let re = Matcher::compile("rust", false, false).unwrap();
    assert_eq!(highlight_matches("i love rust", &re), "i love \x1b[31mrust\x1b[0m");
    assert_eq!(
        highlight_matches("rust and rust", &re),
        "\x1b[31mrust\x1b[0m and \x1b[31mrust\x1b[0m"
    );
    assert_eq!(highlight_matches("go is nice", &re), "go is nice");
}

#[test]
fn highlight_keeps_multibyte_text() {
    let re = Matcher::compile("語", false, false).unwrap();
    assert_eq!(highlight_matches("日本語です", &re), "日本\x1b[31m語\x1b[0mです");
}

#[test]
fn highlight_spans_takes_byte_offsets() {
    let spans = vec![(0, 1), (4, 6)];
    assert_eq!(highlight_spans("abcdefg", &spans), "\x1b[31ma\x1b[0mbcd\x1b[31mef\x1b[0mg");
    assert_eq!(highlight_spans("abc", &Vec::new()), "abc");
    assert_eq!(highlight_spans("", &Vec::new()), "");
    assert_eq!(highlight_spans("ab", &vec![(1, 1)]), "a\x1b[31m\x1b[0mb");
}

#[test]
fn highlight_without_markers_is_the_line() {
    let re = Matcher::compile("o+|é", true, false).unwrap();
    for line in ["foo boo zoo", "", "no match at all?", "éé ooo é", "xOoOx"] {
        let h = highlight_matches(line, &re);
        assert_eq!(strip(&h), line);
    }
    let spans = re.find_all("foo boo zoo");
    let h = highlight_matches("foo boo zoo", &re);
    assert_eq!(h.chars().count(), "foo boo zoo".chars().count() + 9 * spans.len());
}

#[test]
fn highlight_marks_empty_matches_too() {
    let re = Matcher::compile("x*", false, false).unwrap();
    let h = highlight_matches("ab", &re);
    assert_eq!(h, "\x1b[31m\x1b[0ma\x1b[31m\x1b[0mb\x1b[31m\x1b[0m");
    assert_eq!(strip(&h), "ab");
}
