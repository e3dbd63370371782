use textkit::store::{default_store_for, Format};
use textkit::tags::{add_tags, normalize_tags, remove_tags};

fn list(tags: &[&str]) -> Vec<String> {
    tags.iter().map(|t| t.to_string()).collect()
}

#[test]
fn default_store_has_the_extension_of_the_format() {
    assert_eq!(default_store_for(Format::Json), "notes.json");
    assert_eq!(default_store_for(Format::Toml), "notes.toml");
    assert_eq!(default_store_for(Format::Yaml), "notes.yaml");
}

#[test]
fn normalize_trims_and_drops_empty_tags() {
    assert_eq!(normalize_tags(list(&[" work ", "", "   ", "\tideas\n"])), list(&["work", "ideas"]));
    assert_eq!(normalize_tags(Vec::new()), Vec::<String>::new());
    assert_eq!(normalize_tags(list(&["a b"])), list(&["a b"]));
}

#[test]
fn normalize_keeps_the_first_of_tags_equal_up_to_case() {
    assert_eq!(
        normalize_tags(list(&["Work", "work", "IDEAS", " Ideas", "WORK ", "home"])),
        list(&["Work", "IDEAS", "home"])
    );
    assert_eq!(normalize_tags(list(&["École", "école", "ÉCOLE"])), list(&["École"]));
}

#[test]
fn add_tags_appends_what_is_new() {
    let mut tags = list(&["Work", "home"]);
    add_tags(&mut tags, list(&[" work", "Ideas ", "ideas", "", "HOME", "rust"]));
    assert_eq!(tags, list(&["Work", "home", "Ideas", "rust"]));
    let mut empty = Vec::new();
    add_tags(&mut empty, list(&["a", "A", "b"]));
    assert_eq!(empty, list(&["a", "b"]));
    let mut same = list(&["x"]);
    add_tags(&mut same, Vec::new());
    assert_eq!(same, list(&["x"]));
}

#[test]
fn add_tags_leaves_existing_tags_as_they_are() {
    let mut tags = list(&[" odd ", "Odd", "odd"]);
    add_tags(&mut tags, list(&["ODD", "new"]));
    assert_eq!(tags, list(&[" odd ", "Odd", "odd", "new"]));
}

#[test]
fn remove_tags_ignores_case_and_padding() {
    let mut tags = list(&["Work", "home", "Ideas", "rust"]);
    remove_tags(&mut tags, list(&[" WORK ", "ideas", "missing", ""]));
    assert_eq!(tags, list(&["home", "rust"]));
    let mut all = list(&["a", "A", "b"]);
    remove_tags(&mut all, list(&["a"]));
    assert_eq!(all, list(&["b"]));
}

#[test]
fn remove_tags_with_nothing_to_remove() {
    let mut tags = list(&["Work", ""]);
    remove_tags(&mut tags, list(&["", "   "]));
    assert_eq!(tags, list(&["Work", ""]));
    remove_tags(&mut tags, Vec::new());
    assert_eq!(tags, list(&["Work", ""]));
}

#[test]
fn whitespace_is_what_unicode_calls_white_space() {
    let padded = "\u{00a0}\u{3000}\u{2003}\u{0085}\u{1680}\u{2028}\u{205f}\u{202f} tag \t\n\u{000b}\u{000c}\r\u{2029}\u{200a}";
    assert_eq!(normalize_tags(list(&[padded])), list(&["tag"]));
    assert_eq!(normalize_tags(list(&["\u{200b}tag\u{200b}"])), list(&["\u{200b}tag\u{200b}"]));
    assert_eq!(normalize_tags(list(&["\u{180e}x", "\u{feff}", "\u{001f}"])), list(&["\u{180e}x", "\u{feff}", "\u{001f}"]));
    assert_eq!(normalize_tags(list(&["\u{2000}", "\u{00a0}\u{0020}"])), Vec::<String>::new());
}
