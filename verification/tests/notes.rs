use textkit::editor::{choose_editor, editor_command, extension_for};
use textkit::notes::{editable_from_note, join_tags, listing_line, EditableNote, Note, Storage};
use textkit::store::{is_blank, Format};
use textkit::text::decimal_text_u64;

fn strings(items: &[&str]) -> Vec<String> {
    items.iter().map(|t| t.to_string()).collect()
}

fn note(id: u64, title: &str, body: &str, tags: &[&str]) -> Note {
    Note {
        id,
        title: title.to_string(),
        body: body.to_string(),
        tags: strings(tags),
        created_secs: 1_700_000_000,
        created_nanos: 5,
    }
}

fn sample() -> Storage {
    Storage {
        notes: vec![
            note(1, "Groceries", "Milk and eggs", &["home", "Shopping"]),
            note(4, "Rust ideas", "Verify the parser", &["Work", "rust"]),
            note(2, "Trip", "Book a HOME stay", &["travel"]),
        ],
    }
}

#[test]
fn next_id_is_one_more_than_the_greatest() {
    assert_eq!(Storage::new().next_id(), 1);
    assert_eq!(sample().next_id(), 5);
    let zero = Storage { notes: vec![note(0, "", "", &[])] };
    assert_eq!(zero.next_id(), 1);
}

#[test]
fn add_gives_the_next_id_and_normalized_tags() {
    let mut store = sample();
    let id = store.add("New".to_string(), "Body".to_string(), strings(&[" a ", "A", "", "b"]), 7, 9);
    assert_eq!(id, 5);
    assert_eq!(store.notes.len(), 4);
    let added = &store.notes[3];
    assert_eq!(added.id, 5);
    assert_eq!(added.title, "New");
    assert_eq!(added.body, "Body");
    assert_eq!(added.tags, strings(&["a", "b"]));
    assert_eq!((added.created_secs, added.created_nanos), (7, 9));
    assert_eq!(store.notes[0].title, "Groceries");
}

#[test]
fn position_of_finds_the_first_note_with_the_id() {
    let mut store = sample();
    assert_eq!(store.position_of(4), Some(1));
    assert_eq!(store.position_of(2), Some(2));
    assert_eq!(store.position_of(3), None);
    store.notes.push(note(4, "Twin", "", &[]));
    assert_eq!(store.position_of(4), Some(1));
}

#[test]
fn remove_takes_the_note_out_and_keeps_the_order() {
    let mut store = sample();
    let removed = store.remove(4).unwrap();
    assert_eq!(removed.title, "Rust ideas");
    let titles: Vec<&str> = store.notes.iter().map(|n| n.title.as_str()).collect();
    assert_eq!(titles, vec!["Groceries", "Trip"]);
    assert!(store.remove(4).is_none());
    assert_eq!(store.notes.len(), 2);
}

#[test]
fn search_looks_in_title_body_and_tags_whatever_the_letter_case() {
    let store = sample();
    assert_eq!(store.search("home", &Vec::new()), vec![0, 2]);
    assert_eq!(store.search("RUST", &Vec::new()), vec![1]);
    assert_eq!(store.search("parser", &Vec::new()), vec![1]);
    assert_eq!(store.search("", &Vec::new()), vec![0, 1, 2]);
    assert_eq!(store.search("nothing", &Vec::new()), Vec::<usize>::new());
}

#[test]
fn search_asks_for_all_the_tags() {
    let store = sample();
    assert_eq!(store.search("", &strings(&["WORK"])), vec![1]);
    assert_eq!(store.search("", &strings(&["work", "Rust"])), vec![1]);
    assert_eq!(store.search("", &strings(&["work", "home"])), Vec::<usize>::new());
    assert_eq!(store.search("milk", &strings(&["shopping"])), vec![0]);
    assert_eq!(store.search("milk", &strings(&[" shopping"])), Vec::<usize>::new());
    assert_eq!(store.search("trip", &strings(&["home"])), Vec::<usize>::new());
}

#[test]
fn editable_from_note_holds_every_part() {
    let n = note(1, "T", "B", &["x", "y"]);
    let edit = editable_from_note(&n);
    assert_eq!(edit.title.as_deref(), Some("T"));
    assert_eq!(edit.body.as_deref(), Some("B"));
    assert_eq!(edit.tags, Some(strings(&["x", "y"])));
}

#[test]
fn apply_edit_replaces_what_is_given() {
    let mut n = note(1, "T", "B", &["x"]);
    n.apply_edit(EditableNote { title: Some("New".to_string()), body: None, tags: None });
    assert_eq!((n.title.as_str(), n.body.as_str()), ("New", "B"));
    assert_eq!(n.tags, strings(&["x"]));
    n.apply_edit(EditableNote {
        title: None,
        body: Some("Text".to_string()),
        tags: Some(strings(&[" a", "A ", "b", ""])),
    });
    assert_eq!((n.title.as_str(), n.body.as_str()), ("New", "Text"));
    assert_eq!(n.tags, strings(&["a", "b"]));
    assert_eq!((n.id, n.created_secs, n.created_nanos), (1, 1_700_000_000, 5));
}

#[test]
fn apply_changes_sets_then_adds_then_removes() {
    let mut n = note(1, "T", "B", &["old"]);
    n.apply_changes(
        EditableNote { title: None, body: None, tags: Some(strings(&["a", "b"])) },
        strings(&["B", "c", "d"]),
        strings(&["A", "D "]),
    );
    assert_eq!(n.tags, strings(&["b", "c"]));
    let mut m = note(2, "T", "B", &["keep", "drop"]);
    m.apply_changes(
        EditableNote { title: Some("U".to_string()), body: None, tags: None },
        Vec::new(),
        strings(&["DROP"]),
    );
    assert_eq!(m.title, "U");
    assert_eq!(m.tags, strings(&["keep"]));
}

#[test]
fn join_tags_puts_commas_between() {
    assert_eq!(join_tags(&Vec::new()), "");
    assert_eq!(join_tags(&strings(&["a"])), "a");
    assert_eq!(join_tags(&strings(&["a", "b", "c"])), "a,b,c");
    assert_eq!(join_tags(&strings(&["", ""])), ",");
}

#[test]
fn listing_line_sets_the_id_right() {
    let n = note(7, "Trip", "", &["travel", "plan"]);
    assert_eq!(listing_line(&n, "2024-01-02 03:04:05 UTC"), "#  7  Trip  [travel,plan]  2024-01-02 03:04:05 UTC");
    assert_eq!(listing_line(&note(42, "A", "", &[]), "t"), "# 42  A  []  t");
    assert_eq!(listing_line(&note(123, "A", "", &[]), "t"), "#123  A  []  t");
    assert_eq!(listing_line(&note(12345, "A", "", &["x"]), "t"), "#12345  A  [x]  t");
    assert_eq!(decimal_text_u64(u64::MAX), "18446744073709551615");
}

#[test]
fn blank_store_text() {
    assert!(is_blank(""));
    assert!(is_blank(" \n\t "));
    assert!(!is_blank(" {} "));
}

#[test]
fn extension_of_each_format() {
    assert_eq!(extension_for(Format::Json), "json");
    assert_eq!(extension_for(Format::Toml), "toml");
    assert_eq!(extension_for(Format::Yaml), "yaml");
}

#[test]
fn editor_is_visual_then_editor_then_the_usual() {
    let some = |s: &str| Some(s.to_string());
    assert_eq!(choose_editor(some("code -w"), some("nano"), false), "code -w");
    assert_eq!(choose_editor(None, some("nano"), false), "nano");
    assert_eq!(choose_editor(None, None, false), "vi");
    assert_eq!(choose_editor(None, None, true), "notepad");
}

#[test]
fn editor_command_is_split_like_a_shell_would() {
    assert_eq!(editor_command("code -w"), strings(&["code", "-w"]));
    assert_eq!(editor_command("vi"), strings(&["vi"]));
    assert_eq!(editor_command("'my editor' --flag \"a b\""), strings(&["my editor", "--flag", "a b"]));
    assert_eq!(editor_command("broken 'quote"), strings(&["broken 'quote"]));
    assert_eq!(editor_command(""), strings(&[""]));
    assert_eq!(editor_command("   "), strings(&["   "]));
}
