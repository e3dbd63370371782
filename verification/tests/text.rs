use textkit::text::{column_of, decimal_text, decode_line, slice_between};

#[test]
fn decode_line_drops_the_line_end() {
    assert_eq!(decode_line(b"i love rust\n"), "i love rust");
    assert_eq!(decode_line(b"i love rust\r\n"), "i love rust");
    assert_eq!(decode_line(b"i love rust"), "i love rust");
    assert_eq!(decode_line(b"tail\r\r\n\n"), "tail");
    assert_eq!(decode_line(b"\n"), "");
    assert_eq!(decode_line(b""), "");
    assert_eq!(decode_line(b"a\nb\n"), "a\nb");
    assert_eq!(decode_line(b" padded \n"), " padded ");
}

#[test]
fn decode_line_replaces_invalid_bytes() {
    assert_eq!(decode_line(b"ab\xffcd\n"), "ab\u{fffd}cd");
    assert_eq!(decode_line(b"\xe2\x82\n"), "\u{fffd}");
    assert_eq!(decode_line("€uro\n".as_bytes()), "€uro");
}

#[test]
fn column_counts_characters_not_bytes() {
    assert_eq!(column_of("€rust", 3), 2);
    assert_eq!(column_of("€rust", 0), 1);
    assert_eq!(column_of("i love rust", 7), 8);
    assert_eq!(column_of("日本語 go", 10), 5);
    assert_eq!(column_of("abc", 3), 4);
    assert_eq!(column_of("", 0), 1);
}

#[test]
fn slice_between_cuts_at_byte_offsets() {
    assert_eq!(slice_between("日本語 go", 3, 9), "本語");
    assert_eq!(slice_between("abc", 0, 3), "abc");
    assert_eq!(slice_between("abc", 2, 2), "");
}

#[test]
fn decimal_text_writes_numbers() {
    assert_eq!(decimal_text(0), "0");
    assert_eq!(decimal_text(7), "7");
    assert_eq!(decimal_text(10), "10");
    assert_eq!(decimal_text(109), "109");
    assert_eq!(decimal_text(1234567890), "1234567890");
    assert_eq!(decimal_text(usize::MAX), format!("{}", usize::MAX));
}
