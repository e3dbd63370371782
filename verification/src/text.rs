//! Lines of text: permissive decoding, line ends, character columns and
//! decimal numbers.

use vstd::prelude::*;
use vstd::string::*;
use vstd::utf8::*;

verus! {

/// The text that `bytes` decode to when every invalid sequence is replaced
/// by U+FFFD.
pub uninterp spec fn lossy_decode(bytes: Seq<u8>) -> Seq<char>;

/// `String::from_utf8_lossy`, as an owned string: the bytes decoded as UTF-8
/// with U+FFFD in place of each invalid sequence. Bytes that are valid UTF-8
/// decode to the text they encode.
#[verifier::external_body]
fn decode_lossy(raw: &[u8]) -> (text: String)
    ensures
        text@ == lossy_decode(raw@),
        valid_utf8(raw@) ==> text@ == decode_utf8(raw@),
{
    String::from_utf8_lossy(raw).into_owned()
}

/// The texts of a list of strings.
pub open spec fn texts(list: Seq<String>) -> Seq<Seq<char>> {
    Seq::new(list.len(), |i: int| list[i]@)
}

/// Whether a character has the Unicode property `White_Space`.
pub open spec fn is_white_space(c: char) -> bool {
    let v = c as u32;
    ||| 0x09 <= v <= 0x0D
    ||| v == 0x20
    ||| v == 0x85
    ||| v == 0xA0
    ||| v == 0x1680
    ||| 0x2000 <= v <= 0x200A
    ||| 0x2028 <= v <= 0x2029
    ||| v == 0x202F
    ||| v == 0x205F
    ||| v == 0x3000
}

/// `text` without the whitespace at its start.
pub open spec fn trim_start(text: Seq<char>) -> Seq<char>
    decreases text.len(),
{
    if text.len() > 0 && is_white_space(text[0]) {
        trim_start(text.drop_first())
    } else {
        text
    }
}

/// `text` without the whitespace at its end.
pub open spec fn trim_end(text: Seq<char>) -> Seq<char>
    decreases text.len(),
{
    if text.len() > 0 && is_white_space(text.last()) {
        trim_end(text.drop_last())
    } else {
        text
    }
}

/// `text` without the whitespace at its start and at its end.
pub open spec fn trimmed(text: Seq<char>) -> Seq<char> {
    trim_end(trim_start(text))
}

/// `str::trim`: the text without its leading and trailing whitespace, where
/// whitespace is what has the Unicode property `White_Space`.
#[verifier::external_body]
pub(crate) fn trim_text(text: &str) -> (inner: &str)
    ensures
        inner@ == trimmed(text@),
{
    text.trim()
}

/// A character that ends a line: line feed or carriage return.
pub open spec fn is_line_end(c: char) -> bool {
    c == '\n' || c == '\r'
}

/// `text` without the line feeds and carriage returns at its end.
pub open spec fn strip_line_end(text: Seq<char>) -> Seq<char>
    decreases text.len(),
{
    if text.len() > 0 && is_line_end(text.last()) {
        strip_line_end(text.drop_last())
    } else {
        text
    }
}

/// The line that the raw bytes of one line of a file stand for.
pub open spec fn line_text(raw: Seq<u8>) -> Seq<char> {
    strip_line_end(lossy_decode(raw))
}

/// Decodes the raw bytes of one line, replacing what is not valid UTF-8, and
/// drops the line end.
pub fn decode_line(raw: &[u8]) -> (line: String)
    ensures
        line@ == line_text(raw@),
{
    let text = decode_lossy(raw);
    String::from_str(trim_line_end(text.as_str()))
}

/// The text between two byte offsets of a UTF-8 encoding.
pub open spec fn piece(bytes: Seq<u8>, from: int, to: int) -> Seq<char> {
    decode_utf8(bytes.subrange(from, to))
}

/// The number of characters of `line` that lie before byte offset `offset`.
pub open spec fn chars_before(line: Seq<char>, offset: int) -> nat {
    piece(encode_utf8(line), 0, offset).len()
}

/// A text has at most as many characters as its encoding has bytes.
pub proof fn lemma_chars_fit_in_bytes(text: Seq<char>)
    ensures
        text.len() <= encode_utf8(text).len(),
    decreases text.len(),
{
    if text.len() > 0 {
        lemma_chars_fit_in_bytes(text.drop_first());
    }
}

/// The encoding of two texts, one after the other, is the two encodings, one
/// after the other.
pub proof fn lemma_encode_concat(a: Seq<char>, b: Seq<char>)
    ensures
        encode_utf8(a + b) == encode_utf8(a) + encode_utf8(b),
    decreases a.len(),
{
    if a.len() == 0 {
        assert(a + b =~= b);
        assert(encode_utf8(a) + encode_utf8(b) =~= encode_utf8(b));
    } else {
        assert((a + b).drop_first() =~= a.drop_first() + b);
        lemma_encode_concat(a.drop_first(), b);
        assert(encode_utf8(a + b) =~= encode_utf8(a) + encode_utf8(b));
    }
}

/// If `from` and `to` are character boundaries of `bytes`, then `from` is
/// a character boundary of the bytes before `to`, which are valid UTF-8.
pub proof fn lemma_boundary_in_prefix(bytes: Seq<u8>, from: int, to: int)
    requires
        valid_utf8(bytes),
        0 <= from <= to <= bytes.len(),
        is_char_boundary(bytes, from),
        is_char_boundary(bytes, to),
    ensures
        valid_utf8(bytes.subrange(0, to)),
        is_char_boundary(bytes.subrange(0, to), from),
{
    let head = bytes.subrange(0, to);
    valid_utf8_split(bytes, to);
    if from == to {
        is_char_boundary_start_end_of_seq(head);
    } else {
        is_char_boundary_iff_not_is_continuation_byte(bytes, from);
        is_char_boundary_iff_not_is_continuation_byte(head, from);
    }
}

/// The part of `line` between two byte offsets.
pub fn slice_between<'a>(line: &'a str, from: usize, to: usize) -> (part: &'a str)
    requires
        from <= to <= line.spec_bytes().len(),
        is_char_boundary(line.spec_bytes(), from as int),
        is_char_boundary(line.spec_bytes(), to as int),
    ensures
        part@ == piece(line.spec_bytes(), from as int, to as int),
        part.spec_bytes() == line.spec_bytes().subrange(from as int, to as int),
{
    broadcast use encode_utf8_valid_utf8, encode_utf8_decode_utf8;

    proof {
        lemma_boundary_in_prefix(line.spec_bytes(), from as int, to as int);
    }
    let (head, _) = line.split_at(to);
    let (_, part) = head.split_at(from);
    assert(part.spec_bytes() =~= line.spec_bytes().subrange(from as int, to as int));
    part
}

/// The encoding of a character ends in the byte of a line feed or of a
/// carriage return exactly if the character is one of the two, and is that
/// one byte then.
proof fn lemma_line_end_byte(c: char)
    ensures
        encode_scalar(c as u32).len() >= 1,
        is_line_end(c) <==> (encode_scalar(c as u32).last() == 10 || encode_scalar(
            c as u32,
        ).last() == 13),
        is_line_end(c) ==> encode_scalar(c as u32).len() == 1,
{
    let v = c as u32;
    char_is_scalar(c);
    if has_width_1_encoding(v) {
        assert(leading_byte_width_1(v) == v) by (bit_vector)
            requires
                has_width_1_encoding(v),
        ;
        char_u32_cast(c, v);
        char_u32_cast('\n', 10);
        char_u32_cast('\r', 13);
    } else {
        assert(last_continuation_byte(v) >= 0x80) by (bit_vector);
    }
}

/// A text with a non-empty encoding has a last character, whose encoding
/// ends the encoding of the text.
proof fn lemma_last_char(head: Seq<char>)
    requires
        encode_utf8(head).len() > 0,
    ensures
        head.len() > 0,
        is_line_end(head.last()) <==> (encode_utf8(head).last() == 10 || encode_utf8(head).last()
            == 13),
        is_line_end(head.last()) ==> encode_utf8(head.drop_last()) == encode_utf8(head).drop_last(),
{
    let c = head.last();
    let one = seq![c];
    assert(head =~= head.drop_last() + one);
    lemma_encode_concat(head.drop_last(), one);
    assert(one.drop_first().len() == 0);
    assert(encode_utf8(one.drop_first()) =~= Seq::<u8>::empty());
    assert(encode_utf8(one) =~= encode_scalar(one[0] as u32) + encode_utf8(one.drop_first()));
    assert(encode_utf8(one) =~= encode_scalar(c as u32));
    lemma_line_end_byte(c);
    if is_line_end(c) {
        assert(encode_utf8(head.drop_last()) =~= encode_utf8(head).drop_last());
    }
}

/// The encoding of the first `k` characters of a text is the start of the
/// encoding of the text, up to a character boundary.
pub proof fn lemma_prefix_encoding(text: Seq<char>, k: int)
    requires
        0 <= k <= text.len(),
    ensures
        encode_utf8(text.subrange(0, k)).len() <= encode_utf8(text).len(),
        encode_utf8(text).subrange(0, encode_utf8(text.subrange(0, k)).len() as int)
            == encode_utf8(text.subrange(0, k)),
        is_char_boundary(encode_utf8(text), encode_utf8(text.subrange(0, k)).len() as int),
{
    broadcast use encode_utf8_valid_utf8, is_char_boundary_start_end_of_seq;

    let head = text.subrange(0, k);
    let tail = text.subrange(k, text.len() as int);
    let bytes = encode_utf8(text);
    let n = encode_utf8(head).len() as int;
    assert(text =~= head + tail);
    lemma_encode_concat(head, tail);
    assert(bytes.subrange(0, n) =~= encode_utf8(head));
    if tail.len() > 0 {
        encode_utf8_first_scalar(tail);
        assert(bytes[n] == encode_utf8(tail)[0]);
        is_char_boundary_iff_not_is_continuation_byte(bytes, n);
    } else {
        assert(encode_utf8(tail) =~= Seq::<u8>::empty());
    }
}

/// Columns count characters, not bytes: at the byte offset where the
/// character of index `k` begins, `k` characters lie before, whatever the
/// number of bytes that encode them.
pub proof fn lemma_column_counts_chars(line: Seq<char>, k: int)
    requires
        0 <= k <= line.len(),
    ensures
        chars_before(line, encode_utf8(line.subrange(0, k)).len() as int) == k,
{
    lemma_prefix_encoding(line, k);
    encode_utf8_decode_utf8(line.subrange(0, k));
}

/// The text without the line feeds and carriage returns at its end.
fn trim_line_end(text: &str) -> (line: &str)
    ensures
        line@ == strip_line_end(text@),
{
    broadcast use encode_utf8_valid_utf8, encode_utf8_decode_utf8, is_char_boundary_start_end_of_seq;

    let bytes = text.as_bytes();
    let mut end = bytes.len();
    let ghost mut kept: int = text@.len() as int;
    assert(text@.subrange(0, kept) =~= text@);
    assert(bytes@.subrange(0, end as int) =~= bytes@);
    while end > 0 && (bytes[end - 1] == 10 || bytes[end - 1] == 13)
        invariant
            bytes@ == encode_utf8(text@),
            0 <= kept <= text@.len(),
            end <= bytes@.len(),
            encode_utf8(text@.subrange(0, kept)) == bytes@.subrange(0, end as int),
            strip_line_end(text@) == strip_line_end(text@.subrange(0, kept)),
        decreases end,
    {
        proof {
            let head = text@.subrange(0, kept);
            lemma_last_char(head);
            assert(head.drop_last() =~= text@.subrange(0, kept - 1));
            assert(bytes@.subrange(0, end as int).drop_last() =~= bytes@.subrange(0, end - 1));
            kept = kept - 1;
        }
        end = end - 1;
    }
    proof {
        let head = text@.subrange(0, kept);
        if end > 0 {
            lemma_last_char(head);
        } else {
            lemma_chars_fit_in_bytes(head);
        }
        assert(strip_line_end(head) == head);
        lemma_prefix_encoding(text@, kept);
    }
    slice_between(text, 0, end)
}

/// The 1-based column of byte offset `start` in `line`, counted in characters.
pub fn column_of(line: &str, start: usize) -> (column: usize)
    requires
        start <= line.spec_bytes().len(),
        is_char_boundary(line.spec_bytes(), start as int),
        1 + chars_before(line@, start as int) <= usize::MAX,
    ensures
        column == 1 + chars_before(line@, start as int),
{
    broadcast use encode_utf8_valid_utf8, is_char_boundary_start_end_of_seq;

    let head = slice_between(line, 0, start);
    head.unicode_len() + 1
}

/// The character for a decimal digit.
pub open spec fn digit(d: nat) -> char {
    if d == 0 {
        '0'
    } else if d == 1 {
        '1'
    } else if d == 2 {
        '2'
    } else if d == 3 {
        '3'
    } else if d == 4 {
        '4'
    } else if d == 5 {
        '5'
    } else if d == 6 {
        '6'
    } else if d == 7 {
        '7'
    } else if d == 8 {
        '8'
    } else {
        '9'
    }
}

/// A number in decimal, without leading zeros.
pub open spec fn decimal(n: nat) -> Seq<char>
    decreases n,
{
    if n < 10 {
        seq![digit(n)]
    } else {
        decimal(n / 10).push(digit(n % 10))
    }
}

fn digit_text(d: usize) -> (text: &'static str)
    requires
        d < 10,
    ensures
        text@ == seq![digit(d as nat)],
{
    proof {
        reveal_strlit("0");
        reveal_strlit("1");
        reveal_strlit("2");
        reveal_strlit("3");
        reveal_strlit("4");
        reveal_strlit("5");
        reveal_strlit("6");
        reveal_strlit("7");
        reveal_strlit("8");
        reveal_strlit("9");
    }
    let text = if d == 0 {
        "0"
    } else if d == 1 {
        "1"
    } else if d == 2 {
        "2"
    } else if d == 3 {
        "3"
    } else if d == 4 {
        "4"
    } else if d == 5 {
        "5"
    } else if d == 6 {
        "6"
    } else if d == 7 {
        "7"
    } else if d == 8 {
        "8"
    } else {
        "9"
    };
    assert(text@ =~= seq![digit(d as nat)]);
    text
}

/// Writes a number in decimal.
pub fn decimal_text_u64(n: u64) -> (text: String)
    ensures
        text@ == decimal(n as nat),
    decreases n,
{
    if n < 10 {
        String::from_str(digit_text(n as usize))
    } else {
        let mut text = decimal_text_u64(n / 10);
        text.append(digit_text((n % 10) as usize));
        assert(text@ =~= decimal(n as nat));
        text
    }
}

/// Writes a number in decimal.
pub fn decimal_text(n: usize) -> (text: String)
    ensures
        text@ == decimal(n as nat),
{
    decimal_text_u64(n as u64)
}

} // verus!
