//! The highlighter: emphasis markers around the matches of a line.

use vstd::prelude::*;
use vstd::string::*;
use vstd::utf8::*;
use crate::pattern::{span_fits, spans_in_order, Matcher};
use crate::text::{lemma_boundary_in_prefix, piece, slice_between};

verus! {

/// The marker put in front of a match: the ANSI sequence for red.
pub open spec fn mark_start() -> Seq<char> {
    seq!['\u{1b}', '[', '3', '1', 'm']
}

/// The marker put behind a match: the ANSI sequence that resets the colour.
pub open spec fn mark_end() -> Seq<char> {
    seq!['\u{1b}', '[', '0', 'm']
}

/// The rest of a line of encoding `bytes` from byte offset `from` on, with
/// each of `spans` between the two markers and the text around them as it is.
pub open spec fn highlighted_from(bytes: Seq<u8>, spans: Seq<(usize, usize)>, from: int) -> Seq<char>
    decreases spans.len(),
{
    if spans.len() == 0 {
        piece(bytes, from, bytes.len() as int)
    } else {
        let (start, end) = spans[0];
        piece(bytes, from, start as int) + mark_start() + piece(bytes, start as int, end as int)
            + mark_end() + highlighted_from(bytes, spans.drop_first(), end as int)
    }
}

/// `line` with each of `spans`, given in byte offsets, between the two
/// markers: the line's own text in its order, and the markers as the only
/// additions.
pub open spec fn highlighted(line: Seq<char>, spans: Seq<(usize, usize)>) -> Seq<char> {
    highlighted_from(encode_utf8(line), spans, 0)
}

/// `text` without the markers in it, read from left to right.
pub open spec fn without_markers(text: Seq<char>) -> Seq<char>
    decreases text.len(),
{
    if text.len() == 0 {
        text
    } else if mark_start().is_prefix_of(text) {
        without_markers(text.skip(5))
    } else if mark_end().is_prefix_of(text) {
        without_markers(text.skip(4))
    } else {
        seq![text[0]] + without_markers(text.skip(1))
    }
}

/// One of the two markers stands in `text` at index `i`.
pub open spec fn marker_at(text: Seq<char>, i: int) -> bool {
    0 <= i <= text.len() && (mark_start().is_prefix_of(text.skip(i)) || mark_end().is_prefix_of(
        text.skip(i),
    ))
}

/// One of the two markers stands somewhere in `text`.
pub open spec fn has_marker(text: Seq<char>) -> bool {
    exists|i: int| marker_at(text, i)
}

/// If `from` and `to` are character boundaries of `bytes`, then `to` is a
/// character boundary of the bytes from `from` on, which are valid UTF-8.
proof fn lemma_boundary_in_suffix(bytes: Seq<u8>, from: int, to: int)
    requires
        valid_utf8(bytes),
        0 <= from <= to <= bytes.len(),
        is_char_boundary(bytes, from),
        is_char_boundary(bytes, to),
    ensures
        valid_utf8(bytes.subrange(from, bytes.len() as int)),
        is_char_boundary(bytes.subrange(from, bytes.len() as int), to - from),
{
    let tail = bytes.subrange(from, bytes.len() as int);
    valid_utf8_split(bytes, from);
    if to == bytes.len() {
        is_char_boundary_start_end_of_seq(tail);
    } else {
        is_char_boundary_iff_not_is_continuation_byte(bytes, to);
        is_char_boundary_iff_not_is_continuation_byte(tail, to - from);
    }
}

/// Two pieces that meet at a character boundary make up the piece that spans both.
proof fn lemma_piece_split(bytes: Seq<u8>, a: int, c: int, d: int)
    requires
        valid_utf8(bytes),
        0 <= a <= c <= d <= bytes.len(),
        is_char_boundary(bytes, a),
        is_char_boundary(bytes, c),
        is_char_boundary(bytes, d),
    ensures
        piece(bytes, a, d) == piece(bytes, a, c) + piece(bytes, c, d),
{
    let tail = bytes.subrange(a, bytes.len() as int);
    lemma_boundary_in_suffix(bytes, a, c);
    lemma_boundary_in_suffix(bytes, a, d);
    lemma_boundary_in_prefix(tail, c - a, d - a);
    let sub = tail.subrange(0, d - a);
    assert(sub =~= bytes.subrange(a, d));
    decode_utf8_split(sub, c - a);
    assert(sub.subrange(0, c - a) =~= bytes.subrange(a, c));
    assert(sub.subrange(c - a, sub.len() as int) =~= bytes.subrange(c, d));
}

/// A line is the text before a piece of it, the piece, and the text behind it.
pub proof fn lemma_line_around_piece(line: Seq<char>, a: int, c: int)
    requires
        0 <= a <= c <= encode_utf8(line).len(),
        is_char_boundary(encode_utf8(line), a),
        is_char_boundary(encode_utf8(line), c),
    ensures
        line == piece(encode_utf8(line), 0, a) + piece(encode_utf8(line), a, c) + piece(
            encode_utf8(line),
            c,
            encode_utf8(line).len() as int,
        ),
{
    broadcast use encode_utf8_valid_utf8, is_char_boundary_start_end_of_seq;

    let bytes = encode_utf8(line);
    let len = bytes.len() as int;
    lemma_piece_split(bytes, 0, a, len);
    lemma_piece_split(bytes, a, c, len);
    assert(bytes.subrange(0, len) =~= bytes);
    encode_utf8_decode_utf8(line);
}

/// Where no marker begins inside `x` in `x + y`, taking the markers out of
/// `x + y` leaves `x` as it is.
proof fn lemma_plain_prefix(x: Seq<char>, y: Seq<char>)
    requires
        forall|i: int| 0 <= i < x.len() ==> !marker_at(x + y, i),
    ensures
        without_markers(x + y) == x + without_markers(y),
    decreases x.len(),
{
    if x.len() == 0 {
        assert(x + y =~= y);
        assert(x + without_markers(y) =~= without_markers(y));
    } else {
        let t = x + y;
        let x1 = x.skip(1);
        assert(!marker_at(t, 0));
        assert(t.skip(0) =~= t);
        assert(t.skip(1) =~= x1 + y);
        assert forall|i: int| 0 <= i < x1.len() implies !marker_at(x1 + y, i) by {
            assert(!marker_at(t, i + 1));
            assert(t.skip(i + 1) =~= (x1 + y).skip(i));
        }
        lemma_plain_prefix(x1, y);
        assert(x =~= seq![x[0]] + x1);
        assert(without_markers(t) =~= x + without_markers(y));
    }
}

/// In a line without markers, no marker begins inside a piece of the line,
/// whatever follows the piece, if that begins with the escape character or is empty.
proof fn lemma_piece_is_plain(pre: Seq<char>, x: Seq<char>, post: Seq<char>, y: Seq<char>)
    requires
        !has_marker(pre + x + post),
        y.len() == 0 || y[0] == '\u{1b}',
    ensures
        forall|i: int| 0 <= i < x.len() ==> !marker_at(x + y, i),
{
    let line = pre + x + post;
    assert forall|i: int| 0 <= i < x.len() implies !marker_at(x + y, i) by {
        if marker_at(x + y, i) {
            let t = (x + y).skip(i);
            let m = if mark_start().is_prefix_of(t) {
                mark_start()
            } else {
                mark_end()
            };
            assert(m.is_prefix_of(t));
            assert(m =~= t.subrange(0, m.len() as int));
            let u = line.skip(pre.len() + i);
            if i + m.len() <= x.len() {
                assert forall|k: int| 0 <= k < m.len() implies m[k] == u[k] by {
                    assert(m[k] == t.subrange(0, m.len() as int)[k]);
                }
                assert(m =~= u.subrange(0, m.len() as int));
                assert(marker_at(line, pre.len() + i));
            } else {
                let k = x.len() - i;
                assert(m[k] == t.subrange(0, m.len() as int)[k]);
                assert(t[k] == y[0]);
            }
        }
    }
}

/// Spans in order without the first of them are in order, and begin where
/// the first ends or later.
proof fn lemma_rest_in_order(bytes: Seq<u8>, spans: Seq<(usize, usize)>)
    requires
        spans_in_order(bytes, spans),
        spans.len() > 0,
    ensures
        span_fits(bytes, spans[0]),
        spans_in_order(bytes, spans.drop_first()),
        spans.len() > 1 ==> spans[0].1 <= spans.drop_first()[0].0,
{
    let rest = spans.drop_first();
    assert forall|i: int| 0 <= i < rest.len() implies span_fits(bytes, #[trigger] rest[i]) by {
        assert(rest[i] == spans[i + 1]);
    }
    assert forall|i: int, j: int| 0 <= i < j < rest.len() implies (#[trigger] rest[i]).1 <= (
    #[trigger] rest[j]).0 by {
        assert(rest[i] == spans[i + 1] && rest[j] == spans[j + 1]);
    }
    if rest.len() > 0 {
        assert(rest[0] == spans[1]);
        assert(spans[0].1 <= spans[1].0);
    }
}

/// A text holds a marker if what follows some start of it begins with one.
proof fn lemma_marker_behind(head: Seq<char>, tail: Seq<char>)
    requires
        mark_start().is_prefix_of(tail) || mark_end().is_prefix_of(tail),
    ensures
        has_marker(head + tail),
{
    assert((head + tail).skip(head.len() as int) =~= tail);
    assert(marker_at(head + tail, head.len() as int));
}

/// A text that holds a marker holds it behind any other text too.
pub proof fn lemma_marker_stays(head: Seq<char>, tail: Seq<char>)
    requires
        has_marker(tail),
    ensures
        has_marker(head + tail),
{
    let i = choose|i: int| marker_at(tail, i);
    assert((head + tail).skip(head.len() + i) =~= tail.skip(i));
    assert(marker_at(head + tail, head.len() + i));
}

/// A line that is highlighted at one span or more holds a marker.
pub proof fn lemma_highlight_marks(line: Seq<char>, spans: Seq<(usize, usize)>)
    requires
        spans.len() > 0,
    ensures
        has_marker(highlighted(line, spans)),
{
    let bytes = encode_utf8(line);
    let (start, end) = spans[0];
    let lead = piece(bytes, 0, start as int);
    let tail = mark_start() + piece(bytes, start as int, end as int) + mark_end()
        + highlighted_from(bytes, spans.drop_first(), end as int);
    assert(highlighted(line, spans) =~= lead + tail);
    assert(tail.subrange(0, 5) =~= mark_start());
    lemma_marker_behind(lead, tail);
}

/// Taking the markers out of the highlighted rest of a line gives the rest of the line.
proof fn lemma_round_trip_from(line: Seq<char>, spans: Seq<(usize, usize)>, from: int)
    requires
        spans_in_order(encode_utf8(line), spans),
        0 <= from <= encode_utf8(line).len(),
        is_char_boundary(encode_utf8(line), from),
        spans.len() > 0 ==> from <= spans[0].0,
        !has_marker(line),
    ensures
        without_markers(highlighted_from(encode_utf8(line), spans, from)) == piece(
            encode_utf8(line),
            from,
            encode_utf8(line).len() as int,
        ),
    decreases spans.len(),
{
    broadcast use encode_utf8_valid_utf8, is_char_boundary_start_end_of_seq;

    let bytes = encode_utf8(line);
    let len = bytes.len() as int;
    let none = Seq::<char>::empty();
    if spans.len() == 0 {
        let x = piece(bytes, from, len);
        lemma_line_around_piece(line, from, len);
        assert(bytes.subrange(len, len) =~= Seq::<u8>::empty());
        assert(piece(bytes, len, len) =~= none);
        lemma_piece_is_plain(piece(bytes, 0, from), x, none, none);
        lemma_plain_prefix(x, none);
        assert(x + none =~= x);
    } else {
        let (start, end) = spans[0];
        let rest = spans.drop_first();
        assert(span_fits(bytes, spans[0]));
        let lead = piece(bytes, from, start as int);
        let core = piece(bytes, start as int, end as int);
        let tail = highlighted_from(bytes, rest, end as int);
        let y1 = mark_end() + tail;
        let z = core + y1;
        let y0 = mark_start() + z;
        assert(highlighted_from(bytes, spans, from) =~= lead + y0);

        lemma_line_around_piece(line, from, start as int);
        lemma_piece_is_plain(piece(bytes, 0, from), lead, piece(bytes, start as int, len), y0);
        lemma_plain_prefix(lead, y0);

        assert(mark_start().is_prefix_of(y0));
        assert(y0.skip(5) =~= z);

        lemma_line_around_piece(line, start as int, end as int);
        lemma_piece_is_plain(piece(bytes, 0, start as int), core, piece(bytes, end as int, len), y1);
        lemma_plain_prefix(core, y1);

        assert(!mark_start().is_prefix_of(y1)) by {
            if mark_start().is_prefix_of(y1) {
                assert(mark_start()[2] == y1.subrange(0, 5)[2]);
            }
        }
        assert(mark_end().is_prefix_of(y1));
        assert(y1.skip(4) =~= tail);

        lemma_rest_in_order(bytes, spans);
        lemma_round_trip_from(line, rest, end as int);

        lemma_piece_split(bytes, from, start as int, len);
        lemma_piece_split(bytes, start as int, end as int, len);
        assert(lead + (core + piece(bytes, end as int, len)) =~= piece(bytes, from, len));
    }
}

/// Taking the markers out of a highlighted line gives the line back, for
/// every line that holds no marker of its own.
pub proof fn lemma_highlight_round_trip(line: Seq<char>, spans: Seq<(usize, usize)>)
    requires
        spans_in_order(encode_utf8(line), spans),
        !has_marker(line),
    ensures
        without_markers(highlighted(line, spans)) == line,
{
    broadcast use encode_utf8_valid_utf8, is_char_boundary_start_end_of_seq;

    let bytes = encode_utf8(line);
    if spans.len() > 0 {
        assert(span_fits(bytes, spans[0]));
    }
    lemma_round_trip_from(line, spans, 0);
    assert(bytes.subrange(0, bytes.len() as int) =~= bytes);
    encode_utf8_decode_utf8(line);
}

/// The highlighted rest of a line is the rest of the line and two markers for each span.
proof fn lemma_length_from(line: Seq<char>, spans: Seq<(usize, usize)>, from: int)
    requires
        spans_in_order(encode_utf8(line), spans),
        0 <= from <= encode_utf8(line).len(),
        is_char_boundary(encode_utf8(line), from),
        spans.len() > 0 ==> from <= spans[0].0,
    ensures
        highlighted_from(encode_utf8(line), spans, from).len() == piece(
            encode_utf8(line),
            from,
            encode_utf8(line).len() as int,
        ).len() + 9 * spans.len(),
    decreases spans.len(),
{
    broadcast use encode_utf8_valid_utf8, is_char_boundary_start_end_of_seq;

    let bytes = encode_utf8(line);
    let len = bytes.len() as int;
    if spans.len() > 0 {
        let (start, end) = spans[0];
        let rest = spans.drop_first();
        assert(span_fits(bytes, spans[0]));
        lemma_rest_in_order(bytes, spans);
        lemma_length_from(line, rest, end as int);
        lemma_piece_split(bytes, from, start as int, len);
        lemma_piece_split(bytes, start as int, end as int, len);
    }
}

/// Highlighting adds to a line the two markers of each span, nine
/// characters in all, and nothing else.
pub proof fn lemma_highlight_length(line: Seq<char>, spans: Seq<(usize, usize)>)
    requires
        spans_in_order(encode_utf8(line), spans),
    ensures
        highlighted(line, spans).len() == line.len() + 9 * spans.len(),
{
    broadcast use encode_utf8_valid_utf8, is_char_boundary_start_end_of_seq;

    let bytes = encode_utf8(line);
    if spans.len() > 0 {
        assert(span_fits(bytes, spans[0]));
    }
    lemma_length_from(line, spans, 0);
    assert(bytes.subrange(0, bytes.len() as int) =~= bytes);
    encode_utf8_decode_utf8(line);
}

/// Wraps each of `spans` in `line` in the two markers and copies the text
/// between them as it is.
pub fn highlight_spans(line: &str, spans: &Vec<(usize, usize)>) -> (out: String)
    requires
        spans_in_order(line.spec_bytes(), spans@),
    ensures
        out@ == highlighted(line@, spans@),
        !has_marker(line@) ==> without_markers(out@) == line@,
        spans@.len() > 0 ==> has_marker(out@),
{
    broadcast use encode_utf8_valid_utf8, is_char_boundary_start_end_of_seq;

    proof {
        if !has_marker(line@) {
            lemma_highlight_round_trip(line@, spans@);
        }
        if spans@.len() > 0 {
            lemma_highlight_marks(line@, spans@);
        }
    }
    let ghost bytes = line.spec_bytes();
    proof {
        reveal_strlit("\x1b[31m");
        reveal_strlit("\x1b[0m");
    }
    let mut out = String::new();
    let mut last: usize = 0;
    let mut i: usize = 0;
    assert(spans@.skip(0) =~= spans@);
    while i < spans.len()
        invariant
            bytes == line.spec_bytes(),
            valid_utf8(bytes),
            spans_in_order(bytes, spans@),
            i <= spans.len(),
            last <= bytes.len(),
            is_char_boundary(bytes, last as int),
            i < spans.len() ==> last <= spans[i as int].0,
            "\x1b[31m"@ =~= mark_start(),
            "\x1b[0m"@ =~= mark_end(),
            highlighted(line@, spans@) == out@ + highlighted_from(
                bytes,
                spans@.skip(i as int),
                last as int,
            ),
        decreases spans.len() - i,
    {
        let (start, end) = spans[i];
        let ghost rest = spans@.skip(i as int);
        assert(span_fits(bytes, spans@[i as int]));
        assert(rest[0] == spans@[i as int]);
        assert(rest.drop_first() =~= spans@.skip(i + 1));
        let ghost before = out@;
        out.append(slice_between(line, last, start));
        out.append("\x1b[31m");
        out.append(slice_between(line, start, end));
        out.append("\x1b[0m");
        assert(out@ =~= before + (piece(bytes, last as int, start as int) + mark_start() + piece(
            bytes,
            start as int,
            end as int,
        ) + mark_end()));
        assert(highlighted_from(bytes, rest, last as int) =~= piece(bytes, last as int, start as int)
            + mark_start() + piece(bytes, start as int, end as int) + mark_end() + highlighted_from(
            bytes,
            spans@.skip(i + 1),
            end as int,
        ));
        last = end;
        i = i + 1;
    }
    assert(spans@.skip(i as int).len() == 0);
    let len = line.as_bytes().len();
    out.append(slice_between(line, last, len));
    out
}

/// `line` with every match of `matcher` between the two markers.
pub fn highlight_matches(line: &str, matcher: &Matcher) -> (out: String)
    ensures
        out@ == highlighted(line@, matcher@.all_in(line@)),
        !has_marker(line@) ==> without_markers(out@) == line@,
        matcher@.first_in(line@) is Some ==> has_marker(out@),
{
    let spans = matcher.find_all(line);
    highlight_spans(line, &spans)
}

} // verus!
