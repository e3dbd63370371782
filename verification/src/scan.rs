//! The line scanner: one line of a file at a time, from raw bytes to the
//! record that is emitted for it.

use vstd::prelude::*;
use vstd::slice::slice_subrange;
use vstd::string::*;
use vstd::utf8::*;
use crate::highlight::{
    has_marker, highlight_spans, highlighted, lemma_highlight_length, lemma_line_around_piece,
    lemma_marker_stays,
};
use crate::options::{
    budget_spent, budget_step, emitted_after, lemma_budget_run, MatchBudget, Options,
};
use crate::sniff::{has_nul_at_start, skips_file};
use crate::pattern::{Matcher, MatcherView};
use crate::text::{
    chars_before, column_of, decimal, decimal_text, decode_line, lemma_chars_fit_in_bytes,
    lemma_column_counts_chars, line_text, texts,
};

verus! {

/// The text of a line as it is shown: with its matches highlighted, or as it is.
pub open spec fn rendered(opts: Options, matcher: MatcherView, line: Seq<char>) -> Seq<char> {
    if opts.color {
        highlighted(line, matcher.all_in(line))
    } else {
        line
    }
}

/// A record: the path, the line number if there is one, the column, a colon
/// and a space, and the text, with a colon after the path and after each number.
pub open spec fn record_text(
    path: Seq<char>,
    line_no: Option<nat>,
    column: nat,
    text: Seq<char>,
) -> Seq<char> {
    let number = match line_no {
        Some(n) => decimal(n) + seq![':'],
        None => Seq::<char>::empty(),
    };
    path + seq![':'] + number + decimal(column) + seq![':', ' '] + text
}

/// The 1-based column, in characters, of the first match in `line`.
pub open spec fn first_column(matcher: MatcherView, line: Seq<char>) -> nat
    recommends
        matcher.first_in(line) is Some,
{
    let (start, _) = matcher.first_in(line).unwrap();
    1 + chars_before(line, start as int)
}

/// The record for `line`, the `line_no`-th line of the file at `path`.
pub open spec fn record_of(
    path: Seq<char>,
    opts: Options,
    matcher: MatcherView,
    line_no: nat,
    line: Seq<char>,
) -> Seq<char>
    recommends
        matcher.first_in(line) is Some,
{
    record_text(
        path,
        if opts.line_number {
            Some(line_no)
        } else {
            None
        },
        first_column(matcher, line),
        rendered(opts, matcher, line),
    )
}

/// The part of a record in front of the text, without the colon and the
/// space that end it.
fn record_head(path: &str, line_no: Option<usize>, column: usize) -> (head: String)
    ensures
        head@ == path@ + seq![':'] + (match line_no {
            Some(n) => decimal(n as nat) + seq![':'],
            None => Seq::<char>::empty(),
        }) + decimal(column as nat),
{
    proof {
        reveal_strlit(":");
    }
    assert(":"@ =~= seq![':']);
    let mut head = String::from_str(path);
    head.append(":");
    match line_no {
        Some(n) => {
            let number = decimal_text(n);
            head.append(number.as_str());
            head.append(":");
            assert(head@ =~= path@ + seq![':'] + (decimal(n as nat) + seq![':']));
        },
        None => {
            assert(head@ =~= path@ + seq![':'] + Seq::<char>::empty());
        },
    }
    let digits = decimal_text(column);
    head.append(digits.as_str());
    head
}

/// The end of a record: a colon, a space and the text.
fn record_tail(text: &str) -> (tail: String)
    ensures
        tail@ == seq![':', ' '] + text@,
{
    proof {
        reveal_strlit(": ");
    }
    assert(": "@ =~= seq![':', ' ']);
    let mut tail = String::from_str(": ");
    tail.append(text);
    tail
}

/// Puts a record together; see [`record_text`].
pub fn format_record(path: &str, line_no: Option<usize>, column: usize, text: &str) -> (record:
    String)
    ensures
        record@ == record_text(
            path@,
            match line_no {
                Some(n) => Some(n as nat),
                None => None,
            },
            column as nat,
            text@,
        ),
{
    let mut record = record_head(path, line_no, column);
    let tail = record_tail(text);
    record.append(tail.as_str());
    assert(record@ =~= record_text(
        path@,
        match line_no {
            Some(n) => Some(n as nat),
            None => None,
        },
        column as nat,
        text@,
    ));
    record
}

/// The scan of one file: its path, how many lines were handed in, and
/// whether one of them was reported.
#[derive(Debug)]
pub struct FileScan {
    path: String,
    lines: usize,
    found: bool,
}

/// What is known of the scan of one file.
pub struct FileScanView {
    /// The path as it is shown in records.
    pub path: Seq<char>,
    /// The number of lines handed in so far.
    pub lines: nat,
    /// Whether a line was reported.
    pub found: bool,
}

impl View for FileScan {
    type V = FileScanView;

    closed spec fn view(&self) -> FileScanView {
        FileScanView { path: self.path@, lines: self.lines as nat, found: self.found }
    }
}

/// How a scan stands after `line` was handed in, when `emitted` records had
/// been emitted before.
pub open spec fn scan_step(
    scan: FileScanView,
    opts: Options,
    matcher: MatcherView,
    emitted: nat,
    line: Seq<char>,
) -> FileScanView {
    FileScanView {
        path: scan.path,
        lines: scan.lines + 1,
        found: scan.found || reports(opts, matcher, emitted, line),
    }
}

/// Whether `line` is reported: the budget is not spent and the line holds a match.
pub open spec fn reports(opts: Options, matcher: MatcherView, emitted: nat, line: Seq<char>) -> bool {
    !budget_spent(opts.max_count, emitted as int) && matcher.first_in(line) is Some
}

impl FileScan {
    /// A scan of the file that records show as `path`, before its first line.
    pub fn new(path: &str) -> (scan: FileScan)
        ensures
            scan@ == (FileScanView { path: path@, lines: 0, found: false }),
    {
        FileScan { path: String::from_str(path), lines: 0, found: false }
    }

    /// The number of lines handed in so far.
    pub fn lines_seen(&self) -> (n: usize)
        ensures
            n == self@.lines,
    {
        self.lines
    }

    /// Whether a line of the file was reported.
    pub fn found(&self) -> (found: bool)
        ensures
            found == self@.found,
    {
        self.found
    }

    /// Scans the next line of the file, given as text without its line end.
    /// If the budget is not spent and the line holds a match, the line is
    /// reported: its record is returned and counted. Otherwise nothing
    /// changes but the line count.
    pub fn scan_text(
        &mut self,
        line: &str,
        matcher: &Matcher,
        opts: &Options,
        budget: &mut MatchBudget,
    ) -> (record: Option<String>)
        requires
            old(self)@.lines < usize::MAX,
            opts.max_count is None ==> old(budget)@ < usize::MAX,
        ensures
            final(self)@ == scan_step(old(self)@, *opts, matcher@, old(budget)@, line@),
            final(budget)@ == budget_step(
                opts.max_count,
                old(budget)@,
                matcher@.first_in(line@) is Some,
            ),
            reports(*opts, matcher@, old(budget)@, line@) ==> record is Some && record.unwrap()@
                == record_of(old(self)@.path, *opts, matcher@, old(self)@.lines + 1, line@),
            reports(*opts, matcher@, old(budget)@, line@) && opts.color ==> has_marker(
                record.unwrap()@,
            ),
            !reports(*opts, matcher@, old(budget)@, line@) ==> record is None,
    {
        broadcast use encode_utf8_valid_utf8, is_char_boundary_start_end_of_seq;

        self.lines = self.lines + 1;
        if budget.is_spent(opts) {
            return None;
        }
        match matcher.find(line) {
            None => None,
            Some((start, _)) => {
                let text = if opts.color {
                    let spans = matcher.find_all(line);
                    proof {
                        lemma_highlight_length(line@, spans@);
                    }
                    highlight_spans(line, &spans)
                } else {
                    String::from_str(line)
                };
                let tail = record_tail(text.as_str());
                // The end of the record is in memory, so its length is a `usize`;
                // the column, which is smaller, is one too.
                let room = tail.as_str().as_bytes().len();
                assert(1 + chars_before(line@, start as int) <= room) by {
                    lemma_line_around_piece(line@, 0, start as int);
                    lemma_chars_fit_in_bytes(tail@);
                }
                let column = column_of(line, start);
                let number = if opts.line_number {
                    Some(self.lines)
                } else {
                    None
                };
                let mut record = record_head(self.path.as_str(), number, column);
                let ghost head = record@;
                record.append(tail.as_str());
                proof {
                    if opts.color {
                        lemma_marker_stays(head + seq![':', ' '], text@);
                        assert(record@ =~= (head + seq![':', ' ']) + text@);
                    }
                }
                self.found = true;
                budget.record();
                Some(record)
            },
        }
    }

    /// Scans the next line of the file, given as the raw bytes read up to
    /// and including its line feed. The bytes are decoded permissively and
    /// the line end is dropped; the rest is as in [`FileScan::scan_text`].
    pub fn scan_line(
        &mut self,
        raw: &[u8],
        matcher: &Matcher,
        opts: &Options,
        budget: &mut MatchBudget,
    ) -> (record: Option<String>)
        requires
            old(self)@.lines < usize::MAX,
            opts.max_count is None ==> old(budget)@ < usize::MAX,
        ensures
            final(self)@ == scan_step(old(self)@, *opts, matcher@, old(budget)@, line_text(raw@)),
            final(budget)@ == budget_step(
                opts.max_count,
                old(budget)@,
                matcher@.first_in(line_text(raw@)) is Some,
            ),
            reports(*opts, matcher@, old(budget)@, line_text(raw@)) ==> record is Some
                && record.unwrap()@ == record_of(
                old(self)@.path,
                *opts,
                matcher@,
                old(self)@.lines + 1,
                line_text(raw@),
            ),
            reports(*opts, matcher@, old(budget)@, line_text(raw@)) && opts.color ==> has_marker(
                record.unwrap()@,
            ),
            !reports(*opts, matcher@, old(budget)@, line_text(raw@)) ==> record is None,
    {
        let line = decode_line(raw);
        self.scan_text(line.as_str(), matcher, opts, budget)
    }
}

/// Where the line that begins at `from` ends: behind the first line feed
/// from there on, or at the end of the content.
pub open spec fn line_end(content: Seq<u8>, from: int) -> int
    decreases content.len() - from,
{
    if from < 0 || from >= content.len() {
        content.len() as int
    } else if content[from] == 10 {
        from + 1
    } else {
        line_end(content, from + 1)
    }
}

/// A line that begins inside the content is not empty and ends inside it.
pub proof fn lemma_line_end_bounds(content: Seq<u8>, from: int)
    requires
        0 <= from < content.len(),
    ensures
        from < line_end(content, from) <= content.len(),
    decreases content.len() - from,
{
    if content[from] != 10 {
        if from + 1 < content.len() {
            lemma_line_end_bounds(content, from + 1);
        } else {
            assert(line_end(content, from + 1) == content.len());
        }
    }
}

/// The lines of `content` from byte offset `from` on, each decoded and
/// without its line end. A line reaches up to and including its line feed;
/// the last line may have none.
pub open spec fn lines_from(content: Seq<u8>, from: int) -> Seq<Seq<char>>
    decreases content.len() - from,
{
    if 0 <= from < content.len() {
        proof {
            lemma_line_end_bounds(content, from);
        }
        seq![line_text(content.subrange(from, line_end(content, from)))] + lines_from(
            content,
            line_end(content, from),
        )
    } else {
        Seq::empty()
    }
}

/// The lines of `content`.
pub open spec fn lines_of(content: Seq<u8>) -> Seq<Seq<char>> {
    lines_from(content, 0)
}

/// Of each line, whether it holds a match.
pub open spec fn hits(matcher: MatcherView, lines: Seq<Seq<char>>) -> Seq<bool> {
    Seq::new(lines.len(), |i: int| matcher.first_in(lines[i]) is Some)
}

/// How the scan of a file goes on over `lines`: line by line, until the
/// lines end or the budget is spent. The result is the scan at its end, the
/// number of records emitted by then, and the records of these lines.
pub open spec fn scan_on(
    scan: FileScanView,
    opts: Options,
    matcher: MatcherView,
    emitted: nat,
    lines: Seq<Seq<char>>,
) -> (FileScanView, nat, Seq<Seq<char>>)
    decreases lines.len(),
{
    if lines.len() == 0 || budget_spent(opts.max_count, emitted as int) {
        (scan, emitted, Seq::empty())
    } else {
        let line = lines[0];
        let record = if reports(opts, matcher, emitted, line) {
            seq![record_of(scan.path, opts, matcher, scan.lines + 1, line)]
        } else {
            Seq::empty()
        };
        let rest = scan_on(
            scan_step(scan, opts, matcher, emitted, line),
            opts,
            matcher,
            budget_step(opts.max_count, emitted, matcher.first_in(line) is Some),
            lines.drop_first(),
        );
        (rest.0, rest.1, record + rest.2)
    }
}

/// What a scan emits over `lines` is what the budget allows: the count goes
/// up by one for each line that holds a match, as long as the budget is not
/// spent, and there is one record for each such line.
pub proof fn lemma_scan_on_counts(
    scan: FileScanView,
    opts: Options,
    matcher: MatcherView,
    emitted: nat,
    lines: Seq<Seq<char>>,
)
    ensures
        scan_on(scan, opts, matcher, emitted, lines).1 == emitted_after(
            opts.max_count,
            emitted,
            hits(matcher, lines),
        ),
        scan_on(scan, opts, matcher, emitted, lines).1 == emitted + scan_on(
            scan,
            opts,
            matcher,
            emitted,
            lines,
        ).2.len(),
        scan_on(scan, opts, matcher, emitted, lines).0.found == (scan.found || scan_on(
            scan,
            opts,
            matcher,
            emitted,
            lines,
        ).2.len() > 0),
    decreases lines.len(),
{
    let all = hits(matcher, lines);
    if lines.len() > 0 {
        let line = lines[0];
        assert(all[0] == (matcher.first_in(line) is Some));
        assert(all.drop_first() =~= hits(matcher, lines.drop_first()));
        if budget_spent(opts.max_count, emitted as int) {
            lemma_budget_run(opts.max_count, emitted, all);
        } else {
            lemma_scan_on_counts(
                scan_step(scan, opts, matcher, emitted, line),
                opts,
                matcher,
                budget_step(opts.max_count, emitted, matcher.first_in(line) is Some),
                lines.drop_first(),
            );
        }
    }
}

impl FileScan {
    /// Scans the lines of `content` in order, until the content ends or the
    /// budget is spent, and returns the records of the lines reported.
    pub fn scan_content(
        &mut self,
        content: &[u8],
        matcher: &Matcher,
        opts: &Options,
        budget: &mut MatchBudget,
    ) -> (records: Vec<String>)
        requires
            old(self)@.lines + content@.len() <= usize::MAX,
            opts.max_count is None ==> old(budget)@ + content@.len() <= usize::MAX,
        ensures
            (final(self)@, final(budget)@, texts(records@)) == scan_on(
                old(self)@,
                *opts,
                matcher@,
                old(budget)@,
                lines_of(content@),
            ),
    {
        let ghost start = self@;
        let ghost spent = budget@;
        let mut records: Vec<String> = Vec::new();
        let mut pos: usize = 0;
        assert(texts(records@) =~= Seq::<Seq<char>>::empty());
        while pos < content.len()
            invariant
                pos <= content@.len(),
                self@.lines + (content@.len() - pos) <= usize::MAX,
                opts.max_count is None ==> budget@ + (content@.len() - pos) <= usize::MAX,
                ({
                    let rest = scan_on(self@, *opts, matcher@, budget@, lines_from(content@, pos as int));
                    scan_on(start, *opts, matcher@, spent, lines_of(content@)) == (
                        rest.0,
                        rest.1,
                        texts(records@) + rest.2,
                    )
                }),
            ensures
                pos >= content@.len() || budget_spent(opts.max_count, budget@ as int),
            decreases content@.len() - pos,
        {
            if budget.is_spent(opts) {
                break ;
            }
            let mut end: usize = pos;
            while end < content.len() && content[end] != 10
                invariant
                    pos <= end <= content@.len(),
                    line_end(content@, pos as int) == line_end(content@, end as int),
                decreases content@.len() - end,
            {
                end = end + 1;
            }
            if end < content.len() {
                end = end + 1;
            }
            proof {
                lemma_line_end_bounds(content@, pos as int);
            }
            assert(end == line_end(content@, pos as int));
            let ghost lines = lines_from(content@, pos as int);
            let ghost line = line_text(content@.subrange(pos as int, end as int));
            assert(lines[0] == line);
            assert(lines.drop_first() =~= lines_from(content@, end as int));
            let ghost so_far = texts(records@);
            let raw = slice_subrange(content, pos, end);
            match self.scan_line(raw, matcher, opts, budget) {
                Some(record) => {
                    records.push(record);
                    assert(texts(records@) =~= so_far + seq![records@.last()@]);
                },
                None => {
                    assert(texts(records@) =~= so_far + Seq::<Seq<char>>::empty());
                },
            }
            pos = end;
        }
        proof {
            let rest = scan_on(self@, *opts, matcher@, budget@, lines_from(content@, pos as int));
            assert(rest.2 =~= Seq::<Seq<char>>::empty());
            assert(texts(records@) + rest.2 =~= texts(records@));
        }
        records
    }
}

/// The lines of a content from a byte offset on are no more than the bytes
/// from there on.
pub proof fn lemma_lines_fit(content: Seq<u8>, from: int)
    requires
        0 <= from <= content.len(),
    ensures
        lines_from(content, from).len() <= content.len() - from,
    decreases content.len() - from,
{
    if from < content.len() {
        lemma_line_end_bounds(content, from);
        lemma_lines_fit(content, line_end(content, from));
    }
}

/// A scan emits no more records than it is given lines.
pub proof fn lemma_scan_on_bound(
    scan: FileScanView,
    opts: Options,
    matcher: MatcherView,
    emitted: nat,
    lines: Seq<Seq<char>>,
)
    ensures
        scan_on(scan, opts, matcher, emitted, lines).1 <= emitted + lines.len(),
    decreases lines.len(),
{
    if lines.len() > 0 && !budget_spent(opts.max_count, emitted as int) {
        lemma_scan_on_bound(
            scan_step(scan, opts, matcher, emitted, lines[0]),
            opts,
            matcher,
            budget_step(opts.max_count, emitted, matcher.first_in(lines[0]) is Some),
            lines.drop_first(),
        );
    }
}

/// Where no line holds a match, a scan reports nothing: there is no record,
/// the budget is as before, and nothing is found that was not found before.
pub proof fn lemma_scan_without_hit(
    scan: FileScanView,
    opts: Options,
    matcher: MatcherView,
    emitted: nat,
    lines: Seq<Seq<char>>,
)
    requires
        forall|i: int| 0 <= i < lines.len() ==> matcher.first_in(#[trigger] lines[i]) is None,
    ensures
        scan_on(scan, opts, matcher, emitted, lines).0.found == scan.found,
        scan_on(scan, opts, matcher, emitted, lines).1 == emitted,
        scan_on(scan, opts, matcher, emitted, lines).2.len() == 0,
    decreases lines.len(),
{
    if lines.len() > 0 && !budget_spent(opts.max_count, emitted as int) {
        let rest = lines.drop_first();
        assert forall|i: int| 0 <= i < rest.len() implies matcher.first_in(#[trigger] rest[i])
            is None by {
            assert(rest[i] == lines[i + 1]);
        }
        lemma_scan_without_hit(
            scan_step(scan, opts, matcher, emitted, lines[0]),
            opts,
            matcher,
            emitted,
            rest,
        );
    }
}

/// A file without a line that holds a match gives no record, leaves the
/// budget as it is, and counts as a file without a match.
pub proof fn lemma_search_without_hit(
    path: Seq<char>,
    content: Seq<u8>,
    opts: Options,
    matcher: MatcherView,
    emitted: nat,
)
    requires
        forall|i: int|
            0 <= i < lines_of(content).len() ==> matcher.first_in(#[trigger] lines_of(content)[i])
                is None,
    ensures
        !search_of(path, content, opts, matcher, emitted).0.found,
        search_of(path, content, opts, matcher, emitted).1 == emitted,
        search_of(path, content, opts, matcher, emitted).2.len() == 0,
{
    let fresh = FileScanView { path, lines: 0, found: false };
    lemma_scan_without_hit(fresh, opts, matcher, emitted, lines_of(content));
}

/// The column in a record counts characters: where the first match of a
/// line begins with the character of index `k`, whatever the number of
/// bytes before it, the record shows column `k + 1`.
pub proof fn lemma_record_column(
    path: Seq<char>,
    opts: Options,
    matcher: MatcherView,
    line_no: nat,
    line: Seq<char>,
    k: int,
)
    requires
        0 <= k <= line.len(),
        matcher.first_in(line) is Some,
        matcher.first_in(line).unwrap().0 == encode_utf8(line.subrange(0, k)).len(),
    ensures
        first_column(matcher, line) == k + 1,
        record_of(path, opts, matcher, line_no, line) == record_text(
            path,
            if opts.line_number {
                Some(line_no)
            } else {
                None
            },
            (k + 1) as nat,
            rendered(opts, matcher, line),
        ),
{
    lemma_column_counts_chars(line, k);
}

/// What the search of one file comes to: nothing if the file is left out as
/// binary, and else the scan of its lines from a fresh start.
pub open spec fn search_of(
    path: Seq<char>,
    content: Seq<u8>,
    opts: Options,
    matcher: MatcherView,
    emitted: nat,
) -> (FileScanView, nat, Seq<Seq<char>>) {
    let fresh = FileScanView { path, lines: 0, found: false };
    if opts.skip_binary && has_nul_at_start(content) {
        (fresh, emitted, Seq::empty())
    } else {
        scan_on(fresh, opts, matcher, emitted, lines_of(content))
    }
}

/// Searches the content of one file, shown in records as `path`. A file that
/// looks binary is left out if binary files are skipped. Otherwise its
/// lines are scanned in order until the content ends or the budget is
/// spent. Returns whether a line was reported, and the records.
pub fn search_bytes(
    path: &str,
    content: &[u8],
    matcher: &Matcher,
    opts: &Options,
    budget: &mut MatchBudget,
) -> (outcome: (bool, Vec<String>))
    requires
        opts.max_count is None ==> old(budget)@ + content@.len() <= usize::MAX,
    ensures
        outcome.0 == search_of(path@, content@, *opts, matcher@, old(budget)@).0.found,
        final(budget)@ == search_of(path@, content@, *opts, matcher@, old(budget)@).1,
        texts(outcome.1@) == search_of(path@, content@, *opts, matcher@, old(budget)@).2,
{
    if skips_file(opts, content) {
        let records: Vec<String> = Vec::new();
        assert(texts(records@) =~= Seq::<Seq<char>>::empty());
        (false, records)
    } else {
        let mut scan = FileScan::new(path);
        assert(content@.len() <= usize::MAX) by {
            vstd::slice::axiom_spec_len(content);
        }
        let records = scan.scan_content(content, matcher, opts, budget);
        (scan.found(), records)
    }
}

} // verus!
