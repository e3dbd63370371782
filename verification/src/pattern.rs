//! The pattern compiler: from a pattern and its flags to a matcher.

use vstd::prelude::*;
use vstd::string::*;
use vstd::utf8::*;
use regex::Regex;
use regex::RegexBuilder;
use crate::error::{detail_of, regex_diagnostic, MiniGrepError};

verus! {

/// `regex::Regex`: a compiled regex, known only by what it was built from.
#[verifier::external_type_specification]
#[verifier::external_body]
pub struct ExRegex(Regex);

/// What is put in front of a pattern that must match whole words: `\b(?:`.
pub open spec fn word_open() -> Seq<char> {
    seq!['\\', 'b', '(', '?', ':']
}

/// What is put behind a pattern that must match whole words: `)\b`.
pub open spec fn word_close() -> Seq<char> {
    seq![')', '\\', 'b']
}

/// The text that is compiled for `pattern`: the pattern itself, or, for whole
/// words, the pattern as a non-capturing group between two word boundaries.
pub open spec fn pattern_source(pattern: Seq<char>, whole_word: bool) -> Seq<char> {
    if whole_word {
        word_open() + pattern + word_close()
    } else {
        pattern
    }
}

/// A half-open range of byte offsets `(start, end)` lies inside `bytes`, on
/// character boundaries.
pub open spec fn span_fits(bytes: Seq<u8>, span: (usize, usize)) -> bool {
    &&& span.0 <= span.1 <= bytes.len()
    &&& is_char_boundary(bytes, span.0 as int)
    &&& is_char_boundary(bytes, span.1 as int)
}

/// Every span lies inside `bytes` on character boundaries, and each begins
/// where the one before it ends or later.
pub open spec fn spans_in_order(bytes: Seq<u8>, spans: Seq<(usize, usize)>) -> bool {
    &&& forall|i: int| 0 <= i < spans.len() ==> span_fits(bytes, #[trigger] spans[i])
    &&& forall|i: int, j: int| 0 <= i < j < spans.len() ==> (#[trigger] spans[i]).1 <= (#[trigger] spans[j]).0
}

/// `re` is the regex that `source` compiles to, case-insensitively if `ignore_case`.
pub uninterp spec fn built_from(re: Regex, source: Seq<char>, ignore_case: bool) -> bool;

/// The byte offsets of the leftmost match in `haystack` of the regex that
/// `source` and `ignore_case` compile to, if there is one.
pub uninterp spec fn first_match(source: Seq<char>, ignore_case: bool, haystack: Seq<char>) -> Option<(usize, usize)>;

/// The byte offsets of the successive non-overlapping matches in `haystack`
/// of the regex that `source` and `ignore_case` compile to, from left to right.
pub uninterp spec fn all_matches(source: Seq<char>, ignore_case: bool, haystack: Seq<char>) -> Seq<(usize, usize)>;

/// The diagnostic with which the regex compiler refuses `source`, compiled
/// case-insensitively if `ignore_case`, or `None` where it compiles.
pub uninterp spec fn build_failure(source: Seq<char>, ignore_case: bool) -> Option<Seq<char>>;

/// Whether `source` compiles, case-insensitively if `ignore_case`.
pub open spec fn compiles(source: Seq<char>, ignore_case: bool) -> bool {
    build_failure(source, ignore_case) is None
}

/// Compiles `source` with `regex::RegexBuilder`, default settings but for case
/// insensitivity. Whether the build succeeds, and with which diagnostic it
/// fails, depends on the two arguments alone; a regex that comes back is the
/// one built from them.
#[verifier::external_body]
fn build_regex(source: &str, ignore_case: bool) -> (built: Result<Regex, regex::Error>)
    ensures
        built matches Ok(re) ==> compiles(source@, ignore_case) && built_from(
            re,
            source@,
            ignore_case,
        ),
        built matches Err(e) ==> build_failure(source@, ignore_case) == Some(regex_diagnostic(e)),
{
    RegexBuilder::new(source).case_insensitive(ignore_case).build()
}

/// `regex::Regex::find`: the leftmost match, as the pair of its byte offsets.
/// The offsets are in order, inside the haystack and on character boundaries.
#[verifier::external_body]
fn regex_find(re: &Regex, haystack: &str) -> (found: Option<(usize, usize)>)
    ensures
        forall|source: Seq<char>, ignore_case: bool| #[trigger]
            built_from(*re, source, ignore_case) ==> found == first_match(
                source,
                ignore_case,
                haystack@,
            ),
        found matches Some(span) ==> span_fits(haystack.spec_bytes(), span),
{
    match re.find(haystack) {
        Some(m) => Some((m.start(), m.end())),
        None => None,
    }
}

/// The first of `spans`, if there is one.
pub open spec fn first_of(spans: Seq<(usize, usize)>) -> Option<(usize, usize)> {
    if spans.len() > 0 {
        Some(spans[0])
    } else {
        None
    }
}

/// `regex::Regex::find_iter`, collected: the successive non-overlapping
/// matches from left to right, each as the pair of its byte offsets. Each
/// lies inside the haystack on character boundaries and begins no earlier
/// than the one before it ends. The first of them is the leftmost match, the
/// one that `regex::Regex::find` gives.
#[verifier::external_body]
fn regex_find_iter(re: &Regex, haystack: &str) -> (spans: Vec<(usize, usize)>)
    ensures
        forall|source: Seq<char>, ignore_case: bool| #[trigger]
            built_from(*re, source, ignore_case) ==> spans@ == all_matches(
                source,
                ignore_case,
                haystack@,
            ) && first_of(spans@) == first_match(source, ignore_case, haystack@),
        spans_in_order(haystack.spec_bytes(), spans@),
{
    re.find_iter(haystack).map(|m| (m.start(), m.end())).collect()
}

/// The text to compile for `pattern`; see [`pattern_source`].
pub fn wrap_pattern(pattern: &str, whole_word: bool) -> (source: String)
    ensures
        source@ == pattern_source(pattern@, whole_word),
{
    if whole_word {
        proof {
            reveal_strlit("\\b(?:");
            reveal_strlit(")\\b");
        }
        let mut source = String::from_str("\\b(?:");
        assert(source@ =~= word_open());
        source.append(pattern);
        source.append(")\\b");
        assert(")\\b"@ =~= word_close());
        source
    } else {
        String::from_str(pattern)
    }
}

/// A compiled search pattern. Immutable once built.
#[derive(Debug)]
pub struct Matcher {
    re: Regex,
    pattern: String,
    ignore_case: bool,
    whole_word: bool,
}

/// What a matcher was built from.
pub struct MatcherView {
    /// The pattern as the user gave it.
    pub pattern: Seq<char>,
    /// Whether letters match regardless of case.
    pub ignore_case: bool,
    /// Whether a match must lie between two word boundaries.
    pub whole_word: bool,
}

impl MatcherView {
    /// The text that was compiled.
    pub open spec fn source(self) -> Seq<char> {
        pattern_source(self.pattern, self.whole_word)
    }

    /// The leftmost match in `line`.
    pub open spec fn first_in(self, line: Seq<char>) -> Option<(usize, usize)> {
        first_match(self.source(), self.ignore_case, line)
    }

    /// All non-overlapping matches in `line`, from left to right.
    pub open spec fn all_in(self, line: Seq<char>) -> Seq<(usize, usize)> {
        all_matches(self.source(), self.ignore_case, line)
    }
}

impl View for Matcher {
    type V = MatcherView;

    closed spec fn view(&self) -> MatcherView {
        MatcherView {
            pattern: self.pattern@,
            ignore_case: self.ignore_case,
            whole_word: self.whole_word,
        }
    }
}

impl Matcher {
    /// The compiled regex.
    pub closed spec fn regex(&self) -> Regex {
        self.re
    }

    #[verifier::type_invariant]
    spec fn well_built(&self) -> bool {
        built_from(self.re, pattern_source(self.pattern@, self.whole_word), self.ignore_case)
    }

    /// Turns the outcome of building the regex for `pattern` and its flags
    /// into a matcher, or into the error of a run.
    pub fn from_build(
        built: Result<Regex, regex::Error>,
        pattern: &str,
        ignore_case: bool,
        whole_word: bool,
    ) -> (r: Result<Matcher, MiniGrepError>)
        requires
            built matches Ok(re) ==> built_from(re, pattern_source(pattern@, whole_word), ignore_case),
        ensures
            built is Ok <==> r is Ok,
            r matches Ok(m) ==> m@ == (MatcherView { pattern: pattern@, ignore_case, whole_word })
                && Ok::<Regex, regex::Error>(m.regex()) == built,
            built matches Err(e) ==> r is Err && r->Err_0 is Regex && detail_of(r->Err_0)
                == regex_diagnostic(e),
    {
        match built {
            Ok(re) => Ok(Matcher { re, pattern: String::from_str(pattern), ignore_case, whole_word }),
            Err(e) => Err(MiniGrepError::from_regex(&e)),
        }
    }

    /// Compiles `pattern`. With `whole_word`, the pattern is compiled as a
    /// non-capturing group between two word boundaries; with `ignore_case`,
    /// letters match regardless of case. What is compiled is
    /// `pattern_source(pattern, whole_word)` with that case flag, and the
    /// matcher holds the regex that came of it. Fails exactly where the
    /// regex compiler refuses that text, with the compiler's diagnostic.
    pub fn compile(pattern: &str, ignore_case: bool, whole_word: bool) -> (r: Result<
        Matcher,
        MiniGrepError,
    >)
        ensures
            r is Ok <==> compiles(pattern_source(pattern@, whole_word), ignore_case),
            r matches Ok(m) ==> m@ == (MatcherView { pattern: pattern@, ignore_case, whole_word })
                && built_from(m.regex(), pattern_source(pattern@, whole_word), ignore_case),
            r matches Err(e) ==> e is Regex && Some(detail_of(e)) == build_failure(
                pattern_source(pattern@, whole_word),
                ignore_case,
            ),
    {
        let source = wrap_pattern(pattern, whole_word);
        let built = build_regex(source.as_str(), ignore_case);
        Matcher::from_build(built, pattern, ignore_case, whole_word)
    }

    /// The pattern as the user gave it.
    pub fn pattern(&self) -> (pattern: &str)
        ensures
            pattern@ == self@.pattern,
    {
        self.pattern.as_str()
    }

    /// Whether letters match regardless of case.
    pub fn ignore_case(&self) -> (ignore_case: bool)
        ensures
            ignore_case == self@.ignore_case,
    {
        self.ignore_case
    }

    /// Whether a match must lie between two word boundaries.
    pub fn whole_word(&self) -> (whole_word: bool)
        ensures
            whole_word == self@.whole_word,
    {
        self.whole_word
    }

    /// The leftmost match in `line`, as byte offsets `(start, end)`.
    pub fn find(&self, line: &str) -> (found: Option<(usize, usize)>)
        ensures
            found == self@.first_in(line@),
            found matches Some(span) ==> span_fits(line.spec_bytes(), span),
    {
        proof {
            use_type_invariant(self);
        }
        regex_find(&self.re, line)
    }

    /// All non-overlapping matches in `line`, from left to right, as byte
    /// offsets `(start, end)`.
    pub fn find_all(&self, line: &str) -> (spans: Vec<(usize, usize)>)
        ensures
            spans@ == self@.all_in(line@),
            spans_in_order(line.spec_bytes(), spans@),
            first_of(spans@) == self@.first_in(line@),
    {
        proof {
            use_type_invariant(self);
        }
        regex_find_iter(&self.re, line)
    }
}

} // verus!
