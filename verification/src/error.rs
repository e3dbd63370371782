//! The error type of a search run.

use vstd::prelude::*;
use vstd::string::*;

verus! {

/// `regex::Error`, known only by the diagnostic it renders.
#[verifier::external_type_specification]
#[verifier::external_body]
pub struct ExRegexError(regex::Error);

/// `ignore::Error`, carried through as it is.
#[verifier::external_type_specification]
#[verifier::external_body]
pub struct ExIgnoreError(ignore::Error);

/// What can end a search run or the scan of one file. Each kind of error
/// carries the diagnostic of the error underneath, as text.
#[derive(Debug)]
pub enum MiniGrepError {
    /// A file could not be opened or read.
    Io(String),
    /// The search pattern is not a valid regular expression.
    Regex(String),
    /// A glob filter is malformed, or the walk could not be set up.
    Ignore(String),
}

/// The text shown in front of the detail of an error, by kind of error.
pub open spec fn message_prefix(e: MiniGrepError) -> Seq<char> {
    match e {
        MiniGrepError::Io(_) => seq!['I', '/', 'O', ':', ' '],
        MiniGrepError::Regex(_) => seq!['R', 'e', 'g', 'e', 'x', ':', ' '],
        MiniGrepError::Ignore(_) => seq![
            'I', 'g', 'n', 'o', 'r', 'e', '/', '.', 'g', 'i', 't', 'i', 'g', 'n', 'o', 'r', 'e', ':', ' ',
        ],
    }
}

/// The diagnostic that an error carries.
pub open spec fn detail_of(e: MiniGrepError) -> Seq<char> {
    match e {
        MiniGrepError::Io(detail) => detail@,
        MiniGrepError::Regex(detail) => detail@,
        MiniGrepError::Ignore(detail) => detail@,
    }
}

/// The message of an error: the prefix of its kind, then its diagnostic, whole.
pub open spec fn message_of(e: MiniGrepError) -> Seq<char> {
    message_prefix(e) + detail_of(e)
}

/// The message of an I/O error with the diagnostic `detail`.
pub open spec fn io_message(detail: Seq<char>) -> Seq<char> {
    seq!['I', '/', 'O', ':', ' '] + detail
}

/// The diagnostic that a pattern error renders.
pub uninterp spec fn regex_diagnostic(e: regex::Error) -> Seq<char>;

/// `Display` of `regex::Error`: the diagnostic of the error as text, which
/// depends on the error alone.
#[verifier::external_body]
fn regex_error_text(e: &regex::Error) -> (text: String)
    ensures
        text@ == regex_diagnostic(*e),
{
    e.to_string()
}

/// `Display` of `ignore::Error`. Nothing is claimed of the text: where the
/// error wraps an I/O error, the system words it.
#[verifier::external_body]
fn ignore_error_text(e: &ignore::Error) -> String {
    e.to_string()
}

impl MiniGrepError {
    /// The error for a pattern that the regex compiler refused, with the
    /// compiler's diagnostic.
    pub fn from_regex(e: &regex::Error) -> (r: MiniGrepError)
        ensures
            r is Regex,
            detail_of(r) == regex_diagnostic(*e),
    {
        MiniGrepError::Regex(regex_error_text(e))
    }

    /// The error for a glob filter that could not be set up, with the
    /// diagnostic of the error underneath.
    pub fn from_ignore(e: &ignore::Error) -> (r: MiniGrepError)
        ensures
            r is Ignore,
    {
        MiniGrepError::Ignore(ignore_error_text(e))
    }

    /// The message of this error: the prefix of its kind, then the
    /// diagnostic it carries, whole.
    pub fn message(&self) -> (text: String)
        ensures
            text@ == message_of(*self),
    {
        match self {
            MiniGrepError::Io(detail) => {
                proof {
                    reveal_strlit("I/O: ");
                }
                let mut text = String::from_str("I/O: ");
                assert(text@ =~= message_prefix(*self));
                text.append(detail.as_str());
                text
            },
            MiniGrepError::Regex(detail) => {
                proof {
                    reveal_strlit("Regex: ");
                }
                let mut text = String::from_str("Regex: ");
                assert(text@ =~= message_prefix(*self));
                text.append(detail.as_str());
                text
            },
            MiniGrepError::Ignore(detail) => {
                proof {
                    reveal_strlit("Ignore/.gitignore: ");
                }
                let mut text = String::from_str("Ignore/.gitignore: ");
                assert(text@ =~= message_prefix(*self));
                text.append(detail.as_str());
                text
            },
        }
    }
}

} // verus!
