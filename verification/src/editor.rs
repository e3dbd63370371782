//! Which editor opens a note, and on what kind of file.

use vstd::prelude::*;
use vstd::string::*;
use crate::store::Format;
use crate::text::texts;

verus! {

/// The file extension of a format, without the dot.
pub fn extension_for(format: Format) -> (extension: &'static str)
    ensures
        extension@ == match format {
            Format::Json => "json"@,
            Format::Toml => "toml"@,
            Format::Yaml => "yaml"@,
        },
{
    match format {
        Format::Json => "json",
        Format::Toml => "toml",
        Format::Yaml => "yaml",
    }
}

/// The editor to run: what `VISUAL` holds, else what `EDITOR` holds, else
/// the usual editor of the system.
pub fn choose_editor(visual: Option<String>, editor: Option<String>, windows: bool) -> (command:
    String)
    ensures
        command@ == match (visual, editor) {
            (Some(v), _) => v@,
            (None, Some(e)) => e@,
            (None, None) => if windows {
                "notepad"@
            } else {
                "vi"@
            },
        },
{
    match visual {
        Some(v) => v,
        None => match editor {
            Some(e) => e,
            None => if windows {
                String::from_str("notepad")
            } else {
                String::from_str("vi")
            },
        },
    }
}

/// The words that a shell would split `text` into, or `None` where a quote
/// is left open.
pub uninterp spec fn shell_words_of(text: Seq<char>) -> Option<Seq<Seq<char>>>;

/// `shell_words::split`: the words of a command line by the rules of a
/// shell, or nothing where a quote is left open.
#[verifier::external_body]
fn shell_split(text: &str) -> (words: Option<Vec<String>>)
    ensures
        match words {
            Some(list) => shell_words_of(text@) == Some(texts(list@)),
            None => shell_words_of(text@) is None,
        },
{
    match shell_words::split(text) {
        Ok(words) => Some(words),
        Err(_) => None,
    }
}

/// The program and its arguments for an editor command: the words of the
/// command, or the command as one word where it cannot be split or has no
/// word.
pub open spec fn command_words(editor: Seq<char>) -> Seq<Seq<char>> {
    match shell_words_of(editor) {
        Some(words) => if words.len() > 0 {
            words
        } else {
            seq![editor]
        },
        None => seq![editor],
    }
}

/// Splits an editor command into the program and its arguments; see
/// [`command_words`]. The program is always there.
pub fn editor_command(editor: &str) -> (parts: Vec<String>)
    ensures
        texts(parts@) == command_words(editor@),
        parts@.len() > 0,
{
    match shell_split(editor) {
        Some(words) => {
            if words.len() > 0 {
                words
            } else {
                let mut parts: Vec<String> = Vec::new();
                parts.push(String::from_str(editor));
                assert(texts(parts@) =~= seq![editor@]);
                parts
            }
        },
        None => {
            let mut parts: Vec<String> = Vec::new();
            parts.push(String::from_str(editor));
            assert(texts(parts@) =~= seq![editor@]);
            parts
        },
    }
}

} // verus!
