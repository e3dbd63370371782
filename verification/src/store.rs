//! Where a note store lives by default.

use vstd::prelude::*;
use vstd::string::*;
use crate::text::{trim_text, trimmed};

verus! {

/// The format that a note store is kept in.
#[derive(Clone, Copy, Debug, PartialEq, Eq, Structural)]
pub enum Format {
    /// JSON.
    Json,
    /// TOML.
    Toml,
    /// YAML.
    Yaml,
}

/// The file name of the store, when none is given: `notes` with the
/// extension of the format.
pub fn default_store_for(format: Format) -> (name: &'static str)
    ensures
        name@ == match format {
            Format::Json => "notes.json"@,
            Format::Toml => "notes.toml"@,
            Format::Yaml => "notes.yaml"@,
        },
{
    match format {
        Format::Json => "notes.json",
        Format::Toml => "notes.toml",
        Format::Yaml => "notes.yaml",
    }
}

/// Whether the text of a store file holds nothing but whitespace: such a
/// file stands for a store without notes.
pub fn is_blank(raw: &str) -> (blank: bool)
    ensures
        blank == (trimmed(raw@).len() == 0),
{
    trim_text(raw).is_empty()
}

} // verus!
