//! Verified building blocks for small command-line text tools: a search
//! engine that finds the lines of files that match a regular expression, and
//! the rules of a store of tagged notes.

pub mod editor;
pub mod error;
pub mod highlight;
pub mod notes;
pub mod options;
pub mod pattern;
pub mod run;
pub mod scan;
pub mod snapshot;
pub mod sniff;
pub mod store;
pub mod tags;
pub mod text;
pub mod traverse;
