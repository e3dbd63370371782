//! The traversal policy: what is done with each root of a run, how a walk is
//! set up, and which of its entries are searched.

use vstd::prelude::*;
use vstd::string::*;
use ignore::overrides::Override;
use ignore::overrides::OverrideBuilder;
use std::path::PathBuf;
use crate::error::MiniGrepError;
use crate::options::TraversalSpec;
use crate::text::{texts, trim_end};

verus! {

/// `std::path::PathBuf`, carried through as it is.
#[verifier::external_type_specification]
#[verifier::external_body]
pub struct ExPathBuf(PathBuf);

/// `ignore::overrides::OverrideBuilder`, known only by the lines it has accepted.
#[verifier::external_type_specification]
#[verifier::external_body]
pub struct ExOverrideBuilder(OverrideBuilder);

/// `ignore::overrides::Override`, known only by the lines it was built from.
#[verifier::external_type_specification]
#[verifier::external_body]
pub struct ExOverride(Override);

/// What a root of a run is on disk.
#[derive(Clone, Copy, Debug, PartialEq, Eq, Structural)]
pub enum PathKind {
    /// A regular file.
    File,
    /// A directory.
    Directory,
    /// Neither: most often, nothing is there.
    Missing,
}

/// What a run does with one of its roots.
#[derive(Clone, Copy, Debug, PartialEq, Eq, Structural)]
pub enum RootAction {
    /// Search the root itself: it is the one candidate.
    SearchFile,
    /// Walk the tree under the root and search the files in it.
    Walk,
    /// Say that the root is a directory, and visit nothing under it.
    NoteDirectory,
    /// Say that the root does not exist, and go on.
    NoteMissing,
}

/// What is done with a root of kind `kind`: a file is searched whatever the
/// recursion flag, a directory is walked with the flag and only noted
/// without it, and a missing root is noted.
pub open spec fn action_for(kind: PathKind, recurse: bool) -> RootAction {
    match kind {
        PathKind::File => RootAction::SearchFile,
        PathKind::Directory => if recurse {
            RootAction::Walk
        } else {
            RootAction::NoteDirectory
        },
        PathKind::Missing => RootAction::NoteMissing,
    }
}

/// Decides what is done with a root; see [`action_for`].
pub fn root_action(kind: PathKind, spec: &TraversalSpec) -> (action: RootAction)
    ensures
        action == action_for(kind, spec.recurse),
{
    match kind {
        PathKind::File => RootAction::SearchFile,
        PathKind::Directory => if spec.recurse {
            RootAction::Walk
        } else {
            RootAction::NoteDirectory
        },
        PathKind::Missing => RootAction::NoteMissing,
    }
}

/// Whether an entry of a walk is searched: only if it is known to be a
/// regular file. `is_file` is what the entry's file type says, if it has one.
pub fn is_candidate(is_file: Option<bool>) -> (candidate: bool)
    ensures
        candidate == (is_file == Some(true)),
{
    match is_file {
        Some(yes) => yes,
        None => false,
    }
}

/// The switches of a directory walk.
#[derive(Clone, Copy, Debug, PartialEq, Eq, Structural)]
pub struct WalkSettings {
    /// Leave hidden entries out.
    pub skip_hidden: bool,
    /// Honour `.gitignore` files.
    pub git_ignore: bool,
    /// Honour the global gitignore file.
    pub git_global: bool,
    /// Honour the repository's exclude file.
    pub git_exclude: bool,
    /// Honour `.ignore` files.
    pub ignore: bool,
    /// Honour the ignore files of parent directories.
    pub parents: bool,
    /// Filter the entries by the glob overrides as well.
    pub filter_by_globs: bool,
}

/// The switches that `spec` asks for: hidden entries are left out unless
/// included, the five kinds of ignore file are honoured or not together, and
/// the glob filter is on if there is a glob.
pub fn walk_settings(spec: &TraversalSpec) -> (settings: WalkSettings)
    ensures
        settings == (WalkSettings {
            skip_hidden: !spec.include_hidden,
            git_ignore: spec.respect_ignore_files,
            git_global: spec.respect_ignore_files,
            git_exclude: spec.respect_ignore_files,
            ignore: spec.respect_ignore_files,
            parents: spec.respect_ignore_files,
            filter_by_globs: spec.globs@.len() > 0,
        }),
{
    WalkSettings {
        skip_hidden: !spec.include_hidden,
        git_ignore: spec.respect_ignore_files,
        git_global: spec.respect_ignore_files,
        git_exclude: spec.respect_ignore_files,
        ignore: spec.respect_ignore_files,
        parents: spec.respect_ignore_files,
        filter_by_globs: spec.globs.len() > 0,
    }
}

/// Whether a text ends in a backslash and a space.
pub open spec fn ends_in_escaped_space(text: Seq<char>) -> bool {
    text.len() >= 2 && text[text.len() - 2] == '\\' && text[text.len() - 1] == ' '
}

/// What an override builder keeps of a line that it accepts: nothing of a
/// comment, which begins with `#`, and nothing of a line that is blank;
/// else the line without the whitespace at its end, or as it is where it
/// ends in a backslash and a space.
pub open spec fn stored_line(glob: Seq<char>) -> Option<Seq<char>> {
    let line = if ends_in_escaped_space(glob) {
        glob
    } else {
        trim_end(glob)
    };
    if (glob.len() > 0 && glob[0] == '#') || line.len() == 0 {
        None
    } else {
        Some(line)
    }
}

/// What an override builder keeps of `globs`, if it accepts them all.
pub open spec fn stored_lines(globs: Seq<Seq<char>>) -> Seq<Seq<char>>
    decreases globs.len(),
{
    if globs.len() == 0 {
        globs
    } else {
        match stored_line(globs.last()) {
            Some(line) => stored_lines(globs.drop_last()).push(line),
            None => stored_lines(globs.drop_last()),
        }
    }
}

/// Whether an override builder with the settings that `OverrideBuilder::new`
/// gives accepts `glob` as a line.
pub uninterp spec fn glob_parses(glob: Seq<char>) -> bool;

/// Whether the set of overrides for the lines `lines`, kept by a builder
/// with the settings that `OverrideBuilder::new` gives, can be built.
pub uninterp spec fn set_builds(lines: Seq<Seq<char>>) -> bool;

/// The lines that an override builder keeps, in order.
pub uninterp spec fn builder_lines(builder: OverrideBuilder) -> Seq<Seq<char>>;

/// Whether an override builder has the settings that `OverrideBuilder::new`
/// gives.
pub uninterp spec fn settings_as_new(builder: OverrideBuilder) -> bool;

/// The lines that a set of overrides was built from, in order.
pub uninterp spec fn override_lines(overrides: Override) -> Seq<Seq<char>>;

/// `OverrideBuilder::new`: a builder for globs relative to `root`, with no
/// line in it.
#[verifier::external_body]
fn new_override_builder(root: &PathBuf) -> (builder: OverrideBuilder)
    ensures
        builder_lines(builder) == Seq::<Seq<char>>::empty(),
        settings_as_new(builder),
{
    OverrideBuilder::new(root)
}

/// `OverrideBuilder::add`, on a builder with the settings that
/// `OverrideBuilder::new` gives: parses one line. Whether the line is
/// accepted depends on the line alone; a comment and a blank line always
/// are. Of an accepted line the builder keeps what [`stored_line`] says,
/// behind the lines already there; a refused line changes nothing. The
/// settings stay.
#[verifier::external_body]
fn add_override(builder: &mut OverrideBuilder, glob: &str) -> (added: Result<(), ignore::Error>)
    requires
        settings_as_new(*old(builder)),
    ensures
        added is Ok <==> glob_parses(glob@),
        stored_line(glob@) is None ==> added is Ok,
        added is Ok ==> builder_lines(*final(builder)) == (match stored_line(glob@) {
            Some(line) => builder_lines(*old(builder)).push(line),
            None => builder_lines(*old(builder)),
        }),
        added is Err ==> builder_lines(*final(builder)) == builder_lines(*old(builder)),
        settings_as_new(*final(builder)),
{
    match builder.add(glob) {
        Ok(_) => Ok(()),
        Err(e) => Err(e),
    }
}

/// `OverrideBuilder::build`, on a builder with the settings that
/// `OverrideBuilder::new` gives: the set of overrides for the lines that the
/// builder keeps. Whether the build succeeds depends on these lines alone.
#[verifier::external_body]
fn build_override_set(builder: &OverrideBuilder) -> (built: Result<Override, ignore::Error>)
    requires
        settings_as_new(*builder),
    ensures
        built is Ok <==> set_builds(builder_lines(*builder)),
        built matches Ok(overrides) ==> override_lines(overrides) == builder_lines(*builder),
{
    builder.build()
}

/// Turns the outcome of building the set of overrides into the outcome of
/// the setup: the set, or the error of a run.
pub fn overrides_from_build(built: Result<Override, ignore::Error>) -> (r: Result<
    Option<Override>,
    MiniGrepError,
>)
    ensures
        built matches Ok(overrides) ==> r == Ok::<Option<Override>, MiniGrepError>(Some(overrides)),
        built is Err ==> r is Err && r->Err_0 is Ignore,
{
    match built {
        Ok(overrides) => Ok(Some(overrides)),
        Err(e) => Err(MiniGrepError::from_ignore(&e)),
    }
}

/// Whether the glob filter for `globs` can be set up: there is no glob, or
/// every glob parses and the set for what is kept of them can be built.
pub open spec fn filter_builds(globs: Seq<Seq<char>>) -> bool {
    globs.len() == 0 || ((forall|i: int| 0 <= i < globs.len() ==> glob_parses(#[trigger] globs[i]))
        && set_builds(stored_lines(globs)))
}

/// `overrides` is the glob filter for `globs`: none if there is no glob,
/// else the set built from what is kept of them, in order.
pub open spec fn is_filter_for(overrides: Option<Override>, globs: Seq<Seq<char>>) -> bool {
    match overrides {
        None => globs.len() == 0,
        Some(set) => globs.len() > 0 && override_lines(set) == stored_lines(globs),
    }
}

/// Compiles the glob filters of a walk under `root`. Without globs there is
/// no filter. Otherwise every glob is parsed in order; the first that does
/// not parse ends the setup with its error, and if all parse, the set is
/// built from what the builder keeps of them.
pub fn build_overrides(root: &PathBuf, globs: &Vec<String>) -> (r: Result<
    Option<Override>,
    MiniGrepError,
>)
    ensures
        r is Ok <==> filter_builds(texts(globs@)),
        r matches Ok(overrides) ==> is_filter_for(overrides, texts(globs@)),
        r matches Err(e) ==> e is Ignore,
{
    if globs.len() == 0 {
        return Ok(None);
    }
    let ghost all = texts(globs@);
    let mut builder = new_override_builder(root);
    let mut i: usize = 0;
    assert(all.take(0) =~= Seq::<Seq<char>>::empty());
    while i < globs.len()
        invariant
            i <= globs@.len(),
            all == texts(globs@),
            settings_as_new(builder),
            builder_lines(builder) == stored_lines(all.take(i as int)),
            forall|j: int| 0 <= j < i ==> glob_parses(#[trigger] all[j]),
        decreases globs@.len() - i,
    {
        assert(all.take(i + 1).drop_last() =~= all.take(i as int));
        assert(all.take(i + 1).last() == all[i as int]);
        match add_override(&mut builder, globs[i].as_str()) {
            Ok(_) => {},
            Err(e) => {
                assert(!glob_parses(all[i as int]));
                return Err(MiniGrepError::from_ignore(&e));
            },
        }
        i = i + 1;
    }
    assert(all.take(i as int) =~= all);
    overrides_from_build(build_override_set(&builder))
}

/// Compiles the glob filter once for each root, before anything is
/// searched: one filter for each root, in order, or the error of the first
/// that cannot be set up. Whether a filter can be set up depends on the
/// globs alone.
pub fn build_all_overrides(roots: &Vec<PathBuf>, globs: &Vec<String>) -> (r: Result<
    Vec<Option<Override>>,
    MiniGrepError,
>)
    ensures
        r is Ok <==> roots@.len() == 0 || filter_builds(texts(globs@)),
        r matches Ok(filters) ==> filters@.len() == roots@.len() && forall|i: int|
            0 <= i < filters@.len() ==> is_filter_for(#[trigger] filters@[i], texts(globs@)),
        r matches Err(e) ==> e is Ignore,
{
    let mut filters: Vec<Option<Override>> = Vec::new();
    let mut i: usize = 0;
    while i < roots.len()
        invariant
            i <= roots@.len(),
            filters@.len() == i,
            i > 0 ==> filter_builds(texts(globs@)),
            forall|j: int| 0 <= j < i ==> is_filter_for(#[trigger] filters@[j], texts(globs@)),
        decreases roots@.len() - i,
    {
        match build_overrides(&roots[i], globs) {
            Ok(filter) => {
                filters.push(filter);
            },
            Err(e) => {
                return Err(e);
            },
        }
        i = i + 1;
    }
    Ok(filters)
}

/// The notice for a directory that is given as a root without recursion.
pub fn directory_notice(path: &str) -> (notice: String)
    ensures
        notice@ == "mini-grep: "@ + path@ + " is a directory (use -r to search recursively)"@,
{
    let mut notice = String::from_str("mini-grep: ");
    notice.append(path);
    notice.append(" is a directory (use -r to search recursively)");
    notice
}

/// The notice for a root that does not exist.
pub fn missing_notice(path: &str) -> (notice: String)
    ensures
        notice@ == "mini-grep: not exists "@ + path@,
{
    let mut notice = String::from_str("mini-grep: not exists ");
    notice.append(path);
    notice
}

/// The notice for an entry that the walk could not read, with the walk's
/// own words for it.
pub fn walk_error_notice(detail: &str) -> (notice: String)
    ensures
        notice@ == "mini-grep: error: "@ + detail@,
{
    let mut notice = String::from_str("mini-grep: error: ");
    notice.append(detail);
    notice
}

} // verus!
