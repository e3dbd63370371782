//! A run over a snapshot of its roots: the files that the run would visit,
//! held in memory, searched in the order of a run with one shared budget.

use vstd::prelude::*;
use vstd::string::*;
use crate::options::{
    budget_spent, count_hits, emitted_after, lemma_budget_caps_run, lemma_budget_run,
    lemma_budget_run_concat, MatchBudget, Options, TraversalSpec,
};
use crate::pattern::{Matcher, MatcherView};
use crate::scan::{
    hits, lemma_lines_fit, lemma_scan_on_bound, lemma_scan_on_counts, lines_of, search_bytes,
    search_of,
};
use crate::sniff::has_nul_at_start;
use crate::text::texts;
use crate::traverse::{directory_notice, missing_notice, root_action, PathKind, RootAction};

verus! {

/// A file of the snapshot: the path it is shown by, and what it holds.
#[derive(Debug)]
pub struct FileEntry {
    /// The path, as records show it.
    pub path: String,
    /// The bytes of the file.
    pub content: Vec<u8>,
}

/// A root of the snapshot.
#[derive(Debug)]
pub enum RootEntry {
    /// A regular file.
    File(FileEntry),
    /// A directory, by its path, with the regular files that a walk of it
    /// visits, in the order of the walk.
    Directory(String, Vec<FileEntry>),
    /// A path at which nothing is, by its path.
    Missing(String),
}

/// How a run stands between two files.
pub struct RunState {
    /// Whether a file searched so far had a match.
    pub found_any: bool,
    /// The number of records emitted so far.
    pub emitted: nat,
    /// The records emitted so far, in order.
    pub records: Seq<Seq<char>>,
    /// Whether the run has stopped: no further file is searched.
    pub stopped: bool,
}

/// A run before its first file.
pub open spec fn fresh_run() -> RunState {
    RunState { found_any: false, emitted: 0, records: Seq::empty(), stopped: false }
}

/// The run after one more file: a stopped run stays as it is; else the
/// file is searched, and the run stops if the budget is spent after it.
pub open spec fn file_step(
    s: RunState,
    file: FileEntry,
    opts: Options,
    matcher: MatcherView,
) -> RunState {
    if s.stopped {
        s
    } else {
        let found = search_of(file.path@, file.content@, opts, matcher, s.emitted);
        RunState {
            found_any: s.found_any || found.0.found,
            emitted: found.1,
            records: s.records + found.2,
            stopped: budget_spent(opts.max_count, found.1 as int),
        }
    }
}

/// The run after the files `files`, in order.
pub open spec fn files_from(
    s: RunState,
    files: Seq<FileEntry>,
    opts: Options,
    matcher: MatcherView,
) -> RunState
    decreases files.len(),
{
    if files.len() == 0 {
        s
    } else {
        files_from(file_step(s, files[0], opts, matcher), files.drop_first(), opts, matcher)
    }
}

/// The run after one more root: a file is searched, a directory is walked
/// with recursion and left alone without it, and a missing root is left
/// alone.
pub open spec fn root_step(
    s: RunState,
    root: RootEntry,
    recurse: bool,
    opts: Options,
    matcher: MatcherView,
) -> RunState {
    match root {
        RootEntry::File(file) => file_step(s, file, opts, matcher),
        RootEntry::Directory(_, files) => if recurse {
            files_from(s, files@, opts, matcher)
        } else {
            s
        },
        RootEntry::Missing(_) => s,
    }
}

/// The run after the roots `roots`, in order.
pub open spec fn run_from(
    s: RunState,
    roots: Seq<RootEntry>,
    recurse: bool,
    opts: Options,
    matcher: MatcherView,
) -> RunState
    decreases roots.len(),
{
    if roots.len() == 0 {
        s
    } else {
        run_from(
            root_step(s, roots[0], recurse, opts, matcher),
            roots.drop_first(),
            recurse,
            opts,
            matcher,
        )
    }
}

/// The notice that a root gives rise to, if any: one for a directory
/// without recursion, and one for a missing root.
pub open spec fn notice_of(root: RootEntry, recurse: bool) -> Option<Seq<char>> {
    match root {
        RootEntry::File(_) => None,
        RootEntry::Directory(path, _) => if recurse {
            None
        } else {
            Some("mini-grep: "@ + path@ + " is a directory (use -r to search recursively)"@)
        },
        RootEntry::Missing(path) => Some("mini-grep: not exists "@ + path@),
    }
}

/// The notices of a run over `roots`, in order: those of the roots that the
/// run comes to before it stops.
pub open spec fn notices_from(
    s: RunState,
    roots: Seq<RootEntry>,
    recurse: bool,
    opts: Options,
    matcher: MatcherView,
) -> Seq<Seq<char>>
    decreases roots.len(),
{
    if roots.len() == 0 {
        Seq::empty()
    } else {
        let rest = notices_from(
            root_step(s, roots[0], recurse, opts, matcher),
            roots.drop_first(),
            recurse,
            opts,
            matcher,
        );
        if !s.stopped && notice_of(roots[0], recurse) is Some {
            seq![notice_of(roots[0], recurse).unwrap()] + rest
        } else {
            rest
        }
    }
}

/// The number of bytes in `files`.
pub open spec fn files_bytes(files: Seq<FileEntry>) -> nat
    decreases files.len(),
{
    if files.len() == 0 {
        0
    } else {
        files[0].content@.len() + files_bytes(files.drop_first())
    }
}

/// The number of bytes in the files of `roots`.
pub open spec fn roots_bytes(roots: Seq<RootEntry>) -> nat
    decreases roots.len(),
{
    if roots.len() == 0 {
        0
    } else {
        (match roots[0] {
            RootEntry::File(file) => file.content@.len(),
            RootEntry::Directory(_, files) => files_bytes(files@),
            RootEntry::Missing(_) => 0,
        }) + roots_bytes(roots.drop_first())
    }
}

/// The lines of a file that a run scans: none of a file that is left out as
/// binary.
pub open spec fn file_lines(file: FileEntry, opts: Options) -> Seq<Seq<char>> {
    if opts.skip_binary && has_nul_at_start(file.content@) {
        Seq::empty()
    } else {
        lines_of(file.content@)
    }
}

/// The lines of `files` that a run scans, in order.
pub open spec fn files_lines(files: Seq<FileEntry>, opts: Options) -> Seq<Seq<char>>
    decreases files.len(),
{
    if files.len() == 0 {
        Seq::empty()
    } else {
        file_lines(files[0], opts) + files_lines(files.drop_first(), opts)
    }
}

/// The lines under `roots` that a run scans, in order.
pub open spec fn roots_lines(roots: Seq<RootEntry>, recurse: bool, opts: Options) -> Seq<Seq<char>>
    decreases roots.len(),
{
    if roots.len() == 0 {
        Seq::empty()
    } else {
        (match roots[0] {
            RootEntry::File(file) => file_lines(file, opts),
            RootEntry::Directory(_, files) => if recurse {
                files_lines(files@, opts)
            } else {
                Seq::empty()
            },
            RootEntry::Missing(_) => Seq::empty(),
        }) + roots_lines(roots.drop_first(), recurse, opts)
    }
}

/// A run is sound if it has stopped only with its budget spent, has one
/// record for each count of the budget, and has found a match exactly if it
/// has a record.
pub open spec fn sound(s: RunState, opts: Options) -> bool {
    &&& s.stopped ==> budget_spent(opts.max_count, s.emitted as int)
    &&& s.found_any == (s.records.len() > 0)
    &&& s.records.len() == s.emitted
}

/// The lines of two lists hold a match where the lines of each do.
proof fn lemma_hits_concat(matcher: MatcherView, a: Seq<Seq<char>>, b: Seq<Seq<char>>)
    ensures
        hits(matcher, a + b) == hits(matcher, a) + hits(matcher, b),
{
    assert(hits(matcher, a + b) =~= hits(matcher, a) + hits(matcher, b));
}

/// One more file counts as the budget allows over the lines of the file
/// that are scanned, and leaves a sound run sound.
proof fn lemma_file_step(s: RunState, file: FileEntry, opts: Options, matcher: MatcherView)
    requires
        sound(s, opts),
    ensures
        sound(file_step(s, file, opts, matcher), opts),
        file_step(s, file, opts, matcher).emitted == emitted_after(
            opts.max_count,
            s.emitted,
            hits(matcher, file_lines(file, opts)),
        ),
        s.records.is_prefix_of(file_step(s, file, opts, matcher).records),
{
    let lines = file_lines(file, opts);
    lemma_budget_run(opts.max_count, s.emitted, hits(matcher, lines));
    if !s.stopped {
        if !(opts.skip_binary && has_nul_at_start(file.content@)) {
            let fresh = crate::scan::FileScanView { path: file.path@, lines: 0, found: false };
            lemma_scan_on_counts(fresh, opts, matcher, s.emitted, lines);
        }
    }
}

/// The files of a directory count as the budget allows over their lines
/// that are scanned, and leave a sound run sound.
proof fn lemma_files_from(s: RunState, files: Seq<FileEntry>, opts: Options, matcher: MatcherView)
    requires
        sound(s, opts),
    ensures
        sound(files_from(s, files, opts, matcher), opts),
        files_from(s, files, opts, matcher).emitted == emitted_after(
            opts.max_count,
            s.emitted,
            hits(matcher, files_lines(files, opts)),
        ),
        s.records.is_prefix_of(files_from(s, files, opts, matcher).records),
    decreases files.len(),
{
    if files.len() > 0 {
        let next = file_step(s, files[0], opts, matcher);
        lemma_file_step(s, files[0], opts, matcher);
        lemma_files_from(next, files.drop_first(), opts, matcher);
        lemma_hits_concat(matcher, file_lines(files[0], opts), files_lines(files.drop_first(), opts));
        lemma_budget_run_concat(
            opts.max_count,
            s.emitted,
            hits(matcher, file_lines(files[0], opts)),
            hits(matcher, files_lines(files.drop_first(), opts)),
        );
    }
}

/// The budget of a run over roots is that of one scan over all the lines
/// that the run scans, whatever the files they stand in: the count goes up
/// by one for each line that holds a match, up to the cap and no further.
/// The run has one record for each count, and has found a match exactly if
/// it has a record.
pub proof fn lemma_run_budget(
    s: RunState,
    roots: Seq<RootEntry>,
    recurse: bool,
    opts: Options,
    matcher: MatcherView,
)
    requires
        sound(s, opts),
    ensures
        sound(run_from(s, roots, recurse, opts, matcher), opts),
        run_from(s, roots, recurse, opts, matcher).emitted == emitted_after(
            opts.max_count,
            s.emitted,
            hits(matcher, roots_lines(roots, recurse, opts)),
        ),
        s.records.is_prefix_of(run_from(s, roots, recurse, opts, matcher).records),
    decreases roots.len(),
{
    if roots.len() > 0 {
        let next = root_step(s, roots[0], recurse, opts, matcher);
        let head = match roots[0] {
            RootEntry::File(file) => file_lines(file, opts),
            RootEntry::Directory(_, files) => if recurse {
                files_lines(files@, opts)
            } else {
                Seq::empty()
            },
            RootEntry::Missing(_) => Seq::empty(),
        };
        match roots[0] {
            RootEntry::File(file) => {
                lemma_file_step(s, file, opts, matcher);
            },
            RootEntry::Directory(_, files) => {
                if recurse {
                    lemma_files_from(s, files@, opts, matcher);
                }
            },
            RootEntry::Missing(_) => {},
        }
        assert(next.emitted == emitted_after(opts.max_count, s.emitted, hits(matcher, head)));
        lemma_run_budget(next, roots.drop_first(), recurse, opts, matcher);
        lemma_hits_concat(matcher, head, roots_lines(roots.drop_first(), recurse, opts));
        lemma_budget_run_concat(
            opts.max_count,
            s.emitted,
            hits(matcher, head),
            hits(matcher, roots_lines(roots.drop_first(), recurse, opts)),
        );
    }
}

/// A cap of `n` holds a run from its start to `n` records exactly if more
/// than `n` of the lines that the run scans hold a match, and to one record
/// for each such line otherwise. The run has found a match exactly if it has
/// a record.
pub proof fn lemma_run_caps(
    roots: Seq<RootEntry>,
    recurse: bool,
    opts: Options,
    matcher: MatcherView,
    n: usize,
)
    requires
        opts.max_count == Some(n),
    ensures
        ({
            let run = run_from(fresh_run(), roots, recurse, opts, matcher);
            let matching = count_hits(hits(matcher, roots_lines(roots, recurse, opts)));
            &&& matching > n ==> run.records.len() == n
            &&& matching <= n ==> run.records.len() == matching
            &&& run.found_any == (run.records.len() > 0)
        }),
{
    lemma_run_budget(fresh_run(), roots, recurse, opts, matcher);
    lemma_budget_caps_run(n, hits(matcher, roots_lines(roots, recurse, opts)));
}

/// A directory that is given as a root without recursion changes nothing of
/// what a run finds and emits: the run is that over the other roots.
pub proof fn lemma_directory_without_recursion(
    s: RunState,
    before: Seq<RootEntry>,
    directory: RootEntry,
    after: Seq<RootEntry>,
    opts: Options,
    matcher: MatcherView,
)
    requires
        directory is Directory,
    ensures
        run_from(s, before + seq![directory] + after, false, opts, matcher) == run_from(
            s,
            before + after,
            false,
            opts,
            matcher,
        ),
    decreases before.len(),
{
    let with = before + seq![directory] + after;
    let without = before + after;
    if before.len() == 0 {
        assert(with[0] == directory);
        assert(with.drop_first() =~= after);
        assert(without =~= after);
    } else {
        assert(with[0] == before[0] && without[0] == before[0]);
        assert(with.drop_first() =~= before.drop_first() + seq![directory] + after);
        assert(without.drop_first() =~= before.drop_first() + after);
        lemma_directory_without_recursion(
            root_step(s, before[0], false, opts, matcher),
            before.drop_first(),
            directory,
            after,
            opts,
            matcher,
        );
    }
}

/// What a run over a snapshot comes to.
#[derive(Debug)]
pub struct Outcome {
    /// Whether a file had a match.
    pub found_any: bool,
    /// The records, in the order they were emitted.
    pub records: Vec<String>,
    /// The notices, in the order they were given.
    pub notices: Vec<String>,
}

/// A run over a snapshot, while it goes on.
struct Progress {
    budget: MatchBudget,
    found_any: bool,
    records: Vec<String>,
    stopped: bool,
}

impl View for Progress {
    type V = RunState;

    closed spec fn view(&self) -> RunState {
        RunState {
            found_any: self.found_any,
            emitted: self.budget@,
            records: texts(self.records@),
            stopped: self.stopped,
        }
    }
}

impl Progress {
    /// Searches one more file, unless the run has stopped.
    fn search_file(&mut self, file: &FileEntry, matcher: &Matcher, opts: &Options)
        requires
            opts.max_count is None ==> old(self)@.emitted + file.content@.len() <= usize::MAX,
        ensures
            final(self)@ == file_step(old(self)@, *file, *opts, matcher@),
            final(self)@.emitted <= old(self)@.emitted + file.content@.len(),
    {
        if self.stopped {
            return ;
        }
        proof {
            if !(opts.skip_binary && has_nul_at_start(file.content@)) {
                let fresh = crate::scan::FileScanView { path: file.path@, lines: 0, found: false };
                lemma_scan_on_bound(fresh, *opts, matcher@, self.budget@, lines_of(file.content@));
                lemma_lines_fit(file.content@, 0);
            }
        }
        let ghost before = texts(self.records@);
        let (found, mut records) = search_bytes(
            file.path.as_str(),
            file.content.as_slice(),
            matcher,
            opts,
            &mut self.budget,
        );
        let ghost more = texts(records@);
        self.records.append(&mut records);
        assert(texts(self.records@) =~= before + more);
        self.found_any = self.found_any || found;
        self.stopped = self.budget.is_spent(opts);
    }

    /// Searches the files of a directory, in order.
    fn search_files(&mut self, files: &Vec<FileEntry>, matcher: &Matcher, opts: &Options)
        requires
            opts.max_count is None ==> old(self)@.emitted + files_bytes(files@) <= usize::MAX,
        ensures
            final(self)@ == files_from(old(self)@, files@, *opts, matcher@),
            final(self)@.emitted <= old(self)@.emitted + files_bytes(files@),
    {
        let mut i: usize = 0;
        assert(files@.skip(0) =~= files@);
        while i < files.len()
            invariant
                i <= files@.len(),
                opts.max_count is None ==> self@.emitted + files_bytes(files@.skip(i as int))
                    <= usize::MAX,
                self@.emitted + files_bytes(files@.skip(i as int)) <= old(self)@.emitted
                    + files_bytes(files@),
                files_from(old(self)@, files@, *opts, matcher@) == files_from(
                    self@,
                    files@.skip(i as int),
                    *opts,
                    matcher@,
                ),
            decreases files@.len() - i,
        {
            assert(files@.skip(i as int)[0] == files@[i as int]);
            assert(files@.skip(i as int).drop_first() =~= files@.skip(i + 1));
            self.search_file(&files[i], matcher, opts);
            i = i + 1;
        }
    }
}

/// Runs a search over a snapshot of the roots, in the order given: a file
/// is searched, a directory is walked if `spec` asks for recursion and
/// noted if not, and a missing root is noted. All files share one budget,
/// and the run stops after the file with which the budget is spent.
pub fn search_roots(
    roots: &Vec<RootEntry>,
    matcher: &Matcher,
    opts: &Options,
    spec: &TraversalSpec,
) -> (outcome: Outcome)
    requires
        opts.max_count is None ==> roots_bytes(roots@) <= usize::MAX,
    ensures
        outcome.found_any == run_from(fresh_run(), roots@, spec.recurse, *opts, matcher@).found_any,
        texts(outcome.records@) == run_from(
            fresh_run(),
            roots@,
            spec.recurse,
            *opts,
            matcher@,
        ).records,
        texts(outcome.notices@) == notices_from(
            fresh_run(),
            roots@,
            spec.recurse,
            *opts,
            matcher@,
        ),
{
    let mut run = Progress {
        budget: MatchBudget::new(),
        found_any: false,
        records: Vec::new(),
        stopped: false,
    };
    let mut notices: Vec<String> = Vec::new();
    let mut i: usize = 0;
    assert(roots@.skip(0) =~= roots@);
    assert(run@ =~= fresh_run()) by {
        assert(texts(run.records@) =~= Seq::<Seq<char>>::empty());
    }
    assert(texts(notices@) =~= Seq::<Seq<char>>::empty());
    while i < roots.len()
        invariant
            i <= roots@.len(),
            opts.max_count is None ==> run@.emitted + roots_bytes(roots@.skip(i as int))
                <= usize::MAX,
            run_from(fresh_run(), roots@, spec.recurse, *opts, matcher@) == run_from(
                run@,
                roots@.skip(i as int),
                spec.recurse,
                *opts,
                matcher@,
            ),
            notices_from(fresh_run(), roots@, spec.recurse, *opts, matcher@) == texts(notices@)
                + notices_from(run@, roots@.skip(i as int), spec.recurse, *opts, matcher@),
        decreases roots@.len() - i,
    {
        assert(roots@.skip(i as int)[0] == roots@[i as int]);
        assert(roots@.skip(i as int).drop_first() =~= roots@.skip(i + 1));
        let ghost noted = texts(notices@);
        let ghost at = run@;
        if !run.stopped {
            match &roots[i] {
                RootEntry::File(file) => {
                    let action = root_action(PathKind::File, spec);
                    assert(action == RootAction::SearchFile);
                    run.search_file(file, matcher, opts);
                },
                RootEntry::Directory(path, files) => {
                    match root_action(PathKind::Directory, spec) {
                        RootAction::Walk => {
                            run.search_files(files, matcher, opts);
                        },
                        _ => {
                            notices.push(directory_notice(path.as_str()));
                            assert(texts(notices@) =~= noted + seq![notices@.last()@]);
                        },
                    }
                },
                RootEntry::Missing(path) => {
                    let action = root_action(PathKind::Missing, spec);
                    assert(action == RootAction::NoteMissing);
                    notices.push(missing_notice(path.as_str()));
                    assert(texts(notices@) =~= noted + seq![notices@.last()@]);
                },
            }
        } else {
            proof {
                lemma_stopped_stays(at, roots@[i as int], spec.recurse, *opts, matcher@);
            }
        }
        i = i + 1;
    }
    assert(texts(notices@) + Seq::<Seq<char>>::empty() =~= texts(notices@));
    Outcome { found_any: run.found_any, records: run.records, notices }
}

/// A run that has stopped stays as it is over any root.
proof fn lemma_stopped_stays(
    s: RunState,
    root: RootEntry,
    recurse: bool,
    opts: Options,
    matcher: MatcherView,
)
    requires
        s.stopped,
    ensures
        root_step(s, root, recurse, opts, matcher) == s,
{
    match root {
        RootEntry::Directory(_, files) => {
            lemma_stopped_files(s, files@, opts, matcher);
        },
        _ => {},
    }
}

/// A run that has stopped stays as it is over any files.
proof fn lemma_stopped_files(s: RunState, files: Seq<FileEntry>, opts: Options, matcher: MatcherView)
    requires
        s.stopped,
    ensures
        files_from(s, files, opts, matcher) == s,
    decreases files.len(),
{
    if files.len() > 0 {
        lemma_stopped_files(s, files.drop_first(), opts, matcher);
    }
}

} // verus!
