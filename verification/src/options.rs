//! Search configuration and the shared match budget.

use vstd::prelude::*;

verus! {

/// Output and filtering options of one search run. Built once, read-only afterwards.
#[derive(Clone, Copy, Debug)]
pub struct Options {
    /// Prefix each record with the 1-based line number.
    pub line_number: bool,
    /// Wrap every match in emphasis markers.
    pub color: bool,
    /// Cap on the number of records emitted over the whole run.
    pub max_count: Option<usize>,
    /// Leave out files that look binary.
    pub skip_binary: bool,
}

impl Options {
    /// The options that the command line's switches ask for: colour unless
    /// switched off, binary files skipped unless asked for.
    pub fn from_flags(
        line_number: bool,
        no_color: bool,
        max_count: Option<usize>,
        include_binary: bool,
    ) -> (opts: Options)
        ensures
            opts == (Options {
                line_number,
                color: !no_color,
                max_count,
                skip_binary: !include_binary,
            }),
    {
        Options { line_number, color: !no_color, max_count, skip_binary: !include_binary }
    }
}

/// How the files under the roots of a run are chosen. Built once, shared by all roots.
#[derive(Debug)]
pub struct TraversalSpec {
    /// Walk the tree under a directory root.
    pub recurse: bool,
    /// Visit hidden entries too.
    pub include_hidden: bool,
    /// Honour ignore files of every kind.
    pub respect_ignore_files: bool,
    /// Glob filters, in the order given.
    pub globs: Vec<String>,
}

/// Whether a run with cap `max_count` that has emitted `emitted` records must stop.
pub open spec fn budget_spent(max_count: Option<usize>, emitted: int) -> bool {
    match max_count {
        Some(m) => emitted >= m,
        None => false,
    }
}

/// Tells whether the cap on emitted records has been reached.
pub fn stop_now(opts: &Options, emitted: usize) -> (stop: bool)
    ensures
        stop == budget_spent(opts.max_count, emitted as int),
{
    match opts.max_count {
        Some(m) => emitted >= m,
        None => false,
    }
}

/// The number of records after one more line was scanned: one more if the
/// line holds a match and the budget was not spent.
pub open spec fn budget_step(max_count: Option<usize>, emitted: nat, hit: bool) -> nat {
    if hit && !budget_spent(max_count, emitted as int) {
        emitted + 1
    } else {
        emitted
    }
}

/// The number of records after the lines of `hits` were scanned in order,
/// where `hits` says of each line whether it holds a match.
pub open spec fn emitted_after(max_count: Option<usize>, emitted: nat, hits: Seq<bool>) -> nat
    decreases hits.len(),
{
    if hits.len() == 0 {
        emitted
    } else {
        emitted_after(max_count, budget_step(max_count, emitted, hits[0]), hits.drop_first())
    }
}

/// The number of lines that hold a match.
pub open spec fn count_hits(hits: Seq<bool>) -> nat
    decreases hits.len(),
{
    if hits.len() == 0 {
        0
    } else if hits[0] {
        1 + count_hits(hits.drop_first())
    } else {
        count_hits(hits.drop_first())
    }
}

/// Scanning on from `emitted` records, the count never goes down. Without a
/// cap every line with a match is counted; with a cap the count goes up to
/// the cap and no further, and a count at or above the cap stays as it is.
pub proof fn lemma_budget_run(max_count: Option<usize>, emitted: nat, hits: Seq<bool>)
    ensures
        emitted_after(max_count, emitted, hits) >= emitted,
        max_count is None ==> emitted_after(max_count, emitted, hits) == emitted + count_hits(hits),
        max_count matches Some(n) ==> emitted_after(max_count, emitted, hits) == if emitted >= n {
            emitted
        } else if emitted + count_hits(hits) <= n {
            emitted + count_hits(hits)
        } else {
            n as nat
        },
    decreases hits.len(),
{
    if hits.len() > 0 {
        lemma_budget_run(max_count, budget_step(max_count, emitted, hits[0]), hits.drop_first());
    }
}

/// The budget of a run over the lines of one file and then those of
/// another is that of one scan over all these lines.
pub proof fn lemma_budget_run_concat(
    max_count: Option<usize>,
    emitted: nat,
    first: Seq<bool>,
    second: Seq<bool>,
)
    ensures
        emitted_after(max_count, emitted, first + second) == emitted_after(
            max_count,
            emitted_after(max_count, emitted, first),
            second,
        ),
    decreases first.len(),
{
    if first.len() == 0 {
        assert(first + second =~= second);
    } else {
        assert((first + second).drop_first() =~= first.drop_first() + second);
        lemma_budget_run_concat(
            max_count,
            budget_step(max_count, emitted, first[0]),
            first.drop_first(),
            second,
        );
    }
}

/// A cap of `n` holds a run that starts with nothing emitted to `n` records
/// exactly if more than `n` lines hold a match, and to the number of such
/// lines otherwise.
pub proof fn lemma_budget_caps_run(n: usize, hits: Seq<bool>)
    ensures
        count_hits(hits) > n ==> emitted_after(Some(n), 0, hits) == n,
        count_hits(hits) <= n ==> emitted_after(Some(n), 0, hits) == count_hits(hits),
{
    lemma_budget_run(Some(n), 0, hits);
}

/// The counter of emitted records that all scans of one run share. It never
/// goes down.
#[derive(Debug)]
pub struct MatchBudget {
    emitted: usize,
}

impl View for MatchBudget {
    type V = nat;

    closed spec fn view(&self) -> nat {
        self.emitted as nat
    }
}

impl MatchBudget {
    /// A budget of which nothing is used.
    pub fn new() -> (budget: MatchBudget)
        ensures
            budget@ == 0,
    {
        MatchBudget { emitted: 0 }
    }

    /// The number of records emitted so far.
    pub fn emitted(&self) -> (n: usize)
        ensures
            n == self@,
    {
        self.emitted
    }

    /// Whether the cap of `opts` has been reached.
    pub fn is_spent(&self, opts: &Options) -> (spent: bool)
        ensures
            spent == budget_spent(opts.max_count, self@ as int),
    {
        stop_now(opts, self.emitted)
    }

    /// Counts one more emitted record.
    pub fn record(&mut self)
        requires
            old(self)@ < usize::MAX,
        ensures
            final(self)@ == old(self)@ + 1,
    {
        self.emitted = self.emitted + 1;
    }
}

} // verus!
