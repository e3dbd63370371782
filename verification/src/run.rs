//! The search orchestrator: the state of a run over all its roots, and how
//! the run ends.

use vstd::prelude::*;
use vstd::string::*;
use crate::error::{io_message, message_of, MiniGrepError};
use crate::options::{budget_spent, MatchBudget, Options};
use crate::scan::FileScan;

verus! {

/// The state of a run: the budget that all scans share, and whether a file
/// has had a match.
#[derive(Debug)]
pub struct SearchRun {
    /// The shared counter of emitted records.
    pub budget: MatchBudget,
    found_any: bool,
}

/// What is known of a run.
pub struct SearchRunView {
    /// The number of records emitted so far.
    pub emitted: nat,
    /// Whether a file searched so far had a match.
    pub found_any: bool,
}

impl View for SearchRun {
    type V = SearchRunView;

    closed spec fn view(&self) -> SearchRunView {
        SearchRunView { emitted: self.budget@, found_any: self.found_any }
    }
}

impl SearchRun {
    /// A run before its first file.
    pub fn new() -> (run: SearchRun)
        ensures
            run@ == (SearchRunView { emitted: 0, found_any: false }),
    {
        SearchRun { budget: MatchBudget::new(), found_any: false }
    }

    /// Takes note of a file whose scan has ended, and tells whether the run
    /// stops here because the cap on emitted records is reached: no further
    /// file is searched then, under this root or a later one.
    pub fn file_done(&mut self, scan: &FileScan, opts: &Options) -> (stop: bool)
        ensures
            final(self)@ == (SearchRunView {
                emitted: old(self)@.emitted,
                found_any: old(self)@.found_any || scan@.found,
            }),
            stop == budget_spent(opts.max_count, old(self)@.emitted as int),
    {
        self.found_any = self.found_any || scan.found();
        self.budget.is_spent(opts)
    }

    /// Takes note of a file whose scan ended because the file could not be
    /// read further, with `detail` as the words of the failure. The file is
    /// passed over and the run goes on: what was found in the file before
    /// counts, as in [`SearchRun::file_done`]. Returns the notice for the
    /// failure, and whether the run stops here because the cap is reached.
    pub fn file_failed(&mut self, scan: &FileScan, opts: &Options, detail: &str) -> (r: (
        String,
        bool,
    ))
        ensures
            final(self)@ == (SearchRunView {
                emitted: old(self)@.emitted,
                found_any: old(self)@.found_any || scan@.found,
            }),
            r.0@ == "mini-grep: "@ + io_message(detail@),
            r.1 == budget_spent(opts.max_count, old(self)@.emitted as int),
    {
        let notice = error_notice(&MiniGrepError::Io(String::from_str(detail)));
        let stop = self.file_done(scan, opts);
        (notice, stop)
    }

    /// Whether a file searched so far had a match.
    pub fn found_any(&self) -> (found: bool)
        ensures
            found == self@.found_any,
    {
        self.found_any
    }
}

/// The exit status of the process: 0 if a match was found, 1 if the run
/// ended without one, 2 if it ended with an error.
pub open spec fn exit_status(outcome: Result<bool, MiniGrepError>) -> int {
    match outcome {
        Ok(true) => 0,
        Ok(false) => 1,
        Err(_) => 2,
    }
}

/// Computes the exit status; see [`exit_status`].
pub fn exit_code(outcome: &Result<bool, MiniGrepError>) -> (code: i32)
    ensures
        code == exit_status(*outcome),
{
    match outcome {
        Ok(true) => 0,
        Ok(false) => 1,
        Err(_) => 2,
    }
}

/// The notice for an error of a run: the program's name, then the message
/// of the error, whole.
pub fn error_notice(e: &MiniGrepError) -> (notice: String)
    ensures
        notice@ == "mini-grep: "@ + message_of(*e),
{
    let mut notice = String::from_str("mini-grep: ");
    let message = e.message();
    notice.append(message.as_str());
    notice
}

} // verus!
