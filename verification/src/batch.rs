//! The batch: where to resume, how the ledgers are opened, and what is
//! recorded after each project. The caller runs the projects and writes the
//! files.

use vstd::prelude::*;
use vstd::string::StringExecFns;
use crate::text::{
    decimal_of, format_decimal, lemma_decimal_round_trip, lines_of, parse_decimal,
    parsed_decimal, split_lines, trim, trimmed,
};

verus! {

/// The resume index that the content of a progress file stands for: the
/// number on its first line, with whitespace around it left out; zero where
/// there is no first line or it writes no number.
pub open spec fn progress_of(content: Seq<char>) -> usize {
    let lines = lines_of(content);
    if lines.len() == 0 {
        0
    } else {
        match parsed_decimal(trimmed(lines[0])) {
            Some(index) => index,
            None => 0,
        }
    }
}

/// The index of the project at which the batch resumes; `content` is what
/// the progress file holds, none where there is no such file.
pub fn get_progress(content: Option<&str>) -> (index: usize)
    ensures
        index == match content {
            Some(text) => progress_of(text@),
            None => 0,
        },
{
    match content {
        Some(text) => {
            let lines = split_lines(text);
            if lines.len() == 0 {
                0
            } else {
                let line = trim(lines[0].as_str());
                match parse_decimal(line.as_str()) {
                    Some(index) => index,
                    None => 0,
                }
            }
        },
        None => 0,
    }
}

/// The directory below the output directory that holds the clones.
pub const PROJECTS_DIR: &'static str = "projects";

/// The directory below the output directory that holds logs and reports.
pub const RESULTS_DIR: &'static str = "results";

/// The file in the output directory that holds the resume index.
pub const PROGRESS_FILE: &'static str = "progress";

/// The file in the output directory that lists the projects that passed.
pub const PASS_FILE: &'static str = "pass";

/// The file in the output directory that lists the projects that failed.
pub const FAIL_FILE: &'static str = "fail";

/// What is written to the progress file for a resume index: its decimal numeral.
pub fn progress_text(index: usize) -> (text: String)
    ensures
        text@ == decimal_of(index as nat),
{
    format_decimal(index)
}

/// What is written to a ledger for a project: its name and a line feed.
pub fn ledger_line(proj_name: &str) -> (line: String)
    ensures
        line@ == proj_name@.push('\n'),
{
    let mut line = String::from_str(proj_name);
    line.push('\n');
    line
}

/// A resume index that was written to the progress file is the index that
/// is read from it.
pub proof fn law_progress_round_trip(index: usize)
    ensures
        progress_of(decimal_of(index as nat)) == index,
{
    lemma_decimal_round_trip(index);
}

/// How a ledger file is opened.
#[derive(Debug, Clone, Copy, PartialEq, Eq, Structural)]
pub enum LedgerMode {
    /// The file is made anew; what it held is gone.
    Fresh,
    /// New lines go after what the file holds.
    Append,
}

/// How the ledgers are opened for a batch that resumes at `start_iter`:
/// anew for a batch that starts at its first project, else for appending.
pub fn get_status_linewriter(start_iter: usize) -> (mode: LedgerMode)
    ensures
        mode == (if start_iter == 0 {
            LedgerMode::Fresh
        } else {
            LedgerMode::Append
        }),
{
    if start_iter == 0 {
        LedgerMode::Fresh
    } else {
        LedgerMode::Append
    }
}

/// What a ledger holds after it was opened in `mode` and `added` was written.
pub open spec fn ledger_content(
    existing: Seq<Seq<char>>,
    mode: LedgerMode,
    added: Seq<Seq<char>>,
) -> Seq<Seq<char>> {
    match mode {
        LedgerMode::Fresh => added,
        LedgerMode::Append => existing + added,
    }
}

/// Where a batch stands.
#[derive(Debug, Clone, Copy, PartialEq, Eq, Structural)]
pub struct BatchView {
    /// The number of projects.
    pub total: usize,
    /// The index of the project that is run next.
    pub next: usize,
    /// The index at which a later batch would resume.
    pub resume_index: usize,
    /// The number of projects that failed.
    pub failures: usize,
    /// Whether an interruption ended the batch.
    pub stopped: bool,
}

/// What the caller writes after one project.
#[derive(Debug, Clone, Copy, PartialEq, Eq, Structural)]
pub struct Decision {
    /// The project's name goes to the pass ledger.
    pub pass_entry: bool,
    /// The project's name goes to the fail ledger.
    pub fail_entry: bool,
    /// The resume index to write to the progress file, where one is written.
    pub persist: Option<usize>,
    /// The project's clone is deleted.
    pub remove_clone: bool,
    /// No further project is run.
    pub stop: bool,
}

/// What was seen of one project: whether its run passed, and whether an
/// interruption was asked for by the time it ended.
#[derive(Debug, Clone, Copy, PartialEq, Eq, Structural)]
pub struct Observation {
    pub passed: bool,
    pub interrupted: bool,
}

/// The project that is run next, if one is.
pub open spec fn current_project(batch: BatchView) -> Option<usize> {
    if !batch.stopped && batch.next < batch.total {
        Some(batch.next)
    } else {
        None
    }
}

/// The resume index after the project at `index`: past it where it passed,
/// at it where it failed.
pub open spec fn exit_index(index: usize, passed: bool) -> int {
    if passed {
        index + 1
    } else {
        index as int
    }
}

/// The batch after one project.
pub open spec fn recorded(batch: BatchView, seen: Observation) -> BatchView {
    BatchView {
        total: batch.total,
        next: (batch.next + 1) as usize,
        resume_index: exit_index(batch.next, seen.passed) as usize,
        failures: if seen.passed {
            batch.failures
        } else {
            (batch.failures + 1) as usize
        },
        stopped: seen.interrupted,
    }
}

/// What is written after one project. The resume index is written out
/// whenever it has moved, and on every interruption.
pub open spec fn decided(batch: BatchView, seen: Observation) -> Decision {
    Decision {
        pass_entry: seen.passed,
        fail_entry: seen.interrupted || !seen.passed,
        persist: if seen.interrupted || exit_index(batch.next, seen.passed)
            != batch.resume_index {
            Some(exit_index(batch.next, seen.passed) as usize)
        } else {
            None
        },
        remove_clone: seen.passed,
        stop: seen.interrupted,
    }
}

/// The bounds that hold of every batch.
pub open spec fn in_bounds(batch: BatchView) -> bool {
    &&& batch.resume_index <= batch.next
    &&& batch.failures <= batch.next
    &&& (batch.next <= batch.total || batch.next == batch.resume_index && batch.failures == 0)
}

/// A batch in progress.
#[derive(Debug, Clone, Copy, PartialEq, Eq)]
pub struct Batch {
    state: BatchView,
}

impl View for Batch {
    type V = BatchView;

    closed spec fn view(&self) -> BatchView {
        self.state
    }
}

impl Batch {
    #[verifier::type_invariant]
    spec fn bounded(self) -> bool {
        in_bounds(self.state)
    }

    /// A batch of `total` projects that resumes at `resume_index`.
    pub fn start(total: usize, resume_index: usize) -> (batch: Batch)
        ensures
            batch@ == (BatchView {
                total,
                next: resume_index,
                resume_index,
                failures: 0,
                stopped: false,
            }),
    {
        Batch {
            state: BatchView { total, next: resume_index, resume_index, failures: 0, stopped: false },
        }
    }

    /// The index of the project to run next; none once the list is done or
    /// the batch was interrupted.
    pub fn current(&self) -> (index: Option<usize>)
        ensures
            index == current_project(self@),
    {
        if !self.state.stopped && self.state.next < self.state.total {
            Some(self.state.next)
        } else {
            None
        }
    }

    /// The index at which a later batch would resume.
    pub fn resume_index(&self) -> (index: usize)
        ensures
            index == self@.resume_index,
            in_bounds(self@),
    {
        proof {
            use_type_invariant(self);
        }
        self.state.resume_index
    }

    /// The number of projects that failed so far.
    pub fn failures(&self) -> (count: usize)
        ensures
            count == self@.failures,
    {
        self.state.failures
    }

    /// Records how the current project ended and says what to write: a
    /// passed project goes to the pass ledger, loses its clone and moves the
    /// resume index past it; a failed one is counted, goes to the fail
    /// ledger and keeps the resume index at it. The resume index is written
    /// out whenever it has moved. Where an interruption was asked for, the
    /// resume index is written out in any case, the project goes to the fail
    /// ledger whatever its end, and the batch stops. Without a current
    /// project nothing changes and nothing is written.
    pub fn record(&mut self, seen: Observation) -> (decision: Option<Decision>)
        ensures
            current_project(old(self)@) is Some ==> final(self)@ == recorded(old(self)@, seen)
                && decision == Some(decided(old(self)@, seen)),
            current_project(old(self)@) is None ==> final(self)@ == old(self)@ && decision is None,
            final(self)@.resume_index >= old(self)@.resume_index,
            in_bounds(final(self)@),
    {
        proof {
            use_type_invariant(&*self);
        }
        let index = match self.current() {
            Some(index) => index,
            None => {
                return None;
            },
        };
        let resume_before = self.state.resume_index;
        let exit: usize = if seen.passed {
            index + 1
        } else {
            index
        };
        let failures: usize = if seen.passed {
            self.state.failures
        } else {
            self.state.failures + 1
        };
        self.state = BatchView {
            total: self.state.total,
            next: index + 1,
            resume_index: exit,
            failures,
            stopped: seen.interrupted,
        };
        Some(
            Decision {
                pass_entry: seen.passed,
                fail_entry: seen.interrupted || !seen.passed,
                persist: if seen.interrupted || exit != resume_before {
                    Some(exit)
                } else {
                    None
                },
                remove_clone: seen.passed,
                stop: seen.interrupted,
            },
        )
    }
}

/// The batch after the projects seen in `seen` were recorded in order; what
/// is seen once the batch has no current project changes nothing.
pub open spec fn batch_after(batch: BatchView, seen: Seq<Observation>) -> BatchView
    decreases seen.len(),
{
    if seen.len() == 0 {
        batch
    } else {
        let before = batch_after(batch, seen.drop_last());
        if current_project(before) is Some {
            recorded(before, seen.last())
        } else {
            before
        }
    }
}

/// The indices of the projects that were run, in the order of their runs.
pub open spec fn projects_run(batch: BatchView, seen: Seq<Observation>) -> Seq<usize>
    decreases seen.len(),
{
    if seen.len() == 0 {
        Seq::empty()
    } else {
        let before = batch_after(batch, seen.drop_last());
        let earlier = projects_run(batch, seen.drop_last());
        match current_project(before) {
            Some(index) => earlier.push(index),
            None => earlier,
        }
    }
}

/// A batch that resumes at index `k` runs the projects `k`, `k + 1`, and so
/// on, each once and none before `k`; its resume index never falls below `k`
/// and never moves back.
pub proof fn law_resume_runs_from_index(total: usize, k: usize, seen: Seq<Observation>)
    ensures
        ({
            let start = BatchView {
                total,
                next: k,
                resume_index: k,
                failures: 0,
                stopped: false,
            };
            let run = projects_run(start, seen);
            let end = batch_after(start, seen);
            &&& forall|j: int| 0 <= j < run.len() ==> #[trigger] run[j] == k + j
            &&& forall|j: int| 0 <= j < run.len() ==> k <= (#[trigger] run[j]) && run[j] < total
            &&& end.total == total
            &&& end.next == k + run.len()
            &&& k <= end.resume_index <= end.next
            &&& seen.len() > 0 ==> batch_after(start, seen.drop_last()).resume_index
                <= end.resume_index
            &&& in_bounds(end)
        }),
    decreases seen.len(),
{
    if seen.len() > 0 {
        law_resume_runs_from_index(total, k, seen.drop_last());
        let start = BatchView { total, next: k, resume_index: k, failures: 0, stopped: false };
        let earlier = projects_run(start, seen.drop_last());
        let run = projects_run(start, seen);
        assert forall|j: int| 0 <= j < run.len() implies k <= (#[trigger] run[j]) && run[j]
            < total by {
            if j < earlier.len() {
                assert(run[j] == earlier[j]);
            }
        }
    }
}

/// The index that the progress file stands for after the projects seen in
/// `seen` were recorded in order, where it stood for `written` before.
pub open spec fn persisted_after(written: usize, batch: BatchView, seen: Seq<Observation>) -> usize
    decreases seen.len(),
{
    if seen.len() == 0 {
        written
    } else {
        let before = batch_after(batch, seen.drop_last());
        let earlier = persisted_after(written, batch, seen.drop_last());
        if current_project(before) is Some {
            match decided(before, seen.last()).persist {
                Some(index) => index,
                None => earlier,
            }
        } else {
            earlier
        }
    }
}

/// The resume index is persisted on every mutation: a step that moves it
/// writes the new index out, and so does every interruption.
pub proof fn law_mutation_is_persisted(batch: BatchView, seen: Observation)
    requires
        current_project(batch) is Some,
    ensures
        recorded(batch, seen).resume_index != batch.resume_index ==> decided(batch, seen).persist
            == Some(recorded(batch, seen).resume_index),
        seen.interrupted ==> decided(batch, seen).persist == Some(
            recorded(batch, seen).resume_index,
        ),
        decided(batch, seen).persist matches Some(index) ==> index == recorded(
            batch,
            seen,
        ).resume_index,
{
}

/// The progress file follows the resume index: in a batch that resumes at
/// the index `k` which the file stood for, the file stands for the batch's
/// resume index after every project, whether or not an interruption came.
pub proof fn law_progress_file_follows_index(total: usize, k: usize, seen: Seq<Observation>)
    ensures
        ({
            let start = BatchView {
                total,
                next: k,
                resume_index: k,
                failures: 0,
                stopped: false,
            };
            persisted_after(k, start, seen) == batch_after(start, seen).resume_index
        }),
    decreases seen.len(),
{
    if seen.len() > 0 {
        law_progress_file_follows_index(total, k, seen.drop_last());
        law_resume_runs_from_index(total, k, seen.drop_last());
    }
}

/// A ledger of a batch that resumes at an index other than zero keeps all it
/// held, in place, before what the batch adds; one of a batch that starts at
/// zero holds what the batch adds and nothing else.
pub proof fn law_resume_appends(existing: Seq<Seq<char>>, k: usize, added: Seq<Seq<char>>)
    ensures
        ({
            let mode = if k == 0 {
                LedgerMode::Fresh
            } else {
                LedgerMode::Append
            };
            let content = ledger_content(existing, mode, added);
            &&& k != 0 ==> existing.is_prefix_of(content) && content.len() == existing.len()
                + added.len() && content.skip(existing.len() as int) == added
            &&& k == 0 ==> content == added
        }),
{
    let content = existing + added;
    assert(content.skip(existing.len() as int) =~= added);
    assert(existing.is_prefix_of(content));
}

} // verus!
