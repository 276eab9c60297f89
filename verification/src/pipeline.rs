//! The per-file pipeline as a state machine, and the tally of a run.
//!
//! A worker drives one `FileTask` by performing each returned action —
//! the stat, the lock attempt, the query, the write — and handing the
//! result back as the next event. The stage order is fixed: staleness
//! check, then lock, then query (with encoding), then write; every
//! failure ends the task with an outcome local to its file.

use vstd::prelude::*;
use crate::errors::TaskError;
use crate::file_handler::{spec_should_update, FileHandler};
use crate::json_generator::{flat_rows, generate_document, render_document, ResultGroup};
use crate::paths::{json_path_of, json_path_string, root_name_of};

verus! {

/// What the worker must do next.
pub enum StageAction {
    /// Stat the output file and read the clock.
    CheckStaleness,
    /// Try to take the input file's exclusive lock, without waiting.
    AcquireLock,
    /// Read the input file and run its cleaned SQL.
    RunQuery,
    /// Atomically write the content to the target path.
    WriteOutput(String, String),
    /// The task is over with this outcome.
    Finish(TaskOutcome),
}

/// What the worker observed while performing the previous action.
pub enum StageEvent {
    Started,
    /// The output was stat'ed: whether it exists, its last-modified time,
    /// and the current time, both in seconds since the epoch.
    OutputStat { exists: bool, last_modified: Option<u64>, now: u64 },
    /// The output could not be stat'ed.
    StatFailed { detail: String },
    LockAcquired,
    /// Another holder has the lock.
    LockBusy,
    /// The lock file could not be opened.
    LockFailed { detail: String },
    /// The query ran; its result groups.
    QueryRows { groups: Vec<ResultGroup> },
    /// The query failed to execute.
    QueryFailed { detail: String },
    /// The input file could not be read.
    ReadFailed { detail: String },
    WriteDone,
    /// The written bytes did not verify against the intended content.
    WriteMismatch,
    /// The write failed for another reason.
    WriteFailed { detail: String },
}

/// How one file's task ended.
pub enum TaskOutcome {
    /// The document was regenerated and written.
    Completed,
    /// The output was fresh; nothing was run.
    Fresh,
    /// Another worker holds the lock; skipped.
    SkippedLocked,
    /// The task failed with an error local to this file.
    Failed(TaskError),
}

/// Where a task stands.
pub enum Phase {
    Ready,
    Staleness,
    Locking,
    Querying,
    Writing,
    Finished,
}

/// Which events may answer which phase.
pub open spec fn phase_accepts(p: Phase, e: StageEvent) -> bool {
    match e {
        StageEvent::Started => p is Ready,
        StageEvent::OutputStat { .. } => p is Staleness,
        StageEvent::StatFailed { .. } => p is Staleness,
        StageEvent::LockAcquired => p is Locking,
        StageEvent::LockBusy => p is Locking,
        StageEvent::LockFailed { .. } => p is Locking,
        StageEvent::QueryRows { .. } => p is Querying,
        StageEvent::QueryFailed { .. } => p is Querying,
        StageEvent::ReadFailed { .. } => p is Querying,
        StageEvent::WriteDone => p is Writing,
        StageEvent::WriteMismatch => p is Writing,
        StageEvent::WriteFailed { .. } => p is Writing,
    }
}

/// One file's pipeline run.
pub struct FileTask {
    pub sql_path: String,
    pub interval: Option<u64>,
    pub phase: Phase,
}

impl FileTask {
    /// A task for `sql_path` with its configured interval, ready to start.
    pub fn new(sql_path: String, interval: Option<u64>) -> (r: Self)
        ensures
            r.sql_path == sql_path,
            r.interval == interval,
            r.phase is Ready,
    {
        FileTask { sql_path, interval, phase: Phase::Ready }
    }

    /// Take the next step: record what the worker observed and say what to
    /// do next. The contract fixes the stage order and every outcome: a
    /// fresh output finishes the task without a query, a busy lock is a
    /// benign skip, a query failure is this file's `QueryExecution` error,
    /// and a verified write completes the task.
    pub fn advance(&mut self, event: StageEvent) -> (a: StageAction)
        requires
            phase_accepts(old(self).phase, event),
        ensures
            final(self).sql_path == old(self).sql_path,
            final(self).interval == old(self).interval,
            (final(self).phase is Finished) <==> (a is Finish),
            match event {
                StageEvent::Started => a is CheckStaleness && final(self).phase is Staleness,
                StageEvent::OutputStat { exists, last_modified, now } => {
                    if spec_should_update(exists, last_modified, now, old(self).interval) {
                        a is AcquireLock && final(self).phase is Locking
                    } else {
                        a == StageAction::Finish(TaskOutcome::Fresh)
                    }
                },
                StageEvent::StatFailed { detail } => (a matches StageAction::Finish(
                    TaskOutcome::Failed(TaskError::Io { file, detail: d }),
                ) && file@ == old(self).sql_path@ && d == detail),
                StageEvent::LockAcquired => a is RunQuery && final(self).phase is Querying,
                StageEvent::LockBusy => a == StageAction::Finish(TaskOutcome::SkippedLocked),
                StageEvent::LockFailed { detail } => (a matches StageAction::Finish(
                    TaskOutcome::Failed(TaskError::Io { file, detail: d }),
                ) && file@ == old(self).sql_path@ && d == detail),
                StageEvent::QueryRows { groups } => (a matches StageAction::WriteOutput(p, c)
                    && p@ == json_path_of(old(self).sql_path@) && c@ == render_document(
                    root_name_of(old(self).sql_path@),
                    flat_rows(groups@),
                ) && final(self).phase is Writing),
                StageEvent::QueryFailed { detail } => (a matches StageAction::Finish(
                    TaskOutcome::Failed(TaskError::QueryExecution { file, detail: d }),
                ) && file@ == old(self).sql_path@ && d == detail),
                StageEvent::ReadFailed { detail } => (a matches StageAction::Finish(
                    TaskOutcome::Failed(TaskError::Io { file, detail: d }),
                ) && file@ == old(self).sql_path@ && d == detail),
                StageEvent::WriteDone => a == StageAction::Finish(TaskOutcome::Completed),
                StageEvent::WriteMismatch => (a matches StageAction::Finish(
                    TaskOutcome::Failed(TaskError::Integrity { file }),
                ) && file@ == old(self).sql_path@),
                StageEvent::WriteFailed { detail } => (a matches StageAction::Finish(
                    TaskOutcome::Failed(TaskError::Io { file, detail: d }),
                ) && file@ == old(self).sql_path@ && d == detail),
            },
    {
        match event {
            StageEvent::Started => {
                self.phase = Phase::Staleness;
                StageAction::CheckStaleness
            },
            StageEvent::OutputStat { exists, last_modified, now } => {
                let handler = FileHandler::new();
                if handler.should_update(exists, last_modified, now, self.interval) {
                    self.phase = Phase::Locking;
                    StageAction::AcquireLock
                } else {
                    self.phase = Phase::Finished;
                    StageAction::Finish(TaskOutcome::Fresh)
                }
            },
            StageEvent::StatFailed { detail } => {
                self.phase = Phase::Finished;
                StageAction::Finish(
                    TaskOutcome::Failed(TaskError::Io { file: self.sql_path.clone(), detail }),
                )
            },
            StageEvent::LockAcquired => {
                self.phase = Phase::Querying;
                StageAction::RunQuery
            },
            StageEvent::LockBusy => {
                self.phase = Phase::Finished;
                StageAction::Finish(TaskOutcome::SkippedLocked)
            },
            StageEvent::LockFailed { detail } => {
                self.phase = Phase::Finished;
                StageAction::Finish(
                    TaskOutcome::Failed(TaskError::Io { file: self.sql_path.clone(), detail }),
                )
            },
            StageEvent::QueryRows { groups } => {
                self.phase = Phase::Writing;
                let content = generate_document(&groups, self.sql_path.as_str());
                let target = json_path_string(self.sql_path.as_str());
                StageAction::WriteOutput(target, content)
            },
            StageEvent::QueryFailed { detail } => {
                self.phase = Phase::Finished;
                StageAction::Finish(
                    TaskOutcome::Failed(
                        TaskError::QueryExecution { file: self.sql_path.clone(), detail },
                    ),
                )
            },
            StageEvent::ReadFailed { detail } => {
                self.phase = Phase::Finished;
                StageAction::Finish(
                    TaskOutcome::Failed(TaskError::Io { file: self.sql_path.clone(), detail }),
                )
            },
            StageEvent::WriteDone => {
                self.phase = Phase::Finished;
                StageAction::Finish(TaskOutcome::Completed)
            },
            StageEvent::WriteMismatch => {
                self.phase = Phase::Finished;
                StageAction::Finish(
                    TaskOutcome::Failed(TaskError::Integrity { file: self.sql_path.clone() }),
                )
            },
            StageEvent::WriteFailed { detail } => {
                self.phase = Phase::Finished;
                StageAction::Finish(
                    TaskOutcome::Failed(TaskError::Io { file: self.sql_path.clone(), detail }),
                )
            },
        }
    }
}

/// How many outcomes of `s` up to the end satisfy `f`.
pub open spec fn count_outcomes(s: Seq<TaskOutcome>, f: spec_fn(TaskOutcome) -> bool) -> int
    decreases s.len(),
{
    if s.len() == 0 {
        0
    } else {
        count_outcomes(s.drop_last(), f) + if f(s.last()) {
            1int
        } else {
            0int
        }
    }
}

/// The terminal counts of one run.
pub struct RunSummary {
    pub completed: usize,
    pub fresh: usize,
    pub locked: usize,
    pub failed: usize,
}

/// Count each terminal outcome of a finished run. One file's failure only
/// moves it to the failure count: every other outcome is still tallied.
pub fn tally_outcomes(outcomes: &Vec<TaskOutcome>) -> (r: RunSummary)
    ensures
        r.completed == count_outcomes(outcomes@, |o: TaskOutcome| o is Completed),
        r.fresh == count_outcomes(outcomes@, |o: TaskOutcome| o is Fresh),
        r.locked == count_outcomes(outcomes@, |o: TaskOutcome| o is SkippedLocked),
        r.failed == count_outcomes(outcomes@, |o: TaskOutcome| o is Failed),
        r.completed + r.fresh + r.locked + r.failed == outcomes@.len(),
{
    let n = outcomes.len();
    let mut completed: usize = 0;
    let mut fresh: usize = 0;
    let mut locked: usize = 0;
    let mut failed: usize = 0;
    let mut i: usize = 0;
    while i < n
        invariant
            i <= n,
            n == outcomes@.len(),
            completed == count_outcomes(
                outcomes@.take(i as int),
                |o: TaskOutcome| o is Completed,
            ),
            fresh == count_outcomes(outcomes@.take(i as int), |o: TaskOutcome| o is Fresh),
            locked == count_outcomes(
                outcomes@.take(i as int),
                |o: TaskOutcome| o is SkippedLocked,
            ),
            failed == count_outcomes(outcomes@.take(i as int), |o: TaskOutcome| o is Failed),
            completed + fresh + locked + failed == i,
        decreases n - i,
    {
        proof {
            assert(outcomes@.take(i + 1 as int).drop_last() =~= outcomes@.take(i as int));
            assert(outcomes@.take(i + 1 as int).last() == outcomes@[i as int]);
        }
        match &outcomes[i] {
            TaskOutcome::Completed => {
                completed = completed + 1;
            },
            TaskOutcome::Fresh => {
                fresh = fresh + 1;
            },
            TaskOutcome::SkippedLocked => {
                locked = locked + 1;
            },
            TaskOutcome::Failed(_) => {
                failed = failed + 1;
            },
        }
        i = i + 1;
    }
    proof {
        assert(outcomes@.take(n as int) =~= outcomes@);
    }
    RunSummary { completed, fresh, locked, failed }
}

} // verus!
