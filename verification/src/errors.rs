//! The error taxonomy of a run: errors local to one file's task, and the
//! fatal errors that stop a run before any file is processed.

use vstd::prelude::*;

verus! {

/// An error local to one file's task. A run logs it and goes on with the
/// other files.
pub enum TaskError {
    /// The file's SQL failed to execute.
    QueryExecution { file: String, detail: String },
    /// The written bytes did not read back as the intended content.
    Integrity { file: String },
    /// Another worker holds the file's lock; a benign skip.
    LockUnavailable { file: String },
    /// A filesystem step failed.
    Io { file: String, detail: String },
}

/// An error that aborts the run before any file is processed.
pub enum FatalError {
    /// The configuration could not be read or parsed.
    Configuration { detail: String },
    /// The database pool could not be established.
    DatabaseConnect { detail: String },
}

/// The category name a task error is logged under.
pub open spec fn spec_task_category(e: TaskError) -> Seq<char> {
    match e {
        TaskError::QueryExecution { .. } => "QueryExecutionError"@,
        TaskError::Integrity { .. } => "IntegrityError"@,
        TaskError::LockUnavailable { .. } => "LockUnavailableError"@,
        TaskError::Io { .. } => "IOError"@,
    }
}

impl TaskError {
    /// Whether the error only means "skip this file this run".
    pub fn is_benign_skip(&self) -> (r: bool)
        ensures
            r == (self is LockUnavailable),
    {
        match self {
            TaskError::LockUnavailable { .. } => true,
            _ => false,
        }
    }

    /// The category name the error is logged under.
    pub fn category(&self) -> (r: &'static str)
        ensures
            r@ == spec_task_category(*self),
    {
        match self {
            TaskError::QueryExecution { .. } => "QueryExecutionError",
            TaskError::Integrity { .. } => "IntegrityError",
            TaskError::LockUnavailable { .. } => "LockUnavailableError",
            TaskError::Io { .. } => "IOError",
        }
    }
}

/// The category name a fatal error is reported under.
pub open spec fn spec_fatal_category(e: FatalError) -> Seq<char> {
    match e {
        FatalError::Configuration { .. } => "ConfigurationError"@,
        FatalError::DatabaseConnect { .. } => "DatabaseConnectError"@,
    }
}

impl FatalError {
    /// The category name the error is reported under.
    pub fn category(&self) -> (r: &'static str)
        ensures
            r@ == spec_fatal_category(*self),
    {
        match self {
            FatalError::Configuration { .. } => "ConfigurationError",
            FatalError::DatabaseConnect { .. } => "DatabaseConnectError",
        }
    }
}

} // verus!
