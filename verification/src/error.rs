//! Error types: fatal errors of a run, and per-file errors that are recorded
//! and reported while the run goes on.

use vstd::prelude::*;
use std::path::PathBuf;
use crate::paths::{display_path, shown};

verus! {

#[verifier::external_type_specification]
#[verifier::external_body]
pub struct ExIoError(std::io::Error);

/// A fatal error of a run.
pub enum HrError {
    /// The directory cannot be accessed.
    Directory { path: String, source: std::io::Error },
    /// Another task holds the directory (the lock file's path).
    Locked { path: String },
    /// An I/O operation failed.
    Io { operation: &'static str, path: String, source: std::io::Error },
    /// A file could not be moved to the trash.
    Trash { path: String, message: String },
    /// A rename would have overwritten something.
    Conflict { path: String, message: String },
    /// The task was cancelled.
    Cancelled,
    Other(String),
}

impl HrError {
    /// An I/O failure of `op` on `path`.
    pub fn io(op: &'static str, path: &PathBuf, e: std::io::Error) -> (r: Self)
        ensures
            r matches HrError::Io { operation, path: shown_path, source } && operation == op && source == e
                && shown_path@ == shown(*path),
    {
        HrError::Io { operation: op, path: display_path(path), source: e }
    }
}

/// A per-file error, kept for the report.
pub struct FileError {
    /// The path of the file concerned, rendered for display.
    pub path: String,
    /// The kind of operation: scan / hash / verify / trash / rename / recover.
    pub operation: String,
    pub message: String,
}

impl FileError {
    pub fn new(operation: &str, path: &PathBuf, message: String) -> (r: Self)
        ensures
            r.operation@ == operation@,
            r.path@ == shown(*path),
            r.message@ == message@,
    {
        FileError { path: display_path(path), operation: operation.to_string(), message }
    }

    /// An error whose path is already rendered.
    pub fn with_display(operation: &str, path: String, message: String) -> (r: Self)
        ensures
            r.operation@ == operation@,
            r.path@ == path@,
            r.message@ == message@,
    {
        FileError { path, operation: operation.to_string(), message }
    }
}

} // verus!
