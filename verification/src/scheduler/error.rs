//! Errors of the scheduler.
use crate::archive::error::ArchiveError;
use vstd::prelude::*;

verus! {

/// What can go wrong while downloads are scheduled.
#[derive(Debug, Clone, PartialEq, Eq)]
pub enum SchedulerError {
    /// The article retriever failed; holds its message.
    Config(String),
    /// A file could not be read or written; holds the message of the I/O
    /// layer.
    Io(String),
    /// A worker channel was closed while a segment was handed over.
    Write,
    /// The event channel was closed.
    Communication,
    /// The posted file with this subject lists no segment.
    EmptyFile(String),
    /// No file exists at this path.
    FileNotFound(String),
    /// A volume could not be analysed.
    Archive(ArchiveError),
}

} // verus!
