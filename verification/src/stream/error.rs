//! Errors of the stream.
use crate::archive::error::ArchiveError;
use vstd::prelude::*;

verus! {

/// What can go wrong while the stream is served.
#[derive(Debug, Clone, PartialEq, Eq)]
pub enum StreamError {
    /// The backing file could not be read; holds the message of the I/O
    /// layer.
    Read(String),
    /// No volume of the stream has this path.
    FileNotFound(String),
    /// A volume could not be analysed.
    Archive(ArchiveError),
}

} // verus!
