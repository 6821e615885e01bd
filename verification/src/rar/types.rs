//! The files of an archive, as a list.
use vstd::prelude::*;

verus! {

/// A file of an archive: its name, its size and where it starts.
#[derive(Debug, Clone, PartialEq, Eq)]
pub struct RarFile {
    pub name: String,
    pub size: u64,
    pub offset: u64,
}

/// The files of an archive.
#[derive(Debug, Clone, PartialEq, Eq)]
pub struct RarArchive {
    pub files: Vec<RarFile>,
}

impl Default for RarArchive {
    fn default() -> (a: RarArchive)
        ensures
            a.files@.len() == 0,
    {
        RarArchive::new()
    }
}

impl RarArchive {
    /// An archive without files.
    pub fn new() -> (a: RarArchive)
        ensures
            a.files@.len() == 0,
    {
        RarArchive { files: Vec::new() }
    }
}

} // verus!
