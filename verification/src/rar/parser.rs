//! The list of the files of a volume.
use crate::archive::error::ArchiveError;
use crate::rar::types::RarArchive;
use vstd::prelude::*;

verus! {

/// The reader of volumes.
#[derive(Debug, Clone, Copy, PartialEq, Eq)]
pub struct RarParser;

impl RarParser {
    /// Lists the files of a volume. No file is listed yet, whatever the
    /// bytes: the stream is laid out from the payload of the volumes, not
    /// from their file lists.
    pub fn parse(data: &[u8]) -> (r: Result<RarArchive, ArchiveError>)
        ensures
            r matches Ok(a) && a.files@.len() == 0,
    {
        Ok(RarArchive::new())
    }
}

} // verus!
