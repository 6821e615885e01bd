//! Errors of the archive decoders.
use vstd::prelude::*;

verus! {

/// What can go wrong while reading a PAR2 file or a RAR volume.
#[derive(Debug, Clone, PartialEq, Eq)]
pub enum ArchiveError {
    /// A file could not be read; holds the message of the I/O layer.
    Io(String),
    /// No file description was found.
    NoFiles,
    /// A packet was corrupted or cut short.
    IncompleteData,
    /// The PAR2 data could not be parsed.
    Parse,
    /// The buffer holds no readable RAR header chain.
    MalformedRar,
    /// No real name is known for the posted file with this subject.
    FilenameNotFound(String),
}

impl ArchiveError {
    /// The message shown for this error.
    pub fn message(&self) -> (s: String)
        ensures
            s@ == self.spec_message(),
    {
        match self {
            ArchiveError::Io(_) => "Error reading file".to_string(),
            ArchiveError::NoFiles => "No files found".to_string(),
            ArchiveError::IncompleteData => "Received corrupted or incomplete packet".to_string(),
            ArchiveError::Parse => "PAR2 parsing error".to_string(),
            ArchiveError::MalformedRar => "RAR signature not found in buffer".to_string(),
            ArchiveError::FilenameNotFound(subject) => {
                let mut s = "Could not create download task for subject ".to_string();
                s.append(subject.as_str());
                s
            },
        }
    }

    pub open spec fn spec_message(&self) -> Seq<char> {
        match self {
            ArchiveError::Io(_) => "Error reading file"@,
            ArchiveError::NoFiles => "No files found"@,
            ArchiveError::IncompleteData => "Received corrupted or incomplete packet"@,
            ArchiveError::Parse => "PAR2 parsing error"@,
            ArchiveError::MalformedRar => "RAR signature not found in buffer"@,
            ArchiveError::FilenameNotFound(subject) => "Could not create download task for subject "@
                + subject@,
        }
    }
}

} // verus!
