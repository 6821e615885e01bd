//! Errors of the PAR2 reader.
use vstd::prelude::*;

verus! {

/// What can go wrong while reading a PAR2 file.
#[derive(Debug, Clone, PartialEq, Eq)]
pub enum Par2Error {
    /// The file could not be read; holds the message of the I/O layer.
    Io(String),
    /// No file description was found.
    NoFiles,
    /// A packet was corrupted or cut short.
    IncompleteData,
    /// The data could not be parsed.
    Parse,
    /// No main packet was found where one is needed.
    MissingMainPacket,
}

impl Par2Error {
    pub open spec fn spec_message(&self) -> Seq<char> {
        match self {
            Par2Error::Io(_) => "Error reading PAR2 file"@,
            Par2Error::NoFiles => "No files found"@,
            Par2Error::IncompleteData => "Received corrupted or incomplete packet"@,
            Par2Error::Parse => "PAR2 parsing error"@,
            Par2Error::MissingMainPacket => "PAR2 file holds no main packet"@,
        }
    }

    /// The message shown for this error.
    pub fn message(&self) -> (s: String)
        ensures
            s@ == self.spec_message(),
    {
        match self {
            Par2Error::Io(_) => "Error reading PAR2 file".to_string(),
            Par2Error::NoFiles => "No files found".to_string(),
            Par2Error::IncompleteData => "Received corrupted or incomplete packet".to_string(),
            Par2Error::Parse => "PAR2 parsing error".to_string(),
            Par2Error::MissingMainPacket => "PAR2 file holds no main packet".to_string(),
        }
    }
}

} // verus!
