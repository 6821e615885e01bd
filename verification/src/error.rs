//! Errors as the HTTP surface reports them.
use crate::archive::error::ArchiveError;
use crate::nntp::error::NntpError;
use crate::nzb::error::NzbError;
use crate::par2::error::Par2Error;
use crate::scheduler::error::SchedulerError;
use vstd::prelude::*;

verus! {

/// What can go wrong while a request is answered.
#[derive(Debug, PartialEq, Eq)]
pub enum RestError {
    /// The upload is no manifest that can be read.
    NzbParse(NzbError),
    /// The upload could not be received; holds the message of the HTTP
    /// layer.
    MultiPart(String),
    /// The upload holds no field named `nzb`.
    MissingNzb,
    /// The upload is not UTF-8.
    Utf8Parse(String),
    /// The recovery file could not be read.
    Par2(Par2Error),
    /// A volume could not be analysed.
    Archive(ArchiveError),
    /// The `Range` header cannot be read.
    InvalidRange,
    /// The range cannot be served.
    RangeNotSatisfiable,
    /// No session has this id.
    SessionNotFound,
    /// The article retriever failed.
    Nntp(NntpError),
    /// A background download ended abnormally; holds the message of the
    /// runtime.
    BackgroundDownload(String),
    /// The scheduler failed.
    Scheduler(SchedulerError),
}

impl RestError {
    /// The HTTP status that reports the error: 400 for what the client
    /// sent wrongly, 404 for an unknown session, 416 for a range that
    /// cannot be served, 500 for everything else.
    pub open spec fn spec_status_code(&self) -> u16 {
        match self {
            RestError::NzbParse(_) => 400,
            RestError::MultiPart(_) => 500,
            RestError::MissingNzb => 400,
            RestError::Utf8Parse(_) => 400,
            RestError::Par2(_) => 500,
            RestError::Archive(_) => 500,
            RestError::InvalidRange => 400,
            RestError::RangeNotSatisfiable => 416,
            RestError::SessionNotFound => 404,
            RestError::Nntp(_) => 500,
            RestError::BackgroundDownload(_) => 500,
            RestError::Scheduler(_) => 500,
        }
    }

    /// The HTTP status that reports the error.
    pub fn status_code(&self) -> (code: u16)
        ensures
            code == self.spec_status_code(),
    {
        match self {
            RestError::NzbParse(_) => 400,
            RestError::MultiPart(_) => 500,
            RestError::MissingNzb => 400,
            RestError::Utf8Parse(_) => 400,
            RestError::Par2(_) => 500,
            RestError::Archive(_) => 500,
            RestError::InvalidRange => 400,
            RestError::RangeNotSatisfiable => 416,
            RestError::SessionNotFound => 404,
            RestError::Nntp(_) => 500,
            RestError::BackgroundDownload(_) => 500,
            RestError::Scheduler(_) => 500,
        }
    }

    /// The message that the answer carries.
    pub open spec fn spec_message(&self) -> Seq<char> {
        match self {
            RestError::NzbParse(_) => "Error encountered reading upload as NZB file"@,
            RestError::MultiPart(_) => "Error encountered during file upload"@,
            RestError::MissingNzb => "Please upload an NZB file using the 'nzb' form field"@,
            RestError::Utf8Parse(_) => "Error encountered reading uploaded file contents"@,
            RestError::Par2(_) => "Error encountered attempting to decode PAR2 recovery file"@,
            RestError::Archive(_) => "Error encountered attempting to read RAR volume"@,
            RestError::InvalidRange => "Invalid range header"@,
            RestError::RangeNotSatisfiable => "Requested range not satisfiable"@,
            RestError::SessionNotFound => "Session not found"@,
            RestError::Nntp(_) => "Error in NNTP client"@,
            RestError::BackgroundDownload(_) => "Error in background downloads"@,
            RestError::Scheduler(_) => "Error in scheduler"@,
        }
    }

    /// The message that the answer carries.
    pub fn message(&self) -> (s: String)
        ensures
            s@ == self.spec_message(),
    {
        match self {
            RestError::NzbParse(_) => "Error encountered reading upload as NZB file".to_owned(),
            RestError::MultiPart(_) => "Error encountered during file upload".to_owned(),
            RestError::MissingNzb => "Please upload an NZB file using the 'nzb' form field".to_owned(),
            RestError::Utf8Parse(_) => "Error encountered reading uploaded file contents".to_owned(),
            RestError::Par2(_) => "Error encountered attempting to decode PAR2 recovery file".to_owned(),
            RestError::Archive(_) => "Error encountered attempting to read RAR volume".to_owned(),
            RestError::InvalidRange => "Invalid range header".to_owned(),
            RestError::RangeNotSatisfiable => "Requested range not satisfiable".to_owned(),
            RestError::SessionNotFound => "Session not found".to_owned(),
            RestError::Nntp(_) => "Error in NNTP client".to_owned(),
            RestError::BackgroundDownload(_) => "Error in background downloads".to_owned(),
            RestError::Scheduler(_) => "Error in scheduler".to_owned(),
        }
    }
}

} // verus!
