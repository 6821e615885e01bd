//! The retriever that opens a connection for every segment.
use crate::nntp::config::NntpConfig;
use crate::nntp::yenc::filename_of;
use crate::nzb::file::PostedFile;
use vstd::prelude::*;

verus! {

/// Connections opened at once where the settings name no number.
pub const DEFAULT_PERMITS: usize = 40;

/// The retriever that opens a connection for every segment, and no more
/// of them at once than the settings allow.
#[derive(Debug, Clone, PartialEq, Eq)]
pub struct SimpleNntpClient {
    config: NntpConfig,
    permits: usize,
}

impl SimpleNntpClient {
    /// The settings of the retriever.
    pub closed spec fn spec_config(&self) -> NntpConfig {
        self.config
    }

    /// Connections opened at once.
    pub closed spec fn spec_permits(&self) -> usize {
        self.permits
    }

    pub fn new(config: NntpConfig) -> (c: SimpleNntpClient)
        ensures
            c.spec_config() == config,
            c.spec_permits() == config.max_connections.0,
    {
        let permits = config.max_connections.get();
        SimpleNntpClient { config, permits }
    }

    /// The settings of the retriever.
    pub fn config(&self) -> (c: &NntpConfig)
        ensures
            *c == self.spec_config(),
    {
        &self.config
    }

    /// Connections opened at once.
    pub fn permits(&self) -> (n: usize)
        ensures
            n == self.spec_permits(),
    {
        self.permits
    }
}

/// The first segment of a posted file as it lies on disk, with its
/// fingerprint.
#[derive(Debug, Clone, PartialEq, Eq)]
pub struct FirstSegment {
    pub path: String,
    pub nzb: PostedFile,
    pub hash16k: Vec<u8>,
}

/// The file name in a subject line, or `unknown` where the line holds
/// none.
pub open spec fn filename_or_unknown(subject: Seq<char>) -> Seq<char> {
    match filename_of(subject) {
        Some(name) => name,
        None => "unknown"@,
    }
}

/// Reads the file name from a subject line; a line without one gives
/// `unknown`.
pub fn extract_filename(subject: &str) -> (name: String)
    ensures
        name@ == filename_or_unknown(subject@),
{
    match crate::nntp::yenc::extract_filename(subject) {
        Some(name) => name.to_owned(),
        None => "unknown".to_owned(),
    }
}

} // verus!
