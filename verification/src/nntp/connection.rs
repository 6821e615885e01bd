//! A connection to a news server, before it is opened.
use crate::nntp::types::NntpConfig;
use vstd::prelude::*;

verus! {

/// A connection that is set up but not opened.
#[derive(Debug, Clone, PartialEq, Eq)]
pub struct NntpConnection {
    config: NntpConfig,
}

impl NntpConnection {
    /// The settings of the connection.
    pub closed spec fn spec_config(&self) -> NntpConfig {
        self.config
    }

    pub fn new(config: NntpConfig) -> (c: NntpConnection)
        ensures
            c.spec_config() == config,
    {
        NntpConnection { config }
    }

    /// The settings of the connection.
    pub fn config(&self) -> (c: &NntpConfig)
        ensures
            *c == self.spec_config(),
    {
        &self.config
    }
}

} // verus!
