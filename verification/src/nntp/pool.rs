//! The pool of connections: what it is set up with.
use crate::nntp::config::NntpConfig;
use vstd::prelude::*;

verus! {

/// Seconds allowed for opening a connection.
pub const CREATE_TIMEOUT_SECS: u64 = 5;

/// What makes the connections of the pool: the server and the account.
#[derive(Debug, Clone, PartialEq, Eq)]
pub struct Connection {
    config: NntpConfig,
}

impl Connection {
    /// The settings that connections are made with.
    pub closed spec fn spec_config(&self) -> NntpConfig {
        self.config
    }

    pub fn new(config: NntpConfig) -> (c: Connection)
        ensures
            c.spec_config() == config,
    {
        Connection { config }
    }

    /// The settings that connections are made with.
    pub fn config(&self) -> (c: &NntpConfig)
        ensures
            *c == self.spec_config(),
    {
        &self.config
    }
}

/// The limits of a pool.
#[derive(Debug, Clone, Copy, PartialEq, Eq, Structural)]
pub struct PoolSettings {
    /// Connections held at most.
    pub max_size: usize,
    /// Seconds to wait for a free connection; nothing to wait for ever.
    pub wait_secs: Option<u64>,
    /// Seconds allowed for opening a connection.
    pub create_secs: Option<u64>,
    /// Seconds allowed for taking a connection back into use.
    pub recycle_secs: Option<u64>,
}

/// The limits of the pool for the given settings: as many connections as
/// the settings allow, no limit on waiting for one, five seconds to open
/// one, and the idle timeout to take one back into use.
pub fn pool_settings(config: &NntpConfig) -> (s: PoolSettings)
    ensures
        s == (PoolSettings {
            max_size: config.max_connections.0,
            wait_secs: None,
            create_secs: Some(CREATE_TIMEOUT_SECS),
            recycle_secs: Some(config.idle_timeout.0),
        }),
{
    PoolSettings {
        max_size: config.max_connections.get(),
        wait_secs: None,
        create_secs: Some(CREATE_TIMEOUT_SECS),
        recycle_secs: Some(config.idle_timeout.secs()),
    }
}

} // verus!
