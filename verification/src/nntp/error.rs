//! Errors of the article retriever.
use vstd::prelude::*;

verus! {

/// What can go wrong while a pooled connection is made.
#[derive(Debug, Clone, PartialEq, Eq)]
pub enum NntpPoolError {
    /// The server refused the credentials; holds its message.
    Authentication(String),
}

/// What can go wrong while an article is retrieved.
#[derive(Debug, Clone, PartialEq, Eq)]
pub enum NntpError {
    /// The settings could not be read from the environment.
    Config(String),
    /// The body of an article could not be read.
    Read(String),
    /// The connection failed.
    Io(String),
    /// The pool could not be set up.
    CreatePool(String),
    /// No connection could be had from the pool.
    AcquirePool(NntpPoolError),
    /// The pool gave no connection in time.
    PoolTimeout,
}

impl NntpError {
    /// A failure of the transport may pass and is worth another attempt;
    /// a refusal of the credentials, bad settings or a pool that cannot be
    /// set up will not pass.
    pub open spec fn transient(&self) -> bool {
        match self {
            NntpError::Read(_) => true,
            NntpError::Io(_) => true,
            NntpError::PoolTimeout => true,
            NntpError::Config(_) => false,
            NntpError::CreatePool(_) => false,
            NntpError::AcquirePool(_) => false,
        }
    }

    /// Whether another attempt is worth while after this error.
    pub fn is_transient(&self) -> (b: bool)
        ensures
            b == self.transient(),
    {
        match self {
            NntpError::Read(_) => true,
            NntpError::Io(_) => true,
            NntpError::PoolTimeout => true,
            NntpError::Config(_) => false,
            NntpError::CreatePool(_) => false,
            NntpError::AcquirePool(_) => false,
        }
    }
}

} // verus!
