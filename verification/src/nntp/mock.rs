//! The retriever that reads articles from a directory instead of a
//! server.
use vstd::prelude::*;

verus! {

/// The retriever that reads articles from a directory.
#[derive(Debug, Clone, PartialEq, Eq)]
pub struct MockNntpClient {
    mock_dir: Option<String>,
}

impl MockNntpClient {
    /// The directory that holds the articles, if one was named.
    pub closed spec fn spec_mock_dir(&self) -> Option<String> {
        self.mock_dir
    }

    pub fn new(mock_dir: Option<String>) -> (c: MockNntpClient)
        ensures
            c.spec_mock_dir() == mock_dir,
    {
        MockNntpClient { mock_dir }
    }

    /// The directory that holds the articles, if one was named.
    pub fn mock_dir(&self) -> (d: &Option<String>)
        ensures
            *d == self.spec_mock_dir(),
    {
        &self.mock_dir
    }
}

} // verus!
