//! The cache of articles.
use vstd::prelude::*;

verus! {

/// A cache that holds nothing.
#[derive(Debug, Clone, Copy, PartialEq, Eq)]
pub struct ArticleCache;

impl Default for ArticleCache {
    fn default() -> ArticleCache {
        ArticleCache::new()
    }
}

impl ArticleCache {
    pub fn new() -> ArticleCache {
        ArticleCache
    }
}

} // verus!
