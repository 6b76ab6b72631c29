//! Counters of a page cache.

use vstd::prelude::*;

verus! {

/// The counters of a page cache.
pub struct CacheStats {
    /// Lookups that found a page.
    pub hits: usize,
    /// Lookups that found none.
    pub misses: usize,
    /// Pages that were evicted.
    pub evictions: usize,
    /// Pages that are newer than the backing store.
    pub dirty_pages: usize,
}

impl CacheStats {
    /// The number of lookups, at most `usize::MAX`.
    pub fn lookups(&self) -> (r: usize)
        ensures
            r == (if self.hits + self.misses > usize::MAX {
                usize::MAX as int
            } else {
                self.hits + self.misses
            }),
    {
        if self.hits > usize::MAX - self.misses {
            usize::MAX
        } else {
            self.hits + self.misses
        }
    }
}

} // verus!
