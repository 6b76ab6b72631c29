//! File-content caching: the adaptive replacement cache, its statistics and
//! the sequential-access detector.

use vstd::prelude::*;

pub mod arc_model;
pub mod arc_cache;
pub mod readahead;
pub mod stats;
pub mod page_cache;

verus! {

/// An empty file cache for `capacity` entries.
pub fn init(capacity: usize) -> (r: Result<arc_cache::UCache, &'static str>)
    ensures
        r is Ok,
        r->Ok_0.wf(),
        r->Ok_0@ == arc_model::empty_cache(capacity as nat),
{
    Ok(arc_cache::ARCache::new(capacity))
}

} // verus!
