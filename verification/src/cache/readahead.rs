//! The detector of sequential access that sizes the read-ahead window.

use vstd::prelude::*;

verus! {

/// The distance between two reads that counts as sequential: one page.
pub const STRIDE: usize = 4096;

/// The number of sequential reads after which the pattern is sequential.
pub const SEQUENTIAL_AFTER: usize = 3;

/// How a file is being read.
#[derive(Debug, Clone, Copy, PartialEq, Eq, Structural)]
pub enum AccessPattern {
    /// Each read follows the one before.
    Sequential,
    /// The last read did not follow the one before.
    Random,
    /// Nothing was read yet.
    Unknown,
}

/// The detector's state.
pub struct ReadaheadPolicy {
    pattern: AccessPattern,
    last_offset: usize,
    sequential_count: usize,
}

/// The detector's state as a mathematical value.
pub struct ReadaheadView {
    pub pattern: AccessPattern,
    pub last_offset: nat,
    pub sequential_count: nat,
}

/// The state after a read at `offset`.
///
/// A read one page after the last one counts as sequential, and the pattern
/// is sequential once more than three such reads came in a row; the count
/// stops at the greatest value a machine word holds. Any other read makes
/// the pattern random and the count zero.
pub open spec fn after_update(v: ReadaheadView, offset: usize) -> ReadaheadView {
    if offset == v.last_offset + STRIDE {
        let count = if v.sequential_count >= usize::MAX {
            v.sequential_count
        } else {
            v.sequential_count + 1
        };
        ReadaheadView {
            pattern: if count > SEQUENTIAL_AFTER {
                AccessPattern::Sequential
            } else {
                v.pattern
            },
            last_offset: offset as nat,
            sequential_count: count,
        }
    } else {
        ReadaheadView {
            pattern: AccessPattern::Random,
            last_offset: offset as nat,
            sequential_count: 0,
        }
    }
}

/// The number of pages to read ahead under a pattern.
pub open spec fn window(pattern: AccessPattern) -> usize {
    match pattern {
        AccessPattern::Sequential => 8,
        AccessPattern::Random => 1,
        AccessPattern::Unknown => 2,
    }
}

impl View for ReadaheadPolicy {
    type V = ReadaheadView;

    closed spec fn view(&self) -> ReadaheadView {
        ReadaheadView {
            pattern: self.pattern,
            last_offset: self.last_offset as nat,
            sequential_count: self.sequential_count as nat,
        }
    }
}

impl ReadaheadPolicy {
    /// A detector that has seen no read.
    pub fn new() -> (r: Self)
        ensures
            r@ == (ReadaheadView {
                pattern: AccessPattern::Unknown,
                last_offset: 0,
                sequential_count: 0,
            }),
    {
        ReadaheadPolicy { pattern: AccessPattern::Unknown, last_offset: 0, sequential_count: 0 }
    }

    /// Takes note of a read at `offset`.
    pub fn update(&mut self, offset: usize)
        ensures
            final(self)@ == after_update(old(self)@, offset),
    {
        if self.last_offset <= usize::MAX - STRIDE && offset == self.last_offset + STRIDE {
            if self.sequential_count < usize::MAX {
                self.sequential_count = self.sequential_count + 1;
            }
            if self.sequential_count > SEQUENTIAL_AFTER {
                self.pattern = AccessPattern::Sequential;
            }
        } else {
            self.sequential_count = 0;
            self.pattern = AccessPattern::Random;
        }
        self.last_offset = offset;
    }

    /// The number of pages to read ahead: eight when reading sequentially,
    /// one when reading at random, two before anything was read.
    pub fn readahead_size(&self) -> (r: usize)
        ensures
            r == window(self@.pattern),
    {
        match self.pattern {
            AccessPattern::Sequential => 8,
            AccessPattern::Random => 1,
            AccessPattern::Unknown => 2,
        }
    }

    /// The pattern seen so far.
    pub fn pattern(&self) -> (r: AccessPattern)
        ensures
            r == self@.pattern,
    {
        self.pattern
    }
}

} // verus!
