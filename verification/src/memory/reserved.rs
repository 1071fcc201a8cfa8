//! Ranges of reserved but not allocated virtual memory.

use vstd::prelude::*;

verus! {

/// Structure used to denote a start and end range.
#[derive(Clone, Copy, Debug, PartialEq, Eq)]
pub struct Range {
    /// The start address of a range.
    pub start: usize,
    /// The end address of a range (inclusive).
    pub end: usize,
}

impl Range {
    /// The amount of bytes this range spans.
    pub fn byte_count(&self) -> (r: usize)
        requires
            self.start <= self.end,
            self.end - self.start + 1 <= usize::MAX,
        ensures
            r == self.end - self.start + 1,
    {
        self.end - self.start + 1
    }

    /// The amount of whole pages this range spans.
    pub fn page_count(&self) -> (r: usize)
        requires
            self.start <= self.end,
            self.end - self.start + 1 <= usize::MAX,
        ensures
            r == (self.end - self.start + 1) / 4096,
    {
        self.byte_count() / 4096
    }
}

} // verus!
