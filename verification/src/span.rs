//! Byte spans: half-open intervals into the source text, merged by min/max.

use vstd::prelude::*;

verus! {

/// A half-open byte interval `[start, end)` into the source text.
#[derive(Debug, Copy, Clone, PartialEq, Eq, Structural, Default, Hash)]
pub struct Span {
    pub start: usize,
    pub end: usize,
}

impl Span {
    /// The smallest interval covering both `self` and `other`.
    pub fn merge(&self, other: &Span) -> (r: Span)
        ensures
            r == self.spec_merge(*other),
    {
        Span {
            start: if self.start <= other.start {
                self.start
            } else {
                other.start
            },
            end: if self.end >= other.end {
                self.end
            } else {
                other.end
            },
        }
    }

    pub open spec fn spec_merge(self, other: Span) -> Span {
        Span {
            start: if self.start <= other.start {
                self.start
            } else {
                other.start
            },
            end: if self.end >= other.end {
                self.end
            } else {
                other.end
            },
        }
    }

    /// An ordered interval that lies within a source of length `len`.
    pub open spec fn wf(self, len: nat) -> bool {
        self.start <= self.end <= len
    }
}

} // verus!
