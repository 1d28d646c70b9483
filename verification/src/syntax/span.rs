use vstd::prelude::*;

verus! {

/// A half-open byte range `[start, end)` of the source text.
#[derive(Clone, Copy, Debug, PartialEq, Eq, Structural)]
pub struct Span {
    pub start: usize,
    pub end: usize,
}

impl Span {
    /// The span `[start, end)`.
    pub fn new(start: usize, end: usize) -> (span: Span)
        ensures
            span.start == start,
            span.end == end,
    {
        Span { start, end }
    }

    /// True when the span is a range of a text of `len` bytes.
    pub open spec fn within(self, len: nat) -> bool {
        self.start <= self.end <= len
    }

    /// True when `self` lies inside `outer`.
    pub open spec fn inside(self, outer: Span) -> bool {
        outer.start <= self.start <= self.end <= outer.end
    }

    /// The number of bytes that the span covers, zero when `end < start`.
    pub fn len(&self) -> (n: usize)
        ensures
            n == if self.start <= self.end { self.end - self.start } else { 0 },
    {
        if self.start <= self.end {
            self.end - self.start
        } else {
            0
        }
    }
}

} // verus!
