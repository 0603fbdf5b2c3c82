use vstd::prelude::*;

verus! {

/// A half-open byte range `start..end` into a source text.
#[derive(Clone, Copy, Debug, PartialEq, Eq, Structural, Hash)]
pub struct Span {
    pub start: usize,
    pub end: usize,
}

impl Span {
    pub fn new(start: usize, end: usize) -> (span: Span)
        ensures
            span.start == start,
            span.end == end,
    {
        Span { start, end }
    }

    /// A span covers no byte when it does not extend past its start.
    pub fn is_empty(&self) -> (empty: bool)
        ensures
            empty == (self.end <= self.start),
    {
        self.end <= self.start
    }

    /// Whether `offset` lies inside the half-open range.
    pub fn contains(&self, offset: usize) -> (inside: bool)
        ensures
            inside == (self.start <= offset && offset < self.end),
    {
        self.start <= offset && offset < self.end
    }
}

} // verus!
