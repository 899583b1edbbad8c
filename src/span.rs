use vstd::prelude::*;

verus! {

/// A half-open range `[start, end)` of character offsets into one line of rule text.
#[derive(Clone, Copy, Debug, PartialEq, Eq, Hash, Structural)]
pub struct Span {
    pub start: usize,
    pub end: usize,
}

impl Span {
    /// The span is a valid range: it never ends before it starts.
    pub open spec fn wf(self) -> bool {
        self.start <= self.end
    }

    /// The span is valid and lies inside a text of `len` characters.
    pub open spec fn within(self, len: nat) -> bool {
        self.start <= self.end && self.end <= len
    }

    /// Offsets covered by the span: `start <= offset < end`.
    pub open spec fn spec_contains(self, offset: int) -> bool {
        self.start <= offset && offset < self.end
    }

    pub fn new(start: usize, end: usize) -> (r: Span)
        ensures
            r.start == start,
            r.end == end,
    {
        Span { start, end }
    }

    /// Whether `offset` falls inside the span (end excluded).
    pub fn contains(&self, offset: usize) -> (r: bool)
        ensures
            r == self.spec_contains(offset as int),
    {
        self.start <= offset && offset < self.end
    }

    /// Number of characters covered.
    pub fn len(&self) -> (r: usize)
        requires
            self.wf(),
        ensures
            r == self.end - self.start,
    {
        self.end - self.start
    }
}

/// A value paired with the span of text it was read from.
pub type Spanned<T> = (T, Span);

} // verus!
