use vstd::prelude::*;

verus! {

/// A stretch of the source text: where it starts and how many bytes it covers.
#[derive(Debug, Clone, Copy, PartialEq, Eq, Structural)]
pub struct Span {
    pub offset: usize,
    pub len: usize,
}

impl Span {
    pub fn new(offset: usize, len: usize) -> (r: Span)
        ensures
            r == (Span { offset, len }),
    {
        Span { offset, len }
    }

    /// Where the stretch starts.
    pub fn offset(&self) -> (r: usize)
        ensures
            r == self.offset,
    {
        self.offset
    }

    /// How many bytes the stretch covers.
    pub fn len(&self) -> (r: usize)
        ensures
            r == self.len,
    {
        self.len
    }

    /// The offset just past the stretch.
    pub open spec fn end(self) -> int {
        self.offset + self.len
    }
}

/// A value together with the stretch of source it was read from.
#[derive(Debug, PartialEq)]
pub struct Tagged<T> {
    pub kind: T,
    pub span: Span,
}

impl<T> Tagged<T> {
    pub fn new(kind: T, span: Span) -> (r: Self)
        ensures
            r.kind == kind,
            r.span == span,
    {
        Self { kind, span }
    }
}

} // verus!
