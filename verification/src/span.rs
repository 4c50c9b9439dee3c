use vstd::prelude::*;

verus! {

/// A range of byte offsets `lo..hi` into a source text.
#[derive(Debug, Clone, Copy, PartialEq, Eq, Structural)]
pub struct Span {
    pub lo: usize,
    pub hi: usize,
}

/// Something that covers a range of the source text.
pub trait HasSpan {
    fn span(&self) -> Span;
}

impl Span {
    pub fn new(lo: usize, hi: usize) -> (s: Span)
        ensures
            s.lo == lo,
            s.hi == hi,
    {
        Span { lo, hi }
    }

    /// The span that starts where the earlier of the two starts and ends
    /// where `span` ends.
    pub fn to(&self, span: Span) -> (s: Span)
        ensures
            s.lo == (if self.lo <= span.lo { self.lo } else { span.lo }),
            s.hi == span.hi,
    {
        Span { lo: if self.lo <= span.lo { self.lo } else { span.lo }, hi: span.hi }
    }
}

impl Default for Span {
    fn default() -> (s: Span)
        ensures
            s.lo == 0,
            s.hi == 0,
    {
        Span { lo: 0, hi: 0 }
    }
}

} // verus!
