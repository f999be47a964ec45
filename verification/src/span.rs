//! Half-open source spans and their conversion to output ranges.

use vstd::prelude::*;

verus! {

/// A half-open range of character positions `[lo, hi)` within one source
/// buffer.
#[derive(Debug, Clone, Copy, PartialEq, Eq, Structural)]
pub struct Span {
    pub lo: usize,
    pub hi: usize,
}

impl Span {
    /// A span never runs backwards.
    pub open spec fn wf(self) -> bool {
        self.lo <= self.hi
    }

    pub fn new(lo: usize, hi: usize) -> (s: Span)
        requires
            lo <= hi,
        ensures
            s == (Span { lo, hi }),
            s.wf(),
    {
        Span { lo, hi }
    }
}

/// Two spans overlap when their intersection is non-empty; a zero-width
/// span intersects nothing.
pub open spec fn spans_overlap(a: Span, b: Span) -> bool {
    a.lo < a.hi && b.lo < b.hi && a.lo < b.hi && b.lo < a.hi
}

/// Decides overlap of two spans.
pub fn overlaps(a: &Span, b: &Span) -> (r: bool)
    ensures
        r == spans_overlap(*a, *b),
{
    a.lo < a.hi && b.lo < b.hi && a.lo < b.hi && b.lo < a.hi
}

/// A span re-expressed in the output coordinate system: start and end
/// positions plus the identifier of the source buffer they index.
#[derive(Debug, PartialEq, Eq)]
pub struct Range {
    pub start: usize,
    pub end: usize,
    pub filename: String,
}

impl Clone for Range {
    fn clone(&self) -> (r: Self)
        ensures
            r == *self,
    {
        Range { start: self.start, end: self.end, filename: self.filename.clone() }
    }
}

impl Range {
    /// Converts a span into an output range against a buffer of
    /// `buffer_len` characters named `filename`.  The conversion fails
    /// exactly when the span does not denote a forward range inside the
    /// buffer; a body whose defining span fails this conversion is
    /// abandoned by the driver.
    pub fn from_span(span: &Span, filename: &String, buffer_len: usize) -> (r: Option<Range>)
        ensures
            (span.lo <= span.hi && span.hi <= buffer_len) <==> r is Some,
            r is Some ==> r->Some_0 == (Range {
                start: span.lo,
                end: span.hi,
                filename: *filename,
            }),
    {
        if span.lo <= span.hi && span.hi <= buffer_len {
            Some(Range { start: span.lo, end: span.hi, filename: filename.clone() })
        } else {
            None
        }
    }
}

} // verus!
