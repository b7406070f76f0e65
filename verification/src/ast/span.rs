use vstd::prelude::*;

verus! {

/// A half-open byte range `[start, end)` into the raw source text.
///
/// Offsets count bytes of the input as it was handed in, before any
/// normalisation.
#[derive(Debug, Clone, Copy, PartialEq, Eq, Structural, Hash)]
pub struct Span {
    pub start: u64,
    pub end: u64,
}

impl Span {
    /// `start <= end`.
    pub open spec fn wf(self) -> bool {
        self.start <= self.end
    }

    /// `start <= end <= len`: the span lies inside a text of `len` bytes.
    pub open spec fn within(self, len: int) -> bool {
        self.start <= self.end && self.end <= len
    }

    /// The least span that contains both `self` and `other`.
    pub open spec fn spec_cover(self, other: Span) -> Span {
        Span {
            start: if self.start <= other.start { self.start } else { other.start },
            end: if self.end >= other.end { self.end } else { other.end },
        }
    }

    /// Number of bytes covered; zero for a span whose ends are crossed.
    pub open spec fn spec_len(self) -> int {
        if self.end >= self.start { self.end - self.start } else { 0 }
    }

    pub fn new(start: u64, end: u64) -> (s: Span)
        requires
            start <= end,
        ensures
            s.start == start,
            s.end == end,
            s.wf(),
    {
        Span { start, end }
    }

    pub fn len(&self) -> (n: u64)
        ensures
            n == self.spec_len(),
    {
        if self.end >= self.start { self.end - self.start } else { 0 }
    }

    pub fn is_empty(&self) -> (b: bool)
        ensures
            b == (self.start >= self.end),
            b == (self.spec_len() == 0),
    {
        self.start >= self.end
    }

    pub fn contains(&self, pos: u64) -> (b: bool)
        ensures
            b == (self.start <= pos && pos < self.end),
    {
        self.start <= pos && pos < self.end
    }

    pub fn cover(self, other: Span) -> (s: Span)
        ensures
            s == self.spec_cover(other),
    {
        Span {
            start: if self.start <= other.start { self.start } else { other.start },
            end: if self.end >= other.end { self.end } else { other.end },
        }
    }
}

impl Default for Span {
    fn default() -> (s: Span)
        ensures
            s.start == 0,
            s.end == 0,
    {
        Span { start: 0, end: 0 }
    }
}

/// `cover` contains both of its arguments and is the least such span; it
/// keeps well-formedness and any common upper bound.
pub proof fn lemma_cover_is_least_upper_bound(a: Span, b: Span, c: Span)
    ensures
        a.spec_cover(b).start <= a.start,
        a.spec_cover(b).start <= b.start,
        a.spec_cover(b).end >= a.end,
        a.spec_cover(b).end >= b.end,
        a.spec_cover(b) == b.spec_cover(a),
        a.wf() || b.wf() ==> a.spec_cover(b).wf(),
        (c.start <= a.start && c.start <= b.start && c.end >= a.end && c.end >= b.end) ==> (c.start
            <= a.spec_cover(b).start && c.end >= a.spec_cover(b).end),
        forall|len: int| a.within(len) && b.within(len) ==> #[trigger] a.spec_cover(b).within(len),
{
}

} // verus!
