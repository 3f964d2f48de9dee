//! Byte-offset spans into source text.
use vstd::prelude::*;

verus! {

/// Byte-offset span into the source text: `start` inclusive, `end`
/// exclusive. An empty span (`start == end`) marks synthetic tokens.
#[derive(Debug, Clone, Copy, PartialEq, Eq, Hash, Structural)]
pub struct Span {
    pub start: usize,
    pub end: usize,
}

/// The smallest span covering both arguments.
pub open spec fn span_merge(a: Span, b: Span) -> Span {
    Span {
        start: if a.start <= b.start { a.start } else { b.start },
        end: if a.end >= b.end { a.end } else { b.end },
    }
}

/// `inner` lies within `outer`.
pub open spec fn span_contains(outer: Span, inner: Span) -> bool {
    outer.start <= inner.start && inner.end <= outer.end
}

impl Span {
    /// A span from raw start / end offsets.
    pub fn new(start: usize, end: usize) -> (r: Span)
        ensures
            r.start == start,
            r.end == end,
    {
        Span { start, end }
    }

    /// An empty span at offset `at`.
    pub fn empty(at: usize) -> (r: Span)
        ensures
            r.start == at,
            r.end == at,
    {
        Span { start: at, end: at }
    }

    /// Smallest span that contains both `self` and `other`.
    pub fn merge(self, other: Span) -> (r: Span)
        ensures
            r == span_merge(self, other),
    {
        Span {
            start: if self.start <= other.start { self.start } else { other.start },
            end: if self.end >= other.end { self.end } else { other.end },
        }
    }
}

/// Merging is commutative.
pub proof fn lemma_merge_commutative(a: Span, b: Span)
    ensures
        span_merge(a, b) == span_merge(b, a),
{
}

/// Merging is associative.
pub proof fn lemma_merge_associative(a: Span, b: Span, c: Span)
    ensures
        span_merge(span_merge(a, b), c) == span_merge(a, span_merge(b, c)),
{
}

/// Merging a span with itself gives it back.
pub proof fn lemma_merge_idempotent(a: Span)
    ensures
        span_merge(a, a) == a,
{
}

/// The merge of two spans contains each of them, and is the smallest
/// span that does: any span containing both contains their merge.
pub proof fn lemma_merge_least_cover(a: Span, b: Span, c: Span)
    ensures
        span_contains(span_merge(a, b), a),
        span_contains(span_merge(a, b), b),
        span_contains(c, a) && span_contains(c, b) ==> span_contains(c, span_merge(a, b)),
{
}

/// A well-formed span (`start <= end`) merged with another well-formed
/// span is well-formed.
pub proof fn lemma_merge_well_formed(a: Span, b: Span)
    requires
        a.start <= a.end,
        b.start <= b.end,
    ensures
        span_merge(a, b).start <= span_merge(a, b).end,
{
}

} // verus!
