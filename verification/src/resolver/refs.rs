//! The side table of resolution results: each reference site's span
//! with what the name there resolves to.
use vstd::prelude::*;

use super::env::ResolvedRef;
use super::error::Namespace;
use crate::span::Span;

verus! {

/// What a reference site resolves to.
#[derive(Debug, PartialEq, Eq)]
pub enum Resolution {
    /// A locally bound name: a lambda parameter, a `let`-bound name, a
    /// pattern or `do` variable, or a type variable.
    Local { name: String },
    /// A top-level or imported binding.
    Global(ResolvedRef),
}

/// A resolution by its view.
pub enum ResolutionView {
    Local(Seq<char>),
    Global((Seq<Seq<char>>, Seq<char>, Namespace)),
}

impl View for Resolution {
    type V = ResolutionView;

    open spec fn view(&self) -> ResolutionView {
        match self {
            Resolution::Local { name } => ResolutionView::Local(name@),
            Resolution::Global(r) => ResolutionView::Global(r@),
        }
    }
}

impl Clone for Resolution {
    fn clone(&self) -> (r: Resolution)
        ensures
            r@ == self@,
    {
        match self {
            Resolution::Local { name } => Resolution::Local { name: name.clone() },
            Resolution::Global(r) => Resolution::Global(r.clone()),
        }
    }
}

/// Every reference site's span with its resolution; one entry per span.
#[derive(Debug)]
pub struct References {
    entries: Vec<(Span, Resolution)>,
}

/// No span occurs twice.
pub open spec fn spans_unique(e: Seq<(Span, Resolution)>) -> bool {
    forall|i: int, j: int| 0 <= i < j < e.len() ==> (#[trigger] e[i]).0 != (#[trigger] e[j]).0
}

/// The table's entries by their views, as a map from span.
pub open spec fn entries_map(e: Seq<(Span, Resolution)>) -> Map<Span, ResolutionView> {
    Map::new(
        |s: Span| exists|i: int| 0 <= i < e.len() && e[i].0 == s,
        |s: Span| e[choose|i: int| 0 <= i < e.len() && e[i].0 == s].1@,
    )
}

impl View for References {
    type V = Map<Span, ResolutionView>;

    closed spec fn view(&self) -> Map<Span, ResolutionView> {
        entries_map(self.entries@)
    }
}

impl References {
    /// The table's invariant: one entry per span.
    pub closed spec fn wf(&self) -> bool {
        spans_unique(self.entries@)
    }

    /// An empty table.
    pub fn new() -> (r: References)
        ensures
            r.wf(),
            r@ == Map::<Span, ResolutionView>::empty(),
    {
        let r = References { entries: Vec::new() };
        assert(r@ =~= Map::<Span, ResolutionView>::empty());
        r
    }

    /// Record that the name at `span` resolves to `res`, replacing an
    /// earlier record for that span.
    pub fn insert(&mut self, span: Span, res: Resolution)
        requires
            old(self).wf(),
        ensures
            final(self).wf(),
            final(self)@ == old(self)@.insert(span, res@),
    {
        let ghost e0 = self.entries@;
        let ghost v = res@;
        let mut i: usize = 0;
        while i < self.entries.len()
            invariant
                i <= self.entries@.len(),
                self.entries@ == e0,
                spans_unique(e0),
                e0 == old(self).entries@,
                v == res@,
                forall|j: int| 0 <= j < i ==> self.entries@[j].0 != span,
            decreases self.entries.len() - i,
        {
            if self.entries[i].0 == span {
                let pair = (span, res);
                let ghost gp = pair;
                assert(gp.1@ == v);
                self.entries.set(i, pair);
                proof {
                    let e = self.entries@;
                    assert(e[i as int] == gp);
                    assert forall|a: int, b: int| 0 <= a < b < e.len() implies (#[trigger] e[a]).0
                        != (#[trigger] e[b]).0 by {
                        assert(e[a].0 == e0[a].0);
                        assert(e[b].0 == e0[b].0);
                    }
                    assert forall|s: Span| #[trigger] entries_map(e).dom().contains(s) == entries_map(e0).insert(span, v).dom().contains(s) by {
                        if exists|a: int| 0 <= a < e0.len() && e0[a].0 == s {
                            let a = choose|a: int| 0 <= a < e0.len() && e0[a].0 == s;
                            assert(e[a].0 == s);
                        }
                        if exists|a: int| 0 <= a < e.len() && e[a].0 == s {
                            let a = choose|a: int| 0 <= a < e.len() && e[a].0 == s;
                            assert(e0[a].0 == s);
                        }
                        if s == span {
                            assert(e[i as int].0 == s);
                        }
                    }
                    assert forall|s: Span| #[trigger] entries_map(e).dom().contains(s) implies entries_map(e)[s]
                        == entries_map(e0).insert(span, v)[s] by {
                        let a = choose|a: int| 0 <= a < e.len() && e[a].0 == s;
                        if s == span {
                            assert(a == i);
                            assert(e[i as int].1@ == v);
                        } else {
                            assert(a != i);
                            assert(e[a] == e0[a]);
                            assert(e0[a].0 == s);
                            let b = choose|b: int| 0 <= b < e0.len() && e0[b].0 == s;
                            assert(a == b);
                        }
                    }
                    assert(entries_map(e) =~= entries_map(e0).insert(span, v));
                }
                return;
            }
            i = i + 1;
        }
        self.entries.push((span, res));
        proof {
            let e = self.entries@;
            assert(e.drop_last() =~= e0);
            assert forall|a: int, b: int| 0 <= a < b < e.len() implies (#[trigger] e[a]).0
                != (#[trigger] e[b]).0 by {
                if b < e0.len() {
                    assert(e[a] == e0[a]);
                    assert(e[b] == e0[b]);
                } else {
                    assert(e[a] == e0[a]);
                }
            }
            assert forall|s: Span| #[trigger] entries_map(e).dom().contains(s) == entries_map(e0).insert(span, v).dom().contains(s) by {
                if exists|a: int| 0 <= a < e0.len() && e0[a].0 == s {
                    let a = choose|a: int| 0 <= a < e0.len() && e0[a].0 == s;
                    assert(e[a].0 == s);
                }
                if exists|a: int| 0 <= a < e.len() && e[a].0 == s {
                    let a = choose|a: int| 0 <= a < e.len() && e[a].0 == s;
                    if a < e0.len() {
                        assert(e0[a].0 == s);
                    }
                }
                if s == span {
                    assert(e[e0.len() as int].0 == s);
                }
            }
            assert forall|s: Span| #[trigger] entries_map(e).dom().contains(s) implies entries_map(e)[s]
                == entries_map(e0).insert(span, v)[s] by {
                let a = choose|a: int| 0 <= a < e.len() && e[a].0 == s;
                if s == span {
                    assert(a == e0.len());
                } else {
                    let b = choose|b: int| 0 <= b < e0.len() && e0[b].0 == s;
                    assert(e[b] == e0[b]);
                    assert(a == b);
                }
            }
            assert(entries_map(e) =~= entries_map(e0).insert(span, v));
        }
    }

    /// The resolution recorded for `span`.
    pub fn get(&self, span: Span) -> (r: Option<&Resolution>)
        requires
            self.wf(),
        ensures
            r matches Some(x) ==> self@.dom().contains(span) && self@[span] == x@,
            r is None ==> !self@.dom().contains(span),
    {
        let mut i: usize = 0;
        while i < self.entries.len()
            invariant
                i <= self.entries@.len(),
                spans_unique(self.entries@),
                forall|j: int| 0 <= j < i ==> self.entries@[j].0 != span,
            decreases self.entries.len() - i,
        {
            if self.entries[i].0 == span {
                proof {
                    let e = self.entries@;
                    let a = choose|a: int| 0 <= a < e.len() && e[a].0 == span;
                    assert(a == i);
                }
                return Some(&self.entries[i].1);
            }
            i = i + 1;
        }
        None
    }

    /// Every recorded resolution, one per reference site.
    pub fn values(&self) -> (r: Vec<Resolution>)
        requires
            self.wf(),
        ensures
            r@.len() == self@.dom().len(),
            forall|k: int| 0 <= k < r@.len() ==> self@.contains_value(#[trigger] r@[k]@),
    {
        let mut r: Vec<Resolution> = Vec::new();
        let mut i: usize = 0;
        while i < self.entries.len()
            invariant
                i <= self.entries@.len(),
                spans_unique(self.entries@),
                r@.len() == i,
                forall|k: int| 0 <= k < i ==> r@[k]@ == #[trigger] self.entries@[k].1@,
            decreases self.entries.len() - i,
        {
            r.push(self.entries[i].1.clone());
            i = i + 1;
        }
        proof {
            let e = self.entries@;
            assert forall|k: int| 0 <= k < r@.len() implies self@.contains_value(#[trigger] r@[k]@) by {
                let s = e[k].0;
                assert(entries_map(e).dom().contains(s));
                let a = choose|a: int| 0 <= a < e.len() && e[a].0 == s;
                assert(a == k);
                assert(entries_map(e)[s] == e[k].1@);
                assert(self@ == entries_map(e));
                assert(self@.dom().contains(s) && self@[s] == r@[k]@);
            }
            lemma_map_len(e);
        }
        r
    }

    /// The number of reference sites recorded.
    pub fn len(&self) -> (r: usize)
        requires
            self.wf(),
        ensures
            r == self@.dom().len(),
    {
        proof {
            lemma_map_len(self.entries@);
        }
        self.entries.len()
    }
}

/// With one entry per span, the map has one key per entry.
proof fn lemma_map_len(e: Seq<(Span, Resolution)>)
    requires
        spans_unique(e),
    ensures
        entries_map(e).dom().len() == e.len(),
        entries_map(e).dom().finite(),
    decreases e.len(),
{
    let d = entries_map(e).dom();
    if e.len() == 0 {
        assert(d =~= Set::empty());
    } else {
        let p = e.drop_last();
        assert(spans_unique(p)) by {
            assert forall|i: int, j: int| 0 <= i < j < p.len() implies (#[trigger] p[i]).0 != (#[trigger] p[j]).0 by {
                assert(p[i] == e[i]);
                assert(p[j] == e[j]);
            }
        }
        lemma_map_len(p);
        let dp = entries_map(p).dom();
        assert forall|s: Span| d.contains(s) == dp.insert(e.last().0).contains(s) by {
            if exists|a: int| 0 <= a < e.len() && e[a].0 == s {
                let a = choose|a: int| 0 <= a < e.len() && e[a].0 == s;
                if a < p.len() {
                    assert(p[a].0 == s);
                }
            }
            if exists|a: int| 0 <= a < p.len() && p[a].0 == s {
                let a = choose|a: int| 0 <= a < p.len() && p[a].0 == s;
                assert(e[a].0 == s);
            }
            if s == e.last().0 {
                assert(e[e.len() - 1].0 == s);
            }
        }
        assert(d =~= dp.insert(e.last().0));
        assert(!dp.contains(e.last().0)) by {
            if dp.contains(e.last().0) {
                let a = choose|a: int| 0 <= a < p.len() && p[a].0 == e.last().0;
                assert(e[a] == p[a]);
                assert(e[a].0 == e[e.len() - 1].0);
            }
        }
    }
}

} // verus!
