//! Robinson unification with occurs check.
//!
//! Both types are walked in parallel; a variable on either side extends
//! the substitution, constructors must agree by name, and applications,
//! arrows and records are unified part by part, each part under what the
//! parts before it established. Records unify when their field names
//! agree one for one.
use vstd::prelude::*;

use super::error::{TypeError, TypeErrorKind};
use super::subst_spec::{
    apply_subst, idempotent, lemma_apply_idempotent, lemma_compose_solved, lemma_compose_subst,
    lemma_occurs_tvars, lemma_record_size, lemma_record_tvars, lemma_shrinks, lemma_solved_idempotent,
    lemma_solved_mono, lemma_subst_untouched, lemma_tvars_finite, pair_vars, solved_within,
    subst_ty, tsize, tvars,
};
use super::ty::{occurs, Subst, Ty, TyVar, TyView};
use crate::span::Span;
pub use super::ty::occurs_in;

verus! {

/// `s` unifies `a` and `b`: it is solved within their variables and
/// makes them equal.
pub open spec fn unifies(s: Map<u32, TyView>, a: TyView, b: TyView) -> bool {
    &&& solved_within(s, pair_vars(a, b))
    &&& apply_subst(s, a) == apply_subst(s, b)
}

/// A unification error: a mismatch or an infinite type, at `span`.
pub open spec fn unify_error(e: TypeError, span: Span) -> bool {
    &&& e.span == span
    &&& (e.kind is Mismatch || e.kind is OccursCheck)
}

/// `u` makes `a` and `b` equal.
pub open spec fn unifier_of(u: Map<u32, TyView>, a: TyView, b: TyView) -> bool {
    subst_ty(u, a) == subst_ty(u, b)
}

/// Some substitution makes `a` and `b` equal.
pub open spec fn unifiable(a: TyView, b: TyView) -> bool {
    exists|u: Map<u32, TyView>| #[trigger] unifier_of(u, a, b)
}

/// `u` agrees with what `s` does: each variable `s` maps becomes under
/// `u` what its image becomes. A most general unifier is absorbed by
/// every unifier.
pub open spec fn absorbs(u: Map<u32, TyView>, s: Map<u32, TyView>) -> bool {
    forall|v: u32| #[trigger] s.contains_key(v) ==> subst_ty(u, s[v]) == subst_ty(u, TyView::Var(v))
}

/// A solved unifier makes the two types unifiable.
pub proof fn lemma_unifies_unifiable(s: Map<u32, TyView>, a: TyView, b: TyView)
    requires
        unifies(s, a, b),
    ensures
        unifiable(a, b),
{
    lemma_solved_idempotent(s, pair_vars(a, b));
    lemma_apply_idempotent(s, a);
    lemma_apply_idempotent(s, b);
    assert(unifier_of(s, a, b));
}

/// Substituting by `s` first changes nothing under a `u` that absorbs `s`.
pub proof fn lemma_absorbs(u: Map<u32, TyView>, s: Map<u32, TyView>, t: TyView)
    requires
        absorbs(u, s),
    ensures
        subst_ty(u, subst_ty(s, t)) == subst_ty(u, t),
    decreases t,
{
    match t {
        TyView::Var(v) => {},
        TyView::Con(..) => {},
        TyView::App(a, b) => {
            lemma_absorbs(u, s, *a);
            lemma_absorbs(u, s, *b);
        },
        TyView::Fun(a, b) => {
            lemma_absorbs(u, s, *a);
            lemma_absorbs(u, s, *b);
        },
        TyView::Record(fs) => {
            assert forall|i: int| 0 <= i < fs.len() implies subst_ty(u, subst_ty(s, fs[i].1)) == subst_ty(
                u,
                fs[i].1,
            ) by {
                assert(decreases_to!(fs => fs[i]));
                assert(decreases_to!(fs[i] => fs[i].1));
                lemma_absorbs(u, s, fs[i].1);
            }
            let x = subst_ty(u, subst_ty(s, t));
            let y = subst_ty(u, t);
            assert(x matches TyView::Record(xs) && y matches TyView::Record(ys) && xs =~= ys);
        },
    }
}

/// A `u` absorbing `o`, and an idempotent `s`, absorbs their composition.
proof fn lemma_absorbs_compose(u: Map<u32, TyView>, s: Map<u32, TyView>, o: Map<u32, TyView>)
    requires
        absorbs(u, s),
        absorbs(u, o),
        s.dom().finite(),
        idempotent(s),
    ensures
        absorbs(u, super::subst_spec::compose_map(s, o)),
{
    let c = super::subst_spec::compose_map(s, o);
    assert forall|v: u32| #[trigger] c.contains_key(v) implies subst_ty(u, c[v]) == subst_ty(
        u,
        TyView::Var(v),
    ) by {
        if o.contains_key(v) {
            lemma_apply_idempotent(s, o[v]);
            lemma_absorbs(u, s, o[v]);
        }
    }
}

/// A variable occurring in a type is no bigger, under any substitution,
/// than the type, and smaller when the type is not that variable.
proof fn lemma_occurs_grows(u: Map<u32, TyView>, v: u32, t: TyView)
    requires
        tvars(t).contains(v),
    ensures
        tsize(subst_ty(u, TyView::Var(v))) <= tsize(subst_ty(u, t)),
        !(t is Var) ==> tsize(subst_ty(u, TyView::Var(v))) < tsize(subst_ty(u, t)),
    decreases t,
{
    match t {
        TyView::Var(w) => {
            assert(tvars(t) == Set::<u32>::empty().insert(w));
        },
        TyView::Con(..) => {
            assert(tvars(t) =~= Set::<u32>::empty());
        },
        TyView::App(a, b) => {
            if tvars(*a).contains(v) {
                lemma_occurs_grows(u, v, *a);
            } else {
                lemma_occurs_grows(u, v, *b);
            }
        },
        TyView::Fun(a, b) => {
            if tvars(*a).contains(v) {
                lemma_occurs_grows(u, v, *a);
            } else {
                lemma_occurs_grows(u, v, *b);
            }
        },
        TyView::Record(fs) => {
            lemma_record_tvars(fs, v);
            let i = choose|i: int| 0 <= i < fs.len() && #[trigger] tvars(fs[i].1).contains(v);
            assert(decreases_to!(fs => fs[i]));
            assert(decreases_to!(fs[i] => fs[i].1));
            lemma_occurs_grows(u, v, fs[i].1);
            let x = subst_ty(u, t);
            if let TyView::Record(ms) = x {
                assert(ms[i].1 == subst_ty(u, fs[i].1));
                lemma_record_size(ms, i);
            }
        },
    }
}

/// Unifying is symmetric.
proof fn lemma_unifies_sym(s: Map<u32, TyView>, a: TyView, b: TyView)
    requires
        unifies(s, a, b),
    ensures
        unifies(s, b, a),
{
    assert(pair_vars(a, b) =~= pair_vars(b, a));
}

/// The most general substitution making `a` and `b` equal, or why there
/// is none.
pub fn unify(a: &Ty, b: &Ty, span: Span) -> (r: Result<Subst, TypeError>)
    ensures
        r matches Ok(s) ==> s.wf() && unifies(s@, a@, b@),
        r matches Err(e) ==> unify_error(e, span),
        forall|u: Map<u32, TyView>| #[trigger] unifier_of(u, a@, b@) ==> (r matches Ok(s) && absorbs(u, s@)),
        r is Err ==> !unifiable(a@, b@),
    decreases pair_vars(a@, b@).len(), tsize(a@) + tsize(b@),
{
    proof {
        lemma_tvars_finite(a@);
        lemma_tvars_finite(b@);
    }
    if let Ty::Var(va) = a {
        if let Ty::Var(vb) = b {
            if va.id == vb.id {
                let s = Subst::new();
                proof {
                    assert(s@.dom() =~= Set::<u32>::empty());
                    lemma_apply_idempotent(s@, a@);
                    lemma_apply_idempotent(s@, b@);
                }
                return Ok(s);
            }
        }
        return bind(va, b, span);
    }
    if let Ty::Var(vb) = b {
        let r = bind(vb, a, span);
        proof {
            if let Ok(s) = &r {
                lemma_unifies_sym(s@, b@, a@);
            }
            assert forall|u: Map<u32, TyView>| #[trigger] unifier_of(u, a@, b@) implies unifier_of(
                u,
                TyView::Var(vb.id),
                a@,
            ) by {}
        }
        return r;
    }
    match (a, b) {
        (Ty::Con { name: n1, .. }, Ty::Con { name: n2, .. }) => {
            if n1.eq(n2) {
                let s = Subst::new();
                proof {
                    assert(s@.dom() =~= Set::<u32>::empty());
                    lemma_apply_idempotent(s@, a@);
                    lemma_apply_idempotent(s@, b@);
                }
                Ok(s)
            } else {
                proof {
                    assert forall|u: Map<u32, TyView>| #[trigger] unifier_of(u, a@, b@) implies false by {}
                }
                Err(mismatch(a, b, span))
            }
        },
        (Ty::App(f1, x1), Ty::App(f2, x2)) => {
            let r = unify_pair(a, b, f1, x1, f2, x2, span);
            proof {
                assert forall|u: Map<u32, TyView>| #[trigger] unifier_of(u, a@, b@) implies unifier_of(u, f1@, f2@)
                    && unifier_of(u, x1@, x2@) by {}
                if let Ok(s) = &r {
                    let c = s@;
                    lemma_solved_idempotent(c, pair_vars(a@, b@));
                    lemma_apply_idempotent(c, a@);
                    lemma_apply_idempotent(c, b@);
                    lemma_apply_idempotent(c, f1@);
                    lemma_apply_idempotent(c, f2@);
                    lemma_apply_idempotent(c, x1@);
                    lemma_apply_idempotent(c, x2@);
                }
            }
            r
        },
        (Ty::Fun(f1, x1), Ty::Fun(f2, x2)) => {
            let r = unify_pair(a, b, f1, x1, f2, x2, span);
            proof {
                assert forall|u: Map<u32, TyView>| #[trigger] unifier_of(u, a@, b@) implies unifier_of(u, f1@, f2@)
                    && unifier_of(u, x1@, x2@) by {}
                if let Ok(s) = &r {
                    let c = s@;
                    lemma_solved_idempotent(c, pair_vars(a@, b@));
                    lemma_apply_idempotent(c, a@);
                    lemma_apply_idempotent(c, b@);
                    lemma_apply_idempotent(c, f1@);
                    lemma_apply_idempotent(c, f2@);
                    lemma_apply_idempotent(c, x1@);
                    lemma_apply_idempotent(c, x2@);
                }
            }
            r
        },
        (Ty::Record(fs1), Ty::Record(fs2)) => unify_records(a, b, fs1, fs2, span),
        _ => {
            proof {
                assert forall|u: Map<u32, TyView>| #[trigger] unifier_of(u, a@, b@) implies false by {}
            }
            Err(mismatch(a, b, span))
        },
    }
}

/// The mismatch of `a` against `b`.
fn mismatch(a: &Ty, b: &Ty, span: Span) -> (e: TypeError)
    ensures
        unify_error(e, span),
{
    TypeError::new(TypeErrorKind::Mismatch { expected: a.clone(), found: b.clone() }, span)
}

/// Unify two binary nodes `a` and `b` part by part: the first parts,
/// then the second parts under what the first gave.
fn unify_pair(
    a: &Ty,
    b: &Ty,
    f1: &Ty,
    x1: &Ty,
    f2: &Ty,
    x2: &Ty,
    span: Span,
) -> (r: Result<Subst, TypeError>)
    requires
        tsize(a@) == 1 + tsize(f1@) + tsize(x1@),
        tsize(b@) == 1 + tsize(f2@) + tsize(x2@),
        tvars(a@) == tvars(f1@).union(tvars(x1@)),
        tvars(b@) == tvars(f2@).union(tvars(x2@)),
    ensures
        r matches Ok(s) ==> s.wf() && solved_within(s@, pair_vars(a@, b@)) && subst_ty(s@, f1@)
            == subst_ty(s@, f2@) && subst_ty(s@, x1@) == subst_ty(s@, x2@),
        r matches Err(e) ==> unify_error(e, span),
        forall|u: Map<u32, TyView>|
            #![trigger unifier_of(u, f1@, f2@), unifier_of(u, x1@, x2@)]
            unifier_of(u, f1@, f2@) && unifier_of(u, x1@, x2@) ==> (r matches Ok(s) && absorbs(u, s@)),
    decreases pair_vars(a@, b@).len(), tsize(a@) + tsize(b@), 0nat,
{
    let ghost v = pair_vars(a@, b@);
    proof {
        lemma_tvars_finite(a@);
        lemma_tvars_finite(b@);
        assert(pair_vars(f1@, f2@).subset_of(v));
        vstd::set_lib::lemma_len_subset(pair_vars(f1@, f2@), v);
    }
    let s1 = match unify(f1, f2, span) {
        Ok(s) => s,
        Err(e) => return Err(e),
    };
    let y1 = s1.apply(x1);
    let y2 = s1.apply(x2);
    proof {
        let w1 = pair_vars(f1@, f2@);
        lemma_solved_idempotent(s1@, w1);
        lemma_apply_idempotent(s1@, x1@);
        lemma_apply_idempotent(s1@, x2@);
        lemma_apply_idempotent(s1@, f1@);
        lemma_apply_idempotent(s1@, f2@);
        assert(pair_vars(x1@, x2@).subset_of(v));
        lemma_shrinks(s1@, w1, v, x1@, x2@);
    }
    proof {
        assert forall|u: Map<u32, TyView>|
            #![trigger unifier_of(u, f1@, f2@), unifier_of(u, x1@, x2@)]
            unifier_of(u, f1@, f2@) && unifier_of(u, x1@, x2@) implies unifier_of(u, y1@, y2@) by {
            lemma_absorbs(u, s1@, x1@);
            lemma_absorbs(u, s1@, x2@);
        }
    }
    let s2 = match unify(&y1, &y2, span) {
        Ok(s) => s,
        Err(e) => return Err(e),
    };
    let c = s2.compose(&s1);
    proof {
        s2.lemma_finite();
        lemma_solved_idempotent(s2@, pair_vars(y1@, y2@));
        assert forall|u: Map<u32, TyView>|
            #![trigger unifier_of(u, f1@, f2@), unifier_of(u, x1@, x2@)]
            unifier_of(u, f1@, f2@) && unifier_of(u, x1@, x2@) implies absorbs(u, c@) by {
            assert(unifier_of(u, y1@, y2@));
            lemma_absorbs_compose(u, s2@, s1@);
        }
    }
    proof {
        let w1 = pair_vars(f1@, f2@);
        let w2 = pair_vars(y1@, y2@);
        lemma_solved_mono(s1@, w1, v);
        lemma_compose_solved(s2@, w2, s1@, v);
        lemma_solved_idempotent(s2@, w2);
        s2.lemma_finite();
        lemma_apply_idempotent(s2@, y1@);
        lemma_apply_idempotent(s2@, y2@);
        lemma_compose_subst(s2@, s1@, f1@);
        lemma_compose_subst(s2@, s1@, f2@);
        lemma_compose_subst(s2@, s1@, x1@);
        lemma_compose_subst(s2@, s1@, x2@);
    }
    Ok(c)
}

/// Bind variable `v` to `t`, unless `t` is `v` itself or contains it.
fn bind(v: &TyVar, t: &Ty, span: Span) -> (r: Result<Subst, TypeError>)
    ensures
        r matches Ok(s) ==> s.wf() && unifies(s@, TyView::Var(v.id), t@),
        r matches Err(e) ==> unify_error(e, span),
        forall|u: Map<u32, TyView>| #[trigger] unifier_of(u, TyView::Var(v.id), t@) ==> (r matches Ok(s) && absorbs(
            u,
            s@,
        )),
{
    let vt = TyView::Var(v.id);
    proof {
        lemma_tvars_finite(t@);
    }
    if let Ty::Var(v2) = t {
        if v2.id == v.id {
            let s = Subst::new();
            proof {
                assert(s@.dom() =~= Set::<u32>::empty());
                lemma_apply_idempotent(s@, vt);
                lemma_apply_idempotent(s@, t@);
            }
            return Ok(s);
        }
    }
    if occurs_in(v.id, t) {
        proof {
            lemma_occurs_tvars(v.id, t@);
            assert forall|u: Map<u32, TyView>| #[trigger] unifier_of(u, TyView::Var(v.id), t@) implies false by {
                lemma_occurs_grows(u, v.id, t@);
            }
        }
        return Err(
            TypeError::new(TypeErrorKind::OccursCheck { var: v.name.clone(), ty: t.clone() }, span),
        );
    }
    let ghost tv = t@;
    let s = Subst::single(v.id, t.clone());
    proof {
        lemma_occurs_tvars(v.id, tv);
        let m = s@;
        let w = pair_vars(vt, tv);
        assert(m.dom() =~= Set::<u32>::empty().insert(v.id));
        assert forall|k: u32, x: u32|
            #![trigger tvars(m[k]).contains(x)]
            m.contains_key(k) && tvars(m[k]).contains(x) implies w.difference(m.dom()).contains(x) by {}
        assert(solved_within(m, w));
        lemma_solved_idempotent(m, w);
        lemma_apply_idempotent(m, vt);
        lemma_apply_idempotent(m, tv);
        lemma_subst_untouched(m, tv);
    }
    Ok(s)
}

/// Unify two records field by field: the names must agree in order, and
/// each pair of field types is unified under what the earlier pairs gave.
fn unify_records(a: &Ty, b: &Ty, fs1: &Vec<(String, Ty)>, fs2: &Vec<(String, Ty)>, span: Span) -> (r:
    Result<Subst, TypeError>)
    requires
        *a == Ty::Record(*fs1),
        *b == Ty::Record(*fs2),
    ensures
        r matches Ok(s) ==> s.wf() && unifies(s@, a@, b@),
        r matches Err(e) ==> unify_error(e, span),
        forall|u: Map<u32, TyView>| #[trigger] unifier_of(u, a@, b@) ==> (r matches Ok(s) && absorbs(u, s@)),
    decreases pair_vars(a@, b@).len(), tsize(a@) + tsize(b@), 0nat,
{
    if fs1.len() != fs2.len() {
        proof {
            assert forall|u: Map<u32, TyView>| #[trigger] unifier_of(u, a@, b@) implies false by {
                let x = subst_ty(u, a@);
                let y = subst_ty(u, b@);
                assert(x matches TyView::Record(xs) && xs.len() == fs1@.len());
                assert(y matches TyView::Record(ys) && ys.len() == fs2@.len());
            }
        }
        return Err(mismatch(a, b, span));
    }
    let ghost v = pair_vars(a@, b@);
    let ghost vs1 = match a@ {
        TyView::Record(x) => x,
        _ => Seq::empty(),
    };
    let ghost vs2 = match b@ {
        TyView::Record(x) => x,
        _ => Seq::empty(),
    };
    proof {
        lemma_tvars_finite(a@);
        lemma_tvars_finite(b@);
    }
    assert(vs1.len() == fs1@.len() && vs2.len() == fs2@.len());
    assert(forall|f: int| 0 <= f < fs1@.len() ==> #[trigger] vs1[f] == (fs1@[f].0@, fs1@[f].1@));
    assert(forall|f: int| 0 <= f < fs2@.len() ==> #[trigger] vs2[f] == (fs2@[f].0@, fs2@[f].1@));
    let mut sub = Subst::new();
    proof {
        assert(sub@.dom() =~= Set::<u32>::empty());
    }
    let mut i: usize = 0;
    while i < fs1.len()
        invariant
            *a == Ty::Record(*fs1),
            *b == Ty::Record(*fs2),
            a@ == TyView::Record(vs1),
            b@ == TyView::Record(vs2),
            v == pair_vars(a@, b@),
            v.finite(),
            fs1@.len() == fs2@.len(),
            vs1.len() == fs1@.len(),
            vs2.len() == fs2@.len(),
            forall|f: int| 0 <= f < fs1@.len() ==> #[trigger] vs1[f] == (fs1@[f].0@, fs1@[f].1@),
            forall|f: int| 0 <= f < fs2@.len() ==> #[trigger] vs2[f] == (fs2@[f].0@, fs2@[f].1@),
            i <= fs1@.len(),
            sub.wf(),
            solved_within(sub@, v),
            forall|j: int| 0 <= j < i ==> (#[trigger] vs1[j]).0 == vs2[j].0,
            forall|j: int|
                0 <= j < i ==> subst_ty(sub@, (#[trigger] vs1[j]).1) == subst_ty(sub@, vs2[j].1),
            forall|u: Map<u32, TyView>| #[trigger] unifier_of(u, a@, b@) ==> absorbs(u, sub@),
        decreases fs1.len() - i,
    {
        proof {
            assert forall|u: Map<u32, TyView>| #[trigger] unifier_of(u, a@, b@) implies vs1[i as int].0
                == vs2[i as int].0 && unifier_of(u, vs1[i as int].1, vs2[i as int].1) by {
                let x = subst_ty(u, a@);
                let y = subst_ty(u, b@);
                assert(x matches TyView::Record(xs) && xs[i as int] == (vs1[i as int].0, subst_ty(u, vs1[i as int].1)));
                assert(y matches TyView::Record(ys) && ys[i as int] == (vs2[i as int].0, subst_ty(u, vs2[i as int].1)));
            }
        }
        if !fs1[i].0.eq(&fs2[i].0) {
            return Err(mismatch(a, b, span));
        }
        let ghost t1 = fs1@[i as int].1@;
        let ghost t2 = fs2@[i as int].1@;
        let y1 = sub.apply(&fs1[i].1);
        let y2 = sub.apply(&fs2[i].1);
        proof {
            assert(vs1[i as int].1 == t1);
            assert(vs2[i as int].1 == t2);
            lemma_solved_idempotent(sub@, v);
            lemma_apply_idempotent(sub@, t1);
            lemma_apply_idempotent(sub@, t2);
            assert forall|x: u32| #[trigger] pair_vars(t1, t2).contains(x) implies v.contains(x) by {
                lemma_record_tvars(vs1, x);
                lemma_record_tvars(vs2, x);
            }
            assert(pair_vars(t1, t2).subset_of(v));
            lemma_shrinks(sub@, v, v, t1, t2);
            lemma_record_size(vs1, i as int);
            lemma_record_size(vs2, i as int);
        }
        proof {
            assert forall|u: Map<u32, TyView>| #[trigger] unifier_of(u, a@, b@) implies unifier_of(u, y1@, y2@) by {
                lemma_absorbs(u, sub@, t1);
                lemma_absorbs(u, sub@, t2);
            }
        }
        let s = match unify(&y1, &y2, span) {
            Ok(s) => s,
            Err(e) => return Err(e),
        };
        let c = s.compose(&sub);
        proof {
            assert forall|u: Map<u32, TyView>| #[trigger] unifier_of(u, a@, b@) implies absorbs(u, c@) by {
                assert(unifier_of(u, y1@, y2@));
                lemma_solved_idempotent(s@, pair_vars(y1@, y2@));
                s.lemma_finite();
                lemma_absorbs_compose(u, s@, sub@);
            }
            let w2 = pair_vars(y1@, y2@);
            lemma_compose_solved(s@, w2, sub@, v);
            lemma_solved_idempotent(s@, w2);
            s.lemma_finite();
            lemma_apply_idempotent(s@, y1@);
            lemma_apply_idempotent(s@, y2@);
            assert forall|j: int| 0 <= j < i + 1 implies subst_ty(c@, (#[trigger] vs1[j]).1) == subst_ty(
                c@,
                vs2[j].1,
            ) by {
                lemma_compose_subst(s@, sub@, vs1[j].1);
                lemma_compose_subst(s@, sub@, vs2[j].1);
            }
        }
        sub = c;
        i = i + 1;
    }
    proof {
        let m = sub@;
        lemma_solved_idempotent(m, v);
        lemma_apply_idempotent(m, a@);
        lemma_apply_idempotent(m, b@);
        let x = subst_ty(m, a@);
        let y = subst_ty(m, b@);
        assert(x matches TyView::Record(xs) && y matches TyView::Record(ys) && xs =~= ys);
    }
    Ok(sub)
}

} // verus!
