//! The mathematics of substitutions: the variables and size of a type,
//! substitution, and application to a fixed point with a guard against
//! cycles.
use vstd::prelude::*;

use super::ty::{occurs, TyView};

verus! {

/// Fields of a record type by view.
pub type FieldViews = Seq<(Seq<char>, TyView)>;

/// The type variables occurring in a type.
pub open spec fn tvars(t: TyView) -> Set<u32>
    decreases t, 0nat,
{
    match t {
        TyView::Var(v) => Set::empty().insert(v),
        TyView::Con(..) => Set::empty(),
        TyView::App(a, b) => tvars(*a).union(tvars(*b)),
        TyView::Fun(a, b) => tvars(*a).union(tvars(*b)),
        TyView::Record(fs) => fields_tvars(fs, fs.len() as int),
    }
}

/// The type variables of the first `n` fields.
pub open spec fn fields_tvars(fs: FieldViews, n: int) -> Set<u32>
    decreases fs, n,
{
    if n <= 0 || n > fs.len() {
        Set::empty()
    } else {
        proof {
            assert(decreases_to!(fs => fs[n - 1]));
            assert(decreases_to!(fs[n - 1] => fs[n - 1].1));
        }
        fields_tvars(fs, n - 1).union(tvars(fs[n - 1].1))
    }
}

/// The number of nodes of a type.
pub open spec fn tsize(t: TyView) -> nat
    decreases t, 0nat,
{
    match t {
        TyView::Var(_) => 1,
        TyView::Con(..) => 1,
        TyView::App(a, b) => 1 + tsize(*a) + tsize(*b),
        TyView::Fun(a, b) => 1 + tsize(*a) + tsize(*b),
        TyView::Record(fs) => 1 + fields_size(fs, fs.len() as int),
    }
}

/// The number of nodes of the first `n` fields' types.
pub open spec fn fields_size(fs: FieldViews, n: int) -> nat
    decreases fs, n,
{
    if n <= 0 || n > fs.len() {
        0
    } else {
        proof {
            assert(decreases_to!(fs => fs[n - 1]));
            assert(decreases_to!(fs[n - 1] => fs[n - 1].1));
        }
        fields_size(fs, n - 1) + tsize(fs[n - 1].1)
    }
}

/// Replace each variable that `m` maps by its image, once.
pub open spec fn subst_ty(m: Map<u32, TyView>, t: TyView) -> TyView
    decreases t,
{
    match t {
        TyView::Var(v) => if m.contains_key(v) {
            m[v]
        } else {
            t
        },
        TyView::Con(..) => t,
        TyView::App(a, b) => TyView::App(Box::new(subst_ty(m, *a)), Box::new(subst_ty(m, *b))),
        TyView::Fun(a, b) => TyView::Fun(Box::new(subst_ty(m, *a)), Box::new(subst_ty(m, *b))),
        TyView::Record(fs) => TyView::Record(
            Seq::new(
                fs.len(),
                |i: int|
                    if 0 <= i < fs.len() {
                        proof {
                            assert(decreases_to!(fs => fs[i]));
                            assert(decreases_to!(fs[i] => fs[i].1));
                        }
                        (fs[i].0, subst_ty(m, fs[i].1))
                    } else {
                        (Seq::empty(), TyView::Var(0))
                    },
            ),
        ),
    }
}

/// Apply `m` to a fixed point: a mapped variable is replaced by its
/// image with `m` applied again, except a variable already being
/// followed (in `seen`), which stays as it is.
pub open spec fn apply_in(m: Map<u32, TyView>, seen: Set<u32>, t: TyView) -> TyView
    decreases m.dom().difference(seen).len(), t,
    when m.dom().finite()
{
    match t {
        TyView::Var(v) => if seen.contains(v) || !m.contains_key(v) {
            t
        } else {
            proof {
                m.dom().lemma_set_insert_diff_decreases(seen, v);
            }
            apply_in(m, seen.insert(v), m[v])
        },
        TyView::Con(..) => t,
        TyView::App(a, b) => TyView::App(
            Box::new(apply_in(m, seen, *a)),
            Box::new(apply_in(m, seen, *b)),
        ),
        TyView::Fun(a, b) => TyView::Fun(
            Box::new(apply_in(m, seen, *a)),
            Box::new(apply_in(m, seen, *b)),
        ),
        TyView::Record(fs) => TyView::Record(
            Seq::new(
                fs.len(),
                |i: int|
                    if 0 <= i < fs.len() {
                        proof {
                            assert(decreases_to!(fs => fs[i]));
                            assert(decreases_to!(fs[i] => fs[i].1));
                        }
                        (fs[i].0, apply_in(m, seen, fs[i].1))
                    } else {
                        (Seq::empty(), TyView::Var(0))
                    },
            ),
        ),
    }
}

/// Apply `m` to a fixed point, starting with no variable followed.
pub open spec fn apply_subst(m: Map<u32, TyView>, t: TyView) -> TyView {
    apply_in(m, Set::empty(), t)
}

/// No image mentions a mapped variable: applying once is applying to a
/// fixed point.
pub open spec fn idempotent(m: Map<u32, TyView>) -> bool {
    forall|k: u32, x: u32|
        #![trigger tvars(m[k]).contains(x), m.contains_key(x)]
        m.contains_key(k) && tvars(m[k]).contains(x) ==> !m.contains_key(x)
}

/// Every image's variables lie in `w`.
pub open spec fn range_within(m: Map<u32, TyView>, w: Set<u32>) -> bool {
    forall|k: u32, x: u32|
        #![trigger tvars(m[k]).contains(x)]
        m.contains_key(k) && tvars(m[k]).contains(x) ==> w.contains(x)
}


/// A variable of the first `n` fields is a variable of one of them.
pub proof fn lemma_fields_tvars(fs: FieldViews, n: int, x: u32)
    requires
        0 <= n <= fs.len(),
    ensures
        fields_tvars(fs, n).contains(x) <==> exists|i: int|
            0 <= i < n && #[trigger] tvars(fs[i].1).contains(x),
    decreases n,
{
    if n > 0 {
        lemma_fields_tvars(fs, n - 1, x);
        if tvars(fs[n - 1].1).contains(x) {
            assert(0 <= n - 1 < n && tvars(fs[n - 1].1).contains(x));
        }
    }
}

/// The variables of a record are those of its fields.
pub proof fn lemma_record_tvars(fs: FieldViews, x: u32)
    ensures
        tvars(TyView::Record(fs)).contains(x) <==> exists|i: int|
            0 <= i < fs.len() && #[trigger] tvars(fs[i].1).contains(x),
{
    let r = TyView::Record(fs);
    assert(r matches TyView::Record(g) && g == fs);
    lemma_fields_tvars(fs, fs.len() as int, x);
}

/// A field's type is smaller than the first `n` fields together.
pub proof fn lemma_fields_size(fs: FieldViews, n: int, i: int)
    requires
        0 <= i < n <= fs.len(),
    ensures
        tsize(fs[i].1) <= fields_size(fs, n),
    decreases n,
{
    if i < n - 1 {
        lemma_fields_size(fs, n - 1, i);
    }
}

/// A field's type is smaller than its record.
pub proof fn lemma_record_size(fs: FieldViews, i: int)
    requires
        0 <= i < fs.len(),
    ensures
        tsize(fs[i].1) < tsize(TyView::Record(fs)),
{
    let r = TyView::Record(fs);
    assert(r matches TyView::Record(g) && g == fs);
    lemma_fields_size(fs, fs.len() as int, i);
}

/// A type has finitely many variables.
pub proof fn lemma_tvars_finite(t: TyView)
    ensures
        tvars(t).finite(),
    decreases t, 0nat,
{
    match t {
        TyView::Var(_) => {},
        TyView::Con(..) => {},
        TyView::App(a, b) => {
            lemma_tvars_finite(*a);
            lemma_tvars_finite(*b);
        },
        TyView::Fun(a, b) => {
            lemma_tvars_finite(*a);
            lemma_tvars_finite(*b);
        },
        TyView::Record(fs) => {
            lemma_fields_tvars_finite(fs, fs.len() as int);
        },
    }
}

/// The first `n` fields have finitely many variables.
pub proof fn lemma_fields_tvars_finite(fs: FieldViews, n: int)
    ensures
        fields_tvars(fs, n).finite(),
    decreases fs, n,
{
    if n <= 0 || n > fs.len() {
    } else {
        assert(decreases_to!(fs => fs[n - 1]));
        assert(decreases_to!(fs[n - 1] => fs[n - 1].1));
        lemma_fields_tvars_finite(fs, n - 1);
        lemma_tvars_finite(fs[n - 1].1);
    }
}


/// A type that mentions no mapped variable is left as it is by
/// application.
pub proof fn lemma_apply_untouched(m: Map<u32, TyView>, seen: Set<u32>, t: TyView)
    requires
        m.dom().finite(),
        forall|x: u32| #[trigger] tvars(t).contains(x) ==> !m.contains_key(x),
    ensures
        apply_in(m, seen, t) == t,
    decreases t,
{
    match t {
        TyView::Var(v) => {
            assert(tvars(t).contains(v));
        },
        TyView::Con(..) => {},
        TyView::App(a, b) => {
            assert forall|x: u32| #[trigger] tvars(*a).contains(x) implies !m.contains_key(x) by {
                assert(tvars(t).contains(x));
            }
            assert forall|x: u32| #[trigger] tvars(*b).contains(x) implies !m.contains_key(x) by {
                assert(tvars(t).contains(x));
            }
            lemma_apply_untouched(m, seen, *a);
            lemma_apply_untouched(m, seen, *b);
        },
        TyView::Fun(a, b) => {
            assert forall|x: u32| #[trigger] tvars(*a).contains(x) implies !m.contains_key(x) by {
                assert(tvars(t).contains(x));
            }
            assert forall|x: u32| #[trigger] tvars(*b).contains(x) implies !m.contains_key(x) by {
                assert(tvars(t).contains(x));
            }
            lemma_apply_untouched(m, seen, *a);
            lemma_apply_untouched(m, seen, *b);
        },
        TyView::Record(fs) => {
            assert forall|i: int| 0 <= i < fs.len() implies apply_in(m, seen, fs[i].1) == fs[i].1 by {
                assert(decreases_to!(fs => fs[i]));
                assert(decreases_to!(fs[i] => fs[i].1));
                assert forall|x: u32| #[trigger] tvars(fs[i].1).contains(x) implies !m.contains_key(
                    x,
                ) by {
                    lemma_record_tvars(fs, x);
                }
                lemma_apply_untouched(m, seen, fs[i].1);
            }
            let r = apply_in(m, seen, t);
            assert(r matches TyView::Record(rs) && rs =~= fs);
        },
    }
}

/// Likewise for a single substitution.
pub proof fn lemma_subst_untouched(m: Map<u32, TyView>, t: TyView)
    requires
        forall|x: u32| #[trigger] tvars(t).contains(x) ==> !m.contains_key(x),
    ensures
        subst_ty(m, t) == t,
    decreases t,
{
    match t {
        TyView::Var(v) => {
            assert(tvars(t).contains(v));
        },
        TyView::Con(..) => {},
        TyView::App(a, b) => {
            assert forall|x: u32| #[trigger] tvars(*a).contains(x) implies !m.contains_key(x) by {
                assert(tvars(t).contains(x));
            }
            assert forall|x: u32| #[trigger] tvars(*b).contains(x) implies !m.contains_key(x) by {
                assert(tvars(t).contains(x));
            }
            lemma_subst_untouched(m, *a);
            lemma_subst_untouched(m, *b);
        },
        TyView::Fun(a, b) => {
            assert forall|x: u32| #[trigger] tvars(*a).contains(x) implies !m.contains_key(x) by {
                assert(tvars(t).contains(x));
            }
            assert forall|x: u32| #[trigger] tvars(*b).contains(x) implies !m.contains_key(x) by {
                assert(tvars(t).contains(x));
            }
            lemma_subst_untouched(m, *a);
            lemma_subst_untouched(m, *b);
        },
        TyView::Record(fs) => {
            assert forall|i: int| 0 <= i < fs.len() implies subst_ty(m, fs[i].1) == fs[i].1 by {
                assert(decreases_to!(fs => fs[i]));
                assert(decreases_to!(fs[i] => fs[i].1));
                assert forall|x: u32| #[trigger] tvars(fs[i].1).contains(x) implies !m.contains_key(
                    x,
                ) by {
                    lemma_record_tvars(fs, x);
                }
                lemma_subst_untouched(m, fs[i].1);
            }
            let r = subst_ty(m, t);
            assert(r matches TyView::Record(rs) && rs =~= fs);
        },
    }
}

/// For an idempotent substitution, application to a fixed point is a
/// single substitution.
pub proof fn lemma_apply_idempotent(m: Map<u32, TyView>, t: TyView)
    requires
        m.dom().finite(),
        idempotent(m),
    ensures
        apply_subst(m, t) == subst_ty(m, t),
    decreases t,
{
    match t {
        TyView::Var(v) => {
            if m.contains_key(v) {
                assert forall|x: u32| #[trigger] tvars(m[v]).contains(x) implies !m.contains_key(x) by {}
                lemma_apply_untouched(m, Set::empty().insert(v), m[v]);
            }
        },
        TyView::Con(..) => {},
        TyView::App(a, b) => {
            lemma_apply_idempotent(m, *a);
            lemma_apply_idempotent(m, *b);
        },
        TyView::Fun(a, b) => {
            lemma_apply_idempotent(m, *a);
            lemma_apply_idempotent(m, *b);
        },
        TyView::Record(fs) => {
            assert forall|i: int| 0 <= i < fs.len() implies apply_subst(m, fs[i].1) == subst_ty(
                m,
                fs[i].1,
            ) by {
                assert(decreases_to!(fs => fs[i]));
                assert(decreases_to!(fs[i] => fs[i].1));
                lemma_apply_idempotent(m, fs[i].1);
            }
            let x = apply_subst(m, t);
            let y = subst_ty(m, t);
            assert(x matches TyView::Record(xs) && y matches TyView::Record(ys) && xs =~= ys);
        },
    }
}


/// A variable occurs in a type exactly when it is one of its variables.
pub proof fn lemma_occurs_tvars(id: u32, t: TyView)
    ensures
        occurs(id, t) <==> tvars(t).contains(id),
    decreases t,
{
    match t {
        TyView::Var(_) => {},
        TyView::Con(..) => {},
        TyView::App(a, b) => {
            lemma_occurs_tvars(id, *a);
            lemma_occurs_tvars(id, *b);
        },
        TyView::Fun(a, b) => {
            lemma_occurs_tvars(id, *a);
            lemma_occurs_tvars(id, *b);
        },
        TyView::Record(fs) => {
            assert forall|i: int| 0 <= i < fs.len() implies (occurs(id, #[trigger] fs[i].1)
                <==> tvars(fs[i].1).contains(id)) by {
                assert(decreases_to!(fs => fs[i]));
                assert(decreases_to!(fs[i] => fs[i].1));
                lemma_occurs_tvars(id, fs[i].1);
            }
            lemma_record_tvars(fs, id);
        },
    }
}

/// The variables left after a substitution are the unmapped variables
/// of the type and variables of the images.
pub proof fn lemma_subst_tvars(m: Map<u32, TyView>, w: Set<u32>, t: TyView, x: u32)
    requires
        range_within(m, w),
        tvars(subst_ty(m, t)).contains(x),
    ensures
        (tvars(t).contains(x) && !m.contains_key(x)) || w.contains(x),
    decreases t,
{
    match t {
        TyView::Var(v) => {
            if m.contains_key(v) {
                assert(tvars(m[v]).contains(x));
            }
        },
        TyView::Con(..) => {},
        TyView::App(a, b) => {
            if tvars(subst_ty(m, *a)).contains(x) {
                lemma_subst_tvars(m, w, *a, x);
            } else {
                lemma_subst_tvars(m, w, *b, x);
            }
        },
        TyView::Fun(a, b) => {
            if tvars(subst_ty(m, *a)).contains(x) {
                lemma_subst_tvars(m, w, *a, x);
            } else {
                lemma_subst_tvars(m, w, *b, x);
            }
        },
        TyView::Record(fs) => {
            let r = subst_ty(m, t);
            let gs = r->Record_0;
            assert(r matches TyView::Record(hs) && hs == gs);
            assert(gs.len() == fs.len());
            lemma_record_tvars(gs, x);
            let i = choose|i: int| 0 <= i < gs.len() && #[trigger] tvars(gs[i].1).contains(x);
            assert(gs[i].1 == subst_ty(m, fs[i].1));
            assert(decreases_to!(fs => fs[i]));
            assert(decreases_to!(fs[i] => fs[i].1));
            lemma_subst_tvars(m, w, fs[i].1, x);
            lemma_record_tvars(fs, x);
        },
    }
}

/// `o` first, then `s`: each variable `o` maps goes to its image with
/// `s` applied; the others go where `s` sends them.
pub open spec fn compose_map(s: Map<u32, TyView>, o: Map<u32, TyView>) -> Map<u32, TyView> {
    Map::new(
        |k: u32| o.contains_key(k) || s.contains_key(k),
        |k: u32|
            if o.contains_key(k) {
                apply_subst(s, o[k])
            } else {
                s[k]
            },
    )
}

/// Substituting a composition is substituting one, then the other.
pub proof fn lemma_compose_subst(s: Map<u32, TyView>, o: Map<u32, TyView>, t: TyView)
    requires
        s.dom().finite(),
        idempotent(s),
    ensures
        subst_ty(compose_map(s, o), t) == subst_ty(s, subst_ty(o, t)),
    decreases t,
{
    let c = compose_map(s, o);
    match t {
        TyView::Var(v) => {
            if o.contains_key(v) {
                lemma_apply_idempotent(s, o[v]);
            }
        },
        TyView::Con(..) => {},
        TyView::App(a, b) => {
            lemma_compose_subst(s, o, *a);
            lemma_compose_subst(s, o, *b);
        },
        TyView::Fun(a, b) => {
            lemma_compose_subst(s, o, *a);
            lemma_compose_subst(s, o, *b);
        },
        TyView::Record(fs) => {
            assert forall|i: int| 0 <= i < fs.len() implies subst_ty(c, fs[i].1) == subst_ty(
                s,
                subst_ty(o, fs[i].1),
            ) by {
                assert(decreases_to!(fs => fs[i]));
                assert(decreases_to!(fs[i] => fs[i].1));
                lemma_compose_subst(s, o, fs[i].1);
            }
            let x = subst_ty(c, t);
            let y = subst_ty(o, t);
            let z = subst_ty(s, y);
            assert(y matches TyView::Record(ys) && ys.len() == fs.len());
            assert(x matches TyView::Record(xs) && z matches TyView::Record(zs) && xs =~= zs);
        },
    }
}

/// A substitution solved within `w`: it maps only variables of `w`, to
/// types over the variables of `w` it leaves alone.
pub open spec fn solved_within(m: Map<u32, TyView>, w: Set<u32>) -> bool {
    &&& m.dom().finite()
    &&& m.dom().subset_of(w)
    &&& range_within(m, w.difference(m.dom()))
}

/// A substitution solved within some set is idempotent.
pub proof fn lemma_solved_idempotent(m: Map<u32, TyView>, w: Set<u32>)
    requires
        solved_within(m, w),
    ensures
        idempotent(m),
{
    assert forall|k: u32, x: u32|
        #![trigger tvars(m[k]).contains(x), m.contains_key(x)]
        m.contains_key(k) && tvars(m[k]).contains(x) implies !m.contains_key(x) by {
        assert(w.difference(m.dom()).contains(x));
    }
}

/// Composing a substitution solved within what another leaves of `w`
/// after it keeps the result solved within `w`.
pub proof fn lemma_compose_solved(
    s: Map<u32, TyView>,
    w2: Set<u32>,
    o: Map<u32, TyView>,
    w: Set<u32>,
)
    requires
        solved_within(o, w),
        solved_within(s, w2),
        w2.subset_of(w.difference(o.dom())),
    ensures
        solved_within(compose_map(s, o), w),
        compose_map(s, o).dom() == o.dom().union(s.dom()),
{
    let c = compose_map(s, o);
    assert(c.dom() =~= o.dom().union(s.dom()));
    lemma_solved_idempotent(s, w2);
    assert forall|k: u32, x: u32|
        #![trigger tvars(c[k]).contains(x)]
        c.contains_key(k) && tvars(c[k]).contains(x) implies w.difference(c.dom()).contains(x) by {
        if o.contains_key(k) {
            lemma_apply_idempotent(s, o[k]);
            lemma_subst_tvars(s, w2.difference(s.dom()), o[k], x);
            if tvars(o[k]).contains(x) && !s.contains_key(x) {
                assert(w.difference(o.dom()).contains(x));
            }
        } else {
            assert(w2.difference(s.dom()).contains(x));
        }
    }
}


/// Being solved within a set carries over to a larger set.
pub proof fn lemma_solved_mono(m: Map<u32, TyView>, w: Set<u32>, v: Set<u32>)
    requires
        solved_within(m, w),
        w.subset_of(v),
    ensures
        solved_within(m, v),
{
    assert forall|k: u32, x: u32|
        #![trigger tvars(m[k]).contains(x)]
        m.contains_key(k) && tvars(m[k]).contains(x) implies v.difference(m.dom()).contains(x) by {
        assert(w.difference(m.dom()).contains(x));
    }
}

/// The variables of two types together.
pub open spec fn pair_vars(a: TyView, b: TyView) -> Set<u32> {
    tvars(a).union(tvars(b))
}

/// After a substitution solved within part of `v`, two types over `v`
/// are over what it leaves of `v`: fewer variables, unless it maps none,
/// and then the types are unchanged.
pub proof fn lemma_shrinks(
    s: Map<u32, TyView>,
    w: Set<u32>,
    v: Set<u32>,
    x1: TyView,
    x2: TyView,
)
    requires
        solved_within(s, w),
        w.subset_of(v),
        v.finite(),
        pair_vars(x1, x2).subset_of(v),
    ensures
        pair_vars(subst_ty(s, x1), subst_ty(s, x2)).subset_of(v.difference(s.dom())),
        pair_vars(subst_ty(s, x1), subst_ty(s, x2)).len() <= v.len(),
        s.dom().len() > 0 ==> pair_vars(subst_ty(s, x1), subst_ty(s, x2)).len() < v.len(),
        s.dom().len() == 0 ==> subst_ty(s, x1) == x1 && subst_ty(s, x2) == x2,
{
    let y1 = subst_ty(s, x1);
    let y2 = subst_ty(s, x2);
    let p = pair_vars(y1, y2);
    assert forall|x: u32| #[trigger] p.contains(x) implies v.difference(s.dom()).contains(x) by {
        if tvars(y1).contains(x) {
            lemma_subst_tvars(s, w.difference(s.dom()), x1, x);
        } else {
            lemma_subst_tvars(s, w.difference(s.dom()), x2, x);
        }
    }
    vstd::set_lib::lemma_len_subset(p, v);
    if s.dom().len() > 0 {
        let k = s.dom().choose();
        assert(s.dom().contains(k));
        p.lemma_subset_not_in_lt(v, k);
    }
    if s.dom().len() == 0 {
        assert(s.dom() =~= Set::<u32>::empty());
        lemma_subst_untouched(s, x1);
        lemma_subst_untouched(s, x2);
    }
}

} // verus!
