//! Types, kinds, schemes and substitutions.
//!
//! Types are Hindley–Milner types with type constructors, application,
//! arrows and structural records: `Var` for unification and quantified
//! variables, `Con` for nominal constructors, `App` for application,
//! `Fun` for arrows, `Record` for records with fields kept sorted by
//! name.
use vstd::prelude::*;

use super::subst_spec::{apply_in, apply_subst, compose_map, tsize};
use crate::text::{lemma_text_lt_irrefl, lemma_text_lt_trans, text_less, text_lt};

verus! {

/// A type variable: a globally unique id and, for printing, a name.
#[derive(Debug, PartialEq, Eq, Hash)]
pub struct TyVar {
    pub id: u32,
    pub name: String,
}

impl Clone for TyVar {
    fn clone(&self) -> (r: TyVar)
        ensures
            r == *self,
    {
        TyVar { id: self.id, name: self.name.clone() }
    }
}

/// A kind: `*`, an arrow between kinds, or a kind variable.
#[derive(Debug, PartialEq, Eq, Hash)]
pub enum Kind {
    Star,
    Arrow(Box<Kind>, Box<Kind>),
    Var(u32),
}

impl Clone for Kind {
    fn clone(&self) -> (r: Kind)
        ensures
            r == *self,
        decreases self,
    {
        match self {
            Kind::Star => Kind::Star,
            Kind::Arrow(a, b) => Kind::Arrow(Box::new((**a).clone()), Box::new((**b).clone())),
            Kind::Var(i) => Kind::Var(*i),
        }
    }
}

impl Kind {
    /// Whether two kinds are the same.
    pub fn same(&self, other: &Kind) -> (r: bool)
        ensures
            r == (*self == *other),
        decreases self,
    {
        match (self, other) {
            (Kind::Star, Kind::Star) => true,
            (Kind::Arrow(a1, b1), Kind::Arrow(a2, b2)) => a1.same(a2) && b1.same(b2),
            (Kind::Var(i), Kind::Var(j)) => *i == *j,
            _ => false,
        }
    }

    /// The arrow kind `a -> b`.
    pub fn arr(a: Kind, b: Kind) -> (r: Kind)
        ensures
            r == Kind::Arrow(Box::new(a), Box::new(b)),
    {
        Kind::Arrow(Box::new(a), Box::new(b))
    }
}

/// A type.
#[derive(Debug, PartialEq, Eq)]
pub enum Ty {
    Var(TyVar),
    /// A nominal type constructor with its kind; two constructors are
    /// the same type when their names are.
    Con { name: String, kind: Kind },
    App(Box<Ty>, Box<Ty>),
    Fun(Box<Ty>, Box<Ty>),
    /// A structural record, fields sorted by name.
    Record(Vec<(String, Ty)>),
}

/// A type by its view: what it denotes, strings as their text. A
/// variable is known by its id alone, its name only serving printing;
/// a constructor by its name alone, its kind being an annotation.
pub enum TyView {
    Var(u32),
    Con(Seq<char>),
    App(Box<TyView>, Box<TyView>),
    Fun(Box<TyView>, Box<TyView>),
    Record(Seq<(Seq<char>, TyView)>),
}

/// The view of a type.
pub open spec fn ty_view(t: Ty) -> TyView
    decreases t,
{
    match t {
        Ty::Var(v) => TyView::Var(v.id),
        Ty::Con { name, kind } => TyView::Con(name@),
        Ty::App(a, b) => TyView::App(Box::new(ty_view(*a)), Box::new(ty_view(*b))),
        Ty::Fun(a, b) => TyView::Fun(Box::new(ty_view(*a)), Box::new(ty_view(*b))),
        Ty::Record(fs) => TyView::Record(
            Seq::new(
                fs@.len(),
                |i: int|
                    if 0 <= i < fs@.len() {
                        proof {
                            assert(decreases_to!(t => fs));
                            assert(decreases_to!(fs => fs@));
                            assert(decreases_to!(fs@ => fs@[i]));
                            assert(decreases_to!(fs@[i] => fs@[i].1));
                        }
                        (fs@[i].0@, ty_view(fs@[i].1))
                    } else {
                        (Seq::empty(), TyView::Var(0))
                    },
            ),
        ),
    }
}

/// `r` is `t` with each type variable `v` replaced by `img(v)`: the shape
/// of `t` is kept, and a record keeps its number of fields, each field of
/// `t` having a field of `r` of the same name whose type it maps to
/// (their order is the record's own, by name).
pub open spec fn maps_vars(t: Ty, r: Ty, img: spec_fn(TyVar) -> TyView) -> bool
    decreases t, 0nat,
{
    match t {
        Ty::Var(v) => r@ == img(v),
        Ty::Con { name, .. } => r@ == TyView::Con(name@),
        Ty::App(a, b) => match r {
            Ty::App(ra, rb) => maps_vars(*a, *ra, img) && maps_vars(*b, *rb, img),
            _ => false,
        },
        Ty::Fun(a, b) => match r {
            Ty::Fun(ra, rb) => maps_vars(*a, *ra, img) && maps_vars(*b, *rb, img),
            _ => false,
        },
        Ty::Record(fs) => match r {
            Ty::Record(rfs) => {
                proof {
                    assert(decreases_to!(t => fs));
                    assert(decreases_to!(fs => fs@));
                }
                rfs@.len() == fs@.len() && fields_map(fs@, rfs@, img, fs@.len() as int)
            },
            _ => false,
        },
    }
}

/// Each of the first `n` fields of `fs` has a field of `rfs` of the same
/// name whose type it maps to under `img`.
pub open spec fn fields_map(fs: Seq<(String, Ty)>, rfs: Seq<(String, Ty)>, img: spec_fn(TyVar) -> TyView, n: int) -> bool
    decreases fs, n,
{
    if n <= 0 || n > fs.len() {
        true
    } else {
        proof {
            assert(decreases_to!(fs => fs[n - 1]));
        }
        fields_map(fs, rfs, img, n - 1) && field_has_image(fs[n - 1], rfs, img)
    }
}

/// Some field of `rfs` has the name of `f` and a type that `f`'s type
/// maps to under `img`.
pub open spec fn field_has_image(f: (String, Ty), rfs: Seq<(String, Ty)>, img: spec_fn(TyVar) -> TyView) -> bool
    decreases f, 0nat,
{
    proof {
        assert(decreases_to!(f => f.1));
    }
    exists|k: int| 0 <= k < rfs.len() && #[trigger] rfs[k].0@ == f.0@ && maps_vars(f.1, rfs[k].1, img)
}

/// `fields_map` holds once every field has its counterpart.
pub proof fn lemma_fields_map(fs: Seq<(String, Ty)>, rfs: Seq<(String, Ty)>, img: spec_fn(TyVar) -> TyView, n: int)
    requires
        0 <= n <= fs.len(),
        forall|j: int| 0 <= j < n ==> #[trigger] field_has_image(fs[j], rfs, img),
    ensures
        fields_map(fs, rfs, img, n),
    decreases n,
{
    if n > 0 {
        lemma_fields_map(fs, rfs, img, n - 1);
        assert(field_has_image(fs[n - 1], rfs, img));
    }
}

/// Under `fields_map`, each field of `fs` has its counterpart in `rfs`.
pub proof fn lemma_fields_map_at(fs: Seq<(String, Ty)>, rfs: Seq<(String, Ty)>, img: spec_fn(TyVar) -> TyView, n: int, j: int)
    requires
        fields_map(fs, rfs, img, n),
        0 <= j < n <= fs.len(),
    ensures
        field_has_image(fs[j], rfs, img),
    decreases n,
{
    if j < n - 1 {
        lemma_fields_map_at(fs, rfs, img, n - 1, j);
    }
}

/// The type variables of a type in order of occurrence, repeats kept.
pub open spec fn tvar_order(t: TyView) -> Seq<u32>
    decreases t, 0nat,
{
    match t {
        TyView::Var(v) => seq![v],
        TyView::Con(..) => Seq::empty(),
        TyView::App(a, b) => tvar_order(*a) + tvar_order(*b),
        TyView::Fun(a, b) => tvar_order(*a) + tvar_order(*b),
        TyView::Record(fs) => fields_order(fs, fs.len() as int),
    }
}

/// The type variables of the first `n` fields, in order.
pub open spec fn fields_order(fs: Seq<(Seq<char>, TyView)>, n: int) -> Seq<u32>
    decreases fs, n,
{
    if n <= 0 || n > fs.len() {
        Seq::empty()
    } else {
        proof {
            assert(decreases_to!(fs => fs[n - 1]));
            assert(decreases_to!(fs[n - 1] => fs[n - 1].1));
        }
        fields_order(fs, n - 1) + tvar_order(fs[n - 1].1)
    }
}

/// `acc` followed by the ids of `ids` it lacks, each once, first
/// occurrence first.
pub open spec fn append_new(acc: Seq<u32>, ids: Seq<u32>) -> Seq<u32>
    decreases ids.len(),
{
    if ids.len() == 0 {
        acc
    } else {
        let next = if acc.contains(ids[0]) {
            acc
        } else {
            acc.push(ids[0])
        };
        append_new(next, ids.drop_first())
    }
}

/// Appending the new ids of `x + y` is appending those of `x`, then
/// those of `y`.
pub proof fn lemma_append_new_concat(acc: Seq<u32>, x: Seq<u32>, y: Seq<u32>)
    ensures
        append_new(acc, x + y) == append_new(append_new(acc, x), y),
    decreases x.len(),
{
    if x.len() == 0 {
        assert(x + y =~= y);
    } else {
        assert((x + y).drop_first() =~= x.drop_first() + y);
        assert((x + y)[0] == x[0]);
        let next = if acc.contains(x[0]) {
            acc
        } else {
            acc.push(x[0])
        };
        lemma_append_new_concat(next, x.drop_first(), y);
    }
}

/// The function type with argument types `args` and result `res`.
pub open spec fn rebuild_fun(args: Seq<&Ty>, res: Ty) -> Ty
    decreases args.len(),
{
    if args.len() == 0 {
        res
    } else {
        Ty::Fun(Box::new(*args[0]), Box::new(rebuild_fun(args.drop_first(), res)))
    }
}

/// One more argument at the end moves into the result.
proof fn lemma_rebuild_push(args: Seq<&Ty>, a: &Ty, b: Ty)
    ensures
        rebuild_fun(args.push(a), b) == rebuild_fun(args, Ty::Fun(Box::new(*a), Box::new(b))),
    decreases args.len(),
{
    if args.len() > 0 {
        assert(args.push(a).drop_first() =~= args.drop_first().push(a));
        assert(args.push(a)[0] == args[0]);
        lemma_rebuild_push(args.drop_first(), a, b);
    } else {
        assert(args.push(a).drop_first() =~= Seq::<&Ty>::empty());
        assert(args.push(a)[0] == a);
        assert(rebuild_fun(Seq::<&Ty>::empty(), b) == b);
        assert(rebuild_fun(args, Ty::Fun(Box::new(*a), Box::new(b))) == Ty::Fun(Box::new(*a), Box::new(b)));
    }
}

impl View for Ty {
    type V = TyView;

    open spec fn view(&self) -> TyView {
        ty_view(*self)
    }
}

impl Clone for Ty {
    fn clone(&self) -> (r: Ty)
        ensures
            r@ == self@,
            ty_same(r, *self),
        decreases self,
    {
        match self {
            Ty::Var(v) => Ty::Var(v.clone()),
            Ty::Con { name, kind } => Ty::Con { name: name.clone(), kind: kind.clone() },
            Ty::App(a, b) => Ty::App(Box::new((**a).clone()), Box::new((**b).clone())),
            Ty::Fun(a, b) => Ty::Fun(Box::new((**a).clone()), Box::new((**b).clone())),
            Ty::Record(fs) => {
                proof {
                    assert(decreases_to!(self => fs));
                    assert(decreases_to!(fs => fs@));
                }
                let mut out: Vec<(String, Ty)> = Vec::new();
                let mut i: usize = 0;
                while i < fs.len()
                    invariant
                        i <= fs@.len(),
                        out@.len() == i,
                        decreases_to!(self => fs@),
                        forall|j: int| 0 <= j < i ==> (#[trigger] out@[j]).0@ == fs@[j].0@,
                        forall|j: int| 0 <= j < i ==> (#[trigger] out@[j]).1@ == fs@[j].1@,
                        fields_same(out@, fs@, i as int),
                    decreases fs.len() - i,
                {
                    proof {
                        assert(decreases_to!(fs@ => fs@[i as int]));
                        assert(decreases_to!(fs@[i as int] => fs@[i as int].1));
                    }
                    let c = fs[i].1.clone();
                    assert(c@ == fs@[i as int].1@);
                    let name = fs[i].0.clone();
                    assert(name@ == fs@[i as int].0@);
                    let ghost o0 = out@;
                    out.push((name, c));
                    assert(out@[i as int].1@ == fs@[i as int].1@);
                    proof {
                        assert forall|j: int| 0 <= j < i + 1 implies (#[trigger] out@[j]).0@ == fs@[j].0@ && out@[j].1@ == fs@[j].1@ by {
                            if j < i {
                                assert(out@[j] == o0[j]);
                            }
                        }
                        lemma_fields_same_push(o0, fs@, i as int, out@);
                    }
                    i = i + 1;
                }
                let r = Ty::Record(out);
                proof {
                    assert(ty_same(r, *self) == (out@.len() == fs@.len() && fields_same(out@, fs@, fs@.len() as int)));
                    let a = match r@ {
                        TyView::Record(x) => x,
                        _ => Seq::empty(),
                    };
                    let b = match self@ {
                        TyView::Record(x) => x,
                        _ => Seq::empty(),
                    };
                    assert(a =~= b);
                }
                r
            },
        }
    }
}

/// Whether variable `id` occurs in the type.
pub open spec fn occurs(id: u32, t: TyView) -> bool
    decreases t,
    via occurs_decreases
{
    match t {
        TyView::Var(v) => v == id,
        TyView::Con(..) => false,
        TyView::App(a, b) => occurs(id, *a) || occurs(id, *b),
        TyView::Fun(a, b) => occurs(id, *a) || occurs(id, *b),
        TyView::Record(fs) => exists|i: int| 0 <= i < fs.len() && occurs(id, #[trigger] fs[i].1),
    }
}

#[via_fn]
pub proof fn occurs_decreases(id: u32, t: TyView) {
    match t {
        TyView::Record(fs) => {
            assert forall|i: int| 0 <= i < fs.len() implies decreases_to!(t => #[trigger] fs[i].1) by {
                assert(decreases_to!(t => fs));
                assert(decreases_to!(fs => fs[i]));
                assert(decreases_to!(fs[i] => fs[i].1));
            }
        },
        _ => {},
    }
}

/// The head constructor of a type: of a constructor itself, or of the
/// function part of an application.
pub open spec fn head_of(t: TyView) -> Option<Seq<char>>
    decreases t,
{
    match t {
        TyView::Con(name) => Some(name),
        TyView::App(f, _) => head_of(*f),
        _ => None,
    }
}

impl Ty {
    /// The constructor `name` of kind `kind`.
    pub fn con(name: String, kind: Kind) -> (r: Ty)
        ensures
            r == (Ty::Con { name, kind }),
            r@ == TyView::Con(name@),
    {
        Ty::Con { name, kind }
    }

    /// The constructor `name` of kind `*`.
    pub fn star(name: String) -> (r: Ty)
        ensures
            r == (Ty::Con { name, kind: Kind::Star }),
            r@ == TyView::Con(name@),
    {
        Ty::con(name, Kind::Star)
    }

    /// The application `f x`.
    pub fn app(f: Ty, x: Ty) -> (r: Ty)
        ensures
            r == Ty::App(Box::new(f), Box::new(x)),
            r@ == TyView::App(Box::new(f@), Box::new(x@)),
    {
        Ty::App(Box::new(f), Box::new(x))
    }

    /// The function type `a -> b`.
    pub fn fun(a: Ty, b: Ty) -> (r: Ty)
        ensures
            r == Ty::Fun(Box::new(a), Box::new(b)),
            r@ == TyView::Fun(Box::new(a@), Box::new(b@)),
    {
        Ty::Fun(Box::new(a), Box::new(b))
    }

    /// The record with these fields, ordered by name; fields of equal
    /// names keep their order.
    pub fn record(fields: Vec<(String, Ty)>) -> (r: Ty)
        ensures
            r matches Ty::Record(fs) && fields_sorted(fs@) && fs@.to_multiset()
                =~= fields@.to_multiset(),
    {
        broadcast use vstd::seq_lib::group_to_multiset_ensures;

        let mut rest = fields;
        let mut out: Vec<(String, Ty)> = Vec::new();
        proof {
            assert(out@.to_multiset().len() == 0);
            assert(out@.to_multiset() =~= vstd::multiset::Multiset::empty());
        }
        while rest.len() > 0
            invariant
                fields_sorted(out@),
                out@.to_multiset().add(rest@.to_multiset()) =~= fields@.to_multiset(),
            decreases rest.len(),
        {
            let ghost r0 = rest@;
            let item = rest.remove(0);
            proof {
                vstd::seq_lib::to_multiset_remove(r0, 0);
                assert(r0.remove(0) == rest@);
            }
            let mut j: usize = 0;
            while j < out.len() && !text_less(&item.0, &out[j].0)
                invariant
                    j <= out@.len(),
                    forall|k: int| 0 <= k < j ==> !text_lt(item.0@, #[trigger] out@[k].0@),
                decreases out.len() - j,
            {
                j = j + 1;
            }
            let ghost o0 = out@;
            let ghost it = item;
            out.insert(j, item);
            proof {
                vstd::seq_lib::to_multiset_insert(o0, j as int, it);
                assert(it == r0[0]);
                assert(r0.to_multiset().count(it) > 0) by {
                    assert(r0[0] == it);
                    assert(r0.contains(it));
                    vstd::seq_lib::to_multiset_contains(r0, it);
                }
                assert(out@.to_multiset().add(rest@.to_multiset()) =~= o0.to_multiset().add(
                    r0.to_multiset(),
                ));
                let o = out@;
                assert forall|a: int, b: int| 0 <= a < b < o.len() implies !text_lt(
                    (#[trigger] o[b]).0@,
                    (#[trigger] o[a]).0@,
                ) by {
                    if a < j && b < j {
                        assert(o[a] == o0[a] && o[b] == o0[b]);
                    } else if a < j && b == j {
                        assert(o[a] == o0[a]);
                    } else if a < j {
                        assert(o[a] == o0[a] && o[b] == o0[b - 1]);
                        if text_lt(o[b].0@, o[a].0@) {
                            if j < o0.len() {
                                assert(text_lt(it.0@, o0[j as int].0@));
                                if b - 1 > j {
                                    assert(!text_lt(o0[b - 1].0@, o0[j as int].0@));
                                }
                                lemma_text_lt_trans(o0[b - 1].0@, o0[a].0@, it.0@);
                                if b - 1 == j {
                                    lemma_text_lt_trans(it.0@, o0[j as int].0@, it.0@);
                                    lemma_text_lt_irrefl(it.0@);
                                } else {
                                    lemma_text_lt_trans(o0[b - 1].0@, it.0@, o0[j as int].0@);
                                }
                            }
                        }
                    } else if a == j {
                        assert(o[b] == o0[b - 1]);
                        assert(text_lt(it.0@, o0[j as int].0@));
                        if text_lt(o0[b - 1].0@, it.0@) {
                            if b - 1 == j {
                                lemma_text_lt_trans(it.0@, o0[j as int].0@, it.0@);
                                lemma_text_lt_irrefl(it.0@);
                            } else {
                                lemma_text_lt_trans(o0[b - 1].0@, it.0@, o0[j as int].0@);
                            }
                        }
                    } else {
                        assert(o[a] == o0[a - 1] && o[b] == o0[b - 1]);
                    }
                }
            }
        }
        proof {
            assert(rest@.to_multiset().len() == 0);
            assert(rest@.to_multiset() =~= vstd::multiset::Multiset::empty());
        }
        Ty::Record(out)
    }

    /// Whether two types are the same, names and kinds included.
    pub fn same(&self, other: &Ty) -> (r: bool)
        ensures
            r == ty_same(*self, *other),
        decreases self,
    {
        match (self, other) {
            (Ty::Var(x), Ty::Var(y)) => x.id == y.id && x.name.eq(&y.name),
            (Ty::Con { name: n1, kind: k1 }, Ty::Con { name: n2, kind: k2 }) => n1.eq(n2) && k1.same(k2),
            (Ty::App(f1, x1), Ty::App(f2, x2)) => f1.same(f2) && x1.same(x2),
            (Ty::Fun(f1, x1), Ty::Fun(f2, x2)) => f1.same(f2) && x1.same(x2),
            (Ty::Record(fs1), Ty::Record(fs2)) => {
                assert(ty_same(*self, *other) == (fs1@.len() == fs2@.len() && fields_same(
                    fs1@,
                    fs2@,
                    fs1@.len() as int,
                )));
                if fs1.len() != fs2.len() {
                    return false;
                }
                proof {
                    assert(decreases_to!(self => fs1));
                    assert(decreases_to!(fs1 => fs1@));
                }
                let mut i: usize = 0;
                while i < fs1.len()
                    invariant
                        i <= fs1@.len(),
                        fs1@.len() == fs2@.len(),
                        decreases_to!(self => fs1@),
                        fields_same(fs1@, fs2@, i as int),
                        ty_same(*self, *other) == fields_same(fs1@, fs2@, fs1@.len() as int),
                    decreases fs1.len() - i,
                {
                    proof {
                        assert(decreases_to!(fs1@ => fs1@[i as int]));
                        assert(decreases_to!(fs1@[i as int] => fs1@[i as int].1));
                    }
                    if !fs1[i].0.eq(&fs2[i].0) || !fs1[i].1.same(&fs2[i].1) {
                        proof {
                            assert(!fields_same(fs1@, fs2@, i + 1));
                            if fields_same(fs1@, fs2@, fs1@.len() as int) {
                                lemma_fields_same_prefix(fs1@, fs2@, i + 1, fs1@.len() as int);
                            }
                        }
                        return false;
                    }
                    i = i + 1;
                }
                true
            },
            _ => false,
        }
    }

    /// The argument types and the result of a curried function type.
    pub fn split_fun(&self) -> (r: (Vec<&Ty>, &Ty))
        ensures
            r.0@.len() == fun_args(self@).len(),
            forall|i: int| 0 <= i < r.0@.len() ==> (#[trigger] r.0@[i])@ == fun_args(self@)[i],
            r.1@ == fun_result(self@),
            *self == rebuild_fun(r.0@, *r.1),
            !(*r.1 is Fun),
    {
        let mut args: Vec<&Ty> = Vec::new();
        let mut t = self;
        loop
            invariant
                fun_args(self@) == args@.map_values(|x: &Ty| x@) + fun_args(t@),
                fun_result(self@) == fun_result(t@),
                *self == rebuild_fun(args@, *t),
            ensures
                fun_args(self@) == args@.map_values(|x: &Ty| x@) + fun_args(t@),
                fun_result(self@) == fun_result(t@),
                *self == rebuild_fun(args@, *t),
                !(*t is Fun),
            decreases tsize(t@),
        {
            match t {
                Ty::Fun(a, b) => {
                    let ghost before = args@;
                    args.push(a);
                    proof {
                        lemma_rebuild_push(before, &**a, **b);
                        assert(args@.map_values(|x: &Ty| x@) =~= before.map_values(|x: &Ty| x@).push(a@));
                        assert(fun_args(t@) == seq![a@] + fun_args(b@));
                        assert(args@.map_values(|x: &Ty| x@) + fun_args(b@) =~= before.map_values(
                            |x: &Ty| x@,
                        ) + fun_args(t@));
                    }
                    t = b;
                },
                _ => {
                    break;
                },
            }
        }
        proof {
            assert(fun_args(t@) =~= Seq::<TyView>::empty());
            assert(args@.map_values(|x: &Ty| x@) + fun_args(t@) =~= args@.map_values(|x: &Ty| x@));
        }
        (args, t)
    }

    /// The head constructor's name.
    pub fn head_con(&self) -> (r: Option<&String>)
        ensures
            r matches Some(n) ==> head_of(self@) == Some(n@),
            r is None ==> head_of(self@) is None,
        decreases self,
    {
        match self {
            Ty::Con { name, .. } => Some(name),
            Ty::App(f, _) => f.head_con(),
            _ => None,
        }
    }

    /// Append to `out` the ids of the type's variables that `out` does
    /// not hold yet, in order of first occurrence.
    pub fn free_vars(&self, out: &mut Vec<u32>)
        ensures
            final(out)@.len() >= old(out)@.len(),
            final(out)@.take(old(out)@.len() as int) == old(out)@,
            old(out)@.no_duplicates() ==> final(out)@.no_duplicates(),
            forall|id: u32| #[trigger] final(out)@.contains(id) <==> (old(out)@.contains(id) || occurs(id, self@)),
            final(out)@ == append_new(old(out)@, tvar_order(self@)),
        decreases self,
    {
        let ghost o = out@;
        match self {
            Ty::Var(v) => {
                if !contains_id(out, v.id) {
                    out.push(v.id);
                    proof {
                        assert(out@.take(o.len() as int) =~= o);
                        assert forall|id: u32| #[trigger] out@.contains(id) <==> (o.contains(id) || occurs(id, self@)) by {
                            if o.contains(id) {
                                let j = choose|j: int| 0 <= j < o.len() && o[j] == id;
                                assert(out@[j] == id);
                            }
                            if id == v.id {
                                assert(out@[o.len() as int] == id);
                            }
                            if out@.contains(id) {
                                let j = choose|j: int| 0 <= j < out@.len() && out@[j] == id;
                                if j < o.len() {
                                    assert(o[j] == id);
                                }
                            }
                        }
                    }
                } else {
                    assert(out@.take(o.len() as int) =~= o);
                }
                proof {
                    let ids = tvar_order(self@);
                    assert(ids =~= seq![v.id]);
                    assert(ids.drop_first() =~= Seq::<u32>::empty());
                    assert(ids[0] == v.id);
                    let next = if o.contains(v.id) {
                        o
                    } else {
                        o.push(v.id)
                    };
                    assert(append_new(next, Seq::<u32>::empty()) == next);
                    assert(append_new(o, ids) == append_new(next, ids.drop_first()));
                    if !o.contains(v.id) {
                        assert(out@ =~= o.push(v.id));
                    } else {
                        assert(out@ =~= o);
                    }
                }
            },
            Ty::Con { .. } => {
                assert(out@.take(o.len() as int) =~= o);
                assert(tvar_order(self@) =~= Seq::<u32>::empty());
            },
            Ty::App(a, b) | Ty::Fun(a, b) => {
                a.free_vars(out);
                let ghost o1 = out@;
                b.free_vars(out);
                proof {
                    lemma_prefix_trans_u32(o, o1, out@);
                    lemma_append_new_concat(o, tvar_order(a@), tvar_order(b@));
                }
            },
            Ty::Record(fs) => {
                proof {
                    assert(decreases_to!(self => fs));
                    assert(decreases_to!(fs => fs@));
                }
                let mut i: usize = 0;
                assert(out@.take(o.len() as int) =~= o);
                while i < fs.len()
                    invariant
                        i <= fs@.len(),
                        decreases_to!(self => fs@),
                        out@.len() >= o.len(),
                        out@.take(o.len() as int) == o,
                        o.no_duplicates() ==> out@.no_duplicates(),
                        forall|id: u32|
                            #[trigger] out@.contains(id) <==> (o.contains(id) || exists|f: int|
                                0 <= f < i && occurs(id, (#[trigger] fs@[f]).1@)),
                        self@ matches TyView::Record(vs) && out@ == append_new(o, fields_order(vs, i as int))
                            && vs.len() == fs@.len() && forall|f: int| 0 <= f < vs.len() ==> (#[trigger] vs[f]).1 == fs@[f].1@,
                    decreases fs.len() - i,
                {
                    proof {
                        assert(decreases_to!(fs@ => fs@[i as int]));
                        assert(decreases_to!(fs@[i as int] => fs@[i as int].1));
                    }
                    let ghost o1 = out@;
                    fs[i].1.free_vars(out);
                    proof {
                        lemma_prefix_trans_u32(o, o1, out@);
                        if let TyView::Record(vs) = self@ {
                            lemma_append_new_concat(o, fields_order(vs, i as int), tvar_order(vs[i as int].1));
                        }
                        assert forall|id: u32|
                            #[trigger] out@.contains(id) <==> (o.contains(id) || exists|f: int|
                                0 <= f < i + 1 && occurs(id, (#[trigger] fs@[f]).1@)) by {
                            if exists|f: int| 0 <= f < i + 1 && occurs(id, (#[trigger] fs@[f]).1@) {
                                let f = choose|f: int| 0 <= f < i + 1 && occurs(id, (#[trigger] fs@[f]).1@);
                                if f < i {
                                    assert(o1.contains(id));
                                }
                            }
                        }
                    }
                    i = i + 1;
                }
                proof {
                    let v = self@;
                    let vs = match v {
                        TyView::Record(x) => x,
                        _ => Seq::empty(),
                    };
                    assert forall|id: u32| #[trigger] out@.contains(id) <==> (o.contains(id) || occurs(id, self@)) by {
                        if occurs(id, self@) {
                            let f = choose|f: int| 0 <= f < vs.len() && occurs(id, #[trigger] vs[f].1);
                            assert(vs[f].1 == fs@[f].1@);
                        }
                        if exists|f: int| 0 <= f < fs@.len() && occurs(id, (#[trigger] fs@[f]).1@) {
                            let f = choose|f: int| 0 <= f < fs@.len() && occurs(id, (#[trigger] fs@[f]).1@);
                            assert(vs[f].1 == fs@[f].1@);
                        }
                    }
                }
            },
        }
    }
}

/// Whether `id` is among the ids.
fn contains_id(v: &Vec<u32>, id: u32) -> (r: bool)
    ensures
        r == v@.contains(id),
{
    let mut i: usize = 0;
    while i < v.len()
        invariant
            i <= v@.len(),
            forall|j: int| 0 <= j < i ==> v@[j] != id,
        decreases v.len() - i,
    {
        if v[i] == id {
            return true;
        }
        i = i + 1;
    }
    false
}

proof fn lemma_prefix_trans_u32(a: Seq<u32>, b: Seq<u32>, c: Seq<u32>)
    requires
        b.len() >= a.len(),
        b.take(a.len() as int) == a,
        c.len() >= b.len(),
        c.take(b.len() as int) == b,
    ensures
        c.take(a.len() as int) == a,
{
    assert(c.take(a.len() as int) =~= a) by {
        assert forall|x: int| 0 <= x < a.len() implies c.take(a.len() as int)[x] == a[x] by {
            assert(c.take(b.len() as int)[x] == c[x]);
            assert(b.take(a.len() as int)[x] == b[x]);
        }
    }
}

/// A class constraint `class arg`.
#[derive(Debug, PartialEq, Eq)]
pub struct Constraint {
    pub class: String,
    pub arg: Ty,
}

/// A constrained polytype `forall vars. context => body`.
#[derive(Debug, PartialEq, Eq)]
pub struct Scheme {
    pub vars: Vec<TyVar>,
    pub context: Vec<Constraint>,
    pub body: Ty,
}

impl Clone for Constraint {
    fn clone(&self) -> (r: Constraint)
        ensures
            r.class == self.class,
            r.arg@ == self.arg@,
            ty_same(r.arg, self.arg),
    {
        Constraint { class: self.class.clone(), arg: self.arg.clone() }
    }
}

impl Clone for Scheme {
    fn clone(&self) -> (r: Scheme)
        ensures
            r.vars@ == self.vars@,
            r.context@.len() == self.context@.len(),
            forall|i: int|
                0 <= i < self.context@.len() ==> (#[trigger] r.context@[i]).class == self.context@[i].class
                    && r.context@[i].arg@ == self.context@[i].arg@ && ty_same(r.context@[i].arg, self.context@[i].arg),
            r.body@ == self.body@,
            ty_same(r.body, self.body),
    {
        let mut vars: Vec<TyVar> = Vec::new();
        let mut i: usize = 0;
        while i < self.vars.len()
            invariant
                i <= self.vars@.len(),
                vars@ == self.vars@.take(i as int),
            decreases self.vars.len() - i,
        {
            vars.push(self.vars[i].clone());
            assert(vars@ =~= self.vars@.take(i + 1));
            i = i + 1;
        }
        assert(vars@ =~= self.vars@);
        let mut context: Vec<Constraint> = Vec::new();
        let mut k: usize = 0;
        while k < self.context.len()
            invariant
                k <= self.context@.len(),
                context@.len() == k,
                forall|j: int|
                    0 <= j < k ==> (#[trigger] context@[j]).class == self.context@[j].class
                        && context@[j].arg@ == self.context@[j].arg@ && ty_same(context@[j].arg, self.context@[j].arg),
            decreases self.context.len() - k,
        {
            context.push(self.context[k].clone());
            k = k + 1;
        }
        Scheme { vars, context, body: self.body.clone() }
    }
}

impl Scheme {
    /// The monotype `body`: no variables bound, no context.
    pub fn mono(body: Ty) -> (r: Scheme)
        ensures
            r.vars@.len() == 0,
            r.context@.len() == 0,
            r.body == body,
    {
        Scheme { vars: Vec::new(), context: Vec::new(), body }
    }
}

/// A substitution: type variables to types, one entry per variable.
#[derive(Debug)]
pub struct Subst {
    map: Vec<(u32, Ty)>,
}

/// The argument types of a curried function type.
pub open spec fn fun_args(t: TyView) -> Seq<TyView>
    decreases t,
{
    match t {
        TyView::Fun(a, b) => seq![*a] + fun_args(*b),
        _ => Seq::empty(),
    }
}

/// The result type of a curried function type.
pub open spec fn fun_result(t: TyView) -> TyView
    decreases t,
{
    match t {
        TyView::Fun(_, b) => fun_result(*b),
        _ => t,
    }
}

/// The variables a scheme binds.
pub open spec fn scheme_bound(s: Scheme) -> Set<u32> {
    Set::new(|x: u32| exists|j: int| 0 <= j < s.vars@.len() && s.vars@[j].id == x)
}

/// Two types are the same, names of variables and kinds of
/// constructors included.
pub open spec fn ty_same(a: Ty, b: Ty) -> bool
    decreases a, 0nat,
{
    match (a, b) {
        (Ty::Var(x), Ty::Var(y)) => x.id == y.id && x.name@ == y.name@,
        (Ty::Con { name: n1, kind: k1 }, Ty::Con { name: n2, kind: k2 }) => n1@ == n2@ && k1 == k2,
        (Ty::App(f1, x1), Ty::App(f2, x2)) => ty_same(*f1, *f2) && ty_same(*x1, *x2),
        (Ty::Fun(f1, x1), Ty::Fun(f2, x2)) => ty_same(*f1, *f2) && ty_same(*x1, *x2),
        (Ty::Record(fs1), Ty::Record(fs2)) => {
            proof {
                assert(decreases_to!(a => fs1));
                assert(decreases_to!(fs1 => fs1@));
            }
            fs1@.len() == fs2@.len() && fields_same(fs1@, fs2@, fs1@.len() as int)
        },
        _ => false,
    }
}

/// The first `n` fields agree in name and type.
pub open spec fn fields_same(fs1: Seq<(String, Ty)>, fs2: Seq<(String, Ty)>, n: int) -> bool
    decreases fs1, n,
{
    if n <= 0 || n > fs1.len() || n > fs2.len() {
        n <= 0
    } else {
        proof {
            assert(decreases_to!(fs1 => fs1[n - 1]));
            assert(decreases_to!(fs1[n - 1] => fs1[n - 1].1));
        }
        fields_same(fs1, fs2, n - 1) && fs1[n - 1].0@ == fs2[n - 1].0@ && ty_same(fs1[n - 1].1, fs2[n - 1].1)
    }
}

/// Sameness of types chains: a type the same as one the same as a third
/// is the same as the third.
pub proof fn lemma_ty_same_trans(a: Ty, b: Ty, c: Ty)
    requires
        ty_same(a, b),
        ty_same(b, c),
    ensures
        ty_same(a, c),
    decreases a, 0nat,
{
    match (a, b, c) {
        (Ty::App(f1, x1), Ty::App(f2, x2), Ty::App(f3, x3)) => {
            lemma_ty_same_trans(*f1, *f2, *f3);
            lemma_ty_same_trans(*x1, *x2, *x3);
        },
        (Ty::Fun(f1, x1), Ty::Fun(f2, x2), Ty::Fun(f3, x3)) => {
            lemma_ty_same_trans(*f1, *f2, *f3);
            lemma_ty_same_trans(*x1, *x2, *x3);
        },
        (Ty::Record(fs1), Ty::Record(fs2), Ty::Record(fs3)) => {
            assert(decreases_to!(a => fs1));
            assert(decreases_to!(fs1 => fs1@));
            lemma_fields_same_trans(fs1@, fs2@, fs3@, fs1@.len() as int);
        },
        _ => {},
    }
}

/// Agreement of fields chains as agreement of types does.
pub proof fn lemma_fields_same_trans(f1: Seq<(String, Ty)>, f2: Seq<(String, Ty)>, f3: Seq<(String, Ty)>, n: int)
    requires
        0 <= n <= f1.len(),
        n <= f2.len(),
        n <= f3.len(),
        fields_same(f1, f2, n),
        fields_same(f2, f3, n),
    ensures
        fields_same(f1, f3, n),
    decreases f1, n,
{
    if n > 0 {
        assert(decreases_to!(f1 => f1[n - 1]));
        assert(decreases_to!(f1[n - 1] => f1[n - 1].1));
        lemma_fields_same_trans(f1, f2, f3, n - 1);
        lemma_ty_same_trans(f1[n - 1].1, f2[n - 1].1, f3[n - 1].1);
    }
}

/// Fields that agree up to `m` agree up to any `n` before it.
pub proof fn lemma_fields_same_prefix(fs1: Seq<(String, Ty)>, fs2: Seq<(String, Ty)>, n: int, m: int)
    requires
        0 <= n <= m <= fs1.len(),
        m <= fs2.len(),
        fields_same(fs1, fs2, m),
    ensures
        fields_same(fs1, fs2, n),
    decreases m - n,
{
    if n < m {
        lemma_fields_same_prefix(fs1, fs2, n, m - 1);
    }
}

/// Extending agreeing fields by one agreeing pair keeps them agreeing.
pub proof fn lemma_fields_same_push(o0: Seq<(String, Ty)>, fs: Seq<(String, Ty)>, i: int, o: Seq<(String, Ty)>)
    requires
        0 <= i < fs.len(),
        o0.len() == i,
        o.len() == i + 1,
        forall|j: int| 0 <= j < i ==> o[j] == o0[j],
        fields_same(o0, fs, i),
        o[i].0@ == fs[i].0@,
        ty_same(o[i].1, fs[i].1),
    ensures
        fields_same(o, fs, i + 1),
{
    lemma_fields_same_ext(o0, o, fs, i);
}

/// Agreement of the first `n` fields depends only on those fields.
pub proof fn lemma_fields_same_ext(a: Seq<(String, Ty)>, b: Seq<(String, Ty)>, fs: Seq<(String, Ty)>, n: int)
    requires
        0 <= n <= a.len(),
        n <= b.len(),
        n <= fs.len(),
        forall|j: int| 0 <= j < n ==> b[j] == a[j],
        fields_same(a, fs, n),
    ensures
        fields_same(b, fs, n),
    decreases n,
{
    if n > 0 {
        lemma_fields_same_ext(a, b, fs, n - 1);
    }
}

/// Fields in name order.
pub open spec fn fields_sorted(fs: Seq<(String, Ty)>) -> bool {
    forall|a: int, b: int| 0 <= a < b < fs.len() ==> !text_lt((#[trigger] fs[b]).0@, (#[trigger] fs[a]).0@)
}

/// No variable has two entries.
pub open spec fn ids_unique(m: Seq<(u32, Ty)>) -> bool {
    forall|i: int, j: int| 0 <= i < j < m.len() ==> (#[trigger] m[i]).0 != (#[trigger] m[j]).0
}

/// The entries by view, as a map from variable.
pub open spec fn subst_map(m: Seq<(u32, Ty)>) -> Map<u32, TyView> {
    Map::new(
        |k: u32| exists|i: int| 0 <= i < m.len() && m[i].0 == k,
        |k: u32| m[choose|i: int| 0 <= i < m.len() && m[i].0 == k].1@,
    )
}

impl View for Subst {
    type V = Map<u32, TyView>;

    closed spec fn view(&self) -> Map<u32, TyView> {
        subst_map(self.map@)
    }
}

impl Subst {
    /// One entry per variable.
    pub closed spec fn wf(&self) -> bool {
        ids_unique(self.map@)
    }

    /// The empty substitution.
    pub fn new() -> (r: Subst)
        ensures
            r.wf(),
            r@ == Map::<u32, TyView>::empty(),
    {
        let r = Subst { map: Vec::new() };
        assert(r@ =~= Map::<u32, TyView>::empty());
        r
    }

    /// The substitution of `t` for variable `v` alone.
    pub fn single(v: u32, t: Ty) -> (r: Subst)
        ensures
            r.wf(),
            r@ == Map::<u32, TyView>::empty().insert(v, t@),
    {
        let ghost tv = t@;
        let mut map: Vec<(u32, Ty)> = Vec::new();
        map.push((v, t));
        let r = Subst { map };
        proof {
            assert(r.map@[0].0 == v);
            assert forall|k: u32| #[trigger] r@.dom().contains(k) <==> k == v by {}
            assert(r@ =~= Map::<u32, TyView>::empty().insert(v, tv));
        }
        r
    }

    /// What variable `id` maps to.
    pub fn get(&self, id: u32) -> (r: Option<&Ty>)
        requires
            self.wf(),
        ensures
            r matches Some(t) ==> self@.contains_key(id) && self@[id] == t@,
            r is None ==> !self@.contains_key(id),
    {
        let mut i: usize = 0;
        while i < self.map.len()
            invariant
                i <= self.map@.len(),
                ids_unique(self.map@),
                forall|j: int| 0 <= j < i ==> self.map@[j].0 != id,
            decreases self.map.len() - i,
        {
            if self.map[i].0 == id {
                proof {
                    let m = self.map@;
                    let a = choose|a: int| 0 <= a < m.len() && m[a].0 == id;
                    assert(a == i);
                }
                return Some(&self.map[i].1);
            }
            i = i + 1;
        }
        None
    }

    /// Map variable `id` to `t`, replacing an earlier entry.
    pub fn insert(&mut self, id: u32, t: Ty)
        requires
            old(self).wf(),
        ensures
            final(self).wf(),
            final(self)@ == old(self)@.insert(id, t@),
    {
        let ghost m0 = self.map@;
        let ghost tv = t@;
        let mut i: usize = 0;
        while i < self.map.len()
            invariant
                i <= self.map@.len(),
                self.map@ == m0,
                m0 == old(self).map@,
                ids_unique(m0),
                tv == t@,
                forall|j: int| 0 <= j < i ==> self.map@[j].0 != id,
            decreases self.map.len() - i,
        {
            if self.map[i].0 == id {
                let pair = (id, t);
                let ghost gp = pair;
                self.map.set(i, pair);
                proof {
                    let m = self.map@;
                    assert(m[i as int] == gp);
                    assert forall|a: int, b: int| 0 <= a < b < m.len() implies (#[trigger] m[a]).0 != (#[trigger] m[b]).0 by {
                        assert(m[a].0 == m0[a].0);
                        assert(m[b].0 == m0[b].0);
                    }
                    assert forall|k: u32| #[trigger] subst_map(m).dom().contains(k) == subst_map(m0).insert(id, tv).dom().contains(k) by {
                        if exists|a: int| 0 <= a < m0.len() && m0[a].0 == k {
                            let a = choose|a: int| 0 <= a < m0.len() && m0[a].0 == k;
                            assert(m[a].0 == k);
                        }
                        if exists|a: int| 0 <= a < m.len() && m[a].0 == k {
                            let a = choose|a: int| 0 <= a < m.len() && m[a].0 == k;
                            assert(m0[a].0 == k);
                        }
                        if k == id {
                            assert(m[i as int].0 == k);
                        }
                    }
                    assert forall|k: u32| #[trigger] subst_map(m).dom().contains(k) implies subst_map(m)[k]
                        == subst_map(m0).insert(id, tv)[k] by {
                        let a = choose|a: int| 0 <= a < m.len() && m[a].0 == k;
                        if k == id {
                            assert(a == i);
                        } else {
                            assert(a != i);
                            assert(m[a] == m0[a]);
                            let b = choose|b: int| 0 <= b < m0.len() && m0[b].0 == k;
                            assert(a == b);
                        }
                    }
                    assert(subst_map(m) =~= subst_map(m0).insert(id, tv));
                }
                return;
            }
            i = i + 1;
        }
        self.map.push((id, t));
        proof {
            let m = self.map@;
            assert(m.drop_last() =~= m0);
            assert forall|a: int, b: int| 0 <= a < b < m.len() implies (#[trigger] m[a]).0 != (#[trigger] m[b]).0 by {
                if b < m0.len() {
                    assert(m[a] == m0[a]);
                    assert(m[b] == m0[b]);
                } else {
                    assert(m[a] == m0[a]);
                }
            }
            assert forall|k: u32| #[trigger] subst_map(m).dom().contains(k) == subst_map(m0).insert(id, tv).dom().contains(k) by {
                if exists|a: int| 0 <= a < m0.len() && m0[a].0 == k {
                    let a = choose|a: int| 0 <= a < m0.len() && m0[a].0 == k;
                    assert(m[a].0 == k);
                }
                if exists|a: int| 0 <= a < m.len() && m[a].0 == k {
                    let a = choose|a: int| 0 <= a < m.len() && m[a].0 == k;
                    if a < m0.len() {
                        assert(m0[a].0 == k);
                    }
                }
                if k == id {
                    assert(m[m0.len() as int].0 == k);
                }
            }
            assert forall|k: u32| #[trigger] subst_map(m).dom().contains(k) implies subst_map(m)[k]
                == subst_map(m0).insert(id, tv)[k] by {
                let a = choose|a: int| 0 <= a < m.len() && m[a].0 == k;
                if k == id {
                    assert(a == m0.len());
                } else {
                    let b = choose|b: int| 0 <= b < m0.len() && m0[b].0 == k;
                    assert(m[b] == m0[b]);
                    assert(a == b);
                }
            }
            assert(subst_map(m) =~= subst_map(m0).insert(id, tv));
        }
    }

    /// The substitution maps finitely many variables.
    pub proof fn lemma_finite(&self)
        ensures
            self@.dom().finite(),
    {
        let keys = self.map@.map_values(|e: (u32, Ty)| e.0).to_set();
        assert forall|k: u32| #[trigger] self@.dom().contains(k) implies keys.contains(k) by {
            let i = choose|i: int| 0 <= i < self.map@.len() && self.map@[i].0 == k;
            assert(self.map@.map_values(|e: (u32, Ty)| e.0)[i] == k);
        }
        vstd::set_lib::lemma_set_subset_finite(keys, self@.dom());
    }

    /// Apply the substitution to a type, following chains of mapped
    /// variables to a fixed point; a variable met again along one chain
    /// (a cycle) is left as it is.
    pub fn apply(&self, t: &Ty) -> (r: Ty)
        requires
            self.wf(),
        ensures
            r@ == apply_subst(self@, t@),
    {
        let seen: Vec<u32> = Vec::new();
        proof {
            assert(seen@.to_set() =~= Set::<u32>::empty());
        }
        self.apply_guarded(t, &seen)
    }

    fn apply_guarded(&self, t: &Ty, seen: &Vec<u32>) -> (r: Ty)
        requires
            self.wf(),
        ensures
            r@ == apply_in(self@, seen@.to_set(), t@),
        decreases self@.dom().difference(seen@.to_set()).len(), t,
    {
        proof {
            self.lemma_finite();
        }
        match t {
            Ty::Var(v) => {
                if contains_id(seen, v.id) {
                    return Ty::Var(v.clone());
                }
                match self.get(v.id) {
                    Some(t2) => {
                        let mut s2 = seen.clone();
                        assert(s2@ =~= seen@);
                        s2.push(v.id);
                        proof {
                            assert(s2@.to_set() =~= seen@.to_set().insert(v.id)) by {
                                assert forall|x: u32| #[trigger] s2@.to_set().contains(x) <==> seen@.to_set().insert(v.id).contains(x) by {
                                    if s2@.contains(x) {
                                        let j = choose|j: int| 0 <= j < s2@.len() && s2@[j] == x;
                                        if j < seen@.len() {
                                            assert(seen@[j] == x);
                                        }
                                    }
                                    if seen@.contains(x) {
                                        let j = choose|j: int| 0 <= j < seen@.len() && seen@[j] == x;
                                        assert(s2@[j] == x);
                                    }
                                    if x == v.id {
                                        assert(s2@[seen@.len() as int] == x);
                                    }
                                }
                            }
                            self@.dom().lemma_set_insert_diff_decreases(seen@.to_set(), v.id);
                        }
                        self.apply_guarded(t2, &s2)
                    },
                    None => Ty::Var(v.clone()),
                }
            },
            Ty::Con { name, kind } => Ty::Con { name: name.clone(), kind: kind.clone() },
            Ty::App(a, b) => Ty::App(
                Box::new(self.apply_guarded(a, seen)),
                Box::new(self.apply_guarded(b, seen)),
            ),
            Ty::Fun(a, b) => Ty::Fun(
                Box::new(self.apply_guarded(a, seen)),
                Box::new(self.apply_guarded(b, seen)),
            ),
            Ty::Record(fs) => {
                proof {
                    assert(decreases_to!(t => fs));
                    assert(decreases_to!(fs => fs@));
                }
                let ghost vs = match t@ {
                    TyView::Record(x) => x,
                    _ => Seq::empty(),
                };
                assert(vs.len() == fs@.len());
                assert(forall|f: int| 0 <= f < fs@.len() ==> #[trigger] vs[f] == (fs@[f].0@, fs@[f].1@));
                let mut out: Vec<(String, Ty)> = Vec::new();
                let mut i: usize = 0;
                while i < fs.len()
                    invariant
                        self.wf(),
                        i <= fs@.len(),
                        out@.len() == i,
                        decreases_to!(t => fs@),
                        t@ == TyView::Record(vs),
                        vs.len() == fs@.len(),
                        forall|f: int| 0 <= f < fs@.len() ==> #[trigger] vs[f] == (fs@[f].0@, fs@[f].1@),
                        forall|j: int| 0 <= j < i ==> (#[trigger] out@[j]).0@ == fs@[j].0@,
                        forall|j: int|
                            0 <= j < i ==> (#[trigger] out@[j]).1@ == apply_in(
                                self@,
                                seen@.to_set(),
                                fs@[j].1@,
                            ),
                    decreases fs.len() - i,
                {
                    proof {
                        assert(decreases_to!(fs@ => fs@[i as int]));
                        assert(decreases_to!(fs@[i as int] => fs@[i as int].1));
                    }
                    let c = self.apply_guarded(&fs[i].1, seen);
                    out.push((fs[i].0.clone(), c));
                    i = i + 1;
                }
                let r = Ty::Record(out);
                proof {
                    let x = apply_in(self@, seen@.to_set(), t@);
                    assert(x matches TyView::Record(xs) && r@ matches TyView::Record(rs) && xs =~= rs);
                }
                r
            },
        }
    }

    /// The constraint with the substitution applied to its type.
    pub fn apply_constraint(&self, c: &Constraint) -> (r: Constraint)
        requires
            self.wf(),
        ensures
            r.class@ == c.class@,
            r.arg@ == apply_subst(self@, c.arg@),
    {
        Constraint { class: c.class.clone(), arg: self.apply(&c.arg) }
    }

    /// The substitution without the entries of the given variables.
    fn without(&self, ids: &Vec<u32>) -> (r: Subst)
        requires
            self.wf(),
        ensures
            r.wf(),
            r@ == self@.remove_keys(ids@.to_set()),
    {
        let ghost sm = self.map@;
        let mut out: Vec<(u32, Ty)> = Vec::new();
        let ghost mut src: Seq<int> = Seq::empty();
        let mut k: usize = 0;
        while k < self.map.len()
            invariant
                sm == self.map@,
                ids_unique(sm),
                k <= sm.len(),
                out@.len() == src.len(),
                forall|j: int| 0 <= j < src.len() ==> 0 <= #[trigger] src[j] < k,
                forall|j: int| 0 <= j < src.len() ==> out@[j].0 == sm[#[trigger] src[j]].0,
                forall|j: int| 0 <= j < src.len() ==> out@[j].1@ == sm[#[trigger] src[j]].1@,
                forall|j: int| 0 <= j < src.len() ==> !ids@.contains(sm[#[trigger] src[j]].0),
                forall|j1: int, j2: int| 0 <= j1 < j2 < src.len() ==> #[trigger] src[j1] < #[trigger] src[j2],
                forall|a: int|
                    0 <= a < k && !ids@.contains(#[trigger] sm[a].0) ==> exists|j: int|
                        0 <= j < src.len() && src[j] == a,
            decreases self.map.len() - k,
        {
            let key = self.map[k].0;
            if !contains_id(ids, key) {
                let v = self.map[k].1.clone();
                let ghost src0 = src;
                out.push((key, v));
                proof {
                    src = src.push(k as int);
                    assert forall|a: int|
                        0 <= a < k + 1 && !ids@.contains(#[trigger] sm[a].0) implies exists|j: int|
                        0 <= j < src.len() && src[j] == a by {
                        if a < k {
                            let j = choose|j: int| 0 <= j < src0.len() && src0[j] == a;
                            assert(src[j] == a);
                        } else {
                            assert(src[src.len() - 1] == a);
                        }
                    }
                }
            }
            k = k + 1;
        }
        let r = Subst { map: out };
        proof {
            let o = out@;
            assert forall|x: int, y: int| 0 <= x < y < o.len() implies (#[trigger] o[x]).0 != (#[trigger] o[y]).0 by {
                assert(src[x] < src[y]);
            }
            let c = self@.remove_keys(ids@.to_set());
            assert forall|key: u32| #[trigger] r@.dom().contains(key) == c.dom().contains(key) by {
                if r@.dom().contains(key) {
                    let j = choose|j: int| 0 <= j < o.len() && o[j].0 == key;
                    assert(sm[src[j]].0 == key);
                }
                if c.dom().contains(key) {
                    let a = choose|a: int| 0 <= a < sm.len() && sm[a].0 == key;
                    let j = choose|j: int| 0 <= j < src.len() && src[j] == a;
                    assert(o[j].0 == key);
                }
            }
            assert forall|key: u32| #[trigger] r@.dom().contains(key) implies r@[key] == c[key] by {
                let j = choose|j: int| 0 <= j < o.len() && o[j].0 == key;
                let b = choose|b: int| 0 <= b < sm.len() && sm[b].0 == key;
                assert(sm[src[j]].0 == key);
                assert(src[j] == b);
            }
            assert(r@ =~= c);
        }
        r
    }

    /// The scheme with the substitution applied to its context and body,
    /// leaving its own variables alone.
    pub fn apply_scheme(&self, s: &Scheme) -> (r: Scheme)
        requires
            self.wf(),
        ensures
            r.vars@ == s.vars@,
            r.context@.len() == s.context@.len(),
            forall|i: int|
                0 <= i < s.context@.len() ==> (#[trigger] r.context@[i]).class@ == s.context@[i].class@
                    && r.context@[i].arg@ == apply_subst(
                    self@.remove_keys(scheme_bound(*s)),
                    s.context@[i].arg@,
                ),
            r.body@ == apply_subst(self@.remove_keys(scheme_bound(*s)), s.body@),
    {
        let mut bound: Vec<u32> = Vec::new();
        let mut vars: Vec<TyVar> = Vec::new();
        let mut i: usize = 0;
        while i < s.vars.len()
            invariant
                i <= s.vars@.len(),
                bound@.len() == i,
                vars@ == s.vars@.take(i as int),
                forall|j: int| 0 <= j < i ==> #[trigger] bound@[j] == s.vars@[j].id,
            decreases s.vars.len() - i,
        {
            bound.push(s.vars[i].id);
            vars.push(s.vars[i].clone());
            assert(vars@ =~= s.vars@.take(i + 1));
            i = i + 1;
        }
        assert(vars@ =~= s.vars@);
        proof {
            assert(bound@.to_set() =~= scheme_bound(*s)) by {
                assert forall|x: u32| #[trigger] bound@.to_set().contains(x) <==> scheme_bound(*s).contains(x) by {
                    if bound@.contains(x) {
                        let j = choose|j: int| 0 <= j < bound@.len() && bound@[j] == x;
                        assert(s.vars@[j].id == x);
                    }
                    if scheme_bound(*s).contains(x) {
                        let j = choose|j: int| 0 <= j < s.vars@.len() && s.vars@[j].id == x;
                        assert(bound@[j] == x);
                    }
                }
            }
        }
        let filtered = self.without(&bound);
        let mut context: Vec<Constraint> = Vec::new();
        let mut k: usize = 0;
        while k < s.context.len()
            invariant
                filtered.wf(),
                filtered@ == self@.remove_keys(scheme_bound(*s)),
                k <= s.context@.len(),
                context@.len() == k,
                forall|j: int|
                    0 <= j < k ==> (#[trigger] context@[j]).class@ == s.context@[j].class@
                        && context@[j].arg@ == apply_subst(filtered@, s.context@[j].arg@),
            decreases s.context.len() - k,
        {
            context.push(filtered.apply_constraint(&s.context[k]));
            k = k + 1;
        }
        let body = filtered.apply(&s.body);
        Scheme { vars, context, body }
    }

    /// `self` after `other`: each variable `other` maps goes to its
    /// image with `self` applied; every other variable `self` maps
    /// keeps its image.
    pub fn compose(&self, other: &Subst) -> (r: Subst)
        requires
            self.wf(),
            other.wf(),
        ensures
            r.wf(),
            r@ == compose_map(self@, other@),
    {
        let ghost om = other.map@;
        let ghost sm = self.map@;
        let mut out: Vec<(u32, Ty)> = Vec::new();
        let mut i: usize = 0;
        while i < other.map.len()
            invariant
                self.wf(),
                om == other.map@,
                ids_unique(om),
                i <= om.len(),
                out@.len() == i,
                forall|j: int| 0 <= j < i ==> (#[trigger] out@[j]).0 == om[j].0,
                forall|j: int| 0 <= j < i ==> (#[trigger] out@[j]).1@ == apply_subst(self@, om[j].1@),
            decreases other.map.len() - i,
        {
            let t = self.apply(&other.map[i].1);
            out.push((other.map[i].0, t));
            i = i + 1;
        }
        let ghost n = out@.len();
        let ghost mut src: Seq<int> = Seq::empty();
        let mut k: usize = 0;
        while k < self.map.len()
            invariant
                self.wf(),
                other.wf(),
                om == other.map@,
                sm == self.map@,
                ids_unique(om),
                ids_unique(sm),
                n == om.len(),
                k <= sm.len(),
                out@.len() == n + src.len(),
                forall|j: int| 0 <= j < n ==> (#[trigger] out@[j]).0 == om[j].0,
                forall|j: int| 0 <= j < n ==> (#[trigger] out@[j]).1@ == apply_subst(self@, om[j].1@),
                forall|j: int| 0 <= j < src.len() ==> 0 <= #[trigger] src[j] < k,
                forall|j: int| 0 <= j < src.len() ==> out@[n + j].0 == sm[#[trigger] src[j]].0,
                forall|j: int| 0 <= j < src.len() ==> out@[n + j].1@ == sm[#[trigger] src[j]].1@,
                forall|j: int| 0 <= j < src.len() ==> !other@.contains_key(sm[#[trigger] src[j]].0),
                forall|a: int|
                    0 <= a < k && !other@.contains_key(#[trigger] sm[a].0) ==> exists|j: int|
                        0 <= j < src.len() && src[j] == a,
                ids_unique(out@),
            decreases self.map.len() - k,
        {
            let key = self.map[k].0;
            if other.get(key).is_none() {
                let v = self.map[k].1.clone();
                let ghost before = out@;
                let ghost src0 = src;
                out.push((key, v));
                proof {
                    src = src.push(k as int);
                    let o = out@;
                    assert(o[o.len() - 1].0 == key);
                    assert forall|j: int| 0 <= j < src.len() implies o[n + j].0 == sm[#[trigger] src[j]].0
                        && o[n + j].1@ == sm[src[j]].1@ by {
                        if j < src0.len() {
                            assert(src[j] == src0[j]);
                            assert(o[n + j] == before[n + j]);
                        }
                    }
                    assert forall|a: int|
                        0 <= a < k + 1 && !other@.contains_key(#[trigger] sm[a].0) implies exists|j: int|
                        0 <= j < src.len() && src[j] == a by {
                        if a < k {
                            let j = choose|j: int| 0 <= j < src0.len() && src0[j] == a;
                            assert(src[j] == a);
                        } else {
                            assert(src[src.len() - 1] == a);
                        }
                    }
                    assert forall|x: int, y: int| 0 <= x < y < o.len() implies (#[trigger] o[x]).0
                        != (#[trigger] o[y]).0 by {
                        if y == o.len() - 1 {
                            assert(o[x] == before[x]);
                            if x < n {
                                assert(om[x].0 == o[x].0);
                                assert(other@.contains_key(om[x].0));
                            } else {
                                let jx = x - n;
                                assert(src0[jx] == src[jx]);
                                assert(src[jx] < k);
                                assert(o[x].0 == sm[src[jx]].0);
                            }
                        } else {
                            assert(o[x] == before[x]);
                            assert(o[y] == before[y]);
                        }
                    }
                }
            }
            k = k + 1;
        }
        let r = Subst { map: out };
        proof {
            let o = out@;
            let c = compose_map(self@, other@);
            assert forall|key: u32| #[trigger] r@.dom().contains(key) == c.dom().contains(key) by {
                if r@.dom().contains(key) {
                    let j = choose|j: int| 0 <= j < o.len() && o[j].0 == key;
                    if j < n {
                        assert(om[j].0 == key);
                    } else {
                        assert(sm[src[j - n]].0 == o[n + (j - n)].0);
                    }
                }
                if other@.contains_key(key) {
                    let j = choose|j: int| 0 <= j < om.len() && om[j].0 == key;
                    assert(o[j].0 == key);
                } else if self@.contains_key(key) {
                    let a = choose|a: int| 0 <= a < sm.len() && sm[a].0 == key;
                    let j = choose|j: int| 0 <= j < src.len() && src[j] == a;
                    assert(o[n + j].0 == key);
                }
            }
            assert forall|key: u32| #[trigger] r@.dom().contains(key) implies r@[key] == c[key] by {
                let j = choose|j: int| 0 <= j < o.len() && o[j].0 == key;
                if j < n {
                    let b = choose|b: int| 0 <= b < om.len() && om[b].0 == key;
                    assert(om[j].0 == key);
                    assert(b == j);
                } else {
                    let a = src[j - n];
                    assert(o[n + (j - n)].0 == sm[a].0);
                    let b = choose|b: int| 0 <= b < sm.len() && sm[b].0 == key;
                    assert(a == b);
                }
            }
            assert(r@ =~= c);
        }
        r
    }

    /// Whether the substitution maps no variable.
    pub fn is_empty(&self) -> (r: bool)
        requires
            self.wf(),
        ensures
            r == (self@.dom() =~= Set::<u32>::empty()),
    {
        let r = self.map.len() == 0;
        proof {
            if !r {
                assert(self@.dom().contains(self.map@[0].0));
            } else {
                assert(self@.dom() =~= Set::<u32>::empty());
            }
        }
        r
    }
}

/// Whether variable `id` occurs in the type.
pub fn occurs_in(id: u32, t: &Ty) -> (r: bool)
    ensures
        r == occurs(id, t@),
    decreases t,
{
    match t {
        Ty::Var(v) => v.id == id,
        Ty::Con { .. } => false,
        Ty::App(a, b) | Ty::Fun(a, b) => occurs_in(id, a) || occurs_in(id, b),
        Ty::Record(fs) => {
            proof {
                assert(decreases_to!(t => fs));
                assert(decreases_to!(fs => fs@));
            }
            let ghost vs = match t@ {
                TyView::Record(x) => x,
                _ => Seq::empty(),
            };
            assert(vs.len() == fs@.len());
            assert(forall|f: int| 0 <= f < fs@.len() ==> #[trigger] vs[f] == (fs@[f].0@, fs@[f].1@));
            let mut i: usize = 0;
            while i < fs.len()
                invariant
                    i <= fs@.len(),
                    decreases_to!(t => fs@),
                    t@ == TyView::Record(vs),
                    *t == Ty::Record(*fs),
                    vs.len() == fs@.len(),
                    forall|f: int| 0 <= f < fs@.len() ==> #[trigger] vs[f] == (fs@[f].0@, fs@[f].1@),
                    forall|f: int| 0 <= f < i ==> !occurs(id, (#[trigger] fs@[f]).1@),
                decreases fs.len() - i,
            {
                proof {
                    assert(decreases_to!(fs@ => fs@[i as int]));
                    assert(decreases_to!(fs@[i as int] => fs@[i as int].1));
                }
                if occurs_in(id, &fs[i].1) {
                    proof {
                        assert(vs[i as int].1 == fs@[i as int].1@);
                        assert(occurs(id, vs[i as int].1));
                        lemma_occurs_field(id, vs, i as int);
                    }
                    return true;
                }
                i = i + 1;
            }
            proof {
                if occurs(id, t@) {
                    let f = choose|f: int| 0 <= f < vs.len() && occurs(id, #[trigger] vs[f].1);
                    assert(vs[f].1 == fs@[f].1@);
                }
            }
            false
        },
    }
}


/// A variable occurring in one field's type occurs in the record.
proof fn lemma_occurs_field(id: u32, vs: Seq<(Seq<char>, TyView)>, i: int)
    requires
        0 <= i < vs.len(),
        occurs(id, vs[i].1),
    ensures
        occurs(id, TyView::Record(vs)),
{
    let r = TyView::Record(vs);
    assert(r matches TyView::Record(fs) && fs == vs);
    assert(exists|k: int| 0 <= k < vs.len() && occurs(id, #[trigger] vs[k].1));
}
} // verus!
