//! The prelude's types, classes, values and instances, as the type
//! checker sees them.
use vstd::prelude::*;

use super::classes::{constraint_same, fresh_var, same_constraint};
use super::env::{globals_get, ClassInfo, CtorInfo, DataInfo, GlobalId, InstanceInfo, TypeEnv};
use super::infer::{make_kind_arity, InferCtx};
use super::ty::{field_has_image, lemma_fields_map, lemma_fields_map_at, maps_vars, Constraint, Kind, Scheme, Ty, TyVar, TyView};
use crate::resolver::table::{keys_unique, lemma_table_get_some, table_get, table_insert, table_keys};

verus! {

/// A type in a prelude constructor's argument: a parameter, a
/// constructor, or an application.
pub enum PreludeType {
    TVar(String),
    TCon(String),
    App(Box<PreludeType>, Box<PreludeType>),
}

fn s(x: &str) -> (r: String)
    ensures
        r@ == x@,
{
    String::from_str(x)
}

fn star(n: &str) -> (r: Ty)
    ensures
        r@ == TyView::Con(n@),
{
    Ty::star(s(n))
}

fn con1(n: &str) -> (r: Ty)
    ensures
        r == (Ty::Con { name: r->name, kind: Kind::Arrow(Box::new(Kind::Star), Box::new(Kind::Star)) }),
        r@ == TyView::Con(n@),
{
    Ty::con(s(n), Kind::arr(Kind::Star, Kind::Star))
}

fn con2(n: &str) -> (r: Ty)
    ensures
        r == (Ty::Con {
            name: r->name,
            kind: Kind::Arrow(
                Box::new(Kind::Star),
                Box::new(Kind::Arrow(Box::new(Kind::Star), Box::new(Kind::Star))),
            ),
        }),
        r@ == TyView::Con(n@),
{
    Ty::con(s(n), Kind::arr(Kind::Star, Kind::arr(Kind::Star, Kind::Star)))
}

/// A variable of id 0 named `n`, renamed when the scheme is built.
fn tv(n: &str) -> (r: Ty)
    ensures
        r matches Ty::Var(v) && v.id == 0 && v.name@ == n@,
{
    Ty::Var(TyVar { id: 0, name: s(n) })
}

fn fun(a: Ty, b: Ty) -> (r: Ty)
    ensures
        r == Ty::Fun(Box::new(a), Box::new(b)),
{
    Ty::fun(a, b)
}

fn app(a: Ty, b: Ty) -> (r: Ty)
    ensures
        r@ == TyView::App(Box::new(a@), Box::new(b@)),
{
    Ty::app(a, b)
}

fn maybe(t: Ty) -> (r: Ty)
    ensures
        r@ == TyView::App(Box::new(TyView::Con("Maybe"@)), Box::new(t@)),
{
    app(con1("Maybe"), t)
}

fn list(t: Ty) -> (r: Ty)
    ensures
        r@ == TyView::App(Box::new(TyView::Con("List"@)), Box::new(t@)),
{
    app(con1("List"), t)
}

fn result(e: Ty, a: Ty) -> (r: Ty)
    ensures
        r@ == TyView::App(Box::new(TyView::App(Box::new(TyView::Con("Result"@)), Box::new(e@))), Box::new(a@)),
{
    app(app(con2("Result"), e), a)
}

fn unit() -> (r: Ty) {
    Ty::record(Vec::new())
}

fn names(xs: &[&str]) -> (r: Vec<String>)
    ensures
        r@.len() == xs@.len(),
        forall|i: int| 0 <= i < xs@.len() ==> (#[trigger] r@[i])@ == xs@[i]@,
{
    let mut out: Vec<String> = Vec::new();
    let mut i: usize = 0;
    while i < xs.len()
        invariant
            i <= xs@.len(),
            out@.len() == i,
            forall|k: int| 0 <= k < i ==> (#[trigger] out@[k])@ == xs@[k]@,
        decreases xs.len() - i,
    {
        out.push(s(xs[i]));
        i = i + 1;
    }
    out
}

/// The renaming table of a prelude scheme: the `i`-th variable name to
/// the variable numbered `10000 + i`.
pub open spec fn fresh_table(vars: Seq<&str>) -> Seq<(Seq<char>, TyView)> {
    Seq::new(vars.len(), |i: int| (vars[i]@, TyView::Var((10000 + i) as u32)))
}

/// Replace each variable whose name the table maps by its image.
fn rename_named_vars(t: &Ty, subst: &Vec<(String, Ty)>) -> (r: Ty)
    ensures
        maps_vars(*t, r, |v: TyVar| renamed_var_image(v, subst@.map_values(|e: (String, Ty)| (e.0@, e.1@)))),
    decreases t,
{
    let ghost tbl = subst@.map_values(|e: (String, Ty)| (e.0@, e.1@));
    match t {
        Ty::Var(v) => {
            proof {
                assert(tbl.skip(0) =~= tbl);
            }
            let mut i: usize = 0;
            while i < subst.len()
                invariant
                    i <= subst@.len(),
                    tbl == subst@.map_values(|e: (String, Ty)| (e.0@, e.1@)),
                    renamed_var_image(*v, tbl) == renamed_var_image(*v, tbl.skip(i as int)),
                    *t == Ty::Var(*v),
                decreases subst.len() - i,
            {
                proof {
                    assert(tbl.skip(i as int).drop_first() =~= tbl.skip(i + 1));
                }
                if subst[i].0.eq(&v.name) {
                    let r = subst[i].1.clone();
                    proof {
                        assert(tbl.skip(i as int)[0] == (subst@[i as int].0@, subst@[i as int].1@));
                        assert(r@ == renamed_var_image(*v, tbl));
                    }
                    return r;
                }
                i = i + 1;
            }
            let r = Ty::Var(v.clone());
            proof {
                assert(tbl.skip(i as int).len() == 0);
                assert(r@ == renamed_var_image(*v, tbl));
            }
            r
        },
        Ty::Con { name, kind } => Ty::Con { name: name.clone(), kind: kind.clone() },
        Ty::App(a, b) => Ty::app(rename_named_vars(a, subst), rename_named_vars(b, subst)),
        Ty::Fun(a, b) => Ty::fun(rename_named_vars(a, subst), rename_named_vars(b, subst)),
        Ty::Record(fs) => {
            proof {
                assert(decreases_to!(t => fs));
                assert(decreases_to!(fs => fs@));
            }
            let mut out: Vec<(String, Ty)> = Vec::new();
            let mut i: usize = 0;
            while i < fs.len()
                invariant
                    i <= fs@.len(),
                    out@.len() == i,
                    decreases_to!(t => fs@),
                    forall|q: int|
                        0 <= q < i ==> (#[trigger] out@[q]).0@ == fs@[q].0@ && maps_vars(
                            fs@[q].1,
                            out@[q].1,
                            |v: TyVar| renamed_var_image(v, subst@.map_values(|e: (String, Ty)| (e.0@, e.1@))),
                        ),
                decreases fs.len() - i,
            {
                proof {
                    assert(decreases_to!(fs@ => fs@[i as int]));
                    assert(decreases_to!(fs@[i as int] => fs@[i as int].1));
                }
                let ghost o0 = out@;
                out.push((fs[i].0.clone(), rename_named_vars(&fs[i].1, subst)));
                proof {
                    assert forall|q: int| 0 <= q < i + 1 implies (#[trigger] out@[q]).0@ == fs@[q].0@ && maps_vars(
                        fs@[q].1,
                        out@[q].1,
                        |v: TyVar| renamed_var_image(v, subst@.map_values(|e: (String, Ty)| (e.0@, e.1@))),
                    ) by {
                        if q < i {
                            assert(out@[q] == o0[q]);
                        }
                    }
                }
                i = i + 1;
            }
            let ghost ov = out@;
            let r = Ty::record(out);
            proof {
                broadcast use vstd::seq_lib::group_to_multiset_ensures;

                assert(ov.to_multiset().len() == ov.len());
                if let Ty::Record(rfs) = &r {
                    assert(rfs@.to_multiset().len() == rfs@.len());
                    assert forall|j: int| 0 <= j < fs@.len() implies field_has_image(
                        #[trigger] fs@[j],
                        rfs@,
                        |v: TyVar| renamed_var_image(v, subst@.map_values(|e: (String, Ty)| (e.0@, e.1@))),
                    ) by {
                        assert(ov.contains(ov[j]));
                        assert(ov.to_multiset().count(ov[j]) > 0);
                        assert(rfs@.contains(ov[j]));
                        let k = choose|k: int| 0 <= k < rfs@.len() && rfs@[k] == ov[j];
                        assert(rfs@[k].0@ == fs@[j].0@);
                    }
                    lemma_fields_map(fs@, rfs@, |v: TyVar| renamed_var_image(v, subst@.map_values(|e: (String, Ty)| (e.0@, e.1@))), fs@.len() as int);
                }
            }
            r
        },
    }
}

/// The image of a variable under a renaming table: the type of the first
/// entry of its name, or the variable itself.
pub open spec fn renamed_var_image(v: TyVar, table: Seq<(Seq<char>, TyView)>) -> TyView
    decreases table.len(),
{
    if table.len() == 0 {
        TyView::Var(v.id)
    } else if table[0].0 == v.name@ {
        table[0].1
    } else {
        renamed_var_image(v, table.drop_first())
    }
}

/// The scheme binding `vars` (numbered from 10 000, in order) over the
/// constraints and body, whose variables are named after them.
fn fresh_scheme(vars: &[&str], ctx_cstrs: Vec<(&str, Ty)>, body: Ty) -> (r: Scheme)
    requires
        vars@.len() < 100,
    ensures
        r.vars@.len() == vars@.len(),
        made_fresh(vars@, body, ctx_cstrs@.len(), r),
{
    let mut vvs: Vec<TyVar> = Vec::new();
    let mut table: Vec<(String, Ty)> = Vec::new();
    let mut i: usize = 0;
    while i < vars.len()
        invariant
            i <= vars@.len(),
            vars@.len() < 100,
            vvs@.len() == i,
            forall|k: int| 0 <= k < i ==> (#[trigger] vvs@[k]).id == 10000 + k && vvs@[k].name@ == vars@[k]@,
            table@.map_values(|e: (String, Ty)| (e.0@, e.1@)) == fresh_table(vars@).take(i as int),
        decreases vars.len() - i,
    {
        let v = TyVar { id: (10000 + i) as u32, name: s(vars[i]) };
        let ghost t0 = table@;
        let nm = s(vars[i]);
        let vt = Ty::Var(v.clone());
        proof {
            assert(vt@ == TyView::Var((10000 + i) as u32));
            assert(nm@ == vars@[i as int]@);
        }
        table.push((nm, vt));
        proof {
            let f = fresh_table(vars@);
            assert(table@ == t0.push((nm, vt)));
            assert(table@.map_values(|e: (String, Ty)| (e.0@, e.1@)) =~= t0.map_values(|e: (String, Ty)| (e.0@, e.1@)).push((nm@, vt@)));
            assert(f.take(i + 1) =~= f.take(i as int).push(f[i as int]));
        }
        vvs.push(v);
        i = i + 1;
    }
    proof {
        assert(fresh_table(vars@).take(vars@.len() as int) =~= fresh_table(vars@));
    }
    let ghost body0 = body;
    let body = rename_named_vars(&body, &table);
    let mut context: Vec<Constraint> = Vec::new();
    let mut cs = ctx_cstrs;
    while cs.len() > 0
        invariant
            context@.len() + cs@.len() == ctx_cstrs@.len(),
        decreases cs.len(),
    {
        let (c, a) = cs.remove(0);
        context.push(Constraint { class: s(c), arg: rename_named_vars(&a, &table) });
    }
    let r = Scheme { vars: vvs, context, body };
    proof {
        reveal(made_fresh);
    }
    r
}

/// `r` is the prelude scheme over the variable names `vars` (numbered
/// from 10000 in order) with `body` renamed to them and `n` constraints.
#[verifier::opaque]
pub open spec fn made_fresh(vars: Seq<&str>, body: Ty, n: nat, r: Scheme) -> bool {
    &&& r.vars@.len() == vars.len()
    &&& forall|i: int| 0 <= i < vars.len() ==> (#[trigger] r.vars@[i]).id == 10000 + i && r.vars@[i].name@ == vars[i]@
    &&& maps_vars(body, r.body, |v: TyVar| renamed_var_image(v, fresh_table(vars)))
    &&& r.context@.len() == n
}

fn method(name: &str, scheme: Scheme) -> (r: (String, Scheme))
    ensures
        r.0@ == name@,
        r.1 == scheme,
{
    (s(name), scheme)
}

/// The class `name` is in the table with this type variable, these
/// superclasses and these methods, in order.
pub open spec fn class_installed(
    classes: Seq<(String, ClassInfo)>,
    name: Seq<char>,
    type_var: Seq<char>,
    supers: Seq<Seq<char>>,
    methods: Seq<Seq<char>>,
) -> bool {
    &&& table_get(classes, name) matches Some(c)
    &&& c.type_var@ == type_var
    &&& c.superclasses@.map_values(|x: String| x@) == supers
    &&& c.methods@.map_values(|m: (String, Scheme)| m.0@) == methods
}

/// `o` is the scheme of a record accessor for `field`: a function from a
/// record to the type of that record's field named `field`.
pub open spec fn field_accessor(o: Option<Scheme>, field: Seq<char>) -> bool {
    match o {
        Some(sch) => match sch.body {
            Ty::Fun(arg, res) => match *arg {
                Ty::Record(fs) => exists|k: int| 0 <= k < fs@.len() && #[trigger] fs@[k].0@ == field && fs@[k].1@ == res@,
                _ => false,
            },
            _ => false,
        },
        None => false,
    }
}

/// Two variables of one id and one name rename alike.
proof fn lemma_renamed_same(v1: TyVar, v2: TyVar, table: Seq<(Seq<char>, TyView)>)
    requires
        v1.id == v2.id,
        v1.name@ == v2.name@,
    ensures
        renamed_var_image(v1, table) == renamed_var_image(v2, table),
    decreases table.len(),
{
    if table.len() > 0 {
        lemma_renamed_same(v1, v2, table.drop_first());
    }
}

/// A prelude scheme built over a record whose field `j` is named `field`
/// and has the result variable as its type is an accessor for `field`.
proof fn lemma_accessor_scheme(fields: Seq<(String, Ty)>, rec: Ty, res: Ty, sch: Scheme, field: Seq<char>, j: int)
    requires
        0 <= j < fields.len(),
        fields[j].0@ == field,
        res matches Ty::Var(v1) && fields[j].1 matches Ty::Var(v2) && v1.id == v2.id && v1.name@ == v2.name@,
        rec matches Ty::Record(fs) && fs@.to_multiset() =~= fields.to_multiset(),
        made_fresh(seq!["a", "b"], Ty::Fun(Box::new(rec), Box::new(res)), 0, sch),
    ensures
        field_accessor(Some(sch), field),
{
    broadcast use vstd::seq_lib::group_to_multiset_ensures;

    reveal(made_fresh);
    let img = |v: TyVar| renamed_var_image(v, fresh_table(seq!["a", "b"]));
    if let Ty::Record(fs) = rec {
        assert(fields.contains(fields[j]));
        assert(fields.to_multiset().count(fields[j]) > 0);
        assert(fs@.contains(fields[j]));
        let i = choose|i: int| 0 <= i < fs@.len() && fs@[i] == fields[j];
        if let Ty::Fun(ra, rb) = sch.body {
            assert(maps_vars(rec, *ra, img));
            assert(maps_vars(res, *rb, img));
            if let Ty::Record(rfs) = *ra {
                lemma_fields_map_at(fs@, rfs@, img, fs@.len() as int, i);
                assert(field_has_image(fs@[i], rfs@, img));
                let k = choose|k: int| 0 <= k < rfs@.len() && #[trigger] rfs@[k].0@ == fs@[i].0@ && maps_vars(fs@[i].1, rfs@[k].1, img);
                if let Ty::Var(v1) = res {
                    if let Ty::Var(v2) = fields[j].1 {
                        lemma_renamed_same(v1, v2, fresh_table(seq!["a", "b"]));
                    }
                }
                assert(rfs@[k].1@ == rb@);
            }
        }
    }
}

/// The global `==` of the prelude: `forall a. Eq a => a -> a -> Bool`,
/// its variable numbered 10000.
pub open spec fn eq_method_scheme(o: Option<Scheme>) -> bool {
    &&& o matches Some(sch)
    &&& sch.vars@.len() == 1
    &&& sch.vars@[0].id == 10000 && sch.vars@[0].name@ == "a"@
    &&& sch.context@.len() == 1
    &&& sch.context@[0].class@ == "Eq"@ && sch.context@[0].arg@ == TyView::Var(10000)
    &&& sch.body@ == TyView::Fun(
        Box::new(TyView::Var(10000)),
        Box::new(TyView::Fun(Box::new(TyView::Var(10000)), Box::new(TyView::Con("Bool"@)))),
    )
}

/// A prelude class with its methods.
fn class(name: &str, type_var: &str, supers: &[&str], methods: Vec<(String, Scheme)>, defaults: &[&str]) -> (r:
    ClassInfo)
    ensures
        r.name@ == name@,
        r.type_var@ == type_var@,
        r.superclasses@.len() == supers@.len(),
        forall|i: int| 0 <= i < supers@.len() ==> (#[trigger] r.superclasses@[i])@ == supers@[i]@,
        r.methods == methods,
        r.defaults@.len() == defaults@.len(),
        forall|i: int| 0 <= i < defaults@.len() ==> (#[trigger] r.defaults@[i])@ == defaults@[i]@,
        r.home_module@ == "Prelude"@,
{
    ClassInfo {
        name: s(name),
        type_var: s(type_var),
        superclasses: names(supers),
        methods,
        defaults: names(defaults),
        home_module: s("Prelude"),
    }
}

/// The id of the first parameter named `n`.
pub open spec fn param_id(params: Seq<(String, TyVar)>, n: Seq<char>) -> Option<u32>
    decreases params.len(),
{
    if params.len() == 0 {
        None
    } else {
        match param_id(params.drop_last(), n) {
            Some(id) => Some(id),
            None => if params.last().0@ == n {
                Some(params.last().1.id)
            } else {
                None
            },
        }
    }
}

proof fn lemma_param_id_step(params: Seq<(String, TyVar)>, n: Seq<char>, i: int)
    requires
        0 <= i < params.len(),
    ensures
        param_id(params.take(i + 1), n) == match param_id(params.take(i), n) {
            Some(id) => Some(id),
            None => if params[i].0@ == n {
                Some(params[i].1.id)
            } else {
                None
            },
        },
{
    assert(params.take(i + 1).drop_last() =~= params.take(i));
}

proof fn lemma_param_id_found(params: Seq<(String, TyVar)>, n: Seq<char>, m: int)
    requires
        0 < m <= params.len(),
        param_id(params.take(m), n) is Some,
    ensures
        param_id(params, n) == param_id(params.take(m), n),
    decreases params.len() - m,
{
    if m < params.len() {
        lemma_param_id_step(params, n, m);
        lemma_param_id_found(params, n, m + 1);
    } else {
        assert(params.take(m) =~= params);
    }
}

/// A prelude argument type by its view: a parameter is the variable the
/// table gives it (an unknown one the variable of id 0), a constructor
/// its name, an application the application.
pub open spec fn prelude_type_view(a: PreludeType, params: Seq<(String, TyVar)>) -> TyView
    decreases a,
{
    match a {
        PreludeType::TVar(n) => match param_id(params, n@) {
            Some(id) => TyView::Var(id),
            None => TyView::Var(0),
        },
        PreludeType::TCon(n) => TyView::Con(n@),
        PreludeType::App(f, x) => TyView::App(
            Box::new(prelude_type_view(*f, params)),
            Box::new(prelude_type_view(*x, params)),
        ),
    }
}

/// Convert a prelude constructor-argument type, parameters by the
/// table (unknown ones as variables of id 0).
fn prelude_ast_to_ty(a: &PreludeType, params: &Vec<(String, TyVar)>) -> (r: Ty)
    ensures
        r@ == prelude_type_view(*a, params@),
    decreases a,
{
    match a {
        PreludeType::TVar(n) => {
            let mut i: usize = 0;
            while i < params.len()
                invariant
                    i <= params@.len(),
                    param_id(params@.take(i as int), n@) is None,
                    *a == PreludeType::TVar(*n),
                decreases params.len() - i,
            {
                proof {
                    lemma_param_id_step(params@, n@, i as int);
                }
                if params[i].0.eq(n) {
                    proof {
                        lemma_param_id_found(params@, n@, i + 1);
                    }
                    return Ty::Var(params[i].1.clone());
                }
                i = i + 1;
            }
            assert(params@.take(i as int) =~= params@);
            Ty::Var(TyVar { id: 0, name: n.clone() })
        },
        PreludeType::TCon(n) => {
            let kind = match super::infer::builtin_kind_of(n.as_str()) {
                Some(k) => k,
                None => Kind::Star,
            };
            Ty::con(n.clone(), kind)
        },
        PreludeType::App(f, x) => Ty::app(prelude_ast_to_ty(f, params), prelude_ast_to_ty(x, params)),
    }
}

/// Register a prelude data type and its constructors, each a global of
/// the prelude with the scheme `args... -> T params`.
fn register_data(ctx: &mut InferCtx, name: &str, params: &[&str], ctors: Vec<(&str, Vec<PreludeType>)>)
    requires
        old(ctx).wf(),
    ensures
        final(ctx).wf(),
        final(ctx).module == old(ctx).module,
        final(ctx).inferred == old(ctx).inferred,
        data_installed(final(ctx).type_env, name@, ctors@.map_values(|c: (&str, Vec<PreludeType>)| c.0@)),
        final(ctx).class_env == old(ctx).class_env,
{
    let param_strings = names(params);
    let mut ctor_names: Vec<String> = Vec::new();
    let mut i: usize = 0;
    while i < ctors.len()
        invariant
            i <= ctors@.len(),
        decreases ctors.len() - i,
    {
        ctor_names.push(s(ctors[i].0));
        i = i + 1;
    }
    table_insert(
        &mut ctx.type_env.datas,
        s(name),
        DataInfo { name: s(name), params: names(params), ctor_names, home_module: s("Prelude") },
    );
    proof {
        lemma_table_get_some(ctx.type_env.datas@, name@);
        let k = choose|k: int| 0 <= k < ctx.type_env.datas@.len() && ctx.type_env.datas@[k].0@ == name@;
        assert(table_keys(ctx.type_env.datas@)[k] == name@);
    }
    let ghost all = ctors@;
    let ghost mut j: int = 0;
    assert(all.skip(0) =~= all);
    let mut cs = ctors;
    while cs.len() > 0
        invariant
            ctx.wf(),
            ctx.module == old(ctx).module,
            ctx.inferred == old(ctx).inferred,
            ctx.class_env == old(ctx).class_env,
            0 <= j <= all.len(),
            cs@ == all.skip(j),
            table_keys(ctx.type_env.datas@).contains(name@),
            forall|q: int|
                0 <= q < j ==> table_keys(ctx.type_env.ctors@).contains((#[trigger] all[q]).0@) && globals_get(
                    ctx.type_env.globals@,
                    "Prelude"@,
                    all[q].0@,
                ) is Some,
        decreases cs.len(),
    {
        let ghost cs0 = cs@;
        let (ctor_name, args) = cs.remove(0);
        proof {
            assert(ctor_name == all[j].0) by {
                assert(cs0[0] == all.skip(j)[0]);
            }
        }
        let ghost te_start = ctx.type_env;
        let mut param_vars: Vec<(String, TyVar)> = Vec::new();
        let mut vars_ordered: Vec<TyVar> = Vec::new();
        let mut p: usize = 0;
        while p < param_strings.len()
            invariant
                ctx.wf(),
                ctx.module == old(ctx).module,
                ctx.inferred == old(ctx).inferred,
                p <= param_strings@.len(),
                ctx.type_env == te_start,
                ctx.class_env == old(ctx).class_env,
            decreases param_strings.len() - p,
        {
            let v = fresh_var(&mut ctx.fresh_counter);
            let t = TyVar { id: v.id, name: param_strings[p].clone() };
            param_vars.push((param_strings[p].clone(), t.clone()));
            vars_ordered.push(t);
            p = p + 1;
        }
        let head_kind = make_kind_arity(param_strings.len());
        let mut res = Ty::con(s(name), head_kind);
        let mut v: usize = 0;
        while v < vars_ordered.len()
            invariant
                v <= vars_ordered@.len(),
            decreases vars_ordered.len() - v,
        {
            res = Ty::app(res, Ty::Var(vars_ordered[v].clone()));
            v = v + 1;
        }
        let mut ctor_ty = res;
        let mut a = args.len();
        while a > 0
            invariant
                a <= args@.len(),
            decreases a,
        {
            a = a - 1;
            let a_ty = prelude_ast_to_ty(&args[a], &param_vars);
            ctor_ty = Ty::fun(a_ty, ctor_ty);
        }
        let scheme = Scheme { vars: vars_ordered, context: Vec::new(), body: ctor_ty };
        let ghost ck0 = table_keys(ctx.type_env.ctors@);
        table_insert(
            &mut ctx.type_env.ctors,
            s(ctor_name),
            CtorInfo { data_type: s(name), scheme: scheme.clone(), arity: args.len() },
        );
        let ghost g0 = ctx.type_env.globals@;
        let prelude_name = s("Prelude");
        ctx.type_env.insert_global(GlobalId::new(prelude_name, s(ctor_name)), scheme);
        proof {
            assert(cs@ =~= all.skip(j + 1));
            assert forall|q: int|
                0 <= q < j + 1 implies table_keys(ctx.type_env.ctors@).contains((#[trigger] all[q]).0@) && globals_get(
                ctx.type_env.globals@,
                "Prelude"@,
                all[q].0@,
            ) is Some by {
                if q < j {
                    assert(ck0.contains(all[q].0@));
                    if all[q].0@ != ctor_name@ {
                        assert(globals_get(ctx.type_env.globals@, "Prelude"@, all[q].0@) == globals_get(
                            g0,
                            "Prelude"@,
                            all[q].0@,
                        ));
                    }
                }
            }
            j = j + 1;
        }
    }
    proof {
        assert(j == all.len()) by {
            assert(all.skip(j).len() == 0);
        }
        reveal(data_installed);
        let names = all.map_values(|c: (&str, Vec<PreludeType>)| c.0@);
        assert forall|k: int| 0 <= k < names.len() implies table_keys(ctx.type_env.ctors@).contains(
            #[trigger] names[k],
        ) && globals_get(ctx.type_env.globals@, "Prelude"@, names[k]) is Some by {
            assert(names[k] == all[k].0@);
        }
    }
}

/// The data type `name` is registered and each of the constructors named
/// is registered and a global of the prelude.
#[verifier::opaque]
pub open spec fn data_installed(env: TypeEnv, name: Seq<char>, ctor_names: Seq<Seq<char>>) -> bool {
    &&& table_keys(env.datas@).contains(name)
    &&& forall|k: int|
        0 <= k < ctor_names.len() ==> table_keys(env.ctors@).contains(#[trigger] ctor_names[k]) && globals_get(
            env.globals@,
            "Prelude"@,
            ctor_names[k],
        ) is Some
}

fn pvar(n: &str) -> (r: PreludeType) {
    PreludeType::TVar(s(n))
}

fn add_prelude(ctx: &mut InferCtx, name: &str, sch: Scheme)
    requires
        old(ctx).wf(),
    ensures
        final(ctx).wf(),
        final(ctx).module == old(ctx).module,
        final(ctx).inferred == old(ctx).inferred,
        globals_get(final(ctx).type_env.globals@, "Prelude"@, name@) == Some(sch),
        forall|m: Seq<char>, n: Seq<char>|
            !(m == "Prelude"@ && n == name@) ==> #[trigger] globals_get(final(ctx).type_env.globals@, m, n)
                == globals_get(old(ctx).type_env.globals@, m, n),
        final(ctx).class_env == old(ctx).class_env,
{
    ctx.type_env.insert_global(GlobalId::new(s("Prelude"), s(name)), sch);
}

/// Install the prelude: its data types (`Bool`, `Ordering`, `Maybe`,
/// `Result`, `List`), its classes (`Eq`, `Ord`, `Show`, `Functor`,
/// `Applicative`, `Monad`) with their methods as constrained globals,
/// its values (arithmetic, logic, list and utility functions), and its
/// instances.
#[verifier::rlimit(80)]
pub fn install_prelude(ctx: &mut InferCtx)
    requires
        old(ctx).wf(),
    ensures
        final(ctx).wf(),
        final(ctx).module == old(ctx).module,
        final(ctx).inferred == old(ctx).inferred,
        exists|before: Seq<InstanceInfo>|
            inst_rows(final(ctx).class_env.instances@) == inst_rows(before) + prelude_instance_rows(),
        class_installed(final(ctx).class_env.classes@, "Eq"@, "a"@, seq![], seq!["=="@, "/="@]),
        class_installed(
            final(ctx).class_env.classes@,
            "Ord"@,
            "a"@,
            seq!["Eq"@],
            seq!["compare"@, "<"@, ">"@, "<="@, ">="@],
        ),
        class_installed(final(ctx).class_env.classes@, "Show"@, "a"@, seq![], seq!["show"@]),
        class_installed(final(ctx).class_env.classes@, "Functor"@, "f"@, seq![], seq!["fmap"@]),
        class_installed(final(ctx).class_env.classes@, "Applicative"@, "f"@, seq!["Functor"@], seq!["pure"@, "<*>"@]),
        class_installed(
            final(ctx).class_env.classes@,
            "Monad"@,
            "m"@,
            seq!["Applicative"@],
            seq![">>="@, ">>"@, "return"@],
        ),
        old(ctx).class_env.classes@.len() == 0 ==> eq_method_scheme(
            globals_get(final(ctx).type_env.globals@, "Prelude"@, "=="@),
        ),
        field_accessor(globals_get(final(ctx).type_env.globals@, "Prelude"@, "fst"@), "fst"@),
        field_accessor(globals_get(final(ctx).type_env.globals@, "Prelude"@, "snd"@), "snd"@),
{
    register_data(ctx, "Bool", &[], vec![("False", Vec::new()), ("True", Vec::new())]);
    register_data(ctx, "Ordering", &[], vec![("LT", Vec::new()), ("EQ", Vec::new()), ("GT", Vec::new())]);
    register_data(ctx, "Maybe", &["a"], vec![("Nothing", Vec::new()), ("Just", vec![pvar("a")])]);
    register_data(ctx, "Result", &["e", "a"], vec![("Err", vec![pvar("e")]), ("Ok", vec![pvar("a")])]);
    register_data(
        ctx,
        "List",
        &["a"],
        vec![
            ("Nil", Vec::new()),
            (
                "Cons",
                vec![
                    pvar("a"),
                    PreludeType::App(Box::new(PreludeType::TCon(s("List"))), Box::new(pvar("a"))),
                ],
            ),
        ],
    );
    let kinds = ["Int", "String", "Bool", "Ordering", "Maybe", "List", "Ruby"];
    let mut k: usize = 0;
    while k < 7
        invariant
            ctx.wf(),
            ctx.module == old(ctx).module,
            ctx.inferred == old(ctx).inferred,
            ctx.class_env == old(ctx).class_env,
        decreases 7 - k,
    {
        table_insert(&mut ctx.type_env.type_kinds, s(kinds[k]), 0u32);
        k = k + 1;
    }

    let eq = class(
        "Eq",
        "a",
        &[],
        vec![
            method("==", fresh_scheme(&["a"], Vec::new(), fun(tv("a"), fun(tv("a"), star("Bool"))))),
            method("/=", fresh_scheme(&["a"], Vec::new(), fun(tv("a"), fun(tv("a"), star("Bool"))))),
        ],
        &["/="],
    );
    let ghost eq_info = eq;
    ctx.class_env.register_class(eq);
    let ord = class(
        "Ord",
        "a",
        &["Eq"],
        vec![
            method("compare", fresh_scheme(&["a"], Vec::new(), fun(tv("a"), fun(tv("a"), star("Ordering"))))),
            method("<", fresh_scheme(&["a"], Vec::new(), fun(tv("a"), fun(tv("a"), star("Bool"))))),
            method(">", fresh_scheme(&["a"], Vec::new(), fun(tv("a"), fun(tv("a"), star("Bool"))))),
            method("<=", fresh_scheme(&["a"], Vec::new(), fun(tv("a"), fun(tv("a"), star("Bool"))))),
            method(">=", fresh_scheme(&["a"], Vec::new(), fun(tv("a"), fun(tv("a"), star("Bool"))))),
        ],
        &["<", ">", "<=", ">="],
    );
    let ghost ord_info = ord;
    ctx.class_env.register_class(ord);
    let show = class(
        "Show",
        "a",
        &[],
        vec![method("show", fresh_scheme(&["a"], Vec::new(), fun(tv("a"), star("String"))))],
        &[],
    );
    let ghost show_info = show;
    ctx.class_env.register_class(show);
    let functor = class(
        "Functor",
        "f",
        &[],
        vec![
            method(
                "fmap",
                fresh_scheme(
                    &["f", "a", "b"],
                    Vec::new(),
                    fun(fun(tv("a"), tv("b")), fun(app(tv("f"), tv("a")), app(tv("f"), tv("b")))),
                ),
            ),
        ],
        &[],
    );
    let ghost functor_info = functor;
    ctx.class_env.register_class(functor);
    let applicative = class(
        "Applicative",
        "f",
        &["Functor"],
        vec![
            method("pure", fresh_scheme(&["f", "a"], Vec::new(), fun(tv("a"), app(tv("f"), tv("a"))))),
            method(
                "<*>",
                fresh_scheme(
                    &["f", "a", "b"],
                    Vec::new(),
                    fun(app(tv("f"), fun(tv("a"), tv("b"))), fun(app(tv("f"), tv("a")), app(tv("f"), tv("b")))),
                ),
            ),
        ],
        &[],
    );
    let ghost applicative_info = applicative;
    ctx.class_env.register_class(applicative);
    let monad = class(
        "Monad",
        "m",
        &["Applicative"],
        vec![
            method(
                ">>=",
                fresh_scheme(
                    &["m", "a", "b"],
                    Vec::new(),
                    fun(app(tv("m"), tv("a")), fun(fun(tv("a"), app(tv("m"), tv("b"))), app(tv("m"), tv("b")))),
                ),
            ),
            method(
                ">>",
                fresh_scheme(
                    &["m", "a", "b"],
                    Vec::new(),
                    fun(app(tv("m"), tv("a")), fun(app(tv("m"), tv("b")), app(tv("m"), tv("b")))),
                ),
            ),
            method("return", fresh_scheme(&["m", "a"], Vec::new(), fun(tv("a"), app(tv("m"), tv("a"))))),
        ],
        &["return", ">>"],
    );
    let ghost monad_info = monad;
    ctx.class_env.register_class(monad);

    proof {
        reveal_strlit("Eq");
        reveal_strlit("Ord");
        reveal_strlit("Show");
        reveal_strlit("Functor");
        reveal_strlit("Applicative");
        reveal_strlit("Monad");
        reveal_strlit("a");
        reveal_strlit("f");
        reveal_strlit("m");
        reveal_strlit("==");
        reveal_strlit("/=");
        reveal_strlit("compare");
        reveal_strlit("<");
        reveal_strlit(">");
        reveal_strlit("<=");
        reveal_strlit(">=");
        reveal_strlit("show");
        reveal_strlit("fmap");
        reveal_strlit("pure");
        reveal_strlit("<*>");
        reveal_strlit(">>=");
        reveal_strlit(">>");
        reveal_strlit("return");
        let cl = ctx.class_env.classes@;
        assert("Eq"@.len() == 2);
        assert("Ord"@.len() == 3);
        assert("Show"@.len() == 4);
        assert("Monad"@.len() == 5);
        assert("Functor"@.len() == 7);
        assert("Applicative"@.len() == 11);
        assert(eq_info.superclasses@.map_values(|x: String| x@) =~= seq![]);
        assert(eq_info.methods@.len() == 2);
        assert(eq_info.methods@.map_values(|m: (String, Scheme)| m.0@) =~= seq!["=="@, "/="@]);
        assert(class_installed(cl, "Eq"@, "a"@, seq![], seq!["=="@, "/="@]));
        assert(ord_info.superclasses@.map_values(|x: String| x@) =~= seq!["Eq"@]);
        assert(ord_info.methods@.len() == 5);
        assert(ord_info.methods@.map_values(|m: (String, Scheme)| m.0@) =~= seq!["compare"@, "<"@, ">"@, "<="@, ">="@]);
        assert(class_installed(cl, "Ord"@, "a"@, seq!["Eq"@], seq!["compare"@, "<"@, ">"@, "<="@, ">="@]));
        assert(show_info.superclasses@.map_values(|x: String| x@) =~= seq![]);
        assert(show_info.methods@.len() == 1);
        assert(show_info.methods@.map_values(|m: (String, Scheme)| m.0@) =~= seq!["show"@]);
        assert(class_installed(cl, "Show"@, "a"@, seq![], seq!["show"@]));
        assert(functor_info.superclasses@.map_values(|x: String| x@) =~= seq![]);
        assert(functor_info.methods@.len() == 1);
        assert(functor_info.methods@.map_values(|m: (String, Scheme)| m.0@) =~= seq!["fmap"@]);
        assert(class_installed(cl, "Functor"@, "f"@, seq![], seq!["fmap"@]));
        assert(applicative_info.superclasses@.map_values(|x: String| x@) =~= seq!["Functor"@]);
        assert(applicative_info.methods@.len() == 2);
        assert(applicative_info.methods@.map_values(|m: (String, Scheme)| m.0@) =~= seq!["pure"@, "<*>"@]);
        assert(class_installed(cl, "Applicative"@, "f"@, seq!["Functor"@], seq!["pure"@, "<*>"@]));
        assert(monad_info.superclasses@.map_values(|x: String| x@) =~= seq!["Applicative"@]);
        assert(monad_info.methods@.len() == 3);
        assert(monad_info.methods@.map_values(|m: (String, Scheme)| m.0@) =~= seq![">>="@, ">>"@, "return"@]);
        assert(class_installed(cl, "Monad"@, "m"@, seq!["Applicative"@], seq![">>="@, ">>"@, "return"@]));
    }
    let ghost classes_here = ctx.class_env.classes@;
    proof {
        if old(ctx).class_env.classes@.len() == 0 {
            assert(classes_here.len() == 6);
            assert(classes_here[0].1 == eq_info);
            assert(classes_here[0].0@ == "Eq"@);
        }
    }
    promote_class_methods(ctx);
    proof {
        if old(ctx).class_env.classes@.len() == 0 {
            let cl = classes_here;
            assert(cl[0].1.methods@[0].0@ == "=="@);
            let g = globals_get(ctx.type_env.globals@, "Prelude"@, "=="@);
            let sch = g->0;
            assert(class_method_global(cl, "=="@, sch));
            let (c2, m2) = choose|c2: int, m2: int|
                0 <= c2 < cl.len() && 0 <= m2 < cl[c2].1.methods@.len() && (#[trigger] cl[c2].1.methods@[m2]).0@ == "=="@
                    && promoted_from(cl[c2].0@, cl[c2].1, cl[c2].1.methods@[m2].1, sch);
            assert(cl[c2].1.methods@.map_values(|m: (String, Scheme)| m.0@)[m2] == "=="@);
            assert(cl[1].1 == ord_info);
            assert(cl[2].1 == show_info);
            assert(cl[3].1 == functor_info);
            assert(cl[4].1 == applicative_info);
            assert(cl[5].1 == monad_info);
            assert("=="@.len() == 2 && "=="@[0] == '=' && "=="@[1] == '=');
            if c2 == 1 {
                assert(seq!["compare"@, "<"@, ">"@, "<="@, ">="@][m2] == "=="@);
                assert(false);
            } else if c2 == 2 {
                assert(seq!["show"@][m2] == "=="@);
                assert(false);
            } else if c2 == 3 {
                assert(seq!["fmap"@][m2] == "=="@);
                assert(false);
            } else if c2 == 4 {
                assert(seq!["pure"@, "<*>"@][m2] == "=="@);
                assert(false);
            } else if c2 == 5 {
                assert(seq![">>="@, ">>"@, "return"@][m2] == "=="@);
                assert(false);
            }
            assert(c2 == 0);
            assert(seq!["=="@, "/="@][m2] == "=="@);
            assert(m2 == 0);
            reveal(made_fresh);
            reveal_strlit("a");
            reveal_strlit("Eq");
            reveal_strlit("Bool");
            reveal_strlit("==");
            let ms = eq_info.methods@[0].1;
            reveal_with_fuel(maps_vars, 4);
            reveal_with_fuel(super::ty::ty_view, 4);
            reveal_with_fuel(renamed_var_image, 2);
            assert(ms.vars@.len() == 1);
            assert(ms.vars@[0].id == 10000 && ms.vars@[0].name@ == "a"@);
            assert(ms.context@.len() == 0);
            assert(promoted_from("Eq"@, eq_info, ms, sch));
            assert(sch.vars@ == ms.vars@);
            assert(first_named_id(ms.vars@, "a"@) == 10000);
            assert(sch.context@.len() == 1);
            assert(sch.body@ == ms.body@);
            assert(ms.body@ == TyView::Fun(
                Box::new(TyView::Var(10000)),
                Box::new(TyView::Fun(Box::new(TyView::Var(10000)), Box::new(TyView::Con("Bool"@)))),
            ));
            assert(eq_method_scheme(g));
        }
    }
    let ghost eq_global = globals_get(ctx.type_env.globals@, "Prelude"@, "=="@);

    let int_binop = || Scheme::mono(fun(star("Int"), fun(star("Int"), star("Int"))));
    proof {
        reveal_strlit("==");
        assert("=="@.len() == 2 && "=="@[0] == '=');
        reveal_strlit("+");
        reveal_strlit("-");
        reveal_strlit("*");
        reveal_strlit("/");
        reveal_strlit("%");
        reveal_strlit("negate");
        reveal_strlit("&&");
        reveal_strlit("||");
        reveal_strlit("not");
        reveal_strlit("++");
        reveal_strlit("::");
        reveal_strlit("id");
        reveal_strlit("const");
        reveal_strlit("compose");
        reveal_strlit("flip");
        reveal_strlit("map");
        reveal_strlit("filter");
        reveal_strlit("foldr");
        reveal_strlit("foldl");
        reveal_strlit("concat");
        reveal_strlit("concatMap");
        reveal_strlit("length");
        reveal_strlit("head");
        reveal_strlit("tail");
        reveal_strlit("null");
        reveal_strlit("fst");
        reveal_strlit("snd");
        reveal_strlit("maybe");
        reveal_strlit("fromMaybe");
        reveal_strlit("result");
        reveal_strlit("mapErr");
        reveal_strlit("readInt");
        reveal_strlit("join");
        reveal_strlit("when");
        reveal_strlit("unless");
        reveal_strlit("print");
        assert("+"@.len() == 1);
        assert("+"@ != "=="@);
        assert("-"@.len() == 1);
        assert("-"@ != "=="@);
        assert("*"@.len() == 1);
        assert("*"@ != "=="@);
        assert("/"@.len() == 1);
        assert("/"@ != "=="@);
        assert("%"@.len() == 1);
        assert("%"@ != "=="@);
        assert("negate"@.len() == 6);
        assert("negate"@ != "=="@);
        assert("&&"@.len() == 2);
        assert("&&"@[0] == '&');
        assert("&&"@ != "=="@);
        assert("||"@.len() == 2);
        assert("||"@[0] == '|');
        assert("||"@ != "=="@);
        assert("not"@.len() == 3);
        assert("not"@ != "=="@);
        assert("++"@.len() == 2);
        assert("++"@[0] == '+');
        assert("++"@ != "=="@);
        assert("::"@.len() == 2);
        assert("::"@[0] == ':');
        assert("::"@ != "=="@);
        assert("id"@.len() == 2);
        assert("id"@[0] == 'i');
        assert("id"@ != "=="@);
        assert("const"@.len() == 5);
        assert("const"@ != "=="@);
        assert("compose"@.len() == 7);
        assert("compose"@ != "=="@);
        assert("flip"@.len() == 4);
        assert("flip"@ != "=="@);
        assert("map"@.len() == 3);
        assert("map"@ != "=="@);
        assert("filter"@.len() == 6);
        assert("filter"@ != "=="@);
        assert("foldr"@.len() == 5);
        assert("foldr"@ != "=="@);
        assert("foldl"@.len() == 5);
        assert("foldl"@ != "=="@);
        assert("concat"@.len() == 6);
        assert("concat"@ != "=="@);
        assert("concatMap"@.len() == 9);
        assert("concatMap"@ != "=="@);
        assert("length"@.len() == 6);
        assert("length"@ != "=="@);
        assert("head"@.len() == 4);
        assert("head"@ != "=="@);
        assert("tail"@.len() == 4);
        assert("tail"@ != "=="@);
        assert("null"@.len() == 4);
        assert("null"@ != "=="@);
        assert("fst"@.len() == 3);
        assert("fst"@ != "=="@);
        assert("snd"@.len() == 3);
        assert("snd"@ != "=="@);
        assert("maybe"@.len() == 5);
        assert("maybe"@ != "=="@);
        assert("fromMaybe"@.len() == 9);
        assert("fromMaybe"@ != "=="@);
        assert("result"@.len() == 6);
        assert("result"@ != "=="@);
        assert("mapErr"@.len() == 6);
        assert("mapErr"@ != "=="@);
        assert("readInt"@.len() == 7);
        assert("readInt"@ != "=="@);
        assert("join"@.len() == 4);
        assert("join"@ != "=="@);
        assert("when"@.len() == 4);
        assert("when"@ != "=="@);
        assert("unless"@.len() == 6);
        assert("unless"@ != "=="@);
        assert("print"@.len() == 5);
        assert("print"@ != "=="@);
    }
    add_prelude(ctx, "+", int_binop());
    assert(globals_get(ctx.type_env.globals@, "Prelude"@, "=="@) == eq_global);
    add_prelude(ctx, "-", int_binop());
    assert(globals_get(ctx.type_env.globals@, "Prelude"@, "=="@) == eq_global);
    add_prelude(ctx, "*", int_binop());
    assert(globals_get(ctx.type_env.globals@, "Prelude"@, "=="@) == eq_global);
    add_prelude(ctx, "/", int_binop());
    assert(globals_get(ctx.type_env.globals@, "Prelude"@, "=="@) == eq_global);
    add_prelude(ctx, "%", int_binop());
    assert(globals_get(ctx.type_env.globals@, "Prelude"@, "=="@) == eq_global);
    add_prelude(ctx, "negate", Scheme::mono(fun(star("Int"), star("Int"))));
    assert(globals_get(ctx.type_env.globals@, "Prelude"@, "=="@) == eq_global);
    add_prelude(ctx, "&&", Scheme::mono(fun(star("Bool"), fun(star("Bool"), star("Bool")))));
    assert(globals_get(ctx.type_env.globals@, "Prelude"@, "=="@) == eq_global);
    add_prelude(ctx, "||", Scheme::mono(fun(star("Bool"), fun(star("Bool"), star("Bool")))));
    assert(globals_get(ctx.type_env.globals@, "Prelude"@, "=="@) == eq_global);
    add_prelude(ctx, "not", Scheme::mono(fun(star("Bool"), star("Bool"))));
    assert(globals_get(ctx.type_env.globals@, "Prelude"@, "=="@) == eq_global);
    add_prelude(ctx, "++", Scheme::mono(fun(star("String"), fun(star("String"), star("String")))));
    assert(globals_get(ctx.type_env.globals@, "Prelude"@, "=="@) == eq_global);
    add_prelude(ctx, "::", fresh_scheme(&["a"], Vec::new(), fun(tv("a"), fun(list(tv("a")), list(tv("a"))))));
    assert(globals_get(ctx.type_env.globals@, "Prelude"@, "=="@) == eq_global);
    add_prelude(ctx, "id", fresh_scheme(&["a"], Vec::new(), fun(tv("a"), tv("a"))));
    assert(globals_get(ctx.type_env.globals@, "Prelude"@, "=="@) == eq_global);
    add_prelude(ctx, "const", fresh_scheme(&["a", "b"], Vec::new(), fun(tv("a"), fun(tv("b"), tv("a")))));
    assert(globals_get(ctx.type_env.globals@, "Prelude"@, "=="@) == eq_global);
    add_prelude(
        ctx,
        "compose",
        fresh_scheme(
            &["a", "b", "c"],
            Vec::new(),
            fun(fun(tv("b"), tv("c")), fun(fun(tv("a"), tv("b")), fun(tv("a"), tv("c")))),
        ),
    );
    assert(globals_get(ctx.type_env.globals@, "Prelude"@, "=="@) == eq_global);
    add_prelude(
        ctx,
        "flip",
        fresh_scheme(
            &["a", "b", "c"],
            Vec::new(),
            fun(fun(tv("a"), fun(tv("b"), tv("c"))), fun(tv("b"), fun(tv("a"), tv("c")))),
        ),
    );
    assert(globals_get(ctx.type_env.globals@, "Prelude"@, "=="@) == eq_global);
    add_prelude(
        ctx,
        "map",
        fresh_scheme(&["a", "b"], Vec::new(), fun(fun(tv("a"), tv("b")), fun(list(tv("a")), list(tv("b"))))),
    );
    assert(globals_get(ctx.type_env.globals@, "Prelude"@, "=="@) == eq_global);
    add_prelude(
        ctx,
        "filter",
        fresh_scheme(&["a"], Vec::new(), fun(fun(tv("a"), star("Bool")), fun(list(tv("a")), list(tv("a"))))),
    );
    assert(globals_get(ctx.type_env.globals@, "Prelude"@, "=="@) == eq_global);
    add_prelude(
        ctx,
        "foldr",
        fresh_scheme(
            &["a", "b"],
            Vec::new(),
            fun(fun(tv("a"), fun(tv("b"), tv("b"))), fun(tv("b"), fun(list(tv("a")), tv("b")))),
        ),
    );
    assert(globals_get(ctx.type_env.globals@, "Prelude"@, "=="@) == eq_global);
    add_prelude(
        ctx,
        "foldl",
        fresh_scheme(
            &["a", "b"],
            Vec::new(),
            fun(fun(tv("b"), fun(tv("a"), tv("b"))), fun(tv("b"), fun(list(tv("a")), tv("b")))),
        ),
    );
    assert(globals_get(ctx.type_env.globals@, "Prelude"@, "=="@) == eq_global);
    add_prelude(ctx, "concat", fresh_scheme(&["a"], Vec::new(), fun(list(list(tv("a"))), list(tv("a")))));
    assert(globals_get(ctx.type_env.globals@, "Prelude"@, "=="@) == eq_global);
    add_prelude(
        ctx,
        "concatMap",
        fresh_scheme(&["a", "b"], Vec::new(), fun(fun(tv("a"), list(tv("b"))), fun(list(tv("a")), list(tv("b"))))),
    );
    assert(globals_get(ctx.type_env.globals@, "Prelude"@, "=="@) == eq_global);
    add_prelude(ctx, "length", fresh_scheme(&["a"], Vec::new(), fun(list(tv("a")), star("Int"))));
    assert(globals_get(ctx.type_env.globals@, "Prelude"@, "=="@) == eq_global);
    add_prelude(ctx, "head", fresh_scheme(&["a"], Vec::new(), fun(list(tv("a")), maybe(tv("a")))));
    assert(globals_get(ctx.type_env.globals@, "Prelude"@, "=="@) == eq_global);
    add_prelude(ctx, "tail", fresh_scheme(&["a"], Vec::new(), fun(list(tv("a")), maybe(list(tv("a"))))));
    assert(globals_get(ctx.type_env.globals@, "Prelude"@, "=="@) == eq_global);
    add_prelude(ctx, "null", fresh_scheme(&["a"], Vec::new(), fun(list(tv("a")), star("Bool"))));
    assert(globals_get(ctx.type_env.globals@, "Prelude"@, "=="@) == eq_global);
    let fst_fields = vec![(s("fst"), tv("a")), (s("snd"), tv("b"))];
    let ghost fst_fields_v = fst_fields@;
    let fst_record = Ty::record(fst_fields);
    let ghost fst_record_v = fst_record;
    let fst_result = tv("a");
    let ghost fst_result_v = fst_result;
    let fst_scheme = fresh_scheme(&["a", "b"], Vec::new(), fun(fst_record, fst_result));
    proof {
        reveal_strlit("fst");
        reveal_strlit("a");
        assert(fst_fields_v[0].0@ == "fst"@);
        lemma_accessor_scheme(fst_fields_v, fst_record_v, fst_result_v, fst_scheme, "fst"@, 0);
    }
    add_prelude(ctx, "fst", fst_scheme);
    let ghost fst_global = globals_get(ctx.type_env.globals@, "Prelude"@, "fst"@);
    assert(globals_get(ctx.type_env.globals@, "Prelude"@, "=="@) == eq_global);
    let snd_fields = vec![(s("fst"), tv("a")), (s("snd"), tv("b"))];
    let ghost snd_fields_v = snd_fields@;
    let snd_record = Ty::record(snd_fields);
    let ghost snd_record_v = snd_record;
    let snd_result = tv("b");
    let ghost snd_result_v = snd_result;
    let snd_scheme = fresh_scheme(&["a", "b"], Vec::new(), fun(snd_record, snd_result));
    proof {
        reveal_strlit("snd");
        reveal_strlit("b");
        assert(snd_fields_v[1].0@ == "snd"@);
        lemma_accessor_scheme(snd_fields_v, snd_record_v, snd_result_v, snd_scheme, "snd"@, 1);
    }
    proof {
        assert("fst"@.len() == 3 && "fst"@[0] == 'f' && "snd"@.len() == 3 && "snd"@[0] == 's');
    }
    add_prelude(ctx, "snd", snd_scheme);
    let ghost snd_global = globals_get(ctx.type_env.globals@, "Prelude"@, "snd"@);
    assert(globals_get(ctx.type_env.globals@, "Prelude"@, "fst"@) == fst_global);
    assert(globals_get(ctx.type_env.globals@, "Prelude"@, "=="@) == eq_global);
    assert(globals_get(ctx.type_env.globals@, "Prelude"@, "fst"@) == fst_global);
    assert(globals_get(ctx.type_env.globals@, "Prelude"@, "snd"@) == snd_global);
    add_prelude(
        ctx,
        "maybe",
        fresh_scheme(
            &["a", "b"],
            Vec::new(),
            fun(tv("b"), fun(fun(tv("a"), tv("b")), fun(maybe(tv("a")), tv("b")))),
        ),
    );
    assert(globals_get(ctx.type_env.globals@, "Prelude"@, "=="@) == eq_global);
    assert(globals_get(ctx.type_env.globals@, "Prelude"@, "fst"@) == fst_global);
    assert(globals_get(ctx.type_env.globals@, "Prelude"@, "snd"@) == snd_global);
    add_prelude(ctx, "fromMaybe", fresh_scheme(&["a"], Vec::new(), fun(tv("a"), fun(maybe(tv("a")), tv("a")))));
    assert(globals_get(ctx.type_env.globals@, "Prelude"@, "=="@) == eq_global);
    assert(globals_get(ctx.type_env.globals@, "Prelude"@, "fst"@) == fst_global);
    assert(globals_get(ctx.type_env.globals@, "Prelude"@, "snd"@) == snd_global);
    add_prelude(
        ctx,
        "result",
        fresh_scheme(
            &["a", "b", "e"],
            Vec::new(),
            fun(fun(tv("e"), tv("b")), fun(fun(tv("a"), tv("b")), fun(result(tv("e"), tv("a")), tv("b")))),
        ),
    );
    assert(globals_get(ctx.type_env.globals@, "Prelude"@, "=="@) == eq_global);
    assert(globals_get(ctx.type_env.globals@, "Prelude"@, "fst"@) == fst_global);
    assert(globals_get(ctx.type_env.globals@, "Prelude"@, "snd"@) == snd_global);
    add_prelude(
        ctx,
        "mapErr",
        fresh_scheme(
            &["e", "e2", "a"],
            Vec::new(),
            fun(fun(tv("e"), tv("e2")), fun(result(tv("e"), tv("a")), result(tv("e2"), tv("a")))),
        ),
    );
    assert(globals_get(ctx.type_env.globals@, "Prelude"@, "=="@) == eq_global);
    assert(globals_get(ctx.type_env.globals@, "Prelude"@, "fst"@) == fst_global);
    assert(globals_get(ctx.type_env.globals@, "Prelude"@, "snd"@) == snd_global);
    add_prelude(ctx, "readInt", Scheme::mono(fun(star("String"), maybe(star("Int")))));
    assert(globals_get(ctx.type_env.globals@, "Prelude"@, "=="@) == eq_global);
    assert(globals_get(ctx.type_env.globals@, "Prelude"@, "fst"@) == fst_global);
    assert(globals_get(ctx.type_env.globals@, "Prelude"@, "snd"@) == snd_global);
    add_prelude(
        ctx,
        "join",
        fresh_scheme(
            &["m", "a"],
            vec![("Monad", tv("m"))],
            fun(app(tv("m"), app(tv("m"), tv("a"))), app(tv("m"), tv("a"))),
        ),
    );
    assert(globals_get(ctx.type_env.globals@, "Prelude"@, "=="@) == eq_global);
    assert(globals_get(ctx.type_env.globals@, "Prelude"@, "fst"@) == fst_global);
    assert(globals_get(ctx.type_env.globals@, "Prelude"@, "snd"@) == snd_global);
    add_prelude(
        ctx,
        "when",
        fresh_scheme(
            &["f"],
            vec![("Applicative", tv("f"))],
            fun(star("Bool"), fun(app(tv("f"), unit()), app(tv("f"), unit()))),
        ),
    );
    assert(globals_get(ctx.type_env.globals@, "Prelude"@, "=="@) == eq_global);
    assert(globals_get(ctx.type_env.globals@, "Prelude"@, "fst"@) == fst_global);
    assert(globals_get(ctx.type_env.globals@, "Prelude"@, "snd"@) == snd_global);
    add_prelude(
        ctx,
        "unless",
        fresh_scheme(
            &["f"],
            vec![("Applicative", tv("f"))],
            fun(star("Bool"), fun(app(tv("f"), unit()), app(tv("f"), unit()))),
        ),
    );
    assert(globals_get(ctx.type_env.globals@, "Prelude"@, "=="@) == eq_global);
    assert(globals_get(ctx.type_env.globals@, "Prelude"@, "fst"@) == fst_global);
    assert(globals_get(ctx.type_env.globals@, "Prelude"@, "snd"@) == snd_global);
    add_prelude(
        ctx,
        "print",
        fresh_scheme(&["a"], vec![("Show", tv("a"))], fun(tv("a"), result(star("String"), unit()))),
    );
    assert(globals_get(ctx.type_env.globals@, "Prelude"@, "=="@) == eq_global);
    assert(globals_get(ctx.type_env.globals@, "Prelude"@, "fst"@) == fst_global);
    assert(globals_get(ctx.type_env.globals@, "Prelude"@, "snd"@) == snd_global);
    assert(ctx.class_env.classes@ == classes_here);
    assert(globals_get(ctx.type_env.globals@, "Prelude"@, "=="@) == eq_global);
    let ghost before = ctx.class_env.instances@;
    install_prelude_instances(ctx);
    assert(inst_rows(ctx.class_env.instances@) == inst_rows(before) + prelude_instance_rows());
}

/// Make each class method a prelude global, its scheme constrained by
/// the class on the class's variable.
fn promote_class_methods(ctx: &mut InferCtx)
    requires
        old(ctx).wf(),
    ensures
        final(ctx).wf(),
        final(ctx).module == old(ctx).module,
        final(ctx).inferred == old(ctx).inferred,
        final(ctx).class_env == old(ctx).class_env,
        forall|c: int, m: int|
            0 <= c < old(ctx).class_env.classes@.len() && 0 <= m < old(ctx).class_env.classes@[c].1.methods@.len()
                ==> globals_get(
                final(ctx).type_env.globals@,
                "Prelude"@,
                (#[trigger] old(ctx).class_env.classes@[c].1.methods@[m]).0@,
            ) is Some,
        forall|c: int, m: int|
            0 <= c < old(ctx).class_env.classes@.len() && 0 <= m < old(ctx).class_env.classes@[c].1.methods@.len()
                ==> (globals_get(
                final(ctx).type_env.globals@,
                "Prelude"@,
                (#[trigger] old(ctx).class_env.classes@[c].1.methods@[m]).0@,
            ) matches Some(sch) && class_method_global(
                old(ctx).class_env.classes@,
                old(ctx).class_env.classes@[c].1.methods@[m].0@,
                sch,
            )),
{
    let ghost cls = ctx.class_env.classes@;
    let mut promoted: Vec<(String, Scheme)> = Vec::new();
    let mut c: usize = 0;
    while c < ctx.class_env.classes.len()
        invariant
            c <= ctx.class_env.classes@.len(),
            cls == ctx.class_env.classes@,
            forall|c2: int, m2: int|
                0 <= c2 < c && 0 <= m2 < cls[c2].1.methods@.len() ==> table_keys(promoted@).contains(
                    (#[trigger] cls[c2].1.methods@[m2]).0@,
                ),
            forall|t: int| 0 <= t < promoted@.len() ==> class_method_global(cls, (#[trigger] promoted@[t]).0@, promoted@[t].1),
        decreases ctx.class_env.classes.len() - c,
    {
        let cname = &ctx.class_env.classes[c].0;
        let cinfo = &ctx.class_env.classes[c].1;
        let ghost p_start = promoted@;
        let mut m: usize = 0;
        while m < cinfo.methods.len()
            invariant
                m <= cinfo.methods@.len(),
                *cinfo == cls[c as int].1,
                c < cls.len(),
                promoted@.len() >= p_start.len(),
                forall|t: int| 0 <= t < p_start.len() ==> promoted@[t] == p_start[t],
                forall|m2: int| 0 <= m2 < m ==> table_keys(promoted@).contains((#[trigger] cinfo.methods@[m2]).0@),
                forall|t: int| 0 <= t < promoted@.len() ==> class_method_global(cls, (#[trigger] promoted@[t]).0@, promoted@[t].1),
                *cname == cls[c as int].0,
            decreases cinfo.methods.len() - m,
        {
            let ghost p_m = promoted@;
            let mname = &cinfo.methods[m].0;
            let mscheme = &cinfo.methods[m].1;
            let mut found: Option<TyVar> = None;
            let mut v: usize = 0;
            proof {
                assert(mscheme.vars@.skip(0) =~= mscheme.vars@);
            }
            while v < mscheme.vars.len() && found.is_none()
                invariant
                    v <= mscheme.vars@.len(),
                    found is None ==> first_named_id(mscheme.vars@, cinfo.type_var@) == first_named_id(
                        mscheme.vars@.skip(v as int),
                        cinfo.type_var@,
                    ),
                    found matches Some(t) ==> t.id == first_named_id(mscheme.vars@, cinfo.type_var@),
                decreases mscheme.vars.len() - v,
            {
                proof {
                    assert(mscheme.vars@.skip(v as int).drop_first() =~= mscheme.vars@.skip(v + 1));
                    assert(mscheme.vars@.skip(v as int)[0] == mscheme.vars@[v as int]);
                }
                if mscheme.vars[v].name.eq(&cinfo.type_var) {
                    found = Some(mscheme.vars[v].clone());
                }
                v = v + 1;
            }
            proof {
                if found is None {
                    assert(mscheme.vars@.skip(v as int).len() == 0);
                }
            }
            let tyvar = match found {
                Some(t) => t,
                None => TyVar { id: 20000, name: cinfo.type_var.clone() },
            };
            let mut context: Vec<Constraint> = Vec::new();
            let mut q: usize = 0;
            while q < mscheme.context.len()
                invariant
                    q <= mscheme.context@.len(),
                    context@.len() == q,
                decreases mscheme.context.len() - q,
            {
                context.push(mscheme.context[q].clone());
                q = q + 1;
            }
            let cst = Constraint { class: cname.clone(), arg: Ty::Var(tyvar) };
            let mut dup = false;
            let mut d: usize = 0;
            while d < context.len()
                invariant
                    d <= context@.len(),
                    context@.len() == 0 ==> !dup,
                decreases context.len() - d,
            {
                if same_constraint(&context[d], &cst) {
                    dup = true;
                }
                d = d + 1;
            }
            if !dup {
                context.push(cst);
            }
            let mut vars: Vec<TyVar> = Vec::new();
            let mut w: usize = 0;
            while w < mscheme.vars.len()
                invariant
                    w <= mscheme.vars@.len(),
                    vars@ == mscheme.vars@.take(w as int),
                decreases mscheme.vars.len() - w,
            {
                vars.push(mscheme.vars[w].clone());
                proof {
                    assert(mscheme.vars@.take(w + 1) =~= mscheme.vars@.take(w as int).push(mscheme.vars@[w as int]));
                }
                w = w + 1;
            }
            proof {
                assert(mscheme.vars@.take(w as int) =~= mscheme.vars@);
            }
            let entry = (mname.clone(), Scheme { vars, context, body: mscheme.body.clone() });
            proof {
                assert(cinfo.methods@[m as int].1 == *mscheme);
                assert(promoted_from(cls[c as int].0@, cls[c as int].1, cls[c as int].1.methods@[m as int].1, entry.1));
                assert(class_method_global(cls, entry.0@, entry.1));
            }
            let ghost p_before = promoted@;
            promoted.push(entry);
            proof {
                assert forall|t: int| 0 <= t < promoted@.len() implies class_method_global(cls, (#[trigger] promoted@[t]).0@, promoted@[t].1) by {
                    if t < p_before.len() {
                        assert(promoted@[t] == p_before[t]);
                    }
                }
            }
            proof {
                assert(table_keys(promoted@)[p_m.len() as int] == cinfo.methods@[m as int].0@);
                assert forall|m2: int| 0 <= m2 < m + 1 implies table_keys(promoted@).contains(
                    (#[trigger] cinfo.methods@[m2]).0@,
                ) by {
                    if m2 < m {
                        let t = choose|t: int| 0 <= t < p_m.len() && table_keys(p_m)[t] == cinfo.methods@[m2].0@;
                        assert(table_keys(promoted@)[t] == table_keys(p_m)[t]);
                    }
                }
            }
            m = m + 1;
        }
        proof {
            assert forall|c2: int, m2: int|
                0 <= c2 < c + 1 && 0 <= m2 < cls[c2].1.methods@.len() implies table_keys(promoted@).contains(
                (#[trigger] cls[c2].1.methods@[m2]).0@,
            ) by {
                if c2 < c {
                    let t = choose|t: int| 0 <= t < p_start.len() && table_keys(p_start)[t] == cls[c2].1.methods@[m2].0@;
                    assert(table_keys(promoted@)[t] == table_keys(p_start)[t]);
                } else {
                    assert(cinfo.methods@[m2] == cls[c2].1.methods@[m2]);
                }
            }
        }
        c = c + 1;
    }
    let ghost all = promoted@;
    let ghost mut j: int = 0;
    assert(all.skip(0) =~= all);
    while promoted.len() > 0
        invariant
            ctx.wf(),
            ctx.module == old(ctx).module,
            ctx.inferred == old(ctx).inferred,
            ctx.class_env == old(ctx).class_env,
            0 <= j <= all.len(),
            promoted@ == all.skip(j),
            forall|q: int| 0 <= q < j ==> globals_get(ctx.type_env.globals@, "Prelude"@, (#[trigger] all[q]).0@) is Some,
            forall|q: int| 0 <= q < j ==> exists|t: int| 0 <= t < j && #[trigger] all[t].0@ == (#[trigger] all[q]).0@ && globals_get(ctx.type_env.globals@, "Prelude"@, all[q].0@) == Some(all[t].1),
        decreases promoted.len(),
    {
        let ghost p0 = promoted@;
        let (name, sch) = promoted.remove(0);
        proof {
            assert(p0[0] == all.skip(j)[0]);
            assert(name@ == all[j].0@);
        }
        let ghost g0 = ctx.type_env.globals@;
        let key = GlobalId::new(s("Prelude"), name);
        ctx.type_env.insert_global(key, sch);
        proof {
            assert(promoted@ =~= all.skip(j + 1));
            assert forall|q: int| 0 <= q < j + 1 implies globals_get(ctx.type_env.globals@, "Prelude"@, (#[trigger] all[q]).0@) is Some by {
                if q < j && all[q].0@ != all[j].0@ {
                    assert(globals_get(ctx.type_env.globals@, "Prelude"@, all[q].0@) == globals_get(g0, "Prelude"@, all[q].0@));
                }
            }
            assert forall|q: int| 0 <= q < j + 1 implies exists|t: int| 0 <= t < j + 1 && #[trigger] all[t].0@ == (#[trigger] all[q]).0@ && globals_get(ctx.type_env.globals@, "Prelude"@, all[q].0@) == Some(all[t].1) by {
                if all[q].0@ == all[j].0@ {
                    assert(all[j].0@ == all[q].0@ && globals_get(ctx.type_env.globals@, "Prelude"@, all[q].0@) == Some(all[j].1));
                } else {
                    assert(globals_get(ctx.type_env.globals@, "Prelude"@, all[q].0@) == globals_get(g0, "Prelude"@, all[q].0@));
                    let t = choose|t: int| 0 <= t < j && #[trigger] all[t].0@ == all[q].0@ && globals_get(g0, "Prelude"@, all[q].0@) == Some(all[t].1);
                    assert(all[t].0@ == all[q].0@);
                }
            }
            j = j + 1;
        }
    }
    proof {
        assert(j == all.len()) by {
            assert(all.skip(j).len() == 0);
        }
        assert forall|c: int, m: int|
            0 <= c < cls.len() && 0 <= m < cls[c].1.methods@.len() implies globals_get(
            ctx.type_env.globals@,
            "Prelude"@,
            (#[trigger] cls[c].1.methods@[m]).0@,
        ) is Some by {
            let t = choose|t: int| 0 <= t < all.len() && table_keys(all)[t] == cls[c].1.methods@[m].0@;
            assert(all[t].0@ == cls[c].1.methods@[m].0@);
        }
        assert forall|c: int, m: int|
            0 <= c < cls.len() && 0 <= m < cls[c].1.methods@.len() implies (globals_get(
            ctx.type_env.globals@,
            "Prelude"@,
            (#[trigger] cls[c].1.methods@[m]).0@,
        ) matches Some(sch) && class_method_global(cls, cls[c].1.methods@[m].0@, sch)) by {
            let t = choose|t: int| 0 <= t < all.len() && table_keys(all)[t] == cls[c].1.methods@[m].0@;
            assert(all[t].0@ == cls[c].1.methods@[m].0@);
            let t2 = choose|t2: int| 0 <= t2 < all.len() && #[trigger] all[t2].0@ == all[t].0@ && globals_get(ctx.type_env.globals@, "Prelude"@, all[t].0@) == Some(all[t2].1);
            assert(class_method_global(cls, all[t2].0@, all[t2].1));
        }
    }
}

/// The id of the first of `vars` named `tv`, or 20000 when none is.
pub open spec fn first_named_id(vars: Seq<TyVar>, tv: Seq<char>) -> u32
    decreases vars.len(),
{
    if vars.len() == 0 {
        20000
    } else if vars[0].name@ == tv {
        vars[0].id
    } else {
        first_named_id(vars.drop_first(), tv)
    }
}

/// `out` is the method scheme `m` of the class `cname` (with `ci`) as a
/// global: the same variables and body, and for a method without its
/// own context, the class constraint on the class's type variable.
pub open spec fn promoted_from(cname: Seq<char>, ci: ClassInfo, m: Scheme, out: Scheme) -> bool {
    &&& out.vars@ == m.vars@
    &&& out.body@ == m.body@
    &&& m.context@.len() == 0 ==> (out.context@.len() == 1 && out.context@[0].class@ == cname
        && out.context@[0].arg@ == TyView::Var(first_named_id(m.vars@, ci.type_var@)))
}

/// `out` is the global form of a method named `name` of some class of
/// `cls`.
pub open spec fn class_method_global(cls: Seq<(String, ClassInfo)>, name: Seq<char>, out: Scheme) -> bool {
    exists|c: int, m: int|
        0 <= c < cls.len() && 0 <= m < cls[c].1.methods@.len() && (#[trigger] cls[c].1.methods@[m]).0@ == name
            && promoted_from(cls[c].0@, cls[c].1, cls[c].1.methods@[m].1, out)
}

fn add_inst(ctx: &mut InferCtx, class: &str, context: Vec<Constraint>, head: Ty, vars: Vec<TyVar>, methods: &[&str])
    requires
        old(ctx).wf(),
    ensures
        final(ctx).wf(),
        final(ctx).module == old(ctx).module,
        final(ctx).inferred == old(ctx).inferred,
        final(ctx).type_env == old(ctx).type_env,
        final(ctx).class_env.classes@ == old(ctx).class_env.classes@,
        final(ctx).class_env.instances@.len() == old(ctx).class_env.instances@.len() + 1,
        final(ctx).class_env.instances@.drop_last() == old(ctx).class_env.instances@,
        ({
            let i = final(ctx).class_env.instances@.last();
            &&& i.class@ == class@
            &&& i.context == context
            &&& i.head == head
            &&& i.vars == vars
            &&& i.methods@.len() == methods@.len()
            &&& forall|k: int| 0 <= k < methods@.len() ==> (#[trigger] i.methods@[k])@ == methods@[k]@
        }),
{
    ctx.class_env.register_instance(
        InstanceInfo { class: s(class), context, head, vars, methods: names(methods) },
    );
}

fn var(name: &str, id: u32) -> (r: TyVar)
    ensures
        r.id == id,
        r.name@ == name@,
{
    TyVar { id, name: s(name) }
}

fn on_var(class: &str, v: &TyVar) -> (r: Constraint)
    ensures
        r.class@ == class@,
        r.arg == Ty::Var(*v),
{
    Constraint { class: s(class), arg: Ty::Var(v.clone()) }
}

/// An instance by its class and head.
pub open spec fn inst_row(i: InstanceInfo) -> (Seq<char>, TyView) {
    (i.class@, i.head@)
}

/// The instances by class and head.
pub open spec fn inst_rows(v: Seq<InstanceInfo>) -> Seq<(Seq<char>, TyView)> {
    v.map_values(|i: InstanceInfo| inst_row(i))
}

proof fn lemma_rows_push(
    base: Seq<InstanceInfo>,
    prev: Seq<InstanceInfo>,
    cur: Seq<InstanceInfo>,
    acc: Seq<(Seq<char>, TyView)>,
)
    requires
        inst_rows(prev) == inst_rows(base) + acc,
        cur.len() == prev.len() + 1,
        cur.drop_last() == prev,
    ensures
        inst_rows(cur) == inst_rows(base) + acc.push(inst_row(cur.last())),
{
    assert(inst_rows(cur) =~= inst_rows(prev).push(inst_row(cur.last())));
    assert(inst_rows(cur) =~= inst_rows(base) + acc.push(inst_row(cur.last())));
}

/// `Eq`, `Ord` and `Show` for a primitive type.
pub open spec fn prim_rows(p: Seq<char>) -> Seq<(Seq<char>, TyView)> {
    seq![("Eq"@, TyView::Con(p)), ("Ord"@, TyView::Con(p)), ("Show"@, TyView::Con(p))]
}

/// The primitive-type instances of the first `n` primitive types.
pub open spec fn prims_rows(ps: Seq<Seq<char>>, n: int) -> Seq<(Seq<char>, TyView)>
    decreases n,
{
    if n <= 0 || n > ps.len() {
        Seq::empty()
    } else {
        prims_rows(ps, n - 1) + prim_rows(ps[n - 1])
    }
}

/// `T` applied to a variable.
pub open spec fn applied(t: Seq<char>, id: u32) -> TyView {
    TyView::App(Box::new(TyView::Con(t)), Box::new(TyView::Var(id)))
}

/// The prelude's instances by class and head, in the order installed:
/// `Eq`, `Ord` and `Show` for `Int`, `String`, `Bool` and `Ordering`,
/// for `Maybe a`, `Result e a` and `List a`; `Functor`, `Applicative`
/// and `Monad` for `Maybe`, `Result e`, `List` and `Ruby`.
pub open spec fn prelude_instance_rows() -> Seq<(Seq<char>, TyView)> {
    let result_ea = TyView::App(
        Box::new(TyView::App(Box::new(TyView::Con("Result"@)), Box::new(TyView::Var(30030)))),
        Box::new(TyView::Var(30031)),
    );
    prims_rows(seq!["Int"@, "String"@, "Bool"@, "Ordering"@], 4) + seq![
        ("Eq"@, applied("Maybe"@, 30001)),
        ("Ord"@, applied("Maybe"@, 30002)),
        ("Show"@, applied("Maybe"@, 30003)),
        ("Functor"@, TyView::Con("Maybe"@)),
        ("Applicative"@, TyView::Con("Maybe"@)),
        ("Monad"@, TyView::Con("Maybe"@)),
        ("Functor"@, applied("Result"@, 30020)),
        ("Applicative"@, applied("Result"@, 30021)),
        ("Monad"@, applied("Result"@, 30022)),
        ("Eq"@, result_ea),
        ("Ord"@, result_ea),
        ("Show"@, result_ea),
        ("Functor"@, TyView::Con("List"@)),
        ("Applicative"@, TyView::Con("List"@)),
        ("Monad"@, TyView::Con("List"@)),
        ("Eq"@, applied("List"@, 30040)),
        ("Ord"@, applied("List"@, 30041)),
        ("Show"@, applied("List"@, 30042)),
        ("Functor"@, TyView::Con("Ruby"@)),
        ("Applicative"@, TyView::Con("Ruby"@)),
        ("Monad"@, TyView::Con("Ruby"@)),
    ]
}

/// The prelude's instances.
#[verifier::rlimit(40)]
fn install_prelude_instances(ctx: &mut InferCtx)
    requires
        old(ctx).wf(),
    ensures
        final(ctx).wf(),
        final(ctx).module == old(ctx).module,
        final(ctx).inferred == old(ctx).inferred,
        final(ctx).type_env == old(ctx).type_env,
        final(ctx).class_env.classes@ == old(ctx).class_env.classes@,
        inst_rows(final(ctx).class_env.instances@) == inst_rows(old(ctx).class_env.instances@)
            + prelude_instance_rows(),
{
    let ghost i0 = ctx.class_env.instances@;
    let prims = ["Int", "String", "Bool", "Ordering"];
    let ghost pv = seq!["Int"@, "String"@, "Bool"@, "Ordering"@];
    proof {
        assert(prims@.map_values(|x: &str| x@) =~= pv);
    }
    let ghost mut acc: Seq<(Seq<char>, TyView)> = Seq::empty();
    assert(inst_rows(ctx.class_env.instances@) =~= inst_rows(i0) + acc);
    let mut i: usize = 0;
    while i < 4
        invariant
            ctx.wf(),
            ctx.module == old(ctx).module,
            ctx.inferred == old(ctx).inferred,
            ctx.type_env == old(ctx).type_env,
            ctx.class_env.classes@ == old(ctx).class_env.classes@,
            i0 == old(ctx).class_env.instances@,
            i <= 4,
            prims@.map_values(|x: &str| x@) == pv,
            pv == seq!["Int"@, "String"@, "Bool"@, "Ordering"@],
            acc == prims_rows(pv, i as int),
            inst_rows(ctx.class_env.instances@) == inst_rows(i0) + acc,
        decreases 4 - i,
    {
        let ghost p = pv[i as int];
        assert(prims@[i as int]@ == p);
        let ghost prev = ctx.class_env.instances@;
        add_inst(ctx, "Eq", Vec::new(), star(prims[i]), Vec::new(), &["==", "/="]);
        proof {
            lemma_rows_push(i0, prev, ctx.class_env.instances@, acc);
            acc = acc.push(inst_row(ctx.class_env.instances@.last()));
        }
        let ghost prev = ctx.class_env.instances@;
        add_inst(ctx, "Ord", Vec::new(), star(prims[i]), Vec::new(), &["compare"]);
        proof {
            lemma_rows_push(i0, prev, ctx.class_env.instances@, acc);
            acc = acc.push(inst_row(ctx.class_env.instances@.last()));
        }
        let ghost prev = ctx.class_env.instances@;
        add_inst(ctx, "Show", Vec::new(), star(prims[i]), Vec::new(), &["show"]);
        proof {
            lemma_rows_push(i0, prev, ctx.class_env.instances@, acc);
            acc = acc.push(inst_row(ctx.class_env.instances@.last()));
            assert(acc =~= prims_rows(pv, i + 1));
        }
        i = i + 1;
    }
    let ghost head_rows = acc;
    let a = var("a", 30001);
    let ghost prev = ctx.class_env.instances@;
    add_inst(ctx, "Eq", vec![on_var("Eq", &a)], maybe(Ty::Var(a.clone())), vec![a.clone()], &["==", "/="]);
    proof {
        lemma_rows_push(i0, prev, ctx.class_env.instances@, acc);
        acc = acc.push(inst_row(ctx.class_env.instances@.last()));
    }
    let a = var("a", 30002);
    let ghost prev = ctx.class_env.instances@;
    add_inst(ctx, "Ord", vec![on_var("Ord", &a)], maybe(Ty::Var(a.clone())), vec![a.clone()], &["compare"]);
    proof {
        lemma_rows_push(i0, prev, ctx.class_env.instances@, acc);
        acc = acc.push(inst_row(ctx.class_env.instances@.last()));
    }
    let a = var("a", 30003);
    let ghost prev = ctx.class_env.instances@;
    add_inst(ctx, "Show", vec![on_var("Show", &a)], maybe(Ty::Var(a.clone())), vec![a.clone()], &["show"]);
    proof {
        lemma_rows_push(i0, prev, ctx.class_env.instances@, acc);
        acc = acc.push(inst_row(ctx.class_env.instances@.last()));
    }
    let ghost prev = ctx.class_env.instances@;
    add_inst(ctx, "Functor", Vec::new(), con1("Maybe"), Vec::new(), &["fmap"]);
    proof {
        lemma_rows_push(i0, prev, ctx.class_env.instances@, acc);
        acc = acc.push(inst_row(ctx.class_env.instances@.last()));
    }
    let ghost prev = ctx.class_env.instances@;
    add_inst(ctx, "Applicative", Vec::new(), con1("Maybe"), Vec::new(), &["pure", "<*>"]);
    proof {
        lemma_rows_push(i0, prev, ctx.class_env.instances@, acc);
        acc = acc.push(inst_row(ctx.class_env.instances@.last()));
    }
    let ghost prev = ctx.class_env.instances@;
    add_inst(ctx, "Monad", Vec::new(), con1("Maybe"), Vec::new(), &[">>="]);
    proof {
        lemma_rows_push(i0, prev, ctx.class_env.instances@, acc);
        acc = acc.push(inst_row(ctx.class_env.instances@.last()));
    }

    let e = var("e", 30020);
    let ghost prev = ctx.class_env.instances@;
    add_inst(ctx, "Functor", Vec::new(), app(con2("Result"), Ty::Var(e.clone())), vec![e.clone()], &["fmap"]);
    proof {
        lemma_rows_push(i0, prev, ctx.class_env.instances@, acc);
        acc = acc.push(inst_row(ctx.class_env.instances@.last()));
    }
    let e = var("e", 30021);
    let ghost prev = ctx.class_env.instances@;
    add_inst(ctx, "Applicative", Vec::new(), app(con2("Result"), Ty::Var(e.clone())), vec![e.clone()], &["pure", "<*>"]);
    proof {
        lemma_rows_push(i0, prev, ctx.class_env.instances@, acc);
        acc = acc.push(inst_row(ctx.class_env.instances@.last()));
    }
    let e = var("e", 30022);
    let ghost prev = ctx.class_env.instances@;
    add_inst(ctx, "Monad", Vec::new(), app(con2("Result"), Ty::Var(e.clone())), vec![e.clone()], &[">>="]);
    proof {
        lemma_rows_push(i0, prev, ctx.class_env.instances@, acc);
        acc = acc.push(inst_row(ctx.class_env.instances@.last()));
    }
    let e = var("e", 30030);
    let a = var("a", 30031);
    let ghost prev = ctx.class_env.instances@;
    add_inst(
        ctx,
        "Eq",
        vec![on_var("Eq", &e), on_var("Eq", &a)],
        result(Ty::Var(e.clone()), Ty::Var(a.clone())),
        vec![e.clone(), a.clone()],
        &["==", "/="],
    );
    proof {
        lemma_rows_push(i0, prev, ctx.class_env.instances@, acc);
        acc = acc.push(inst_row(ctx.class_env.instances@.last()));
    }
    let ghost prev = ctx.class_env.instances@;
    add_inst(
        ctx,
        "Ord",
        vec![on_var("Ord", &e), on_var("Ord", &a)],
        result(Ty::Var(e.clone()), Ty::Var(a.clone())),
        vec![e.clone(), a.clone()],
        &["compare"],
    );
    proof {
        lemma_rows_push(i0, prev, ctx.class_env.instances@, acc);
        acc = acc.push(inst_row(ctx.class_env.instances@.last()));
    }
    let ghost prev = ctx.class_env.instances@;
    add_inst(
        ctx,
        "Show",
        vec![on_var("Show", &e), on_var("Show", &a)],
        result(Ty::Var(e.clone()), Ty::Var(a.clone())),
        vec![e.clone(), a.clone()],
        &["show"],
    );
    proof {
        lemma_rows_push(i0, prev, ctx.class_env.instances@, acc);
        acc = acc.push(inst_row(ctx.class_env.instances@.last()));
    }

    let ghost prev = ctx.class_env.instances@;
    add_inst(ctx, "Functor", Vec::new(), con1("List"), Vec::new(), &["fmap"]);
    proof {
        lemma_rows_push(i0, prev, ctx.class_env.instances@, acc);
        acc = acc.push(inst_row(ctx.class_env.instances@.last()));
    }
    let ghost prev = ctx.class_env.instances@;
    add_inst(ctx, "Applicative", Vec::new(), con1("List"), Vec::new(), &["pure", "<*>"]);
    proof {
        lemma_rows_push(i0, prev, ctx.class_env.instances@, acc);
        acc = acc.push(inst_row(ctx.class_env.instances@.last()));
    }
    let ghost prev = ctx.class_env.instances@;
    add_inst(ctx, "Monad", Vec::new(), con1("List"), Vec::new(), &[">>="]);
    proof {
        lemma_rows_push(i0, prev, ctx.class_env.instances@, acc);
        acc = acc.push(inst_row(ctx.class_env.instances@.last()));
    }
    let a = var("a", 30040);
    let ghost prev = ctx.class_env.instances@;
    add_inst(ctx, "Eq", vec![on_var("Eq", &a)], list(Ty::Var(a.clone())), vec![a.clone()], &["==", "/="]);
    proof {
        lemma_rows_push(i0, prev, ctx.class_env.instances@, acc);
        acc = acc.push(inst_row(ctx.class_env.instances@.last()));
    }
    let a = var("a", 30041);
    let ghost prev = ctx.class_env.instances@;
    add_inst(ctx, "Ord", vec![on_var("Ord", &a)], list(Ty::Var(a.clone())), vec![a.clone()], &["compare"]);
    proof {
        lemma_rows_push(i0, prev, ctx.class_env.instances@, acc);
        acc = acc.push(inst_row(ctx.class_env.instances@.last()));
    }
    let a = var("a", 30042);
    let ghost prev = ctx.class_env.instances@;
    add_inst(ctx, "Show", vec![on_var("Show", &a)], list(Ty::Var(a.clone())), vec![a.clone()], &["show"]);
    proof {
        lemma_rows_push(i0, prev, ctx.class_env.instances@, acc);
        acc = acc.push(inst_row(ctx.class_env.instances@.last()));
    }

    let ghost prev = ctx.class_env.instances@;
    add_inst(ctx, "Functor", Vec::new(), con1("Ruby"), Vec::new(), &["fmap"]);
    proof {
        lemma_rows_push(i0, prev, ctx.class_env.instances@, acc);
        acc = acc.push(inst_row(ctx.class_env.instances@.last()));
    }
    let ghost prev = ctx.class_env.instances@;
    add_inst(ctx, "Applicative", Vec::new(), con1("Ruby"), Vec::new(), &["pure", "<*>"]);
    proof {
        lemma_rows_push(i0, prev, ctx.class_env.instances@, acc);
        acc = acc.push(inst_row(ctx.class_env.instances@.last()));
    }
    let ghost prev = ctx.class_env.instances@;
    add_inst(ctx, "Monad", Vec::new(), con1("Ruby"), Vec::new(), &[">>="]);
    proof {
        lemma_rows_push(i0, prev, ctx.class_env.instances@, acc);
        acc = acc.push(inst_row(ctx.class_env.instances@.last()));
    }
    proof {
        assert(acc == head_rows + acc.skip(head_rows.len() as int));
        assert(acc =~= prelude_instance_rows());
    }
}

} // verus!
