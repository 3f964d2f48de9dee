//! Type inference: Algorithm W with let-polymorphism, class constraints
//! collected along the way, and `do` blocks read as chains of `>>=`.
//!
//! The inference context carries the environments, the counter of fresh
//! type variables, the constraints still wanted, the record-field goals
//! deferred until the types around them are known, the constraints the
//! enclosing signature assumes, and the schemes inferred so far.
use vstd::prelude::*;

use super::classes::{constraint_same, fresh_var, next_id, same_constraint};
use super::env::{
    frames_get, globals_get, AliasInfo, ClassEnv, ClassInfo, CtorInfo, DataInfo, GlobalId, InstanceInfo,
    TypeEnv,
};
use super::error::{TypeError, TypeErrorKind};
use super::subst_spec::{apply_subst, compose_map};
use super::ty::{maps_vars, occurs, ty_same, Constraint, Kind, Scheme, Subst, Ty, TyVar, TyView};
use crate::ast::{
    CaseArm, ClassDecl, ClassItem, DataDecl, Decl, DoStmt, Expr, ExprField, InstanceDecl, Literal,
    Module as AstModule, Pattern, Scheme as AstScheme, Type as AstType, TypeAlias, TypeField, ValueClause,
};
use crate::lexer::scan::text_is;
use crate::resolver::table::{
    keys_unique, lemma_table_get_at, lemma_table_get_some, table_find, table_get, table_insert, table_keys, table_lookup,
};
use crate::span::Span;
use crate::text::{string_views, usize_text};

verus! {

/// The state of inference for one module.
pub struct InferCtx {
    pub module: String,
    pub type_env: TypeEnv,
    pub class_env: ClassEnv,
    pub fresh_counter: u32,
    pub wanted: Vec<(Constraint, Span)>,
    pub pending_fields: Vec<(Ty, String, Ty, Span)>,
    pub assumed: Vec<Constraint>,
    pub inferred: Vec<(String, Scheme)>,
    pub inferred_order: Vec<String>,
}

impl InferCtx {
    /// The environments are well formed, each inferred name has one
    /// entry, and each inferred name is in the order of first inference.
    pub open spec fn wf(&self) -> bool {
        &&& self.type_env.wf()
        &&& self.class_env.wf()
        &&& keys_unique(self.inferred@)
        &&& forall|q: Seq<char>|
            #[trigger] table_keys(self.inferred@).contains(q) ==> string_views(self.inferred_order@).contains(q)
    }

    /// A fresh context for `module`: empty environments, the counter at 1.
    pub fn new(module: String) -> (r: InferCtx)
        ensures
            r.wf(),
            r.module == module,
            r.fresh_counter == 1,
            r.wanted@.len() == 0,
            r.assumed@.len() == 0,
            r.inferred@.len() == 0,
            r.pending_fields@.len() == 0,
            r.inferred_order@.len() == 0,
            r.type_env.globals@.len() == 0,
            r.type_env.locals@.len() == 0,
            r.type_env.datas@.len() == 0,
            r.type_env.ctors@.len() == 0,
            r.type_env.aliases@.len() == 0,
            r.type_env.type_locals@.len() == 0,
            r.type_env.type_kinds@.len() == 0,
            r.class_env.classes@.len() == 0,
            r.class_env.instances@.len() == 0,
    {
        InferCtx {
            module,
            type_env: TypeEnv::new(),
            class_env: ClassEnv::new(),
            fresh_counter: 1,
            wanted: Vec::new(),
            pending_fields: Vec::new(),
            assumed: Vec::new(),
            inferred: Vec::new(),
            inferred_order: Vec::new(),
        }
    }

    /// A fresh unnamed type variable.
    pub fn fresh(&mut self) -> (r: TyVar)
        ensures
            r.id == old(self).fresh_counter,
            r.name@.len() == 0,
            final(self).fresh_counter == next_id(old(self).fresh_counter),
            final(self).type_env == old(self).type_env,
            final(self).class_env == old(self).class_env,
            final(self).wanted == old(self).wanted,
            final(self).assumed == old(self).assumed,
            final(self).inferred == old(self).inferred,
            final(self).module == old(self).module,
            final(self).pending_fields == old(self).pending_fields,
            final(self).inferred_order == old(self).inferred_order,
    {
        fresh_var(&mut self.fresh_counter)
    }

    /// A fresh type variable that prints as `hint`.
    pub fn fresh_named(&mut self, hint: &str) -> (r: TyVar)
        ensures
            r.id == old(self).fresh_counter,
            r.name@ == hint@,
            final(self).fresh_counter == next_id(old(self).fresh_counter),
            final(self).type_env == old(self).type_env,
            final(self).class_env == old(self).class_env,
            final(self).wanted == old(self).wanted,
            final(self).assumed == old(self).assumed,
            final(self).inferred == old(self).inferred,
            final(self).module == old(self).module,
            final(self).pending_fields == old(self).pending_fields,
            final(self).inferred_order == old(self).inferred_order,
    {
        let v = fresh_var(&mut self.fresh_counter);
        TyVar { id: v.id, name: String::from_str(hint) }
    }

    /// A fresh type variable as a type.
    pub fn fresh_ty(&mut self) -> (r: Ty)
        ensures
            r matches Ty::Var(v) && v.id == old(self).fresh_counter,
            final(self).fresh_counter == next_id(old(self).fresh_counter),
            final(self).type_env == old(self).type_env,
            final(self).class_env == old(self).class_env,
            final(self).wanted == old(self).wanted,
            final(self).assumed == old(self).assumed,
            final(self).inferred == old(self).inferred,
            final(self).module == old(self).module,
            final(self).pending_fields == old(self).pending_fields,
            final(self).inferred_order == old(self).inferred_order,
    {
        Ty::Var(self.fresh())
    }

    /// The scheme's body and context with its bound variables renamed to
    /// fresh ones that keep their names.
    pub fn instantiate(&mut self, s: &Scheme) -> (r: (Ty, Vec<Constraint>))
        requires
            old(self).wf(),
        ensures
            final(self).wf(),
            r.1@.len() == s.context@.len(),
            final(self).type_env == old(self).type_env,
            final(self).class_env == old(self).class_env,
            final(self).wanted == old(self).wanted,
            final(self).assumed == old(self).assumed,
            final(self).inferred == old(self).inferred,
            final(self).module == old(self).module,
            final(self).pending_fields == old(self).pending_fields,
            final(self).inferred_order == old(self).inferred_order,
            old(self).fresh_counter + s.vars@.len() <= u32::MAX ==> {
                let m = fresh_renaming(s.vars@, old(self).fresh_counter);
                &&& final(self).fresh_counter == old(self).fresh_counter + s.vars@.len()
                &&& r.0@ == apply_subst(m, s.body@)
                &&& forall|k: int|
                    0 <= k < s.context@.len() ==> (#[trigger] r.1@[k]).class@ == s.context@[k].class@
                        && r.1@[k].arg@ == apply_subst(m, s.context@[k].arg@)
            },
    {
        let mut sub = Subst::new();
        let mut i: usize = 0;
        let ghost n0 = self.fresh_counter;
        proof {
            assert(sub@ =~= fresh_renaming(s.vars@.take(0), n0));
        }
        while i < s.vars.len()
            invariant
                self.wf(),
                sub.wf(),
                i <= s.vars@.len(),
                n0 == old(self).fresh_counter,
                n0 + s.vars@.len() <= u32::MAX ==> self.fresh_counter == n0 + i && sub@ == fresh_renaming(
                    s.vars@.take(i as int),
                    n0,
                ),
                self.type_env == old(self).type_env,
                self.class_env == old(self).class_env,
                self.wanted == old(self).wanted,
                self.assumed == old(self).assumed,
                self.inferred == old(self).inferred,
                self.module == old(self).module,
                self.pending_fields == old(self).pending_fields,
                self.inferred_order == old(self).inferred_order,
            decreases s.vars.len() - i,
        {
            let nv = self.fresh_named(s.vars[i].name.as_str());
            sub.insert(s.vars[i].id, Ty::Var(nv));
            proof {
                assert(s.vars@.take(i + 1).drop_last() =~= s.vars@.take(i as int));
            }
            i = i + 1;
        }
        proof {
            assert(s.vars@.take(i as int) =~= s.vars@);
        }
        let ty = sub.apply(&s.body);
        let mut ctx: Vec<Constraint> = Vec::new();
        let mut k: usize = 0;
        while k < s.context.len()
            invariant
                sub.wf(),
                k <= s.context@.len(),
                ctx@.len() == k,
                forall|q: int|
                    0 <= q < k ==> (#[trigger] ctx@[q]).class@ == s.context@[q].class@ && ctx@[q].arg@ == apply_subst(
                        sub@,
                        s.context@[q].arg@,
                    ),
            decreases s.context.len() - k,
        {
            ctx.push(sub.apply_constraint(&s.context[k]));
            k = k + 1;
        }
        (ty, ctx)
    }

    /// Add a wanted constraint met at `span`.
    pub fn add_wanted(&mut self, c: Constraint, span: Span)
        ensures
            final(self).wanted@ == old(self).wanted@.push((c, span)),
            final(self).type_env == old(self).type_env,
            final(self).class_env == old(self).class_env,
            final(self).assumed == old(self).assumed,
            final(self).inferred == old(self).inferred,
            final(self).module == old(self).module,
            final(self).fresh_counter == old(self).fresh_counter,
            final(self).pending_fields == old(self).pending_fields,
            final(self).inferred_order == old(self).inferred_order,
    {
        self.wanted.push((c, span));
    }

    /// Generalise `ty` under `sub` over the variables free in it but not
    /// in the environment (leaving out the local or current-module
    /// global named `exclude_name`). The wanted constraints that mention
    /// a generalised variable, and only generalised or environment ones,
    /// move into the scheme's context, each once; the others stay
    /// wanted, with `sub` applied.
    pub fn generalize_excluding(&mut self, sub: &Subst, ty: &Ty, exclude_name: Option<&str>) -> (r:
        Scheme)
        requires
            old(self).wf(),
            sub.wf(),
        ensures
            final(self).wf(),
            final(self).type_env == old(self).type_env,
            final(self).class_env == old(self).class_env,
            final(self).assumed == old(self).assumed,
            final(self).inferred == old(self).inferred,
            final(self).module == old(self).module,
            final(self).fresh_counter == old(self).fresh_counter,
            final(self).pending_fields == old(self).pending_fields,
            final(self).inferred_order == old(self).inferred_order,
            forall|i: int|
                0 <= i < r.vars@.len() ==> #[trigger] super::ty::occurs(
                    r.vars@[i].id,
                    super::subst_spec::apply_subst(sub@, ty@),
                ),
    {
        let ty_a = sub.apply(ty);
        let mut ty_fvs: Vec<u32> = Vec::new();
        ty_a.free_vars(&mut ty_fvs);

        let mut env_fvs: Vec<u32> = Vec::new();
        let mut f: usize = 0;
        while f < self.type_env.locals.len()
            invariant
                sub.wf(),
                f <= self.type_env.locals@.len(),
            decreases self.type_env.locals.len() - f,
        {
            let frame = &self.type_env.locals[f];
            let mut k: usize = 0;
            while k < frame.len()
                invariant
                    sub.wf(),
                    k <= frame@.len(),
                decreases frame.len() - k,
            {
                let skip = match exclude_name {
                    Some(x) => text_is(&frame[k].0, x),
                    None => false,
                };
                if !skip {
                    let applied = sub.apply_scheme(&frame[k].1);
                    collect_scheme_free(&applied, &mut env_fvs);
                }
                k = k + 1;
            }
            f = f + 1;
        }
        let mut g: usize = 0;
        while g < self.type_env.globals.len()
            invariant
                sub.wf(),
                g <= self.type_env.globals@.len(),
            decreases self.type_env.globals.len() - g,
        {
            let entry = &self.type_env.globals[g];
            let skip = match exclude_name {
                Some(x) => text_is(&entry.0.name, x) && entry.0.module.eq(
                    &self.module,
                ),
                None => false,
            };
            if !skip {
                let applied = sub.apply_scheme(&entry.1);
                collect_scheme_free(&applied, &mut env_fvs);
            }
            g = g + 1;
        }

        let mut gen_vars: Vec<u32> = Vec::new();
        let mut i: usize = 0;
        while i < ty_fvs.len()
            invariant
                i <= ty_fvs@.len(),
                forall|j: int| 0 <= j < gen_vars@.len() ==> ty_fvs@.contains(#[trigger] gen_vars@[j]),
            decreases ty_fvs.len() - i,
        {
            if !contains_u32(&env_fvs, ty_fvs[i]) {
                gen_vars.push(ty_fvs[i]);
            }
            i = i + 1;
        }

        let mut kept_wanted: Vec<(Constraint, Span)> = Vec::new();
        let mut promoted: Vec<Constraint> = Vec::new();
        let mut w: usize = 0;
        while w < self.wanted.len()
            invariant
                sub.wf(),
                w <= self.wanted@.len(),
            decreases self.wanted.len() - w,
        {
            let c2 = sub.apply_constraint(&self.wanted[w].0);
            let sp = self.wanted[w].1;
            let mut fvs: Vec<u32> = Vec::new();
            c2.arg.free_vars(&mut fvs);
            let mut mentions_gen = false;
            let mut only_gen_or_env = true;
            let mut k: usize = 0;
            while k < fvs.len()
                invariant
                    k <= fvs@.len(),
                decreases fvs.len() - k,
            {
                let in_gen = contains_u32(&gen_vars, fvs[k]);
                if in_gen {
                    mentions_gen = true;
                }
                if !in_gen && !contains_u32(&env_fvs, fvs[k]) {
                    only_gen_or_env = false;
                }
                k = k + 1;
            }
            if mentions_gen && only_gen_or_env && !contains_constraint(&promoted, &c2) {
                promoted.push(c2);
            } else {
                kept_wanted.push((c2, sp));
            }
            w = w + 1;
        }
        self.wanted = kept_wanted;

        let mut rigids: Vec<TyVar> = Vec::new();
        let mut rename = Subst::new();
        let mut j: usize = 0;
        while j < gen_vars.len()
            invariant
                rename.wf(),
                j <= gen_vars@.len(),
                rigids@.len() == j,
                forall|x: int| 0 <= x < j ==> #[trigger] rigids@[x].id == gen_vars@[x],
            decreases gen_vars.len() - j,
        {
            let id = gen_vars[j];
            let hint = match original_name_hint(&ty_a, id) {
                Some(h) => h,
                None => {
                    let mut h = String::from_str("t");
                    h.append(usize_text(id as usize).as_str());
                    h
                },
            };
            let nv = TyVar { id, name: hint };
            let nv2 = nv.clone();
            rigids.push(nv);
            rename.insert(id, Ty::Var(nv2));
            j = j + 1;
        }
        let body = rename.apply(&ty_a);
        let mut context: Vec<Constraint> = Vec::new();
        let mut p: usize = 0;
        while p < promoted.len()
            invariant
                rename.wf(),
                p <= promoted@.len(),
            decreases promoted.len() - p,
        {
            context.push(rename.apply_constraint(&promoted[p]));
            p = p + 1;
        }
        proof {
            assert forall|i: int| 0 <= i < rigids@.len() implies #[trigger] super::ty::occurs(
                rigids@[i].id,
                super::subst_spec::apply_subst(sub@, ty@),
            ) by {
                assert(ty_fvs@.contains(gen_vars@[i]));
            }
        }
        Scheme { vars: rigids, context, body }
    }

    /// Generalise without leaving any binding out.
    pub fn generalize(&mut self, sub: &Subst, ty: &Ty) -> (r: Scheme)
        requires
            old(self).wf(),
            sub.wf(),
        ensures
            final(self).wf(),
            final(self).type_env == old(self).type_env,
            final(self).class_env == old(self).class_env,
            final(self).fresh_counter == old(self).fresh_counter,
    {
        self.generalize_excluding(sub, ty, None)
    }
}

/// Whether `v` holds `id`.
fn contains_u32(v: &Vec<u32>, id: u32) -> (r: bool)
    ensures
        r == v@.contains(id),
{
    let mut i: usize = 0;
    while i < v.len()
        invariant
            i <= v@.len(),
            forall|j: int| 0 <= j < i ==> v@[j] != id,
        decreases v.len() - i,
    {
        if v[i] == id {
            return true;
        }
        i = i + 1;
    }
    false
}

/// Whether `v` holds a constraint the same as `c`.
fn contains_constraint(v: &Vec<Constraint>, c: &Constraint) -> (r: bool)
    ensures
        r == exists|j: int| 0 <= j < v@.len() && constraint_same(#[trigger] v@[j], *c),
{
    let mut i: usize = 0;
    while i < v.len()
        invariant
            i <= v@.len(),
            forall|j: int| 0 <= j < i ==> !constraint_same(#[trigger] v@[j], *c),
        decreases v.len() - i,
    {
        if same_constraint(&v[i], c) {
            return true;
        }
        i = i + 1;
    }
    false
}

/// Add to `out` the variables free in the scheme's body and context but
/// not bound by it.
fn collect_scheme_free(s: &Scheme, out: &mut Vec<u32>)
    ensures
        final(out)@.len() >= old(out)@.len(),
        final(out)@.take(old(out)@.len() as int) == old(out)@,
        forall|x: u32| #[trigger] final(out)@.contains(x) <==> (old(out)@.contains(x) || scheme_free(*s, x)),
{
    let mut bound: Vec<u32> = Vec::new();
    let mut i: usize = 0;
    while i < s.vars.len()
        invariant
            i <= s.vars@.len(),
            forall|x: u32| #[trigger] bound@.contains(x) <==> exists|j: int| 0 <= j < i && s.vars@[j].id == x,
        decreases s.vars.len() - i,
    {
        let ghost b0 = bound@;
        bound.push(s.vars[i].id);
        proof {
            assert forall|x: u32| #[trigger] bound@.contains(x) <==> exists|j: int| 0 <= j < i + 1 && s.vars@[j].id == x by {
                if b0.contains(x) {
                    let t = choose|t: int| 0 <= t < b0.len() && b0[t] == x;
                    assert(bound@[t] == x);
                }
                if x == s.vars@[i as int].id {
                    assert(bound@[b0.len() as int] == x);
                }
                if bound@.contains(x) {
                    let t = choose|t: int| 0 <= t < bound@.len() && bound@[t] == x;
                    if t < b0.len() {
                        assert(b0[t] == x);
                    }
                }
            }
        }
        i = i + 1;
    }
    let mut fv: Vec<u32> = Vec::new();
    s.body.free_vars(&mut fv);
    let mut k: usize = 0;
    while k < s.context.len()
        invariant
            k <= s.context@.len(),
            forall|x: u32|
                #[trigger] fv@.contains(x) <==> (occurs(x, s.body@) || exists|c: int|
                    0 <= c < k && occurs(x, #[trigger] s.context@[c].arg@)),
        decreases s.context.len() - k,
    {
        s.context[k].arg.free_vars(&mut fv);
        proof {
            assert forall|x: u32|
                #[trigger] fv@.contains(x) <==> (occurs(x, s.body@) || exists|c: int|
                    0 <= c < k + 1 && occurs(x, #[trigger] s.context@[c].arg@)) by {
                if occurs(x, s.context@[k as int].arg@) {
                    assert(0 <= k < k + 1);
                }
            }
        }
        k = k + 1;
    }
    let ghost o0 = out@;
    let mut j: usize = 0;
    while j < fv.len()
        invariant
            j <= fv@.len(),
            out@.len() >= o0.len(),
            out@.take(o0.len() as int) == o0,
            o0 == old(out)@,
            forall|x: u32| #[trigger] bound@.contains(x) <==> exists|q: int| 0 <= q < s.vars@.len() && s.vars@[q].id == x,
            forall|x: u32|
                #[trigger] out@.contains(x) <==> (o0.contains(x) || (exists|t: int| 0 <= t < j && fv@[t] == x)
                    && !bound@.contains(x)),
        decreases fv.len() - j,
    {
        let ghost out0 = out@;
        if !contains_u32(&bound, fv[j]) && !contains_u32(out, fv[j]) {
            out.push(fv[j]);
            assert(out@.take(o0.len() as int) =~= out0.take(o0.len() as int));
        }
        proof {
            assert forall|x: u32|
                #[trigger] out@.contains(x) <==> (o0.contains(x) || (exists|t: int| 0 <= t < j + 1 && fv@[t] == x)
                    && !bound@.contains(x)) by {
                if out0.contains(x) {
                    let t = choose|t: int| 0 <= t < out0.len() && out0[t] == x;
                    assert(out@[t] == x);
                }
                if out@.contains(x) && !out0.contains(x) {
                    let t = choose|t: int| 0 <= t < out@.len() && out@[t] == x;
                    if t < out0.len() {
                        assert(out0[t] == x);
                    }
                    assert(fv@[j as int] == x);
                }
                if fv@[j as int] == x && !bound@.contains(x) && !out0.contains(x) {
                    assert(out@[out0.len() as int] == x);
                }
            }
        }
        j = j + 1;
    }
    proof {
        assert forall|x: u32| #[trigger] out@.contains(x) <==> (o0.contains(x) || scheme_free(*s, x)) by {
            if fv@.contains(x) {
                let t = choose|t: int| 0 <= t < fv@.len() && fv@[t] == x;
                assert(exists|t: int| 0 <= t < j && fv@[t] == x);
            }
            if exists|t: int| 0 <= t < j && fv@[t] == x {
                let t = choose|t: int| 0 <= t < j && fv@[t] == x;
                assert(fv@.contains(x));
            }
        }
    }
}

/// Variable `x` is free in the scheme: it occurs in the body or the
/// context and the scheme does not bind it.
pub open spec fn scheme_free(s: Scheme, x: u32) -> bool {
    &&& (occurs(x, s.body@) || exists|c: int| 0 <= c < s.context@.len() && occurs(x, #[trigger] s.context@[c].arg@))
    &&& !exists|q: int| 0 <= q < s.vars@.len() && s.vars@[q].id == x
}

/// The name a variable `id` was written with, the first one met with a
/// name.
pub open spec fn name_hint(t: Ty, id: u32) -> Option<Seq<char>>
    decreases t, 0nat,
{
    match t {
        Ty::Var(v) => if v.id == id && v.name@.len() > 0 {
            Some(v.name@)
        } else {
            None
        },
        Ty::App(a, b) => match name_hint(*a, id) {
            Some(h) => Some(h),
            None => name_hint(*b, id),
        },
        Ty::Fun(a, b) => match name_hint(*a, id) {
            Some(h) => Some(h),
            None => name_hint(*b, id),
        },
        Ty::Record(fs) => {
            proof {
                assert(decreases_to!(t => fs));
                assert(decreases_to!(fs => fs@));
            }
            fields_hint(fs@, id, fs@.len() as int)
        },
        _ => None,
    }
}

/// The name hint of variable `id` among the first `n` fields.
pub open spec fn fields_hint(fs: Seq<(String, Ty)>, id: u32, n: int) -> Option<Seq<char>>
    decreases fs, n,
{
    if n <= 0 || n > fs.len() {
        None
    } else {
        proof {
            assert(decreases_to!(fs => fs[n - 1]));
            assert(decreases_to!(fs[n - 1] => fs[n - 1].1));
        }
        match fields_hint(fs, id, n - 1) {
            Some(h) => Some(h),
            None => name_hint(fs[n - 1].1, id),
        }
    }
}

/// A hint found among the first `m` fields stays the hint among more.
proof fn lemma_fields_hint_found(fs: Seq<(String, Ty)>, id: u32, m: int, n: int)
    requires
        0 < m <= n <= fs.len(),
        fields_hint(fs, id, m) is Some,
    ensures
        fields_hint(fs, id, n) == fields_hint(fs, id, m),
    decreases n - m,
{
    if n > m {
        lemma_fields_hint_found(fs, id, m, n - 1);
    }
}

/// The name a variable of id `id` carries somewhere in `t`, the first
/// one met left to right, when it has one.
fn original_name_hint(t: &Ty, id: u32) -> (r: Option<String>)
    ensures
        r matches Some(h) ==> name_hint(*t, id) == Some(h@),
        r is None ==> name_hint(*t, id) is None,
    decreases t,
{
    match t {
        Ty::Var(v) => {
            if v.id == id && !v.name.as_str().is_empty() {
                Some(v.name.clone())
            } else {
                None
            }
        },
        Ty::App(a, b) | Ty::Fun(a, b) => {
            match original_name_hint(a, id) {
                Some(h) => Some(h),
                None => original_name_hint(b, id),
            }
        },
        Ty::Record(fs) => {
            proof {
                assert(decreases_to!(t => fs));
                assert(decreases_to!(fs => fs@));
            }
            let mut i: usize = 0;
            while i < fs.len()
                invariant
                    i <= fs@.len(),
                    decreases_to!(t => fs@),
                    *t == Ty::Record(*fs),
                    fields_hint(fs@, id, i as int) is None,
                decreases fs.len() - i,
            {
                proof {
                    assert(decreases_to!(fs@ => fs@[i as int]));
                    assert(decreases_to!(fs@[i as int] => fs@[i as int].1));
                }
                match original_name_hint(&fs[i].1, id) {
                    Some(h) => {
                        proof {
                            assert(fields_hint(fs@, id, i + 1) == Some(h@));
                            lemma_fields_hint_found(fs@, id, i + 1, fs@.len() as int);
                            assert(*t == Ty::Record(*fs));
                            assert(name_hint(Ty::Record(*fs), id) == fields_hint(fs@, id, fs@.len() as int));
                        }
                        return Some(h);
                    },
                    None => {},
                }
                i = i + 1;
            }
            None
        },
        _ => None,
    }
}


/// The context changed only in its counter of fresh variables.
pub open spec fn only_counter_moved(a: InferCtx, b: InferCtx) -> bool {
    &&& b.module == a.module
    &&& b.type_env == a.type_env
    &&& b.class_env == a.class_env
    &&& b.wanted == a.wanted
    &&& b.pending_fields == a.pending_fields
    &&& b.assumed == a.assumed
    &&& b.inferred == a.inferred
    &&& b.inferred_order == a.inferred_order
}

/// An error of converting a surface type: an unknown type, or an alias
/// used with the wrong number of arguments.
pub open spec fn type_conv_error(e: TypeError) -> bool {
    e.kind is UnknownType || e.kind is KindMismatch
}

/// Convert a surface type. Variables bound in `locals` become those
/// variables, other variables fresh ones named after them; aliases are
/// expanded; constructors must be data types of the environment or
/// built in.
pub fn ty_from_ast(ctx: &mut InferCtx, ast: &AstType, locals: &Vec<(String, TyVar)>) -> (r: Result<
    Ty,
    TypeError,
>)
    requires
        old(ctx).wf(),
        keys_unique(locals@),
    ensures
        final(ctx).wf(),
        only_counter_moved(*old(ctx), *final(ctx)),
        r matches Err(e) ==> type_conv_error(e),
        *ast is Var ==> (r matches Ok(t) && t is Var),
        ast matches AstType::Con { name, .. } ==> (table_get(old(ctx).type_env.aliases@, name@) is None
            && !table_keys(old(ctx).type_env.datas@).contains(name@) && !builtin_type(name@) ==> (r matches Err(e)
            && (e.kind matches TypeErrorKind::UnknownType { name: n } && n@ == name@))),
        ast matches AstType::Con { name, .. } ==> (table_get(old(ctx).type_env.aliases@, name@) is None && (table_keys(
            old(ctx).type_env.datas@,
        ).contains(name@) || builtin_type(name@)) ==> (r matches Ok(t) && t@ == TyView::Con(name@))),
        ast matches AstType::Con { name, span, .. } ==> match table_get(old(ctx).type_env.aliases@, name@) {
            Some(ai) => if ai.params@.len() == 0 {
                r matches Ok(t) && t@ == ai.body@ && ty_same(t, ai.body)
            } else {
                r matches Err(e) && e.kind is KindMismatch && e.span == span
            },
            None => r matches Err(e) ==> e.span == span,
        },
        *ast is Fun ==> (r matches Ok(t) ==> t is Fun),
        *ast is Record ==> (r matches Ok(t) ==> t is Record),
    decreases ast,
{
    match ast {
        AstType::Var { name, .. } => {
            match table_lookup(locals, name.as_str()) {
                Some(v) => Ok(Ty::Var(v.clone())),
                None => Ok(Ty::Var(ctx.fresh_named(name.as_str()))),
            }
        },
        AstType::Con { name, span, .. } => {
            match table_lookup(&ctx.type_env.aliases, name.as_str()) {
                Some(ai) => {
                    if ai.params.len() != 0 {
                        let mut expected = String::from_str("alias `");
                        expected.append(name.as_str());
                        expected.append("` with ");
                        expected.append(usize_text(ai.params.len()).as_str());
                        expected.append(" params");
                        return Err(
                            TypeError::new(
                                TypeErrorKind::KindMismatch {
                                    expected,
                                    found: String::from_str("saturated 0-arg"),
                                },
                                *span,
                            ),
                        );
                    }
                    return Ok(ai.body.clone());
                },
                None => {},
            }
            proof {
                lemma_table_get_some(ctx.type_env.aliases@, name@);
            }
            let found_data = table_find(&ctx.type_env.datas, name.as_str());
            proof {
                match found_data {
                    Some(j) => {
                        assert(table_keys(ctx.type_env.datas@)[j as int] == name@);
                    },
                    None => {
                        if table_keys(ctx.type_env.datas@).contains(name@) {
                            let j = choose|j: int| 0 <= j < ctx.type_env.datas@.len() && table_keys(ctx.type_env.datas@)[j] == name@;
                            assert(ctx.type_env.datas@[j].0@ == name@);
                        }
                    },
                }
            }
            let is_data = found_data.is_some();
            if is_data || is_builtin_type(name.as_str()) {
                let kind = match builtin_kind_of(name.as_str()) {
                    Some(k) => k,
                    None => {
                        let arity = match table_lookup(&ctx.type_env.datas, name.as_str()) {
                            Some(d) => d.params.len(),
                            None => 0,
                        };
                        make_kind_arity(arity)
                    },
                };
                return Ok(Ty::con(name.clone(), kind));
            }
            Err(TypeError::new(TypeErrorKind::UnknownType { name: name.clone() }, *span))
        },
        AstType::App { func, arg, .. } => {
            match split_alias_head(func, arg) {
                Some((head_name, args)) => {
                    let expanded = match table_lookup(&ctx.type_env.aliases, head_name.as_str()) {
                        Some(ai) => ai.params.len() == args.len(),
                        None => false,
                    };
                    if expanded {
                        let mut arg_tys: Vec<Ty> = Vec::new();
                        let mut i: usize = 0;
                        while i < args.len()
                            invariant
                                ctx.wf(),
                                only_counter_moved(*old(ctx), *ctx),
                                keys_unique(locals@),
                                i <= args@.len(),
                                arg_tys@.len() == i,
                                forall|j: int| 0 <= j < args@.len() ==> decreases_to!(ast => #[trigger] args@[j]),
                                !(*ast is Var) && !(*ast is Con),
                            decreases args.len() - i,
                        {
                            let t = match ty_from_ast(ctx, args[i], locals) {
                                Ok(t) => t,
                                Err(e) => return Err(e),
                            };
                            arg_tys.push(t);
                            i = i + 1;
                        }
                        match table_lookup(&ctx.type_env.aliases, head_name.as_str()) {
                            Some(ai) => {
                                if ai.params.len() == arg_tys.len() {
                                    return Ok(substitute_named_vars(&ai.body, &ai.params, &arg_tys));
                                }
                            },
                            None => {},
                        }
                    }
                },
                None => {},
            }
            let f = match ty_from_ast(ctx, func, locals) {
                Ok(t) => t,
                Err(e) => return Err(e),
            };
            let a = match ty_from_ast(ctx, arg, locals) {
                Ok(t) => t,
                Err(e) => return Err(e),
            };
            Ok(Ty::app(f, a))
        },
        AstType::Fun { param, result, .. } => {
            let p = match ty_from_ast(ctx, param, locals) {
                Ok(t) => t,
                Err(e) => return Err(e),
            };
            let r = match ty_from_ast(ctx, result, locals) {
                Ok(t) => t,
                Err(e) => return Err(e),
            };
            Ok(Ty::fun(p, r))
        },
        AstType::Record { fields, .. } => {
            proof {
                assert(decreases_to!(ast => fields));
                assert(decreases_to!(fields => fields@));
            }
            let mut fs: Vec<(String, Ty)> = Vec::new();
            let mut i: usize = 0;
            while i < fields.len()
                invariant
                    ctx.wf(),
                    only_counter_moved(*old(ctx), *ctx),
                    keys_unique(locals@),
                    i <= fields@.len(),
                    decreases_to!(ast => fields@),
                    !(*ast is Var) && !(*ast is Con),
                decreases fields.len() - i,
            {
                proof {
                    assert(decreases_to!(fields@ => fields@[i as int]));
                    assert(decreases_to!(fields@[i as int] => fields@[i as int].1));
                }
                let t = match ty_from_ast(ctx, &fields[i].1, locals) {
                    Ok(t) => t,
                    Err(e) => return Err(e),
                };
                fs.push((fields[i].0.clone(), t));
                i = i + 1;
            }
            Ok(Ty::record(fs))
        },
    }
}

/// The head constructor's name of an application spine.
pub open spec fn spine_head(t: AstType) -> Option<Seq<char>>
    decreases t,
{
    match t {
        AstType::Con { name, .. } => Some(name@),
        AstType::App { func, .. } => spine_head(*func),
        _ => None,
    }
}

/// The arguments of an application spine, left to right.
pub open spec fn spine_args(t: AstType) -> Seq<AstType>
    decreases t,
{
    match t {
        AstType::App { func, arg, .. } => spine_args(*func).push(*arg),
        _ => Seq::empty(),
    }
}

/// For an application whose head, under the applications, is a
/// constructor: its name and the arguments in order.
fn split_alias_head<'a>(func: &'a AstType, arg: &'a AstType) -> (r: Option<(String, Vec<&'a AstType>)>)
    ensures
        r matches Some((_, args)) ==> forall|j: int|
            0 <= j < args@.len() ==> decreases_to!(*func => #[trigger] args@[j]) || args@[j] == *arg,
        r is Some <==> spine_head(*func) is Some,
        r matches Some((n, args)) ==> spine_head(*func) == Some(n@) && args@.map_values(|a: &AstType| *a)
            == spine_args(*func).push(*arg),
{
    let mut args: Vec<&AstType> = Vec::new();
    args.push(arg);
    let mut head = func;
    assert(args@.map_values(|a: &AstType| *a) =~= seq![*arg]);
    assert(spine_args(*func).push(*arg) =~= spine_args(*head) + seq![*arg]);
    loop
        invariant
            decreases_to!(*func => *head) || *head == *func,
            forall|j: int|
                0 <= j < args@.len() ==> decreases_to!(*func => #[trigger] args@[j]) || args@[j] == *arg,
            spine_head(*func) == spine_head(*head),
            spine_args(*func).push(*arg) == spine_args(*head) + args@.map_values(|a: &AstType| *a),
        decreases *head,
    {
        match head {
            AstType::App { func: f, arg: a, .. } => {
                proof {
                    assert(decreases_to!(*head => **a));
                    assert(decreases_to!(*head => **f));
                }
                let ghost before = args@.map_values(|x: &AstType| *x);
                args.insert(0, a);
                proof {
                    assert(args@.map_values(|x: &AstType| *x) =~= seq![**a] + before);
                    assert(spine_args(*head) == spine_args(**f).push(**a));
                    assert(spine_args(**f).push(**a) + before =~= spine_args(**f) + (seq![**a] + before));
                }
                head = f;
            },
            AstType::Con { name, .. } => {
                return Some((name.clone(), args));
            },
            _ => {
                return None;
            },
        }
    }
}

/// Replace the variables of id 0 named after the parameters by the
/// corresponding arguments.
fn substitute_named_vars(body: &Ty, params: &Vec<String>, args: &Vec<Ty>) -> (r: Ty)
    requires
        params@.len() == args@.len(),
    ensures
        maps_vars(
            *body,
            r,
            |v: TyVar| named_var_image(v, params@.map_values(|p: String| p@), args@.map_values(|a: Ty| a@)),
        ),
    decreases body,
{
    let ghost ps = params@.map_values(|p: String| p@);
    let ghost xs = args@.map_values(|a: Ty| a@);
    match body {
        Ty::Var(v) => {
            proof {
                assert(ps.skip(0) =~= ps);
                assert(xs.skip(0) =~= xs);
            }
            let mut i: usize = 0;
            while i < params.len()
                invariant
                    i <= params@.len(),
                    params@.len() == args@.len(),
                    ps == params@.map_values(|p: String| p@),
                    xs == args@.map_values(|a: Ty| a@),
                    named_var_image(*v, ps, xs) == named_var_image(*v, ps.skip(i as int), xs.skip(i as int)),
                    *body == Ty::Var(*v),
                decreases params.len() - i,
            {
                proof {
                    assert(ps.skip(i as int).drop_first() =~= ps.skip(i + 1));
                    assert(xs.skip(i as int).drop_first() =~= xs.skip(i + 1));
                }
                if v.name.eq(&params[i]) && v.id == 0 {
                    let r = args[i].clone();
                    proof {
                        assert(ps.skip(i as int)[0] == params@[i as int]@);
                        assert(xs.skip(i as int)[0] == args@[i as int]@);
                        assert(r@ == named_var_image(*v, ps, xs));
                    }
                    return r;
                }
                i = i + 1;
            }
            let r = Ty::Var(v.clone());
            proof {
                assert(ps.skip(i as int).len() == 0);
                assert(r@ == named_var_image(*v, ps, xs));
            }
            r
        },
        Ty::Con { name, kind } => Ty::Con { name: name.clone(), kind: kind.clone() },
        Ty::App(a, b) => Ty::app(substitute_named_vars(a, params, args), substitute_named_vars(b, params, args)),
        Ty::Fun(a, b) => Ty::fun(substitute_named_vars(a, params, args), substitute_named_vars(b, params, args)),
        Ty::Record(fs) => {
            proof {
                assert(decreases_to!(body => fs));
                assert(decreases_to!(fs => fs@));
            }
            let mut out: Vec<(String, Ty)> = Vec::new();
            let mut i: usize = 0;
            while i < fs.len()
                invariant
                    i <= fs@.len(),
                    out@.len() == i,
                    params@.len() == args@.len(),
                    decreases_to!(body => fs@),
                    forall|q: int|
                        0 <= q < i ==> (#[trigger] out@[q]).0@ == fs@[q].0@ && maps_vars(
                            fs@[q].1,
                            out@[q].1,
                            |v: TyVar| named_var_image(v, params@.map_values(|p: String| p@), args@.map_values(|a: Ty| a@)),
                        ),
                decreases fs.len() - i,
            {
                proof {
                    assert(decreases_to!(fs@ => fs@[i as int]));
                    assert(decreases_to!(fs@[i as int] => fs@[i as int].1));
                }
                let ghost o0 = out@;
                out.push((fs[i].0.clone(), substitute_named_vars(&fs[i].1, params, args)));
                proof {
                    assert forall|q: int| 0 <= q < i + 1 implies (#[trigger] out@[q]).0@ == fs@[q].0@ && maps_vars(
                        fs@[q].1,
                        out@[q].1,
                        |v: TyVar| named_var_image(v, params@.map_values(|p: String| p@), args@.map_values(|a: Ty| a@)),
                    ) by {
                        if q < i {
                            assert(out@[q] == o0[q]);
                        }
                    }
                }
                i = i + 1;
            }
            let ghost ov = out@;
            let r = Ty::record(out);
            proof {
                broadcast use vstd::seq_lib::group_to_multiset_ensures;

                assert(ov.to_multiset().len() == ov.len());
                if let Ty::Record(rfs) = &r {
                    assert(rfs@.to_multiset().len() == rfs@.len());
                    assert forall|j: int| 0 <= j < fs@.len() implies super::ty::field_has_image(
                        #[trigger] fs@[j],
                        rfs@,
                        |v: TyVar| named_var_image(v, params@.map_values(|p: String| p@), args@.map_values(|a: Ty| a@)),
                    ) by {
                        assert(ov.contains(ov[j]));
                        assert(ov.to_multiset().count(ov[j]) > 0);
                        assert(rfs@.contains(ov[j]));
                        let k = choose|k: int| 0 <= k < rfs@.len() && rfs@[k] == ov[j];
                        assert(rfs@[k].0@ == fs@[j].0@);
                    }
                    super::ty::lemma_fields_map(fs@, rfs@, |v: TyVar| named_var_image(v, params@.map_values(|p: String| p@), args@.map_values(|a: Ty| a@)), fs@.len() as int);
                }
            }
            r
        },
    }
}

/// The image of a variable under named parameters: the argument of the
/// first parameter of its name, for a variable as written (id 0); the
/// variable itself otherwise.
pub open spec fn named_var_image(v: TyVar, params: Seq<Seq<char>>, args: Seq<TyView>) -> TyView
    decreases params.len(),
{
    if params.len() == 0 || args.len() == 0 || v.id != 0 {
        TyView::Var(v.id)
    } else if params[0] == v.name@ {
        args[0]
    } else {
        named_var_image(v, params.drop_first(), args.drop_first())
    }
}

/// The names of the built-in types.
pub open spec fn builtin_type(name: Seq<char>) -> bool {
    name == "Int"@ || name == "String"@ || name == "Bool"@ || name == "Maybe"@ || name == "Result"@
        || name == "List"@ || name == "Ordering"@ || name == "Ruby"@
}

/// Whether `name` is a built-in type.
pub fn is_builtin_type(name: &str) -> (r: bool)
    ensures
        r == builtin_type(name@),
{
    let n = String::from_str(name);
    text_is(&n, "Int") || text_is(&n, "String") || text_is(&n, "Bool") || text_is(&n, "Maybe")
        || text_is(&n, "Result") || text_is(&n, "List") || text_is(&n, "Ordering") || text_is(
        &n,
        "Ruby",
    )
}

/// The kind of a built-in type.
pub fn builtin_kind_of(name: &str) -> (r: Option<Kind>)
    ensures
        (name@ == "Int"@ || name@ == "String"@ || name@ == "Bool"@ || name@ == "Ordering"@) ==> r
            == Some(Kind::Star),
        (name@ == "Maybe"@ || name@ == "List"@ || name@ == "Ruby"@) ==> r == Some(
            Kind::Arrow(Box::new(Kind::Star), Box::new(Kind::Star)),
        ),
        name@ == "Result"@ ==> r == Some(
            Kind::Arrow(
                Box::new(Kind::Star),
                Box::new(Kind::Arrow(Box::new(Kind::Star), Box::new(Kind::Star))),
            ),
        ),
        !builtin_type(name@) ==> r is None,
{
    proof {
        reveal_strlit("Int");
        reveal_strlit("String");
        reveal_strlit("Bool");
        reveal_strlit("Ordering");
        reveal_strlit("Maybe");
        reveal_strlit("List");
        reveal_strlit("Ruby");
        reveal_strlit("Result");
        assert("Maybe"@.len() == 5 && "List"@.len() == 4 && "Ruby"@.len() == 4 && "Result"@.len() == 6);
        assert("Int"@.len() == 3 && "String"@.len() == 6 && "Bool"@.len() == 4 && "Ordering"@.len() == 8);
        assert("String"@ != "Result"@) by {
            assert("String"@[0] != "Result"@[0]);
        }
        assert("Bool"@ != "List"@) by {
            assert("Bool"@[0] != "List"@[0]);
        }
        assert("Bool"@ != "Ruby"@) by {
            assert("Bool"@[0] != "Ruby"@[0]);
        }
    }
    let n = String::from_str(name);
    if text_is(&n, "Int") || text_is(&n, "String") || text_is(&n, "Bool") || text_is(&n, "Ordering") {
        Some(Kind::Star)
    } else if text_is(&n, "Maybe") || text_is(&n, "List") || text_is(&n, "Ruby") {
        Some(Kind::arr(Kind::Star, Kind::Star))
    } else if text_is(&n, "Result") {
        Some(Kind::arr(Kind::Star, Kind::arr(Kind::Star, Kind::Star)))
    } else {
        None
    }
}

/// `* -> ... -> *` with `arity` arrows.
pub open spec fn kind_of_arity(arity: nat) -> Kind
    decreases arity,
{
    if arity == 0 {
        Kind::Star
    } else {
        Kind::Arrow(Box::new(Kind::Star), Box::new(kind_of_arity((arity - 1) as nat)))
    }
}

/// The kind of a constructor of `arity` parameters of kind `*`.
pub fn make_kind_arity(arity: usize) -> (r: Kind)
    ensures
        r == kind_of_arity(arity as nat),
{
    let mut k = Kind::Star;
    let mut i: usize = 0;
    while i < arity
        invariant
            i <= arity,
            k == kind_of_arity(i as nat),
        decreases arity - i,
    {
        k = Kind::arr(Kind::Star, k);
        i = i + 1;
    }
    k
}

/// Add to `out` the type variable names of `t` not yet in it, in order.
fn collect_names_in_ty(t: &AstType, out: &mut Vec<String>)
    ensures
        string_views(final(out)@) == names_into(string_views(old(out)@), *t),
    decreases t,
{
    match t {
        AstType::Var { name, .. } => {
            if !crate::resolver::exports::contains_text(out, name) {
                let ghost o = string_views(out@);
                out.push(name.clone());
                assert(string_views(out@) =~= o.push(name@));
            }
        },
        AstType::Con { .. } => {},
        AstType::App { func, arg, .. } => {
            collect_names_in_ty(func, out);
            collect_names_in_ty(arg, out);
        },
        AstType::Fun { param, result, .. } => {
            collect_names_in_ty(param, out);
            collect_names_in_ty(result, out);
        },
        AstType::Record { fields, .. } => {
            proof {
                assert(decreases_to!(t => fields));
                assert(decreases_to!(fields => fields@));
            }
            let ghost o = string_views(out@);
            let mut i: usize = 0;
            while i < fields.len()
                invariant
                    i <= fields@.len(),
                    decreases_to!(t => fields@),
                    string_views(out@) == fields_names_into(o, fields@, i as int),
                decreases fields.len() - i,
            {
                proof {
                    assert(decreases_to!(fields@ => fields@[i as int]));
                    assert(decreases_to!(fields@[i as int] => fields@[i as int].1));
                }
                collect_names_in_ty(&fields[i].1, out);
                i = i + 1;
            }
        },
    }
}

/// The names of `t`'s type variables appended to `acc`, each once, in
/// order of first occurrence.
pub open spec fn names_into(acc: Seq<Seq<char>>, t: AstType) -> Seq<Seq<char>>
    decreases t, 0nat,
{
    match t {
        AstType::Var { name, .. } => if acc.contains(name@) {
            acc
        } else {
            acc.push(name@)
        },
        AstType::Con { .. } => acc,
        AstType::App { func, arg, .. } => names_into(names_into(acc, *func), *arg),
        AstType::Fun { param, result, .. } => names_into(names_into(acc, *param), *result),
        AstType::Record { fields, .. } => {
            proof {
                assert(decreases_to!(t => fields));
                assert(decreases_to!(fields => fields@));
            }
            fields_names_into(acc, fields@, fields@.len() as int)
        },
    }
}

/// The names of the first `n` fields' type variables appended to `acc`.
pub open spec fn fields_names_into(acc: Seq<Seq<char>>, fs: Seq<TypeField>, n: int) -> Seq<Seq<char>>
    decreases fs, n,
{
    if n <= 0 || n > fs.len() {
        acc
    } else {
        proof {
            assert(decreases_to!(fs => fs[n - 1]));
            assert(decreases_to!(fs[n - 1] => fs[n - 1].1));
        }
        names_into(fields_names_into(acc, fs, n - 1), fs[n - 1].1)
    }
}

/// The names of the explicitly quantified variables, each once, in
/// order; the first `n` of them.
pub open spec fn forall_names(v: Seq<String>, n: int) -> Seq<Seq<char>>
    decreases n,
{
    if n <= 0 || n > v.len() {
        Seq::empty()
    } else {
        let prev = forall_names(v, n - 1);
        if prev.contains(v[n - 1]@) {
            prev
        } else {
            prev.push(v[n - 1]@)
        }
    }
}

/// `acc` and the type variables of the first `n` types, each once.
pub open spec fn args_names(acc: Seq<Seq<char>>, ts: Seq<AstType>, n: int) -> Seq<Seq<char>>
    decreases n,
{
    if n <= 0 || n > ts.len() {
        acc
    } else {
        names_into(args_names(acc, ts, n - 1), ts[n - 1])
    }
}

/// `acc` and the type variables of the first `n` constraints' arguments.
pub open spec fn context_names(acc: Seq<Seq<char>>, cs: Seq<crate::ast::Constraint>, n: int) -> Seq<Seq<char>>
    decreases n,
{
    if n <= 0 || n > cs.len() {
        acc
    } else {
        args_names(context_names(acc, cs, n - 1), cs[n - 1].args@, cs[n - 1].args@.len() as int)
    }
}

/// The variables a surface scheme quantifies, each once: those written
/// after `forall`, then those of the body, then those of the context.
pub open spec fn scheme_names(s: AstScheme) -> Seq<Seq<char>> {
    context_names(
        names_into(forall_names(s.forall@, s.forall@.len() as int), s.body),
        s.context@,
        s.context@.len() as int,
    )
}

/// Convert a surface scheme. Every variable it mentions (its `forall`
/// list first, then the body, then the context, each name once) becomes
/// a variable with a fresh id and its written name; each constraint
/// must have exactly one argument.
pub fn scheme_from_ast(ctx: &mut InferCtx, s: &AstScheme) -> (r: Result<Scheme, TypeError>)
    requires
        old(ctx).wf(),
    ensures
        final(ctx).wf(),
        only_counter_moved(*old(ctx), *final(ctx)),
        r matches Err(e) ==> type_conv_error(e) || e.kind is Other,
        r is Ok ==> forall|k: int| 0 <= k < s.context@.len() ==> (#[trigger] s.context@[k]).args@.len() == 1,
        r matches Ok(sch) ==> sch.context@.len() == s.context@.len() && forall|k: int|
            0 <= k < s.context@.len() ==> (#[trigger] sch.context@[k]).class@ == s.context@[k].class_name@,
        r matches Ok(sch) ==> sch.vars@.len() == scheme_names(*s).len() && forall|k: int|
            0 <= k < sch.vars@.len() ==> (#[trigger] sch.vars@[k]).name@ == scheme_names(*s)[k],
        old(ctx).fresh_counter + scheme_names(*s).len() <= u32::MAX ==> (r matches Ok(sch) ==> forall|k: int|
            0 <= k < sch.vars@.len() ==> (#[trigger] sch.vars@[k]).id == old(ctx).fresh_counter + k),
        r matches Err(e) ==> (e.kind is Other ==> exists|k: int|
            0 <= k < s.context@.len() && (#[trigger] s.context@[k]).args@.len() != 1 && e.span == s.context@[k].span
                && forall|q: int| 0 <= q < k ==> (#[trigger] s.context@[q]).args@.len() == 1),
{
    let mut names: Vec<String> = Vec::new();
    let mut i: usize = 0;
    while i < s.forall.len()
        invariant
            i <= s.forall@.len(),
            string_views(names@) == forall_names(s.forall@, i as int),
        decreases s.forall.len() - i,
    {
        let ghost n0 = string_views(names@);
        if !crate::resolver::exports::contains_text(&names, &s.forall[i]) {
            names.push(s.forall[i].clone());
            assert(string_views(names@) =~= n0.push(s.forall@[i as int]@));
        }
        i = i + 1;
    }
    collect_names_in_ty(&s.body, &mut names);
    let mut c: usize = 0;
    while c < s.context.len()
        invariant
            c <= s.context@.len(),
            string_views(names@) == context_names(
                names_into(forall_names(s.forall@, s.forall@.len() as int), s.body),
                s.context@,
                c as int,
            ),
        decreases s.context.len() - c,
    {
        let mut a: usize = 0;
        let ghost base = string_views(names@);
        while a < s.context[c].args.len()
            invariant
                c < s.context@.len(),
                a <= s.context@[c as int].args@.len(),
                string_views(names@) == args_names(base, s.context@[c as int].args@, a as int),
            decreases s.context@[c as int].args@.len() - a,
        {
            collect_names_in_ty(&s.context[c].args[a], &mut names);
            a = a + 1;
        }
        c = c + 1;
    }
    let ghost nv_all = string_views(names@);
    assert(nv_all == scheme_names(*s));
    let mut locals: Vec<(String, TyVar)> = Vec::new();
    let mut rigids: Vec<TyVar> = Vec::new();
    let mut n: usize = 0;
    while n < names.len()
        invariant
            ctx.wf(),
            only_counter_moved(*old(ctx), *ctx),
            keys_unique(locals@),
            n <= names@.len(),
            nv_all == string_views(names@),
            rigids@.len() == n,
            forall|k: int| 0 <= k < n ==> (#[trigger] rigids@[k]).name@ == nv_all[k],
            old(ctx).fresh_counter + nv_all.len() <= u32::MAX ==> ctx.fresh_counter == old(ctx).fresh_counter + n
                && forall|k: int| 0 <= k < n ==> (#[trigger] rigids@[k]).id == old(ctx).fresh_counter + k,
        decreases names.len() - n,
    {
        let v = fresh_var(&mut ctx.fresh_counter);
        let nv = TyVar { id: v.id, name: names[n].clone() };
        table_insert(&mut locals, names[n].clone(), nv.clone());
        rigids.push(nv);
        n = n + 1;
    }
    let body = match ty_from_ast(ctx, &s.body, &locals) {
        Ok(t) => t,
        Err(e) => return Err(e),
    };
    let mut context: Vec<Constraint> = Vec::new();
    let mut k: usize = 0;
    while k < s.context.len()
        invariant
            ctx.wf(),
            only_counter_moved(*old(ctx), *ctx),
            keys_unique(locals@),
            k <= s.context@.len(),
            context@.len() == k,
            forall|q: int| 0 <= q < k ==> (#[trigger] context@[q]).class@ == s.context@[q].class_name@,
            forall|q: int| 0 <= q < k ==> (#[trigger] s.context@[q]).args@.len() == 1,
            rigids@.len() == nv_all.len(),
            old(ctx).fresh_counter + nv_all.len() <= u32::MAX ==> forall|q: int|
                0 <= q < rigids@.len() ==> (#[trigger] rigids@[q]).id == old(ctx).fresh_counter + q,
            forall|q: int| 0 <= q < rigids@.len() ==> (#[trigger] rigids@[q]).name@ == nv_all[q],
            nv_all == scheme_names(*s),
        decreases s.context.len() - k,
    {
        let cst = &s.context[k];
        if cst.args.len() != 1 {
            let mut msg = String::from_str("class `");
            msg.append(cst.class_name.as_str());
            msg.append("` constraint must have one argument");
            return Err(TypeError::new(TypeErrorKind::Other { msg }, cst.span));
        }
        let arg = match ty_from_ast(ctx, &cst.args[0], &locals) {
            Ok(t) => t,
            Err(e) => return Err(e),
        };
        context.push(Constraint { class: cst.class_name.clone(), arg });
        k = k + 1;
    }
    Ok(Scheme { vars: rigids, context, body })
}


/// `List`, of kind `* -> *`.
fn list_con() -> (r: Ty)
    ensures
        r == (Ty::Con { name: r->name, kind: Kind::Arrow(Box::new(Kind::Star), Box::new(Kind::Star)) }),
        r@ == super::ty::TyView::Con("List"@),
{
    Ty::con(String::from_str("List"), Kind::arr(Kind::Star, Kind::Star))
}

/// The type of a literal, by its view.
pub open spec fn literal_view(lit: Literal) -> TyView {
    match lit {
        Literal::Int(_) => TyView::Con("Int"@),
        Literal::Str(_) => TyView::Con("String"@),
    }
}

/// The type of a literal.
pub fn literal_type(lit: &Literal) -> (r: Ty)
    ensures
        lit is Int ==> r@ == super::ty::TyView::Con("Int"@),
        lit is Str ==> r@ == super::ty::TyView::Con("String"@),
{
    match lit {
        Literal::Int(_) => Ty::star(String::from_str("Int")),
        Literal::Str(_) => Ty::star(String::from_str("String")),
    }
}

/// Fields of a record type: the type of the first one named `name`.
fn find_field<'a>(fs: &'a Vec<(String, Ty)>, name: &String) -> (r: Option<&'a Ty>)
    ensures
        r matches Some(t) ==> exists|k: int|
            0 <= k < fs@.len() && fs@[k].0@ == name@ && *t == fs@[k].1 && forall|q: int|
                0 <= q < k ==> fs@[q].0@ != name@,
        r is None ==> forall|k: int| 0 <= k < fs@.len() ==> fs@[k].0@ != name@,
{
    let mut i: usize = 0;
    while i < fs.len()
        invariant
            i <= fs@.len(),
            forall|q: int| 0 <= q < i ==> fs@[q].0@ != name@,
        decreases fs.len() - i,
    {
        if fs[i].0.eq(name) {
            return Some(&fs[i].1);
        }
        i = i + 1;
    }
    None
}

/// Bind the variables of a pattern in the innermost local scope, the
/// pattern matched against `expected`; the substitution that makes it
/// fit.
fn bind_pattern(ctx: &mut InferCtx, pat: &Pattern, expected: &Ty) -> (r: Result<Subst, TypeError>)
    requires
        old(ctx).wf(),
    ensures
        final(ctx).wf(),
        r matches Ok(s) ==> s.wf(),
        *pat is Wildcard ==> (r matches Ok(s) && s@ == Map::<u32, TyView>::empty()) && *final(ctx) == *old(ctx),
        pat matches Pattern::Var { name, .. } ==> (r matches Ok(s) && s@ == Map::<u32, TyView>::empty())
            && (frames_get(final(ctx).type_env.locals@, name@) matches Some(sch) && sch.vars@.len() == 0
            && sch.context@.len() == 0 && sch.body@ == expected@),
        pat matches Pattern::Lit(lit, _) ==> (r matches Ok(s) ==> apply_subst(s@, literal_view(*lit)) == apply_subst(
            s@,
            expected@,
        )),
        pat matches Pattern::Lit(lit, _) ==> (r is Ok <==> super::unify::unifiable(literal_view(*lit), expected@)),
        pat matches Pattern::List { items, .. } ==> ((forall|k: int| 0 <= k < items@.len() ==> binds_plainly(#[trigger] items@[k]))
            ==> (r is Ok <==> super::unify::unifiable(list_of_fresh(old(ctx).fresh_counter), expected@))),
        pat matches Pattern::Con { name, args, .. } ==> match table_get(old(ctx).type_env.ctors@, name@) {
            Some(ci) => ci.arity == args@.len() && (forall|k: int| 0 <= k < args@.len() ==> binds_plainly(#[trigger] args@[k]))
                && old(ctx).fresh_counter + ci.scheme.vars@.len() <= u32::MAX ==> (r is Ok <==> super::unify::unifiable(
                super::ty::fun_result(apply_subst(fresh_renaming(ci.scheme.vars@, old(ctx).fresh_counter), ci.scheme.body@)),
                expected@,
            )),
            None => true,
        },
        pat matches Pattern::Cons { head, tail, .. } ==> (binds_plainly(**head) && binds_plainly(**tail) ==> (r is Ok
            <==> super::unify::unifiable(list_of_fresh(old(ctx).fresh_counter), expected@))),
        pat matches Pattern::Con { name, .. } ==> (table_get(old(ctx).type_env.ctors@, name@) is None ==> r is Err),
        pat matches Pattern::Con { name, args, .. } ==> (table_get(old(ctx).type_env.ctors@, name@) matches Some(ci)
            && ci.arity != args@.len() ==> (r matches Err(e) && e.kind is CtorArity)),
    decreases pat,
{
    match pat {
        Pattern::Wildcard(_) => Ok(Subst::new()),
        Pattern::Var { name, .. } => {
            ctx.type_env.bind_local(name.clone(), Scheme::mono(expected.clone()));
            Ok(Subst::new())
        },
        Pattern::As { name, inner, .. } => {
            ctx.type_env.bind_local(name.clone(), Scheme::mono(expected.clone()));
            bind_pattern(ctx, inner, expected)
        },
        Pattern::Lit(lit, span) => {
            let ty = literal_type(lit);
            let r = super::unify::unify(&ty, expected, *span);
            proof {
                if let Ok(s) = &r {
                    super::unify::lemma_unifies_unifiable(s@, ty@, expected@);
                }
            }
            r
        },
        Pattern::Con { name, args, span, .. } => {
            let found = match table_lookup(&ctx.type_env.ctors, name.as_str()) {
                Some(ci) => Some((ci.scheme.clone(), ci.arity)),
                None => None,
            };
            let (scheme, arity) = match found {
                Some(x) => x,
                None => {
                    let mut msg = String::from_str("unknown constructor `");
                    msg.append(name.as_str());
                    msg.append("`");
                    return Err(TypeError::new(TypeErrorKind::Other { msg }, *span));
                },
            };
            if arity != args.len() {
                return Err(
                    TypeError::new(
                        TypeErrorKind::CtorArity { ctor: name.clone(), expected: arity, found: args.len() },
                        *span,
                    ),
                );
            }
            let (ctor_ty, _ctor_ctx) = ctx.instantiate(&scheme);
            let (arg_refs, result_ref) = ctor_ty.split_fun();
            let mut arg_tys: Vec<Ty> = Vec::new();
            let mut i: usize = 0;
            while i < arg_refs.len()
                invariant
                    !(*pat is Wildcard) && !(*pat is Var) && !(*pat is Lit) && !(*pat is Cons) && !(*pat is List),
                    pat matches Pattern::Con { name, args, .. } ==> (table_get(old(ctx).type_env.ctors@, name@) matches Some(ci)
                        && ci.arity == args@.len()),
                    i <= arg_refs@.len(),
                    arg_tys@.len() == i,
                decreases arg_refs.len() - i,
            {
                arg_tys.push(arg_refs[i].clone());
                i = i + 1;
            }
            let result = result_ref.clone();
            let ghost res_view = result@;
            let mut sub = match super::unify::unify(&result, expected, *span) {
                Ok(s) => s,
                Err(e) => return Err(e),
            };
            proof {
                super::unify::lemma_unifies_unifiable(sub@, result@, expected@);
            }
            proof {
                assert(decreases_to!(pat => args));
                assert(decreases_to!(args => args@));
            }
            let mut k: usize = 0;
            while k < args.len() && k < arg_tys.len()
                invariant
                    !(*pat is Wildcard) && !(*pat is Var) && !(*pat is Lit) && !(*pat is Cons) && !(*pat is List),
                    pat matches Pattern::Con { name, args, .. } ==> (table_get(old(ctx).type_env.ctors@, name@) matches Some(ci)
                        && ci.arity == args@.len()),
                    ctx.wf(),
                    sub.wf(),
                    k <= args@.len(),
                    decreases_to!(pat => args@),
                    *pat is Con && pat->args == *args,
                    super::unify::unifiable(res_view, expected@),
                decreases args.len() - k,
            {
                proof {
                    assert(decreases_to!(args@ => args@[k as int]));
                }
                let t = sub.apply(&arg_tys[k]);
                let s2 = match bind_pattern(ctx, &args[k], &t) {
                    Ok(s2) => s2,
                    Err(e) => return Err(e),
                };
                sub = s2.compose(&sub);
                k = k + 1;
            }
            Ok(sub)
        },
        Pattern::Cons { head, tail, span } => {
            let elem = ctx.fresh_ty();
            let list_ty = Ty::app(list_con(), elem.clone());
            let mut sub = match super::unify::unify(&list_ty, expected, *span) {
                Ok(s) => s,
                Err(e) => return Err(e),
            };
            proof {
                super::unify::lemma_unifies_unifiable(sub@, list_ty@, expected@);
            }
            let t1 = sub.apply(&elem);
            let s1 = match bind_pattern(ctx, head, &t1) {
                Ok(s) => s,
                Err(e) => return Err(e),
            };
            sub = s1.compose(&sub);
            let t2 = sub.apply(&list_ty);
            let s2 = match bind_pattern(ctx, tail, &t2) {
                Ok(s) => s,
                Err(e) => return Err(e),
            };
            sub = s2.compose(&sub);
            Ok(sub)
        },
        Pattern::List { items, span } => {
            let elem = ctx.fresh_ty();
            let list_ty = Ty::app(list_con(), elem.clone());
            let mut sub = match super::unify::unify(&list_ty, expected, *span) {
                Ok(s) => s,
                Err(e) => return Err(e),
            };
            proof {
                super::unify::lemma_unifies_unifiable(sub@, list_ty@, expected@);
            }
            proof {
                assert(decreases_to!(pat => items));
                assert(decreases_to!(items => items@));
            }
            let mut k: usize = 0;
            while k < items.len()
                invariant
                    !(*pat is Wildcard) && !(*pat is Var) && !(*pat is Lit) && !(*pat is Cons) && !(*pat is Con),
                    pat matches Pattern::Con { name, args, .. } ==> (table_get(old(ctx).type_env.ctors@, name@) matches Some(ci)
                        && ci.arity == args@.len()),
                    ctx.wf(),
                    sub.wf(),
                    k <= items@.len(),
                    decreases_to!(pat => items@),
                    *pat is List && pat->items == *items,
                    super::unify::unifiable(list_of_fresh(old(ctx).fresh_counter), expected@),
                decreases items.len() - k,
            {
                proof {
                    assert(decreases_to!(items@ => items@[k as int]));
                }
                let t = sub.apply(&elem);
                let s2 = match bind_pattern(ctx, &items[k], &t) {
                    Ok(s2) => s2,
                    Err(e) => return Err(e),
                };
                sub = s2.compose(&sub);
                k = k + 1;
            }
            Ok(sub)
        },
        Pattern::Record { fields, span } => {
            proof {
                assert(decreases_to!(pat => fields));
                assert(decreases_to!(fields => fields@));
            }
            match expected {
                Ty::Record(fs) => {
                    let mut sub = Subst::new();
                    let mut k: usize = 0;
                    while k < fields.len()
                        invariant
                            !(*pat is Wildcard) && !(*pat is Var) && !(*pat is Lit) && !(*pat is Cons) && !(*pat is Con) && !(*pat is List),
                            pat matches Pattern::Con { name, args, .. } ==> (table_get(old(ctx).type_env.ctors@, name@) matches Some(ci)
                                && ci.arity == args@.len()),
                            ctx.wf(),
                            sub.wf(),
                            k <= fields@.len(),
                            decreases_to!(pat => fields@),
                        decreases fields.len() - k,
                    {
                        proof {
                            assert(decreases_to!(fields@ => fields@[k as int]));
                            assert(decreases_to!(fields@[k as int] => fields@[k as int].1));
                        }
                        let fty = match find_field(fs, &fields[k].0) {
                            Some(t) => t,
                            None => {
                                return Err(
                                    TypeError::new(
                                        TypeErrorKind::RecordPatternField {
                                            field: fields[k].0.clone(),
                                            ty: expected.clone(),
                                        },
                                        *span,
                                    ),
                                );
                            },
                        };
                        let t = sub.apply(fty);
                        let s2 = match bind_pattern(ctx, &fields[k].1, &t) {
                            Ok(s2) => s2,
                            Err(e) => return Err(e),
                        };
                        sub = s2.compose(&sub);
                        k = k + 1;
                    }
                    Ok(sub)
                },
                Ty::Var(_) => {
                    let mut fs: Vec<(String, Ty)> = Vec::new();
                    let mut sub = Subst::new();
                    let mut k: usize = 0;
                    while k < fields.len()
                        invariant
                            !(*pat is Wildcard) && !(*pat is Var) && !(*pat is Lit) && !(*pat is Cons) && !(*pat is Con) && !(*pat is List),
                            pat matches Pattern::Con { name, args, .. } ==> (table_get(old(ctx).type_env.ctors@, name@) matches Some(ci)
                                && ci.arity == args@.len()),
                            ctx.wf(),
                            sub.wf(),
                            k <= fields@.len(),
                            decreases_to!(pat => fields@),
                        decreases fields.len() - k,
                    {
                        proof {
                            assert(decreases_to!(fields@ => fields@[k as int]));
                            assert(decreases_to!(fields@[k as int] => fields@[k as int].1));
                        }
                        let ft = ctx.fresh_ty();
                        let s2 = match bind_pattern(ctx, &fields[k].1, &ft) {
                            Ok(s2) => s2,
                            Err(e) => return Err(e),
                        };
                        sub = s2.compose(&sub);
                        fs.push((fields[k].0.clone(), sub.apply(&ft)));
                        k = k + 1;
                    }
                    let r = Ty::record(fs);
                    let target = sub.apply(expected);
                    let s3 = match super::unify::unify(&r, &target, *span) {
                        Ok(s3) => s3,
                        Err(e) => return Err(e),
                    };
                    Ok(s3.compose(&sub))
                },
                _ => Err(
                    TypeError::new(
                        TypeErrorKind::Mismatch { expected: expected.clone(), found: Ty::Record(Vec::new()) },
                        *span,
                    ),
                ),
            }
        },
        Pattern::Annot { inner, ty, span } => {
            let mut names: Vec<String> = Vec::new();
            collect_names_in_ty(ty, &mut names);
            let mut locals: Vec<(String, TyVar)> = Vec::new();
            let mut k: usize = 0;
            while k < names.len()
                invariant
                    !(*pat is Wildcard) && !(*pat is Var) && !(*pat is Lit) && !(*pat is Cons) && !(*pat is List),
                    pat matches Pattern::Con { name, args, .. } ==> (table_get(old(ctx).type_env.ctors@, name@) matches Some(ci)
                        && ci.arity == args@.len()),
                    ctx.wf(),
                    keys_unique(locals@),
                    k <= names@.len(),
                decreases names.len() - k,
            {
                let v = match ctx.type_env.lookup_type_local(names[k].as_str()) {
                    Some(v) => v.clone(),
                    None => ctx.fresh_named(names[k].as_str()),
                };
                table_insert(&mut locals, names[k].clone(), v);
                k = k + 1;
            }
            let ann_ty = match ty_from_ast(ctx, ty, &locals) {
                Ok(t) => t,
                Err(e) => return Err(e),
            };
            let s = match super::unify::unify(&ann_ty, expected, *span) {
                Ok(s) => s,
                Err(e) => return Err(e),
            };
            let t = s.apply(expected);
            let s2 = match bind_pattern(ctx, inner, &t) {
                Ok(s2) => s2,
                Err(e) => return Err(e),
            };
            Ok(s2.compose(&s))
        },
    }
}


/// The scheme of a variable: a local, else a global of the current
/// module, else of the prelude, else any global of that name; with a
/// module prefix, that module's global, else any global of that name.
fn lookup_var(ctx: &InferCtx, module_prefix: &str, name: &str, span: Span) -> (r: Result<Scheme, TypeError>)
    requires
        ctx.wf(),
    ensures
        r matches Err(e) ==> e.span == span && e.kind is Other,
        r is Ok <==> var_scheme(ctx.type_env, ctx.module@, module_prefix@, name@) is Some,
        r matches Ok(s) ==> scheme_copy(s, var_scheme(ctx.type_env, ctx.module@, module_prefix@, name@)->0),
{
    if module_prefix.is_empty() {
        match ctx.type_env.lookup_local(name) {
            Some(s) => {
                return Ok(s.clone());
            },
            None => {},
        }
        match ctx.type_env.global(ctx.module.as_str(), name) {
            Some(s) => {
                return Ok(s.clone());
            },
            None => {},
        }
        match ctx.type_env.global("Prelude", name) {
            Some(s) => {
                return Ok(s.clone());
            },
            None => {},
        }
        match any_global_named(ctx, name) {
            Some(s) => {
                return Ok(s.clone());
            },
            None => {},
        }
        let mut msg = String::from_str("unbound value `");
        msg.append(name);
        msg.append("`");
        Err(TypeError::new(TypeErrorKind::Other { msg }, span))
    } else {
        match ctx.type_env.global(module_prefix, name) {
            Some(s) => {
                return Ok(s.clone());
            },
            None => {},
        }
        match any_global_named(ctx, name) {
            Some(s) => {
                return Ok(s.clone());
            },
            None => {},
        }
        let mut msg = String::from_str("unbound ");
        msg.append(module_prefix);
        msg.append(".");
        msg.append(name);
        Err(TypeError::new(TypeErrorKind::Other { msg }, span))
    }
}

/// The scheme of the first global named `name`, in whatever module.
fn any_global_named<'a>(ctx: &'a InferCtx, name: &str) -> (r: Option<&'a Scheme>)
    ensures
        r matches Some(s) ==> first_global_named(ctx.type_env.globals@, name@) == Some(*s),
        r is None ==> first_global_named(ctx.type_env.globals@, name@) is None,
{
    let ghost gs = ctx.type_env.globals@;
    let mut i: usize = 0;
    assert(gs.skip(0) =~= gs);
    while i < ctx.type_env.globals.len()
        invariant
            i <= gs.len(),
            gs == ctx.type_env.globals@,
            first_global_named(gs, name@) == first_global_named(gs.skip(i as int), name@),
        decreases ctx.type_env.globals.len() - i,
    {
        assert(gs.skip(i as int)[0] == gs[i as int]);
        assert(gs.skip(i as int).drop_first() =~= gs.skip(i + 1));
        if text_is(&ctx.type_env.globals[i].0.name, name) {
            return Some(&ctx.type_env.globals[i].1);
        }
        i = i + 1;
    }
    None
}

/// The scheme of the first global named `name`, in whatever module.
pub open spec fn first_global_named(gs: Seq<(GlobalId, Scheme)>, name: Seq<char>) -> Option<Scheme>
    decreases gs.len(),
{
    if gs.len() == 0 {
        None
    } else if gs[0].0.name@ == name {
        Some(gs[0].1)
    } else {
        first_global_named(gs.drop_first(), name)
    }
}

/// The scheme a name stands for: an unqualified name is looked up among
/// the locals, the current module's globals, the prelude's, then any
/// module's; a qualified one in the module it names, then any module's.
pub open spec fn var_scheme(env: TypeEnv, module: Seq<char>, prefix: Seq<char>, name: Seq<char>) -> Option<Scheme> {
    if prefix.len() == 0 {
        match frames_get(env.locals@, name) {
            Some(s) => Some(s),
            None => match globals_get(env.globals@, module, name) {
                Some(s) => Some(s),
                None => match globals_get(env.globals@, "Prelude"@, name) {
                    Some(s) => Some(s),
                    None => first_global_named(env.globals@, name),
                },
            },
        }
    } else {
        match globals_get(env.globals@, prefix, name) {
            Some(s) => Some(s),
            None => first_global_named(env.globals@, name),
        }
    }
}

/// `a` is a copy of `b`: the same variables, the same constraints by
/// class and by type, the same body.
pub open spec fn scheme_copy(a: Scheme, b: Scheme) -> bool {
    &&& a.vars@ == b.vars@
    &&& a.context@.len() == b.context@.len()
    &&& forall|i: int|
        0 <= i < b.context@.len() ==> (#[trigger] a.context@[i]).class == b.context@[i].class
            && a.context@[i].arg@ == b.context@[i].arg@
    &&& a.body@ == b.body@
}

/// Instantiate the scheme and record its context as wanted at `span`.
fn instantiate_wanting(ctx: &mut InferCtx, scheme: &Scheme, span: Span) -> (r: Ty)
    requires
        old(ctx).wf(),
    ensures
        final(ctx).wf(),
        final(ctx).wanted@.len() == old(ctx).wanted@.len() + scheme.context@.len(),
        final(ctx).wanted@.take(old(ctx).wanted@.len() as int) == old(ctx).wanted@,
        forall|k: int|
            old(ctx).wanted@.len() <= k < final(ctx).wanted@.len() ==> (#[trigger] final(ctx).wanted@[k]).1 == span,
        final(ctx).type_env == old(ctx).type_env,
        final(ctx).inferred == old(ctx).inferred,
{
    let ghost w0 = ctx.wanted@;
    let (ty, cs) = ctx.instantiate(scheme);
    let mut k: usize = 0;
    while k < cs.len()
        invariant
            ctx.wf(),
            k <= cs@.len(),
            ctx.wanted@.len() == w0.len() + k,
            ctx.wanted@.take(w0.len() as int) == w0,
            forall|q: int| w0.len() <= q < ctx.wanted@.len() ==> (#[trigger] ctx.wanted@[q]).1 == span,
            ctx.type_env == old(ctx).type_env,
            ctx.inferred == old(ctx).inferred,
        decreases cs.len() - k,
    {
        let ghost wb = ctx.wanted@;
        ctx.add_wanted(cs[k].clone(), span);
        assert(ctx.wanted@.take(w0.len() as int) =~= wb.take(w0.len() as int));
        k = k + 1;
    }
    ty
}

/// The renaming that instantiation makes: the `i`-th quantified variable
/// to the fresh variable numbered `n0 + i` (a later variable of the same
/// id wins).
pub open spec fn fresh_renaming(vars: Seq<TyVar>, n0: u32) -> Map<u32, TyView>
    decreases vars.len(),
{
    if vars.len() == 0 {
        Map::empty()
    } else {
        fresh_renaming(vars.drop_last(), n0).insert(vars.last().id, TyView::Var((n0 + vars.len() - 1) as u32))
    }
}

/// The result of inferring an expression: its type and the substitution
/// found on the way.
pub open spec fn inferred_ok(r: Result<(Ty, Subst), TypeError>) -> bool {
    r matches Ok((_, s)) ==> s.wf()
}

/// Infer a lambda's parts: the parameters bound against fresh types in a
/// new local scope, then the body.
fn infer_lambda_parts(ctx: &mut InferCtx, params: &Vec<Pattern>, body: &Expr) -> (r: Result<(Ty, Subst), TypeError>)
    requires
        old(ctx).wf(),
    ensures
        final(ctx).wf(),
        inferred_ok(r),
        r matches Ok((t, _)) ==> is_arrow_of_arity(t@, params@.len()),
        (forall|k: int| 0 <= k < params@.len() ==> binds_plainly(#[trigger] params@[k])) && body is Lit ==> r is Ok,
    decreases body, 1nat,
{
    ctx.type_env.push_locals();
    let mut sub = Subst::new();
    let mut param_tys: Vec<Ty> = Vec::new();
    let mut i: usize = 0;
    while i < params.len()
        invariant
            ctx.wf(),
            sub.wf(),
            i <= params@.len(),
            param_tys@.len() == i,
        decreases params.len() - i,
    {
        let pty = ctx.fresh_ty();
        let s = match bind_pattern(ctx, &params[i], &pty) {
            Ok(s) => s,
            Err(e) => {
                proof {
                    assert(!binds_plainly(params@[i as int]));
                }
                return Err(e);
            },
        };
        sub = s.compose(&sub);
        param_tys.push(pty);
        i = i + 1;
    }
    let (bty, s2) = match infer_expr(ctx, body) {
        Ok(x) => x,
        Err(e) => return Err(e),
    };
    sub = s2.compose(&sub);
    ctx.type_env.pop_locals();
    let ghost body_ty = bty@;
    let res = wrap_params(&sub, &param_tys, bty);
    proof {
        let ps = param_tys@.map_values(|p: Ty| apply_subst(sub@, p@));
        assert(ps.len() == params@.len());
        assert(res@ == arrows(ps, body_ty));
    }
    Ok((res, sub))
}

/// `p₁ -> ... -> pₙ -> res`, with `sub` applied to the parameters.
fn wrap_params(sub: &Subst, param_tys: &Vec<Ty>, res: Ty) -> (r: Ty)
    requires
        sub.wf(),
    ensures
        r@ == arrows(param_tys@.map_values(|p: Ty| apply_subst(sub@, p@)), res@),
{
    let ghost ps = param_tys@.map_values(|p: Ty| apply_subst(sub@, p@));
    let ghost r0 = res@;
    let mut res = res;
    let mut i = param_tys.len();
    assert(ps.skip(i as int) =~= Seq::<TyView>::empty());
    while i > 0
        invariant
            sub.wf(),
            i <= param_tys@.len(),
            ps == param_tys@.map_values(|p: Ty| apply_subst(sub@, p@)),
            res@ == arrows(ps.skip(i as int), r0),
        decreases i,
    {
        i = i - 1;
        let a = sub.apply(&param_tys[i]);
        proof {
            assert(ps.skip(i as int).drop_first() =~= ps.skip(i + 1));
            assert(ps.skip(i as int)[0] == a@);
        }
        res = Ty::fun(a, res);
    }
    assert(ps.skip(0) =~= ps);
    res
}

/// `t` is a curried function type with `n` parameters (the last result
/// may itself be a function type).
pub open spec fn is_arrow_of_arity(t: TyView, n: nat) -> bool {
    exists|ps: Seq<TyView>, res: TyView| ps.len() == n && t == arrows(ps, res)
}

/// `List a` for the fresh variable numbered `n`.
pub open spec fn list_of_fresh(n: u32) -> TyView {
    TyView::App(Box::new(TyView::Con("List"@)), Box::new(TyView::Var(n)))
}

/// A pattern that binds without looking at the type it is matched
/// against: a wildcard or a plain variable.
pub open spec fn binds_plainly(p: Pattern) -> bool {
    p is Wildcard || p is Var
}

/// The curried function type from the parameter types to `res`.
pub open spec fn arrows(params: Seq<TyView>, res: TyView) -> TyView
    decreases params.len(),
{
    if params.len() == 0 {
        res
    } else {
        TyView::Fun(Box::new(params[0]), Box::new(arrows(params.drop_first(), res)))
    }
}

/// Infer an expression, a lambda against the parameter types of a
/// function-type hint when the hint has enough of them.
fn infer_expr_with_hint(ctx: &mut InferCtx, expr: &Expr, hint: Option<&Ty>) -> (r: Result<(Ty, Subst), TypeError>)
    requires
        old(ctx).wf(),
    ensures
        final(ctx).wf(),
        inferred_ok(r),
        atom_inference(*old(ctx), *expr, r),
        expr matches Expr::Lambda { params, .. } ==> (r matches Ok((t, _)) ==> is_arrow_of_arity(t@, params@.len())),
    decreases expr, 1nat,
{
    match (expr, hint) {
        (Expr::Lambda { params, body, .. }, Some(hint_ty)) => {
            let (hint_args, _hint_res) = hint_ty.split_fun();
            if hint_args.len() >= params.len() {
                ctx.type_env.push_locals();
                let mut sub = Subst::new();
                let mut param_tys: Vec<Ty> = Vec::new();
                let mut i: usize = 0;
                while i < params.len()
                    invariant
                        ctx.wf(),
                        sub.wf(),
                        i <= params@.len(),
                        hint_args@.len() >= params@.len(),
                        param_tys@.len() == i,
                        expr is Lambda,
                    decreases params.len() - i,
                {
                    let pty = hint_args[i].clone();
                    let s = match bind_pattern(ctx, &params[i], &pty) {
                        Ok(s) => s,
                        Err(e) => return Err(e),
                    };
                    sub = s.compose(&sub);
                    param_tys.push(pty);
                    i = i + 1;
                }
                let (bty, s2) = match infer_expr(ctx, body) {
                    Ok(x) => x,
                    Err(e) => return Err(e),
                };
                sub = s2.compose(&sub);
                ctx.type_env.pop_locals();
                let ghost body_ty = bty@;
                let res = wrap_params(&sub, &param_tys, bty);
                proof {
                    let ps = param_tys@.map_values(|p: Ty| apply_subst(sub@, p@));
                    assert(ps.len() == params@.len());
                    assert(res@ == arrows(ps, body_ty));
                }
                return Ok((res, sub));
            }
            infer_expr(ctx, expr)
        },
        _ => infer_expr(ctx, expr),
    }
}

/// The module path of a qualified name, dotted, or empty.
fn module_prefix_text(module: &Option<crate::ast::ModName>) -> (r: String)
    ensures
        module matches Some(m) ==> r@ == crate::text::join_text(crate::text::string_views(m.segments@), "."@),
        module is None ==> r@ == Seq::<char>::empty(),
{
    match module {
        Some(m) => crate::text::join_strings(&m.segments, "."),
        None => String::new(),
    }
}

/// The dotted module path of a qualified name, or the empty text.
pub open spec fn module_prefix_view(module: Option<crate::ast::ModName>) -> Seq<char> {
    match module {
        Some(m) => crate::text::join_text(crate::text::string_views(m.segments@), "."@),
        None => Seq::<char>::empty(),
    }
}

/// What inferring an atom gives in the context `ctx`: a literal has its
/// own type under the empty substitution; a name or an operator in
/// parentheses is found exactly when its scheme is in scope, and an
/// unknown one is reported at its own span.
pub open spec fn atom_inference(ctx: InferCtx, expr: Expr, r: Result<(Ty, Subst), TypeError>) -> bool {
    match expr {
        Expr::Lit(lit, _) => r matches Ok((t, s)) && t@ == literal_view(lit) && s@ == Map::<u32, TyView>::empty(),
        Expr::Var { module, name, span } => {
            &&& (r is Ok <==> var_scheme(ctx.type_env, ctx.module@, module_prefix_view(module), name@) is Some)
            &&& (r matches Err(e) ==> e.span == span)
        },
        Expr::OpRef { symbol, span } => {
            &&& (r is Ok <==> var_scheme(ctx.type_env, ctx.module@, Seq::<char>::empty(), symbol@) is Some)
            &&& (r matches Err(e) ==> e.span == span)
        },
        _ => true,
    }
}

/// Infer the type of an expression.
fn infer_expr(ctx: &mut InferCtx, expr: &Expr) -> (r: Result<(Ty, Subst), TypeError>)
    requires
        old(ctx).wf(),
    ensures
        final(ctx).wf(),
        inferred_ok(r),
        atom_inference(*old(ctx), *expr, r),
        expr matches Expr::Lambda { params, .. } ==> (r matches Ok((t, _)) ==> is_arrow_of_arity(t@, params@.len())),
    decreases expr, 0nat,
{
    match expr {
        Expr::Lit(lit, _) => Ok((literal_type(lit), Subst::new())),
        Expr::Var { module, name, span } => {
            let prefix = module_prefix_text(module);
            let scheme = match lookup_var(ctx, prefix.as_str(), name.as_str(), *span) {
                Ok(s) => s,
                Err(e) => return Err(e),
            };
            let ty = instantiate_wanting(ctx, &scheme, *span);
            Ok((ty, Subst::new()))
        },
        Expr::OpRef { symbol, span } => {
            proof {
                reveal_strlit("");
            }
            let scheme = match lookup_var(ctx, "", symbol.as_str(), *span) {
                Ok(s) => s,
                Err(e) => return Err(e),
            };
            let ty = instantiate_wanting(ctx, &scheme, *span);
            Ok((ty, Subst::new()))
        },
        Expr::App { func, arg, span } => {
            let (fty, s1) = match infer_expr(ctx, func) {
                Ok(x) => x,
                Err(e) => return Err(e),
            };
            let fty_a = s1.apply(&fty);
            let hint = match &fty_a {
                Ty::Fun(a, _) => Some((**a).clone()),
                _ => None,
            };
            let (aty, s2) = match infer_expr_with_hint(ctx, arg, hint.as_ref()) {
                Ok(x) => x,
                Err(e) => return Err(e),
            };
            let s12 = s2.compose(&s1);
            let res = ctx.fresh_ty();
            let lhs = s12.apply(&fty);
            let rhs = Ty::fun(s12.apply(&aty), res.clone());
            let s3 = match super::unify::unify(&lhs, &rhs, *span) {
                Ok(s) => s,
                Err(e) => return Err(e),
            };
            let s = s3.compose(&s12);
            Ok((s.apply(&res), s))
        },
        Expr::Lambda { params, body, .. } => infer_lambda_parts(ctx, params, body),
        Expr::Let { name, params, value, body, .. } => {
            ctx.type_env.push_locals();
            let fresh_tv = ctx.fresh_ty();
            ctx.type_env.bind_local(name.clone(), Scheme::mono(fresh_tv.clone()));
            let inferred = if params.len() == 0 {
                infer_expr(ctx, value)
            } else {
                infer_lambda_parts(ctx, params, value)
            };
            let (vty, s1) = match inferred {
                Ok(x) => x,
                Err(e) => return Err(e),
            };
            let a = s1.apply(&vty);
            let b = s1.apply(&fresh_tv);
            let s2 = match super::unify::unify(&a, &b, value.span()) {
                Ok(s) => s,
                Err(e) => return Err(e),
            };
            let sub = s2.compose(&s1);
            let scheme = ctx.generalize_excluding(&sub, &fresh_tv, Some(name.as_str()));
            ctx.type_env.bind_local(name.clone(), scheme);
            let (bty, s3) = match infer_expr(ctx, body) {
                Ok(x) => x,
                Err(e) => return Err(e),
            };
            let sub = s3.compose(&sub);
            ctx.type_env.pop_locals();
            Ok((sub.apply(&bty), sub))
        },
        Expr::If { cond, then_branch, else_branch, span } => {
            let (ct, s1) = match infer_expr(ctx, cond) {
                Ok(x) => x,
                Err(e) => return Err(e),
            };
            let c1 = s1.apply(&ct);
            let s2 = match super::unify::unify(&c1, &Ty::star(String::from_str("Bool")), cond.span()) {
                Ok(s) => s,
                Err(e) => return Err(e),
            };
            let s12 = s2.compose(&s1);
            let (tt, s3) = match infer_expr(ctx, then_branch) {
                Ok(x) => x,
                Err(e) => return Err(e),
            };
            let s123 = s3.compose(&s12);
            let (et, s4) = match infer_expr(ctx, else_branch) {
                Ok(x) => x,
                Err(e) => return Err(e),
            };
            let s1234 = s4.compose(&s123);
            let a = s1234.apply(&tt);
            let b = s1234.apply(&et);
            let s5 = match super::unify::unify(&a, &b, *span) {
                Ok(s) => s,
                Err(e) => return Err(e),
            };
            let sub = s5.compose(&s1234);
            Ok((sub.apply(&tt), sub))
        },
        Expr::Case { scrutinee, arms, .. } => {
            let (sty, s1) = match infer_expr(ctx, scrutinee) {
                Ok(x) => x,
                Err(e) => return Err(e),
            };
            let mut sub = s1;
            let res = ctx.fresh_ty();
            proof {
                assert(decreases_to!(expr => arms));
                assert(decreases_to!(arms => arms@));
            }
            let mut k: usize = 0;
            while k < arms.len()
                invariant
                    expr is Case,
                    ctx.wf(),
                    sub.wf(),
                    k <= arms@.len(),
                    decreases_to!(expr => arms@),
                decreases arms.len() - k,
            {
                proof {
                    assert(decreases_to!(arms@ => arms@[k as int]));
                    assert(decreases_to!(arms@[k as int] => arms@[k as int].body));
                }
                let arm: &CaseArm = &arms[k];
                ctx.type_env.push_locals();
                let t = sub.apply(&sty);
                let sp = match bind_pattern(ctx, &arm.pattern, &t) {
                    Ok(s) => s,
                    Err(e) => return Err(e),
                };
                sub = sp.compose(&sub);
                let (bt, sb) = match infer_expr(ctx, &arm.body) {
                    Ok(x) => x,
                    Err(e) => return Err(e),
                };
                sub = sb.compose(&sub);
                let a = sub.apply(&bt);
                let b = sub.apply(&res);
                let su = match super::unify::unify(&a, &b, arm.span) {
                    Ok(s) => s,
                    Err(e) => return Err(e),
                };
                sub = su.compose(&sub);
                ctx.type_env.pop_locals();
                k = k + 1;
            }
            Ok((sub.apply(&res), sub))
        },
        Expr::BinOp { op, left, right, span } => {
            let scheme = match lookup_var(ctx, "", op.as_str(), *span) {
                Ok(s) => s,
                Err(e) => return Err(e),
            };
            let op_ty = instantiate_wanting(ctx, &scheme, *span);
            let (lt, s1) = match infer_expr(ctx, left) {
                Ok(x) => x,
                Err(e) => return Err(e),
            };
            let (rt, s2) = match infer_expr(ctx, right) {
                Ok(x) => x,
                Err(e) => return Err(e),
            };
            finish_binop(ctx, op_ty, lt, s1, rt, s2, *span)
        },
        Expr::Neg { value, span } => {
            let (t, s1) = match infer_expr(ctx, value) {
                Ok(x) => x,
                Err(e) => return Err(e),
            };
            let a = s1.apply(&t);
            let s2 = match super::unify::unify(&a, &Ty::star(String::from_str("Int")), *span) {
                Ok(s) => s,
                Err(e) => return Err(e),
            };
            let sub = s2.compose(&s1);
            Ok((Ty::star(String::from_str("Int")), sub))
        },
        Expr::RecordLit { fields, .. } => {
            proof {
                assert(decreases_to!(expr => fields));
                assert(decreases_to!(fields => fields@));
            }
            let mut sub = Subst::new();
            let mut fs: Vec<(String, Ty)> = Vec::new();
            let mut k: usize = 0;
            while k < fields.len()
                invariant
                    expr is RecordLit,
                    ctx.wf(),
                    sub.wf(),
                    k <= fields@.len(),
                    decreases_to!(expr => fields@),
                decreases fields.len() - k,
            {
                proof {
                    assert(decreases_to!(fields@ => fields@[k as int]));
                    assert(decreases_to!(fields@[k as int] => fields@[k as int].1));
                }
                let f: &ExprField = &fields[k];
                let (t, s) = match infer_expr(ctx, &f.1) {
                    Ok(x) => x,
                    Err(e) => return Err(e),
                };
                sub = s.compose(&sub);
                fs.push((f.0.clone(), sub.apply(&t)));
                k = k + 1;
            }
            Ok((Ty::record(fs), sub))
        },
        Expr::RecordUpdate { record, fields, span } => {
            let (rty, s1) = match infer_expr(ctx, record) {
                Ok(x) => x,
                Err(e) => return Err(e),
            };
            let mut sub = s1;
            let after = sub.apply(&rty);
            let mut fs: Vec<(String, Ty)> = match &after {
                Ty::Record(exist_fs) => {
                    let c = after.clone();
                    match c {
                        Ty::Record(v) => v,
                        _ => Vec::new(),
                    }
                },
                _ => {
                    return Err(
                        TypeError::new(
                            TypeErrorKind::Mismatch { expected: Ty::Record(Vec::new()), found: after.clone() },
                            *span,
                        ),
                    );
                },
            };
            proof {
                assert(decreases_to!(expr => fields));
                assert(decreases_to!(fields => fields@));
            }
            let mut k: usize = 0;
            while k < fields.len()
                invariant
                    expr is RecordUpdate,
                    ctx.wf(),
                    sub.wf(),
                    k <= fields@.len(),
                    decreases_to!(expr => fields@),
                decreases fields.len() - k,
            {
                proof {
                    assert(decreases_to!(fields@ => fields@[k as int]));
                    assert(decreases_to!(fields@[k as int] => fields@[k as int].1));
                }
                let f: &ExprField = &fields[k];
                let (ft, s) = match infer_expr(ctx, &f.1) {
                    Ok(x) => x,
                    Err(e) => return Err(e),
                };
                sub = s.compose(&sub);
                let mut pos: usize = 0;
                while pos < fs.len() && !fs[pos].0.eq(&f.0)
                    invariant
                        expr is RecordUpdate,
                        pos <= fs@.len(),
                    decreases fs.len() - pos,
                {
                    pos = pos + 1;
                }
                if pos >= fs.len() {
                    return Err(
                        TypeError::new(
                            TypeErrorKind::MissingField { field: f.0.clone(), ty: after.clone() },
                            *span,
                        ),
                    );
                }
                let existing = fs[pos].1.clone();
                let a = sub.apply(&existing);
                let b = sub.apply(&ft);
                let s_u = match super::unify::unify(&a, &b, *span) {
                    Ok(s) => s,
                    Err(e) => return Err(e),
                };
                sub = s_u.compose(&sub);
                let nt = sub.apply(&ft);
                fs.set(pos, (f.0.clone(), nt));
                k = k + 1;
            }
            let result = Ty::record(fs);
            Ok((sub.apply(&result), sub))
        },
        Expr::FieldAccess { record, field, span } => {
            let (rty, s1) = match infer_expr(ctx, record) {
                Ok(x) => x,
                Err(e) => return Err(e),
            };
            let rty_a = s1.apply(&rty);
            match &rty_a {
                Ty::Record(fs) => match find_field(fs, field) {
                    Some(t) => Ok((t.clone(), s1)),
                    None => Err(
                        TypeError::new(
                            TypeErrorKind::MissingField { field: field.clone(), ty: rty_a.clone() },
                            *span,
                        ),
                    ),
                },
                Ty::Var(_) => {
                    let fresh = ctx.fresh_ty();
                    ctx.pending_fields.push((rty_a.clone(), field.clone(), fresh.clone(), *span));
                    Ok((fresh, s1))
                },
                _ => Err(
                    TypeError::new(
                        TypeErrorKind::MissingField { field: field.clone(), ty: rty_a.clone() },
                        *span,
                    ),
                ),
            }
        },
        Expr::ListLit { items, .. } => {
            let elem = ctx.fresh_ty();
            let mut sub = Subst::new();
            proof {
                assert(decreases_to!(expr => items));
                assert(decreases_to!(items => items@));
            }
            let mut k: usize = 0;
            while k < items.len()
                invariant
                    expr is ListLit,
                    ctx.wf(),
                    sub.wf(),
                    k <= items@.len(),
                    decreases_to!(expr => items@),
                decreases items.len() - k,
            {
                proof {
                    assert(decreases_to!(items@ => items@[k as int]));
                }
                let (t, s) = match infer_expr(ctx, &items[k]) {
                    Ok(x) => x,
                    Err(e) => return Err(e),
                };
                sub = s.compose(&sub);
                let a = sub.apply(&t);
                let b = sub.apply(&elem);
                let su = match super::unify::unify(&a, &b, items[k].span()) {
                    Ok(s) => s,
                    Err(e) => return Err(e),
                };
                sub = su.compose(&sub);
                k = k + 1;
            }
            Ok((Ty::app(list_con(), sub.apply(&elem)), sub))
        },
        Expr::Do { stmts, span } => {
            if stmts.len() == 0 {
                return Err(TypeError::new(TypeErrorKind::EmptyDo, *span));
            }
            match &stmts[stmts.len() - 1] {
                DoStmt::Expr(_) => {},
                _ => {
                    return Err(TypeError::new(TypeErrorKind::InvalidDoFinalStmt, *span));
                },
            }
            proof {
                assert(decreases_to!(expr => stmts));
            }
            infer_do_tail(ctx, stmts, 0)
        },
    }
}

/// Unify an operator's type against `left -> right -> result` under the
/// operands' substitutions.
fn finish_binop(ctx: &mut InferCtx, op_ty: Ty, lt: Ty, s1: Subst, rt: Ty, s2: Subst, span: Span) -> (r: Result<
    (Ty, Subst),
    TypeError,
>)
    requires
        old(ctx).wf(),
        s1.wf(),
        s2.wf(),
    ensures
        final(ctx).wf(),
        inferred_ok(r),
        r matches Ok((t, sub)) ==> binop_solution(
            compose_map(s2@, s1@),
            op_ty@,
            lt@,
            rt@,
            TyView::Var(old(ctx).fresh_counter),
            t@,
            sub@,
        ),
        r matches Err(e) ==> super::unify::unify_error(e, span),
        r is Ok <==> super::unify::unifiable(
            apply_subst(compose_map(s2@, s1@), op_ty@),
            TyView::Fun(
                Box::new(apply_subst(compose_map(s2@, s1@), lt@)),
                Box::new(
                    TyView::Fun(
                        Box::new(apply_subst(compose_map(s2@, s1@), rt@)),
                        Box::new(TyView::Var(old(ctx).fresh_counter)),
                    ),
                ),
            ),
        ),
{
    let s12 = s2.compose(&s1);
    let res = ctx.fresh_ty();
    let expected = Ty::fun(s12.apply(&lt), Ty::fun(s12.apply(&rt), res.clone()));
    let lhs = s12.apply(&op_ty);
    let s3 = match super::unify::unify(&lhs, &expected, span) {
        Ok(s) => s,
        Err(e) => return Err(e),
    };
    let sub = s3.compose(&s12);
    let t = sub.apply(&res);
    proof {
        assert(super::unify::unifies(s3@, lhs@, expected@));
        super::unify::lemma_unifies_unifiable(s3@, lhs@, expected@);
    }
    Ok((t, sub))
}

/// The outcome of an operator application: under the substitution `s12`
/// found for the operands, the operator's type was unified by some `s3`
/// with `lt -> rt -> res`; the result is `res` under `s3` after `s12`.
pub open spec fn binop_solution(
    s12: Map<u32, TyView>,
    op: TyView,
    lt: TyView,
    rt: TyView,
    res: TyView,
    t: TyView,
    sub: Map<u32, TyView>,
) -> bool {
    exists|s3: Map<u32, TyView>|
        #![trigger compose_map(s3, s12)]
        super::unify::unifies(
            s3,
            apply_subst(s12, op),
            TyView::Fun(
                Box::new(apply_subst(s12, lt)),
                Box::new(TyView::Fun(Box::new(apply_subst(s12, rt)), Box::new(res))),
            ),
        ) && sub == compose_map(s3, s12) && t == apply_subst(sub, res)
}

/// Infer the statements of a `do` block from `i` on, read as
/// `e >>= \p -> rest` for a bind, `e >>= \_ -> rest` for an expression,
/// and `let ... in rest` for a `let`; the last statement is the
/// block's value.
fn infer_do_tail(ctx: &mut InferCtx, stmts: &Vec<DoStmt>, i: usize) -> (r: Result<(Ty, Subst), TypeError>)
    requires
        old(ctx).wf(),
        i < stmts@.len(),
    ensures
        final(ctx).wf(),
        inferred_ok(r),
        i == stmts@.len() - 1 ==> match stmts@[i as int] {
            DoStmt::Expr(e) => atom_inference(*old(ctx), e, r),
            _ => r matches Err(e) && e.kind is InvalidDoFinalStmt,
        },
    decreases stmts, 2 * (stmts@.len() - i),
{
    proof {
        assert(decreases_to!(stmts => stmts@));
        assert(decreases_to!(stmts@ => stmts@[i as int]));
    }
    if i == stmts.len() - 1 {
        return match &stmts[i] {
            DoStmt::Expr(e) => {
                proof {
                    assert(decreases_to!(stmts@[i as int] => *e));
                }
                infer_expr(ctx, e)
            },
            _ => Err(TypeError::new(TypeErrorKind::InvalidDoFinalStmt, Span::new(0, 0))),
        };
    }
    match &stmts[i] {
        DoStmt::Bind { pattern, expr, span } => {
            proof {
                assert(decreases_to!(stmts@[i as int] => *expr));
            }
            let scheme = match lookup_var(ctx, "", ">>=", *span) {
                Ok(s) => s,
                Err(e) => return Err(e),
            };
            let op_ty = instantiate_wanting(ctx, &scheme, *span);
            let (lt, s1) = match infer_expr(ctx, expr) {
                Ok(x) => x,
                Err(e) => return Err(e),
            };
            let (rt, s2) = match infer_do_lambda(ctx, pattern, stmts, i + 1) {
                Ok(x) => x,
                Err(e) => return Err(e),
            };
            finish_binop(ctx, op_ty, lt, s1, rt, s2, *span)
        },
        DoStmt::Expr(e) => {
            proof {
                assert(decreases_to!(stmts@[i as int] => *e));
            }
            let sp = e.span();
            let scheme = match lookup_var(ctx, "", ">>=", sp) {
                Ok(s) => s,
                Err(e) => return Err(e),
            };
            let op_ty = instantiate_wanting(ctx, &scheme, sp);
            let (lt, s1) = match infer_expr(ctx, e) {
                Ok(x) => x,
                Err(e) => return Err(e),
            };
            let wild = Pattern::Wildcard(sp);
            let (rt, s2) = match infer_do_lambda(ctx, &wild, stmts, i + 1) {
                Ok(x) => x,
                Err(e) => return Err(e),
            };
            finish_binop(ctx, op_ty, lt, s1, rt, s2, sp)
        },
        DoStmt::Let { name, params, value, .. } => {
            proof {
                assert(decreases_to!(stmts@[i as int] => *value));
            }
            ctx.type_env.push_locals();
            let fresh_tv = ctx.fresh_ty();
            ctx.type_env.bind_local(name.clone(), Scheme::mono(fresh_tv.clone()));
            let inferred = if params.len() == 0 {
                infer_expr(ctx, value)
            } else {
                infer_lambda_parts(ctx, params, value)
            };
            let (vty, s1) = match inferred {
                Ok(x) => x,
                Err(e) => return Err(e),
            };
            let a = s1.apply(&vty);
            let b = s1.apply(&fresh_tv);
            let s2 = match super::unify::unify(&a, &b, value.span()) {
                Ok(s) => s,
                Err(e) => return Err(e),
            };
            let sub = s2.compose(&s1);
            let scheme = ctx.generalize_excluding(&sub, &fresh_tv, Some(name.as_str()));
            ctx.type_env.bind_local(name.clone(), scheme);
            let (bty, s3) = match infer_do_tail(ctx, stmts, i + 1) {
                Ok(x) => x,
                Err(e) => return Err(e),
            };
            let sub = s3.compose(&sub);
            ctx.type_env.pop_locals();
            Ok((sub.apply(&bty), sub))
        },
    }
}

/// Infer `\pattern -> rest of the block from i`.
fn infer_do_lambda(ctx: &mut InferCtx, pattern: &Pattern, stmts: &Vec<DoStmt>, i: usize) -> (r: Result<
    (Ty, Subst),
    TypeError,
>)
    requires
        old(ctx).wf(),
        i < stmts@.len(),
    ensures
        final(ctx).wf(),
        inferred_ok(r),
        r matches Ok((t, _)) ==> is_arrow_of_arity(t@, 1),
        (binds_plainly(*pattern) && i == stmts@.len() - 1 && (stmts@[i as int] matches DoStmt::Expr(e) && e is Lit))
            ==> r is Ok,
    decreases stmts, 2 * (stmts@.len() - i) + 1,
{
    ctx.type_env.push_locals();
    let pty = ctx.fresh_ty();
    let s = match bind_pattern(ctx, pattern, &pty) {
        Ok(s) => s,
        Err(e) => return Err(e),
    };
    let sub = s.compose(&Subst::new());
    let (bty, s2) = match infer_do_tail(ctx, stmts, i) {
        Ok(x) => x,
        Err(e) => return Err(e),
    };
    let sub = s2.compose(&sub);
    ctx.type_env.pop_locals();
    let mut param_tys: Vec<Ty> = Vec::new();
    param_tys.push(pty);
    let ghost body_ty = bty@;
    let res = wrap_params(&sub, &param_tys, bty);
    proof {
        let ps = param_tys@.map_values(|p: Ty| apply_subst(sub@, p@));
        assert(ps.len() == 1);
        assert(res@ == arrows(ps, body_ty));
    }
    Ok((res, sub))
}


/// Infer a clause: its parameters against fresh types (or the hinted
/// ones, where given) in a new local scope, then its body; the clause's
/// function type.
fn infer_value_clause_hinted(ctx: &mut InferCtx, clause: &ValueClause, hint_params: Option<&Vec<Ty>>) -> (r: Result<
    (Ty, Subst),
    TypeError,
>)
    requires
        old(ctx).wf(),
    ensures
        final(ctx).wf(),
        inferred_ok(r),
        r matches Ok((t, _)) ==> is_arrow_of_arity(t@, clause.params@.len()),
        (forall|k: int| 0 <= k < clause.params@.len() ==> binds_plainly(#[trigger] clause.params@[k]))
            && clause.body is Lit ==> r is Ok,
{
    ctx.type_env.push_locals();
    let mut param_tys: Vec<Ty> = Vec::new();
    let mut global_sub = Subst::new();
    let mut i: usize = 0;
    while i < clause.params.len()
        invariant
            ctx.wf(),
            global_sub.wf(),
            i <= clause.params@.len(),
            param_tys@.len() == i,
        decreases clause.params.len() - i,
    {
        let pty = match hint_params {
            Some(hs) => {
                if i < hs.len() {
                    hs[i].clone()
                } else {
                    ctx.fresh_ty()
                }
            },
            None => ctx.fresh_ty(),
        };
        let s = match bind_pattern(ctx, &clause.params[i], &pty) {
            Ok(s) => s,
            Err(e) => {
                proof {
                    assert(!binds_plainly(clause.params@[i as int]));
                }
                return Err(e);
            },
        };
        global_sub = s.compose(&global_sub);
        param_tys.push(pty);
        i = i + 1;
    }
    let (body_ty, sub) = match infer_expr(ctx, &clause.body) {
        Ok(x) => x,
        Err(e) => return Err(e),
    };
    global_sub = sub.compose(&global_sub);
    ctx.type_env.pop_locals();
    let ghost bv = body_ty@;
    let result = wrap_params(&global_sub, &param_tys, body_ty);
    proof {
        let ps = param_tys@.map_values(|p: Ty| apply_subst(global_sub@, p@));
        assert(ps.len() == clause.params@.len());
        assert(result@ == arrows(ps, bv));
    }
    Ok((result, global_sub))
}

/// Infer a clause with fresh parameter types.
fn infer_value_clause(ctx: &mut InferCtx, clause: &ValueClause) -> (r: Result<(Ty, Subst), TypeError>)
    requires
        old(ctx).wf(),
    ensures
        final(ctx).wf(),
        inferred_ok(r),
        r matches Ok((t, _)) ==> is_arrow_of_arity(t@, clause.params@.len()),
{
    infer_value_clause_hinted(ctx, clause, None)
}

/// Check a clause against an expected type.
fn check_clause_against(ctx: &mut InferCtx, clause: &ValueClause, expected: &Ty) -> (r: Result<(), TypeError>)
    requires
        old(ctx).wf(),
    ensures
        final(ctx).wf(),
        r is Ok ==> exists|t: TyView, s: Map<u32, TyView>, s3: Map<u32, TyView>|
            is_arrow_of_arity(t, clause.params@.len()) && #[trigger] apply_subst(s3, apply_subst(s, t))
                == apply_subst(s3, apply_subst(s, expected@)),
{
    let (ty, sub) = match infer_value_clause(ctx, clause) {
        Ok(x) => x,
        Err(e) => return Err(e),
    };
    let a = sub.apply(&ty);
    let b = sub.apply(expected);
    match super::unify::unify(&a, &b, clause.span) {
        Ok(s3) => {
            proof {
                assert(apply_subst(s3@, apply_subst(sub@, ty@)) == apply_subst(s3@, apply_subst(sub@, expected@)));
            }
            Ok(())
        },
        Err(e) => Err(e),
    }
}

/// Append clones of `extra` to `v`.
fn extend_constraints(v: &mut Vec<Constraint>, extra: &Vec<Constraint>)
    ensures
        final(v)@.len() == old(v)@.len() + extra@.len(),
{
    let mut i: usize = 0;
    let ghost n0 = v@.len();
    while i < extra.len()
        invariant
            i <= extra@.len(),
            v@.len() == n0 + i,
        decreases extra.len() - i,
    {
        v.push(extra[i].clone());
        i = i + 1;
    }
}

/// Clones of the constraints.
fn copy_constraints(v: &Vec<Constraint>) -> (r: Vec<Constraint>)
    ensures
        r@.len() == v@.len(),
{
    let mut out: Vec<Constraint> = Vec::new();
    extend_constraints(&mut out, v);
    out
}

/// Check the clauses of one binding against its signature, or infer and
/// generalise them; field accesses deferred on the way are resolved
/// once the clauses are done, and the wanted constraints simplified.
fn check_value_binding(ctx: &mut InferCtx, name: &String, clauses: &Vec<&ValueClause>, sig: Option<Scheme>) -> (r:
    Result<Scheme, TypeError>)
    requires
        old(ctx).wf(),
    ensures
        final(ctx).wf(),
        sig matches Some(s) ==> (r matches Ok(t) ==> t == s && final(ctx).wanted@.len() == 0),
{
    let mut global_sub = Subst::new();
    let (expected_ty, assumed) = match &sig {
        Some(s) => (s.body.clone(), copy_constraints(&s.context)),
        None => {
            let tv = ctx.fresh_named(name.as_str());
            (Ty::Var(tv), Vec::new())
        },
    };
    let saved_assumed = copy_constraints(&ctx.assumed);
    extend_constraints(&mut ctx.assumed, &assumed);
    let mut c: usize = 0;
    while c < clauses.len()
        invariant
            ctx.wf(),
            global_sub.wf(),
            c <= clauses@.len(),
        decreases clauses.len() - c,
    {
        let clause = clauses[c];
        let hint: Option<Vec<Ty>> = if sig.is_some() {
            let applied = global_sub.apply(&expected_ty);
            let (args, _res) = applied.split_fun();
            let mut hints: Vec<Ty> = Vec::new();
            let mut k: usize = 0;
            while k < args.len()
                invariant
                    k <= args@.len(),
                decreases args.len() - k,
            {
                hints.push(args[k].clone());
                k = k + 1;
            }
            if hints.len() >= clause.params.len() {
                Some(hints)
            } else {
                None
            }
        } else {
            None
        };
        let (ty, sub) = match infer_value_clause_hinted(ctx, clause, hint.as_ref()) {
            Ok(x) => x,
            Err(e) => return Err(e),
        };
        global_sub = sub.compose(&global_sub);
        let a = global_sub.apply(&ty);
        let b = global_sub.apply(&expected_ty);
        let sub2 = match super::unify::unify(&a, &b, clause.span) {
            Ok(s) => s,
            Err(e) => return Err(e),
        };
        global_sub = sub2.compose(&global_sub);
        c = c + 1;
    }

    let mut pending: Vec<(Ty, String, Ty, Span)> = Vec::new();
    std::mem::swap(&mut pending, &mut ctx.pending_fields);
    loop
        invariant
            ctx.wf(),
            global_sub.wf(),
        decreases pending@.len(),
    {
        let mut still: Vec<(Ty, String, Ty, Span)> = Vec::new();
        let mut progress = false;
        let mut drained = pending;
        let n0: usize = drained.len();
        let mut taken: usize = 0;
        while drained.len() > 0
            invariant
                ctx.wf(),
                global_sub.wf(),
                drained@.len() + taken == n0,
                still@.len() <= taken,
                progress ==> still@.len() < taken,
            decreases drained.len(),
        {
            let (rty, field, result_ty, span) = drained.remove(0);
            taken = taken + 1;
            let rty_a = global_sub.apply(&rty);
            match &rty_a {
                Ty::Record(fs) => {
                    let fty = match find_field(fs, &field) {
                        Some(t) => t,
                        None => {
                            return Err(
                                TypeError::new(
                                    TypeErrorKind::MissingField { field, ty: rty_a.clone() },
                                    span,
                                ),
                            );
                        },
                    };
                    let a = global_sub.apply(fty);
                    let b = global_sub.apply(&result_ty);
                    let sub = match super::unify::unify(&a, &b, span) {
                        Ok(s) => s,
                        Err(e) => return Err(e),
                    };
                    global_sub = sub.compose(&global_sub);
                    progress = true;
                },
                _ => {
                    still.push((rty, field, result_ty, span));
                },
            }
        }
        pending = still;
        if !progress {
            break;
        }
    }
    if pending.len() > 0 {
        let mut msg = String::from_str("cannot resolve field access `.");
        msg.append(pending[0].1.as_str());
        msg.append("` — add a type annotation");
        return Err(TypeError::new(TypeErrorKind::Other { msg }, pending[0].3));
    }

    let mut local_counter = ctx.fresh_counter;
    let mut wanted_snapshot: Vec<Constraint> = Vec::new();
    let mut w: usize = 0;
    while w < ctx.wanted.len()
        invariant
            global_sub.wf(),
            w <= ctx.wanted@.len(),
        decreases ctx.wanted.len() - w,
    {
        wanted_snapshot.push(global_sub.apply_constraint(&ctx.wanted[w].0));
        w = w + 1;
    }
    let wanted_span = if ctx.wanted.len() > 0 {
        ctx.wanted[0].1
    } else {
        Span::new(0, 0)
    };
    let residual = match super::classes::simplify(
        &ctx.class_env,
        &ctx.assumed,
        &wanted_snapshot,
        wanted_span,
        &mut local_counter,
    ) {
        Ok(r) => r,
        Err(e) => return Err(e),
    };
    ctx.fresh_counter = local_counter;
    ctx.wanted = Vec::new();
    let mut rs = residual;
    while rs.len() > 0
        invariant
            ctx.wf(),
        decreases rs.len(),
    {
        let c = rs.remove(0);
        ctx.wanted.push((c, wanted_span));
    }
    ctx.assumed = saved_assumed;

    match sig {
        Some(s) => {
            let mut leftover: Vec<(Constraint, Span)> = Vec::new();
            let mut k: usize = 0;
            while k < ctx.wanted.len()
                invariant
                    ctx.wf(),
                    global_sub.wf(),
                    k <= ctx.wanted@.len(),
                decreases ctx.wanted.len() - k,
            {
                let c2 = global_sub.apply_constraint(&ctx.wanted[k].0);
                let sp = ctx.wanted[k].1;
                let mut entailed = false;
                let mut a: usize = 0;
                while a < s.context.len() && !entailed
                    invariant
                        ctx.wf(),
                        a <= s.context@.len(),
                    decreases s.context.len() - a,
                {
                    if super::classes::entails_by_super(&ctx.class_env, &s.context[a], &c2) {
                        entailed = true;
                    }
                    a = a + 1;
                }
                if !entailed {
                    leftover.push((c2, sp));
                }
                k = k + 1;
            }
            ctx.wanted = Vec::new();
            if leftover.len() > 0 {
                return Err(
                    TypeError::new(
                        TypeErrorKind::UnresolvedConstraint { constraint: leftover[0].0.clone() },
                        leftover[0].1,
                    ),
                );
            }
            Ok(s)
        },
        None => Ok(ctx.generalize_excluding(&global_sub, &expected_ty, Some(name.as_str()))),
    }
}

/// A superclass constraint on the class's own variable, and nothing else.
pub open spec fn superclass_ok(cc: crate::ast::Constraint, type_var: Seq<char>) -> bool {
    cc.args@.len() == 1 && (cc.args@[0] matches AstType::Var { name, .. } && name@ == type_var)
}

/// The names of the method signatures among the first `n` class items.
pub open spec fn signature_names(items: Seq<ClassItem>, n: int) -> Set<Seq<char>> {
    Set::new(
        |q: Seq<char>|
            exists|k: int| 0 <= k < n && (#[trigger] items[k] matches ClassItem::Signature { name, .. } && name@ == q),
    )
}

/// The names of the default method bodies among the first `n` class
/// items, in order.
pub open spec fn default_names(items: Seq<ClassItem>, n: int) -> Seq<Seq<char>>
    decreases n,
{
    if n <= 0 {
        Seq::empty()
    } else {
        let rest = default_names(items, n - 1);
        match items[n - 1] {
            ClassItem::Default(cl) => rest.push(cl.name@),
            _ => rest,
        }
    }
}

/// Whether `decls` declares a class named `name`.
fn is_user_class(name: &str, decls: &Vec<Decl>) -> (r: bool)
    ensures
        r == exists|k: int| 0 <= k < decls@.len() && (#[trigger] decls@[k] matches Decl::Class(c) && c.name@ == name@),
{
    let mut i: usize = 0;
    while i < decls.len()
        invariant
            i <= decls@.len(),
            forall|k: int| 0 <= k < i ==> !(#[trigger] decls@[k] matches Decl::Class(c) && c.name@ == name@),
        decreases decls.len() - i,
    {
        match &decls[i] {
            Decl::Class(c) => {
                if text_is(&c.name, name) {
                    return true;
                }
            },
            _ => {},
        }
        i = i + 1;
    }
    false
}

/// Whether `decls` declares a data type named `name`.
fn is_user_data(name: &str, decls: &Vec<Decl>) -> (r: bool)
    ensures
        r == exists|k: int| 0 <= k < decls@.len() && (#[trigger] decls@[k] matches Decl::Data(d) && d.name@ == name@),
{
    let mut i: usize = 0;
    while i < decls.len()
        invariant
            i <= decls@.len(),
            forall|k: int| 0 <= k < i ==> !(#[trigger] decls@[k] matches Decl::Data(d) && d.name@ == name@),
        decreases decls.len() - i,
    {
        match &decls[i] {
            Decl::Data(d) => {
                if text_is(&d.name, name) {
                    return true;
                }
            },
            _ => {},
        }
        i = i + 1;
    }
    false
}

/// The variables an application spine applies its head to, left to
/// right; an argument that is not a variable is passed over.
pub open spec fn head_vars(t: AstType) -> Seq<Seq<char>>
    decreases t,
{
    match t {
        AstType::App { func, arg, .. } => head_vars(*func) + match *arg {
            AstType::Var { name, .. } => seq![name@],
            _ => Seq::empty(),
        },
        _ => Seq::empty(),
    }
}

/// The variables an instance head applies its constructor to, left to
/// right.
fn ast_head_vars(t: &AstType) -> (r: Vec<String>)
    ensures
        string_views(r@) == head_vars(*t),
{
    let mut out: Vec<String> = Vec::new();
    head_vars_walk(t, &mut out);
    assert(string_views(Seq::<String>::empty()) =~= Seq::<Seq<char>>::empty());
    assert(Seq::<Seq<char>>::empty() + head_vars(*t) =~= head_vars(*t));
    out
}

fn head_vars_walk(t: &AstType, out: &mut Vec<String>)
    ensures
        string_views(final(out)@) == string_views(old(out)@) + head_vars(*t),
    decreases t,
{
    match t {
        AstType::App { func, arg, .. } => {
            head_vars_walk(func, out);
            let ghost mid = string_views(out@);
            match &**arg {
                AstType::Var { name, .. } => {
                    out.push(name.clone());
                    assert(string_views(out@) =~= mid.push(name@));
                },
                _ => {},
            }
            assert(string_views(out@) =~= string_views(old(out)@) + head_vars(*t));
        },
        _ => {
            assert(string_views(out@) =~= string_views(old(out)@) + head_vars(*t));
        },
    }
}


/// Clones of the variables.
fn copy_vars(v: &Vec<TyVar>) -> (r: Vec<TyVar>)
    ensures
        r@ == v@,
{
    let mut out: Vec<TyVar> = Vec::new();
    let mut i: usize = 0;
    while i < v.len()
        invariant
            i <= v@.len(),
            out@ == v@.take(i as int),
        decreases v.len() - i,
    {
        out.push(v[i].clone());
        assert(out@ =~= v@.take(i + 1));
        i = i + 1;
    }
    assert(out@ =~= v@);
    out
}

/// Clones of the strings.
fn copy_names(v: &Vec<String>) -> (r: Vec<String>)
    ensures
        r@ == v@,
{
    let mut out: Vec<String> = Vec::new();
    let mut i: usize = 0;
    while i < v.len()
        invariant
            i <= v@.len(),
            out@ == v@.take(i as int),
        decreases v.len() - i,
    {
        out.push(v[i].clone());
        assert(out@ =~= v@.take(i + 1));
        i = i + 1;
    }
    assert(out@ =~= v@);
    out
}

/// Fresh variables named after `names`, and the table from name to
/// variable.
fn fresh_named_vars(ctx: &mut InferCtx, names: &Vec<String>) -> (r: (Vec<(String, TyVar)>, Vec<TyVar>))
    requires
        old(ctx).wf(),
    ensures
        final(ctx).wf(),
        only_counter_moved(*old(ctx), *final(ctx)),
        keys_unique(r.0@),
        r.1@.len() == names@.len(),
{
    let mut locals: Vec<(String, TyVar)> = Vec::new();
    let mut vars: Vec<TyVar> = Vec::new();
    let mut i: usize = 0;
    while i < names.len()
        invariant
            ctx.wf(),
            only_counter_moved(*old(ctx), *ctx),
            keys_unique(locals@),
            i <= names@.len(),
            vars@.len() == i,
        decreases names.len() - i,
    {
        let v = fresh_var(&mut ctx.fresh_counter);
        let tv = TyVar { id: v.id, name: names[i].clone() };
        table_insert(&mut locals, names[i].clone(), tv.clone());
        vars.push(tv);
        i = i + 1;
    }
    (locals, vars)
}

/// Register a data declaration: the type, then each constructor's
/// scheme `args... -> T params` as a constructor and a global of the
/// current module.
fn register_ast_data(ctx: &mut InferCtx, d: &DataDecl) -> (r: Result<(), TypeError>)
    requires
        old(ctx).wf(),
    ensures
        final(ctx).wf(),
        final(ctx).module == old(ctx).module,
        table_keys(final(ctx).type_env.datas@).contains(d.name@),
        r is Ok ==> forall|c: int|
            0 <= c < d.ctors@.len() ==> table_keys(final(ctx).type_env.ctors@).contains(
                (#[trigger] d.ctors@[c]).name@,
            ) && globals_get(final(ctx).type_env.globals@, old(ctx).module@, d.ctors@[c].name@) is Some,
{
    table_insert(
        &mut ctx.type_env.datas,
        d.name.clone(),
        DataInfo {
            name: d.name.clone(),
            params: copy_names(&d.type_params),
            ctor_names: Vec::new(),
            home_module: ctx.module.clone(),
        },
    );
    proof {
        lemma_table_get_some(ctx.type_env.datas@, d.name@);
        let k = choose|k: int| 0 <= k < ctx.type_env.datas@.len() && ctx.type_env.datas@[k].0@ == d.name@;
        assert(table_keys(ctx.type_env.datas@)[k] == d.name@);
    }
    let (locals, vars_ordered) = fresh_named_vars(ctx, &d.type_params);
    let head_kind = make_kind_arity(d.type_params.len());
    let mut res_ty = Ty::con(d.name.clone(), head_kind);
    let mut i: usize = 0;
    while i < vars_ordered.len()
        invariant
            i <= vars_ordered@.len(),
        decreases vars_ordered.len() - i,
    {
        res_ty = Ty::app(res_ty, Ty::Var(vars_ordered[i].clone()));
        i = i + 1;
    }
    let mut ctor_names: Vec<String> = Vec::new();
    let mut c: usize = 0;
    while c < d.ctors.len()
        invariant
            ctx.wf(),
            keys_unique(locals@),
            c <= d.ctors@.len(),
            ctx.module == old(ctx).module,
            table_keys(ctx.type_env.datas@).contains(d.name@),
            forall|q: int|
                0 <= q < c ==> table_keys(ctx.type_env.ctors@).contains((#[trigger] d.ctors@[q]).name@)
                    && globals_get(ctx.type_env.globals@, old(ctx).module@, d.ctors@[q].name@) is Some,
        decreases d.ctors.len() - c,
    {
        let ctor = &d.ctors[c];
        ctor_names.push(ctor.name.clone());
        let mut ctor_ty = res_ty.clone();
        let mut a = ctor.args.len();
        let ghost te0 = ctx.type_env;
        while a > 0
            invariant
                ctx.wf(),
                keys_unique(locals@),
                a <= ctor.args@.len(),
                ctx.type_env == te0,
                ctx.module == old(ctx).module,
                table_keys(ctx.type_env.datas@).contains(d.name@),
            decreases a,
        {
            a = a - 1;
            let arg_ty = match ty_from_ast(ctx, &ctor.args[a], &locals) {
                Ok(t) => t,
                Err(e) => return Err(e),
            };
            ctor_ty = Ty::fun(arg_ty, ctor_ty);
        }
        let scheme = Scheme { vars: copy_vars(&vars_ordered), context: Vec::new(), body: ctor_ty };
        let ghost ck0 = table_keys(ctx.type_env.ctors@);
        table_insert(
            &mut ctx.type_env.ctors,
            ctor.name.clone(),
            CtorInfo { data_type: d.name.clone(), scheme: scheme.clone(), arity: ctor.args.len() },
        );
        let ghost g0 = ctx.type_env.globals@;
        ctx.type_env.insert_global(GlobalId::new(ctx.module.clone(), ctor.name.clone()), scheme);
        proof {
            assert forall|q: int|
                0 <= q < c + 1 implies table_keys(ctx.type_env.ctors@).contains((#[trigger] d.ctors@[q]).name@)
                && globals_get(ctx.type_env.globals@, old(ctx).module@, d.ctors@[q].name@) is Some by {
                if q < c {
                    assert(ck0.contains(d.ctors@[q].name@));
                    if d.ctors@[q].name@ != ctor.name@ {
                        assert(globals_get(ctx.type_env.globals@, old(ctx).module@, d.ctors@[q].name@) == globals_get(
                            g0,
                            old(ctx).module@,
                            d.ctors@[q].name@,
                        ));
                    }
                }
            }
        }
        c = c + 1;
    }
    match crate::resolver::table::table_find(&ctx.type_env.datas, d.name.as_str()) {
        Some(idx) => {
            let old_info = &ctx.type_env.datas[idx].1;
            let info = DataInfo {
                name: old_info.name.clone(),
                params: copy_names(&old_info.params),
                ctor_names,
                home_module: old_info.home_module.clone(),
            };
            let key = ctx.type_env.datas[idx].0.clone();
            let ghost t0 = ctx.type_env.datas@;
            ctx.type_env.datas.set(idx, (key, info));
            proof {
                let t = ctx.type_env.datas@;
                assert forall|x: int, y: int| 0 <= x < y < t.len() implies #[trigger] t[x].0@ != #[trigger] t[y].0@ by {
                    assert(t[x].0 == t0[x].0 && t[y].0 == t0[y].0);
                }
                assert(table_keys(t)[idx as int] == d.name@);
            }
        },
        None => {},
    }
    Ok(())
}

/// Register a type alias, its parameters as variables of id 0.
fn register_ast_alias(ctx: &mut InferCtx, a: &TypeAlias) -> (r: Result<(), TypeError>)
    requires
        old(ctx).wf(),
    ensures
        final(ctx).wf(),
        r is Ok ==> exists|k: int|
            0 <= k < final(ctx).type_env.aliases@.len() && (#[trigger] final(ctx).type_env.aliases@[k]).0@ == a.name@
                && final(ctx).type_env.aliases@[k].1.name@ == a.name@ && final(ctx).type_env.aliases@[k].1.params@
                == a.type_params@,
{
    let mut locals: Vec<(String, TyVar)> = Vec::new();
    let mut i: usize = 0;
    while i < a.type_params.len()
        invariant
            keys_unique(locals@),
            i <= a.type_params@.len(),
        decreases a.type_params.len() - i,
    {
        table_insert(&mut locals, a.type_params[i].clone(), TyVar { id: 0, name: a.type_params[i].clone() });
        i = i + 1;
    }
    let body = match ty_from_ast(ctx, &a.body, &locals) {
        Ok(t) => t,
        Err(e) => return Err(e),
    };
    let info = AliasInfo { name: a.name.clone(), params: copy_names(&a.type_params), body };
    table_insert(&mut ctx.type_env.aliases, a.name.clone(), info);
    proof {
        lemma_table_get_some(ctx.type_env.aliases@, a.name@);
        let k = choose|k: int| 0 <= k < ctx.type_env.aliases@.len() && ctx.type_env.aliases@[k].0@ == a.name@;
        lemma_table_get_at(ctx.type_env.aliases@, k);
    }
    Ok(())
}

/// Register a class: its superclasses (each must constrain the class's
/// own variable), its method schemes, and each method as a global of
/// the current module constrained by the class.
fn register_ast_class(ctx: &mut InferCtx, c: &ClassDecl) -> (r: Result<(), TypeError>)
    requires
        old(ctx).wf(),
    ensures
        final(ctx).wf(),
        r is Ok ==> (table_get(final(ctx).class_env.classes@, c.name@) matches Some(info) && info.name@ == c.name@
            && info.type_var@ == c.type_var@
            && info.superclasses@.map_values(|x: String| x@) == c.context@.map_values(
            |cc: crate::ast::Constraint| cc.class_name@,
        ) && (forall|q: Seq<char>|
            #[trigger] table_keys(info.methods@).contains(q) <==> signature_names(c.items@, c.items@.len() as int).contains(q))
            && info.defaults@.map_values(|x: String| x@) == default_names(c.items@, c.items@.len() as int)),
        forall|j: int|
            0 <= j < c.context@.len() && !superclass_ok(#[trigger] c.context@[j], c.type_var@) && (forall|i: int|
                0 <= i < j ==> superclass_ok(c.context@[i], c.type_var@)) ==> (r matches Err(e)
                && e.kind is InvalidSuperclassContext && e.span == c.context@[j].span),
        (forall|i: int| 0 <= i < c.context@.len() ==> superclass_ok(#[trigger] c.context@[i], c.type_var@))
            && (forall|k: int| 0 <= k < c.items@.len() ==> (#[trigger] c.items@[k]) is Default) ==> r is Ok,
{
    let mut superclasses: Vec<String> = Vec::new();
    let mut i: usize = 0;
    while i < c.context.len()
        invariant
            ctx.wf(),
            i <= c.context@.len(),
            superclasses@.map_values(|x: String| x@) == c.context@.take(i as int).map_values(
                |cc: crate::ast::Constraint| cc.class_name@,
            ),
            forall|i2: int| 0 <= i2 < i ==> superclass_ok(#[trigger] c.context@[i2], c.type_var@),
        decreases c.context.len() - i,
    {
        let cc = &c.context[i];
        if cc.args.len() != 1 {
            let mut got = String::from_str("superclass `");
            got.append(cc.class_name.as_str());
            got.append("` with ");
            got.append(usize_text(cc.args.len()).as_str());
            got.append(" argument(s)");
            return Err(
                TypeError::new(
                    TypeErrorKind::InvalidSuperclassContext {
                        class: c.name.clone(),
                        expected: c.type_var.clone(),
                        got,
                    },
                    cc.span,
                ),
            );
        }
        let ok = match &cc.args[0] {
            AstType::Var { name, .. } => name.eq(&c.type_var),
            _ => false,
        };
        if !ok {
            let got = match &cc.args[0] {
                AstType::Var { name, .. } => {
                    let mut g = String::from_str("type variable `");
                    g.append(name.as_str());
                    g.append("`");
                    g
                },
                _ => {
                    let mut g = String::from_str("non-variable type argument in superclass `");
                    g.append(cc.class_name.as_str());
                    g.append("`");
                    g
                },
            };
            return Err(
                TypeError::new(
                    TypeErrorKind::InvalidSuperclassContext {
                        class: c.name.clone(),
                        expected: c.type_var.clone(),
                        got,
                    },
                    cc.span,
                ),
            );
        }
        let ghost sv0 = superclasses@;
        superclasses.push(cc.class_name.clone());
        proof {
            assert(superclass_ok(c.context@[i as int], c.type_var@));
            assert(c.context@.take(i + 1) =~= c.context@.take(i as int).push(c.context@[i as int]));
            assert(superclasses@.map_values(|x: String| x@) =~= sv0.map_values(|x: String| x@).push(cc.class_name@));
            assert(c.context@.take(i + 1).map_values(|cc: crate::ast::Constraint| cc.class_name@) =~= c.context@.take(
                i as int,
            ).map_values(|cc: crate::ast::Constraint| cc.class_name@).push(cc.class_name@));
        }
        i = i + 1;
    }
    proof {
        assert(c.context@.take(i as int) =~= c.context@);
    }
    let ghost supers_v = superclasses@;
    let v0 = fresh_var(&mut ctx.fresh_counter);
    let tv = TyVar { id: v0.id, name: c.type_var.clone() };
    let mut methods: Vec<(String, Scheme)> = Vec::new();
    let mut defaults: Vec<String> = Vec::new();
    let mut k: usize = 0;
    while k < c.items.len()
        invariant
            ctx.wf(),
            keys_unique(methods@),
            k <= c.items@.len(),
            superclasses@ == supers_v,
            supers_v.map_values(|x: String| x@) == c.context@.map_values(|cc: crate::ast::Constraint| cc.class_name@),
            forall|i2: int| 0 <= i2 < c.context@.len() ==> superclass_ok(#[trigger] c.context@[i2], c.type_var@),
            forall|q: Seq<char>|
                #[trigger] table_keys(methods@).contains(q) <==> signature_names(c.items@, k as int).contains(q),
            defaults@.map_values(|x: String| x@) == default_names(c.items@, k as int),
        decreases c.items.len() - k,
    {
        let ghost m0 = methods@;
        let ghost d0 = defaults@;
        proof {
            assert forall|q: Seq<char>| #[trigger] signature_names(c.items@, k + 1).contains(q) <==> (signature_names(
                c.items@,
                k as int,
            ).contains(q) || (c.items@[k as int] matches ClassItem::Signature { name, .. } && name@ == q)) by {
                if signature_names(c.items@, k + 1).contains(q) {
                    let k2 = choose|k2: int|
                        0 <= k2 < k + 1 && (#[trigger] c.items@[k2] matches ClassItem::Signature { name, .. } && name@ == q);
                    if k2 < k {
                        assert(signature_names(c.items@, k as int).contains(q));
                    }
                }
                if signature_names(c.items@, k as int).contains(q) {
                    let k2 = choose|k2: int|
                        0 <= k2 < k && (#[trigger] c.items@[k2] matches ClassItem::Signature { name, .. } && name@ == q);
                    assert(signature_names(c.items@, k + 1).contains(q));
                }
            }
        }
        match &c.items[k] {
            ClassItem::Signature { name, scheme, .. } => {
                let mut locals: Vec<(String, TyVar)> = Vec::new();
                table_insert(&mut locals, c.type_var.clone(), tv.clone());
                let mut names: Vec<String> = Vec::new();
                let mut f: usize = 0;
                while f < scheme.forall.len()
                    invariant
                        f <= scheme.forall@.len(),
                    decreases scheme.forall.len() - f,
                {
                    if !crate::resolver::exports::contains_text(&names, &scheme.forall[f]) {
                        names.push(scheme.forall[f].clone());
                    }
                    f = f + 1;
                }
                collect_names_in_ty(&scheme.body, &mut names);
                let mut q: usize = 0;
                while q < scheme.context.len()
                    invariant
                        q <= scheme.context@.len(),
                    decreases scheme.context.len() - q,
                {
                    let mut a: usize = 0;
                    while a < scheme.context[q].args.len()
                        invariant
                            q < scheme.context@.len(),
                            a <= scheme.context@[q as int].args@.len(),
                        decreases scheme.context@[q as int].args@.len() - a,
                    {
                        collect_names_in_ty(&scheme.context[q].args[a], &mut names);
                        a = a + 1;
                    }
                    q = q + 1;
                }
                let mut rigids: Vec<TyVar> = Vec::new();
                rigids.push(tv.clone());
                let mut n: usize = 0;
                while n < names.len()
                    invariant
                        ctx.wf(),
                        keys_unique(locals@),
                        n <= names@.len(),
                    decreases names.len() - n,
                {
                    if !names[n].eq(&c.type_var) {
                        let v = fresh_var(&mut ctx.fresh_counter);
                        let nv = TyVar { id: v.id, name: names[n].clone() };
                        table_insert(&mut locals, names[n].clone(), nv.clone());
                        rigids.push(nv);
                    }
                    n = n + 1;
                }
                let body = match ty_from_ast(ctx, &scheme.body, &locals) {
                    Ok(t) => t,
                    Err(e) => return Err(e),
                };
                let mut context: Vec<Constraint> = Vec::new();
                let mut q2: usize = 0;
                while q2 < scheme.context.len()
                    invariant
                        ctx.wf(),
                        keys_unique(locals@),
                        q2 <= scheme.context@.len(),
                        k < c.items@.len(),
                        c.items@[k as int] is Signature,
                        forall|i2: int| 0 <= i2 < c.context@.len() ==> superclass_ok(#[trigger] c.context@[i2], c.type_var@),
                    decreases scheme.context.len() - q2,
                {
                    let cc = &scheme.context[q2];
                    if cc.args.len() != 1 {
                        return Err(
                            TypeError::new(
                                TypeErrorKind::Other { msg: String::from_str("class constraint must be single-param") },
                                cc.span,
                            ),
                        );
                    }
                    let arg = match ty_from_ast(ctx, &cc.args[0], &locals) {
                        Ok(t) => t,
                        Err(e) => return Err(e),
                    };
                    context.push(Constraint { class: cc.class_name.clone(), arg });
                    q2 = q2 + 1;
                }
                let full_scheme = Scheme { vars: rigids, context, body };
                table_insert(&mut methods, name.clone(), full_scheme.clone());
                let mut ctx_list = copy_constraints(&full_scheme.context);
                let class_constraint = Constraint { class: c.name.clone(), arg: Ty::Var(tv.clone()) };
                if !contains_constraint(&ctx_list, &class_constraint) {
                    ctx_list.push(class_constraint);
                }
                let visible = Scheme {
                    vars: copy_vars(&full_scheme.vars),
                    context: ctx_list,
                    body: full_scheme.body.clone(),
                };
                ctx.type_env.insert_global(GlobalId::new(ctx.module.clone(), name.clone()), visible);
                proof {
                    assert forall|q: Seq<char>| #[trigger] table_keys(methods@).contains(q) <==> signature_names(
                        c.items@,
                        k + 1,
                    ).contains(q) by {}
                    assert(default_names(c.items@, k + 1) == default_names(c.items@, k as int));
                }
            },
            ClassItem::Default(clause) => {
                defaults.push(clause.name.clone());
                proof {
                    assert(defaults@.map_values(|x: String| x@) =~= d0.map_values(|x: String| x@).push(clause.name@));
                }
            },
        }
        k = k + 1;
    }
    ctx.class_env.register_class(
        ClassInfo {
            name: c.name.clone(),
            type_var: c.type_var.clone(),
            superclasses,
            methods,
            defaults,
            home_module: ctx.module.clone(),
        },
    );
    Ok(())
}

/// Whether the names are pairwise distinct.
fn all_distinct(names: &Vec<String>) -> (r: bool)
    ensures
        r == (forall|a: int, b: int| 0 <= a < b < names@.len() ==> names@[a]@ != names@[b]@),
{
    let mut i: usize = 0;
    while i < names.len()
        invariant
            i <= names@.len(),
            forall|a: int, b: int| 0 <= a < b < i ==> names@[a]@ != names@[b]@,
        decreases names.len() - i,
    {
        let mut j: usize = 0;
        while j < i
            invariant
                j <= i,
                i < names@.len(),
                forall|a: int, b: int| 0 <= a < b < i ==> names@[a]@ != names@[b]@,
                forall|a: int| 0 <= a < j ==> names@[a]@ != names@[i as int]@,
            decreases i - j,
        {
            if names[j].eq(&names[i]) {
                return false;
            }
            j = j + 1;
        }
        i = i + 1;
    }
    true
}

/// A type variable `name` renamed to a fresh one, for each variable of
/// the instance.
fn freshen_vars(ctx: &mut InferCtx, vars: &Vec<TyVar>) -> (r: Subst)
    requires
        old(ctx).wf(),
    ensures
        final(ctx).wf(),
        only_counter_moved(*old(ctx), *final(ctx)),
        r.wf(),
        forall|k: u32| #[trigger] r@.dom().contains(k) <==> exists|i: int| 0 <= i < vars@.len() && vars@[i].id == k,
        forall|k: u32| #[trigger] r@.dom().contains(k) ==> r@[k] is Var,
{
    let mut sub = Subst::new();
    let mut i: usize = 0;
    while i < vars.len()
        invariant
            ctx.wf(),
            only_counter_moved(*old(ctx), *ctx),
            sub.wf(),
            i <= vars@.len(),
            forall|k: u32| #[trigger] sub@.dom().contains(k) <==> exists|j: int| 0 <= j < i && vars@[j].id == k,
            forall|k: u32| #[trigger] sub@.dom().contains(k) ==> sub@[k] is Var,
        decreases vars.len() - i,
    {
        let nv = ctx.fresh();
        sub.insert(vars[i].id, Ty::Var(nv));
        proof {
            assert forall|k: u32| #[trigger] sub@.dom().contains(k) <==> exists|j: int| 0 <= j < i + 1 && vars@[j].id == k by {
                if k == vars@[i as int].id {
                    assert(vars@[i as int].id == k);
                }
            }
        }
        i = i + 1;
    }
    sub
}

/// Register an instance's head: its class must be known, its head a
/// constructor on distinct variables, the instance not an orphan (its
/// class or its head's constructor declared in this module) and not
/// overlapping an instance already registered.
fn register_instance_head(ctx: &mut InferCtx, inst: &InstanceDecl, all_decls: &Vec<Decl>) -> (r: Result<(), TypeError>)
    requires
        old(ctx).wf(),
    ensures
        final(ctx).wf(),
        table_get(old(ctx).class_env.classes@, inst.name@) is None ==> (r matches Err(e) && e.span == inst.span
            && (e.kind matches TypeErrorKind::UnknownClass { name } && name@ == inst.name@)),
        table_get(old(ctx).class_env.classes@, inst.name@) is Some && !(forall|a: int, b: int|
            0 <= a < b < head_vars(inst.head).len() ==> head_vars(inst.head)[a] != head_vars(inst.head)[b]) ==> (r matches Err(
            e,
        ) && e.span == inst.span && e.kind is InvalidInstanceHead),
        r is Ok ==> final(ctx).class_env.instances@.len() == old(ctx).class_env.instances@.len() + 1
            && final(ctx).class_env.instances@.drop_last() == old(ctx).class_env.instances@
            && final(ctx).class_env.instances@.last().class@ == inst.name@
            && final(ctx).class_env.classes@ == old(ctx).class_env.classes@,
{
    if ctx.class_env.class(inst.name.as_str()).is_none() {
        return Err(TypeError::new(TypeErrorKind::UnknownClass { name: inst.name.clone() }, inst.span));
    }
    let head_names = ast_head_vars(&inst.head);
    proof {
        assert forall|a: int, b: int| 0 <= a < b < head_names@.len() implies (head_names@[a]@ != head_names@[b]@) == (
        head_vars(inst.head)[a] != head_vars(inst.head)[b]) by {
            assert(string_views(head_names@)[a] == head_names@[a]@);
            assert(string_views(head_names@)[b] == head_names@[b]@);
        }
    }
    if !all_distinct(&head_names) {
        return Err(
            TypeError::new(
                TypeErrorKind::InvalidInstanceHead {
                    class: inst.name.clone(),
                    head: Ty::star(String::from_str("<invalid>")),
                },
                inst.span,
            ),
        );
    }
    let (locals, vars_ordered) = fresh_named_vars(ctx, &head_names);
    let head_ty = match ty_from_ast(ctx, &inst.head, &locals) {
        Ok(t) => t,
        Err(e) => return Err(e),
    };
    let mut context: Vec<Constraint> = Vec::new();
    let mut i: usize = 0;
    while i < inst.context.len()
        invariant
            ctx.wf(),
            keys_unique(locals@),
            i <= inst.context@.len(),
            ctx.class_env == old(ctx).class_env,
            table_get(old(ctx).class_env.classes@, inst.name@) is Some,
            forall|a: int, b: int|
                0 <= a < b < head_vars(inst.head).len() ==> head_vars(inst.head)[a] != head_vars(inst.head)[b],
        decreases inst.context.len() - i,
    {
        let c = &inst.context[i];
        if c.args.len() != 1 {
            return Err(
                TypeError::new(
                    TypeErrorKind::Other { msg: String::from_str("instance context constraints must be single-param") },
                    c.span,
                ),
            );
        }
        let arg = match ty_from_ast(ctx, &c.args[0], &locals) {
            Ok(t) => t,
            Err(e) => return Err(e),
        };
        context.push(Constraint { class: c.class_name.clone(), arg });
        i = i + 1;
    }
    let class_local = match ctx.class_env.class(inst.name.as_str()) {
        Some(ci) => ci.home_module.eq(&ctx.module),
        None => false,
    } || is_user_class(inst.name.as_str(), all_decls);
    let head_local = match head_ty.head_con() {
        Some(name) => {
            let home_here = match table_lookup(&ctx.type_env.datas, name.as_str()) {
                Some(di) => di.home_module.eq(&ctx.module),
                None => is_builtin_type(name.as_str()) && text_is(&ctx.module, "Prelude"),
            };
            home_here || is_user_data(name.as_str(), all_decls)
        },
        None => false,
    };
    if !class_local && !head_local {
        return Err(TypeError::new(TypeErrorKind::OrphanInstance { class: inst.name.clone() }, inst.span));
    }
    let sub = freshen_vars(ctx, &vars_ordered);
    let our_head = sub.apply(&head_ty);
    let n_inst = ctx.class_env.instances.len();
    let mut k: usize = 0;
    while k < n_inst
        invariant
            ctx.wf(),
            n_inst == ctx.class_env.instances@.len(),
            k <= n_inst,
            ctx.class_env == old(ctx).class_env,
            table_get(old(ctx).class_env.classes@, inst.name@) is Some,
            forall|a: int, b: int|
                0 <= a < b < head_vars(inst.head).len() ==> head_vars(inst.head)[a] != head_vars(inst.head)[b],
        decreases n_inst - k,
    {
        if ctx.class_env.instances[k].class.eq(&inst.name) {
            let other_vars = copy_vars(&ctx.class_env.instances[k].vars);
            let other_head = ctx.class_env.instances[k].head.clone();
            let sub2 = freshen_vars(ctx, &other_vars);
            let their_head = sub2.apply(&other_head);
            if super::unify::unify(&our_head, &their_head, inst.span).is_ok() {
                return Err(
                    TypeError::new(
                        TypeErrorKind::OverlappingInstance { class: inst.name.clone(), head: head_ty.clone() },
                        inst.span,
                    ),
                );
            }
        }
        k = k + 1;
    }
    let mut methods_impl: Vec<String> = Vec::new();
    let mut m: usize = 0;
    while m < inst.items.len()
        invariant
            m <= inst.items@.len(),
        decreases inst.items.len() - m,
    {
        methods_impl.push(inst.items[m].name.clone());
        m = m + 1;
    }
    ctx.class_env.register_instance(
        InstanceInfo { class: inst.name.clone(), context, head: head_ty, vars: vars_ordered, methods: methods_impl },
    );
    Ok(())
}

/// Check an instance's method clauses against the class's method
/// schemes with the class variable replaced by the instance head,
/// assuming the instance's context.
fn check_instance_body(ctx: &mut InferCtx, inst: &InstanceDecl) -> (r: Result<(), TypeError>)
    requires
        old(ctx).wf(),
    ensures
        final(ctx).wf(),
        table_get(old(ctx).class_env.classes@, inst.name@) is None ==> r is Ok && *final(ctx) == *old(ctx),
{
    if ctx.class_env.class(inst.name.as_str()).is_none() {
        return Ok(());
    }
    let head_names = ast_head_vars(&inst.head);
    let (locals, _vars_ordered) = fresh_named_vars(ctx, &head_names);
    let head_ty = match ty_from_ast(ctx, &inst.head, &locals) {
        Ok(t) => t,
        Err(e) => return Err(e),
    };
    let mut context: Vec<Constraint> = Vec::new();
    let mut i: usize = 0;
    while i < inst.context.len()
        invariant
            ctx.wf(),
            keys_unique(locals@),
            i <= inst.context@.len(),
            table_get(old(ctx).class_env.classes@, inst.name@) is Some,
        decreases inst.context.len() - i,
    {
        let c = &inst.context[i];
        if c.args.len() == 1 {
            let arg = match ty_from_ast(ctx, &c.args[0], &locals) {
                Ok(t) => t,
                Err(e) => return Err(e),
            };
            context.push(Constraint { class: c.class_name.clone(), arg });
        }
        i = i + 1;
    }
    let mut k: usize = 0;
    while k < inst.items.len()
        invariant
            ctx.wf(),
            k <= inst.items@.len(),
            table_get(old(ctx).class_env.classes@, inst.name@) is Some,
        decreases inst.items.len() - k,
    {
        let clause = &inst.items[k];
        let found = match ctx.class_env.class(inst.name.as_str()) {
            Some(ci) => match table_find(&ci.methods, clause.name.as_str()) {
                Some(idx) => Some((ci.methods[idx].1.clone(), ci.type_var.clone())),
                None => None,
            },
            None => None,
        };
        let (msch, class_tv_name) = match found {
            Some(x) => x,
            None => {
                let mut msg = String::from_str("instance `");
                msg.append(inst.name.as_str());
                msg.append("` provides method `");
                msg.append(clause.name.as_str());
                msg.append("` not declared in class");
                return Err(TypeError::new(TypeErrorKind::Other { msg }, clause.span));
            },
        };
        let mut sub = Subst::new();
        let mut f: usize = 0;
        let mut found_tv = false;
        while f < msch.vars.len() && !found_tv
            invariant
                sub.wf(),
                f <= msch.vars@.len(),
            decreases msch.vars.len() - f,
        {
            if msch.vars[f].name.eq(&class_tv_name) {
                sub.insert(msch.vars[f].id, head_ty.clone());
                found_tv = true;
            }
            f = f + 1;
        }
        let mut v: usize = 0;
        while v < msch.vars.len()
            invariant
                ctx.wf(),
                sub.wf(),
                v <= msch.vars@.len(),
            decreases msch.vars.len() - v,
        {
            if !msch.vars[v].name.eq(&class_tv_name) {
                let nv = ctx.fresh_named(msch.vars[v].name.as_str());
                sub.insert(msch.vars[v].id, Ty::Var(nv));
            }
            v = v + 1;
        }
        let expected_body = sub.apply(&msch.body);
        let saved_assumed = copy_constraints(&ctx.assumed);
        extend_constraints(&mut ctx.assumed, &context);
        let r = check_clause_against(ctx, clause, &expected_body);
        ctx.assumed = saved_assumed;
        match r {
            Ok(()) => {},
            Err(e) => return Err(e),
        }
        k = k + 1;
    }
    Ok(())
}


/// Every value binding of `decls` has its name among `keys`.
pub open spec fn values_among(decls: Seq<Decl>, keys: Seq<Seq<char>>) -> bool {
    forall|i: int|
        0 <= i < decls.len() ==> match #[trigger] decls[i] {
            Decl::Value(vc) => keys.contains(vc.name@),
            _ => true,
        }
}

/// Every `:=` binding of `decls` has its name among `keys`.
pub open spec fn embeds_among(decls: Seq<Decl>, keys: Seq<Seq<char>>) -> bool {
    forall|i: int|
        0 <= i < decls.len() ==> match #[trigger] decls[i] {
            Decl::RubyEmbed(re) => keys.contains(re.name@),
            _ => true,
        }
}

/// `decls` declares a type signature for `name`.
pub open spec fn has_signature(decls: Seq<Decl>, name: Seq<char>) -> bool {
    exists|j: int| 0 <= j < decls.len() && (#[trigger] decls[j] matches Decl::Signature { name: n, .. } && n@ == name)
}

/// Every `:=` binding of `decls` has a type signature.
pub open spec fn embeds_signed(decls: Seq<Decl>) -> bool {
    forall|i: int|
        0 <= i < decls.len() ==> match #[trigger] decls[i] {
            Decl::RubyEmbed(re) => has_signature(decls, re.name@),
            _ => true,
        }
}

/// Every value binding and every `:=` binding of `decls` has its name
/// among `keys`.
pub open spec fn bindings_among(decls: Seq<Decl>, keys: Seq<Seq<char>>) -> bool {
    forall|i: int|
        0 <= i < decls.len() ==> match #[trigger] decls[i] {
            Decl::Value(vc) => keys.contains(vc.name@),
            Decl::RubyEmbed(re) => keys.contains(re.name@),
            _ => true,
        }
}

/// Check one module: register its data types, aliases and classes,
/// take its signatures as the expected schemes, give each value without
/// one a provisional type, register its instance heads, check each
/// binding (clauses grouped by name), take each Ruby-embedded binding's
/// signature as its scheme, and finally check the instance bodies.
/// Every error met is reported, in that order.
pub fn check_module(ctx: &mut InferCtx, module: &AstModule) -> (r: Result<(), Vec<TypeError>>)
    requires
        old(ctx).wf(),
    ensures
        final(ctx).wf(),
        r matches Err(errs) ==> errs@.len() > 0,
        r is Ok ==> bindings_among(module.decls@, table_keys(final(ctx).inferred@)),
        r is Ok ==> embeds_signed(module.decls@),
{
    let decls = &module.decls;
    let mut errors: Vec<TypeError> = Vec::new();

    let mut i: usize = 0;
    while i < decls.len()
        invariant
            ctx.wf(),
            i <= decls@.len(),
        decreases decls.len() - i,
    {
        let r = match &decls[i] {
            Decl::Data(d) => register_ast_data(ctx, d),
            Decl::TypeAlias(a) => register_ast_alias(ctx, a),
            Decl::Class(c) => register_ast_class(ctx, c),
            _ => Ok(()),
        };
        match r {
            Err(e) => errors.push(e),
            Ok(()) => {},
        }
        i = i + 1;
    }

    let mut sigs: Vec<(String, Scheme)> = Vec::new();
    i = 0;
    while i < decls.len()
        invariant
            ctx.wf(),
            keys_unique(sigs@),
            i <= decls@.len(),
            decls == &module.decls,
            forall|q: Seq<char>| #[trigger] table_keys(sigs@).contains(q) ==> has_signature(decls@, q),
        decreases decls.len() - i,
    {
        match &decls[i] {
            Decl::Signature { name, scheme, .. } => {
                match scheme_from_ast(ctx, scheme) {
                    Ok(s) => {
                        proof {
                            assert(decls@[i as int] matches Decl::Signature { name: n2, .. } && n2@ == name@);
                        }
                        table_insert(&mut sigs, name.clone(), s.clone());
                        ctx.type_env.insert_global(GlobalId::new(ctx.module.clone(), name.clone()), s);
                    },
                    Err(e) => errors.push(e),
                }
            },
            _ => {},
        }
        i = i + 1;
    }

    let mut provisional: Vec<String> = Vec::new();
    i = 0;
    while i < decls.len()
        invariant
            ctx.wf(),
            keys_unique(sigs@),
            i <= decls@.len(),
            decls == &module.decls,
            errors@.len() == 0 ==> embeds_among(decls@.take(i as int), table_keys(sigs@)),
            forall|q: Seq<char>| #[trigger] table_keys(sigs@).contains(q) ==> has_signature(decls@, q),
        decreases decls.len() - i,
    {
        let ghost errors0 = errors@.len();
        match &decls[i] {
            Decl::Value(vc) => {
                if table_find(&sigs, vc.name.as_str()).is_none()
                    && !crate::resolver::exports::contains_text(&provisional, &vc.name) {
                    let tv = ctx.fresh_named(vc.name.as_str());
                    provisional.push(vc.name.clone());
                    ctx.type_env.insert_global(
                        GlobalId::new(ctx.module.clone(), vc.name.clone()),
                        Scheme::mono(Ty::Var(tv)),
                    );
                }
            },
            Decl::RubyEmbed(r) => {
                match table_find(&sigs, r.name.as_str()) {
                    None => {
                        let mut msg = String::from_str("`:=` binding `");
                        msg.append(r.name.as_str());
                        msg.append("` requires a type signature");
                        errors.push(TypeError::new(TypeErrorKind::Other { msg }, r.span));
                    },
                    Some(j) => {
                        assert(table_keys(sigs@)[j as int] == r.name@);
                    },
                }
            },
            _ => {},
        }
        proof {
            if errors@.len() == 0 {
                assert(decls@.take(i + 1).drop_last() =~= decls@.take(i as int));
                assert forall|j: int| 0 <= j < i + 1 implies match #[trigger] decls@.take(i + 1)[j] {
                    Decl::RubyEmbed(re) => table_keys(sigs@).contains(re.name@),
                    _ => true,
                } by {
                    if j < i {
                        assert(decls@.take(i + 1)[j] == decls@.take(i as int)[j]);
                    }
                }
            }
        }
        i = i + 1;
    }
    assert(decls@.take(i as int) =~= decls@);

    let ghost sigs_v = sigs@;
    proof {
        if errors@.len() == 0 {
            assert(embeds_among(decls@, table_keys(sigs_v)));
            assert forall|j: int| 0 <= j < decls@.len() implies match #[trigger] decls@[j] {
                Decl::RubyEmbed(re) => has_signature(decls@, re.name@),
                _ => true,
            } by {
                match decls@[j] {
                    Decl::RubyEmbed(re) => {
                        assert(table_keys(sigs_v).contains(re.name@));
                    },
                    _ => {},
                }
            }
        }
    }
    i = 0;
    while i < decls.len()
        invariant
            ctx.wf(),
            i <= decls@.len(),
            decls == &module.decls,
            errors@.len() == 0 ==> embeds_signed(module.decls@),
            errors@.len() == 0 ==> embeds_among(decls@, table_keys(sigs_v)),
        decreases decls.len() - i,
    {
        match &decls[i] {
            Decl::Instance(inst) => {
                match register_instance_head(ctx, inst, decls) {
                    Err(e) => errors.push(e),
                    Ok(()) => {},
                }
            },
            _ => {},
        }
        i = i + 1;
    }

    let mut names: Vec<String> = Vec::new();
    let mut groups: Vec<Vec<&ValueClause>> = Vec::new();
    i = 0;
    while i < decls.len()
        invariant
            i <= decls@.len(),
            names@.len() == groups@.len(),
            decls == &module.decls,
            values_among(decls@.take(i as int), string_views(names@)),
        decreases decls.len() - i,
    {
        let ghost names0 = string_views(names@);
        match &decls[i] {
            Decl::Value(vc) => {
                match position_of_text(&names, &vc.name) {
                    Some(j) => {
                        let mut g = groups.remove(j);
                        g.push(vc);
                        groups.insert(j, g);
                        assert(string_views(names@)[j as int] == vc.name@);
                    },
                    None => {
                        names.push(vc.name.clone());
                        let mut g: Vec<&ValueClause> = Vec::new();
                        g.push(vc);
                        groups.push(g);
                        assert(string_views(names@) =~= names0.push(vc.name@));
                        assert(string_views(names@)[names0.len() as int] == vc.name@);
                    },
                }
            },
            _ => {},
        }
        proof {
            let nv = string_views(names@);
            assert(names0.len() <= nv.len());
            assert(forall|t: int| 0 <= t < names0.len() ==> nv[t] == #[trigger] names0[t]);
            assert(decls@.take(i + 1).drop_last() =~= decls@.take(i as int));
            assert forall|j: int| 0 <= j < i + 1 implies match #[trigger] decls@.take(i + 1)[j] {
                Decl::Value(vc) => nv.contains(vc.name@),
                _ => true,
            } by {
                if j < i {
                    assert(decls@.take(i + 1)[j] == decls@.take(i as int)[j]);
                    match decls@.take(i as int)[j] {
                        Decl::Value(vc) => {
                            let t = choose|t: int| 0 <= t < names0.len() && names0[t] == vc.name@;
                            assert(nv[t] == vc.name@);
                        },
                        _ => {},
                    }
                }
            }
        }
        i = i + 1;
    }
    assert(decls@.take(i as int) =~= decls@);
    let ghost names_v = string_views(names@);

    let mut results: Vec<(String, Scheme)> = Vec::new();
    let mut k: usize = 0;
    while k < names.len()
        invariant
            ctx.wf(),
            keys_unique(sigs@),
            sigs@ == sigs_v,
            names@.len() == groups@.len(),
            names_v == string_views(names@),
            k <= names@.len(),
            errors@.len() == 0 ==> embeds_signed(module.decls@),
            errors@.len() == 0 ==> embeds_among(decls@, table_keys(sigs_v)),
            errors@.len() == 0 ==> forall|j: int|
                0 <= j < k ==> table_keys(results@).contains(#[trigger] names_v[j]),
        decreases names.len() - k,
    {
        let ghost results0 = results@;
        let ghost errors0 = errors@.len();
        let sig = match table_lookup(&sigs, names[k].as_str()) {
            Some(s) => Some(s.clone()),
            None => None,
        };
        match check_value_binding(ctx, &names[k], &groups[k], sig) {
            Ok(scheme) => {
                ctx.type_env.insert_global(GlobalId::new(ctx.module.clone(), names[k].clone()), scheme.clone());
                results.push((names[k].clone(), scheme));
                proof {
                    let rk = table_keys(results@);
                    assert(rk =~= table_keys(results0).push(names_v[k as int]));
                    if errors@.len() == 0 {
                        assert forall|j: int| 0 <= j < k + 1 implies rk.contains(#[trigger] names_v[j]) by {
                            if j < k {
                                let t = choose|t: int| 0 <= t < results0.len() && table_keys(results0)[t] == names_v[j];
                                assert(rk[t] == table_keys(results0)[t]);
                            } else {
                                assert(rk[rk.len() - 1] == names_v[j]);
                            }
                        }
                    }
                }
            },
            Err(e) => errors.push(e),
        }
        k = k + 1;
    }
    let ghost values_done = results@;
    proof {
        if errors@.len() == 0 {
            assert forall|j: int| 0 <= j < decls@.len() implies match #[trigger] decls@[j] {
                Decl::Value(vc) => table_keys(values_done).contains(vc.name@),
                _ => true,
            } by {
                match decls@[j] {
                    Decl::Value(vc) => {
                        assert(decls@.take(decls@.len() as int)[j] == decls@[j]);
                        let q = choose|q: int| 0 <= q < names_v.len() && names_v[q] == vc.name@;
                        assert(table_keys(values_done).contains(names_v[q]));
                    },
                    _ => {},
                }
            }
            assert(values_among(decls@, table_keys(values_done)));
        }
    }

    i = 0;
    while i < decls.len()
        invariant
            ctx.wf(),
            keys_unique(sigs@),
            sigs@ == sigs_v,
            i <= decls@.len(),
            decls == &module.decls,
            forall|q: Seq<char>| table_keys(values_done).contains(q) ==> #[trigger] table_keys(results@).contains(q),
            errors@.len() == 0 ==> embeds_among(decls@, table_keys(sigs_v)),
            errors@.len() == 0 ==> values_among(decls@, table_keys(values_done)),
            errors@.len() == 0 ==> embeds_signed(module.decls@),
            errors@.len() == 0 ==> embeds_among(decls@.take(i as int), table_keys(results@)),
        decreases decls.len() - i,
    {
        let ghost results0 = results@;
        match &decls[i] {
            Decl::RubyEmbed(r) => {
                proof {
                    lemma_table_get_some(sigs@, r.name@);
                }
                match table_lookup(&sigs, r.name.as_str()) {
                    Some(sch) => {
                        let sch2 = sch.clone();
                        results.push((r.name.clone(), sch2));
                        assert(table_keys(results@) =~= table_keys(results0).push(r.name@));
                        assert(table_keys(results@)[results0.len() as int] == r.name@);
                    },
                    None => {
                        proof {
                            if errors@.len() == 0 {
                                assert(match decls@[i as int] {
                                    Decl::RubyEmbed(re) => table_keys(sigs_v).contains(re.name@),
                                    _ => true,
                                });
                                let t = choose|t: int| 0 <= t < sigs_v.len() && table_keys(sigs_v)[t] == r.name@;
                                assert(sigs@[t].0@ == r.name@);
                            }
                        }
                    },
                }
            },
            _ => {},
        }
        proof {
            let rk = table_keys(results@);
            assert(forall|t: int| 0 <= t < results0.len() ==> rk[t] == #[trigger] table_keys(results0)[t]);
            assert forall|q: Seq<char>| table_keys(values_done).contains(q) implies #[trigger] rk.contains(q) by {
                assert(table_keys(results0).contains(q));
                let t = choose|t: int| 0 <= t < results0.len() && table_keys(results0)[t] == q;
                assert(rk[t] == q);
            }
            if errors@.len() == 0 {
                assert(decls@.take(i + 1).drop_last() =~= decls@.take(i as int));
                assert forall|j: int| 0 <= j < i + 1 implies match #[trigger] decls@.take(i + 1)[j] {
                    Decl::RubyEmbed(re) => rk.contains(re.name@),
                    _ => true,
                } by {
                    if j < i {
                        assert(decls@.take(i + 1)[j] == decls@.take(i as int)[j]);
                        match decls@.take(i as int)[j] {
                            Decl::RubyEmbed(re) => {
                                let t = choose|t: int| 0 <= t < results0.len() && table_keys(results0)[t] == re.name@;
                                assert(rk[t] == re.name@);
                            },
                            _ => {},
                        }
                    }
                }
            }
        }
        i = i + 1;
    }
    let ghost all = results@;
    proof {
        if errors@.len() == 0 {
            assert(decls@.take(i as int) =~= decls@);
            assert forall|j: int| 0 <= j < decls@.len() implies match #[trigger] decls@[j] {
                Decl::Value(vc) => table_keys(all).contains(vc.name@),
                Decl::RubyEmbed(re) => table_keys(all).contains(re.name@),
                _ => true,
            } by {
                match decls@[j] {
                    Decl::Value(vc) => {
                        assert(match decls@[j] {
                            Decl::Value(vc) => table_keys(values_done).contains(vc.name@),
                            _ => true,
                        });
                    },
                    Decl::RubyEmbed(re) => {
                        assert(decls@.take(decls@.len() as int)[j] == decls@[j]);
                    },
                    _ => {},
                }
            }
            assert(bindings_among(decls@, table_keys(all)));
        }
    }

    i = 0;
    while i < decls.len()
        invariant
            ctx.wf(),
            i <= decls@.len(),
            results@ == all,
            decls == &module.decls,
            errors@.len() == 0 ==> embeds_signed(module.decls@),
            errors@.len() == 0 ==> bindings_among(decls@, table_keys(all)),
        decreases decls.len() - i,
    {
        match &decls[i] {
            Decl::Instance(inst) => {
                match check_instance_body(ctx, inst) {
                    Err(e) => errors.push(e),
                    Ok(()) => {},
                }
            },
            _ => {},
        }
        i = i + 1;
    }

    // Record the schemes, value bindings first, in the order checked.
    let mut t: usize = 0;
    while t < results.len()
        invariant
            ctx.wf(),
            t <= results@.len(),
            results@ == all,
            decls == &module.decls,
            errors@.len() == 0 ==> embeds_signed(module.decls@),
            errors@.len() == 0 ==> bindings_among(decls@, table_keys(all)),
            forall|j: int| 0 <= j < t ==> table_keys(ctx.inferred@).contains(#[trigger] table_keys(all)[j]),
        decreases results.len() - t,
    {
        let ghost before = ctx.inferred@;
        record_inferred(ctx, &results[t].0, results[t].1.clone());
        proof {
            assert forall|j: int| 0 <= j < t + 1 implies table_keys(ctx.inferred@).contains(#[trigger] table_keys(all)[j]) by {
                if j < t {
                    assert(table_keys(before).contains(table_keys(all)[j]));
                }
            }
        }
        t = t + 1;
    }

    if errors.len() == 0 {
        proof {
            let ik = table_keys(ctx.inferred@);
            assert forall|j: int| 0 <= j < decls@.len() implies match #[trigger] decls@[j] {
                Decl::Value(vc) => ik.contains(vc.name@),
                Decl::RubyEmbed(re) => ik.contains(re.name@),
                _ => true,
            } by {
                match decls@[j] {
                    Decl::Value(vc) => {
                        assert(match decls@[j] {
                            Decl::Value(vc) => table_keys(all).contains(vc.name@),
                            Decl::RubyEmbed(re) => table_keys(all).contains(re.name@),
                            _ => true,
                        });
                        let q = choose|q: int| 0 <= q < all.len() && table_keys(all)[q] == vc.name@;
                        assert(ik.contains(table_keys(all)[q]));
                    },
                    Decl::RubyEmbed(re) => {
                        assert(match decls@[j] {
                            Decl::Value(vc) => table_keys(all).contains(vc.name@),
                            Decl::RubyEmbed(re) => table_keys(all).contains(re.name@),
                            _ => true,
                        });
                        let q = choose|q: int| 0 <= q < all.len() && table_keys(all)[q] == re.name@;
                        assert(ik.contains(table_keys(all)[q]));
                    },
                    _ => {},
                }
            }
        }
        Ok(())
    } else {
        Err(errors)
    }
}

/// Record the inferred scheme of `name`, first time in order.
fn record_inferred(ctx: &mut InferCtx, name: &String, scheme: Scheme)
    requires
        old(ctx).wf(),
    ensures
        final(ctx).wf(),
        forall|q: Seq<char>|
            #[trigger] table_keys(final(ctx).inferred@).contains(q) <==> (table_keys(old(ctx).inferred@).contains(q)
                || q == name@),
        table_get(final(ctx).inferred@, name@) == Some(scheme@),
{
    let ghost order0 = string_views(ctx.inferred_order@);
    if table_find(&ctx.inferred, name.as_str()).is_none() {
        ctx.inferred_order.push(name.clone());
        assert(string_views(ctx.inferred_order@) =~= order0.push(name@));
    } else {
        let j = table_find(&ctx.inferred, name.as_str()).unwrap();
        assert(table_keys(ctx.inferred@)[j as int] == name@);
        assert(table_keys(ctx.inferred@).contains(name@));
    }
    table_insert(&mut ctx.inferred, name.clone(), scheme);
    proof {
        assert forall|q: Seq<char>| #[trigger] table_keys(ctx.inferred@).contains(q) implies string_views(
            ctx.inferred_order@,
        ).contains(q) by {
            if q == name@ {
                if !order0.contains(q) {
                    assert(string_views(ctx.inferred_order@).last() == q);
                }
            }
            if order0.contains(q) {
                let t = choose|t: int| 0 <= t < order0.len() && order0[t] == q;
                assert(string_views(ctx.inferred_order@)[t] == q);
            }
        }
    }
}


/// The index of the first string of `v` that reads `s`.
fn position_of_text(v: &Vec<String>, s: &String) -> (r: Option<usize>)
    ensures
        r matches Some(j) ==> j < v@.len() && v@[j as int]@ == s@ && forall|t: int| 0 <= t < j ==> v@[t]@ != s@,
        r is None ==> forall|t: int| 0 <= t < v@.len() ==> v@[t]@ != s@,
{
    let mut i: usize = 0;
    while i < v.len()
        invariant
            i <= v@.len(),
            forall|t: int| 0 <= t < i ==> v@[t]@ != s@,
        decreases v.len() - i,
    {
        if v[i].eq(s) {
            return Some(i);
        }
        i = i + 1;
    }
    None
}

} // verus!
