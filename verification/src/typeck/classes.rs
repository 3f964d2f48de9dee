//! Class constraints: entailment through superclasses and resolution
//! against instances.
//!
//! A constraint `C τ` is discharged by an assumption `D τ` when `C` is
//! `D` or one of its superclasses. Otherwise, when `τ` is not a bare
//! variable, the unique instance of `C` whose head unifies with `τ` is
//! chosen and its context is resolved in turn. Dictionaries are not
//! built here; resolution is purely about types.
use vstd::prelude::*;

use super::env::{lemma_closure_exact, super_reaches, ClassEnv, InstanceInfo};
use super::error::{TypeError, TypeErrorKind};
use super::ty::{ty_same, Constraint, Subst, Ty, TyVar};
use super::unify::unify;
use crate::resolver::table::table_get;
use crate::span::Span;
use crate::text::string_views;

verus! {

/// The same constraint: the same class on the same type.
pub open spec fn constraint_same(a: Constraint, b: Constraint) -> bool {
    a.class@ == b.class@ && ty_same(a.arg, b.arg)
}

/// Whether two constraints are the same.
pub fn same_constraint(a: &Constraint, b: &Constraint) -> (r: bool)
    ensures
        r == constraint_same(*a, *b),
{
    a.class.eq(&b.class) && a.arg.same(&b.arg)
}

/// The counter after one fresh variable: one more, wrapping around.
pub open spec fn next_id(n: u32) -> u32 {
    if n == u32::MAX {
        0
    } else {
        (n + 1) as u32
    }
}

/// A fresh unnamed variable numbered by the counter, which moves on.
pub fn fresh_var(counter: &mut u32) -> (r: TyVar)
    ensures
        r.id == *old(counter),
        r.name@.len() == 0,
        *final(counter) == next_id(*old(counter)),
{
    let id = *counter;
    *counter = if *counter == u32::MAX {
        0
    } else {
        *counter + 1
    };
    TyVar { id, name: String::new() }
}

/// Whether `assumed` entails `wanted` through the superclass relation:
/// the same type, and the wanted class is the assumed one or one of
/// its superclasses.
pub fn entails_by_super(env: &ClassEnv, assumed: &Constraint, wanted: &Constraint) -> (r: bool)
    requires
        env.wf(),
    ensures
        r == (ty_same(assumed.arg, wanted.arg) && super_reaches(
            env.classes@,
            assumed.class@,
            wanted.class@,
        )),
{
    if !assumed.arg.same(&wanted.arg) {
        return false;
    }
    let closure = env.super_closure(assumed.class.as_str());
    proof {
        lemma_closure_exact(env.classes@, assumed.class@, closure@, wanted.class@);
    }
    let mut i: usize = 0;
    while i < closure.len()
        invariant
            i <= closure@.len(),
            forall|j: int| 0 <= j < i ==> closure@[j]@ != wanted.class@,
            ty_same(assumed.arg, wanted.arg),
            string_views(closure@).contains(wanted.class@) <==> super_reaches(
                env.classes@,
                assumed.class@,
                wanted.class@,
            ),
        decreases closure.len() - i,
    {
        if closure[i].eq(&wanted.class) {
            assert(string_views(closure@)[i as int] == wanted.class@);
            return true;
        }
        i = i + 1;
    }
    proof {
        if string_views(closure@).contains(wanted.class@) {
            let j = choose|j: int| 0 <= j < closure@.len() && string_views(closure@)[j] == wanted.class@;
            assert(closure@[j]@ == wanted.class@);
        }
    }
    false
}

/// Some assumption entails `wanted`.
pub open spec fn entailed(env: ClassEnv, assumed: Seq<Constraint>, wanted: Constraint) -> bool {
    exists|i: int|
        0 <= i < assumed.len() && ty_same((#[trigger] assumed[i]).arg, wanted.arg) && super_reaches(
            env.classes@,
            assumed[i].class@,
            wanted.class@,
        )
}

/// Whether some assumption entails `wanted`.
fn entailed_by_any(env: &ClassEnv, assumed: &Vec<Constraint>, wanted: &Constraint) -> (r: bool)
    requires
        env.wf(),
    ensures
        r == entailed(*env, assumed@, *wanted),
{
    let mut i: usize = 0;
    while i < assumed.len()
        invariant
            env.wf(),
            i <= assumed@.len(),
            forall|j: int|
                0 <= j < i ==> !(ty_same((#[trigger] assumed@[j]).arg, wanted.arg) && super_reaches(
                    env.classes@,
                    assumed@[j].class@,
                    wanted.class@,
                )),
        decreases assumed.len() - i,
    {
        if entails_by_super(env, &assumed[i], wanted) {
            return true;
        }
        i = i + 1;
    }
    false
}

/// An error of resolution: an unknown class, a constraint no instance
/// satisfies, or two instances that both apply.
pub open spec fn resolve_error(e: TypeError, span: Span) -> bool {
    &&& e.span == span
    &&& (e.kind is UnknownClass || e.kind is UnresolvedConstraint || e.kind is OverlappingInstance)
}

/// Resolve one constraint against the assumptions and the instances.
///
/// A constraint on a bare variable that no assumption entails is handed
/// back as residual. Otherwise an entailed constraint is discharged;
/// an unknown class is an error; and the unique instance whose head
/// unifies with the type is chosen, its context resolved in turn (none
/// matching, or several, is an error). A chain of instance contexts
/// longer than the number of instances reports the constraint as
/// unresolved.
pub fn resolve_constraint(
    env: &ClassEnv,
    assumed: &Vec<Constraint>,
    wanted: &Constraint,
    span: Span,
    counter: &mut u32,
) -> (r: Result<Vec<Constraint>, TypeError>)
    requires
        env.wf(),
    ensures
        entailed(*env, assumed@, *wanted) ==> (r matches Ok(v) && v@.len() == 0),
        !entailed(*env, assumed@, *wanted) && wanted.arg is Var ==> (r matches Ok(v) && v@.len() == 1
            && constraint_same(v@[0], *wanted)),
        !entailed(*env, assumed@, *wanted) && !(wanted.arg is Var) && table_get(
            env.classes@,
            wanted.class@,
        ) is None ==> (r matches Err(e) && e.span == span && (e.kind matches TypeErrorKind::UnknownClass {
            name,
        } && name@ == wanted.class@)),
        r matches Err(e) ==> resolve_error(e, span),
{
    let fuel = if env.instances.len() < usize::MAX {
        env.instances.len() + 1
    } else {
        env.instances.len()
    };
    resolve_within(env, assumed, wanted, span, counter, fuel)
}

fn copy_constraint(c: &Constraint) -> (r: Constraint)
    ensures
        constraint_same(r, *c),
        r.class@ == c.class@,
        r.arg@ == c.arg@,
{
    Constraint { class: c.class.clone(), arg: c.arg.clone() }
}

fn resolve_within(
    env: &ClassEnv,
    assumed: &Vec<Constraint>,
    wanted: &Constraint,
    span: Span,
    counter: &mut u32,
    fuel: usize,
) -> (r: Result<Vec<Constraint>, TypeError>)
    requires
        env.wf(),
    ensures
        entailed(*env, assumed@, *wanted) ==> (r matches Ok(v) && v@.len() == 0),
        !entailed(*env, assumed@, *wanted) && wanted.arg is Var ==> (r matches Ok(v) && v@.len() == 1
            && constraint_same(v@[0], *wanted)),
        !entailed(*env, assumed@, *wanted) && !(wanted.arg is Var) && table_get(
            env.classes@,
            wanted.class@,
        ) is None ==> (r matches Err(e) && e.span == span && (e.kind matches TypeErrorKind::UnknownClass {
            name,
        } && name@ == wanted.class@)),
        r matches Err(e) ==> resolve_error(e, span),
    decreases fuel,
{
    if entailed_by_any(env, assumed, wanted) {
        return Ok(Vec::new());
    }
    if let Ty::Var(_) = &wanted.arg {
        let mut v = Vec::new();
        v.push(copy_constraint(wanted));
        return Ok(v);
    }
    if env.class(wanted.class.as_str()).is_none() {
        return Err(TypeError::new(TypeErrorKind::UnknownClass { name: wanted.class.clone() }, span));
    }
    let insts = env.instances_for(wanted.class.as_str());
    let mut matches: Vec<usize> = Vec::new();
    let mut subs: Vec<Subst> = Vec::new();
    let mut i: usize = 0;
    while i < insts.len()
        invariant
            i <= insts@.len(),
            matches@.len() == subs@.len(),
            forall|j: int| 0 <= j < matches@.len() ==> #[trigger] matches@[j] < insts@.len(),
            forall|j: int| 0 <= j < subs@.len() ==> (#[trigger] subs@[j]).wf(),
        decreases insts.len() - i,
    {
        let (fresh_head, _fresh_ctx) = refresh_instance(insts[i], counter);
        match unify(&fresh_head, &wanted.arg, span) {
            Ok(s) => {
                matches.push(i);
                subs.push(s);
            },
            Err(_) => {},
        }
        i = i + 1;
    }
    if matches.len() == 0 {
        return Err(
            TypeError::new(
                TypeErrorKind::UnresolvedConstraint { constraint: copy_constraint(wanted) },
                span,
            ),
        );
    }
    if matches.len() > 1 {
        return Err(
            TypeError::new(
                TypeErrorKind::OverlappingInstance {
                    class: wanted.class.clone(),
                    head: wanted.arg.clone(),
                },
                span,
            ),
        );
    }
    if fuel == 0 {
        return Err(
            TypeError::new(
                TypeErrorKind::UnresolvedConstraint { constraint: copy_constraint(wanted) },
                span,
            ),
        );
    }
    let inst = insts[matches[0]];
    let (_, fresh_ctx) = refresh_instance_with_sub(inst, &subs[0], counter);
    let mut residual: Vec<Constraint> = Vec::new();
    let mut k: usize = 0;
    while k < fresh_ctx.len()
        invariant
            env.wf(),
            k <= fresh_ctx@.len(),
            fuel > 0,
            !entailed(*env, assumed@, *wanted),
            !(wanted.arg is Var),
            table_get(env.classes@, wanted.class@) is Some,
        decreases fresh_ctx.len() - k,
    {
        match resolve_within(env, assumed, &fresh_ctx[k], span, counter, fuel - 1) {
            Ok(rs) => {
                let mut rs = rs;
                residual.append(&mut rs);
            },
            Err(e) => {
                return Err(e);
            },
        }
        k = k + 1;
    }
    Ok(residual)
}

/// The instance's head and context with its variables renamed to fresh
/// ones.
fn refresh_instance(inst: &InstanceInfo, counter: &mut u32) -> (r: (Ty, Vec<Constraint>))
    ensures
        r.1@.len() == inst.context@.len(),
{
    let mut sub = Subst::new();
    let mut i: usize = 0;
    while i < inst.vars.len()
        invariant
            sub.wf(),
            i <= inst.vars@.len(),
        decreases inst.vars.len() - i,
    {
        let nv = fresh_var(counter);
        sub.insert(inst.vars[i].id, Ty::Var(nv));
        i = i + 1;
    }
    let head = sub.apply(&inst.head);
    let mut ctx: Vec<Constraint> = Vec::new();
    let mut k: usize = 0;
    while k < inst.context.len()
        invariant
            sub.wf(),
            k <= inst.context@.len(),
            ctx@.len() == k,
        decreases inst.context.len() - k,
    {
        ctx.push(sub.apply_constraint(&inst.context[k]));
        k = k + 1;
    }
    (head, ctx)
}

/// Refresh the instance again, then apply `s` to the result.
fn refresh_instance_with_sub(inst: &InstanceInfo, s: &Subst, counter: &mut u32) -> (r: (
    Ty,
    Vec<Constraint>,
))
    requires
        s.wf(),
    ensures
        r.1@.len() == inst.context@.len(),
{
    let (head, ctx) = refresh_instance(inst, counter);
    let h2 = s.apply(&head);
    let mut c2: Vec<Constraint> = Vec::new();
    let mut k: usize = 0;
    while k < ctx.len()
        invariant
            s.wf(),
            k <= ctx@.len(),
            c2@.len() == k,
        decreases ctx.len() - k,
    {
        c2.push(s.apply_constraint(&ctx[k]));
        k = k + 1;
    }
    (h2, c2)
}

/// Resolve every wanted constraint in turn; the residual constraints,
/// each once, in the order met.
pub fn simplify(
    env: &ClassEnv,
    assumed: &Vec<Constraint>,
    wanted: &Vec<Constraint>,
    span: Span,
    counter: &mut u32,
) -> (r: Result<Vec<Constraint>, TypeError>)
    requires
        env.wf(),
    ensures
        r matches Ok(v) ==> forall|a: int, b: int|
            0 <= a < b < v@.len() ==> !constraint_same(#[trigger] v@[a], #[trigger] v@[b]),
        r matches Err(e) ==> resolve_error(e, span),
        (forall|i: int| 0 <= i < wanted@.len() ==> #[trigger] entailed(*env, assumed@, wanted@[i]))
            ==> (r matches Ok(v) && v@.len() == 0),
        r matches Ok(v) ==> forall|i: int|
            0 <= i < wanted@.len() && !entailed(*env, assumed@, #[trigger] wanted@[i]) && wanted@[i].arg is Var
                ==> exists|x: int| 0 <= x < v@.len() && constraint_same(v@[x], wanted@[i]),
        (exists|i: int|
            0 <= i < wanted@.len() && !entailed(*env, assumed@, #[trigger] wanted@[i]) && !(wanted@[i].arg is Var)
                && table_get(env.classes@, wanted@[i].class@) is None) ==> r is Err,
{
    let mut residual: Vec<Constraint> = Vec::new();
    let mut i: usize = 0;
    while i < wanted.len()
        invariant
            env.wf(),
            i <= wanted@.len(),
            forall|a: int, b: int|
                0 <= a < b < residual@.len() ==> !constraint_same(#[trigger] residual@[a], #[trigger] residual@[b]),
            (forall|j: int| 0 <= j < wanted@.len() ==> #[trigger] entailed(*env, assumed@, wanted@[j]))
                ==> residual@.len() == 0,
            forall|j: int|
                0 <= j < i && !entailed(*env, assumed@, #[trigger] wanted@[j]) && wanted@[j].arg is Var
                    ==> exists|x: int| 0 <= x < residual@.len() && constraint_same(residual@[x], wanted@[j]),
            forall|j: int|
                0 <= j < i ==> !(!entailed(*env, assumed@, #[trigger] wanted@[j]) && !(wanted@[j].arg is Var)
                    && table_get(env.classes@, wanted@[j].class@) is None),
        decreases wanted.len() - i,
    {
        let rs = match resolve_constraint(env, assumed, &wanted[i], span, counter) {
            Ok(rs) => rs,
            Err(e) => return Err(e),
        };
        proof {
            if forall|j: int| 0 <= j < wanted@.len() ==> #[trigger] entailed(*env, assumed@, wanted@[j]) {
                assert(entailed(*env, assumed@, wanted@[i as int]));
            }
        }
        let ghost all_ent = forall|j: int| 0 <= j < wanted@.len() ==> #[trigger] entailed(*env, assumed@, wanted@[j]);
        let ghost keep = !entailed(*env, assumed@, wanted@[i as int]) && wanted@[i as int].arg is Var;
        let ghost w = wanted@[i as int];
        let ghost r0 = residual@;
        let mut rs = rs;
        while rs.len() > 0
            invariant
                all_ent ==> rs@.len() == 0 && residual@.len() == 0,
                forall|a: int, b: int|
                    0 <= a < b < residual@.len() ==> !constraint_same(#[trigger] residual@[a], #[trigger] residual@[b]),
                residual@.len() >= r0.len(),
                forall|x: int| 0 <= x < r0.len() ==> residual@[x] == r0[x],
                keep ==> (rs@.len() == 1 && constraint_same(rs@[0], w)) || exists|x: int|
                    0 <= x < residual@.len() && constraint_same(residual@[x], w),
            decreases rs.len(),
        {
            let ghost rs0 = rs@;
            let c = rs.remove(0);
            let mut dup = false;
            let mut m: usize = 0;
            while m < residual.len()
                invariant
                    m <= residual@.len(),
                    dup == exists|x: int| 0 <= x < m && constraint_same(#[trigger] residual@[x], c),
                decreases residual.len() - m,
            {
                if same_constraint(&residual[m], &c) {
                    dup = true;
                }
                m = m + 1;
            }
            proof {
                if keep && rs0.len() == 1 && constraint_same(rs0[0], w) && dup {
                    let x = choose|x: int| 0 <= x < residual@.len() && constraint_same(#[trigger] residual@[x], c);
                    super::ty::lemma_ty_same_trans(residual@[x].arg, c.arg, w.arg);
                }
            }
            let ghost before_push = residual@;
            if !dup {
                let ghost before = residual@;
                let ghost cv = c;
                residual.push(c);
                proof {
                    let v = residual@;
                    assert forall|a: int, b: int| 0 <= a < b < v.len() implies !constraint_same(
                        #[trigger] v[a],
                        #[trigger] v[b],
                    ) by {
                        if b == v.len() - 1 {
                            assert(v[a] == before[a]);
                            assert(v[b] == cv);
                        } else {
                            assert(v[a] == before[a] && v[b] == before[b]);
                        }
                    }
                }
            }
            proof {
                assert(forall|x: int| 0 <= x < before_push.len() ==> residual@[x] == before_push[x]);
                if keep && exists|x: int| 0 <= x < before_push.len() && constraint_same(before_push[x], w) {
                    let x = choose|x: int| 0 <= x < before_push.len() && constraint_same(before_push[x], w);
                    assert(constraint_same(residual@[x], w));
                }
                if keep && rs0.len() == 1 && constraint_same(rs0[0], w) && !dup {
                    assert(residual@[residual@.len() - 1] == c);
                }
            }
        }
        proof {
            assert forall|j: int|
                0 <= j < i + 1 && !entailed(*env, assumed@, #[trigger] wanted@[j]) && wanted@[j].arg is Var
                    implies exists|x: int| 0 <= x < residual@.len() && constraint_same(residual@[x], wanted@[j]) by {
                if j < i {
                    let x = choose|x: int| 0 <= x < r0.len() && constraint_same(r0[x], wanted@[j]);
                    assert(residual@[x] == r0[x]);
                }
            }
        }
        i = i + 1;
    }
    proof {
        assert forall|j: int|
            0 <= j < wanted@.len() && !entailed(*env, assumed@, #[trigger] wanted@[j]) && wanted@[j].arg is Var
                implies exists|x: int| 0 <= x < residual@.len() && constraint_same(residual@[x], wanted@[j]) by {
            assert(j < i);
        }
        assert(forall|j: int|
            0 <= j < wanted@.len() && !entailed(*env, assumed@, #[trigger] wanted@[j]) && wanted@[j].arg is Var
                ==> exists|x: int| 0 <= x < residual@.len() && constraint_same(residual@[x], wanted@[j]));
    }
    let r = Ok(residual);
    assert(r matches Ok(v) && v@ == residual@);
    r
}

} // verus!
