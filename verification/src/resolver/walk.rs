//! The walk over a module's bodies: every reference site gets its
//! resolution recorded, and every name no scope binds is reported.
use vstd::prelude::*;

use super::env::{first_def, lemma_first_def, ModuleEnv, ResolvedRef};
use super::error::{Namespace, ResolveError, ResolveErrorKind};
use super::imports::{resolve_qualifier, unq_view};
use super::refs::{References, Resolution, ResolutionView};
use super::scope::{scope_binds, ScopeStack};
use super::table::{keys_unique, table_get};
use crate::ast::{
    CaseArm, ClassItem, Constraint, Decl, DoStmt, Expr, ModName, Module, Pattern, Scheme, Type,
    ValueClause, expr_span,
};
use crate::span::{span_merge, Span};
use crate::text::{join_strings, join_text, string_views};

verus! {

/// The errors the walk reports.
pub open spec fn walk_error(k: ResolveErrorKind) -> bool {
    k is UndefinedName || k is Ambiguous || k is NotExported || k is QualifierNotInScope
}

/// `b` extends `a` with errors the walk reports.
pub open spec fn errors_grow(a: Seq<ResolveError>, b: Seq<ResolveError>) -> bool {
    &&& a.len() <= b.len()
    &&& b.take(a.len() as int) == a
    &&& forall|k: int| a.len() <= k < b.len() ==> walk_error((#[trigger] b[k]).kind)
}

/// The definitions a bare name of namespace `ns` can stand for through
/// the module's imports.
pub open spec fn candidates(env: ModuleEnv, name: Seq<char>, ns: Namespace) -> Set<
    (Seq<Seq<char>>, Seq<char>, Namespace),
> {
    Set::new(
        |r: (Seq<Seq<char>>, Seq<char>, Namespace)|
            exists|k: int|
                0 <= k < env.unqualified@.len() && #[trigger] unq_view(env.unqualified@)[k] == (name, ns, r),
    )
}

/// State of the walk over one module.
pub struct Walker<'a> {
    pub env: &'a ModuleEnv,
    pub references: References,
    pub errors: Vec<ResolveError>,
    pub scope: ScopeStack,
    pub type_scope: ScopeStack,
}

/// `b` is `a` after a walk step: same module, references still one per
/// span, and only walk errors added.
pub open spec fn step<'a>(a: Walker<'a>, b: Walker<'a>) -> bool {
    &&& b.env == a.env
    &&& b.references.wf()
    &&& errors_grow(a.errors@, b.errors@)
}

proof fn lemma_errors_grow_trans(a: Seq<ResolveError>, b: Seq<ResolveError>, c: Seq<ResolveError>)
    requires
        errors_grow(a, b),
        errors_grow(b, c),
    ensures
        errors_grow(a, c),
{
    assert(c.take(a.len() as int) =~= a) by {
        assert forall|i: int| 0 <= i < a.len() implies c.take(a.len() as int)[i] == a[i] by {
            assert(c.take(b.len() as int)[i] == c[i]);
            assert(b.take(a.len() as int)[i] == b[i]);
        }
    }
    assert forall|k: int| a.len() <= k < c.len() implies walk_error((#[trigger] c[k]).kind) by {
        if k < b.len() {
            assert(c.take(b.len() as int)[k] == c[k]);
        }
    }
}

proof fn lemma_errors_grow_refl(a: Seq<ResolveError>)
    ensures
        errors_grow(a, a),
{
    assert(a.take(a.len() as int) =~= a);
}

impl<'a> Walker<'a> {
    /// The walker's invariant.
    pub open spec fn ready(&self) -> bool {
        self.references.wf() && keys_unique(self.env.qualified_aliases@)
    }

    /// A walker over module environment `env` with nothing recorded.
    pub fn new(env: &'a ModuleEnv) -> (r: Walker<'a>)
        requires
            keys_unique(env.qualified_aliases@),
        ensures
            r.ready(),
            r.env == env,
            r.errors@.len() == 0,
            r.scope@.len() == 0,
            r.type_scope@.len() == 0,
    {
        Walker {
            env,
            references: References::new(),
            errors: Vec::new(),
            scope: ScopeStack::new(),
            type_scope: ScopeStack::new(),
        }
    }

    fn report(&mut self, kind: ResolveErrorKind, span: Span)
        requires
            walk_error(kind),
            old(self).ready(),
        ensures
            final(self).ready(),
            step(*old(self), *final(self)),
            final(self).errors@ == old(self).errors@.push(ResolveError { kind, span }),
            final(self).references@ == old(self).references@,
            final(self).scope@ == old(self).scope@,
            final(self).type_scope@ == old(self).type_scope@,
    {
        let ghost e0 = self.errors@;
        self.errors.push(ResolveError::new(kind, span));
        proof {
            assert(self.errors@.take(e0.len() as int) =~= e0);
        }
    }

    fn record(&mut self, span: Span, res: Resolution)
        requires
            old(self).ready(),
        ensures
            final(self).ready(),
            step(*old(self), *final(self)),
            final(self).errors@ == old(self).errors@,
            final(self).references@ == old(self).references@.insert(span, res@),
            final(self).scope@ == old(self).scope@,
            final(self).type_scope@ == old(self).type_scope@,
    {
        self.references.insert(span, res);
        proof {
            lemma_errors_grow_refl(self.errors@);
        }
    }

    /// Resolve a possibly qualified name of namespace `ns` at `span`: a
    /// qualifier goes through the module it stands for; a bare name is
    /// looked up among the module's own top-level definitions, then
    /// among what its imports bring, where two different definitions
    /// make it ambiguous.
    pub fn resolve_name(&mut self, module: Option<&ModName>, name: &String, ns: Namespace, span: Span)
        requires
            old(self).ready(),
        ensures
            final(self).ready(),
            step(*old(self), *final(self)),
            final(self).scope@ == old(self).scope@,
            final(self).type_scope@ == old(self).type_scope@,
            name_resolution(*old(self), *final(self), opt_mod(module), name@, ns, span),
    {
        let env = self.env;
        match module {
            Some(qual) => {
                match resolve_qualifier(env, qual) {
                    None => {
                        let q = join_strings(&qual.segments, ".");
                        self.report(ResolveErrorKind::QualifierNotInScope { qualifier: q }, span);
                    },
                    Some(target) => {
                        proof {
                            lemma_first_def(env.top_level@, name@, ns);
                        }
                        let ok = if target.same(&env.id) {
                            env.top_lookup(name.as_str(), ns).is_some()
                        } else {
                            true
                        };
                        if !ok {
                            let qname = join_strings(&qual.segments, ".");
                            self.report(
                                ResolveErrorKind::NotExported { module: qname, name: name.clone(), namespace: ns },
                                span,
                            );
                        } else {
                            let r = ResolvedRef::new(target.clone(), name.clone(), ns);
                            self.record(span, Resolution::Global(r));
                        }
                    },
                }
            },
            None => {
                proof {
                    lemma_first_def(env.top_level@, name@, ns);
                }
                match env.top_lookup(name.as_str(), ns) {
                    Some(def) => {
                        let r = ResolvedRef::new(env.id.clone(), def.name.clone(), ns);
                        self.record(span, Resolution::Global(r));
                        return;
                    },
                    None => {},
                }
                let uniq = distinct_candidates(env, name, ns);
                let ghost c = candidates(*env, name@, ns);
                if uniq.len() == 0 {
                    self.report(ResolveErrorKind::UndefinedName { name: name.clone(), namespace: ns }, span);
                } else if uniq.len() == 1 {
                    let r = env.unqualified[uniq[0]].2.clone();
                    proof {
                        lemma_single_set(c, r@);
                    }
                    self.record(span, Resolution::Global(r));
                } else {
                    let mut modules: Vec<String> = Vec::new();
                    let mut k: usize = 0;
                    while k < uniq.len()
                        invariant
                            k <= uniq@.len(),
                            forall|j: int| 0 <= j < uniq@.len() ==> (#[trigger] uniq@[j]) < env.unqualified@.len(),
                        decreases uniq.len() - k,
                    {
                        modules.push(env.unqualified[uniq[k]].2.module.display());
                        k = k + 1;
                    }
                    proof {
                        let a = unq_view(env.unqualified@)[uniq@[0] as int].2;
                        let b = unq_view(env.unqualified@)[uniq@[1] as int].2;
                        assert(c.contains(a));
                        assert(c.contains(b));
                        lemma_two_in_set(c, a, b);
                    }
                    self.report(
                        ResolveErrorKind::Ambiguous { name: name.clone(), namespace: ns, modules },
                        span,
                    );
                }
            },
        }
    }
}

/// A finite set holding `a` and nothing else has one element, `a`.
proof fn lemma_single_set(c: Set<(Seq<Seq<char>>, Seq<char>, Namespace)>, a: (Seq<Seq<char>>, Seq<char>, Namespace))
    requires
        c.finite(),
        c.contains(a),
        forall|x| c.contains(x) ==> x == a,
    ensures
        c.len() == 1,
        c.choose() == a,
{
    assert(c =~= set![a]);
}

/// A finite set holding two different elements has at least two.
proof fn lemma_two_in_set(c: Set<(Seq<Seq<char>>, Seq<char>, Namespace)>, a: (Seq<Seq<char>>, Seq<char>, Namespace), b: (Seq<Seq<char>>, Seq<char>, Namespace))
    requires
        c.finite(),
        c.contains(a),
        c.contains(b),
        a != b,
    ensures
        c.len() >= 2,
{
    let d = set![a, b];
    assert(d.subset_of(c));
    vstd::set_lib::lemma_len_subset(d, c);
    assert(d.remove(a) =~= set![b]);
}

/// The positions of the module's unqualified entries for `name` of
/// namespace `ns` that stand for different definitions, one position per
/// definition: as many as there are candidates.
fn distinct_candidates(env: &ModuleEnv, name: &String, ns: Namespace) -> (r: Vec<usize>)
    ensures
        forall|j: int| 0 <= j < r@.len() ==> (#[trigger] r@[j]) < env.unqualified@.len(),
        forall|j: int|
            0 <= j < r@.len() ==> unq_view(env.unqualified@)[(#[trigger] r@[j]) as int].0 == name@
                && unq_view(env.unqualified@)[r@[j] as int].1 == ns,
        forall|i: int, j: int|
            0 <= i < j < r@.len() ==> unq_view(env.unqualified@)[(#[trigger] r@[i]) as int].2
                != unq_view(env.unqualified@)[(#[trigger] r@[j]) as int].2,
        candidates(*env, name@, ns).finite(),
        r@.len() == 0 <==> candidates(*env, name@, ns).len() == 0,
        r@.len() == 1 ==> forall|x| #[trigger] candidates(*env, name@, ns).contains(x) ==> x == unq_view(
            env.unqualified@,
        )[r@[0] as int].2,
{
    let ghost u = unq_view(env.unqualified@);
    let mut r: Vec<usize> = Vec::new();
    let mut i: usize = 0;
    while i < env.unqualified.len()
        invariant
            i <= env.unqualified@.len(),
            u == unq_view(env.unqualified@),
            forall|j: int| 0 <= j < r@.len() ==> (#[trigger] r@[j]) < i,
            forall|j: int| 0 <= j < r@.len() ==> u[(#[trigger] r@[j]) as int].0 == name@ && u[r@[j] as int].1 == ns,
            forall|a: int, b: int| 0 <= a < b < r@.len() ==> u[(#[trigger] r@[a]) as int].2 != u[(#[trigger] r@[b]) as int].2,
            forall|k: int|
                0 <= k < i && u[k].0 == name@ && u[k].1 == ns ==> exists|j: int|
                    0 <= j < r@.len() && u[(#[trigger] r@[j]) as int].2 == u[k].2,
        decreases env.unqualified.len() - i,
    {
        let e = &env.unqualified[i];
        let ghost r0 = r@;
        assert(u[i as int] == (e.0@, e.1, e.2@));
        if e.1 == ns && e.0.eq(name) {
            let mut seen = false;
            let mut j: usize = 0;
            while j < r.len()
                invariant
                    j <= r@.len(),
                    u == unq_view(env.unqualified@),
                    forall|x: int| 0 <= x < r@.len() ==> (#[trigger] r@[x]) < i,
                    i < env.unqualified@.len(),
                    e == &env.unqualified@[i as int],
                    seen == exists|x: int| 0 <= x < j && u[(#[trigger] r@[x]) as int].2 == u[i as int].2,
                decreases r.len() - j,
            {
                if env.unqualified[r[j]].2.same(&e.2) {
                    seen = true;
                }
                j = j + 1;
            }
            if !seen {
                r.push(i);
            }
        }
        proof {
            assert forall|k: int|
                0 <= k < i + 1 && u[k].0 == name@ && u[k].1 == ns implies exists|j: int|
                    0 <= j < r@.len() && u[(#[trigger] r@[j]) as int].2 == u[k].2 by {
                if k < i {
                    let j = choose|j: int| 0 <= j < r0.len() && u[(#[trigger] r0[j]) as int].2 == u[k].2;
                    assert(r@[j] == r0[j]);
                } else if r@.len() > r0.len() {
                    assert(r@[r0.len() as int] == i);
                } else {
                    let x = choose|x: int| 0 <= x < r0.len() && u[(#[trigger] r0[x]) as int].2 == u[i as int].2;
                    assert(r@[x] == r0[x]);
                }
            }
        }
        i = i + 1;
    }
    proof {
        let c = candidates(*env, name@, ns);
        let f = r@.map_values(|x: usize| u[x as int].2);
        assert forall|x| c.contains(x) <==> f.to_set().contains(x) by {
            if c.contains(x) {
                let k = choose|k: int| 0 <= k < env.unqualified@.len() && #[trigger] u[k] == (name@, ns, x);
                let j = choose|j: int| 0 <= j < r@.len() && u[(#[trigger] r@[j]) as int].2 == u[k].2;
                assert(f[j] == x);
            }
            if f.to_set().contains(x) {
                let j = choose|j: int| 0 <= j < f.len() && f[j] == x;
                assert(u[r@[j] as int] == (name@, ns, x));
            }
        }
        assert(c =~= f.to_set());
        assert forall|a: int, b: int| 0 <= a < b < f.len() implies f[a] != f[b] by {
            assert(u[r@[a] as int].2 != u[r@[b] as int].2);
        }
        assert(f.no_duplicates());
        f.unique_seq_to_set();
        assert forall|x| #[trigger] c.contains(x) && r@.len() == 1 implies x == u[r@[0] as int].2 by {
            let j = choose|j: int| 0 <= j < f.len() && f[j] == x;
        }
    }
    r
}


/// The two stacks are equal but in their innermost frame.
pub open spec fn same_but_top(a: Seq<Set<Seq<char>>>, b: Seq<Set<Seq<char>>>) -> bool {
    &&& a.len() == b.len()
    &&& a.len() > 0 ==> a.drop_last() == b.drop_last()
    &&& a.len() == 0 ==> a == b
}

/// `b` is `a` after walking a subterm: the scopes are as they were.
/// The qualifier behind an optional reference.
pub open spec fn opt_mod(m: Option<&ModName>) -> Option<ModName> {
    match m {
        Some(q) => Some(*q),
        None => None,
    }
}

/// What resolving `name` (in namespace `ns`, qualified by `module`) at
/// `span` does between walkers `a` and `b`: it is recorded under `span`
/// with the definition found, or one error is reported (qualifier not in
/// scope, not exported, undefined, or ambiguous) and nothing recorded.
pub open spec fn name_resolution<'a>(
    a: Walker<'a>,
    b: Walker<'a>,
    module: Option<ModName>,
    name: Seq<char>,
    ns: Namespace,
    span: Span,
) -> bool {
    &&& module matches Some(q) ==> ({
                let key = join_text(string_views(q.segments@), "."@);
                let env = *a.env;
                match table_get(env.qualified_aliases@, key) {
                    None => b.references@ == a.references@
                        && b.errors@.len() == a.errors@.len() + 1
                        && (b.errors@.last().kind matches ResolveErrorKind::QualifierNotInScope { qualifier }
                        && qualifier@ == key),
                    Some(t) => if t == env.id@ && first_def(env.top_level@, name, ns) is None {
                        b.references@ == a.references@
                            && b.errors@.len() == a.errors@.len() + 1
                            && b.errors@.last().kind is NotExported
                    } else {
                        b.errors@ == a.errors@ && b.references@
                            == a.references@.insert(span, ResolutionView::Global((t, name, ns)))
                    },
                }
            })
    &&& module is None ==> ({
                let env = *a.env;
                let c = candidates(env, name, ns);
                if first_def(env.top_level@, name, ns) is Some {
                    b.errors@ == a.errors@ && b.references@
                        == a.references@.insert(span, ResolutionView::Global((env.id@, name, ns)))
                } else if c.len() == 0 {
                    b.references@ == a.references@
                        && b.errors@.len() == a.errors@.len() + 1
                        && (b.errors@.last().kind matches ResolveErrorKind::UndefinedName { name: n, namespace }
                        && n@ == name && namespace == ns)
                } else if c.len() == 1 {
                    b.errors@ == a.errors@ && b.references@
                        == a.references@.insert(span, ResolutionView::Global(c.choose()))
                } else {
                    b.references@ == a.references@
                        && b.errors@.len() == a.errors@.len() + 1
                        && (b.errors@.last().kind matches ResolveErrorKind::Ambiguous { name: n, .. }
                        && n@ == name)
                }
            })
}

/// What resolving a variable reference does: an unqualified name bound
/// in a local scope is recorded as that local; anything else is resolved
/// among the definitions in the value namespace.
pub open spec fn var_resolution<'a>(a: Walker<'a>, b: Walker<'a>, module: Option<ModName>, name: Seq<char>, span: Span) -> bool {
    if module is None && scope_binds(a.scope@, name) {
        b.errors@ == a.errors@ && b.references@ == a.references@.insert(span, ResolutionView::Local(name))
    } else {
        name_resolution(a, b, module, name, Namespace::Value, span)
    }
}

pub open spec fn walked<'a>(a: Walker<'a>, b: Walker<'a>) -> bool {
    &&& step(a, b)
    &&& b.ready()
    &&& b.scope@ == a.scope@
    &&& b.type_scope@ == a.type_scope@
}

/// `b` is `a` after binding names: only the innermost frame of `scope`
/// grew, and nothing was recorded or reported.
pub open spec fn bound<'a>(a: Walker<'a>, b: Walker<'a>) -> bool {
    &&& b.env == a.env
    &&& b.ready()
    &&& b.references@ == a.references@
    &&& b.errors@ == a.errors@
    &&& same_but_top(a.scope@, b.scope@)
    &&& b.type_scope@ == a.type_scope@
}

/// `b` is `a` after binding type variables: only the innermost frame of
/// `type_scope` grew.
pub open spec fn type_bound<'a>(a: Walker<'a>, b: Walker<'a>) -> bool {
    &&& b.env == a.env
    &&& b.ready()
    &&& b.references@ == a.references@
    &&& b.errors@ == a.errors@
    &&& b.scope@ == a.scope@
    &&& same_but_top(a.type_scope@, b.type_scope@)
}

proof fn lemma_step_trans<'a>(a: Walker<'a>, b: Walker<'a>, c: Walker<'a>)
    requires
        step(a, b),
        step(b, c),
    ensures
        step(a, c),
{
    lemma_errors_grow_trans(a.errors@, b.errors@, c.errors@);
}

proof fn lemma_step_refl<'a>(a: Walker<'a>)
    requires
        a.ready(),
    ensures
        step(a, a),
{
    lemma_errors_grow_refl(a.errors@);
}

proof fn lemma_bound_step<'a>(a: Walker<'a>, b: Walker<'a>)
    requires
        bound(a, b),
        a.ready(),
    ensures
        step(a, b),
{
    lemma_errors_grow_refl(a.errors@);
}


/// The stack with `names` added to its innermost frame; an empty stack
/// stays empty.
pub open spec fn with_top(st: Seq<Set<Seq<char>>>, names: Set<Seq<char>>) -> Seq<Set<Seq<char>>> {
    if st.len() > 0 {
        st.update(st.len() - 1, st.last().union(names))
    } else {
        st
    }
}

proof fn lemma_with_top_twice(st: Seq<Set<Seq<char>>>, a: Set<Seq<char>>, b: Set<Seq<char>>)
    ensures
        with_top(with_top(st, a), b) == with_top(st, a.union(b)),
{
    if st.len() > 0 {
        assert(st.last().union(a).union(b) =~= st.last().union(a.union(b)));
        assert(with_top(with_top(st, a), b) =~= with_top(st, a.union(b)));
    }
}

proof fn lemma_with_top_none(st: Seq<Set<Seq<char>>>)
    ensures
        with_top(st, Set::empty()) == st,
{
    if st.len() > 0 {
        assert(st.last().union(Set::empty()) =~= st.last());
        assert(with_top(st, Set::empty()) =~= st);
    }
}

/// The names of a type's type variables.
pub open spec fn type_var_set(t: Type) -> Set<Seq<char>>
    decreases t, 0nat,
{
    match t {
        Type::Var { name, .. } => set![name@],
        Type::Con { .. } => Set::empty(),
        Type::App { func, arg, .. } => type_var_set(*func).union(type_var_set(*arg)),
        Type::Fun { param, result, .. } => type_var_set(*param).union(type_var_set(*result)),
        Type::Record { fields, .. } => {
            proof {
                assert(decreases_to!(t => fields));
                assert(decreases_to!(fields => fields@));
            }
            field_var_set(fields@, fields@.len() as int)
        },
    }
}

/// The names of the type variables of the first `n` fields.
pub open spec fn field_var_set(fs: Seq<crate::ast::TypeField>, n: int) -> Set<Seq<char>>
    decreases fs, n,
{
    if n <= 0 || n > fs.len() {
        Set::empty()
    } else {
        proof {
            assert(decreases_to!(fs => fs[n - 1]));
            assert(decreases_to!(fs[n - 1] => fs[n - 1].1));
        }
        field_var_set(fs, n - 1).union(type_var_set(fs[n - 1].1))
    }
}

/// The names of the type variables of the first `n` types.
pub open spec fn types_var_set(ts: Seq<Type>, n: int) -> Set<Seq<char>>
    decreases n,
{
    if n <= 0 || n > ts.len() {
        Set::empty()
    } else {
        types_var_set(ts, n - 1).union(type_var_set(ts[n - 1]))
    }
}

/// The names of the type variables of the first `n` constraints.
pub open spec fn constraints_var_set(cs: Seq<crate::ast::Constraint>, n: int) -> Set<Seq<char>>
    decreases n,
{
    if n <= 0 || n > cs.len() {
        Set::empty()
    } else {
        constraints_var_set(cs, n - 1).union(types_var_set(cs[n - 1].args@, cs[n - 1].args@.len() as int))
    }
}

/// The first `n` strings, as a set of texts.
pub open spec fn strings_set(v: Seq<String>, n: int) -> Set<Seq<char>>
    decreases n,
{
    if n <= 0 || n > v.len() {
        Set::empty()
    } else {
        strings_set(v, n - 1).insert(v[n - 1]@)
    }
}

/// The type variables a scheme brings in: those it quantifies, and
/// those its body and context mention.
pub open spec fn scheme_var_set(s: Scheme) -> Set<Seq<char>> {
    strings_set(s.forall@, s.forall@.len() as int).union(type_var_set(s.body)).union(
        constraints_var_set(s.context@, s.context@.len() as int),
    )
}

/// The names a pattern binds.
pub open spec fn pattern_name_set(p: Pattern) -> Set<Seq<char>>
    decreases p, 0nat,
{
    match p {
        Pattern::Wildcard(_) => Set::empty(),
        Pattern::Lit(_, _) => Set::empty(),
        Pattern::Var { name, .. } => set![name@],
        Pattern::As { name, inner, .. } => set![name@].union(pattern_name_set(*inner)),
        Pattern::Con { args, .. } => {
            proof {
                assert(decreases_to!(p => args));
                assert(decreases_to!(args => args@));
            }
            patterns_name_set(args@, args@.len() as int)
        },
        Pattern::Cons { head, tail, .. } => pattern_name_set(*head).union(pattern_name_set(*tail)),
        Pattern::List { items, .. } => {
            proof {
                assert(decreases_to!(p => items));
                assert(decreases_to!(items => items@));
            }
            patterns_name_set(items@, items@.len() as int)
        },
        Pattern::Record { fields, .. } => {
            proof {
                assert(decreases_to!(p => fields));
                assert(decreases_to!(fields => fields@));
            }
            pfields_name_set(fields@, fields@.len() as int)
        },
        Pattern::Annot { inner, .. } => pattern_name_set(*inner),
    }
}

/// The names the first `n` patterns bind.
pub open spec fn patterns_name_set(ps: Seq<Pattern>, n: int) -> Set<Seq<char>>
    decreases ps, n,
{
    if n <= 0 || n > ps.len() {
        Set::empty()
    } else {
        proof {
            assert(decreases_to!(ps => ps[n - 1]));
        }
        patterns_name_set(ps, n - 1).union(pattern_name_set(ps[n - 1]))
    }
}

/// The names the patterns of the first `n` record fields bind.
pub open spec fn pfields_name_set(fs: Seq<crate::ast::PatternField>, n: int) -> Set<Seq<char>>
    decreases fs, n,
{
    if n <= 0 || n > fs.len() {
        Set::empty()
    } else {
        proof {
            assert(decreases_to!(fs => fs[n - 1]));
            assert(decreases_to!(fs[n - 1] => fs[n - 1].1));
        }
        pfields_name_set(fs, n - 1).union(pattern_name_set(fs[n - 1].1))
    }
}

impl<'a> Walker<'a> {
    /// Bind `name` in the innermost local frame.
    fn bind_local(&mut self, name: &str)
        requires
            old(self).ready(),
        ensures
            bound(*old(self), *final(self)),
            final(self).scope@ == with_top(old(self).scope@, set![name@]),
    {
        self.scope.bind(name);
        proof {
            if old(self).scope@.len() > 0 {
                assert(self.scope@.drop_last() =~= old(self).scope@.drop_last());
                assert(old(self).scope@.last().insert(name@) =~= old(self).scope@.last().union(set![name@]));
            }
        }
    }

    /// Bind `name` in the innermost type-variable frame.
    fn bind_type(&mut self, name: &str)
        requires
            old(self).ready(),
        ensures
            type_bound(*old(self), *final(self)),
            final(self).type_scope@ == with_top(old(self).type_scope@, set![name@]),
    {
        self.type_scope.bind(name);
        proof {
            if old(self).type_scope@.len() > 0 {
                assert(self.type_scope@.drop_last() =~= old(self).type_scope@.drop_last());
                assert(old(self).type_scope@.last().insert(name@) =~= old(self).type_scope@.last().union(
                    set![name@],
                ));
            }
        }
    }

    /// Bind every type variable the type mentions.
    fn bind_type_vars(&mut self, ty: &Type)
        requires
            old(self).ready(),
        ensures
            type_bound(*old(self), *final(self)),
            final(self).type_scope@ == with_top(old(self).type_scope@, type_var_set(*ty)),
        decreases ty,
    {
        match ty {
            Type::Var { name, .. } => self.bind_type(name.as_str()),
            Type::Con { .. } => {
                proof {
                    lemma_with_top_none(self.type_scope@);
                }
            },
            Type::App { func, arg, .. } => {
                let ghost w0 = *self;
                self.bind_type_vars(func);
                let ghost w1 = *self;
                self.bind_type_vars(arg);
                assert(type_bound(w0, *self));
                proof {
                    lemma_with_top_twice(w0.type_scope@, type_var_set(**func), type_var_set(**arg));
                }
            },
            Type::Fun { param, result, .. } => {
                let ghost w0 = *self;
                self.bind_type_vars(param);
                self.bind_type_vars(result);
                assert(type_bound(w0, *self));
                proof {
                    lemma_with_top_twice(w0.type_scope@, type_var_set(**param), type_var_set(**result));
                }
            },
            Type::Record { fields, .. } => {
                let ghost w0 = *self;
                proof {
                    assert(decreases_to!(ty => fields));
                    assert(decreases_to!(fields => fields@));
                }
                proof {
                    lemma_with_top_none(w0.type_scope@);
                }
                let mut i: usize = 0;
                while i < fields.len()
                    invariant
                        i <= fields@.len(),
                        type_bound(w0, *self),
                        decreases_to!(ty => fields@),
                        self.type_scope@ == with_top(w0.type_scope@, field_var_set(fields@, i as int)),
                    decreases fields.len() - i,
                {
                    proof {
                        assert(decreases_to!(fields@ => fields@[i as int]));
                        assert(decreases_to!(fields@[i as int] => fields@[i as int].1));
                    }
                    let ghost w1 = *self;
                    self.bind_type_vars(&fields[i].1);
                    proof {
                        lemma_with_top_twice(
                            w0.type_scope@,
                            field_var_set(fields@, i as int),
                            type_var_set(fields@[i as int].1),
                        );
                    }
                    i = i + 1;
                }
            },
        }
    }

    /// Record every type variable and resolve every type constructor.
    fn walk_type(&mut self, ty: &Type)
        requires
            old(self).ready(),
        ensures
            walked(*old(self), *final(self)),
        decreases ty,
    {
        let ghost w0 = *self;
        match ty {
            Type::Var { name, span } => {
                self.record(*span, Resolution::Local { name: name.clone() });
            },
            Type::Con { module, name, span } => {
                self.resolve_name(module.as_ref(), name, Namespace::Type, *span);
            },
            Type::App { func, arg, .. } => {
                self.walk_type(func);
                let ghost w1 = *self;
                self.walk_type(arg);
                proof {
                    lemma_step_trans(w0, w1, *self);
                }
            },
            Type::Fun { param, result, .. } => {
                self.walk_type(param);
                let ghost w1 = *self;
                self.walk_type(result);
                proof {
                    lemma_step_trans(w0, w1, *self);
                }
            },
            Type::Record { fields, .. } => {
                proof {
                    lemma_step_refl(w0);
                    assert(decreases_to!(ty => fields));
                    assert(decreases_to!(fields => fields@));
                }
                let mut i: usize = 0;
                while i < fields.len()
                    invariant
                        i <= fields@.len(),
                        walked(w0, *self),
                        decreases_to!(ty => fields@),
                    decreases fields.len() - i,
                {
                    proof {
                        assert(decreases_to!(fields@ => fields@[i as int]));
                        assert(decreases_to!(fields@[i as int] => fields@[i as int].1));
                    }
                    let ghost w1 = *self;
                    self.walk_type(&fields[i].1);
                    proof {
                        lemma_step_trans(w0, w1, *self);
                    }
                    i = i + 1;
                }
            },
        }
    }

    /// Resolve the class name and walk the argument types.
    fn walk_constraint(&mut self, c: &Constraint)
        requires
            old(self).ready(),
        ensures
            walked(*old(self), *final(self)),
    {
        let ghost w0 = *self;
        self.resolve_name(None, &c.class_name, Namespace::Type, c.span);
        let mut i: usize = 0;
        while i < c.args.len()
            invariant
                i <= c.args@.len(),
                walked(w0, *self),
            decreases c.args.len() - i,
        {
            let ghost w1 = *self;
            self.walk_type(&c.args[i]);
            proof {
                lemma_step_trans(w0, w1, *self);
            }
            i = i + 1;
        }
    }

    /// Walk a type scheme's context and body.
    fn walk_scheme(&mut self, scheme: &Scheme)
        requires
            old(self).ready(),
        ensures
            walked(*old(self), *final(self)),
    {
        let ghost w0 = *self;
        proof {
            lemma_step_refl(w0);
        }
        let mut i: usize = 0;
        while i < scheme.context.len()
            invariant
                i <= scheme.context@.len(),
                walked(w0, *self),
            decreases scheme.context.len() - i,
        {
            let ghost w1 = *self;
            self.walk_constraint(&scheme.context[i]);
            proof {
                lemma_step_trans(w0, w1, *self);
            }
            i = i + 1;
        }
        let ghost w1 = *self;
        self.walk_type(&scheme.body);
        proof {
            lemma_step_trans(w0, w1, *self);
        }
    }

    /// Bind a scheme's quantified type variables, written or implicit.
    fn bring_in_foralls(&mut self, scheme: &Scheme)
        requires
            old(self).ready(),
        ensures
            type_bound(*old(self), *final(self)),
            final(self).type_scope@ == with_top(old(self).type_scope@, scheme_var_set(*scheme)),
    {
        let ghost w0 = *self;
        proof {
            lemma_with_top_none(w0.type_scope@);
        }
        let mut i: usize = 0;
        while i < scheme.forall.len()
            invariant
                i <= scheme.forall@.len(),
                type_bound(w0, *self),
                self.type_scope@ == with_top(w0.type_scope@, strings_set(scheme.forall@, i as int)),
            decreases scheme.forall.len() - i,
        {
            self.bind_type(scheme.forall[i].as_str());
            proof {
                lemma_with_top_twice(w0.type_scope@, strings_set(scheme.forall@, i as int), set![scheme.forall@[i as int]@]);
                assert(strings_set(scheme.forall@, i as int).union(set![scheme.forall@[i as int]@]) =~= strings_set(
                    scheme.forall@,
                    i + 1,
                ));
            }
            i = i + 1;
        }
        let ghost a = strings_set(scheme.forall@, scheme.forall@.len() as int);
        self.bind_type_vars(&scheme.body);
        proof {
            lemma_with_top_twice(w0.type_scope@, a, type_var_set(scheme.body));
            lemma_with_top_twice(w0.type_scope@, a.union(type_var_set(scheme.body)), Set::empty());
            assert(a.union(type_var_set(scheme.body)).union(Set::empty()) =~= a.union(type_var_set(scheme.body)));
        }
        let ghost ab = a.union(type_var_set(scheme.body));
        let mut i: usize = 0;
        while i < scheme.context.len()
            invariant
                i <= scheme.context@.len(),
                type_bound(w0, *self),
                self.type_scope@ == with_top(w0.type_scope@, ab.union(constraints_var_set(scheme.context@, i as int))),
            decreases scheme.context.len() - i,
        {
            let c = &scheme.context[i];
            let ghost before = ab.union(constraints_var_set(scheme.context@, i as int));
            let mut k: usize = 0;
            proof {
                assert(before.union(types_var_set(c.args@, 0)) =~= before);
            }
            while k < c.args.len()
                invariant
                    k <= c.args@.len(),
                    type_bound(w0, *self),
                    self.type_scope@ == with_top(w0.type_scope@, before.union(types_var_set(c.args@, k as int))),
                decreases c.args.len() - k,
            {
                self.bind_type_vars(&c.args[k]);
                proof {
                    lemma_with_top_twice(
                        w0.type_scope@,
                        before.union(types_var_set(c.args@, k as int)),
                        type_var_set(c.args@[k as int]),
                    );
                    assert(before.union(types_var_set(c.args@, k as int)).union(type_var_set(c.args@[k as int]))
                        =~= before.union(types_var_set(c.args@, k + 1)));
                }
                k = k + 1;
            }
            proof {
                assert(c == scheme.context@[i as int]);
                assert(before.union(types_var_set(c.args@, c.args@.len() as int)) =~= ab.union(
                    constraints_var_set(scheme.context@, i + 1),
                ));
            }
            i = i + 1;
        }
    }
}


/// `b` is `a` with one more local frame open.
pub open spec fn inside<'a>(a: Walker<'a>, b: Walker<'a>) -> bool {
    &&& step(a, b)
    &&& b.ready()
    &&& b.scope@.len() == a.scope@.len() + 1
    &&& b.scope@.drop_last() == a.scope@
    &&& b.type_scope@ == a.type_scope@
}

/// `b` is `a` with one more type-variable frame open.
pub open spec fn type_inside<'a>(a: Walker<'a>, b: Walker<'a>) -> bool {
    &&& step(a, b)
    &&& b.ready()
    &&& b.type_scope@.len() == a.type_scope@.len() + 1
    &&& b.type_scope@.drop_last() == a.type_scope@
    &&& b.scope@ == a.scope@
}

proof fn lemma_inside_bound<'a>(a: Walker<'a>, b: Walker<'a>, c: Walker<'a>)
    requires
        inside(a, b),
        bound(b, c),
    ensures
        inside(a, c),
{
    lemma_bound_step(b, c);
    lemma_step_trans(a, b, c);
}

proof fn lemma_inside_top<'a>(a: Walker<'a>, b: Walker<'a>, c: Walker<'a>)
    requires
        inside(a, b),
        step(b, c),
        c.ready(),
        same_but_top(b.scope@, c.scope@),
        c.type_scope@ == b.type_scope@,
    ensures
        inside(a, c),
{
    lemma_step_trans(a, b, c);
}

proof fn lemma_inside_walked<'a>(a: Walker<'a>, b: Walker<'a>, c: Walker<'a>)
    requires
        inside(a, b),
        walked(b, c),
    ensures
        inside(a, c),
{
    lemma_step_trans(a, b, c);
}

proof fn lemma_walked_trans<'a>(a: Walker<'a>, b: Walker<'a>, c: Walker<'a>)
    requires
        walked(a, b),
        walked(b, c),
    ensures
        walked(a, c),
{
    lemma_step_trans(a, b, c);
}

proof fn lemma_type_inside_walked<'a>(a: Walker<'a>, b: Walker<'a>, c: Walker<'a>)
    requires
        type_inside(a, b),
        walked(b, c),
    ensures
        type_inside(a, c),
{
    lemma_step_trans(a, b, c);
}

proof fn lemma_type_inside_bound<'a>(a: Walker<'a>, b: Walker<'a>, c: Walker<'a>)
    requires
        type_inside(a, b),
        type_bound(b, c),
    ensures
        type_inside(a, c),
{
    lemma_errors_grow_refl(b.errors@);
    lemma_step_trans(a, b, c);
}

impl<'a> Walker<'a> {
    /// Open a local frame.
    fn open_scope(&mut self)
        requires
            old(self).ready(),
        ensures
            inside(*old(self), *final(self)),
    {
        proof {
            lemma_step_refl(*self);
        }
        self.scope.push();
        assert(self.scope@.drop_last() =~= old(self).scope@);
    }

    /// Close the local frame opened last.
    fn close_scope(&mut self, Ghost(w0): Ghost<Walker<'a>>)
        requires
            inside(w0, *old(self)),
        ensures
            walked(w0, *final(self)),
    {
        self.scope.pop();
    }

    /// Open a type-variable frame.
    fn open_type_scope(&mut self)
        requires
            old(self).ready(),
        ensures
            type_inside(*old(self), *final(self)),
    {
        proof {
            lemma_step_refl(*self);
        }
        self.type_scope.push();
        assert(self.type_scope@.drop_last() =~= old(self).type_scope@);
    }

    /// Close the type-variable frame opened last.
    fn close_type_scope(&mut self, Ghost(w0): Ghost<Walker<'a>>)
        requires
            type_inside(w0, *old(self)),
        ensures
            walked(w0, *final(self)),
    {
        self.type_scope.pop();
    }

    /// Bind the variables a pattern introduces, in the innermost frame.
    fn bind_pattern(&mut self, pat: &Pattern)
        requires
            old(self).ready(),
        ensures
            bound(*old(self), *final(self)),
            final(self).scope@ == with_top(old(self).scope@, pattern_name_set(*pat)),
        decreases pat,
    {
        let ghost w0 = *self;
        match pat {
            Pattern::Wildcard(_) | Pattern::Lit(_, _) => {
                proof {
                    lemma_with_top_none(w0.scope@);
                }
            },
            Pattern::Var { name, .. } => self.bind_local(name.as_str()),
            Pattern::As { name, inner, .. } => {
                self.bind_local(name.as_str());
                self.bind_pattern(inner);
                assert(bound(w0, *self));
                proof {
                    lemma_with_top_twice(w0.scope@, set![name@], pattern_name_set(**inner));
                }
            },
            Pattern::Con { args, .. } => {
                proof {
                    assert(decreases_to!(pat => args));
                    assert(decreases_to!(args => args@));
                    lemma_with_top_none(w0.scope@);
                }
                let mut i: usize = 0;
                while i < args.len()
                    invariant
                        i <= args@.len(),
                        bound(w0, *self),
                        decreases_to!(pat => args@),
                        self.scope@ == with_top(w0.scope@, patterns_name_set(args@, i as int)),
                    decreases args.len() - i,
                {
                    proof {
                        assert(decreases_to!(args@ => args@[i as int]));
                    }
                    self.bind_pattern(&args[i]);
                    proof {
                        lemma_with_top_twice(w0.scope@, patterns_name_set(args@, i as int), pattern_name_set(args@[i as int]));
                    }
                    i = i + 1;
                }
            },
            Pattern::Cons { head, tail, .. } => {
                self.bind_pattern(head);
                self.bind_pattern(tail);
                assert(bound(w0, *self));
                proof {
                    lemma_with_top_twice(w0.scope@, pattern_name_set(**head), pattern_name_set(**tail));
                }
            },
            Pattern::List { items, .. } => {
                proof {
                    assert(decreases_to!(pat => items));
                    assert(decreases_to!(items => items@));
                    lemma_with_top_none(w0.scope@);
                }
                let mut i: usize = 0;
                while i < items.len()
                    invariant
                        i <= items@.len(),
                        bound(w0, *self),
                        decreases_to!(pat => items@),
                        self.scope@ == with_top(w0.scope@, patterns_name_set(items@, i as int)),
                    decreases items.len() - i,
                {
                    proof {
                        assert(decreases_to!(items@ => items@[i as int]));
                    }
                    self.bind_pattern(&items[i]);
                    proof {
                        lemma_with_top_twice(w0.scope@, patterns_name_set(items@, i as int), pattern_name_set(items@[i as int]));
                    }
                    i = i + 1;
                }
            },
            Pattern::Record { fields, .. } => {
                proof {
                    assert(decreases_to!(pat => fields));
                    assert(decreases_to!(fields => fields@));
                    lemma_with_top_none(w0.scope@);
                }
                let mut i: usize = 0;
                while i < fields.len()
                    invariant
                        i <= fields@.len(),
                        bound(w0, *self),
                        decreases_to!(pat => fields@),
                        self.scope@ == with_top(w0.scope@, pfields_name_set(fields@, i as int)),
                    decreases fields.len() - i,
                {
                    proof {
                        assert(decreases_to!(fields@ => fields@[i as int]));
                        assert(decreases_to!(fields@[i as int] => fields@[i as int].1));
                    }
                    self.bind_pattern(&fields[i].1);
                    proof {
                        lemma_with_top_twice(w0.scope@, pfields_name_set(fields@, i as int), pattern_name_set(fields@[i as int].1));
                    }
                    i = i + 1;
                }
            },
            Pattern::Annot { inner, .. } => self.bind_pattern(inner),
        }
    }

    /// Resolve the constructors and types a pattern mentions.
    fn walk_pattern(&mut self, pat: &Pattern)
        requires
            old(self).ready(),
        ensures
            walked(*old(self), *final(self)),
        decreases pat,
    {
        let ghost w0 = *self;
        proof {
            lemma_step_refl(w0);
        }
        match pat {
            Pattern::Wildcard(_) | Pattern::Var { .. } | Pattern::Lit(_, _) => {},
            Pattern::As { inner, .. } => self.walk_pattern(inner),
            Pattern::Con { module, name, args, span } => {
                self.resolve_name(module.as_ref(), name, Namespace::Value, *span);
                proof {
                    assert(decreases_to!(pat => args));
                    assert(decreases_to!(args => args@));
                }
                let mut i: usize = 0;
                while i < args.len()
                    invariant
                        i <= args@.len(),
                        walked(w0, *self),
                        decreases_to!(pat => args@),
                    decreases args.len() - i,
                {
                    proof {
                        assert(decreases_to!(args@ => args@[i as int]));
                    }
                    let ghost w1 = *self;
                    self.walk_pattern(&args[i]);
                    proof {
                        lemma_walked_trans(w0, w1, *self);
                    }
                    i = i + 1;
                }
            },
            Pattern::Cons { head, tail, .. } => {
                self.walk_pattern(head);
                let ghost w1 = *self;
                self.walk_pattern(tail);
                proof {
                    lemma_walked_trans(w0, w1, *self);
                }
            },
            Pattern::List { items, .. } => {
                proof {
                    assert(decreases_to!(pat => items));
                    assert(decreases_to!(items => items@));
                }
                let mut i: usize = 0;
                while i < items.len()
                    invariant
                        i <= items@.len(),
                        walked(w0, *self),
                        decreases_to!(pat => items@),
                    decreases items.len() - i,
                {
                    proof {
                        assert(decreases_to!(items@ => items@[i as int]));
                    }
                    let ghost w1 = *self;
                    self.walk_pattern(&items[i]);
                    proof {
                        lemma_walked_trans(w0, w1, *self);
                    }
                    i = i + 1;
                }
            },
            Pattern::Record { fields, .. } => {
                proof {
                    assert(decreases_to!(pat => fields));
                    assert(decreases_to!(fields => fields@));
                }
                let mut i: usize = 0;
                while i < fields.len()
                    invariant
                        i <= fields@.len(),
                        walked(w0, *self),
                        decreases_to!(pat => fields@),
                    decreases fields.len() - i,
                {
                    proof {
                        assert(decreases_to!(fields@ => fields@[i as int]));
                        assert(decreases_to!(fields@[i as int] => fields@[i as int].1));
                    }
                    let ghost w1 = *self;
                    self.walk_pattern(&fields[i].1);
                    proof {
                        lemma_walked_trans(w0, w1, *self);
                    }
                    i = i + 1;
                }
            },
            Pattern::Annot { inner, ty, .. } => {
                self.walk_pattern(inner);
                let ghost w1 = *self;
                self.walk_type(ty);
                proof {
                    lemma_walked_trans(w0, w1, *self);
                }
            },
        }
    }

    /// Bind the patterns' variables, then resolve what they mention.
    fn bind_and_walk_patterns(&mut self, params: &Vec<Pattern>)
        requires
            old(self).ready(),
            old(self).scope@.len() > 0,
        ensures
            step(*old(self), *final(self)),
            final(self).ready(),
            same_but_top(old(self).scope@, final(self).scope@),
            final(self).type_scope@ == old(self).type_scope@,
    {
        let ghost w0 = *self;
        proof {
            lemma_step_refl(w0);
        }
        let mut i: usize = 0;
        while i < params.len()
            invariant
                i <= params@.len(),
                bound(w0, *self),
            decreases params.len() - i,
        {
            self.bind_pattern(&params[i]);
            i = i + 1;
        }
        proof {
            lemma_bound_step(w0, *self);
        }
        let ghost w1 = *self;
        let mut i: usize = 0;
        while i < params.len()
            invariant
                i <= params@.len(),
                walked(w1, *self),
            decreases params.len() - i,
        {
            let ghost w2 = *self;
            self.walk_pattern(&params[i]);
            proof {
                lemma_walked_trans(w1, w2, *self);
            }
            i = i + 1;
        }
        proof {
            lemma_step_trans(w0, w1, *self);
        }
    }

    /// A value reference: a bare name bound locally resolves locally;
    /// anything else goes through `resolve_name`.
    fn walk_var_ref(&mut self, module: Option<&ModName>, name: &String, span: Span)
        requires
            old(self).ready(),
        ensures
            walked(*old(self), *final(self)),
            var_resolution(*old(self), *final(self), opt_mod(module), name@, span),
    {
        if module.is_none() && self.scope.lookup(name.as_str()) {
            self.record(span, Resolution::Local { name: name.clone() });
            return;
        }
        self.resolve_name(module, name, Namespace::Value, span);
    }
}


impl<'a> Walker<'a> {
    /// Walk a sequence of expressions.
    fn walk_exprs(&mut self, items: &Vec<Expr>, Ghost(parent): Ghost<Expr>)
        requires
            old(self).ready(),
            decreases_to!(parent => items@),
        ensures
            walked(*old(self), *final(self)),
        decreases parent, 0nat,
    {
        let ghost w0 = *self;
        proof {
            lemma_step_refl(w0);
        }
        let mut i: usize = 0;
        while i < items.len()
            invariant
                i <= items@.len(),
                walked(w0, *self),
                decreases_to!(parent => items@),
            decreases items.len() - i,
        {
            proof {
                assert(decreases_to!(items@ => items@[i as int]));
            }
            let ghost w1 = *self;
            self.walk_expr(&items[i]);
            proof {
                lemma_walked_trans(w0, w1, *self);
            }
            i = i + 1;
        }
    }

    /// Walk the values of record fields.
    fn walk_field_values(&mut self, fields: &Vec<crate::ast::ExprField>, Ghost(parent): Ghost<Expr>)
        requires
            old(self).ready(),
            decreases_to!(parent => fields@),
        ensures
            walked(*old(self), *final(self)),
        decreases parent, 0nat,
    {
        let ghost w0 = *self;
        proof {
            lemma_step_refl(w0);
        }
        let mut i: usize = 0;
        while i < fields.len()
            invariant
                i <= fields@.len(),
                walked(w0, *self),
                decreases_to!(parent => fields@),
            decreases fields.len() - i,
        {
            proof {
                assert(decreases_to!(fields@ => fields@[i as int]));
                assert(decreases_to!(fields@[i as int] => fields@[i as int].1));
            }
            let ghost w1 = *self;
            self.walk_expr(&fields[i].1);
            proof {
                lemma_walked_trans(w0, w1, *self);
            }
            i = i + 1;
        }
    }

    /// Resolve every reference in an expression. Binders open a local
    /// frame for what they bind and close it afterwards; `let` is
    /// recursive, so its name is bound before its value is walked.
    fn walk_expr(&mut self, expr: &Expr)
        requires
            old(self).ready(),
        ensures
            walked(*old(self), *final(self)),
            expr matches Expr::Var { module, name, span } ==> var_resolution(
                *old(self),
                *final(self),
                *module,
                name@,
                *span,
            ),
            expr matches Expr::OpRef { symbol, span } ==> name_resolution(
                *old(self),
                *final(self),
                None,
                symbol@,
                Namespace::Value,
                *span,
            ),
        decreases expr, 1nat,
    {
        let ghost w0 = *self;
        proof {
            lemma_step_refl(w0);
        }
        match expr {
            Expr::Lit(_, _) => {},
            Expr::Var { module, name, span } => {
                self.walk_var_ref(module.as_ref(), name, *span);
            },
            Expr::OpRef { symbol, span } => {
                self.resolve_name(None, symbol, Namespace::Value, *span);
            },
            Expr::App { func, arg, .. } => {
                self.walk_expr(func);
                let ghost w1 = *self;
                self.walk_expr(arg);
                proof {
                    lemma_walked_trans(w0, w1, *self);
                }
            },
            Expr::Lambda { params, body, .. } => {
                let ghost wo = *self;
                self.open_scope();
                let ghost wp = *self;
                self.bind_and_walk_patterns(params);
                proof {
                    lemma_inside_top(wo, wp, *self);
                }
                let ghost w1 = *self;
                self.walk_expr(body);
                proof {
                    lemma_inside_walked(w0, w1, *self);
                }
                self.close_scope(Ghost(w0));
            },
            Expr::Let { name, params, value, body, .. } => {
                self.open_scope();
                let ghost w1 = *self;
                self.bind_local(name.as_str());
                proof {
                    lemma_inside_bound(w0, w1, *self);
                }
                let ghost w2 = *self;
                let ghost wo = *self;
                self.open_scope();
                let ghost wp = *self;
                self.bind_and_walk_patterns(params);
                proof {
                    lemma_inside_top(wo, wp, *self);
                }
                let ghost w3 = *self;
                self.walk_expr(value);
                proof {
                    lemma_inside_walked(w2, w3, *self);
                }
                self.close_scope(Ghost(w2));
                proof {
                    lemma_step_trans(w0, w2, *self);
                }
                let ghost w4 = *self;
                self.walk_expr(body);
                proof {
                    lemma_step_trans(w0, w4, *self);
                }
                self.close_scope(Ghost(w0));
            },
            Expr::If { cond, then_branch, else_branch, .. } => {
                self.walk_expr(cond);
                let ghost w1 = *self;
                self.walk_expr(then_branch);
                let ghost w2 = *self;
                self.walk_expr(else_branch);
                proof {
                    lemma_walked_trans(w0, w1, w2);
                    lemma_walked_trans(w0, w2, *self);
                }
            },
            Expr::Case { scrutinee, arms, .. } => {
                self.walk_expr(scrutinee);
                proof {
                    assert(decreases_to!(expr => arms));
                    assert(decreases_to!(arms => arms@));
                }
                let mut i: usize = 0;
                while i < arms.len()
                    invariant
                        i <= arms@.len(),
                        walked(w0, *self),
                        decreases_to!(expr => arms@),
                    decreases arms.len() - i,
                {
                    proof {
                        assert(decreases_to!(arms@ => arms@[i as int]));
                        assert(decreases_to!(arms@[i as int] => arms@[i as int].body));
                    }
                    let arm = &arms[i];
                    let ghost w1 = *self;
                    self.open_scope();
                    let ghost w2 = *self;
                    self.bind_pattern(&arm.pattern);
                    proof {
                        lemma_inside_bound(w1, w2, *self);
                    }
                    let ghost w3 = *self;
                    self.walk_pattern(&arm.pattern);
                    proof {
                        lemma_inside_walked(w1, w3, *self);
                    }
                    let ghost w4 = *self;
                    self.walk_expr(&arm.body);
                    proof {
                        lemma_inside_walked(w1, w4, *self);
                    }
                    self.close_scope(Ghost(w1));
                    proof {
                        lemma_walked_trans(w0, w1, *self);
                    }
                    i = i + 1;
                }
            },
            Expr::BinOp { op, left, right, .. } => {
                let sp = left.span().merge(right.span());
                self.resolve_name(None, op, Namespace::Value, sp);
                let ghost w1 = *self;
                self.walk_expr(left);
                let ghost w2 = *self;
                self.walk_expr(right);
                proof {
                    lemma_walked_trans(w1, w2, *self);
                    lemma_walked_trans(w0, w1, *self);
                }
            },
            Expr::Neg { value, .. } => self.walk_expr(value),
            Expr::RecordLit { fields, .. } => {
                proof {
                    assert(decreases_to!(expr => fields));
                    assert(decreases_to!(fields => fields@));
                }
                self.walk_field_values(fields, Ghost(*expr));
            },
            Expr::RecordUpdate { record, fields, .. } => {
                self.walk_expr(record);
                proof {
                    assert(decreases_to!(expr => fields));
                    assert(decreases_to!(fields => fields@));
                }
                let ghost w1 = *self;
                self.walk_field_values(fields, Ghost(*expr));
                proof {
                    lemma_walked_trans(w0, w1, *self);
                }
            },
            Expr::FieldAccess { record, .. } => self.walk_expr(record),
            Expr::ListLit { items, .. } => {
                proof {
                    assert(decreases_to!(expr => items));
                    assert(decreases_to!(items => items@));
                }
                self.walk_exprs(items, Ghost(*expr));
            },
            Expr::Do { stmts, .. } => {
                proof {
                    assert(decreases_to!(expr => stmts));
                    assert(decreases_to!(stmts => stmts@));
                }
                self.open_scope();
                let mut i: usize = 0;
                while i < stmts.len()
                    invariant
                        i <= stmts@.len(),
                        inside(w0, *self),
                        decreases_to!(expr => stmts@),
                    decreases stmts.len() - i,
                {
                    proof {
                        assert(decreases_to!(stmts@ => stmts@[i as int]));
                    }
                    let ghost w1 = *self;
                    match &stmts[i] {
                        DoStmt::Bind { pattern, expr: e, .. } => {
                            proof {
                                assert(decreases_to!(stmts@[i as int] => *e));
                            }
                            self.walk_expr(e);
                            proof {
                                lemma_inside_walked(w0, w1, *self);
                            }
                            let ghost w2 = *self;
                            self.bind_pattern(pattern);
                            proof {
                                lemma_inside_bound(w0, w2, *self);
                            }
                            let ghost w3 = *self;
                            self.walk_pattern(pattern);
                            proof {
                                lemma_inside_walked(w0, w3, *self);
                            }
                        },
                        DoStmt::Let { name, params, value, .. } => {
                            proof {
                                assert(decreases_to!(stmts@[i as int] => *value));
                            }
                            self.bind_local(name.as_str());
                            proof {
                                lemma_inside_bound(w0, w1, *self);
                            }
                            let ghost w2 = *self;
                            let ghost wo = *self;
                            self.open_scope();
                            let ghost wp = *self;
                            self.bind_and_walk_patterns(params);
                            proof {
                                lemma_inside_top(wo, wp, *self);
                            }
                            let ghost w3 = *self;
                            self.walk_expr(value);
                            proof {
                                lemma_inside_walked(w2, w3, *self);
                            }
                            self.close_scope(Ghost(w2));
                            proof {
                                lemma_inside_walked(w0, w2, *self);
                            }
                        },
                        DoStmt::Expr(e) => {
                            proof {
                                assert(decreases_to!(stmts@[i as int] => *e));
                            }
                            self.walk_expr(e);
                            proof {
                                lemma_inside_walked(w0, w1, *self);
                            }
                        },
                    }
                    i = i + 1;
                }
                self.close_scope(Ghost(w0));
            },
        }
    }

    /// Walk one value clause: its parameters bind in a fresh frame that
    /// the body sees.
    fn walk_value_clause(&mut self, clause: &ValueClause)
        requires
            old(self).ready(),
        ensures
            walked(*old(self), *final(self)),
    {
        let ghost w0 = *self;
        let ghost wo = *self;
        self.open_scope();
        let ghost wp = *self;
        self.bind_and_walk_patterns(&clause.params);
        proof {
            lemma_inside_top(wo, wp, *self);
        }
        let ghost w1 = *self;
        self.walk_expr(&clause.body);
        proof {
            lemma_inside_walked(w0, w1, *self);
        }
        self.close_scope(Ghost(w0));
    }
}


impl<'a> Walker<'a> {
    /// Walk the items of a class declaration, inside its type frame.
    fn walk_class_items(&mut self, items: &Vec<ClassItem>)
        requires
            old(self).ready(),
        ensures
            step(*old(self), *final(self)),
            final(self).ready(),
            final(self).scope@ == old(self).scope@,
            same_but_top(old(self).type_scope@, final(self).type_scope@),
    {
        let ghost w0 = *self;
        proof {
            lemma_step_refl(w0);
        }
        let mut i: usize = 0;
        while i < items.len()
            invariant
                i <= items@.len(),
                step(w0, *self),
                self.ready(),
                self.scope@ == w0.scope@,
                same_but_top(w0.type_scope@, self.type_scope@),
            decreases items.len() - i,
        {
            let ghost w1 = *self;
            match &items[i] {
                ClassItem::Signature { scheme, .. } => {
                    self.bring_in_foralls(scheme);
                    proof {
                        lemma_errors_grow_refl(w1.errors@);
                        lemma_step_trans(w0, w1, *self);
                    }
                    let ghost w2 = *self;
                    self.walk_scheme(scheme);
                    proof {
                        lemma_step_trans(w0, w2, *self);
                    }
                },
                ClassItem::Default(vc) => {
                    self.walk_value_clause(vc);
                    proof {
                        lemma_step_trans(w0, w1, *self);
                    }
                },
            }
            i = i + 1;
        }
    }

    /// Walk one declaration.
    pub fn walk_decl(&mut self, decl: &Decl)
        requires
            old(self).ready(),
        ensures
            walked(*old(self), *final(self)),
    {
        let ghost w0 = *self;
        proof {
            lemma_step_refl(w0);
        }
        match decl {
            Decl::Signature { scheme, .. } => {
                self.open_type_scope();
                let ghost w1 = *self;
                self.bring_in_foralls(scheme);
                proof {
                    lemma_type_inside_bound(w0, w1, *self);
                }
                let ghost w2 = *self;
                self.walk_scheme(scheme);
                proof {
                    lemma_type_inside_walked(w0, w2, *self);
                }
                self.close_type_scope(Ghost(w0));
            },
            Decl::Value(clause) => self.walk_value_clause(clause),
            Decl::Data(d) => {
                self.open_type_scope();
                let mut i: usize = 0;
                while i < d.type_params.len()
                    invariant
                        i <= d.type_params@.len(),
                        step(w0, *self),
                        self.ready(),
                        self.scope@ == w0.scope@,
                        self.type_scope@.len() == w0.type_scope@.len() + 1,
                        self.type_scope@.drop_last() == w0.type_scope@,
                    decreases d.type_params.len() - i,
                {
                    let ghost w1 = *self;
                    self.bind_type(d.type_params[i].as_str());
                    proof {
                        lemma_type_inside_bound(w0, w1, *self);
                    }
                    i = i + 1;
                }
                let mut c: usize = 0;
                while c < d.ctors.len()
                    invariant
                        c <= d.ctors@.len(),
                        type_inside(w0, *self),
                    decreases d.ctors.len() - c,
                {
                    let ctor = &d.ctors[c];
                    let mut k: usize = 0;
                    while k < ctor.args.len()
                        invariant
                            k <= ctor.args@.len(),
                            type_inside(w0, *self),
                        decreases ctor.args.len() - k,
                    {
                        let ghost w1 = *self;
                        self.walk_type(&ctor.args[k]);
                        proof {
                            lemma_type_inside_walked(w0, w1, *self);
                        }
                        k = k + 1;
                    }
                    c = c + 1;
                }
                self.close_type_scope(Ghost(w0));
            },
            Decl::TypeAlias(a) => {
                self.open_type_scope();
                let mut i: usize = 0;
                while i < a.type_params.len()
                    invariant
                        i <= a.type_params@.len(),
                        type_inside(w0, *self),
                    decreases a.type_params.len() - i,
                {
                    let ghost w1 = *self;
                    self.bind_type(a.type_params[i].as_str());
                    proof {
                        lemma_type_inside_bound(w0, w1, *self);
                    }
                    i = i + 1;
                }
                let ghost w1 = *self;
                self.walk_type(&a.body);
                proof {
                    lemma_type_inside_walked(w0, w1, *self);
                }
                self.close_type_scope(Ghost(w0));
            },
            Decl::Class(c) => {
                self.open_type_scope();
                let ghost w1 = *self;
                self.bind_type(c.type_var.as_str());
                proof {
                    lemma_type_inside_bound(w0, w1, *self);
                }
                let mut i: usize = 0;
                while i < c.context.len()
                    invariant
                        i <= c.context@.len(),
                        type_inside(w0, *self),
                    decreases c.context.len() - i,
                {
                    let ghost w2 = *self;
                    self.walk_constraint(&c.context[i]);
                    proof {
                        lemma_type_inside_walked(w0, w2, *self);
                    }
                    i = i + 1;
                }
                let ghost w2 = *self;
                self.walk_class_items(&c.items);
                proof {
                    lemma_step_trans(w0, w2, *self);
                }
                self.close_type_scope(Ghost(w0));
            },
            Decl::Instance(inst) => {
                self.resolve_name(None, &inst.name, Namespace::Type, inst.span);
                let ghost w1 = *self;
                self.open_type_scope();
                let mut i: usize = 0;
                while i < inst.context.len()
                    invariant
                        i <= inst.context@.len(),
                        type_inside(w1, *self),
                    decreases inst.context.len() - i,
                {
                    let ghost w2 = *self;
                    self.walk_constraint(&inst.context[i]);
                    proof {
                        lemma_type_inside_walked(w1, w2, *self);
                    }
                    i = i + 1;
                }
                let ghost w2 = *self;
                self.walk_type(&inst.head);
                proof {
                    lemma_type_inside_walked(w1, w2, *self);
                }
                let mut i: usize = 0;
                while i < inst.items.len()
                    invariant
                        i <= inst.items@.len(),
                        type_inside(w1, *self),
                    decreases inst.items.len() - i,
                {
                    let ghost w2 = *self;
                    self.walk_value_clause(&inst.items[i]);
                    proof {
                        lemma_type_inside_walked(w1, w2, *self);
                    }
                    i = i + 1;
                }
                self.close_type_scope(Ghost(w1));
                proof {
                    lemma_walked_trans(w0, w1, *self);
                }
            },
            Decl::RubyEmbed(r) => {
                self.open_scope();
                let mut i: usize = 0;
                while i < r.params.len()
                    invariant
                        i <= r.params@.len(),
                        inside(w0, *self),
                    decreases r.params.len() - i,
                {
                    let ghost w1 = *self;
                    self.bind_local(r.params[i].name.as_str());
                    proof {
                        lemma_inside_bound(w0, w1, *self);
                    }
                    i = i + 1;
                }
                self.close_scope(Ghost(w0));
            },
        }
    }

    /// Walk every declaration of a module.
    pub fn walk_module(&mut self, m: &Module)
        requires
            old(self).ready(),
        ensures
            walked(*old(self), *final(self)),
    {
        let ghost w0 = *self;
        proof {
            lemma_step_refl(w0);
        }
        let mut i: usize = 0;
        while i < m.decls.len()
            invariant
                i <= m.decls@.len(),
                walked(w0, *self),
            decreases m.decls.len() - i,
        {
            let ghost w1 = *self;
            self.walk_decl(&m.decls[i]);
            proof {
                lemma_walked_trans(w0, w1, *self);
            }
            i = i + 1;
        }
    }
}

} // verus!
