//! The first phase of resolution: a module's top-level definitions,
//! with the visibility its export list gives each.
use vstd::prelude::*;

use super::env::{first_def, lemma_first_def, DefKind, ModuleEnv, TopLevelDef, Visibility};
use super::error::{Namespace, ResolveError, ResolveErrorKind};
use super::exports::{ctor_names, ctors_of, method_names, methods_of};
use crate::ast::{ClassItem, Decl, ExportItem, Module};
use crate::span::Span;
use crate::text::string_views;

verus! {

/// No name occurs twice in one namespace.
pub open spec fn defs_unique(t: Seq<TopLevelDef>) -> bool {
    forall|i: int, j: int|
        0 <= i < j < t.len() ==> !(#[trigger] t[i].name@ == #[trigger] t[j].name@ && t[i].namespace
            == t[j].namespace)
}

/// Two tables that differ at most in visibilities.
pub open spec fn same_but_visibility(a: Seq<TopLevelDef>, b: Seq<TopLevelDef>) -> bool {
    a.len() == b.len() && forall|i: int|
        0 <= i < a.len() ==> (#[trigger] a[i]).name == b[i].name && a[i].namespace == b[i].namespace
            && a[i].kind == b[i].kind && a[i].span == b[i].span
}

/// `b` extends `a` by new entries, leaving the old ones as they were.
pub open spec fn extends(a: Seq<TopLevelDef>, b: Seq<TopLevelDef>) -> bool {
    a.len() <= b.len() && b.take(a.len() as int) == a
}

/// The name and namespace are defined in the table.
pub open spec fn has_def(t: Seq<TopLevelDef>, name: Seq<char>, ns: Namespace) -> bool {
    exists|i: int| 0 <= i < t.len() && #[trigger] t[i].name@ == name && t[i].namespace == ns
}

/// Every name a declaration introduces has a top-level definition:
/// values, signatures and Ruby bindings as values; data types, aliases
/// and classes as types; constructors and class methods as values.
pub open spec fn decl_registered(t: Seq<TopLevelDef>, d: Decl) -> bool {
    match d {
        Decl::Signature { name, .. } => has_def(t, name@, Namespace::Value),
        Decl::Value(v) => has_def(t, v.name@, Namespace::Value),
        Decl::Data(dd) => has_def(t, dd.name@, Namespace::Type) && forall|k: int|
            0 <= k < dd.ctors@.len() ==> has_def(t, (#[trigger] dd.ctors@[k]).name@, Namespace::Value),
        Decl::TypeAlias(a) => has_def(t, a.name@, Namespace::Type),
        Decl::Class(c) => has_def(t, c.name@, Namespace::Type) && forall|k: int|
            0 <= k < c.items@.len() ==> has_def(
                t,
                match #[trigger] c.items@[k] {
                    ClassItem::Signature { name, .. } => name@,
                    ClassItem::Default(v) => v.name@,
                },
                Namespace::Value,
            ),
        Decl::Instance(_) => true,
        Decl::RubyEmbed(r) => has_def(t, r.name@, Namespace::Value),
    }
}

/// An export item marks `q` of namespace `ns` as exported: the named
/// entity, and for `T(..)` the type's constructors, for `T(C, ...)` the
/// listed constructors, for `class C(..)` the class's methods.
pub open spec fn item_marks(t: Seq<TopLevelDef>, item: ExportItem, q: Seq<char>, ns: Namespace) -> bool {
    match item {
        ExportItem::Value { name, .. } => ns == Namespace::Value && q == name@,
        ExportItem::Type { name, .. } => ns == Namespace::Type && q == name@,
        ExportItem::Class { name, .. } => ns == Namespace::Type && q == name@,
        ExportItem::TypeAll { name, .. } => (ns == Namespace::Type && q == name@) || (ns
            == Namespace::Value && ctor_names(t, name@).contains(q)),
        ExportItem::TypeWith { name, ctors, .. } => (ns == Namespace::Type && q == name@) || (ns
            == Namespace::Value && string_views(ctors@).contains(q)),
        ExportItem::ClassAll { name, .. } => (ns == Namespace::Type && q == name@) || (ns
            == Namespace::Value && method_names(t, name@).contains(q)),
        ExportItem::ReExport { .. } => false,
    }
}

/// Some item of the export list marks `q` of namespace `ns`.
pub open spec fn list_marks(t: Seq<TopLevelDef>, items: Seq<ExportItem>, q: Seq<char>, ns: Namespace) -> bool {
    exists|i: int| 0 <= i < items.len() && item_marks(t, #[trigger] items[i], q, ns)
}

/// The module has no export list: a header without one, or no header.
pub open spec fn exports_everything(m: Module) -> bool {
    match m.header {
        Some(h) => h.exports is None,
        None => true,
    }
}

/// The visibility every top-level definition gets: exported when the
/// module exports everything or its list marks the definition.
pub open spec fn visibility_agrees(m: Module, t: Seq<TopLevelDef>) -> bool {
    forall|i: int|
        0 <= i < t.len() ==> ((#[trigger] t[i]).visibility == Visibility::Exported <==> (
        exports_everything(m) || (m.header matches Some(h) && (h.exports matches Some(items)
            && list_marks(t, items@, t[i].name@, t[i].namespace)))))
}

/// `ctor_names` and `method_names` read only names and kinds.
proof fn lemma_names_same(a: Seq<TopLevelDef>, b: Seq<TopLevelDef>, x: Seq<char>)
    requires
        same_but_visibility(a, b),
    ensures
        ctor_names(a, x) == ctor_names(b, x),
        method_names(a, x) == method_names(b, x),
    decreases a.len(),
{
    if a.len() > 0 {
        assert(same_but_visibility(a.drop_last(), b.drop_last()));
        lemma_names_same(a.drop_last(), b.drop_last(), x);
        assert(a.last().kind == b.last().kind);
        assert(a.last().name == b.last().name);
    }
}

/// Register a definition unless its name is taken in its namespace, in
/// which case report a duplicate.
fn insert_top(env: &mut ModuleEnv, name: String, ns: Namespace, kind: DefKind, span: Span, errors: &mut Vec<ResolveError>)
    requires
        defs_unique(old(env).top_level@),
    ensures
        defs_unique(final(env).top_level@),
        extends(old(env).top_level@, final(env).top_level@),
        has_def(final(env).top_level@, name@, ns),
        final(env).top_level@.len() == old(env).top_level@.len() ==> final(errors)@.len()
            == old(errors)@.len() + 1 && final(errors)@.last().kind is DuplicateTopLevel,
        final(env).top_level@.len() > old(env).top_level@.len() ==> final(errors)@ == old(errors)@
            && final(env).top_level@.last().visibility == Visibility::Private
            && final(env).top_level@.len() == old(env).top_level@.len() + 1,
        final(errors)@.len() >= old(errors)@.len(),
        forall|k: int| 0 <= k < old(errors)@.len() ==> final(errors)@[k] == old(errors)@[k],
        final(env).id == old(env).id,
        final(env).unqualified == old(env).unqualified,
        final(env).qualified_aliases == old(env).qualified_aliases,
        final(env).exports == old(env).exports,
{
    proof {
        lemma_first_def(env.top_level@, name@, ns);
    }
    if env.top_lookup(name.as_str(), ns).is_some() {
        errors.push(
            ResolveError::new(ResolveErrorKind::DuplicateTopLevel { name: name.clone(), namespace: ns }, span),
        );
        proof {
            let i = choose|i: int| 0 <= i < env.top_level@.len() && super::env::defines(env.top_level@[i], name@, ns);
            assert(env.top_level@[i].name@ == name@);
        }
        assert(env.top_level@.take(env.top_level@.len() as int) =~= env.top_level@);
        return;
    }
    let ghost t0 = env.top_level@;
    let def = TopLevelDef { name, namespace: ns, visibility: Visibility::Private, kind, span };
    env.top_level.push(def);
    proof {
        assert(env.top_level@.take(t0.len() as int) =~= t0);
        assert(env.top_level@[t0.len() as int].name@ == name@);
        assert forall|i: int, j: int|
            0 <= i < j < env.top_level@.len() implies !(#[trigger] env.top_level@[i].name@
            == #[trigger] env.top_level@[j].name@ && env.top_level@[i].namespace
            == env.top_level@[j].namespace) by {
            if j == t0.len() {
                assert(env.top_level@[i] == t0[i]);
                if env.top_level@[i].name@ == name@ && env.top_level@[i].namespace == ns {
                    assert(super::env::defines(t0[i], name@, ns));
                }
            } else {
                assert(env.top_level@[i] == t0[i]);
                assert(env.top_level@[j] == t0[j]);
            }
        }
    }
}

/// Value-side bindings (clauses, signatures, Ruby bindings) share one
/// slot per name: the first registers it, later ones are accepted when
/// the slot holds a value or Ruby binding, and reported as duplicates
/// when it holds anything else (a constructor, a method).
fn ensure_value_binding(env: &mut ModuleEnv, name: &String, kind: DefKind, span: Span, errors: &mut Vec<ResolveError>)
    requires
        defs_unique(old(env).top_level@),
    ensures
        defs_unique(final(env).top_level@),
        extends(old(env).top_level@, final(env).top_level@),
        has_def(final(env).top_level@, name@, Namespace::Value),
        final(env).top_level@.len() <= old(env).top_level@.len() + 1,
        final(env).top_level@.len() > old(env).top_level@.len() ==> final(env).top_level@.last().visibility
            == Visibility::Private,
        final(errors)@.len() <= old(errors)@.len() + 1,
        final(errors)@.len() >= old(errors)@.len(),
        forall|k: int| 0 <= k < old(errors)@.len() ==> final(errors)@[k] == old(errors)@[k],
        final(errors)@.len() > old(errors)@.len() ==> final(errors)@.last().kind is DuplicateTopLevel,
        final(env).id == old(env).id,
        final(env).unqualified == old(env).unqualified,
        final(env).qualified_aliases == old(env).qualified_aliases,
        final(env).exports == old(env).exports,
{
    proof {
        lemma_first_def(env.top_level@, name@, Namespace::Value);
    }
    match env.top_lookup(name.as_str(), Namespace::Value) {
        Some(def) => {
            proof {
                assert(env.top_level@.contains(*def));
                let i = choose|i: int| 0 <= i < env.top_level@.len() && env.top_level@[i] == *def;
                assert(env.top_level@[i].name@ == name@);
            }
            match def.kind {
                DefKind::Value | DefKind::RubyEmbed => {},
                _ => {
                    errors.push(
                        ResolveError::new(
                            ResolveErrorKind::DuplicateTopLevel {
                                name: name.clone(),
                                namespace: Namespace::Value,
                            },
                            span,
                        ),
                    );
                },
            }
            assert(env.top_level@.take(env.top_level@.len() as int) =~= env.top_level@);
        },
        None => {
            insert_top(env, name.clone(), Namespace::Value, kind, span, errors);
        },
    }
}

/// The names an export list marks as exported.
fn collect_exported_names(env: &ModuleEnv, items: &Vec<ExportItem>) -> (out: Vec<(String, Namespace)>)
    ensures
        forall|q: Seq<char>, ns: Namespace|
            list_marks(env.top_level@, items@, q, ns) <==> exists|j: int|
                0 <= j < out@.len() && #[trigger] out@[j].0@ == q && out@[j].1 == ns,
{
    let ghost t = env.top_level@;
    let mut out: Vec<(String, Namespace)> = Vec::new();
    let mut i: usize = 0;
    while i < items.len()
        invariant
            i <= items@.len(),
            t == env.top_level@,
            forall|q: Seq<char>, ns: Namespace|
                list_marks(t, items@.take(i as int), q, ns) <==> exists|j: int|
                    0 <= j < out@.len() && #[trigger] out@[j].0@ == q && out@[j].1 == ns,
        decreases items.len() - i,
    {
        let ghost o0 = out@;
        let ghost item = items@[i as int];
        let extra: Vec<String> = match &items[i] {
            ExportItem::Value { name, .. } => {
                out.push((name.clone(), Namespace::Value));
                Vec::new()
            },
            ExportItem::Type { name, .. } | ExportItem::Class { name, .. } => {
                out.push((name.clone(), Namespace::Type));
                Vec::new()
            },
            ExportItem::TypeAll { name, .. } => {
                out.push((name.clone(), Namespace::Type));
                ctors_of(env, name.as_str())
            },
            ExportItem::TypeWith { name, ctors, .. } => {
                out.push((name.clone(), Namespace::Type));
                super::env::copy_strings(ctors.as_slice())
            },
            ExportItem::ClassAll { name, .. } => {
                out.push((name.clone(), Namespace::Type));
                methods_of(env, name.as_str())
            },
            ExportItem::ReExport { .. } => Vec::new(),
        };
        let ghost o1 = out@;
        proof {
            assert forall|q: Seq<char>, ns: Namespace|
                item_marks(t, item, q, ns) <==> ((o1.len() > o0.len() && o1.last().0@ == q && o1.last().1
                    == ns) || (ns == Namespace::Value && string_views(extra@).contains(q))) by {}
        }
        let mut k: usize = 0;
        while k < extra.len()
            invariant
                k <= extra@.len(),
                out@.len() == o1.len() + k,
                out@.take(o1.len() as int) == o1,
                forall|j: int|
                    o1.len() <= j < out@.len() ==> (#[trigger] out@[j]).0@ == extra@[j - o1.len()]@
                        && out@[j].1 == Namespace::Value,
            decreases extra.len() - k,
        {
            let ghost ok = out@;
            out.push((extra[k].clone(), Namespace::Value));
            proof {
                assert(out@.take(o1.len() as int) =~= ok.take(o1.len() as int));
                assert forall|j: int| o1.len() <= j < out@.len() implies (#[trigger] out@[j]).0@
                    == extra@[j - o1.len()]@ && out@[j].1 == Namespace::Value by {
                    if j < ok.len() {
                        assert(out@[j] == ok[j]);
                    }
                }
            }
            k = k + 1;
        }
        proof {
            let prev = items@.take(i as int);
            let next = items@.take(i + 1);
            assert(next =~= prev.push(item));
            assert forall|j: int| 0 <= j < o1.len() implies out@[j] == o1[j] by {
                assert(out@.take(o1.len() as int)[j] == out@[j]);
            }
            assert forall|q: Seq<char>, ns: Namespace|
                list_marks(t, next, q, ns) <==> exists|j: int|
                    0 <= j < out@.len() && #[trigger] out@[j].0@ == q && out@[j].1 == ns by {
                if list_marks(t, next, q, ns) {
                    let m = choose|m: int| 0 <= m < next.len() && item_marks(t, #[trigger] next[m], q, ns);
                    if m < prev.len() {
                        assert(prev[m] == next[m]);
                        assert(list_marks(t, prev, q, ns));
                        let j = choose|j: int| 0 <= j < o0.len() && #[trigger] o0[j].0@ == q && o0[j].1 == ns;
                        assert(out@[j] == o1[j]);
                        assert(o1[j] == o0[j]);
                    } else {
                        assert(item_marks(t, item, q, ns));
                        if o1.len() > o0.len() && o1.last().0@ == q && o1.last().1 == ns {
                            assert(out@[o1.len() - 1] == o1[o1.len() - 1]);
                        } else {
                            let e = choose|e: int| 0 <= e < extra@.len() && string_views(extra@)[e] == q;
                            assert(out@[o1.len() + e].0@ == q);
                        }
                    }
                }
                if exists|j: int| 0 <= j < out@.len() && #[trigger] out@[j].0@ == q && out@[j].1 == ns {
                    let j = choose|j: int| 0 <= j < out@.len() && #[trigger] out@[j].0@ == q && out@[j].1 == ns;
                    if j < o0.len() {
                        assert(out@[j] == o1[j]);
                        assert(o1[j] == o0[j]);
                        assert(o0[j].0@ == q && o0[j].1 == ns);
                        assert(list_marks(t, prev, q, ns));
                        let m = choose|m: int| 0 <= m < prev.len() && item_marks(t, #[trigger] prev[m], q, ns);
                        assert(next[m] == prev[m]);
                    } else if j < o1.len() {
                        assert(out@[j] == o1[j]);
                        assert(item_marks(t, next[i as int], q, ns));
                    } else {
                        assert(string_views(extra@)[j - o1.len()] == q);
                        assert(item_marks(t, next[i as int], q, ns));
                    }
                }
            }
        }
        i = i + 1;
    }
    proof {
        assert(items@.take(i as int) =~= items@);
    }
    out
}

/// Whether `(name, ns)` is among the marked names.
fn is_marked(marked: &Vec<(String, Namespace)>, name: &String, ns: Namespace) -> (r: bool)
    ensures
        r == exists|j: int| 0 <= j < marked@.len() && #[trigger] marked@[j].0@ == name@ && marked@[j].1 == ns,
{
    let mut i: usize = 0;
    while i < marked.len()
        invariant
            i <= marked@.len(),
            forall|j: int| 0 <= j < i ==> !(#[trigger] marked@[j].0@ == name@ && marked@[j].1 == ns),
        decreases marked.len() - i,
    {
        if marked[i].1 == ns && marked[i].0.eq(name) {
            return true;
        }
        i = i + 1;
    }
    false
}

/// Register every top-level definition of a module, reporting
/// duplicates, then give each its visibility.
pub fn collect_top_level(m: &Module, env: &mut ModuleEnv, errors: &mut Vec<ResolveError>)
    requires
        old(env).top_level@.len() == 0,
    ensures
        defs_unique(final(env).top_level@),
        forall|i: int| 0 <= i < m.decls@.len() ==> decl_registered(final(env).top_level@, #[trigger] m.decls@[i]),
        visibility_agrees(*m, final(env).top_level@),
        final(errors)@.len() >= old(errors)@.len(),
        forall|k: int| 0 <= k < old(errors)@.len() ==> final(errors)@[k] == old(errors)@[k],
        forall|k: int|
            old(errors)@.len() <= k < final(errors)@.len() ==> (#[trigger] final(errors)@[k]).kind is DuplicateTopLevel,
        final(env).id == old(env).id,
        final(env).unqualified == old(env).unqualified,
        final(env).qualified_aliases == old(env).qualified_aliases,
        final(env).exports == old(env).exports,
{
    let ghost n0 = errors@.len();
    let mut i: usize = 0;
    while i < m.decls.len()
        invariant
            i <= m.decls@.len(),
            defs_unique(env.top_level@),
            forall|j: int| 0 <= j < i ==> decl_registered(env.top_level@, #[trigger] m.decls@[j]),
            forall|j: int| 0 <= j < env.top_level@.len() ==> (#[trigger] env.top_level@[j]).visibility
                == Visibility::Private,
            errors@.len() >= n0,
            n0 == old(errors)@.len(),
            forall|k: int| 0 <= k < n0 ==> errors@[k] == old(errors)@[k],
            forall|k: int| n0 <= k < errors@.len() ==> (#[trigger] errors@[k]).kind is DuplicateTopLevel,
            env.id == old(env).id,
            env.unqualified == old(env).unqualified,
            env.qualified_aliases == old(env).qualified_aliases,
            env.exports == old(env).exports,
        decreases m.decls.len() - i,
    {
        let ghost t0 = env.top_level@;
        collect_decl(&m.decls[i], env, errors);
        proof {
            assert forall|j: int| 0 <= j < i + 1 implies decl_registered(env.top_level@, #[trigger] m.decls@[j]) by {
                if j < i {
                    lemma_registered_extends(t0, env.top_level@, m.decls@[j]);
                }
            }
        }
        i = i + 1;
    }
    let all_exported = match &m.header {
        Some(h) => h.exports.is_none(),
        None => true,
    };
    let ghost t1 = env.top_level@;
    if all_exported {
        let mut k: usize = 0;
        while k < env.top_level.len()
            invariant
                k <= env.top_level@.len(),
                same_but_visibility(t1, env.top_level@),
                forall|j: int| 0 <= j < k ==> (#[trigger] env.top_level@[j]).visibility == Visibility::Exported,
                env.id == old(env).id,
                env.unqualified == old(env).unqualified,
                env.qualified_aliases == old(env).qualified_aliases,
                env.exports == old(env).exports,
            decreases env.top_level.len() - k,
        {
            let mut d = env.top_level[k].clone();
            d.visibility = Visibility::Exported;
            env.top_level.set(k, d);
            k = k + 1;
        }
    } else {
        match &m.header {
            Some(h) => match &h.exports {
                Some(items) => {
                    let marked = collect_exported_names(env, items);
                    let mut k: usize = 0;
                    while k < env.top_level.len()
                        invariant
                            k <= env.top_level@.len(),
                            same_but_visibility(t1, env.top_level@),
                            forall|j: int|
                                0 <= j < t1.len() ==> (#[trigger] t1[j]).visibility == Visibility::Private,
                            forall|q: Seq<char>, ns: Namespace|
                                list_marks(t1, items@, q, ns) <==> exists|j: int|
                                    0 <= j < marked@.len() && #[trigger] marked@[j].0@ == q && marked@[j].1 == ns,
                            forall|j: int|
                                0 <= j < k ==> ((#[trigger] env.top_level@[j]).visibility == Visibility::Exported
                                    <==> list_marks(t1, items@, t1[j].name@, t1[j].namespace)),
                            forall|j: int|
                                k <= j < env.top_level@.len() ==> (#[trigger] env.top_level@[j]).visibility
                                    == Visibility::Private,
                            env.id == old(env).id,
                            env.unqualified == old(env).unqualified,
                            env.qualified_aliases == old(env).qualified_aliases,
                            env.exports == old(env).exports,
                        decreases env.top_level.len() - k,
                    {
                        if is_marked(&marked, &env.top_level[k].name, env.top_level[k].namespace) {
                            let mut d = env.top_level[k].clone();
                            d.visibility = Visibility::Exported;
                            env.top_level.set(k, d);
                        }
                        k = k + 1;
                    }
                },
                None => {},
            },
            None => {},
        }
    }
    proof {
        let t = env.top_level@;
        assert(same_but_visibility(t1, t));
        assert forall|q: Seq<char>| #[trigger] ctor_names(t1, q) == ctor_names(t, q) && method_names(t1, q) == method_names(t, q) by {
            lemma_names_same(t1, t, q);
        }
        assert forall|i: int, j: int|
            0 <= i < j < t.len() implies !(#[trigger] t[i].name@ == #[trigger] t[j].name@ && t[i].namespace
            == t[j].namespace) by {
            assert(t1[i].name == t[i].name);
            assert(t1[j].name == t[j].name);
        }
        assert forall|j: int| 0 <= j < m.decls@.len() implies decl_registered(t, #[trigger] m.decls@[j]) by {
            lemma_registered_same(t1, t, m.decls@[j]);
        }
        assert forall|i: int| 0 <= i < t.len() implies ((#[trigger] t[i]).visibility == Visibility::Exported <==> (
            exports_everything(*m) || (m.header matches Some(h) && (h.exports matches Some(items)
                && list_marks(t, items@, t[i].name@, t[i].namespace))))) by {
            assert(t1[i].name == t[i].name);
            if !all_exported {
                let h = m.header->0;
                let items = h.exports->0;
                assert forall|q: Seq<char>, ns: Namespace| list_marks(t1, items@, q, ns) == list_marks(t, items@, q, ns) by {
                    if list_marks(t1, items@, q, ns) {
                        let a = choose|a: int| 0 <= a < items@.len() && item_marks(t1, #[trigger] items@[a], q, ns);
                        lemma_item_marks_same(t1, t, items@[a], q, ns);
                        assert(item_marks(t, items@[a], q, ns));
                    }
                    if list_marks(t, items@, q, ns) {
                        let a = choose|a: int| 0 <= a < items@.len() && item_marks(t, #[trigger] items@[a], q, ns);
                        lemma_item_marks_same(t1, t, items@[a], q, ns);
                        assert(item_marks(t1, items@[a], q, ns));
                    }
                }
            }
        }
    }
}

/// What an item marks reads only names and kinds.
proof fn lemma_item_marks_same(a: Seq<TopLevelDef>, b: Seq<TopLevelDef>, item: ExportItem, q: Seq<char>, ns: Namespace)
    requires
        same_but_visibility(a, b),
    ensures
        item_marks(a, item, q, ns) == item_marks(b, item, q, ns),
{
    match item {
        ExportItem::TypeAll { name, .. } => lemma_names_same(a, b, name@),
        ExportItem::ClassAll { name, .. } => lemma_names_same(a, b, name@),
        _ => {},
    }
}

/// New entries that are private keep a table of private entries so.
proof fn lemma_private_extends(a: Seq<TopLevelDef>, b: Seq<TopLevelDef>)
    requires
        extends(a, b),
        b.len() <= a.len() + 1,
        forall|j: int| 0 <= j < a.len() ==> (#[trigger] a[j]).visibility == Visibility::Private,
        b.len() > a.len() ==> b.last().visibility == Visibility::Private,
    ensures
        forall|j: int| 0 <= j < b.len() ==> (#[trigger] b[j]).visibility == Visibility::Private,
{
    assert forall|j: int| 0 <= j < b.len() implies (#[trigger] b[j]).visibility == Visibility::Private by {
        if j < a.len() {
            assert(b.take(a.len() as int)[j] == b[j]);
        }
    }
}

/// Registration only ever adds entries, so what was registered stays so.
proof fn lemma_registered_extends(a: Seq<TopLevelDef>, b: Seq<TopLevelDef>, d: Decl)
    requires
        extends(a, b),
        decl_registered(a, d),
    ensures
        decl_registered(b, d),
{
    assert forall|name: Seq<char>, ns: Namespace| has_def(a, name, ns) implies has_def(b, name, ns) by {
        let i = choose|i: int| 0 <= i < a.len() && #[trigger] a[i].name@ == name && a[i].namespace == ns;
        assert(b.take(a.len() as int)[i] == b[i]);
        assert(b[i].name@ == name);
    }
}

/// Visibility changes leave registrations as they were.
proof fn lemma_registered_same(a: Seq<TopLevelDef>, b: Seq<TopLevelDef>, d: Decl)
    requires
        same_but_visibility(a, b),
        decl_registered(a, d),
    ensures
        decl_registered(b, d),
{
    assert forall|name: Seq<char>, ns: Namespace| has_def(a, name, ns) implies has_def(b, name, ns) by {
        let i = choose|i: int| 0 <= i < a.len() && #[trigger] a[i].name@ == name && a[i].namespace == ns;
        assert(b[i].name == a[i].name);
        assert(b[i].name@ == name);
    }
}

/// Register what one declaration introduces.
fn collect_decl(decl: &Decl, env: &mut ModuleEnv, errors: &mut Vec<ResolveError>)
    requires
        defs_unique(old(env).top_level@),
        forall|j: int| 0 <= j < old(env).top_level@.len() ==> (#[trigger] old(env).top_level@[j]).visibility
            == Visibility::Private,
    ensures
        defs_unique(final(env).top_level@),
        extends(old(env).top_level@, final(env).top_level@),
        decl_registered(final(env).top_level@, *decl),
        forall|j: int| 0 <= j < final(env).top_level@.len() ==> (#[trigger] final(env).top_level@[j]).visibility
            == Visibility::Private,
        final(errors)@.len() >= old(errors)@.len(),
        forall|k: int| 0 <= k < old(errors)@.len() ==> final(errors)@[k] == old(errors)@[k],
        forall|k: int|
            old(errors)@.len() <= k < final(errors)@.len() ==> (#[trigger] final(errors)@[k]).kind is DuplicateTopLevel,
        final(env).id == old(env).id,
        final(env).unqualified == old(env).unqualified,
        final(env).qualified_aliases == old(env).qualified_aliases,
        final(env).exports == old(env).exports,
{
    let ghost t0 = env.top_level@;
    let ghost n0 = errors@.len();
    match decl {
        Decl::Signature { name, span, .. } => {
            ensure_value_binding(env, name, DefKind::Value, *span, errors);
            proof { lemma_private_extends(t0, env.top_level@); }
        },
        Decl::Value(v) => {
            ensure_value_binding(env, &v.name, DefKind::Value, v.span, errors);
            proof { lemma_private_extends(t0, env.top_level@); }
        },
        Decl::RubyEmbed(r) => {
            ensure_value_binding(env, &r.name, DefKind::RubyEmbed, r.span, errors);
            proof { lemma_private_extends(t0, env.top_level@); }
        },
        Decl::TypeAlias(a) => {
            insert_top(env, a.name.clone(), Namespace::Type, DefKind::TypeAlias, a.span, errors);
            proof { lemma_private_extends(t0, env.top_level@); }
        },
        Decl::Instance(_) => {
            assert(env.top_level@.take(t0.len() as int) =~= t0);
        },
        Decl::Data(d) => {
            insert_top(env, d.name.clone(), Namespace::Type, DefKind::DataType, d.span, errors);
            proof { lemma_private_extends(t0, env.top_level@); }
            let mut k: usize = 0;
            while k < d.ctors.len()
                invariant
                    k <= d.ctors@.len(),
                    defs_unique(env.top_level@),
                    extends(t0, env.top_level@),
                    has_def(env.top_level@, d.name@, Namespace::Type),
                    forall|c: int| 0 <= c < k ==> has_def(env.top_level@, (#[trigger] d.ctors@[c]).name@, Namespace::Value),
                    forall|j: int| 0 <= j < env.top_level@.len() ==> (#[trigger] env.top_level@[j]).visibility
                        == Visibility::Private,
                    errors@.len() >= n0,
                    n0 == old(errors)@.len(),
                    forall|c: int| 0 <= c < n0 ==> errors@[c] == old(errors)@[c],
                    forall|c: int| n0 <= c < errors@.len() ==> (#[trigger] errors@[c]).kind is DuplicateTopLevel,
                    env.id == old(env).id,
                    env.unqualified == old(env).unqualified,
                    env.qualified_aliases == old(env).qualified_aliases,
                    env.exports == old(env).exports,
                decreases d.ctors.len() - k,
            {
                let ghost tk = env.top_level@;
                insert_top(
                    env,
                    d.ctors[k].name.clone(),
                    Namespace::Value,
                    DefKind::Ctor { parent_type: d.name.clone() },
                    d.ctors[k].span,
                    errors,
                );
                proof {
                    lemma_extends_trans(t0, tk, env.top_level@);
                    lemma_has_def_extends(tk, env.top_level@);
                    lemma_private_extends(tk, env.top_level@);
                }
                k = k + 1;
            }
        },
        Decl::Class(c) => {
            insert_top(env, c.name.clone(), Namespace::Type, DefKind::Class, c.span, errors);
            proof { lemma_private_extends(t0, env.top_level@); }
            let mut k: usize = 0;
            while k < c.items.len()
                invariant
                    k <= c.items@.len(),
                    defs_unique(env.top_level@),
                    extends(t0, env.top_level@),
                    has_def(env.top_level@, c.name@, Namespace::Type),
                    forall|x: int| 0 <= x < k ==> has_def(
                        env.top_level@,
                        match #[trigger] c.items@[x] {
                            ClassItem::Signature { name, .. } => name@,
                            ClassItem::Default(v) => v.name@,
                        },
                        Namespace::Value,
                    ),
                    forall|j: int| 0 <= j < env.top_level@.len() ==> (#[trigger] env.top_level@[j]).visibility
                        == Visibility::Private,
                    errors@.len() >= n0,
                    n0 == old(errors)@.len(),
                    forall|x: int| 0 <= x < n0 ==> errors@[x] == old(errors)@[x],
                    forall|x: int| n0 <= x < errors@.len() ==> (#[trigger] errors@[x]).kind is DuplicateTopLevel,
                    env.id == old(env).id,
                    env.unqualified == old(env).unqualified,
                    env.qualified_aliases == old(env).qualified_aliases,
                    env.exports == old(env).exports,
                decreases c.items.len() - k,
            {
                let ghost tk = env.top_level@;
                let (mname, mspan) = match &c.items[k] {
                    ClassItem::Signature { name, span, .. } => (name.clone(), *span),
                    ClassItem::Default(v) => (v.name.clone(), v.span),
                };
                insert_top(
                    env,
                    mname,
                    Namespace::Value,
                    DefKind::ClassMethod { parent_class: c.name.clone() },
                    mspan,
                    errors,
                );
                proof {
                    lemma_extends_trans(t0, tk, env.top_level@);
                    lemma_has_def_extends(tk, env.top_level@);
                    lemma_private_extends(tk, env.top_level@);
                }
                k = k + 1;
            }
        },
    }
}

proof fn lemma_extends_trans(a: Seq<TopLevelDef>, b: Seq<TopLevelDef>, c: Seq<TopLevelDef>)
    requires
        extends(a, b),
        extends(b, c),
    ensures
        extends(a, c),
{
    assert(c.take(a.len() as int) =~= b.take(a.len() as int)) by {
        assert forall|i: int| 0 <= i < a.len() implies c.take(a.len() as int)[i] == b.take(a.len() as int)[i] by {
            assert(c.take(b.len() as int)[i] == c[i]);
        }
    }
}

proof fn lemma_has_def_extends(a: Seq<TopLevelDef>, b: Seq<TopLevelDef>)
    requires
        extends(a, b),
    ensures
        forall|name: Seq<char>, ns: Namespace| has_def(a, name, ns) ==> #[trigger] has_def(b, name, ns),
{
    assert forall|name: Seq<char>, ns: Namespace| has_def(a, name, ns) implies #[trigger] has_def(b, name, ns) by {
        let i = choose|i: int| 0 <= i < a.len() && #[trigger] a[i].name@ == name && a[i].namespace == ns;
        assert(b.take(a.len() as int)[i] == b[i]);
        assert(b[i].name@ == name);
    }
}

} // verus!
