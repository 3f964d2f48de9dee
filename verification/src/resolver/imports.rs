//! `import` declarations: which names an import brings into scope,
//! unqualified and under which qualifiers.
//!
//! Every module implicitly imports the prelude unless it imports the
//! prelude module explicitly.
use vstd::prelude::*;

use super::env::{copy_strings, Exports, ModuleEnv, ModuleId, ResolvedRef};
use super::error::{Namespace, ResolveError, ResolveErrorKind};
use super::prelude::{
    name_table_view, prelude_type_table, prelude_types, prelude_value_table, prelude_values,
    PRELUDE_MODULE,
};
use super::table::{keys_unique, lemma_table_get_at, lemma_table_get_some, table_get};
use crate::ast::{ImportDecl, ImportItem, ImportItems, ModName, Module};
use crate::lexer::scan::text_is;
use crate::span::Span;
use crate::text::{join_strings, join_text, string_views};

verus! {

/// An unqualified name in scope, by its view.
pub open spec fn unq_view(u: Seq<(String, Namespace, ResolvedRef)>) -> Seq<
    (Seq<char>, Namespace, (Seq<Seq<char>>, Seq<char>, Namespace)),
> {
    u.map_values(|e: (String, Namespace, ResolvedRef)| (e.0@, e.1, e.2@))
}

/// The name and namespace an import item names first.
pub open spec fn import_head(item: ImportItem) -> (Seq<char>, Namespace) {
    match item {
        ImportItem::Value { name, .. } => (name@, Namespace::Value),
        ImportItem::Type { name, .. } => (name@, Namespace::Type),
        ImportItem::TypeAll { name, .. } => (name@, Namespace::Type),
        ImportItem::TypeWith { name, .. } => (name@, Namespace::Type),
        ImportItem::Class { name, .. } => (name@, Namespace::Type),
        ImportItem::ClassAll { name, .. } => (name@, Namespace::Type),
    }
}

/// The target module exports what the item names first.
pub open spec fn head_known(ex: Exports, item: ImportItem) -> bool {
    ex.entry(import_head(item).0, import_head(item).1) is Some
}

/// The target module exports what the item names first and, for
/// `T(C, ...)`, every listed constructor.
pub open spec fn item_known(ex: Exports, item: ImportItem) -> bool {
    &&& head_known(ex, item)
    &&& item matches ImportItem::TypeWith { ctors, .. } ==> forall|j: int|
        0 <= j < ctors@.len() ==> ex.entry(#[trigger] ctors@[j]@, Namespace::Value) is Some
}

/// `q` of namespace `ns` is among what a `hiding` item hides: the named
/// entity, and for `T(..)` or `class C(..)` every value the target
/// module exports as its own.
pub open spec fn item_hides(ex: Exports, target: Seq<Seq<char>>, item: ImportItem, q: Seq<char>, ns: Namespace) -> bool {
    import_head(item) == (q, ns) || extra_hides(ex, target, item, q, ns)
}

/// What a `hiding` item hides besides the entity it names.
pub open spec fn extra_hides(ex: Exports, target: Seq<Seq<char>>, item: ImportItem, q: Seq<char>, ns: Namespace) -> bool {
    ||| (item is TypeAll || item is ClassAll) && ns == Namespace::Value && (ex.entry(
        q,
        Namespace::Value,
    ) matches Some(v) && v.0 == target)
    ||| item matches ImportItem::TypeWith { ctors, .. } && ns == Namespace::Value
        && string_views(ctors@).contains(q)
}

/// Some item of a `hiding` list hides `q` of namespace `ns`.
pub open spec fn hidden_by(ex: Exports, target: Seq<Seq<char>>, items: Seq<ImportItem>, q: Seq<char>, ns: Namespace) -> bool {
    exists|i: int| 0 <= i < items.len() && item_hides(ex, target, #[trigger] items[i], q, ns)
}

/// The qualifier an import introduces with `as`, if any.
pub open spec fn alias_text(decl: ImportDecl) -> Option<Seq<char>> {
    match decl.alias {
        Some(a) => Some(join_text(string_views(a.segments@), "."@)),
        None => None,
    }
}

/// What an import declaration brings into a module's environment,
/// given the target module and its exports, where `added` are the
/// unqualified names appended.
pub open spec fn import_effect(
    decl: ImportDecl,
    target: Seq<Seq<char>>,
    ex: Exports,
    added: Seq<(Seq<char>, Namespace, (Seq<Seq<char>>, Seq<char>, Namespace))>,
) -> bool {
    &&& forall|k: int|
        0 <= k < added.len() ==> ex.entry((#[trigger] added[k]).0, added[k].1) == Some(added[k].2)
    &&& decl.qualified ==> added.len() == 0
    &&& (!decl.qualified && decl.items is All) ==> forall|q: Seq<char>, ns: Namespace|
        #[trigger] ex.entry(q, ns) is Some ==> exists|k: int|
            0 <= k < added.len() && added[k].0 == q && added[k].1 == ns
    &&& !decl.qualified ==> (decl.items matches ImportItems::Hiding(items) ==> {
        &&& forall|q: Seq<char>, ns: Namespace|
            #[trigger] ex.entry(q, ns) is Some && !hidden_by(ex, target, items@, q, ns) ==> exists|
                k: int,
            | 0 <= k < added.len() && added[k].0 == q && added[k].1 == ns
        &&& forall|k: int|
            0 <= k < added.len() ==> !hidden_by(ex, target, items@, (#[trigger] added[k]).0, added[k].1)
    })
    &&& !decl.qualified ==> (decl.items matches ImportItems::Only(items) ==> forall|i: int|
        0 <= i < items@.len() && head_known(ex, #[trigger] items@[i]) ==> exists|k: int|
            0 <= k < added.len() && added[k].0 == import_head(items@[i]).0 && added[k].1
                == import_head(items@[i]).1)
}

/// When an import declaration is refused: an item the target module
/// does not export (for an unqualified item list, a listed constructor
/// counts too).
pub open spec fn import_refused(decl: ImportDecl, ex: Exports) -> bool {
    match decl.items {
        ImportItems::All => false,
        ImportItems::Only(items) => if decl.qualified {
            exists|i: int| 0 <= i < items@.len() && !head_known(ex, #[trigger] items@[i])
        } else {
            exists|i: int| 0 <= i < items@.len() && !item_known(ex, #[trigger] items@[i])
        },
        ImportItems::Hiding(items) => exists|i: int|
            0 <= i < items@.len() && !head_known(ex, #[trigger] items@[i]),
    }
}

/// Whether the module names the prelude in an import of its own; if it
/// does not, the prelude is imported implicitly.
pub fn should_add_implicit_prelude(module: &Module) -> (r: bool)
    ensures
        r == !exists|i: int|
            0 <= i < module.imports@.len() && #[trigger] module.imports@[i].name.segments@.len() > 0
                && module.imports@[i].name.segments@[0]@ == PRELUDE_MODULE@,
{
    let mut i: usize = 0;
    while i < module.imports.len()
        invariant
            i <= module.imports@.len(),
            forall|j: int|
                0 <= j < i ==> !(#[trigger] module.imports@[j].name.segments@.len() > 0
                    && module.imports@[j].name.segments@[0]@ == PRELUDE_MODULE@),
        decreases module.imports.len() - i,
    {
        let segs = &module.imports[i].name.segments;
        if segs.len() > 0 && text_is(&segs[0], PRELUDE_MODULE) {
            return false;
        }
        i = i + 1;
    }
    true
}

/// Append `(name, ns, r)` to the unqualified names.
fn bring(out: &mut Vec<(String, Namespace, ResolvedRef)>, name: &String, ns: Namespace, r: &ResolvedRef)
    ensures
        unq_view(final(out)@) == unq_view(old(out)@).push((name@, ns, r@)),
{
    let ghost o = out@;
    out.push((name.clone(), ns, r.clone()));
    assert(unq_view(out@) =~= unq_view(o).push((name@, ns, r@)));
}

/// Report that the target module does not export `name`.
fn unknown_import(errors: &mut Vec<ResolveError>, target: &ModuleId, name: &String, ns: Namespace, span: Span)
    ensures
        final(errors)@.len() == old(errors)@.len() + 1,
        forall|k: int| 0 <= k < old(errors)@.len() ==> final(errors)@[k] == old(errors)@[k],
        final(errors)@.last().kind is ImportOfUnknown,
{
    errors.push(
        ResolveError::new(
            ResolveErrorKind::ImportOfUnknown {
                module: target.display(),
                name: name.clone(),
                namespace: ns,
            },
            span,
        ),
    );
}

/// The item's first name, its namespace and its span.
fn head_of(item: &ImportItem) -> (r: (&String, Namespace, Span))
    ensures
        (r.0@, r.1) == import_head(*item),
{
    match item {
        ImportItem::Value { name, span, .. } => (name, Namespace::Value, *span),
        ImportItem::Type { name, span } => (name, Namespace::Type, *span),
        ImportItem::TypeAll { name, span } => (name, Namespace::Type, *span),
        ImportItem::TypeWith { name, span, .. } => (name, Namespace::Type, *span),
        ImportItem::Class { name, span } => (name, Namespace::Type, *span),
        ImportItem::ClassAll { name, span } => (name, Namespace::Type, *span),
    }
}

/// Bring every value the target exports as its own (`T(..)` and
/// `class C(..)` imports take them all).
fn bring_own_values(
    out: &mut Vec<(String, Namespace, ResolvedRef)>,
    ex: &Exports,
    target: &ModuleId,
)
    requires
        ex.wf(),
    ensures
        unq_view(final(out)@).take(old(out)@.len() as int) == unq_view(old(out)@),
        final(out)@.len() >= old(out)@.len(),
        forall|k: int|
            old(out)@.len() <= k < final(out)@.len() ==> ex.entry(
                (#[trigger] unq_view(final(out)@)[k]).0,
                unq_view(final(out)@)[k].1,
            ) == Some(unq_view(final(out)@)[k].2) && unq_view(final(out)@)[k].1 == Namespace::Value,
        forall|j: int|
            0 <= j < ex.values@.len() && (#[trigger] ex.values@[j]).1.module@ == target@ ==> unq_view(
                final(out)@,
            ).subrange(old(out)@.len() as int, final(out)@.len() as int).contains(
                (ex.values@[j].0@, Namespace::Value, ex.values@[j].1@),
            ),
{
    let ghost o = unq_view(out@);
    let mut i: usize = 0;
    while i < ex.values.len()
        invariant
            i <= ex.values@.len(),
            ex.wf(),
            out@.len() >= o.len(),
            unq_view(out@).take(o.len() as int) == o,
            forall|k: int|
                o.len() <= k < out@.len() ==> ex.entry(
                    (#[trigger] unq_view(out@)[k]).0,
                    unq_view(out@)[k].1,
                ) == Some(unq_view(out@)[k].2) && unq_view(out@)[k].1 == Namespace::Value,
            forall|j: int|
                0 <= j < i && (#[trigger] ex.values@[j]).1.module@ == target@ ==> unq_view(out@).subrange(
                    o.len() as int,
                    out@.len() as int,
                ).contains((ex.values@[j].0@, Namespace::Value, ex.values@[j].1@)),
        decreases ex.values.len() - i,
    {
        let ghost u_before = unq_view(out@);
        if ex.values[i].1.module.same(target) {
            let ghost u0 = unq_view(out@);
            let ghost l0 = out@.len();
            bring(out, &ex.values[i].0, Namespace::Value, &ex.values[i].1);
            proof {
                assert(unq_view(out@).len() == out@.len());
                assert(u0.len() == l0);
                lemma_table_get_at(ex.values@, i as int);
                assert(ex.entry(ex.values@[i as int].0@, Namespace::Value) == Some(ex.values@[i as int].1@));
                assert(unq_view(out@)[l0 as int] == (ex.values@[i as int].0@, Namespace::Value, ex.values@[i as int].1@));
                assert(unq_view(out@).take(o.len() as int) =~= u0.take(o.len() as int));
                assert forall|k: int| o.len() <= k < out@.len() implies ex.entry(
                    (#[trigger] unq_view(out@)[k]).0,
                    unq_view(out@)[k].1,
                ) == Some(unq_view(out@)[k].2) && unq_view(out@)[k].1 == Namespace::Value by {
                    if k < u0.len() {
                        assert(unq_view(out@)[k] == u0[k]);
                    }
                }
            }
        }
        proof {
            let u = unq_view(out@);
            assert(u.len() >= u_before.len());
            assert(forall|t: int| 0 <= t < u_before.len() ==> u[t] == #[trigger] u_before[t]);
            assert forall|j: int|
                0 <= j < i + 1 && (#[trigger] ex.values@[j]).1.module@ == target@ implies u.subrange(
                    o.len() as int,
                    out@.len() as int,
                ).contains((ex.values@[j].0@, Namespace::Value, ex.values@[j].1@)) by {
                let e = (ex.values@[j].0@, Namespace::Value, ex.values@[j].1@);
                if j < i {
                    let sb = u_before.subrange(o.len() as int, u_before.len() as int);
                    let t = choose|t: int| 0 <= t < sb.len() && sb[t] == e;
                    assert(u.subrange(o.len() as int, out@.len() as int)[t] == e);
                } else {
                    assert(u[u_before.len() as int] == e);
                    assert(u.subrange(o.len() as int, out@.len() as int)[u_before.len() - o.len()] == e);
                }
            }
        }
        i = i + 1;
    }
}


/// Report each item whose first name the target does not export.
fn validate_items_exist(items: &Vec<ImportItem>, ex: &Exports, target: &ModuleId, errors: &mut Vec<ResolveError>)
    requires
        ex.wf(),
    ensures
        final(errors)@.len() >= old(errors)@.len(),
        forall|k: int| 0 <= k < old(errors)@.len() ==> final(errors)@[k] == old(errors)@[k],
        forall|k: int|
            old(errors)@.len() <= k < final(errors)@.len() ==> (#[trigger] final(errors)@[k]).kind is ImportOfUnknown,
        (final(errors)@.len() == old(errors)@.len()) == forall|i: int|
            0 <= i < items@.len() ==> head_known(*ex, #[trigger] items@[i]),
{
    let ghost n0 = errors@.len();
    let mut i: usize = 0;
    while i < items.len()
        invariant
            i <= items@.len(),
            ex.wf(),
            errors@.len() >= n0,
            n0 == old(errors)@.len(),
            forall|k: int| 0 <= k < n0 ==> errors@[k] == old(errors)@[k],
            forall|k: int| n0 <= k < errors@.len() ==> (#[trigger] errors@[k]).kind is ImportOfUnknown,
            (errors@.len() == n0) == forall|j: int| 0 <= j < i ==> head_known(*ex, #[trigger] items@[j]),
        decreases items.len() - i,
    {
        let (name, ns, span) = head_of(&items[i]);
        if ex.lookup(name.as_str(), ns).is_none() {
            unknown_import(errors, target, name, ns, span);
        }
        i = i + 1;
    }
}

/// Bring what one item of an unqualified item list names, reporting
/// each name the target does not export.
fn collect_item(
    item: &ImportItem,
    ex: &Exports,
    target: &ModuleId,
    out: &mut Vec<(String, Namespace, ResolvedRef)>,
    errors: &mut Vec<ResolveError>,
)
    requires
        ex.wf(),
    ensures
        unq_view(final(out)@).take(old(out)@.len() as int) == unq_view(old(out)@),
        final(out)@.len() >= old(out)@.len(),
        forall|k: int|
            old(out)@.len() <= k < final(out)@.len() ==> ex.entry(
                (#[trigger] unq_view(final(out)@)[k]).0,
                unq_view(final(out)@)[k].1,
            ) == Some(unq_view(final(out)@)[k].2),
        head_known(*ex, *item) ==> final(out)@.len() > old(out)@.len() && unq_view(
            final(out)@,
        )[old(out)@.len() as int].0 == import_head(*item).0 && unq_view(
            final(out)@,
        )[old(out)@.len() as int].1 == import_head(*item).1,
        final(errors)@.len() >= old(errors)@.len(),
        forall|k: int| 0 <= k < old(errors)@.len() ==> final(errors)@[k] == old(errors)@[k],
        forall|k: int|
            old(errors)@.len() <= k < final(errors)@.len() ==> (#[trigger] final(errors)@[k]).kind is ImportOfUnknown,
        (final(errors)@.len() == old(errors)@.len()) == item_known(*ex, *item),
{
    let ghost o = unq_view(out@);
    let ghost n0 = errors@.len();
    let (name, ns, span) = head_of(item);
    match ex.lookup(name.as_str(), ns) {
        Some(r) => {
            bring(out, name, ns, r);
            assert(unq_view(out@).len() == out@.len());
        },
        None => {
            unknown_import(errors, target, name, ns, span);
            return;
        },
    }
    let ghost o1 = unq_view(out@);
    match item {
        ImportItem::TypeAll { .. } | ImportItem::ClassAll { .. } => {
            bring_own_values(out, ex, target);
            proof {
                assert(unq_view(out@).take(o.len() as int) =~= o1.take(o.len() as int));
                assert(unq_view(out@)[o.len() as int] == o1[o.len() as int]);
                assert forall|k: int| o.len() <= k < out@.len() implies ex.entry(
                    (#[trigger] unq_view(out@)[k]).0,
                    unq_view(out@)[k].1,
                ) == Some(unq_view(out@)[k].2) by {
                    if k < o1.len() {
                        assert(unq_view(out@)[k] == o1[k]);
                    }
                }
            }
        },
        ImportItem::TypeWith { ctors, span, .. } => {
            let mut k: usize = 0;
            while k < ctors.len()
                invariant
                    k <= ctors@.len(),
                    ex.wf(),
                    out@.len() >= o1.len(),
                    o1.len() == o.len() + 1,
                    unq_view(out@).take(o1.len() as int) == o1,
                    forall|m: int|
                        o.len() <= m < out@.len() ==> ex.entry(
                            (#[trigger] unq_view(out@)[m]).0,
                            unq_view(out@)[m].1,
                        ) == Some(unq_view(out@)[m].2),
                    errors@.len() >= n0,
                    n0 == old(errors)@.len(),
                    forall|m: int| 0 <= m < n0 ==> errors@[m] == old(errors)@[m],
                    forall|m: int| n0 <= m < errors@.len() ==> (#[trigger] errors@[m]).kind is ImportOfUnknown,
                    (errors@.len() == n0) == forall|j: int|
                        0 <= j < k ==> ex.entry(#[trigger] ctors@[j]@, Namespace::Value) is Some,
                decreases ctors.len() - k,
            {
                match ex.lookup(ctors[k].as_str(), Namespace::Value) {
                    Some(r) => {
                        let ghost u0 = unq_view(out@);
                        bring(out, &ctors[k], Namespace::Value, r);
                        proof {
                            assert(unq_view(out@).len() == out@.len());
                            assert(unq_view(out@).take(o1.len() as int) =~= u0.take(o1.len() as int));
                            assert forall|m: int| o.len() <= m < out@.len() implies ex.entry(
                                (#[trigger] unq_view(out@)[m]).0,
                                unq_view(out@)[m].1,
                            ) == Some(unq_view(out@)[m].2) by {
                                if m < u0.len() {
                                    assert(unq_view(out@)[m] == u0[m]);
                                }
                            }
                        }
                    },
                    None => {
                        unknown_import(errors, target, &ctors[k], Namespace::Value, *span);
                    },
                }
                k = k + 1;
            }
            proof {
                assert(unq_view(out@).take(o.len() as int) =~= o1.take(o.len() as int));
                assert(unq_view(out@)[o.len() as int] == o1[o.len() as int]);
            }
        },
        _ => {},
    }
}

/// Some entry of `h` from index `from` on is `(q, n)`.
pub open spec fn tail_has(h: Seq<(String, Namespace)>, from: int, q: Seq<char>, n: Namespace) -> bool {
    exists|j: int| from <= j < h.len() && #[trigger] h[j].0@ == q && h[j].1 == n
}

/// Among the first `k` exported values, one named `q` belongs to
/// module `target`.
pub open spec fn own_value_among(ex: Exports, target: Seq<Seq<char>>, k: int, q: Seq<char>) -> bool {
    exists|m: int| 0 <= m < k && ex.values@[m].0@ == q && (#[trigger] ex.values@[m]).1.module@ == target
}

/// The names a `hiding` list hides.
fn collect_hide_names(
    items: &Vec<ImportItem>,
    ex: &Exports,
    target: &ModuleId,
    errors: &mut Vec<ResolveError>,
) -> (hidden: Vec<(String, Namespace)>)
    requires
        ex.wf(),
    ensures
        forall|q: Seq<char>, ns: Namespace|
            hidden_by(*ex, target@, items@, q, ns) <==> exists|j: int|
                0 <= j < hidden@.len() && #[trigger] hidden@[j].0@ == q && hidden@[j].1 == ns,
        final(errors)@.len() >= old(errors)@.len(),
        forall|k: int| 0 <= k < old(errors)@.len() ==> final(errors)@[k] == old(errors)@[k],
        forall|k: int|
            old(errors)@.len() <= k < final(errors)@.len() ==> (#[trigger] final(errors)@[k]).kind is ImportOfUnknown,
        (final(errors)@.len() == old(errors)@.len()) == forall|i: int|
            0 <= i < items@.len() ==> head_known(*ex, #[trigger] items@[i]),
{
    validate_items_exist(items, ex, target, errors);
    let mut hidden: Vec<(String, Namespace)> = Vec::new();
    let mut i: usize = 0;
    while i < items.len()
        invariant
            i <= items@.len(),
            ex.wf(),
            forall|q: Seq<char>, ns: Namespace|
                hidden_by(*ex, target@, items@.take(i as int), q, ns) <==> exists|j: int|
                    0 <= j < hidden@.len() && #[trigger] hidden@[j].0@ == q && hidden@[j].1 == ns,
        decreases items.len() - i,
    {
        let ghost h0 = hidden@;
        let ghost prev = items@.take(i as int);
        let ghost next = items@.take(i + 1);
        let ghost item = items@[i as int];
        let (name, ns, _span) = head_of(&items[i]);
        hidden.push((name.clone(), ns));
        let ghost h1 = hidden@;
        match &items[i] {
            ImportItem::TypeAll { .. } | ImportItem::ClassAll { .. } => {
                let mut k: usize = 0;
                while k < ex.values.len()
                    invariant
                        k <= ex.values@.len(),
                        ex.wf(),
                        hidden@.len() >= h1.len(),
                        hidden@.take(h1.len() as int) == h1,
                        forall|q: Seq<char>, n: Namespace|
                            #[trigger] tail_has(hidden@, h1.len() as int, q, n) <==> (n == Namespace::Value
                                && own_value_among(*ex, target@, k as int, q)),
                    decreases ex.values.len() - k,
                {
                    let ghost hk = hidden@;
                    if ex.values[k].1.module.same(target) {
                        hidden.push((ex.values[k].0.clone(), Namespace::Value));
                    }
                    proof {
                        assert(hidden@.take(h1.len() as int) =~= hk.take(h1.len() as int));
                        assert forall|q: Seq<char>, n: Namespace|
                            #[trigger] tail_has(hidden@, h1.len() as int, q, n) <==> (n == Namespace::Value
                                && own_value_among(*ex, target@, k + 1, q)) by {
                            if tail_has(hidden@, h1.len() as int, q, n) {
                                let j = choose|j: int|
                                    h1.len() <= j < hidden@.len() && #[trigger] hidden@[j].0@ == q
                                        && hidden@[j].1 == n;
                                if j < hk.len() {
                                    assert(hk[j] == hidden@[j]);
                                    assert(tail_has(hk, h1.len() as int, q, n));
                                    let m = choose|m: int|
                                        0 <= m < k && ex.values@[m].0@ == q && (#[trigger] ex.values@[m]).1.module@
                                            == target@;
                                } else {
                                    assert(ex.values@[k as int].0@ == q);
                                }
                            }
                            if n == Namespace::Value && own_value_among(*ex, target@, k + 1, q) {
                                let m = choose|m: int|
                                    0 <= m < k + 1 && ex.values@[m].0@ == q && (#[trigger] ex.values@[m]).1.module@
                                        == target@;
                                if m < k {
                                    assert(own_value_among(*ex, target@, k as int, q));
                                    assert(tail_has(hk, h1.len() as int, q, n));
                                    let j = choose|j: int|
                                        h1.len() <= j < hk.len() && #[trigger] hk[j].0@ == q && hk[j].1 == n;
                                    assert(hidden@[j] == hk[j]);
                                } else {
                                    assert(hidden@[hk.len() as int].0@ == q);
                                }
                            }
                        }
                    }
                    k = k + 1;
                }
                proof {
                    assert forall|q: Seq<char>, n: Namespace|
                        #[trigger] tail_has(hidden@, h1.len() as int, q, n) <==> extra_hides(*ex, target@, item, q, n) by {
                        lemma_table_get_some(ex.values@, q);
                        if own_value_among(*ex, target@, ex.values@.len() as int, q) {
                            let m = choose|m: int|
                                0 <= m < ex.values@.len() && ex.values@[m].0@ == q && (#[trigger] ex.values@[m]).1.module@
                                    == target@;
                            lemma_table_get_at(ex.values@, m);
                        }
                        if table_get(ex.values@, q) is Some {
                            let m = choose|m: int| 0 <= m < ex.values@.len() && ex.values@[m].0@ == q;
                            lemma_table_get_at(ex.values@, m);
                        }
                    }
                }
            },
            ImportItem::TypeWith { ctors, .. } => {
                let mut k: usize = 0;
                while k < ctors.len()
                    invariant
                        k <= ctors@.len(),
                        hidden@.len() == h1.len() + k,
                        hidden@.take(h1.len() as int) == h1,
                        forall|j: int|
                            h1.len() <= j < hidden@.len() ==> (#[trigger] hidden@[j]).0@ == ctors@[j
                                - h1.len()]@ && hidden@[j].1 == Namespace::Value,
                    decreases ctors.len() - k,
                {
                    let ghost hk = hidden@;
                    hidden.push((ctors[k].clone(), Namespace::Value));
                    proof {
                        assert(hidden@.take(h1.len() as int) =~= hk.take(h1.len() as int));
                        assert forall|j: int| h1.len() <= j < hidden@.len() implies (#[trigger] hidden@[j]).0@
                            == ctors@[j - h1.len()]@ && hidden@[j].1 == Namespace::Value by {
                            if j < hk.len() {
                                assert(hidden@[j] == hk[j]);
                            }
                        }
                    }
                    k = k + 1;
                }
                proof {
                    assert forall|q: Seq<char>, n: Namespace|
                        #[trigger] tail_has(hidden@, h1.len() as int, q, n) <==> extra_hides(*ex, target@, item, q, n) by {
                        if tail_has(hidden@, h1.len() as int, q, n) {
                            let j = choose|j: int|
                                h1.len() <= j < hidden@.len() && #[trigger] hidden@[j].0@ == q
                                    && hidden@[j].1 == n;
                            assert(string_views(ctors@)[j - h1.len()] == q);
                        }
                        if n == Namespace::Value && string_views(ctors@).contains(q) {
                            let m = choose|m: int| 0 <= m < ctors@.len() && string_views(ctors@)[m] == q;
                            assert(hidden@[h1.len() + m].0@ == q);
                        }
                    }
                }
            },
            _ => {
                assert forall|q: Seq<char>, n: Namespace|
                    #[trigger] tail_has(hidden@, h1.len() as int, q, n) <==> extra_hides(*ex, target@, item, q, n) by {}
                assert(hidden@.take(h1.len() as int) =~= h1);
            },
        }
        proof {
            assert(next =~= prev.push(item));
            assert(h1 =~= h0.push(h1.last()));
            assert(h1.last().0@ == import_head(item).0 && h1.last().1 == import_head(item).1);
            assert forall|j: int| 0 <= j < h1.len() implies hidden@[j] == h1[j] by {
                assert(hidden@.take(h1.len() as int)[j] == hidden@[j]);
            }
            assert forall|q: Seq<char>, n: Namespace|
                #[trigger] tail_has(hidden@, h0.len() as int, q, n) <==> item_hides(*ex, target@, item, q, n) by {
                if tail_has(hidden@, h0.len() as int, q, n) {
                    let j = choose|j: int| h0.len() <= j < hidden@.len() && #[trigger] hidden@[j].0@ == q && hidden@[j].1 == n;
                    if j > h0.len() {
                        assert(tail_has(hidden@, h1.len() as int, q, n));
                    }
                }
                if import_head(item) == (q, n) {
                    assert(hidden@[h0.len() as int] == h1[h0.len() as int]);
                }
                if extra_hides(*ex, target@, item, q, n) {
                    assert(tail_has(hidden@, h1.len() as int, q, n));
                    let j = choose|j: int| h1.len() <= j < hidden@.len() && #[trigger] hidden@[j].0@ == q && hidden@[j].1 == n;
                    assert(hidden@[j].0@ == q);
                }
            }
            assert forall|q: Seq<char>, n: Namespace|
                hidden_by(*ex, target@, next, q, n) <==> exists|j: int|
                    0 <= j < hidden@.len() && #[trigger] hidden@[j].0@ == q && hidden@[j].1 == n by {
                if hidden_by(*ex, target@, next, q, n) {
                    let m = choose|m: int| 0 <= m < next.len() && item_hides(*ex, target@, #[trigger] next[m], q, n);
                    if m < prev.len() {
                        assert(prev[m] == next[m]);
                        assert(hidden_by(*ex, target@, prev, q, n));
                        let j = choose|j: int| 0 <= j < h0.len() && #[trigger] h0[j].0@ == q && h0[j].1 == n;
                        assert(hidden@[j] == h1[j]);
                    } else {
                        assert(tail_has(hidden@, h0.len() as int, q, n));
                    }
                }
                if exists|j: int| 0 <= j < hidden@.len() && #[trigger] hidden@[j].0@ == q && hidden@[j].1 == n {
                    let j = choose|j: int| 0 <= j < hidden@.len() && #[trigger] hidden@[j].0@ == q && hidden@[j].1 == n;
                    if j < h0.len() {
                        assert(h1[j] == hidden@[j]);
                        assert(h0[j] == h1[j]);
                        assert(h0[j].0@ == q && h0[j].1 == n);
                        assert(hidden_by(*ex, target@, prev, q, n));
                        let m = choose|m: int| 0 <= m < prev.len() && item_hides(*ex, target@, #[trigger] prev[m], q, n);
                        assert(next[m] == prev[m]);
                    } else {
                        assert(tail_has(hidden@, h0.len() as int, q, n));
                        assert(item_hides(*ex, target@, next[i as int], q, n));
                    }
                }
            }
        }
        i = i + 1;
    }
    proof {
        assert(items@.take(i as int) =~= items@);
    }
    hidden
}

/// Whether `(name, ns)` is among the hidden names.
fn is_hidden(hidden: &Vec<(String, Namespace)>, name: &String, ns: Namespace) -> (r: bool)
    ensures
        r == exists|j: int| 0 <= j < hidden@.len() && #[trigger] hidden@[j].0@ == name@ && hidden@[j].1 == ns,
{
    let mut i: usize = 0;
    while i < hidden.len()
        invariant
            i <= hidden@.len(),
            forall|j: int| 0 <= j < i ==> !(#[trigger] hidden@[j].0@ == name@ && hidden@[j].1 == ns),
        decreases hidden.len() - i,
    {
        if hidden[i].1 == ns && hidden[i].0.eq(name) {
            return true;
        }
        i = i + 1;
    }
    false
}


/// Bring every export of one table that the hidden list does not name.
fn bring_table_except(
    out: &mut Vec<(String, Namespace, ResolvedRef)>,
    ex: &Exports,
    ns: Namespace,
    hidden: &Vec<(String, Namespace)>,
)
    requires
        ex.wf(),
    ensures
        unq_view(final(out)@).take(old(out)@.len() as int) == unq_view(old(out)@),
        final(out)@.len() >= old(out)@.len(),
        forall|k: int|
            old(out)@.len() <= k < final(out)@.len() ==> ex.entry(
                (#[trigger] unq_view(final(out)@)[k]).0,
                unq_view(final(out)@)[k].1,
            ) == Some(unq_view(final(out)@)[k].2) && unq_view(final(out)@)[k].1 == ns && !(exists|j: int|
                0 <= j < hidden@.len() && hidden@[j].0@ == unq_view(final(out)@)[k].0 && hidden@[j].1 == ns),
        forall|q: Seq<char>|
            #[trigger] ex.entry(q, ns) is Some && !(exists|j: int|
                0 <= j < hidden@.len() && hidden@[j].0@ == q && hidden@[j].1 == ns) ==> exists|k: int|
                old(out)@.len() <= k < final(out)@.len() && unq_view(final(out)@)[k].0 == q
                    && unq_view(final(out)@)[k].1 == ns,
{
    let ghost o = unq_view(out@);
    let table = match ns {
        Namespace::Value => &ex.values,
        Namespace::Type => &ex.types,
    };
    assert(forall|q: Seq<char>| ex.entry(q, ns) == table_get(table@, q));
    let mut i: usize = 0;
    while i < table.len()
        invariant
            i <= table@.len(),
            keys_unique(table@),
            forall|q: Seq<char>| ex.entry(q, ns) == #[trigger] table_get(table@, q),
            out@.len() >= o.len(),
            unq_view(out@).take(o.len() as int) == o,
            forall|k: int|
                o.len() <= k < out@.len() ==> ex.entry(
                    (#[trigger] unq_view(out@)[k]).0,
                    unq_view(out@)[k].1,
                ) == Some(unq_view(out@)[k].2) && unq_view(out@)[k].1 == ns && !(exists|j: int|
                    0 <= j < hidden@.len() && hidden@[j].0@ == unq_view(out@)[k].0 && hidden@[j].1 == ns),
            forall|m: int|
                0 <= m < i && !(exists|j: int|
                    0 <= j < hidden@.len() && hidden@[j].0@ == (#[trigger] table@[m]).0@ && hidden@[j].1 == ns)
                    ==> exists|k: int|
                    o.len() <= k < out@.len() && unq_view(out@)[k].0 == table@[m].0@ && unq_view(out@)[k].1 == ns,
        decreases table.len() - i,
    {
        let ghost u0 = unq_view(out@);
        let ghost l0 = out@.len();
        if !is_hidden(hidden, &table[i].0, ns) {
            bring(out, &table[i].0, ns, &table[i].1);
            proof {
                assert(unq_view(out@).len() == out@.len());
                lemma_table_get_at(table@, i as int);
                assert(unq_view(out@)[l0 as int] == (table@[i as int].0@, ns, table@[i as int].1@));
                assert(unq_view(out@).take(o.len() as int) =~= u0.take(o.len() as int));
                assert forall|k: int| o.len() <= k < out@.len() implies ex.entry(
                    (#[trigger] unq_view(out@)[k]).0,
                    unq_view(out@)[k].1,
                ) == Some(unq_view(out@)[k].2) && unq_view(out@)[k].1 == ns && !(exists|j: int|
                    0 <= j < hidden@.len() && hidden@[j].0@ == unq_view(out@)[k].0 && hidden@[j].1 == ns) by {
                    if k < u0.len() {
                        assert(unq_view(out@)[k] == u0[k]);
                    }
                }
                assert forall|m: int|
                    0 <= m < i + 1 && !(exists|j: int|
                        0 <= j < hidden@.len() && hidden@[j].0@ == (#[trigger] table@[m]).0@ && hidden@[j].1 == ns)
                        implies exists|k: int|
                        o.len() <= k < out@.len() && unq_view(out@)[k].0 == table@[m].0@ && unq_view(out@)[k].1 == ns by {
                    if m < i {
                        let k = choose|k: int|
                            o.len() <= k < u0.len() && u0[k].0 == table@[m].0@ && u0[k].1 == ns;
                        assert(unq_view(out@)[k] == u0[k]);
                    } else {
                        assert(unq_view(out@)[l0 as int].0 == table@[m].0@);
                    }
                }
            }
        }
        i = i + 1;
    }
    proof {
        assert forall|q: Seq<char>|
            #[trigger] ex.entry(q, ns) is Some && !(exists|j: int|
                0 <= j < hidden@.len() && hidden@[j].0@ == q && hidden@[j].1 == ns) implies exists|k: int|
                o.len() <= k < out@.len() && unq_view(out@)[k].0 == q && unq_view(out@)[k].1 == ns by {
            assert(table_get(table@, q) is Some);
            lemma_table_get_some(table@, q);
            let m = choose|m: int| 0 <= m < table@.len() && table@[m].0@ == q;
            assert(table@[m].0@ == q);
        }
    }
}

/// Apply one `import` declaration to a module's environment: put the
/// target module in scope under its dotted name and its `as` alias,
/// and bring the names the declaration admits unqualified. Each item
/// the target does not export is reported.
pub fn apply_import(env: &mut ModuleEnv, decl: &ImportDecl, target_id: ModuleId, target_exports: &Exports) -> (r: Result<
    (),
    Vec<ResolveError>,
>)
    requires
        keys_unique(old(env).qualified_aliases@),
        target_exports.wf(),
    ensures
        keys_unique(final(env).qualified_aliases@),
        forall|q: Seq<char>|
            #[trigger] table_get(final(env).qualified_aliases@, q) == if alias_text(*decl) == Some(q)
                || q == join_text(target_id@, "."@) {
                Some(target_id@)
            } else {
                table_get(old(env).qualified_aliases@, q)
            },
        final(env).id == old(env).id,
        final(env).top_level == old(env).top_level,
        final(env).exports == old(env).exports,
        final(env).unqualified@.len() >= old(env).unqualified@.len(),
        unq_view(final(env).unqualified@).take(old(env).unqualified@.len() as int) == unq_view(
            old(env).unqualified@,
        ),
        import_effect(
            *decl,
            target_id@,
            *target_exports,
            unq_view(final(env).unqualified@).skip(old(env).unqualified@.len() as int),
        ),
        r is Err <==> import_refused(*decl, *target_exports),
        r matches Err(es) ==> forall|k: int| 0 <= k < es@.len() ==> (#[trigger] es@[k]).kind is ImportOfUnknown,
{
    let ghost qa0 = env.qualified_aliases@;
    let ghost o = unq_view(env.unqualified@);
    let full = target_id.display();
    env.add_qualifier(full, target_id.clone());
    match &decl.alias {
        Some(alias) => {
            let a = join_strings(&alias.segments, ".");
            env.add_qualifier(a, target_id.clone());
        },
        None => {},
    }
    let mut errors: Vec<ResolveError> = Vec::new();
    let ghost ex = *target_exports;
    let ghost target = target_id@;
    match &decl.items {
        ImportItems::All => {
            if !decl.qualified {
                let none: Vec<(String, Namespace)> = Vec::new();
                bring_table_except(&mut env.unqualified, target_exports, Namespace::Value, &none);
                let ghost o1 = unq_view(env.unqualified@);
                bring_table_except(&mut env.unqualified, target_exports, Namespace::Type, &none);
                proof {
                    let u = unq_view(env.unqualified@);
                    assert(u.take(o.len() as int) =~= o1.take(o.len() as int));
                    let added = u.skip(o.len() as int);
                    assert forall|k: int| 0 <= k < added.len() implies ex.entry((#[trigger] added[k]).0, added[k].1)
                        == Some(added[k].2) by {
                        if o.len() + k < o1.len() {
                            assert(u[o.len() + k] == o1[o.len() + k]);
                        }
                    }
                    assert forall|q: Seq<char>, ns: Namespace| #[trigger] ex.entry(q, ns) is Some implies exists|k: int|
                        0 <= k < added.len() && added[k].0 == q && added[k].1 == ns by {
                        if ns == Namespace::Value {
                            let k = choose|k: int| o.len() <= k < o1.len() && o1[k].0 == q && o1[k].1 == ns;
                            assert(added[k - o.len()] == u[k]);
                            assert(u[k] == o1[k]);
                        } else {
                            let k = choose|k: int| o1.len() <= k < u.len() && u[k].0 == q && u[k].1 == ns;
                            assert(added[k - o.len()] == u[k]);
                        }
                    }
                }
            } else {
                assert(unq_view(env.unqualified@).skip(o.len() as int) =~= Seq::empty());
            }
        },
        ImportItems::Only(items) => {
            if decl.qualified {
                validate_items_exist(items, target_exports, &target_id, &mut errors);
                assert(unq_view(env.unqualified@).skip(o.len() as int) =~= Seq::empty());
            } else {
                let mut i: usize = 0;
                while i < items.len()
                    invariant
                        i <= items@.len(),
                        ex == *target_exports,
                        ex.wf(),
                        target == target_id@,
                        env.unqualified@.len() >= o.len(),
                        unq_view(env.unqualified@).take(o.len() as int) == o,
                        forall|k: int|
                            o.len() <= k < env.unqualified@.len() ==> ex.entry(
                                (#[trigger] unq_view(env.unqualified@)[k]).0,
                                unq_view(env.unqualified@)[k].1,
                            ) == Some(unq_view(env.unqualified@)[k].2),
                        forall|j: int|
                            0 <= j < i && head_known(ex, #[trigger] items@[j]) ==> exists|k: int|
                                o.len() <= k < env.unqualified@.len() && unq_view(env.unqualified@)[k].0
                                    == import_head(items@[j]).0 && unq_view(env.unqualified@)[k].1
                                    == import_head(items@[j]).1,
                        (errors@.len() == 0) == forall|j: int| 0 <= j < i ==> item_known(ex, #[trigger] items@[j]),
                        forall|k: int| 0 <= k < errors@.len() ==> (#[trigger] errors@[k]).kind is ImportOfUnknown,
                        env.id == old(env).id,
                        env.top_level == old(env).top_level,
                        env.exports == old(env).exports,
                        keys_unique(env.qualified_aliases@),
                        forall|q: Seq<char>|
                            #[trigger] table_get(env.qualified_aliases@, q) == if alias_text(*decl) == Some(q)
                                || q == join_text(target_id@, "."@) {
                                Some(target_id@)
                            } else {
                                table_get(qa0, q)
                            },
                    decreases items.len() - i,
                {
                    let ghost u0 = unq_view(env.unqualified@);
                    let ghost l0 = env.unqualified@.len();
                    collect_item(&items[i], target_exports, &target_id, &mut env.unqualified, &mut errors);
                    proof {
                        let u = unq_view(env.unqualified@);
                        assert(u.len() == env.unqualified@.len());
                        assert(u.take(o.len() as int) =~= u0.take(o.len() as int));
                        assert forall|k: int| o.len() <= k < env.unqualified@.len() implies ex.entry(
                            (#[trigger] u[k]).0,
                            u[k].1,
                        ) == Some(u[k].2) by {
                            if k < l0 {
                                assert(u[k] == u0[k]);
                            }
                        }
                        assert forall|j: int|
                            0 <= j < i + 1 && head_known(ex, #[trigger] items@[j]) implies exists|k: int|
                                o.len() <= k < env.unqualified@.len() && u[k].0 == import_head(items@[j]).0
                                    && u[k].1 == import_head(items@[j]).1 by {
                            if j < i {
                                let k = choose|k: int|
                                    o.len() <= k < l0 && u0[k].0 == import_head(items@[j]).0 && u0[k].1
                                        == import_head(items@[j]).1;
                                assert(u[k] == u0[k]);
                            } else {
                                assert(u[l0 as int].0 == import_head(items@[j]).0);
                            }
                        }
                    }
                    i = i + 1;
                }
                proof {
                    let u = unq_view(env.unqualified@);
                    let added = u.skip(o.len() as int);
                    assert forall|k: int| 0 <= k < added.len() implies ex.entry((#[trigger] added[k]).0, added[k].1)
                        == Some(added[k].2) by {
                        assert(added[k] == u[o.len() + k]);
                    }
                    assert forall|j: int|
                        0 <= j < items@.len() && head_known(ex, #[trigger] items@[j]) implies exists|k: int|
                            0 <= k < added.len() && added[k].0 == import_head(items@[j]).0 && added[k].1
                                == import_head(items@[j]).1 by {
                        let k = choose|k: int|
                            o.len() <= k < u.len() && u[k].0 == import_head(items@[j]).0 && u[k].1
                                == import_head(items@[j]).1;
                        assert(added[k - o.len()] == u[k]);
                    }
                }
            }
        },
        ImportItems::Hiding(items) => {
            let hidden = collect_hide_names(items, target_exports, &target_id, &mut errors);
            if !decl.qualified {
                bring_table_except(&mut env.unqualified, target_exports, Namespace::Value, &hidden);
                let ghost o1 = unq_view(env.unqualified@);
                bring_table_except(&mut env.unqualified, target_exports, Namespace::Type, &hidden);
                proof {
                    let u = unq_view(env.unqualified@);
                    assert(u.take(o.len() as int) =~= o1.take(o.len() as int));
                    let added = u.skip(o.len() as int);
                    assert forall|k: int| 0 <= k < added.len() implies ex.entry((#[trigger] added[k]).0, added[k].1)
                        == Some(added[k].2) && !hidden_by(ex, target, items@, added[k].0, added[k].1) by {
                        assert(added[k] == u[o.len() + k]);
                        if o.len() + k < o1.len() {
                            assert(u[o.len() + k] == o1[o.len() + k]);
                        }
                    }
                    assert forall|q: Seq<char>, ns: Namespace|
                        #[trigger] ex.entry(q, ns) is Some && !hidden_by(ex, target, items@, q, ns) implies exists|
                            k: int,
                        | 0 <= k < added.len() && added[k].0 == q && added[k].1 == ns by {
                        if ns == Namespace::Value {
                            let k = choose|k: int| o.len() <= k < o1.len() && o1[k].0 == q && o1[k].1 == ns;
                            assert(added[k - o.len()] == u[k]);
                            assert(u[k] == o1[k]);
                        } else {
                            let k = choose|k: int| o1.len() <= k < u.len() && u[k].0 == q && u[k].1 == ns;
                            assert(added[k - o.len()] == u[k]);
                        }
                    }
                }
            } else {
                assert(unq_view(env.unqualified@).skip(o.len() as int) =~= Seq::empty());
            }
        },
    }
    if errors.len() == 0 {
        Ok(())
    } else {
        Err(errors)
    }
}

/// The implicit `import Prelude`, at the given span.
pub fn synthetic_prelude_import(span: Span) -> (r: ImportDecl)
    ensures
        string_views(r.name.segments@) == seq![PRELUDE_MODULE@],
        !r.qualified,
        r.alias is None,
        r.items is All,
        r.span == span,
{
    let mut segments: Vec<String> = Vec::new();
    segments.push(String::from_str(PRELUDE_MODULE));
    assert(string_views(segments@) =~= seq![PRELUDE_MODULE@]);
    ImportDecl {
        name: ModName { segments, span },
        qualified: false,
        alias: None,
        items: ImportItems::All,
        span,
    }
}

/// The prelude's identity and export table: every prelude value and
/// type, as the prelude's own definition.
pub fn builtin_prelude_exports() -> (r: (ModuleId, Exports))
    ensures
        r.0@ == seq![PRELUDE_MODULE@],
        r.1.wf(),
        forall|q: Seq<char>, ns: Namespace|
            #[trigger] r.1.entry(q, ns) == if super::prelude::prelude_has(q, ns) {
                Some((r.0@, q, ns))
            } else {
                None
            },
{
    let mut segs: Vec<String> = Vec::new();
    segs.push(String::from_str(PRELUDE_MODULE));
    let id = ModuleId::from_segments(segs.as_slice());
    assert(id@ =~= seq![PRELUDE_MODULE@]);
    let mut exports = Exports::empty();
    let values = prelude_value_table();
    let types = prelude_type_table();
    let ghost vt = name_table_view(values@);
    let ghost tt = name_table_view(types@);
    let mut i: usize = 0;
    while i < values.len()
        invariant
            i <= values@.len(),
            vt == name_table_view(values@),
            vt == prelude_values(),
            exports.wf(),
            forall|q: Seq<char>, ns: Namespace|
                #[trigger] exports.entry(q, ns) == if ns == Namespace::Value && exists|j: int|
                    0 <= j < i && #[trigger] vt[j].0 == q {
                    Some((id@, q, ns))
                } else {
                    None
                },
        decreases values.len() - i,
    {
        let name = String::from_str(values[i].0);
        let r = ResolvedRef::new(id.clone(), String::from_str(values[i].0), Namespace::Value);
        let ghost e0 = exports;
        exports.insert(name, Namespace::Value, r);
        proof {
            assert(vt[i as int].0 == values@[i as int].0@);
            assert forall|q: Seq<char>, ns: Namespace|
                #[trigger] exports.entry(q, ns) == if ns == Namespace::Value && exists|j: int|
                    0 <= j < i + 1 && #[trigger] vt[j].0 == q {
                    Some((id@, q, ns))
                } else {
                    None
                } by {
                if ns == Namespace::Value && q == vt[i as int].0 {
                } else {
                    assert(exports.entry(q, ns) == e0.entry(q, ns));
                    if ns == Namespace::Value && exists|j: int| 0 <= j < i + 1 && #[trigger] vt[j].0 == q {
                        let j = choose|j: int| 0 <= j < i + 1 && #[trigger] vt[j].0 == q;
                        assert(j < i);
                    }
                }
            }
        }
        i = i + 1;
    }
    let mut i: usize = 0;
    while i < types.len()
        invariant
            i <= types@.len(),
            vt == prelude_values(),
            tt == name_table_view(types@),
            tt == prelude_types(),
            exports.wf(),
            forall|q: Seq<char>, ns: Namespace|
                #[trigger] exports.entry(q, ns) == if (ns == Namespace::Value && exists|j: int|
                    0 <= j < vt.len() && #[trigger] vt[j].0 == q) || (ns == Namespace::Type && exists|j: int|
                    0 <= j < i && #[trigger] tt[j].0 == q) {
                    Some((id@, q, ns))
                } else {
                    None
                },
        decreases types.len() - i,
    {
        let name = String::from_str(types[i].0);
        let r = ResolvedRef::new(id.clone(), String::from_str(types[i].0), Namespace::Type);
        let ghost e0 = exports;
        exports.insert(name, Namespace::Type, r);
        proof {
            assert(tt[i as int].0 == types@[i as int].0@);
            assert forall|q: Seq<char>, ns: Namespace|
                #[trigger] exports.entry(q, ns) == if (ns == Namespace::Value && exists|j: int|
                    0 <= j < vt.len() && #[trigger] vt[j].0 == q) || (ns == Namespace::Type && exists|j: int|
                    0 <= j < i + 1 && #[trigger] tt[j].0 == q) {
                    Some((id@, q, ns))
                } else {
                    None
                } by {
                if ns == Namespace::Type && q == tt[i as int].0 {
                } else {
                    assert(exports.entry(q, ns) == e0.entry(q, ns));
                    if ns == Namespace::Type && exists|j: int| 0 <= j < i + 1 && #[trigger] tt[j].0 == q {
                        let j = choose|j: int| 0 <= j < i + 1 && #[trigger] tt[j].0 == q;
                        assert(j < i);
                    }
                }
            }
        }
        i = i + 1;
    }
    proof {
        assert forall|q: Seq<char>, ns: Namespace|
            #[trigger] exports.entry(q, ns) == if super::prelude::prelude_has(q, ns) {
                Some((id@, q, ns))
            } else {
                None
            } by {
            assert(super::prelude::prelude_names(Namespace::Value) == vt);
            assert(super::prelude::prelude_names(Namespace::Type) == tt);
            if super::prelude::prelude_has(q, ns) {
                let j = choose|j: int|
                    0 <= j < super::prelude::prelude_names(ns).len()
                        && #[trigger] super::prelude::prelude_names(ns)[j].0 == q;
                if ns == Namespace::Value {
                    assert(vt[j].0 == q);
                } else {
                    assert(tt[j].0 == q);
                }
            } else {
                if ns == Namespace::Value && exists|j: int| 0 <= j < vt.len() && #[trigger] vt[j].0 == q {
                    let j = choose|j: int| 0 <= j < vt.len() && #[trigger] vt[j].0 == q;
                    assert(super::prelude::prelude_names(ns)[j].0 == q);
                }
                if ns == Namespace::Type && exists|j: int| 0 <= j < tt.len() && #[trigger] tt[j].0 == q {
                    let j = choose|j: int| 0 <= j < tt.len() && #[trigger] tt[j].0 == q;
                    assert(super::prelude::prelude_names(ns)[j].0 == q);
                }
            }
        }
    }
    (id, exports)
}

/// The module a qualifier stands for in this module's scope: a full
/// dotted module name or an `as` alias.
pub fn resolve_qualifier<'a>(env: &'a ModuleEnv, qualifier: &ModName) -> (r: Option<&'a ModuleId>)
    requires
        keys_unique(env.qualified_aliases@),
    ensures
        r matches Some(m) ==> table_get(
            env.qualified_aliases@,
            join_text(string_views(qualifier.segments@), "."@),
        ) == Some(m@),
        r is None ==> table_get(
            env.qualified_aliases@,
            join_text(string_views(qualifier.segments@), "."@),
        ) is None,
{
    let key = join_strings(&qualifier.segments, ".");
    env.qualifier_target(key.as_str())
}

} // verus!
