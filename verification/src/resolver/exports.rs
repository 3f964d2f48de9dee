//! Export lists: from a module's top-level definitions and the items of
//! its header to the table of what it exports.
use vstd::prelude::*;

use super::env::{first_def, lemma_first_def, DefKind, Exports, ModuleEnv, ResolvedRef, TopLevelDef};
use super::error::{Namespace, ResolveError, ResolveErrorKind};
use super::table::table_get;
use crate::ast::ExportItem;
use crate::lexer::scan::text_is;
use crate::text::string_views;

verus! {

/// The names of the constructors of data type `ty`, in declaration
/// order.
pub open spec fn ctor_names(top: Seq<TopLevelDef>, ty: Seq<char>) -> Seq<Seq<char>>
    decreases top.len(),
{
    if top.len() == 0 {
        Seq::empty()
    } else {
        let rest = ctor_names(top.drop_last(), ty);
        if top.last().kind matches DefKind::Ctor { parent_type } && parent_type@ == ty {
            rest.push(top.last().name@)
        } else {
            rest
        }
    }
}

/// The names of the methods of class `class`, in declaration order.
pub open spec fn method_names(top: Seq<TopLevelDef>, class: Seq<char>) -> Seq<Seq<char>>
    decreases top.len(),
{
    if top.len() == 0 {
        Seq::empty()
    } else {
        let rest = method_names(top.drop_last(), class);
        if top.last().kind matches DefKind::ClassMethod { parent_class } && parent_class@ == class {
            rest.push(top.last().name@)
        } else {
            rest
        }
    }
}

/// The names of the constructors of `ty_name`.
pub fn ctors_of(env: &ModuleEnv, ty_name: &str) -> (r: Vec<String>)
    ensures
        string_views(r@) == ctor_names(env.top_level@, ty_name@),
{
    let mut r: Vec<String> = Vec::new();
    let mut i: usize = 0;
    while i < env.top_level.len()
        invariant
            i <= env.top_level@.len(),
            string_views(r@) == ctor_names(env.top_level@.take(i as int), ty_name@),
        decreases env.top_level.len() - i,
    {
        let ghost r0 = r@;
        assert(env.top_level@.take(i + 1).drop_last() =~= env.top_level@.take(i as int));
        match &env.top_level[i].kind {
            DefKind::Ctor { parent_type } => {
                if text_is(parent_type, ty_name) {
                    r.push(env.top_level[i].name.clone());
                    assert(string_views(r@) =~= string_views(r0).push(env.top_level@[i as int].name@));
                }
            },
            _ => {},
        }
        i = i + 1;
    }
    assert(env.top_level@.take(i as int) =~= env.top_level@);
    r
}

/// The names of the methods of `class_name`.
pub fn methods_of(env: &ModuleEnv, class_name: &str) -> (r: Vec<String>)
    ensures
        string_views(r@) == method_names(env.top_level@, class_name@),
{
    let mut r: Vec<String> = Vec::new();
    let mut i: usize = 0;
    while i < env.top_level.len()
        invariant
            i <= env.top_level@.len(),
            string_views(r@) == method_names(env.top_level@.take(i as int), class_name@),
        decreases env.top_level.len() - i,
    {
        let ghost r0 = r@;
        assert(env.top_level@.take(i + 1).drop_last() =~= env.top_level@.take(i as int));
        match &env.top_level[i].kind {
            DefKind::ClassMethod { parent_class } => {
                if text_is(parent_class, class_name) {
                    r.push(env.top_level[i].name.clone());
                    assert(string_views(r@) =~= string_views(r0).push(env.top_level@[i as int].name@));
                }
            },
            _ => {},
        }
        i = i + 1;
    }
    assert(env.top_level@.take(i as int) =~= env.top_level@);
    r
}

/// Every name an export item refers to is defined in the module.
pub open spec fn export_item_known(top: Seq<TopLevelDef>, item: ExportItem) -> bool {
    match item {
        ExportItem::Value { name, .. } => first_def(top, name@, Namespace::Value) is Some,
        ExportItem::Type { name, .. } => first_def(top, name@, Namespace::Type) is Some,
        ExportItem::TypeAll { name, .. } => first_def(top, name@, Namespace::Type) is Some,
        ExportItem::TypeWith { name, ctors, .. } => first_def(top, name@, Namespace::Type) is Some
            && forall|j: int|
            0 <= j < ctors@.len() ==> ctor_names(top, name@).contains(#[trigger] ctors@[j]@),
        ExportItem::Class { name, .. } => first_def(top, name@, Namespace::Type) is Some,
        ExportItem::ClassAll { name, .. } => first_def(top, name@, Namespace::Type) is Some,
        ExportItem::ReExport { .. } => true,
    }
}

/// An export item exports the name `q` of namespace `ns`: the named
/// entity itself, and for `T(..)` the constructors of data type `T`,
/// for `T(C, ...)` the listed constructors, for `class C(..)` the
/// class's methods.
pub open spec fn item_exports(top: Seq<TopLevelDef>, item: ExportItem, q: Seq<char>, ns: Namespace) -> bool {
    match item {
        ExportItem::Value { name, .. } => ns == Namespace::Value && q == name@,
        ExportItem::Type { name, .. } => ns == Namespace::Type && q == name@,
        ExportItem::TypeAll { name, .. } => (ns == Namespace::Type && q == name@) || (ns
            == Namespace::Value && (first_def(top, name@, Namespace::Type) matches Some(d)
            && d.kind is DataType) && ctor_names(top, name@).contains(q)),
        ExportItem::TypeWith { name, ctors, .. } => (ns == Namespace::Type && q == name@) || (ns
            == Namespace::Value && string_views(ctors@).contains(q)),
        ExportItem::Class { name, .. } => ns == Namespace::Type && q == name@,
        ExportItem::ClassAll { name, .. } => (ns == Namespace::Type && q == name@) || (ns
            == Namespace::Value && method_names(top, name@).contains(q)),
        ExportItem::ReExport { .. } => false,
    }
}

/// Some item of the list exports `q` in namespace `ns`.
pub open spec fn list_exports(top: Seq<TopLevelDef>, items: Seq<ExportItem>, q: Seq<char>, ns: Namespace) -> bool {
    exists|i: int| 0 <= i < items.len() && item_exports(top, #[trigger] items[i], q, ns)
}

/// The export table a module with identity `id` has: `q` of namespace
/// `ns` is exported as the module's own definition exactly when
/// `exported` holds.
pub open spec fn exports_exactly(ex: Exports, id: Seq<Seq<char>>, exported: spec_fn(Seq<char>, Namespace) -> bool) -> bool {
    forall|q: Seq<char>, ns: Namespace|
        #[trigger] ex.entry(q, ns) == if exported(q, ns) {
            Some((id, q, ns))
        } else {
            None
        }
}

/// Build a module's export table from its top-level definitions and
/// its header's export list. No list exports every top-level name; a
/// list exports what its items name, and every name it refers to must
/// be defined, else each unknown one is reported.
pub fn compute_exports(env: &ModuleEnv, export_list: Option<&Vec<ExportItem>>) -> (r: Result<
    Exports,
    Vec<ResolveError>,
>)
    ensures
        r matches Ok(ex) ==> ex.wf(),
        export_list is None ==> (r matches Ok(ex) && exports_exactly(
            ex,
            env.id@,
            |q: Seq<char>, ns: Namespace| first_def(env.top_level@, q, ns) is Some,
        )),
        export_list matches Some(items) ==> (r is Ok <==> forall|i: int|
            0 <= i < items@.len() ==> export_item_known(env.top_level@, #[trigger] items@[i])),
        export_list matches Some(items) ==> (r matches Ok(ex) ==> exports_exactly(
            ex,
            env.id@,
            |q: Seq<char>, ns: Namespace| list_exports(env.top_level@, items@, q, ns),
        )),
        r matches Err(es) ==> es@.len() > 0 && forall|k: int|
            0 <= k < es@.len() ==> (#[trigger] es@[k]).kind is ExportOfUnknown,
{
    let mut exports = Exports::empty();
    let items = match export_list {
        None => {
            let mut i: usize = 0;
            while i < env.top_level.len()
                invariant
                    i <= env.top_level@.len(),
                    exports.wf(),
                    forall|q: Seq<char>, ns: Namespace|
                        #[trigger] exports.entry(q, ns) == if exists|j: int|
                            0 <= j < i && #[trigger] env.top_level@[j].name@ == q
                                && env.top_level@[j].namespace == ns {
                            Some((env.id@, q, ns))
                        } else {
                            None
                        },
                decreases env.top_level.len() - i,
            {
                let def = &env.top_level[i];
                let r = ResolvedRef::new(env.id.clone(), def.name.clone(), def.namespace);
                let ghost e0 = exports;
                exports.insert(def.name.clone(), def.namespace, r);
                proof {
                    assert forall|q: Seq<char>, ns: Namespace|
                        #[trigger] exports.entry(q, ns) == if exists|j: int|
                            0 <= j < i + 1 && #[trigger] env.top_level@[j].name@ == q
                                && env.top_level@[j].namespace == ns {
                            Some((env.id@, q, ns))
                        } else {
                            None
                        } by {
                        if q == def.name@ && ns == def.namespace {
                            assert(env.top_level@[i as int].name@ == q);
                        } else {
                            assert(e0.entry(q, ns) == exports.entry(q, ns));
                            if exists|j: int|
                                0 <= j < i + 1 && #[trigger] env.top_level@[j].name@ == q
                                    && env.top_level@[j].namespace == ns {
                                let j = choose|j: int|
                                    0 <= j < i + 1 && #[trigger] env.top_level@[j].name@ == q
                                        && env.top_level@[j].namespace == ns;
                                assert(j < i);
                            }
                        }
                    }
                }
                i = i + 1;
            }
            proof {
                assert forall|q: Seq<char>, ns: Namespace|
                    #[trigger] exports.entry(q, ns) == if first_def(env.top_level@, q, ns) is Some {
                        Some((env.id@, q, ns))
                    } else {
                        None
                    } by {
                    lemma_first_def(env.top_level@, q, ns);
                    if first_def(env.top_level@, q, ns) is Some {
                        let j = choose|j: int|
                            0 <= j < env.top_level@.len() && super::env::defines(
                                env.top_level@[j],
                                q,
                                ns,
                            );
                        assert(env.top_level@[j].name@ == q);
                    }
                }
            }
            return Ok(exports);
        },
        Some(items) => items,
    };
    let mut errors: Vec<ResolveError> = Vec::new();
    let mut i: usize = 0;
    while i < items.len()
        invariant
            i <= items@.len(),
            exports.wf(),
            (errors@.len() == 0) == (forall|j: int|
                0 <= j < i ==> export_item_known(env.top_level@, #[trigger] items@[j])),
            errors@.len() == 0 ==> exports_exactly(
                exports,
                env.id@,
                |q: Seq<char>, ns: Namespace| list_exports(env.top_level@, items@.take(i as int), q, ns),
            ),
            forall|k: int| 0 <= k < errors@.len() ==> (#[trigger] errors@[k]).kind is ExportOfUnknown,
        decreases items.len() - i,
    {
        let ghost e0 = exports;
        let ghost n0 = errors@.len();
        let ghost top = env.top_level@;
        let ghost prev = items@.take(i as int);
        let ghost next = items@.take(i + 1);
        let ghost item = items@[i as int];
        proof {
            assert(next =~= prev.push(item));
            assert forall|q: Seq<char>, ns: Namespace|
                list_exports(top, next, q, ns) == (list_exports(top, prev, q, ns) || item_exports(
                    top,
                    item,
                    q,
                    ns,
                )) by {
                if list_exports(top, next, q, ns) {
                    let j = choose|j: int| 0 <= j < next.len() && item_exports(top, #[trigger] next[j], q, ns);
                    if j < prev.len() {
                        assert(prev[j] == next[j]);
                    }
                }
                if list_exports(top, prev, q, ns) {
                    let j = choose|j: int| 0 <= j < prev.len() && item_exports(top, #[trigger] prev[j], q, ns);
                    assert(next[j] == prev[j]);
                }
                if item_exports(top, item, q, ns) {
                    assert(next[i as int] == item);
                }
            }
        }
        let ok = export_one(env, &items[i], &mut exports, &mut errors);
        proof {
            if n0 == 0 && ok {
                assert forall|q: Seq<char>, ns: Namespace|
                    #[trigger] exports.entry(q, ns) == if list_exports(top, next, q, ns) {
                        Some((env.id@, q, ns))
                    } else {
                        None
                    } by {
                    assert(e0.entry(q, ns) == if list_exports(top, prev, q, ns) {
                        Some((env.id@, q, ns))
                    } else {
                        None
                    });
                }
            }
            if !ok {
                assert(!export_item_known(top, items@[i as int]));
            }
        }
        i = i + 1;
    }
    proof {
        assert(items@.take(i as int) =~= items@);
    }
    if errors.len() == 0 {
        Ok(exports)
    } else {
        Err(errors)
    }
}

/// Report that `name` of namespace `ns` is not defined here.
fn unknown_export(errors: &mut Vec<ResolveError>, name: &String, ns: Namespace, span: crate::span::Span)
    ensures
        final(errors)@.len() == old(errors)@.len() + 1,
        forall|k: int| 0 <= k < old(errors)@.len() ==> final(errors)@[k] == old(errors)@[k],
        final(errors)@.last().kind is ExportOfUnknown,
{
    errors.push(
        ResolveError::new(ResolveErrorKind::ExportOfUnknown { name: name.clone(), namespace: ns }, span),
    );
}

/// Export the module's own `name` of namespace `ns`.
fn export_own(env: &ModuleEnv, exports: &mut Exports, name: &String, ns: Namespace)
    requires
        old(exports).wf(),
    ensures
        final(exports).wf(),
        forall|q: Seq<char>, n: Namespace|
            #[trigger] final(exports).entry(q, n) == if q == name@ && n == ns {
                Some((env.id@, name@, ns))
            } else {
                old(exports).entry(q, n)
            },
{
    let r = ResolvedRef::new(env.id.clone(), name.clone(), ns);
    exports.insert(name.clone(), ns, r);
}

/// Apply one export item: add what it exports, or report each name it
/// refers to that is not defined. Returns whether it added no error.
fn export_one(
    env: &ModuleEnv,
    item: &ExportItem,
    exports: &mut Exports,
    errors: &mut Vec<ResolveError>,
) -> (ok: bool)
    requires
        old(exports).wf(),
        forall|k: int| 0 <= k < old(errors)@.len() ==> (#[trigger] old(errors)@[k]).kind is ExportOfUnknown,
    ensures
        final(exports).wf(),
        ok == export_item_known(env.top_level@, *item),
        ok ==> final(errors)@ == old(errors)@,
        !ok ==> final(errors)@.len() > old(errors)@.len(),
        forall|k: int| 0 <= k < final(errors)@.len() ==> (#[trigger] final(errors)@[k]).kind is ExportOfUnknown,
        forall|k: int| 0 <= k < old(errors)@.len() ==> final(errors)@[k] == old(errors)@[k],
        ok ==> forall|q: Seq<char>, ns: Namespace|
            #[trigger] final(exports).entry(q, ns) == if item_exports(env.top_level@, *item, q, ns) {
                Some((env.id@, q, ns))
            } else {
                old(exports).entry(q, ns)
            },
{
    let ghost top = env.top_level@;
    match item {
        ExportItem::Value { name, span, .. } => {
            if env.top_lookup(name.as_str(), Namespace::Value).is_none() {
                unknown_export(errors, name, Namespace::Value, *span);
                return false;
            }
            export_own(env, exports, name, Namespace::Value);
            true
        },
        ExportItem::Type { name, span } | ExportItem::Class { name, span } => {
            if env.top_lookup(name.as_str(), Namespace::Type).is_none() {
                unknown_export(errors, name, Namespace::Type, *span);
                return false;
            }
            export_own(env, exports, name, Namespace::Type);
            true
        },
        ExportItem::TypeAll { name, span } => {
            let is_data = match env.top_lookup(name.as_str(), Namespace::Type) {
                None => {
                    unknown_export(errors, name, Namespace::Type, *span);
                    return false;
                },
                Some(def) => matches!(def.kind, DefKind::DataType),
            };
            export_own(env, exports, name, Namespace::Type);
            let ghost e1 = *exports;
            if is_data {
                let ctors = ctors_of(env, name.as_str());
                let mut k: usize = 0;
                while k < ctors.len()
                    invariant
                        k <= ctors@.len(),
                        exports.wf(),
                        forall|q: Seq<char>, ns: Namespace|
                            #[trigger] exports.entry(q, ns) == if ns == Namespace::Value
                                && string_views(ctors@.take(k as int)).contains(q) {
                                Some((env.id@, q, ns))
                            } else {
                                e1.entry(q, ns)
                            },
                    decreases ctors.len() - k,
                {
                    let ghost e2 = *exports;
                    export_own(env, exports, &ctors[k], Namespace::Value);
                    proof {
                        let sv0 = string_views(ctors@.take(k as int));
                        let sv1 = string_views(ctors@.take(k + 1));
                        assert(sv1 =~= sv0.push(ctors@[k as int]@));
                        assert forall|q: Seq<char>| sv1.contains(q) <==> (sv0.contains(q) || q == ctors@[k as int]@) by {
                            if sv0.contains(q) {
                                let j = choose|j: int| 0 <= j < sv0.len() && sv0[j] == q;
                                assert(sv1[j] == q);
                            }
                            if q == ctors@[k as int]@ {
                                assert(sv1[k as int] == q);
                            }
                            if sv1.contains(q) {
                                let j = choose|j: int| 0 <= j < sv1.len() && sv1[j] == q;
                                if j < sv0.len() {
                                    assert(sv0[j] == q);
                                }
                            }
                        }
                    }
                    k = k + 1;
                }
                proof {
                    assert(ctors@.take(k as int) =~= ctors@);
                }
            }
            proof {
                assert forall|q: Seq<char>, ns: Namespace|
                    #[trigger] exports.entry(q, ns) == if item_exports(top, *item, q, ns) {
                        Some((env.id@, q, ns))
                    } else {
                        old(exports).entry(q, ns)
                    } by {
                    if !is_data {
                        assert(!(first_def(top, name@, Namespace::Type) matches Some(d) && d.kind is DataType));
                    }
                }
            }
            true
        },
        ExportItem::TypeWith { name, ctors, span } => {
            if env.top_lookup(name.as_str(), Namespace::Type).is_none() {
                unknown_export(errors, name, Namespace::Type, *span);
                return false;
            }
            export_own(env, exports, name, Namespace::Type);
            let ghost e1 = *exports;
            let ghost n0 = errors@.len();
            let defined = ctors_of(env, name.as_str());
            let mut all_known = true;
            let mut k: usize = 0;
            while k < ctors.len()
                invariant
                    k <= ctors@.len(),
                    exports.wf(),
                    string_views(defined@) == ctor_names(top, name@),
                    all_known == (errors@.len() == n0),
                    errors@.len() >= n0,
                    all_known == forall|j: int|
                        0 <= j < k ==> ctor_names(top, name@).contains(#[trigger] ctors@[j]@),
                    forall|j: int| 0 <= j < errors@.len() ==> (#[trigger] errors@[j]).kind is ExportOfUnknown,
                    forall|j: int| 0 <= j < n0 ==> errors@[j] == old(errors)@[j],
                    n0 == old(errors)@.len(),
                    all_known ==> forall|q: Seq<char>, ns: Namespace|
                        #[trigger] exports.entry(q, ns) == if ns == Namespace::Value
                            && string_views(ctors@.take(k as int)).contains(q) {
                            Some((env.id@, q, ns))
                        } else {
                            e1.entry(q, ns)
                        },
                decreases ctors.len() - k,
            {
                let present = contains_text(&defined, &ctors[k]);
                let ghost e2 = *exports;
                if !present {
                    unknown_export(errors, &ctors[k], Namespace::Value, *span);
                    all_known = false;
                } else {
                    export_own(env, exports, &ctors[k], Namespace::Value);
                }
                proof {
                    let sv0 = string_views(ctors@.take(k as int));
                    let sv1 = string_views(ctors@.take(k + 1));
                    assert(sv1 =~= sv0.push(ctors@[k as int]@));
                    assert forall|q: Seq<char>| sv1.contains(q) <==> (sv0.contains(q) || q == ctors@[k as int]@) by {
                        if sv0.contains(q) {
                            let j = choose|j: int| 0 <= j < sv0.len() && sv0[j] == q;
                            assert(sv1[j] == q);
                        }
                        if q == ctors@[k as int]@ {
                            assert(sv1[k as int] == q);
                        }
                        if sv1.contains(q) {
                            let j = choose|j: int| 0 <= j < sv1.len() && sv1[j] == q;
                            if j < sv0.len() {
                                assert(sv0[j] == q);
                            }
                        }
                    }
                }
                k = k + 1;
            }
            proof {
                assert(ctors@.take(k as int) =~= ctors@);
            }
            all_known
        },
        ExportItem::ClassAll { name, span } => {
            if env.top_lookup(name.as_str(), Namespace::Type).is_none() {
                unknown_export(errors, name, Namespace::Type, *span);
                return false;
            }
            export_own(env, exports, name, Namespace::Type);
            let ghost e1 = *exports;
            let methods = methods_of(env, name.as_str());
            let mut k: usize = 0;
            while k < methods.len()
                invariant
                    k <= methods@.len(),
                    exports.wf(),
                    forall|q: Seq<char>, ns: Namespace|
                        #[trigger] exports.entry(q, ns) == if ns == Namespace::Value
                            && string_views(methods@.take(k as int)).contains(q) {
                            Some((env.id@, q, ns))
                        } else {
                            e1.entry(q, ns)
                        },
                decreases methods.len() - k,
            {
                export_own(env, exports, &methods[k], Namespace::Value);
                proof {
                    let sv0 = string_views(methods@.take(k as int));
                    let sv1 = string_views(methods@.take(k + 1));
                    assert(sv1 =~= sv0.push(methods@[k as int]@));
                    assert forall|q: Seq<char>| sv1.contains(q) <==> (sv0.contains(q) || q == methods@[k as int]@) by {
                        if sv0.contains(q) {
                            let j = choose|j: int| 0 <= j < sv0.len() && sv0[j] == q;
                            assert(sv1[j] == q);
                        }
                        if q == methods@[k as int]@ {
                            assert(sv1[k as int] == q);
                        }
                        if sv1.contains(q) {
                            let j = choose|j: int| 0 <= j < sv1.len() && sv1[j] == q;
                            if j < sv0.len() {
                                assert(sv0[j] == q);
                            }
                        }
                    }
                }
                k = k + 1;
            }
            proof {
                assert(methods@.take(k as int) =~= methods@);
            }
            true
        },
        ExportItem::ReExport { .. } => true,
    }
}

/// Whether some string of `v` reads `s`.
pub fn contains_text(v: &Vec<String>, s: &String) -> (r: bool)
    ensures
        r == string_views(v@).contains(s@),
{
    let mut i: usize = 0;
    while i < v.len()
        invariant
            i <= v@.len(),
            forall|j: int| 0 <= j < i ==> v@[j]@ != s@,
        decreases v.len() - i,
    {
        if v[i].eq(s) {
            assert(string_views(v@)[i as int] == s@);
            return true;
        }
        i = i + 1;
    }
    proof {
        if string_views(v@).contains(s@) {
            let j = choose|j: int| 0 <= j < v@.len() && string_views(v@)[j] == s@;
            assert(v@[j]@ == s@);
        }
    }
    false
}

} // verus!
