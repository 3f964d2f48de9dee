//! The private-type leak check: an exported signature, or an exported
//! constructor of an exported data type, must not mention a data type or
//! class the module keeps private. Type aliases are transparent and do
//! not count.
use vstd::prelude::*;

use super::env::{first_def, lemma_first_def, DefKind, ModuleEnv, Visibility};
use super::error::{Namespace, ResolveError, ResolveErrorKind};
use crate::ast::{ClassItem, Decl, Module, Scheme, Type};
use crate::span::Span;

verus! {

/// The type names a type mentions without a qualifier.
pub open spec fn type_mentions(ty: Type, n: Seq<char>) -> bool
    decreases ty,
{
    match ty {
        Type::Var { .. } => false,
        Type::Con { module, name, .. } => module is None && name@ == n,
        Type::App { func, arg, .. } => type_mentions(*func, n) || type_mentions(*arg, n),
        Type::Fun { param, result, .. } => type_mentions(*param, n) || type_mentions(*result, n),
        Type::Record { fields, .. } => exists|i: int|
            0 <= i < fields@.len() && {
                proof {
                    assert(decreases_to!(ty => fields));
                    assert(decreases_to!(fields => fields@));
                    assert(decreases_to!(fields@ => fields@[i]));
                    assert(decreases_to!(fields@[i] => fields@[i].1));
                }
                type_mentions(#[trigger] fields@[i].1, n)
            },
    }
}

/// The declaration is the signature of an exported value whose type
/// mentions `n`, a private data type or class.
pub open spec fn sig_leaks(d: Decl, env: ModuleEnv, n: Seq<char>) -> bool {
    match d {
        Decl::Signature { name, scheme, .. } => exported_value_spec(env, name@) && type_mentions(
            scheme.body,
            n,
        ) && private_nominal(env, n),
        _ => false,
    }
}

/// The name a signature declares.
pub open spec fn sig_name(d: Decl) -> Seq<char> {
    match d {
        Decl::Signature { name, .. } => name@,
        _ => Seq::empty(),
    }
}

/// Some of the first `i` fields' types mentions `n`.
pub open spec fn fields_mention(fields: Seq<crate::ast::TypeField>, i: int, n: Seq<char>) -> bool {
    exists|f: int| 0 <= f < i && type_mentions(#[trigger] fields[f].1, n)
}

/// Some scanned entry from index `from` on is named `n`.
pub open spec fn found_from(out: Seq<(String, Span)>, from: int, n: Seq<char>) -> bool {
    exists|j: int| from <= j < out.len() && (#[trigger] out[j]).0@ == n
}

/// `name` is a data type or class of the module that it does not
/// export.
pub open spec fn private_nominal(env: ModuleEnv, name: Seq<char>) -> bool {
    first_def(env.top_level@, name, Namespace::Type) matches Some(d) && (d.kind is DataType
        || d.kind is Class) && d.visibility == Visibility::Private
}

/// `name` is a value the module exports.
pub open spec fn exported_value_spec(env: ModuleEnv, name: Seq<char>) -> bool {
    first_def(env.top_level@, name, Namespace::Value) matches Some(d) && d.visibility
        == Visibility::Exported
}

/// `name` is a type or class the module exports.
pub open spec fn exported_type_spec(env: ModuleEnv, name: Seq<char>) -> bool {
    first_def(env.top_level@, name, Namespace::Type) matches Some(d) && d.visibility
        == Visibility::Exported
}

/// The error kind reports that `public` leaks `leak`.
pub open spec fn is_leak_of(k: ResolveErrorKind, public: Seq<char>, leak: Seq<char>) -> bool {
    match k {
        ResolveErrorKind::PrivateLeak { public: p, leak: l, .. } => p@ == public && l@ == leak,
        _ => false,
    }
}

/// The error kind reports a leak of a private data type or class.
pub open spec fn is_sound_leak(env: ModuleEnv, k: ResolveErrorKind) -> bool {
    match k {
        ResolveErrorKind::PrivateLeak { leak, namespace, .. } => private_nominal(env, leak@)
            && namespace == Namespace::Type,
        _ => false,
    }
}

/// A leak reported for the exported binding `public`.
pub open spec fn leak_reported(errs: Seq<ResolveError>, public: Seq<char>, leak: Seq<char>) -> bool {
    exists|k: int| 0 <= k < errs.len() && is_leak_of((#[trigger] errs[k]).kind, public, leak)
}

/// Every error added is a leak of a private data type or class.
pub open spec fn leaks_sound(env: ModuleEnv, errs: Seq<ResolveError>, from: int) -> bool {
    forall|k: int| from <= k < errs.len() ==> is_sound_leak(env, (#[trigger] errs[k]).kind)
}

/// Collect the unqualified type names a type mentions, with their spans.
fn scan(ty: &Type, out: &mut Vec<(String, Span)>)
    ensures
        final(out)@.len() >= old(out)@.len(),
        final(out)@.take(old(out)@.len() as int) == old(out)@,
        forall|n: Seq<char>|
            type_mentions(*ty, n) <==> exists|j: int|
                old(out)@.len() <= j < final(out)@.len() && (#[trigger] final(out)@[j]).0@ == n,
    decreases ty,
{
    let ghost o = out@;
    match ty {
        Type::Var { .. } => {
            assert(out@.take(o.len() as int) =~= o);
            assert forall|n: Seq<char>|
                type_mentions(*ty, n) <==> exists|j: int|
                    o.len() <= j < out@.len() && (#[trigger] out@[j]).0@ == n by {}
        },
        Type::Con { module, name, span } => {
            if module.is_none() {
                out.push((name.clone(), *span));
                proof {
                    assert(out@.take(o.len() as int) =~= o);
                    assert(out@[o.len() as int].0@ == name@);
                }
            } else {
                assert(out@.take(o.len() as int) =~= o);
            }
            assert forall|n: Seq<char>|
                type_mentions(*ty, n) <==> exists|j: int|
                    o.len() <= j < out@.len() && (#[trigger] out@[j]).0@ == n by {
                if module.is_none() && name@ == n {
                    assert(out@[o.len() as int].0@ == n);
                }
            }
        },
        Type::App { func, arg, .. } => {
            scan(func, out);
            let ghost o1 = out@;
            scan(arg, out);
            proof {
                lemma_scan_pair(o, o1, out@, **func, **arg);
                assert forall|n: Seq<char>|
                    type_mentions(*ty, n) <==> exists|j: int|
                        o.len() <= j < out@.len() && (#[trigger] out@[j]).0@ == n by {
                    assert(type_mentions(*ty, n) == (type_mentions(**func, n) || type_mentions(**arg, n)));
                }
            }
        },
        Type::Fun { param, result, .. } => {
            scan(param, out);
            let ghost o1 = out@;
            scan(result, out);
            proof {
                lemma_scan_pair(o, o1, out@, **param, **result);
                assert forall|n: Seq<char>|
                    type_mentions(*ty, n) <==> exists|j: int|
                        o.len() <= j < out@.len() && (#[trigger] out@[j]).0@ == n by {
                    assert(type_mentions(*ty, n) == (type_mentions(**param, n) || type_mentions(**result, n)));
                }
            }
        },
        Type::Record { fields, .. } => {
            proof {
                assert(decreases_to!(ty => fields));
                assert(decreases_to!(fields => fields@));
            }
            let mut i: usize = 0;
            assert(out@.take(o.len() as int) =~= o);
            while i < fields.len()
                invariant
                    i <= fields@.len(),
                    decreases_to!(ty => fields@),
                    out@.len() >= o.len(),
                    out@.take(o.len() as int) == o,
                    forall|n: Seq<char>|
                        #[trigger] fields_mention(fields@, i as int, n) <==> found_from(out@, o.len() as int, n),
                decreases fields.len() - i,
            {
                proof {
                    assert(decreases_to!(fields@ => fields@[i as int]));
                    assert(decreases_to!(fields@[i as int] => fields@[i as int].1));
                }
                let ghost o1 = out@;
                scan(&fields[i].1, out);
                proof {
                    assert(out@.take(o.len() as int) =~= o) by {
                        assert forall|x: int| 0 <= x < o.len() implies out@.take(o.len() as int)[x] == o[x] by {
                            assert(out@.take(o1.len() as int)[x] == out@[x]);
                            assert(o1.take(o.len() as int)[x] == o1[x]);
                        }
                    }
                    assert forall|n: Seq<char>|
                        #[trigger] fields_mention(fields@, i + 1, n) <==> found_from(out@, o.len() as int, n) by {
                        if found_from(out@, o.len() as int, n) {
                            let j = choose|j: int| o.len() <= j < out@.len() && (#[trigger] out@[j]).0@ == n;
                            if j < o1.len() {
                                assert(out@.take(o1.len() as int)[j] == out@[j]);
                                assert(o1[j].0@ == n);
                            }
                        }
                        if fields_mention(fields@, i as int, n) {
                            assert(found_from(o1, o.len() as int, n));
                            let j = choose|j: int| o.len() <= j < o1.len() && (#[trigger] o1[j]).0@ == n;
                            assert(out@.take(o1.len() as int)[j] == out@[j]);
                        }
                        if type_mentions(fields@[i as int].1, n) {
                            let j = choose|j: int| o1.len() <= j < out@.len() && (#[trigger] out@[j]).0@ == n;
                        }
                        if fields_mention(fields@, i + 1, n) {
                            let f = choose|f: int| 0 <= f < i + 1 && type_mentions(#[trigger] fields@[f].1, n);
                            if f < i {
                                assert(fields_mention(fields@, i as int, n));
                            }
                        }
                    }
                }
                i = i + 1;
            }
            proof {
                assert forall|n: Seq<char>|
                    type_mentions(*ty, n) <==> exists|j: int|
                        o.len() <= j < out@.len() && (#[trigger] out@[j]).0@ == n by {
                    assert(fields_mention(fields@, fields@.len() as int, n) == type_mentions(*ty, n));
                    assert(fields_mention(fields@, i as int, n) <==> found_from(out@, o.len() as int, n));
                }
            }
        },
    }
}

/// Scanning two subterms one after the other finds what either mentions.
proof fn lemma_scan_pair(o: Seq<(String, Span)>, o1: Seq<(String, Span)>, o2: Seq<(String, Span)>, a: Type, b: Type)
    requires
        o1.len() >= o.len(),
        o1.take(o.len() as int) == o,
        forall|n: Seq<char>|
            type_mentions(a, n) <==> exists|j: int| o.len() <= j < o1.len() && (#[trigger] o1[j]).0@ == n,
        o2.len() >= o1.len(),
        o2.take(o1.len() as int) == o1,
        forall|n: Seq<char>|
            type_mentions(b, n) <==> exists|j: int| o1.len() <= j < o2.len() && (#[trigger] o2[j]).0@ == n,
    ensures
        o2.len() >= o.len(),
        o2.take(o.len() as int) == o,
        forall|n: Seq<char>|
            (type_mentions(a, n) || type_mentions(b, n)) <==> exists|j: int|
                o.len() <= j < o2.len() && (#[trigger] o2[j]).0@ == n,
{
    assert(o2.take(o.len() as int) =~= o) by {
        assert forall|x: int| 0 <= x < o.len() implies o2.take(o.len() as int)[x] == o[x] by {
            assert(o2.take(o1.len() as int)[x] == o2[x]);
            assert(o1.take(o.len() as int)[x] == o1[x]);
        }
    }
    assert forall|n: Seq<char>|
        (type_mentions(a, n) || type_mentions(b, n)) <==> exists|j: int|
            o.len() <= j < o2.len() && (#[trigger] o2[j]).0@ == n by {
        if type_mentions(a, n) {
            let j = choose|j: int| o.len() <= j < o1.len() && (#[trigger] o1[j]).0@ == n;
            assert(o2.take(o1.len() as int)[j] == o2[j]);
        }
        if exists|j: int| o.len() <= j < o2.len() && (#[trigger] o2[j]).0@ == n {
            let j = choose|j: int| o.len() <= j < o2.len() && (#[trigger] o2[j]).0@ == n;
            if j < o1.len() {
                assert(o2.take(o1.len() as int)[j] == o2[j]);
                assert(o1[j].0@ == n);
            }
        }
    }
}

/// Whether `name` is a data type or class the module keeps private.
fn is_private_type(env: &ModuleEnv, name: &String) -> (r: bool)
    ensures
        r == private_nominal(*env, name@),
{
    match env.top_lookup(name.as_str(), Namespace::Type) {
        Some(def) => matches!(def.kind, DefKind::DataType | DefKind::Class) && matches!(def.visibility, Visibility::Private),
        None => false,
    }
}

/// Whether `name` is a value the module exports.
fn exported_value(env: &ModuleEnv, name: &String) -> (r: bool)
    ensures
        r == exported_value_spec(*env, name@),
{
    match env.top_lookup(name.as_str(), Namespace::Value) {
        Some(def) => matches!(def.visibility, Visibility::Exported),
        None => false,
    }
}

/// Whether `name` is a type or class the module exports.
fn exported_type(env: &ModuleEnv, name: &String) -> (r: bool)
    ensures
        r == exported_type_spec(*env, name@),
{
    match env.top_lookup(name.as_str(), Namespace::Type) {
        Some(def) => matches!(def.visibility, Visibility::Exported),
        None => false,
    }
}

/// Report each private data type or class among the scanned names.
fn report_private(env: &ModuleEnv, public: &String, refs: &Vec<(String, Span)>, errors: &mut Vec<ResolveError>)
    requires
        leaks_sound(*env, old(errors)@, 0),
    ensures
        leaks_sound(*env, final(errors)@, 0),
        final(errors)@.len() >= old(errors)@.len(),
        final(errors)@.take(old(errors)@.len() as int) == old(errors)@,
        forall|j: int| 0 <= j < refs@.len() && private_nominal(*env, (#[trigger] refs@[j]).0@) ==> leak_reported(
            final(errors)@,
            public@,
            refs@[j].0@,
        ),
{
    let ghost e0 = errors@;
    let mut i: usize = 0;
    while i < refs.len()
        invariant
            i <= refs@.len(),
            leaks_sound(*env, errors@, 0),
            errors@.len() >= e0.len(),
            errors@.take(e0.len() as int) == e0,
            forall|j: int| 0 <= j < i && private_nominal(*env, (#[trigger] refs@[j]).0@) ==> leak_reported(
                errors@,
                public@,
                refs@[j].0@,
            ),
        decreases refs.len() - i,
    {
        let ghost ei = errors@;
        if is_private_type(env, &refs[i].0) {
            errors.push(
                ResolveError::new(
                    ResolveErrorKind::PrivateLeak {
                        public: public.clone(),
                        leak: refs[i].0.clone(),
                        namespace: Namespace::Type,
                    },
                    refs[i].1,
                ),
            );
            proof {
                assert(errors@.take(e0.len() as int) =~= e0) by {
                    assert forall|x: int| 0 <= x < e0.len() implies errors@.take(e0.len() as int)[x] == e0[x] by {
                        assert(errors@[x] == ei[x]);
                        assert(ei.take(e0.len() as int)[x] == ei[x]);
                    }
                }
                assert forall|j: int| 0 <= j < i + 1 && private_nominal(*env, (#[trigger] refs@[j]).0@) implies leak_reported(
                    errors@,
                    public@,
                    refs@[j].0@,
                ) by {
                    if j < i {
                        let k = choose|k: int|
                            0 <= k < ei.len() && is_leak_of((#[trigger] ei[k]).kind, public@, refs@[j].0@);
                        assert(errors@[k] == ei[k]);
                    } else {
                        assert(is_leak_of(errors@[ei.len() as int].kind, public@, refs@[j].0@));
                    }
                }
                assert forall|k: int| 0 <= k < errors@.len() implies is_sound_leak(*env, (#[trigger] errors@[k]).kind) by {
                    if k < ei.len() {
                        assert(errors@[k] == ei[k]);
                    }
                }
            }
        }
        i = i + 1;
    }
}

/// Check one exported signature: the classes of its context and every
/// type it mentions must not be private.
fn scan_scheme(env: &ModuleEnv, public: &String, scheme: &Scheme, span: Span, errors: &mut Vec<ResolveError>)
    requires
        leaks_sound(*env, old(errors)@, 0),
    ensures
        leaks_sound(*env, final(errors)@, 0),
        final(errors)@.len() >= old(errors)@.len(),
        final(errors)@.take(old(errors)@.len() as int) == old(errors)@,
        forall|n: Seq<char>|
            type_mentions(scheme.body, n) && private_nominal(*env, n) ==> leak_reported(final(errors)@, public@, n),
{
    let ghost e0 = errors@;
    let mut refs: Vec<(String, Span)> = Vec::new();
    scan(&scheme.body, &mut refs);
    let ghost body_refs = refs@;
    let mut c: usize = 0;
    while c < scheme.context.len()
        invariant
            c <= scheme.context@.len(),
            leaks_sound(*env, errors@, 0),
            errors@.len() >= e0.len(),
            errors@.take(e0.len() as int) == e0,
            refs@.len() >= body_refs.len(),
            refs@.take(body_refs.len() as int) == body_refs,
            forall|n: Seq<char>|
                type_mentions(scheme.body, n) <==> exists|j: int| 0 <= j < body_refs.len() && (#[trigger] body_refs[j]).0@ == n,
        decreases scheme.context.len() - c,
    {
        let con = &scheme.context[c];
        let ghost ec = errors@;
        if is_private_type(env, &con.class_name) {
            errors.push(
                ResolveError::new(
                    ResolveErrorKind::PrivateLeak {
                        public: public.clone(),
                        leak: con.class_name.clone(),
                        namespace: Namespace::Type,
                    },
                    span,
                ),
            );
            proof {
                assert(errors@.take(e0.len() as int) =~= e0) by {
                    assert forall|x: int| 0 <= x < e0.len() implies errors@.take(e0.len() as int)[x] == e0[x] by {
                        assert(errors@[x] == ec[x]);
                        assert(ec.take(e0.len() as int)[x] == ec[x]);
                    }
                }
                assert forall|k: int| 0 <= k < errors@.len() implies is_sound_leak(*env, (#[trigger] errors@[k]).kind) by {
                    if k < ec.len() {
                        assert(errors@[k] == ec[k]);
                    }
                }
            }
        }
        let mut a: usize = 0;
        while a < con.args.len()
            invariant
                a <= con.args@.len(),
                refs@.len() >= body_refs.len(),
                refs@.take(body_refs.len() as int) == body_refs,
            decreases con.args.len() - a,
        {
            let ghost r0 = refs@;
            scan(&con.args[a], &mut refs);
            proof {
                assert(refs@.take(body_refs.len() as int) =~= body_refs) by {
                    assert forall|x: int| 0 <= x < body_refs.len() implies refs@.take(body_refs.len() as int)[x] == body_refs[x] by {
                        assert(refs@.take(r0.len() as int)[x] == refs@[x]);
                        assert(r0.take(body_refs.len() as int)[x] == r0[x]);
                    }
                }
            }
            a = a + 1;
        }
        c = c + 1;
    }
    let ghost e1 = errors@;
    report_private(env, public, &refs, errors);
    proof {
        assert(errors@.take(e0.len() as int) =~= e0) by {
            assert forall|x: int| 0 <= x < e0.len() implies errors@.take(e0.len() as int)[x] == e0[x] by {
                assert(errors@.take(e1.len() as int)[x] == errors@[x]);
                assert(e1.take(e0.len() as int)[x] == e1[x]);
            }
        }
        assert forall|n: Seq<char>|
            type_mentions(scheme.body, n) && private_nominal(*env, n) implies leak_reported(errors@, public@, n) by {
            let j = choose|j: int| 0 <= j < body_refs.len() && (#[trigger] body_refs[j]).0@ == n;
            assert(refs@.take(body_refs.len() as int)[j] == refs@[j]);
            assert(refs@[j].0@ == n);
        }
    }
}

/// Report every private data type or class that an exported signature,
/// an exported method of an exported class, or an exported constructor
/// of an exported data type mentions.
pub fn check_private_leaks(m: &Module, env: &ModuleEnv, errors: &mut Vec<ResolveError>)
    requires
        leaks_sound(*env, old(errors)@, 0),
    ensures
        leaks_sound(*env, final(errors)@, 0),
        final(errors)@.len() >= old(errors)@.len(),
        final(errors)@.take(old(errors)@.len() as int) == old(errors)@,
        forall|i: int, n: Seq<char>|
            0 <= i < m.decls@.len() && #[trigger] sig_leaks(m.decls@[i], *env, n)
                ==> leak_reported(final(errors)@, sig_name(m.decls@[i]), n),
{
    let ghost e0 = errors@;
    let mut i: usize = 0;
    while i < m.decls.len()
        invariant
            i <= m.decls@.len(),
            leaks_sound(*env, errors@, 0),
            errors@.len() >= e0.len(),
            errors@.take(e0.len() as int) == e0,
            forall|j: int, n: Seq<char>|
                0 <= j < i && #[trigger] sig_leaks(m.decls@[j], *env, n)
                    ==> leak_reported(errors@, sig_name(m.decls@[j]), n),
        decreases m.decls.len() - i,
    {
        let ghost ei = errors@;
        match &m.decls[i] {
            Decl::Signature { name, scheme, span, .. } => {
                if exported_value(env, name) {
                    scan_scheme(env, name, scheme, *span, errors);
                }
            },
            Decl::Class(c) => {
                if exported_type(env, &c.name) {
                    let mut k: usize = 0;
                    while k < c.items.len()
                        invariant
                            k <= c.items@.len(),
                            leaks_sound(*env, errors@, 0),
                            errors@.len() >= ei.len(),
                            errors@.take(ei.len() as int) == ei,
                        decreases c.items.len() - k,
                    {
                        let ghost ek = errors@;
                        match &c.items[k] {
                            ClassItem::Signature { name: method, scheme, span, .. } => {
                                if exported_value(env, method) {
                                    scan_scheme(env, method, scheme, *span, errors);
                                    proof {
                                        lemma_prefix_trans(ei, ek, errors@);
                                    }
                                }
                            },
                            ClassItem::Default(_) => {},
                        }
                        k = k + 1;
                    }
                }
            },
            _ => {},
        }
        proof {
            assert(ei.take(ei.len() as int) =~= ei);
            lemma_prefix_trans(e0, ei, errors@);
            assert forall|j: int, n: Seq<char>|
                0 <= j < i + 1 && #[trigger] sig_leaks(m.decls@[j], *env, n)
                    implies leak_reported(errors@, sig_name(m.decls@[j]), n) by {
                if j < i {
                    let k = choose|k: int|
                        0 <= k < ei.len() && is_leak_of((#[trigger] ei[k]).kind, sig_name(m.decls@[j]), n);
                    assert(errors@.take(ei.len() as int)[k] == errors@[k]);
                }
            }
        }
        i = i + 1;
    }
    let mut i: usize = 0;
    while i < m.decls.len()
        invariant
            i <= m.decls@.len(),
            leaks_sound(*env, errors@, 0),
            errors@.len() >= e0.len(),
            errors@.take(e0.len() as int) == e0,
            forall|j: int, n: Seq<char>|
                0 <= j < m.decls@.len() && #[trigger] sig_leaks(m.decls@[j], *env, n)
                    ==> leak_reported(errors@, sig_name(m.decls@[j]), n),
        decreases m.decls.len() - i,
    {
        let ghost ei = errors@;
        match &m.decls[i] {
            Decl::Data(d) => {
                if exported_type(env, &d.name) {
                    let mut c: usize = 0;
                    while c < d.ctors.len()
                        invariant
                            c <= d.ctors@.len(),
                            leaks_sound(*env, errors@, 0),
                            errors@.len() >= ei.len(),
                            errors@.take(ei.len() as int) == ei,
                        decreases d.ctors.len() - c,
                    {
                        let ctor = &d.ctors[c];
                        if exported_value(env, &ctor.name) {
                            let mut refs: Vec<(String, Span)> = Vec::new();
                            let mut a: usize = 0;
                            while a < ctor.args.len()
                                invariant
                                    a <= ctor.args@.len(),
                                decreases ctor.args.len() - a,
                            {
                                scan(&ctor.args[a], &mut refs);
                                a = a + 1;
                            }
                            let ghost ec = errors@;
                            report_private(env, &ctor.name, &refs, errors);
                            proof {
                                lemma_prefix_trans(ei, ec, errors@);
                            }
                        }
                        c = c + 1;
                    }
                }
            },
            _ => {},
        }
        proof {
            assert(ei.take(ei.len() as int) =~= ei);
            lemma_prefix_trans(e0, ei, errors@);
            assert forall|j: int, n: Seq<char>|
                0 <= j < m.decls@.len() && #[trigger] sig_leaks(m.decls@[j], *env, n)
                    implies leak_reported(errors@, sig_name(m.decls@[j]), n) by {
                let k = choose|k: int|
                    0 <= k < ei.len() && is_leak_of((#[trigger] ei[k]).kind, sig_name(m.decls@[j]), n);
                assert(errors@.take(ei.len() as int)[k] == errors@[k]);
            }
        }
        i = i + 1;
    }
}

proof fn lemma_prefix_trans(a: Seq<ResolveError>, b: Seq<ResolveError>, c: Seq<ResolveError>)
    requires
        b.len() >= a.len(),
        b.take(a.len() as int) == a,
        c.len() >= b.len(),
        c.take(b.len() as int) == b,
    ensures
        c.take(a.len() as int) == a,
{
    assert(c.take(a.len() as int) =~= a) by {
        assert forall|x: int| 0 <= x < a.len() implies c.take(a.len() as int)[x] == a[x] by {
            assert(c.take(b.len() as int)[x] == c[x]);
            assert(b.take(a.len() as int)[x] == b[x]);
        }
    }
}

} // verus!
