//! Pieces of a module's Ruby file that do not depend on how
//! expressions are translated: the names a clause's patterns bind, the
//! grouping of clauses into bindings, the constructor table of a `data`
//! declaration, the `:=` bindings with their Ruby snippets, and the
//! `run_main` entry helper of a module whose `main` is a `Ruby` action.
use vstd::prelude::*;

use super::emit::{indentation, value_ident, Buf};
use crate::ast::{
    DataCtor, DataDecl, Decl, Module as AstModule, Param, Pattern, PatternField, RubyEmbedDecl,
    Scheme as AstScheme, Type as AstType, ValueClause,
};
use crate::lexer::scan::text_is;
use crate::text::{char_is_whitespace, unicode_white_space};
use vstd::string::StrSliceExecFns;
use crate::text::{decimal_text, join_strings, join_text, string_views, usize_text};
use crate::typeck::subst_spec::tsize;
use crate::typeck::ty::{fun_result, head_of, Scheme, Ty, TyView};
use crate::typeck::TypedModule;

verus! {

/// The names the first `n` patterns bind, in order.
pub open spec fn patterns_binders(ps: Seq<Pattern>, n: int) -> Seq<Seq<char>>
    decreases ps, n,
{
    if n <= 0 || n > ps.len() {
        Seq::empty()
    } else {
        proof {
            assert(decreases_to!(ps => ps[n - 1]));
        }
        patterns_binders(ps, n - 1) + pattern_binders(ps[n - 1])
    }
}

/// The names the patterns of the first `n` record fields bind, in
/// order.
pub open spec fn fields_binders(fs: Seq<PatternField>, n: int) -> Seq<Seq<char>>
    decreases fs, n,
{
    if n <= 0 || n > fs.len() {
        Seq::empty()
    } else {
        proof {
            assert(decreases_to!(fs => fs[n - 1]));
            assert(decreases_to!(fs[n - 1] => fs[n - 1].1));
        }
        fields_binders(fs, n - 1) + pattern_binders(fs[n - 1].1)
    }
}

/// The names a pattern binds, left to right; an `as` pattern's own name
/// comes before those of the pattern it names.
pub open spec fn pattern_binders(p: Pattern) -> Seq<Seq<char>>
    decreases p, 0nat,
{
    match p {
        Pattern::Wildcard(_) => Seq::empty(),
        Pattern::Lit(_, _) => Seq::empty(),
        Pattern::Var { name, .. } => seq![name@],
        Pattern::As { name, inner, .. } => seq![name@] + pattern_binders(*inner),
        Pattern::Con { args, .. } => {
            proof {
                assert(decreases_to!(p => args));
                assert(decreases_to!(args => args@));
            }
            patterns_binders(args@, args@.len() as int)
        },
        Pattern::Cons { head, tail, .. } => pattern_binders(*head) + pattern_binders(*tail),
        Pattern::List { items, .. } => {
            proof {
                assert(decreases_to!(p => items));
                assert(decreases_to!(items => items@));
            }
            patterns_binders(items@, items@.len() as int)
        },
        Pattern::Record { fields, .. } => {
            proof {
                assert(decreases_to!(p => fields));
                assert(decreases_to!(fields => fields@));
            }
            fields_binders(fields@, fields@.len() as int)
        },
        Pattern::Annot { inner, .. } => pattern_binders(*inner),
    }
}

/// The names `p` binds, in order.
pub fn collect_pattern_binders(p: &Pattern) -> (r: Vec<String>)
    ensures
        string_views(r@) == pattern_binders(*p),
{
    let mut out: Vec<String> = Vec::new();
    collect_pattern_binders_rec(p, &mut out);
    assert(string_views(out@) =~= string_views(Seq::<String>::empty()) + pattern_binders(*p));
    out
}

/// Append to `out` the names `p` binds.
fn collect_pattern_binders_rec(p: &Pattern, out: &mut Vec<String>)
    ensures
        string_views(final(out)@) == string_views(old(out)@) + pattern_binders(*p),
    decreases p,
{
    match p {
        Pattern::Wildcard(_) => {
            assert(string_views(out@) =~= string_views(old(out)@) + pattern_binders(*p));
        },
        Pattern::Lit(_, _) => {
            assert(string_views(out@) =~= string_views(old(out)@) + pattern_binders(*p));
        },
        Pattern::Var { name, .. } => {
            out.push(name.clone());
            assert(string_views(out@) =~= string_views(old(out)@) + pattern_binders(*p));
        },
        Pattern::As { name, inner, .. } => {
            out.push(name.clone());
            let ghost mid = out@;
            assert(string_views(mid) =~= string_views(old(out)@) + seq![name@]);
            collect_pattern_binders_rec(inner, out);
            assert(string_views(out@) =~= string_views(old(out)@) + pattern_binders(*p));
        },
        Pattern::Con { args, .. } => {
            proof {
                assert(decreases_to!(p => args));
                assert(decreases_to!(args => args@));
            }
            let mut i: usize = 0;
            while i < args.len()
                invariant
                    i <= args@.len(),
                    decreases_to!(p => args@),
                    string_views(out@) == string_views(old(out)@) + patterns_binders(args@, i as int),
                decreases args.len() - i,
            {
                proof {
                    assert(decreases_to!(args@ => args@[i as int]));
                }
                collect_pattern_binders_rec(&args[i], out);
                proof {
                    assert(patterns_binders(args@, i + 1) == patterns_binders(args@, i as int)
                        + pattern_binders(args@[i as int]));
                    assert(string_views(out@) =~= string_views(old(out)@) + patterns_binders(args@, i + 1));
                }
                i = i + 1;
            }
        },
        Pattern::Cons { head, tail, .. } => {
            collect_pattern_binders_rec(head, out);
            collect_pattern_binders_rec(tail, out);
            assert(string_views(out@) =~= string_views(old(out)@) + pattern_binders(*p));
        },
        Pattern::List { items, .. } => {
            proof {
                assert(decreases_to!(p => items));
                assert(decreases_to!(items => items@));
            }
            let mut i: usize = 0;
            while i < items.len()
                invariant
                    i <= items@.len(),
                    decreases_to!(p => items@),
                    string_views(out@) == string_views(old(out)@) + patterns_binders(items@, i as int),
                decreases items.len() - i,
            {
                proof {
                    assert(decreases_to!(items@ => items@[i as int]));
                }
                collect_pattern_binders_rec(&items[i], out);
                proof {
                    assert(patterns_binders(items@, i + 1) == patterns_binders(items@, i as int)
                        + pattern_binders(items@[i as int]));
                    assert(string_views(out@) =~= string_views(old(out)@) + patterns_binders(items@, i + 1));
                }
                i = i + 1;
            }
        },
        Pattern::Record { fields, .. } => {
            proof {
                assert(decreases_to!(p => fields));
                assert(decreases_to!(fields => fields@));
            }
            let mut i: usize = 0;
            while i < fields.len()
                invariant
                    i <= fields@.len(),
                    decreases_to!(p => fields@),
                    string_views(out@) == string_views(old(out)@) + fields_binders(fields@, i as int),
                decreases fields.len() - i,
            {
                proof {
                    assert(decreases_to!(fields@ => fields@[i as int]));
                    assert(decreases_to!(fields@[i as int] => fields@[i as int].1));
                }
                collect_pattern_binders_rec(&fields[i].1, out);
                proof {
                    assert(fields_binders(fields@, i + 1) == fields_binders(fields@, i as int)
                        + pattern_binders(fields@[i as int].1));
                    assert(string_views(out@) =~= string_views(old(out)@) + fields_binders(fields@, i + 1));
                }
                i = i + 1;
            }
        },
        Pattern::Annot { inner, .. } => {
            collect_pattern_binders_rec(inner, out);
        },
    }
}

/// The result type of a curried surface function type.
pub open spec fn ast_result(t: AstType) -> AstType
    decreases t,
{
    match t {
        AstType::Fun { result, .. } => ast_result(*result),
        _ => t,
    }
}

/// The head constructor's name of a surface type, through applications.
pub open spec fn ast_head(t: AstType) -> Option<Seq<char>>
    decreases t,
{
    match t {
        AstType::Con { name, .. } => Some(name@),
        AstType::App { func, .. } => ast_head(*func),
        _ => None,
    }
}

/// Whether a surface type is `Ruby {}`: `Ruby` applied to the empty
/// record.
pub open spec fn ast_ruby_unit(t: AstType) -> bool {
    match t {
        AstType::App { func, arg, .. } => match (*func, *arg) {
            (AstType::Con { name, .. }, AstType::Record { fields, .. }) => name@ == "Ruby"@ && fields@.len()
                == 0,
            _ => false,
        },
        _ => false,
    }
}

/// Whether a type is `Ruby {}`.
pub open spec fn ty_ruby_unit(t: TyView) -> bool {
    match t {
        TyView::App(f, a) => match (*f, *a) {
            (TyView::Con(name), TyView::Record(fs)) => name == "Ruby"@ && fs.len() == 0,
            _ => false,
        },
        _ => false,
    }
}

/// An optional string by its text.
pub open spec fn opt_text(o: Option<String>) -> Option<Seq<char>> {
    match o {
        Some(s) => Some(s@),
        None => None,
    }
}

/// The result type of a curried surface function type.
pub fn peel_fun_ast(t: &AstType) -> (r: &AstType)
    ensures
        *r == ast_result(*t),
{
    let mut cur = t;
    loop
        invariant
            ast_result(*cur) == ast_result(*t),
        ensures
            *cur == ast_result(*t),
        decreases *cur,
    {
        match cur {
            AstType::Fun { result, .. } => {
                cur = result;
            },
            _ => {
                break;
            },
        }
    }
    cur
}

/// Whether a surface type is `Ruby {}`.
pub fn is_ast_ruby_unit(t: &AstType) -> (r: bool)
    ensures
        r == ast_ruby_unit(*t),
{
    if let AstType::App { func, arg, .. } = t {
        if let AstType::Con { name, .. } = &**func {
            if text_is(name, "Ruby") {
                return match &**arg {
                    AstType::Record { fields, .. } => fields.len() == 0,
                    _ => false,
                };
            }
        }
    }
    false
}

/// The result type of a curried function type.
pub fn peel_fun_ty(t: &Ty) -> (r: &Ty)
    ensures
        r@ == fun_result(t@),
{
    let mut cur = t;
    loop
        invariant
            fun_result(cur@) == fun_result(t@),
        ensures
            cur@ == fun_result(t@),
        decreases tsize(cur@),
    {
        match cur {
            Ty::Fun(_, result) => {
                cur = result;
            },
            _ => {
                break;
            },
        }
    }
    cur
}

/// Whether a type is `Ruby {}`.
pub fn is_ty_ruby_unit(t: &Ty) -> (r: bool)
    ensures
        r == ty_ruby_unit(t@),
{
    if let Ty::App(func, arg) = t {
        assert(t@ == TyView::App(Box::new(func@), Box::new(arg@)));
        if let Ty::Con { name, .. } = &**func {
            assert(func@ == TyView::Con(name@));
            if text_is(name, "Ruby") {
                return match &**arg {
                    Ty::Record(fs) => {
                        assert(arg@ matches TyView::Record(vs) && vs.len() == fs@.len());
                        fs.len() == 0
                    },
                    _ => {
                        assert(!(arg@ is Record));
                        false
                    },
                };
            }
        } else {
            assert(!(func@ is Con));
        }
    }
    false
}

/// The head constructor's name of a surface type.
pub fn head_con_of_ast_type(ty: &AstType) -> (r: Option<String>)
    ensures
        opt_text(r) == ast_head(*ty),
    decreases ty,
{
    match ty {
        AstType::Con { name, .. } => Some(name.clone()),
        AstType::App { func, .. } => head_con_of_ast_type(func),
        _ => None,
    }
}

/// The head constructor's name of the result of a curried surface
/// function type.
pub fn head_con_of_scheme_ast(ty: &AstType) -> (r: Option<String>)
    ensures
        opt_text(r) == ast_head(ast_result(*ty)),
{
    head_con_of_ast_type(peel_fun_ast(ty))
}

/// The head constructor's name of a type.
pub fn head_con_of_ty(ty: &Ty) -> (r: Option<&String>)
    ensures
        r matches Some(n) ==> head_of(ty@) == Some(n@),
        r is None ==> head_of(ty@) is None,
{
    ty.head_con()
}

/// The scheme of the first binding named `name`.
pub open spec fn scheme_named(schemes: Seq<(String, Scheme)>, name: Seq<char>) -> Option<Scheme>
    decreases schemes.len(),
{
    if schemes.len() == 0 {
        None
    } else if schemes[0].0@ == name {
        Some(schemes[0].1)
    } else {
        scheme_named(schemes.drop_first(), name)
    }
}

/// The scheme of the first binding named `name` in a checked module.
fn find_scheme<'a>(tm: &'a TypedModule, name: &str) -> (r: Option<&'a Scheme>)
    ensures
        r matches Some(s) ==> scheme_named(tm.schemes@, name@) == Some(*s),
        r is None ==> scheme_named(tm.schemes@, name@) is None,
{
    let ghost all = tm.schemes@;
    let mut i: usize = 0;
    assert(all.subrange(0, all.len() as int) =~= all);
    while i < tm.schemes.len()
        invariant
            i <= all.len(),
            all == tm.schemes@,
            scheme_named(all, name@) == scheme_named(all.subrange(i as int, all.len() as int), name@),
        decreases tm.schemes.len() - i,
    {
        let ghost rest = all.subrange(i as int, all.len() as int);
        assert(rest[0] == all[i as int]);
        let n = String::from_str(name);
        if tm.schemes[i].0.eq(&n) {
            return Some(&tm.schemes[i].1);
        }
        assert(rest.drop_first() =~= all.subrange(i + 1, all.len() as int));
        i = i + 1;
    }
    None
}

/// The head constructor of the result type that a checked module gives
/// the binding `name`, its first scheme of that name.
pub open spec fn typed_head(name: Seq<char>, typed: Option<&TypedModule>) -> Option<Seq<char>> {
    match typed {
        Some(tm) => match scheme_named(tm.schemes@, name) {
            Some(sch) => head_of(fun_result(sch.body@)),
            None => None,
        },
        None => None,
    }
}

/// The head constructor of the result type of `name` in a checked
/// module.
pub fn typed_return_head<'a>(name: &str, typed: Option<&'a TypedModule>) -> (r: Option<&'a String>)
    ensures
        r matches Some(n) ==> typed_head(name@, typed) == Some(n@),
        r is None ==> typed_head(name@, typed) is None,
{
    let tm = match typed {
        Some(tm) => tm,
        None => {
            return None;
        },
    };
    let sch = match find_scheme(tm, name) {
        Some(s) => s,
        None => {
            return None;
        },
    };
    peel_fun_ty(&sch.body).head_con()
}

/// The scheme of the first signature of `name` among the declarations.
pub open spec fn sig_named(decls: Seq<Decl>, name: Seq<char>) -> Option<AstScheme>
    decreases decls.len(),
{
    if decls.len() == 0 {
        None
    } else {
        match decls[0] {
            Decl::Signature { name: n, scheme, .. } => if n@ == name {
                Some(scheme)
            } else {
                sig_named(decls.drop_first(), name)
            },
            _ => sig_named(decls.drop_first(), name),
        }
    }
}

/// The scheme of the first signature of `name` among `decls`.
fn find_signature<'a>(decls: &'a [Decl], name: &str) -> (r: Option<&'a AstScheme>)
    ensures
        r matches Some(s) ==> sig_named(decls@, name@) == Some(*s),
        r is None ==> sig_named(decls@, name@) is None,
{
    let ghost all = decls@;
    let mut i: usize = 0;
    assert(all.subrange(0, all.len() as int) =~= all);
    while i < decls.len()
        invariant
            i <= all.len(),
            all == decls@,
            sig_named(all, name@) == sig_named(all.subrange(i as int, all.len() as int), name@),
        decreases decls.len() - i,
    {
        let ghost rest = all.subrange(i as int, all.len() as int);
        assert(rest[0] == all[i as int]);
        assert(rest.drop_first() =~= all.subrange(i + 1, all.len() as int));
        if let Decl::Signature { name: n, scheme, .. } = &decls[i] {
            let m = String::from_str(name);
            if n.eq(&m) {
                return Some(scheme);
            }
        }
        i = i + 1;
    }
    None
}

/// Whether a module's `main` is a `Ruby` action: by its signature when
/// it has one, else by the checked module's scheme for it.
pub open spec fn ruby_main(decls: Seq<Decl>, typed: Option<&TypedModule>) -> bool {
    match sig_named(decls, "main"@) {
        Some(s) => ast_head(ast_result(s.body)) == Some("Ruby"@),
        None => match typed {
            Some(tm) => match scheme_named(tm.schemes@, "main"@) {
                Some(sch) => head_of(sch.body@) == Some("Ruby"@),
                None => false,
            },
            None => false,
        },
    }
}

/// Whether the module defines a `main` whose type has the head `Ruby`.
pub fn has_ruby_main(ast: &AstModule, typed: Option<&TypedModule>) -> (r: bool)
    ensures
        r == ruby_main(ast.decls@, typed),
{
    match find_signature(ast.decls.as_slice(), "main") {
        Some(scheme) => {
            return match head_con_of_scheme_ast(&scheme.body) {
                Some(h) => text_is(&h, "Ruby"),
                None => false,
            };
        },
        None => {},
    }
    if let Some(tm) = typed {
        if let Some(sch) = find_scheme(tm, "main") {
            return match head_con_of_ty(&sch.body) {
                Some(h) => text_is(h, "Ruby"),
                None => false,
            };
        }
    }
    false
}

/// Whether the `:=` binding `name` has a type whose result is
/// `Ruby {}`: by its signature when it has one, else by the checked
/// module's scheme for it.
pub open spec fn embed_returns_unit(name: Seq<char>, decls: Seq<Decl>, typed: Option<&TypedModule>) -> bool {
    match sig_named(decls, name) {
        Some(s) => ast_ruby_unit(ast_result(s.body)),
        None => match typed {
            Some(tm) => match scheme_named(tm.schemes@, name) {
                Some(sch) => ty_ruby_unit(fun_result(sch.body@)),
                None => false,
            },
            None => false,
        },
    }
}

/// Whether the `:=` binding `name` returns `Ruby {}`.
pub fn ruby_embed_returns_unit(name: &str, all_decls: &[Decl], typed: Option<&TypedModule>) -> (r: bool)
    ensures
        r == embed_returns_unit(name@, all_decls@, typed),
{
    if let Some(scheme) = find_signature(all_decls, name) {
        return is_ast_ruby_unit(peel_fun_ast(&scheme.body));
    }
    if let Some(tm) = typed {
        if let Some(sch) = find_scheme(tm, name) {
            return is_ty_ruby_unit(peel_fun_ty(&sch.body));
        }
    }
    false
}

/// A line written at indentation level `level`.
pub open spec fn line_at(level: nat, text: Seq<char>) -> Seq<char> {
    indentation(level) + text + seq!['\n']
}

/// Whether the data type `name` is one the generated prelude defines.
pub open spec fn prelude_data(name: Seq<char>) -> bool {
    name == "Bool"@ || name == "Ordering"@ || name == "Maybe"@ || name == "Result"@ || name == "List"@
}

/// A constructor as the pair of its tag and arity.
pub open spec fn ctor_pair(c: DataCtor) -> Seq<char> {
    "[:"@ + c.name@ + ", "@ + decimal_text(c.args@.len()) + "]"@
}

/// What a `data` declaration adds at indentation level `level`: for a
/// type of the prelude nothing, else a blank line and the call that
/// installs its constructors.
pub open spec fn data_decl_text(d: DataDecl, level: nat) -> Seq<char> {
    if prelude_data(d.name@) {
        Seq::empty()
    } else {
        seq!['\n'] + line_at(
            level,
            "Sapphire::Runtime::ADT.define_variants(self, ["@ + join_text(
                d.ctors@.map_values(|c: DataCtor| ctor_pair(c)),
                ", "@,
            ) + "])"@,
        )
    }
}

/// Emit the constructor table of a `data` declaration, unless the
/// prelude defines the type.
pub fn render_data_decl(d: &DataDecl, buf: &mut Buf)
    ensures
        final(buf).text() == old(buf).text() + data_decl_text(*d, old(buf).level()),
        final(buf).level() == old(buf).level(),
{
    let n = &d.name;
    if text_is(n, "Bool") || text_is(n, "Ordering") || text_is(n, "Maybe") || text_is(n, "Result")
        || text_is(n, "List") {
        assert(buf.text() =~= old(buf).text() + data_decl_text(*d, old(buf).level()));
        return;
    }
    buf.blank();
    let mut pairs: Vec<String> = Vec::new();
    let mut i: usize = 0;
    while i < d.ctors.len()
        invariant
            i <= d.ctors@.len(),
            string_views(pairs@) == d.ctors@.take(i as int).map_values(|c: DataCtor| ctor_pair(c)),
        decreases d.ctors.len() - i,
    {
        let c = &d.ctors[i];
        let mut p = String::from_str("[:");
        p.append(c.name.as_str());
        p.append(", ");
        p.append(usize_text(c.args.len()).as_str());
        p.append("]");
        let ghost before = pairs@;
        pairs.push(p);
        proof {
            assert(p@ == ctor_pair(d.ctors@[i as int]));
            assert(d.ctors@.take(i + 1).map_values(|c: DataCtor| ctor_pair(c)) =~= d.ctors@.take(
                i as int,
            ).map_values(|c: DataCtor| ctor_pair(c)).push(ctor_pair(d.ctors@[i as int])));
            assert(string_views(pairs@) =~= string_views(before).push(p@));
        }
        i = i + 1;
    }
    assert(d.ctors@.take(i as int) =~= d.ctors@);
    let mut line = String::from_str("Sapphire::Runtime::ADT.define_variants(self, [");
    line.append(join_strings(&pairs, ", ").as_str());
    line.append("])");
    buf.push_line(line.as_str());
}

/// The `run_main` entry helper at indentation level `l`: it runs
/// `main` and answers the exit status, reporting a failure's class,
/// message and backtrace on standard error.
pub open spec fn run_main_text(l: nat) -> Seq<char> {
    line_at(l, "# Entry helper \u{2014} `sapphire run` dispatches here."@) + line_at(l, "def self.run_main"@)
        + line_at(l + 1, "result = Sapphire::Prelude.run_action(main)"@) + line_at(
        l + 1,
        "case result[:tag]"@,
    ) + line_at(l + 1, "when :Ok"@) + line_at(l + 2, "0"@) + line_at(l + 1, "when :Err"@) + line_at(
        l + 2,
        "err = result[:values][0]"@,
    ) + line_at(l + 2, "klass = err[:values][0]"@) + line_at(l + 2, "msg   = err[:values][1]"@)
        + line_at(l + 2, "bt    = err[:values][2]"@) + line_at(
        l + 2,
        "warn \"[sapphire run] #{klass}: #{msg}\""@,
    ) + line_at(l + 2, "bt.each { |line| warn \"  #{line}\" }"@) + line_at(l + 2, "1"@) + line_at(
        l + 1,
        "end"@,
    ) + line_at(l, "end"@)
}

/// Writing a line after `acc` has been written is writing `acc` and the
/// line.
proof fn lemma_push_line(a: Seq<char>, acc: Seq<char>, level: nat, t: Seq<char>)
    ensures
        a + acc + indentation(level) + t + seq!['\n'] == a + (acc + line_at(level, t)),
{
    assert(a + acc + indentation(level) + t + seq!['\n'] =~= a + (acc + line_at(level, t)));
}

/// Emit the `run_main` entry helper.
#[verifier::spinoff_prover]
pub fn render_run_main(buf: &mut Buf)
    requires
        old(buf).level() + 2 <= usize::MAX,
    ensures
        final(buf).text() == old(buf).text() + run_main_text(old(buf).level()),
        final(buf).level() == old(buf).level(),
{
    let ghost l = buf.level();
    buf.push_line("# Entry helper \u{2014} `sapphire run` dispatches here.");
    let ghost mut acc = line_at(l, "# Entry helper \u{2014} `sapphire run` dispatches here."@);
    proof {
        assert(buf.text() =~= old(buf).text() + acc);
    }
    buf.push_line("def self.run_main");
    proof {
        lemma_push_line(old(buf).text(), acc, l, "def self.run_main"@);
        acc = acc + line_at(l, "def self.run_main"@);
    }
    buf.indent();
    buf.push_line("result = Sapphire::Prelude.run_action(main)");
    proof {
        lemma_push_line(old(buf).text(), acc, l + 1, "result = Sapphire::Prelude.run_action(main)"@);
        acc = acc + line_at(l + 1, "result = Sapphire::Prelude.run_action(main)"@);
    }
    buf.push_line("case result[:tag]");
    proof {
        lemma_push_line(old(buf).text(), acc, l + 1, "case result[:tag]"@);
        acc = acc + line_at(l + 1, "case result[:tag]"@);
    }
    buf.push_line("when :Ok");
    proof {
        lemma_push_line(old(buf).text(), acc, l + 1, "when :Ok"@);
        acc = acc + line_at(l + 1, "when :Ok"@);
    }
    buf.indent();
    buf.push_line("0");
    proof {
        lemma_push_line(old(buf).text(), acc, l + 2, "0"@);
        acc = acc + line_at(l + 2, "0"@);
    }
    buf.dedent();
    buf.push_line("when :Err");
    proof {
        lemma_push_line(old(buf).text(), acc, l + 1, "when :Err"@);
        acc = acc + line_at(l + 1, "when :Err"@);
    }
    buf.indent();
    buf.push_line("err = result[:values][0]");
    proof {
        lemma_push_line(old(buf).text(), acc, l + 2, "err = result[:values][0]"@);
        acc = acc + line_at(l + 2, "err = result[:values][0]"@);
    }
    buf.push_line("klass = err[:values][0]");
    proof {
        lemma_push_line(old(buf).text(), acc, l + 2, "klass = err[:values][0]"@);
        acc = acc + line_at(l + 2, "klass = err[:values][0]"@);
    }
    buf.push_line("msg   = err[:values][1]");
    proof {
        lemma_push_line(old(buf).text(), acc, l + 2, "msg   = err[:values][1]"@);
        acc = acc + line_at(l + 2, "msg   = err[:values][1]"@);
    }
    buf.push_line("bt    = err[:values][2]");
    proof {
        lemma_push_line(old(buf).text(), acc, l + 2, "bt    = err[:values][2]"@);
        acc = acc + line_at(l + 2, "bt    = err[:values][2]"@);
    }
    buf.push_line("warn \"[sapphire run] #{klass}: #{msg}\"");
    proof {
        lemma_push_line(old(buf).text(), acc, l + 2, "warn \"[sapphire run] #{klass}: #{msg}\""@);
        acc = acc + line_at(l + 2, "warn \"[sapphire run] #{klass}: #{msg}\""@);
    }
    buf.push_line("bt.each { |line| warn \"  #{line}\" }");
    proof {
        lemma_push_line(old(buf).text(), acc, l + 2, "bt.each { |line| warn \"  #{line}\" }"@);
        acc = acc + line_at(l + 2, "bt.each { |line| warn \"  #{line}\" }"@);
    }
    buf.push_line("1");
    proof {
        lemma_push_line(old(buf).text(), acc, l + 2, "1"@);
        acc = acc + line_at(l + 2, "1"@);
    }
    buf.dedent();
    buf.push_line("end");
    proof {
        lemma_push_line(old(buf).text(), acc, l + 1, "end"@);
        acc = acc + line_at(l + 1, "end"@);
    }
    buf.dedent();
    buf.push_line("end");
    proof {
        lemma_push_line(old(buf).text(), acc, l, "end"@);
        acc = acc + line_at(l, "end"@);
    }
    assert(acc == run_main_text(l));
}

/// Whether a character is a line break: `\n` or `\r`.
pub open spec fn is_line_break(c: char) -> bool {
    c == '\n' || c == '\r'
}

/// `s` without the line breaks it starts with.
pub open spec fn trim_front_breaks(s: Seq<char>) -> Seq<char>
    decreases s.len(),
{
    if s.len() > 0 && is_line_break(s[0]) {
        trim_front_breaks(s.drop_first())
    } else {
        s
    }
}

/// `s` without the line breaks it ends with.
pub open spec fn trim_back_breaks(s: Seq<char>) -> Seq<char>
    decreases s.len(),
{
    if s.len() > 0 && is_line_break(s.last()) {
        trim_back_breaks(s.drop_last())
    } else {
        s
    }
}

/// The pieces of `s` between its `\n` characters; one more piece than
/// there are `\n`s.
pub open spec fn split_newlines(s: Seq<char>) -> Seq<Seq<char>>
    decreases s.len(),
{
    if s.len() == 0 {
        seq![Seq::empty()]
    } else {
        let p = split_newlines(s.drop_last());
        if s.last() == '\n' {
            p.push(Seq::empty())
        } else {
            p.update(p.len() - 1, p.last().push(s.last()))
        }
    }
}

/// A line without the one `\r` it may end with.
pub open spec fn strip_cr(l: Seq<char>) -> Seq<char> {
    if l.len() > 0 && l.last() == '\r' {
        l.drop_last()
    } else {
        l
    }
}

/// The lines of `s`, as `str::lines` gives them: split at each `\n`, a
/// line ended by `\n` losing one `\r` before it, and no empty last line
/// after a final `\n`.
pub open spec fn str_lines(s: Seq<char>) -> Seq<Seq<char>> {
    let p = split_newlines(s);
    let n: int = if p.last().len() == 0 {
        p.len() - 1
    } else {
        p.len() as int
    };
    Seq::new(
        n as nat,
        |i: int|
            if i < p.len() - 1 {
                strip_cr(p[i])
            } else {
                p[i]
            },
    )
}

/// The number of whitespace characters `l` starts with.
pub open spec fn lead_ws(l: Seq<char>) -> nat
    decreases l.len(),
{
    if l.len() > 0 && unicode_white_space(l[0]) {
        1 + lead_ws(l.drop_first())
    } else {
        0
    }
}

/// The number of bytes of a character's UTF-8 encoding.
pub open spec fn utf8_width(c: char) -> nat {
    if (c as u32) < 0x80 {
        1
    } else if (c as u32) < 0x800 {
        2
    } else if (c as u32) < 0x10000 {
        3
    } else {
        4
    }
}

/// The number of bytes of the UTF-8 encoding of `l`.
pub open spec fn utf8_len(l: Seq<char>) -> nat
    decreases l.len(),
{
    if l.len() == 0 {
        0
    } else {
        utf8_len(l.drop_last()) + utf8_width(l.last())
    }
}

/// The indentation of a line in bytes: those of its leading whitespace.
pub open spec fn indent_bytes(l: Seq<char>) -> nat {
    utf8_len(l.take(lead_ws(l) as int))
}

/// Whether a line holds only whitespace.
pub open spec fn is_blank(l: Seq<char>) -> bool {
    lead_ws(l) == l.len()
}

/// The least indentation of the lines that are not blank, if any is.
pub open spec fn least_indent(ls: Seq<Seq<char>>) -> Option<nat>
    decreases ls.len(),
{
    if ls.len() == 0 {
        None
    } else {
        let prev = least_indent(ls.drop_last());
        if is_blank(ls.last()) {
            prev
        } else {
            match prev {
                Some(m) => Some(if indent_bytes(ls.last()) < m {
                    indent_bytes(ls.last())
                } else {
                    m
                }),
                None => Some(indent_bytes(ls.last())),
            }
        }
    }
}

/// `l` without its first `b` bytes, when they end on a character
/// boundary.
pub open spec fn skip_bytes(l: Seq<char>, b: nat) -> Option<Seq<char>>
    decreases l.len(),
{
    if b == 0 {
        Some(l)
    } else if l.len() == 0 || utf8_width(l[0]) > b {
        None
    } else {
        skip_bytes(l.drop_first(), (b - utf8_width(l[0])) as nat)
    }
}

/// The lines of a Ruby snippet, line breaks at either end dropped.
pub open spec fn snippet_lines(src: Seq<char>) -> Seq<Seq<char>> {
    str_lines(trim_back_breaks(trim_front_breaks(src)))
}

/// The indentation that a snippet's lines lose.
pub open spec fn snippet_indent(src: Seq<char>) -> nat {
    match least_indent(snippet_lines(src)) {
        Some(m) => m,
        None => 0,
    }
}

/// A line without `m` bytes of indentation, when it has that many bytes.
pub open spec fn dedent_line(l: Seq<char>, m: nat) -> Seq<char> {
    if utf8_len(l) >= m {
        match skip_bytes(l, m) {
            Some(r) => r,
            None => l,
        }
    } else {
        l
    }
}

/// Whether every line of the snippet that has at least as many bytes as
/// the common indentation has a character boundary there, so that
/// cutting the indentation off splits no character.
pub open spec fn snippet_cuttable(src: Seq<char>) -> bool {
    forall|i: int|
        0 <= i < snippet_lines(src).len() ==> utf8_len(#[trigger] snippet_lines(src)[i]) >= snippet_indent(src)
            ==> skip_bytes(snippet_lines(src)[i], snippet_indent(src)) is Some
}

/// A snippet with the line breaks at its ends dropped and the common
/// indentation of its non-blank lines taken off every line.
pub open spec fn snippet_text(src: Seq<char>) -> Seq<char> {
    join_text(
        snippet_lines(src).map_values(|l: Seq<char>| dedent_line(l, snippet_indent(src))),
        seq!['\n'],
    )
}

/// The characters of a string.
fn chars_of(s: &str) -> (r: Vec<char>)
    ensures
        r@ == s@,
{
    let n = s.unicode_len();
    let mut out: Vec<char> = Vec::new();
    let mut i: usize = 0;
    while i < n
        invariant
            i <= n,
            n == s@.len(),
            out@ == s@.take(i as int),
        decreases n - i,
    {
        out.push(s.get_char(i));
        assert(out@ =~= s@.take(i + 1));
        i = i + 1;
    }
    assert(s@.take(n as int) =~= s@);
    out
}

/// The views of a sequence of character vectors.
pub open spec fn char_vec_views(v: Seq<Vec<char>>) -> Seq<Seq<char>> {
    v.map_values(|x: Vec<char>| x@)
}

/// The characters `v[from..to]`.
fn slice_chars(v: &Vec<char>, from: usize, to: usize) -> (r: Vec<char>)
    requires
        from <= to <= v@.len(),
    ensures
        r@ == v@.subrange(from as int, to as int),
{
    let mut out: Vec<char> = Vec::new();
    let mut i = from;
    while i < to
        invariant
            from <= i <= to,
            to <= v@.len(),
            out@ == v@.subrange(from as int, i as int),
        decreases to - i,
    {
        out.push(v[i]);
        assert(out@ =~= v@.subrange(from as int, i + 1));
        i = i + 1;
    }
    out
}

/// The characters of `s` without the line breaks at either end.
fn trim_breaks(s: &Vec<char>) -> (r: Vec<char>)
    ensures
        r@ == trim_back_breaks(trim_front_breaks(s@)),
{
    let n = s.len();
    let mut a: usize = 0;
    assert(s@.subrange(0, n as int) =~= s@);
    while a < n && (s[a] == '\n' || s[a] == '\r')
        invariant
            a <= n,
            n == s@.len(),
            trim_front_breaks(s@) == trim_front_breaks(s@.subrange(a as int, n as int)),
        decreases n - a,
    {
        assert(s@.subrange(a as int, n as int).drop_first() =~= s@.subrange(a + 1, n as int));
        a = a + 1;
    }
    let ghost front = s@.subrange(a as int, n as int);
    assert(trim_front_breaks(front) == front);
    let mut b: usize = n;
    while b > a && (s[b - 1] == '\n' || s[b - 1] == '\r')
        invariant
            a <= b <= n,
            n == s@.len(),
            front == s@.subrange(a as int, n as int),
            trim_back_breaks(front) == trim_back_breaks(s@.subrange(a as int, b as int)),
        decreases b - a,
    {
        assert(s@.subrange(a as int, b as int).drop_last() =~= s@.subrange(a as int, b - 1));
        b = b - 1;
    }
    slice_chars(s, a, b)
}

/// The lines of `s`, as `str::lines` gives them.
fn split_lines(s: &Vec<char>) -> (r: Vec<Vec<char>>)
    ensures
        char_vec_views(r@) == str_lines(s@),
{
    let mut done: Vec<Vec<char>> = Vec::new();
    let mut cur: Vec<char> = Vec::new();
    let mut j: usize = 0;
    assert(s@.take(0) =~= Seq::<char>::empty());
    assert(char_vec_views(done@).push(cur@) =~= split_newlines(s@.take(0)));
    while j < s.len()
        invariant
            j <= s@.len(),
            char_vec_views(done@).push(cur@) == split_newlines(s@.take(j as int)),
        decreases s.len() - j,
    {
        let c = s[j];
        let ghost prev = split_newlines(s@.take(j as int));
        assert(s@.take(j + 1).drop_last() =~= s@.take(j as int));
        if c == '\n' {
            done.push(cur);
            cur = Vec::new();
            assert(char_vec_views(done@).push(cur@) =~= prev.push(Seq::empty()));
        } else {
            cur.push(c);
            assert(char_vec_views(done@).push(cur@) =~= prev.update(prev.len() - 1, prev.last().push(c)));
        }
        j = j + 1;
    }
    assert(s@.take(j as int) =~= s@);
    let ghost p = split_newlines(s@);
    let mut lines: Vec<Vec<char>> = Vec::new();
    let mut i: usize = 0;
    while i < done.len()
        invariant
            i <= done@.len(),
            p == char_vec_views(done@).push(cur@),
            lines@.len() == i,
            forall|k: int| 0 <= k < i ==> (#[trigger] lines@[k])@ == strip_cr(p[k]),
        decreases done.len() - i,
    {
        let l = &done[i];
        assert(l@ == p[i as int]);
        let mut e = l.len();
        if e > 0 && l[e - 1] == '\r' {
            e = e - 1;
        }
        let stripped = slice_chars(l, 0, e);
        assert(stripped@ =~= strip_cr(p[i as int]));
        lines.push(stripped);
        i = i + 1;
    }
    if cur.len() > 0 {
        lines.push(cur);
    }
    assert(char_vec_views(lines@) =~= str_lines(s@));
    lines
}

/// The number of bytes of a character's UTF-8 encoding.
fn utf8_width_of(c: char) -> (r: usize)
    ensures
        r == utf8_width(c),
{
    let u = c as u32;
    if u < 0x80 {
        1
    } else if u < 0x800 {
        2
    } else if u < 0x10000 {
        3
    } else {
        4
    }
}

/// The bytes of the UTF-8 encoding of `l` are at most four per
/// character.
proof fn lemma_utf8_len_bound(l: Seq<char>)
    ensures
        utf8_len(l) <= 4 * l.len(),
    decreases l.len(),
{
    if l.len() > 0 {
        lemma_utf8_len_bound(l.drop_last());
    }
}

/// The number of bytes of the UTF-8 encoding of `l[..k]`.
fn utf8_len_of(l: &Vec<char>, k: usize) -> (r: u128)
    requires
        k <= l@.len(),
    ensures
        r == utf8_len(l@.take(k as int)),
{
    let mut acc: u128 = 0;
    let mut i: usize = 0;
    assert(l@.take(0) =~= Seq::<char>::empty());
    while i < k
        invariant
            i <= k <= l@.len(),
            acc == utf8_len(l@.take(i as int)),
            acc <= 4 * i,
        decreases k - i,
    {
        assert(l@.take(i + 1).drop_last() =~= l@.take(i as int));
        acc = acc + utf8_width_of(l[i]) as u128;
        i = i + 1;
    }
    acc
}

/// The number of whitespace characters `l` starts with.
fn lead_ws_of(l: &Vec<char>) -> (r: usize)
    ensures
        r == lead_ws(l@),
        r <= l@.len(),
{
    let mut k: usize = 0;
    assert(l@.skip(0) =~= l@);
    while k < l.len() && char_is_whitespace(l[k])
        invariant
            k <= l@.len(),
            lead_ws(l@) == k + lead_ws(l@.skip(k as int)),
        decreases l.len() - k,
    {
        assert(l@.skip(k as int).drop_first() =~= l@.skip(k + 1));
        k = k + 1;
    }
    k
}

/// `l` without its first `b` bytes, when they end on a character
/// boundary.
fn skip_bytes_of(l: &Vec<char>, b: u128) -> (r: Option<Vec<char>>)
    ensures
        r matches Some(v) ==> skip_bytes(l@, b as nat) == Some(v@),
        r is None ==> skip_bytes(l@, b as nat) is None,
{
    let mut rem = b;
    let mut i: usize = 0;
    assert(l@.skip(0) =~= l@);
    while rem > 0
        invariant
            i <= l@.len(),
            skip_bytes(l@, b as nat) == skip_bytes(l@.skip(i as int), rem as nat),
        decreases rem,
    {
        if i == l.len() {
            return None;
        }
        let w = utf8_width_of(l[i]);
        if w as u128 > rem {
            return None;
        }
        assert(l@.skip(i as int).drop_first() =~= l@.skip(i + 1));
        rem = rem - w as u128;
        i = i + 1;
    }
    let r = slice_chars(l, i, l.len());
    assert(r@ =~= l@.skip(i as int));
    Some(r)
}

/// Drop the line breaks at either end of a Ruby snippet and take the
/// common indentation of its non-blank lines off every line.
pub fn format_snippet(src: &str) -> (r: String)
    requires
        snippet_cuttable(src@),
    ensures
        r@ == snippet_text(src@),
{
    let chars = chars_of(src);
    let trimmed = trim_breaks(&chars);
    let lines = split_lines(&trimmed);
    let ghost ls = snippet_lines(src@);
    assert(char_vec_views(lines@) == ls);
    // The least indentation of the non-blank lines.
    let mut min: Option<u128> = None;
    let mut i: usize = 0;
    assert(ls.take(0) =~= Seq::<Seq<char>>::empty());
    while i < lines.len()
        invariant
            i <= lines@.len(),
            ls == char_vec_views(lines@),
            match min {
                Some(m) => least_indent(ls.take(i as int)) == Some(m as nat),
                None => least_indent(ls.take(i as int)) is None,
            },
        decreases lines.len() - i,
    {
        let l = &lines[i];
        assert(l@ == ls[i as int]);
        assert(ls.take(i + 1).drop_last() =~= ls.take(i as int));
        assert(ls.take(i + 1).last() == l@);
        let k = lead_ws_of(l);
        if k < l.len() {
            let ind = utf8_len_of(l, k);
            min = match min {
                Some(m) => Some(if ind < m {
                    ind
                } else {
                    m
                }),
                None => Some(ind),
            };
        }
        i = i + 1;
    }
    assert(ls.take(i as int) =~= ls);
    let m: u128 = match min {
        Some(m) => m,
        None => 0,
    };
    assert(m == snippet_indent(src@));
    let mut out = String::new();
    let mut j: usize = 0;
    let ghost parts = ls.map_values(|l: Seq<char>| dedent_line(l, snippet_indent(src@)));
    assert(parts.take(0) =~= Seq::<Seq<char>>::empty());
    while j < lines.len()
        invariant
            j <= lines@.len(),
            ls == char_vec_views(lines@),
            m == snippet_indent(src@),
            snippet_cuttable(src@),
            ls == snippet_lines(src@),
            parts == ls.map_values(|l: Seq<char>| dedent_line(l, snippet_indent(src@))),
            out@ == join_text(parts.take(j as int), seq!['\n']),
        decreases lines.len() - j,
    {
        let l = &lines[j];
        assert(l@ == ls[j as int]);
        if j > 0 {
            out.push('\n');
        }
        let total = utf8_len_of(l, l.len());
        assert(l@.take(l@.len() as int) =~= l@);
        let piece: Vec<char> = if total >= m {
            match skip_bytes_of(l, m) {
                Some(v) => v,
                None => {
                    assert(false);
                    slice_chars(l, 0, l.len())
                },
            }
        } else {
            slice_chars(l, 0, l.len())
        };
        assert(piece@ =~= dedent_line(l@, m as nat));
        let ghost before = out@;
        let mut q: usize = 0;
        while q < piece.len()
            invariant
                q <= piece@.len(),
                out@ == before + piece@.take(q as int),
            decreases piece.len() - q,
        {
            out.push(piece[q]);
            assert(out@ =~= before + piece@.take(q + 1));
            q = q + 1;
        }
        proof {
            assert(piece@.take(q as int) =~= piece@);
            assert(parts.take(j + 1).drop_last() =~= parts.take(j as int));
            assert(parts.take(j + 1).last() == piece@);
            if j > 0 {
                assert(out@ =~= join_text(parts.take(j as int), seq!['\n']) + seq!['\n'] + piece@);
            } else {
                assert(parts.take(1).len() == 1);
                assert(out@ =~= parts.take(1)[0]);
            }
        }
        j = j + 1;
    }
    assert(parts.take(j as int) =~= parts);
    out
}

/// Each line of a snippet, indented for the block it stands in and
/// ended by a newline.
pub open spec fn block_lines(ls: Seq<Seq<char>>) -> Seq<char>
    decreases ls.len(),
{
    if ls.len() == 0 {
        Seq::empty()
    } else {
        block_lines(ls.drop_last()) + "            "@ + ls.last() + seq!['\n']
    }
}

/// The `prim_embed` block that runs a snippet whose lines are `ls`; an
/// action of type `Ruby {}` ends with an empty hash, the value that
/// stands for `{}`.
pub open spec fn embed_block(ls: Seq<Seq<char>>, unit: bool) -> Seq<char> {
    "Sapphire::Runtime::Ruby.prim_embed do\n"@ + block_lines(ls) + (if unit {
        "            {}\n"@
    } else {
        Seq::empty()
    }) + "          end"@
}

/// `body` inside one lambda per parameter, the first parameter's
/// outermost.
pub open spec fn wrap_params(body: Seq<char>, params: Seq<Seq<char>>) -> Seq<char>
    decreases params.len(),
{
    if params.len() == 0 {
        body
    } else {
        "->("@ + params[0] + ") {\n          "@ + wrap_params(body, params.drop_first()) + "\n        }"@
    }
}

/// The names of a `:=` binding's parameters.
pub open spec fn param_names(ps: Seq<Param>) -> Seq<Seq<char>> {
    ps.map_values(|p: Param| p.name@)
}

/// What a `:=` binding adds at indentation level `l`: a blank line and
/// a method that answers its curried lambda around the snippet's block.
pub open spec fn ruby_embed_text(re: RubyEmbedDecl, unit: bool, l: nat) -> Seq<char> {
    seq!['\n'] + line_at(l, "def self."@ + re.name@) + line_at(
        l + 1,
        wrap_params(
            embed_block(str_lines(snippet_text(re.source@)), unit),
            param_names(re.params@),
        ),
    ) + line_at(l, "end"@)
}

/// Emit a `:=` binding as a method whose body runs the Ruby snippet.
pub fn render_ruby_embed(re: &RubyEmbedDecl, all_decls: &[Decl], typed: Option<&TypedModule>, buf: &mut Buf)
    requires
        old(buf).level() + 1 <= usize::MAX,
        snippet_cuttable(re.source@),
    ensures
        final(buf).text() == old(buf).text() + ruby_embed_text(
            *re,
            embed_returns_unit(re.name@, all_decls@, typed),
            old(buf).level(),
        ),
        final(buf).level() == old(buf).level(),
{
    let ghost l = buf.level();
    buf.blank();
    let mut head = String::from_str("def self.");
    head.append(value_ident(&re.name).as_str());
    buf.push_line(head.as_str());
    buf.indent();
    let returns_unit = ruby_embed_returns_unit(re.name.as_str(), all_decls, typed);
    let mut body = String::from_str("Sapphire::Runtime::Ruby.prim_embed do\n");
    let snippet = format_snippet(re.source.as_str());
    let snippet_chars = chars_of(snippet.as_str());
    let lines = split_lines(&snippet_chars);
    let ghost ls = char_vec_views(lines@);
    let ghost start = body@;
    let mut i: usize = 0;
    assert(ls.take(0) =~= Seq::<Seq<char>>::empty());
    while i < lines.len()
        invariant
            i <= lines@.len(),
            ls == char_vec_views(lines@),
            body@ == start + block_lines(ls.take(i as int)),
        decreases lines.len() - i,
    {
        body.append("            ");
        let line = &lines[i];
        let mut q: usize = 0;
        let ghost before = body@;
        while q < line.len()
            invariant
                q <= line@.len(),
                body@ == before + line@.take(q as int),
            decreases line.len() - q,
        {
            body.push(line[q]);
            assert(body@ =~= before + line@.take(q + 1));
            q = q + 1;
        }
        body.push('\n');
        proof {
            assert(line@.take(q as int) =~= line@);
            assert(ls.take(i + 1).drop_last() =~= ls.take(i as int));
            assert(ls.take(i + 1).last() == line@);
            reveal_strlit("            ");
            assert(body@ =~= start + block_lines(ls.take(i + 1)));
        }
        i = i + 1;
    }
    assert(ls.take(i as int) =~= ls);
    if returns_unit {
        body.append("            {}\n");
    }
    body.append("          end");
    proof {
        assert(body@ =~= embed_block(ls, returns_unit));
    }
    let ghost names = param_names(re.params@);
    let mut lam = body;
    let mut k: usize = re.params.len();
    assert(names.skip(k as int) =~= Seq::<Seq<char>>::empty());
    while k > 0
        invariant
            k <= re.params@.len(),
            names == param_names(re.params@),
            lam@ == wrap_params(embed_block(ls, returns_unit), names.skip(k as int)),
        decreases k,
    {
        let mut next = String::from_str("->(");
        next.append(re.params[k - 1].name.as_str());
        next.append(") {\n          ");
        next.append(lam.as_str());
        next.append("\n        }");
        proof {
            assert(names.skip(k - 1).drop_first() =~= names.skip(k as int));
            assert(names.skip(k - 1)[0] == re.params@[k - 1].name@);
        }
        lam = next;
        k = k - 1;
    }
    assert(names.skip(0) =~= names);
    buf.push_line(lam.as_str());
    buf.dedent();
    buf.push_line("end");
    proof {
        assert(buf.text() =~= old(buf).text() + ruby_embed_text(*re, returns_unit, l));
    }
}

/// The clauses of one name gathered into the single method they are
/// emitted as, with the name's signature when it has one.
#[derive(Debug)]
pub struct Binding<'a> {
    pub name: String,
    pub signature: Option<&'a AstScheme>,
    pub clauses: Vec<&'a ValueClause>,
}

/// A binding by its view: the name's text, its signature, its clauses.
pub type BindingView = (Seq<char>, Option<AstScheme>, Seq<ValueClause>);

/// A binding's view.
pub open spec fn binding_view(b: Binding) -> BindingView {
    (
        b.name@,
        match b.signature {
            Some(s) => Some(*s),
            None => None,
        },
        b.clauses@.map_values(|c: &ValueClause| *c),
    )
}

/// The views of a sequence of bindings.
pub open spec fn binding_views(bs: Seq<Binding>) -> Seq<BindingView> {
    bs.map_values(|b: Binding| binding_view(b))
}

/// The position of the group of `name`, the last one of that name.
pub open spec fn find_group(g: Seq<BindingView>, name: Seq<char>) -> Option<int>
    decreases g.len(),
{
    if g.len() == 0 {
        None
    } else if g.last().0 == name {
        Some(g.len() - 1)
    } else {
        find_group(g.drop_last(), name)
    }
}

/// A group found by name lies within the groups and has that name.
proof fn lemma_find_group(g: Seq<BindingView>, name: Seq<char>)
    ensures
        find_group(g, name) matches Some(i) ==> 0 <= i < g.len() && g[i].0 == name,
    decreases g.len(),
{
    if g.len() > 0 && g.last().0 != name {
        lemma_find_group(g.drop_last(), name);
    }
}

/// The groups after one more declaration: a signature sets its name's
/// signature and a clause joins its name's clauses, either starting a
/// new group for a name not met before; other declarations change
/// nothing.
pub open spec fn group_step(g: Seq<BindingView>, d: Decl) -> Seq<BindingView> {
    match d {
        Decl::Signature { name, scheme, .. } => match find_group(g, name@) {
            Some(i) => g.update(i, (g[i].0, Some(scheme), g[i].2)),
            None => g.push((name@, Some(scheme), Seq::empty())),
        },
        Decl::Value(c) => match find_group(g, c.name@) {
            Some(i) => g.update(i, (g[i].0, g[i].1, g[i].2.push(c))),
            None => g.push((c.name@, None, seq![c])),
        },
        _ => g,
    }
}

/// The groups of a sequence of declarations, in the order their names
/// first occur.
pub open spec fn groups(decls: Seq<Decl>) -> Seq<BindingView>
    decreases decls.len(),
{
    if decls.len() == 0 {
        Seq::empty()
    } else {
        group_step(groups(decls.drop_last()), decls.last())
    }
}

/// The groups that have at least one clause, in order.
pub open spec fn with_clauses(g: Seq<BindingView>) -> Seq<BindingView>
    decreases g.len(),
{
    if g.len() == 0 {
        Seq::empty()
    } else {
        with_clauses(g.drop_last()) + if g.last().2.len() > 0 {
            seq![g.last()]
        } else {
            Seq::empty()
        }
    }
}

/// The position of `name` among the bindings gathered so far.
fn binding_index(out: &Vec<Binding>, name: &String) -> (r: Option<usize>)
    ensures
        r matches Some(i) ==> find_group(binding_views(out@), name@) == Some(i as int) && i < out@.len(),
        r is None ==> find_group(binding_views(out@), name@) is None,
{
    proof {
        lemma_find_group(binding_views(out@), name@);
    }
    let ghost g = binding_views(out@);
    let mut k: usize = out.len();
    assert(g.take(k as int) =~= g);
    while k > 0
        invariant
            k <= out@.len(),
            g == binding_views(out@),
            find_group(g, name@) == find_group(g.take(k as int), name@),
        decreases k,
    {
        assert(g.take(k as int).last() == binding_view(out@[k - 1]));
        if out[k - 1].name.eq(name) {
            return Some(k - 1);
        }
        assert(g.take(k as int).drop_last() =~= g.take(k - 1));
        k = k - 1;
    }
    None
}

/// Gather the signatures and clauses of the declarations by name, in
/// the order names first occur, and keep the names that have clauses.
pub fn group_value_clauses<'a>(decls: &'a [Decl]) -> (r: Vec<Binding<'a>>)
    ensures
        binding_views(r@) == with_clauses(groups(decls@)),
{
    let mut out: Vec<Binding<'a>> = Vec::new();
    let mut i: usize = 0;
    assert(decls@.take(0) =~= Seq::<Decl>::empty());
    assert(binding_views(out@) =~= groups(decls@.take(0)));
    while i < decls.len()
        invariant
            i <= decls@.len(),
            binding_views(out@) == groups(decls@.take(i as int)),
        decreases decls.len() - i,
    {
        let ghost g = binding_views(out@);
        assert(decls@.take(i + 1).drop_last() =~= decls@.take(i as int));
        assert(decls@.take(i + 1).last() == decls@[i as int]);
        match &decls[i] {
            Decl::Signature { name, scheme, .. } => {
                match binding_index(&out, name) {
                    Some(idx) => {
                        out[idx].signature = Some(scheme);
                        assert(binding_views(out@) =~= g.update(
                            idx as int,
                            (g[idx as int].0, Some(*scheme), g[idx as int].2),
                        ));
                    },
                    None => {
                        let cs: Vec<&'a ValueClause> = Vec::new();
                        assert(cs@.map_values(|c: &ValueClause| *c) =~= Seq::<ValueClause>::empty());
                        out.push(Binding { name: name.clone(), signature: Some(scheme), clauses: cs });
                        assert(binding_views(out@) =~= g.push((name@, Some(*scheme), Seq::empty())));
                    },
                }
            },
            Decl::Value(clause) => {
                match binding_index(&out, &clause.name) {
                    Some(idx) => {
                        out[idx].clauses.push(clause);
                        assert(binding_views(out@)[idx as int].2 =~= g[idx as int].2.push(*clause));
                        assert(binding_views(out@) =~= g.update(
                            idx as int,
                            (g[idx as int].0, g[idx as int].1, g[idx as int].2.push(*clause)),
                        ));
                    },
                    None => {
                        let mut cs: Vec<&'a ValueClause> = Vec::new();
                        cs.push(clause);
                        out.push(Binding { name: clause.name.clone(), signature: None, clauses: cs });
                        assert(cs@.map_values(|c: &ValueClause| *c) =~= seq![*clause]);
                        assert(binding_views(out@) =~= g.push((clause.name@, None, seq![*clause])));
                    },
                }
            },
            _ => {},
        }
        i = i + 1;
    }
    assert(decls@.take(i as int) =~= decls@);
    let ghost all = binding_views(out@);
    let n = out.len();
    assert(all.len() == n);
    let mut kept: Vec<Binding<'a>> = Vec::new();
    let mut j: usize = 0;
    assert(all.skip(0) =~= all);
    assert(all.take(0) =~= Seq::<BindingView>::empty());
    while out.len() > 0
        invariant
            j + out@.len() == all.len(),
            all.len() == n,
            binding_views(out@) == all.skip(j as int),
            binding_views(kept@) == with_clauses(all.take(j as int)),
        decreases out.len(),
    {
        let ghost before = out@;
        let b = out.remove(0);
        proof {
            assert(binding_views(before)[0] == binding_view(before[0]));
            assert(all.skip(j as int)[0] == all[j as int]);
            assert(binding_view(b) == all[j as int]);
            assert(out@ =~= before.subrange(1, before.len() as int));
            assert(binding_views(out@) =~= binding_views(before).subrange(1, before.len() as int));
            assert(binding_views(out@) =~= all.skip(j + 1));
            assert(all.take(j + 1).drop_last() =~= all.take(j as int));
            assert(all.take(j + 1).last() == all[j as int]);
            assert(b.clauses@.len() == all[j as int].2.len());
        }
        let ghost kept_before = binding_views(kept@);
        if b.clauses.len() > 0 {
            kept.push(b);
            assert(binding_views(kept@) =~= kept_before + seq![all[j as int]]);
        } else {
            assert(kept_before + Seq::<BindingView>::empty() =~= kept_before);
        }
        j = j + 1;
    }
    assert(all.take(j as int) =~= all);
    kept
}

} // verus!
