use sapphire_compiler::layout::resolve;
use sapphire_compiler::lexer::{tokenize, TokenKind};
use sapphire_compiler::parser;
use sapphire_compiler::resolver::{resolve_program, ResolveErrorKind};
use sapphire_compiler::span::Span;
use sapphire_compiler::typeck::infer::InferCtx;
use sapphire_compiler::typeck::prelude::install_prelude;
use sapphire_compiler::typeck::ty::{Ty, TyVar};
use sapphire_compiler::typeck::unify::unify;

#[test]
fn unify_identical_constructors_needs_nothing() {
    let int = Ty::star("Int".to_string());
    let s = unify(&int, &int, Span::new(0, 0)).expect("Int unifies with Int");
    assert_eq!(s.apply(&int), int);
}

#[test]
fn unify_solves_variable_inside_arrow() {
    let a = Ty::Var(TyVar { id: 7, name: "a".to_string() });
    let int = Ty::star("Int".to_string());
    let lhs = Ty::fun(a.clone(), int.clone());
    let rhs = Ty::fun(int.clone(), int.clone());
    let s = unify(&lhs, &rhs, Span::new(0, 0)).expect("unifiable");
    assert_eq!(s.apply(&a), int);
    assert_eq!(s.apply(&lhs), s.apply(&rhs));
}

#[test]
fn unify_reports_constructor_clash() {
    let int = Ty::star("Int".to_string());
    let string = Ty::star("String".to_string());
    assert!(unify(&int, &string, Span::new(3, 4)).is_err());
}

#[test]
fn plain_source_always_lexes() {
    let toks = tokenize("main x y\n  foo (bar) [baz, qux];\nZed\n").expect("plain source lexes");
    assert_eq!(toks.last().map(|t| t.kind.clone()), Some(TokenKind::Eof));
}

#[test]
fn brace_free_stream_lays_out() {
    let toks = tokenize("x = 1\ny = 2\n").unwrap();
    let out = resolve(toks).expect("no explicit braces, so layout succeeds");
    assert_eq!(out.first().map(|t| t.kind.clone()), Some(TokenKind::LBrace));
    assert_eq!(out.last().map(|t| t.kind.clone()), Some(TokenKind::Eof));
}

#[test]
fn unclosed_explicit_brace_is_reported() {
    let toks = tokenize("x = { a = 1\n").unwrap();
    assert!(resolve(toks).is_err());
}

#[test]
fn import_of_missing_module_fails_resolution() {
    let m = parser::parse("module A where\nimport Nowhere\nx = 1\n").unwrap();
    let errs = resolve_program(vec![m]).expect_err("unknown import");
    assert!(errs
        .iter()
        .any(|e| matches!(e.kind, ResolveErrorKind::ImportOfUnknownModule { .. })));
}

#[test]
fn prelude_equality_is_constrained_by_eq() {
    let mut ctx = InferCtx::new("T".to_string());
    install_prelude(&mut ctx);
    let s = ctx.type_env.global("Prelude", "==").expect("== is a prelude global");
    assert_eq!(s.vars.len(), 1);
    assert_eq!(s.vars[0].id, 10000);
    assert_eq!(s.context.len(), 1);
    assert_eq!(s.context[0].class, "Eq");
    let a = Ty::Var(s.vars[0].clone());
    let expected = Ty::fun(a.clone(), Ty::fun(a, Ty::star("Bool".to_string())));
    assert_eq!(s.body, expected);
    let ord = ctx.class_env.class("Ord").expect("Ord is installed");
    assert_eq!(ord.superclasses, vec!["Eq".to_string()]);
}
