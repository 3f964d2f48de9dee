use sapphire_compiler::analyze::analyze;
use sapphire_compiler::error::CompileErrorKind;

const GOOD: &str = "\
module M (x) where

x : Int
x = 1
";

#[test]
fn analyze_ok_produces_module() {
    let result = analyze(GOOD);
    assert!(result.is_ok(), "errors: {:?}", result.errors);
    assert!(result.module.is_some());
}

#[test]
fn analyze_reports_lex_error() {
    let src = "module M where\n\rx = 1\n";
    let result = analyze(src);
    assert!(!result.is_ok());
    assert!(result.module.is_none());
    assert_eq!(result.errors.len(), 1);
    assert!(matches!(result.errors[0].kind, CompileErrorKind::Lex(_)));
}

#[test]
fn analyze_reports_parse_error() {
    let src = "module M where\n\ndata T\n";
    let result = analyze(src);
    assert!(!result.is_ok());
    assert!(result.module.is_none());
    assert_eq!(result.errors.len(), 1);
    assert!(matches!(result.errors[0].kind, CompileErrorKind::Parse(_)));
}
