use sapphire_compiler::parser::parse;
use sapphire_compiler::resolver::resolve_program;
use sapphire_compiler::typeck::check_program;

#[test]
fn modules_are_checked_after_the_modules_they_import() {
    let a = parse("module A (x) where\nx : Int\nx = 1\n").unwrap();
    let b = parse("module B (y) where\nimport A\ny : Int\ny = x\n").unwrap();
    let c = parse("module C (z) where\nimport B\nz : Int\nz = y\n").unwrap();
    let resolved = resolve_program(vec![c, b, a]).unwrap_or_else(|_| panic!("resolution failed"));
    let typed = check_program(&resolved).unwrap_or_else(|_| panic!("type checking failed"));
    let ids: Vec<&str> = typed.modules.iter().map(|m| m.id.as_str()).collect();
    assert_eq!(ids, vec!["A", "B", "C"]);
}

#[test]
fn a_type_error_in_an_imported_module_is_reported() {
    let a = parse("module A (x) where\nx : Int\nx = \"no\"\n").unwrap();
    let b = parse("module B (y) where\nimport A\ny : Int\ny = x\n").unwrap();
    let resolved = resolve_program(vec![b, a]).unwrap_or_else(|_| panic!("resolution failed"));
    match check_program(&resolved) {
        Ok(_) => panic!("expected a type error"),
        Err(errs) => assert!(!errs.is_empty()),
    }
}

#[test]
fn every_binding_of_a_checked_module_gets_a_scheme() {
    let m = parse("x = 1\nf y = y\nsay : String -> Ruby {}\nsay s := \"puts s\"\n").unwrap();
    let schemes = sapphire_compiler::typeck::check_module_standalone("Test", &m)
        .unwrap_or_else(|_| panic!("type checking failed"));
    let names: Vec<&str> = schemes.iter().map(|(n, _)| n.as_str()).collect();
    assert_eq!(names, vec!["x", "f", "say"]);
}

#[test]
fn a_ruby_binding_without_a_signature_is_an_error() {
    let m = parse("say s := \"puts s\"\n").unwrap();
    assert!(sapphire_compiler::typeck::check_module_standalone("Test", &m).is_err());
}
