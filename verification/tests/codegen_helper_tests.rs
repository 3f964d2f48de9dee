use sapphire_compiler::ast::{Literal, Pattern, PatternField};
use sapphire_compiler::codegen::emit::{escape_ruby_string, value_ident, Buf};
use sapphire_compiler::codegen::pattern::{render_literal, render_pattern};
use sapphire_compiler::codegen::runtime::{binop_inline, is_nullary_prelude_ctor, prelude_value, specialised_pure};
use sapphire_compiler::codegen::{module_output_path, to_snake_case};
use sapphire_compiler::parser::parse;
use sapphire_compiler::span::Span;

fn sp() -> Span {
    Span::new(0, 0)
}

fn var(n: &str) -> Pattern {
    Pattern::Var { name: n.to_string(), span: sp() }
}

fn con(n: &str, args: Vec<Pattern>) -> Pattern {
    Pattern::Con { module: None, name: n.to_string(), args, span: sp() }
}

#[test]
fn escape_covers_quotes_backslashes_controls_and_hash() {
    assert_eq!(escape_ruby_string("a\"b\\c\nd\re\tf#g"), "a\\\"b\\\\c\\nd\\re\\tf\\#g");
    assert_eq!(escape_ruby_string("plain"), "plain");
}

#[test]
fn buf_indents_two_spaces_per_level_and_blank_lines_are_bare() {
    let mut b = Buf::new();
    b.push_line("class M");
    b.indent();
    b.push_line("x = 1");
    b.blank();
    b.dedent();
    b.dedent();
    b.push_line("end");
    assert_eq!(b.into_string(), "class M\n  x = 1\n\nend\n");
}

#[test]
fn value_ident_is_the_name() {
    assert_eq!(value_ident("main"), "main");
}

#[test]
fn runtime_tables_map_prelude_names() {
    assert_eq!(binop_inline("++"), Some("+"));
    assert_eq!(binop_inline("/="), Some("!="));
    assert_eq!(binop_inline("::"), None);
    assert!(prelude_value("map").is_some());
    assert_eq!(prelude_value("nope"), None);
    assert!(is_nullary_prelude_ctor("Nothing"));
    assert!(!is_nullary_prelude_ctor("Just"));
    let _ = specialised_pure(None);
}

#[test]
fn snake_case_inserts_underscores_before_inner_capitals() {
    assert_eq!(to_snake_case("DataList"), "data_list");
    assert_eq!(to_snake_case("HTTPServer"), "h_t_t_p_server");
    assert_eq!(to_snake_case("M"), "m");
    assert_eq!(to_snake_case(""), "");
}

#[test]
fn output_path_follows_module_name() {
    let m = parse("module Data.List where\nx : Int\nx = 1\n").unwrap();
    assert_eq!(module_output_path(&m), "sapphire/data/list.rb");
    let script = parse("x = 1\n").unwrap();
    assert_eq!(module_output_path(&script), "sapphire/main.rb");
}

#[test]
fn patterns_render_as_ruby_case_in_patterns() {
    assert_eq!(render_pattern(&Pattern::Wildcard(sp())), "_");
    assert_eq!(render_pattern(&var("x")), "x");
    assert_eq!(render_pattern(&con("True", vec![])), "true");
    assert_eq!(render_pattern(&con("GT", vec![])), ":gt");
    assert_eq!(render_pattern(&con("Nil", vec![])), "[]");
    assert_eq!(render_pattern(&con("Cons", vec![var("h"), var("t")])), "[h, *t]");
    assert_eq!(render_pattern(&con("Nothing", vec![])), "{ tag: :Nothing, values: [] }");
    assert_eq!(
        render_pattern(&con("Pair", vec![var("a"), Pattern::Wildcard(sp())])),
        "{ tag: :Pair, values: [a, _] }"
    );
    let as_pat = Pattern::As { name: "whole".into(), inner: Box::new(con("Just", vec![var("v")])), span: sp() };
    assert_eq!(render_pattern(&as_pat), "{ tag: :Just, values: [v] } => whole");
    let list = Pattern::List { items: vec![Pattern::Lit(Literal::Int(-3), sp()), var("y")], span: sp() };
    assert_eq!(render_pattern(&list), "[-3, y]");
    let rec = Pattern::Record {
        fields: vec![PatternField("x".into(), var("a")), PatternField("y".into(), Pattern::Wildcard(sp()))],
        span: sp(),
    };
    assert_eq!(render_pattern(&rec), "{ x: a, y: _ }");
    let cons = Pattern::Cons { head: Box::new(var("h")), tail: Box::new(var("rest")), span: sp() };
    assert_eq!(render_pattern(&cons), "[h, *rest]");
}

#[test]
fn literals_render_as_ruby_source() {
    assert_eq!(render_literal(&Literal::Int(42)), "42");
    assert_eq!(render_literal(&Literal::Str("a\"b".into())), "\"a\\\"b\"");
}
