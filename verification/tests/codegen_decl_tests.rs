use sapphire_compiler::ast::{Decl, Pattern, PatternField};
use sapphire_compiler::codegen::decl::{
    collect_pattern_binders, format_snippet, group_value_clauses, has_ruby_main, head_con_of_scheme_ast,
    render_data_decl, render_ruby_embed, render_run_main, ruby_embed_returns_unit, typed_return_head,
};
use sapphire_compiler::codegen::emit::Buf;
use sapphire_compiler::codegen::module_rb_path;
use sapphire_compiler::parser::parse;
use sapphire_compiler::span::Span;
use sapphire_compiler::typeck::ty::{Kind, Scheme, Ty};
use sapphire_compiler::typeck::TypedModule;

fn sp() -> Span {
    Span::new(0, 0)
}

fn var(n: &str) -> Pattern {
    Pattern::Var { name: n.to_string(), span: sp() }
}

fn con_ty(n: &str) -> Ty {
    Ty::Con { name: n.to_string(), kind: Kind::Star }
}

fn ruby_unit_ty() -> Ty {
    Ty::App(
        Box::new(Ty::Con { name: "Ruby".to_string(), kind: Kind::Arrow(Box::new(Kind::Star), Box::new(Kind::Star)) }),
        Box::new(Ty::Record(vec![])),
    )
}

fn typed_with(name: &str, body: Ty) -> TypedModule {
    TypedModule { id: "Main".to_string(), schemes: vec![(name.to_string(), Scheme::mono(body))] }
}

#[test]
fn binders_come_left_to_right_with_as_names_first() {
    let p = Pattern::As {
        name: "whole".into(),
        inner: Box::new(Pattern::Con {
            module: None,
            name: "Just".into(),
            args: vec![Pattern::Cons { head: Box::new(var("h")), tail: Box::new(var("t")), span: sp() }],
            span: sp(),
        }),
        span: sp(),
    };
    assert_eq!(collect_pattern_binders(&p), vec!["whole", "h", "t"]);
    let rec = Pattern::Record {
        fields: vec![PatternField("x".into(), var("a")), PatternField("y".into(), Pattern::Wildcard(sp()))],
        span: sp(),
    };
    let list = Pattern::List { items: vec![rec, var("z")], span: sp() };
    assert_eq!(collect_pattern_binders(&list), vec!["a", "z"]);
    assert!(collect_pattern_binders(&Pattern::Wildcard(sp())).is_empty());
}

#[test]
fn clauses_group_by_name_in_first_occurrence_order() {
    let m = parse("f : Int -> Int\nf 0 = 1\nf n = n\ng = 2\nh : Int\n").unwrap();
    let groups = group_value_clauses(&m.decls);
    assert_eq!(groups.len(), 2);
    assert_eq!(groups[0].name, "f");
    assert!(groups[0].signature.is_some());
    assert_eq!(groups[0].clauses.len(), 2);
    assert_eq!(groups[1].name, "g");
    assert!(groups[1].signature.is_none());
    assert_eq!(groups[1].clauses.len(), 1);
}

#[test]
fn signature_after_clauses_joins_their_group() {
    let m = parse("g = 2\ng : Int\n").unwrap();
    let groups = group_value_clauses(&m.decls);
    assert_eq!(groups.len(), 1);
    assert!(groups[0].signature.is_some());
}

#[test]
fn data_declarations_install_their_constructors() {
    let m = parse("data Shape = Circle Int | Rect Int Int\n").unwrap();
    let mut buf = Buf::new();
    buf.indent();
    match &m.decls[0] {
        Decl::Data(d) => render_data_decl(d, &mut buf),
        _ => panic!("expected a data declaration"),
    }
    assert_eq!(
        buf.into_string(),
        "\n  Sapphire::Runtime::ADT.define_variants(self, [[:Circle, 1], [:Rect, 2]])\n"
    );
}

#[test]
fn prelude_data_types_are_not_redefined() {
    let m = parse("data Maybe a = Nothing | Just a\n").unwrap();
    let mut buf = Buf::new();
    match &m.decls[0] {
        Decl::Data(d) => render_data_decl(d, &mut buf),
        _ => panic!("expected a data declaration"),
    }
    assert_eq!(buf.into_string(), "");
}

#[test]
fn run_main_helper_reports_failures_and_exit_status() {
    let mut buf = Buf::new();
    render_run_main(&mut buf);
    let expected = "# Entry helper \u{2014} `sapphire run` dispatches here.\n\
def self.run_main\n\
\x20 result = Sapphire::Prelude.run_action(main)\n\
\x20 case result[:tag]\n\
\x20 when :Ok\n\
\x20   0\n\
\x20 when :Err\n\
\x20   err = result[:values][0]\n\
\x20   klass = err[:values][0]\n\
\x20   msg   = err[:values][1]\n\
\x20   bt    = err[:values][2]\n\
\x20   warn \"[sapphire run] #{klass}: #{msg}\"\n\
\x20   bt.each { |line| warn \"  #{line}\" }\n\
\x20   1\n\
\x20 end\n\
end\n";
    assert_eq!(buf.into_string(), expected);
}

#[test]
fn snippets_lose_outer_line_breaks_and_common_indentation() {
    assert_eq!(format_snippet("\n    puts 1\n      puts 2\n\n"), "puts 1\n  puts 2");
    assert_eq!(format_snippet("\n  a\n\n  b\n"), "a\n\nb");
    assert_eq!(format_snippet("  a\r\n  b"), "a\nb");
    assert_eq!(format_snippet("x"), "x");
    assert_eq!(format_snippet(""), "");
    assert_eq!(format_snippet("\n\r\n"), "");
}

#[test]
fn snippet_indentation_counts_bytes_of_whitespace() {
    // A tab is one byte, like a space.
    assert_eq!(format_snippet("\tx\n\t\ty"), "x\n\ty");
    // A blank line shorter than the indentation stays as it is.
    assert_eq!(format_snippet("    a\n \n    b"), "a\n \nb");
}

#[test]
fn ruby_embed_becomes_curried_lambdas_around_the_snippet() {
    let m = parse("greet : String -> Ruby {}\ngreet name := \"puts name\"\n").unwrap();
    let re = m
        .decls
        .iter()
        .find_map(|d| match d {
            Decl::RubyEmbed(r) => Some(r),
            _ => None,
        })
        .unwrap();
    let mut buf = Buf::new();
    render_ruby_embed(re, &m.decls, None, &mut buf);
    let expected = "\ndef self.greet\n  ->(name) {\n          Sapphire::Runtime::Ruby.prim_embed do\n            puts name\n            {}\n          end\n        }\nend\n";
    assert_eq!(buf.into_string(), expected);
}

#[test]
fn ruby_embed_with_a_value_result_has_no_trailing_hash() {
    let m = parse("two : Ruby Int\ntwo := \"1 + 1\"\n").unwrap();
    let re = m
        .decls
        .iter()
        .find_map(|d| match d {
            Decl::RubyEmbed(r) => Some(r),
            _ => None,
        })
        .unwrap();
    let mut buf = Buf::new();
    render_ruby_embed(re, &m.decls, None, &mut buf);
    let expected = "\ndef self.two\n  Sapphire::Runtime::Ruby.prim_embed do\n            1 + 1\n          end\nend\n";
    assert_eq!(buf.into_string(), expected);
}

#[test]
fn unit_result_is_read_from_signature_then_from_schemes() {
    let m = parse("say : String -> Ruby {}\nsay s := \"puts s\"\n").unwrap();
    assert!(ruby_embed_returns_unit("say", &m.decls, None));
    assert!(!ruby_embed_returns_unit("other", &m.decls, None));
    let typed = typed_with("other", Ty::Fun(Box::new(con_ty("String")), Box::new(ruby_unit_ty())));
    assert!(ruby_embed_returns_unit("other", &m.decls, Some(&typed)));
    let typed_int = typed_with("other", con_ty("Int"));
    assert!(!ruby_embed_returns_unit("other", &m.decls, Some(&typed_int)));
}

#[test]
fn ruby_main_is_found_by_signature_or_scheme() {
    let with_sig = parse("main : Ruby {}\nmain = act\n").unwrap();
    assert!(has_ruby_main(&with_sig, None));
    let int_main = parse("main : Int\nmain = 1\n").unwrap();
    assert!(!has_ruby_main(&int_main, None));
    let no_sig = parse("main = act\n").unwrap();
    assert!(!has_ruby_main(&no_sig, None));
    let typed = typed_with("main", ruby_unit_ty());
    assert!(has_ruby_main(&no_sig, Some(&typed)));
}

#[test]
fn return_heads_peel_arrows() {
    let m = parse("f : Int -> Maybe Int\nf x = Nothing\n").unwrap();
    match &m.decls[0] {
        Decl::Signature { scheme, .. } => {
            assert_eq!(head_con_of_scheme_ast(&scheme.body), Some("Maybe".to_string()));
        },
        _ => panic!("expected a signature"),
    }
    let maybe_int = Ty::App(Box::new(con_ty("Maybe")), Box::new(con_ty("Int")));
    let typed = typed_with("f", Ty::Fun(Box::new(con_ty("Int")), Box::new(maybe_int)));
    assert_eq!(typed_return_head("f", Some(&typed)).map(|s| s.as_str()), Some("Maybe"));
    assert_eq!(typed_return_head("g", Some(&typed)), None);
    assert_eq!(typed_return_head("f", None), None);
}

#[test]
fn ruby_load_path_of_a_dotted_module() {
    assert_eq!(module_rb_path("Data.ListUtil"), "sapphire/data/list_util");
    assert_eq!(module_rb_path("Main"), "sapphire/main");
}
