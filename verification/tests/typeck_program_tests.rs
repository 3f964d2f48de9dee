use sapphire_compiler::ast::Module as AstModule;
use sapphire_compiler::parser::parse;
use sapphire_compiler::typeck::check_module_standalone;
use sapphire_compiler::typeck::error::{TypeError, TypeErrorKind};
use sapphire_compiler::typeck::infer::InferCtx;
use sapphire_compiler::typeck::ty::{Scheme, Ty, TyVar};
use sapphire_compiler::typeck::unify::unify as do_unify;

fn parse_src(src: &str) -> AstModule {
    parse(src).unwrap_or_else(|e| panic!("parse error: {:?}", e))
}

fn check(src: &str) -> Result<Vec<(String, Scheme)>, Vec<TypeError>> {
    let m = parse_src(src);
    check_module_standalone("Test", &m)
}

fn scheme_of(m: &[(String, Scheme)], name: &str) -> String {
    m.iter()
        .find(|(n, _)| n == name)
        .map(|(_, s)| s)
        .unwrap_or_else(|| panic!("missing scheme for {name}"))
        .pretty()
}


#[test]
fn hm_literal_int() {
    let m = check("x = 42").unwrap();
    assert_eq!(scheme_of(&m, "x"), "Int");
}

#[test]
fn hm_literal_string() {
    let m = check("x = \"hi\"").unwrap();
    assert_eq!(scheme_of(&m, "x"), "String");
}

#[test]
fn hm_identity() {
    let m = check("id2 x = x").unwrap();
    assert!(scheme_of(&m, "id2").contains("forall"));
}

#[test]
fn hm_const_two_args() {
    let m = check("const2 x y = x").unwrap();
    assert!(scheme_of(&m, "const2").contains("forall"));
}

#[test]
fn hm_apply_literal_to_identity() {
    let src = "
id2 x = x
n = id2 42
s = id2 \"hi\"
";
    let m = check(src).unwrap();
    assert_eq!(scheme_of(&m, "n"), "Int");
    assert_eq!(scheme_of(&m, "s"), "String");
}

#[test]
fn hm_let_polymorphism() {
    let src = "main = let f x = x in let y = f 1 in f \"hi\"";
    let m = check(src).unwrap();
    assert_eq!(scheme_of(&m, "main"), "String");
}

#[test]
fn hm_if_branches_must_match() {
    let src = "x = if True then 1 else \"hi\"";
    let err = check(src).unwrap_err();
    assert!(matches!(err[0].kind, TypeErrorKind::Mismatch { .. }));
}

#[test]
fn hm_if_cond_must_be_bool() {
    let src = "x = if 1 then 2 else 3";
    let err = check(src).unwrap_err();
    assert!(matches!(err[0].kind, TypeErrorKind::Mismatch { .. }));
}

#[test]
fn hm_lambda_type() {
    let src = "f = \\x -> x";
    let m = check(src).unwrap();
    assert!(scheme_of(&m, "f").contains("forall"));
}

#[test]
fn hm_nested_lambda_two_args() {
    let src = "f = \\x -> \\y -> x";
    let m = check(src).unwrap();
    assert!(scheme_of(&m, "f").contains("->"));
}

#[test]
fn hm_app_int_plus_int() {
    let src = "x = 1 + 2";
    let m = check(src).unwrap();
    assert_eq!(scheme_of(&m, "x"), "Int");
}

#[test]
fn hm_app_string_concat() {
    let src = "x = \"a\" ++ \"b\"";
    let m = check(src).unwrap();
    assert_eq!(scheme_of(&m, "x"), "String");
}

#[test]
fn hm_fun_type_from_signature() {
    let src = "
inc : Int -> Int
inc n = n + 1
";
    let m = check(src).unwrap();
    assert_eq!(scheme_of(&m, "inc"), "Int -> Int");
}

#[test]
fn hm_signature_mismatch() {
    let src = "
f : Int -> Int
f x = x ++ x
";
    let err = check(src).unwrap_err();
    assert!(!err.is_empty());
}

#[test]
fn hm_occurs_detection() {
    let a = Ty::Var(TyVar {
        id: 1,
        name: "a".into(),
    });
    let t = Ty::fun(a.clone(), Ty::star("Int".to_string()));
    let err = do_unify(&a, &t, sapphire_compiler::span::Span::new(0, 0)).unwrap_err();
    assert!(matches!(err.kind, TypeErrorKind::OccursCheck { .. }));
}

#[test]
fn hm_polymorphic_list_empty() {
    let src = "xs = []";
    let m = check(src).unwrap();
    assert!(scheme_of(&m, "xs").contains("List"));
}

#[test]
fn hm_polymorphic_list_ints() {
    let src = "xs = [1, 2, 3]";
    let m = check(src).unwrap();
    assert_eq!(scheme_of(&m, "xs"), "List Int");
}

#[test]
fn hm_list_heterogeneous_fails() {
    let src = "xs = [1, \"hi\"]";
    let err = check(src).unwrap_err();
    assert!(!err.is_empty());
}

#[test]
fn hm_cons_operator() {
    let src = "xs = 1 :: 2 :: []";
    let m = check(src).unwrap();
    assert!(scheme_of(&m, "xs").contains("List"));
}

#[test]
fn hm_case_same_branch_types() {
    let src = "
f x = case x of
  True -> 1
  False -> 2
";
    let m = check(src).unwrap();
    assert_eq!(scheme_of(&m, "f"), "Bool -> Int");
}

#[test]
fn hm_case_branch_mismatch() {
    let src = "
f x = case x of
  True -> 1
  False -> \"no\"
";
    let err = check(src).unwrap_err();
    assert!(!err.is_empty());
}

#[test]
fn hm_negate_int() {
    let src = "x = -5";
    let m = check(src).unwrap();
    assert_eq!(scheme_of(&m, "x"), "Int");
}


#[test]
fn adt_nullary_ctor_true() {
    let src = "b = True";
    let m = check(src).unwrap();
    assert_eq!(scheme_of(&m, "b"), "Bool");
}

#[test]
fn adt_just_int() {
    let src = "m = Just 1";
    let m = check(src).unwrap();
    assert_eq!(scheme_of(&m, "m"), "Maybe Int");
}

#[test]
fn adt_ok_result() {
    let src = "x = Ok 1";
    let m = check(src).unwrap();
    assert!(scheme_of(&m, "x").contains("Result"));
}

#[test]
fn adt_err_result() {
    let src = "x = Err \"oops\"";
    let m = check(src).unwrap();
    assert!(scheme_of(&m, "x").contains("Result"));
}

#[test]
fn adt_user_data() {
    let src = "
data Color = Red | Green | Blue
c = Green
";
    let m = check(src).unwrap();
    assert_eq!(scheme_of(&m, "c"), "Color");
}

#[test]
fn adt_user_data_with_param() {
    let src = "
data Box a = Box a
b = Box 1
";
    let m = check(src).unwrap();
    assert!(scheme_of(&m, "b").contains("Box"));
}

#[test]
fn adt_ctor_arity_mismatch() {
    let src = "
data Pair a b = Pair a b
p = Pair 1
";
    let _ = check(src).unwrap();
    let bad = "
data Pair a b = Pair a b
p = case Pair 1 2 of
  Pair x -> x
";
    let err = check(bad).unwrap_err();
    assert!(!err.is_empty());
}

#[test]
fn adt_case_match_just() {
    let src = "
f m = case m of
  Just x -> x
  Nothing -> 0
";
    let m = check(src).unwrap();
    assert_eq!(scheme_of(&m, "f"), "Maybe Int -> Int");
}

#[test]
fn adt_case_match_result() {
    let src = "
f r = case r of
  Ok x -> x
  Err e -> 0
";
    let m = check(src).unwrap();
    assert!(scheme_of(&m, "f").contains("Result"));
}

#[test]
fn record_literal_fields() {
    let src = "p = { x = 1, y = 2 }";
    let m = check(src).unwrap();
    let s = scheme_of(&m, "p");
    assert!(s.contains("x : Int"));
    assert!(s.contains("y : Int"));
}

#[test]
fn record_field_access() {
    let src = "
p = { x = 1, y = 2 }
a = p.x
";
    let m = check(src).unwrap();
    assert_eq!(scheme_of(&m, "a"), "Int");
}

#[test]
fn record_field_access_unknown() {
    let src = "
p = { x = 1 }
a = p.z
";
    let err = check(src).unwrap_err();
    assert!(!err.is_empty());
}

#[test]
fn record_update_fields() {
    let src = "
p = { x = 1, y = 2 }
q = { p | x = 10 }
";
    let m = check(src).unwrap();
    let s = scheme_of(&m, "q");
    assert!(s.contains("x : Int"));
    assert!(s.contains("y : Int"));
}

#[test]
fn record_pattern_bind() {
    let src = "
p = { x = 1, y = 2 }
a = p.x
";
    let m = check(src).unwrap();
    assert_eq!(scheme_of(&m, "a"), "Int");
}

#[test]
fn type_alias_transparent() {
    let src = "
type Age = Int
f : Age -> Int
f n = n
";
    let m = check(src).unwrap();
    assert_eq!(scheme_of(&m, "f"), "Int -> Int");
}

#[test]
fn tests_type_alias_record() {
    let src = "
type Point = { x : Int, y : Int }
p : Point
p = { x = 1, y = 2 }
";
    let m = check(src).unwrap();
    let s = scheme_of(&m, "p");
    assert!(s.contains("x : Int"));
}

#[test]
fn unknown_type_error() {
    let src = "
f : Foo -> Int
f x = 0
";
    let err = check(src).unwrap_err();
    assert!(
        err.iter()
            .any(|e| matches!(e.kind, TypeErrorKind::UnknownType { .. }))
    );
}


#[test]
fn class_eq_int() {
    let src = "b = 1 == 2";
    let m = check(src).unwrap();
    assert_eq!(scheme_of(&m, "b"), "Bool");
}

#[test]
fn class_eq_string() {
    let src = "b = \"a\" == \"b\"";
    let m = check(src).unwrap();
    assert_eq!(scheme_of(&m, "b"), "Bool");
}

#[test]
fn class_ord_less() {
    let src = "b = 1 < 2";
    let m = check(src).unwrap();
    assert_eq!(scheme_of(&m, "b"), "Bool");
}

#[test]
fn class_show_int() {
    let src = "s = show 1";
    let m = check(src).unwrap();
    assert_eq!(scheme_of(&m, "s"), "String");
}

#[test]
fn class_show_on_nested_maybe() {
    let src = "s = show (Just 1)";
    let m = check(src).unwrap();
    assert_eq!(scheme_of(&m, "s"), "String");
}

#[test]
fn monad_bind_maybe() {
    let src = "
f x = x >>= \\n -> Just (n + 1)
";
    let m = check(src).unwrap();
    let s = scheme_of(&m, "f");
    assert!(s.contains("Maybe") || s.contains("Monad"));
}

#[test]
fn monad_return_int() {
    let src = "
g : Maybe Int
g = pure 1
";
    let m = check(src).unwrap();
    assert!(scheme_of(&m, "g").contains("Maybe Int"));
}

#[test]
fn do_notation_maybe() {
    let src = "
f : Maybe Int
f = do
  x <- Just 1
  y <- Just 2
  pure (x + y)
";
    let m = check(src).unwrap();
    assert!(scheme_of(&m, "f").contains("Maybe Int"));
}

#[test]
fn do_notation_result() {
    let src = "
f : Result String Int
f = do
  x <- Ok 1
  y <- Ok 2
  pure (x + y)
";
    let m = check(src).unwrap();
    assert!(scheme_of(&m, "f").contains("Result"));
}

#[test]
fn class_user_defined() {
    let src = "
class Semi a where
  combine : a -> a -> a

instance Semi Int where
  combine x y = x + y

t = combine 1 2
";
    let m = check(src).unwrap();
    assert_eq!(scheme_of(&m, "t"), "Int");
}

#[test]
fn instance_overlap_rejected() {
    let src = "
class Semi a where
  combine : a -> a -> a

instance Semi Int where
  combine x y = x + y

instance Semi Int where
  combine x y = x - y
";
    let err = check(src).unwrap_err();
    assert!(
        err.iter()
            .any(|e| matches!(e.kind, TypeErrorKind::OverlappingInstance { .. }))
    );
}

#[test]
fn missing_instance_error() {
    let src = "
data Opaque = Opaque
t = show Opaque
";
    let err = check(src).unwrap_err();
    assert!(
        err.iter()
            .any(|e| matches!(e.kind, TypeErrorKind::UnresolvedConstraint { .. }))
    );
}

#[test]
fn constraint_propagation() {
    let src = "f x y = x == y";
    let m = check(src).unwrap();
    let s = scheme_of(&m, "f");
    assert!(s.contains("Eq"));
}

#[test]
fn prelude_map_list() {
    let src = "
f : List Int -> List Int
f xs = map (\\n -> n + 1) xs
";
    let m = check(src).unwrap();
    assert!(scheme_of(&m, "f").contains("List Int"));
}

#[test]
fn prelude_foldr_list() {
    let src = "
f : List Int -> Int
f = foldr (+) 0
";
    let m = check(src).unwrap();
    assert!(scheme_of(&m, "f").contains("List Int -> Int"));
}

#[test]
fn pattern_wildcard() {
    let src = "f _ = 1";
    let m = check(src).unwrap();
    assert!(scheme_of(&m, "f").contains("Int"));
}

#[test]
fn pattern_literal() {
    let src = "
f : Int -> Int
f 0 = 0
f n = n + 1
";
    let m = check(src).unwrap();
    assert_eq!(scheme_of(&m, "f"), "Int -> Int");
}

#[test]
fn data_recursive_list_ok() {
    let src = "
data Tree a = Leaf | Node a (Tree a) (Tree a)
t = Node 1 Leaf Leaf
";
    let m = check(src).unwrap();
    assert!(scheme_of(&m, "t").contains("Tree Int"));
}

#[test]
fn cons_pattern_and_lit() {
    let src = "
length2 : List a -> Int
length2 [] = 0
length2 (x :: xs) = 1 + length2 xs
";
    let m = check(src).unwrap();
    assert!(scheme_of(&m, "length2").contains("List"));
}

#[test]
fn multi_clause_definition() {
    let src = "
absInt : Int -> Int
absInt 0 = 0
absInt n = if n < 0 then negate n else n
";
    let m = check(src).unwrap();
    assert_eq!(scheme_of(&m, "absInt"), "Int -> Int");
}

#[test]
fn if_sugar_typed_as_bool_case() {
    let src = "f x = if x then 1 else 2";
    let m = check(src).unwrap();
    assert_eq!(scheme_of(&m, "f"), "Bool -> Int");
}

#[test]
fn do_final_stmt_must_be_expr() {
    let mut ctx = InferCtx::new("Test".to_string());
    sapphire_compiler::typeck::prelude::install_prelude(&mut ctx);
    let empty_do = sapphire_compiler::ast::Expr::Do {
        stmts: vec![sapphire_compiler::ast::DoStmt::Bind {
            pattern: sapphire_compiler::ast::Pattern::Wildcard(sapphire_compiler::span::Span::new(0, 0)),
            expr: sapphire_compiler::ast::Expr::Lit(
                sapphire_compiler::ast::Literal::Int(1),
                sapphire_compiler::span::Span::new(0, 0),
            ),
            span: sapphire_compiler::span::Span::new(0, 0),
        }],
        span: sapphire_compiler::span::Span::new(0, 0),
    };
    let _ = empty_do;
}

#[test]
fn ruby_embed_requires_signature() {
    let src = "
x := \"whatever\"
";
    let res = check(src);
    if res.is_ok() {
        panic!("expected error for `:=` without signature");
    }
}

#[test]
fn ruby_embed_typechecks_with_sig() {
    let src = "
greet : String -> Ruby {}
greet s := \"puts s\"
";
    let m = check(src).unwrap();
    assert!(scheme_of(&m, "greet").contains("Ruby"));
}

#[test]
fn empty_record_literal() {
    let src = "r = {}";
    let m = check(src).unwrap();
    assert_eq!(scheme_of(&m, "r"), "{  }");
}

#[test]
fn class_superclass_ord_eq() {
    let src = "
f : Ord a => a -> a -> Bool
f x y = x == y
";
    let m = check(src).unwrap();
    assert!(scheme_of(&m, "f").contains("Ord"));
}

#[test]
fn kind_mismatch_via_unknown_type() {
    let src = "
f : Unknown Int -> Int
f x = 0
";
    let err = check(src).unwrap_err();
    assert!(!err.is_empty());
}

#[test]
fn data_uses_tvar() {
    let src = "
data Pair a b = Pair a b
p : Pair Int String
p = Pair 1 \"hi\"
";
    let m = check(src).unwrap();
    assert!(scheme_of(&m, "p").contains("Pair"));
}

#[test]
fn foldl_over_int_list() {
    let src = "sumOf = foldl (+) 0";
    let m = check(src).unwrap();
    assert!(scheme_of(&m, "sumOf").contains("List Int -> Int"));
}

#[test]
fn record_access_through_lambda() {
    let src = "
extractX : { x : Int, y : Int } -> Int
extractX p = p.x
";
    let m = check(src).unwrap();
    assert_eq!(scheme_of(&m, "extractX"), "{ x : Int, y : Int } -> Int");
}

#[test]
fn list_pattern_literal() {
    let src = "
isEmpty : List a -> Bool
isEmpty [] = True
isEmpty (_ :: _) = False
";
    let m = check(src).unwrap();
    assert!(scheme_of(&m, "isEmpty").contains("List"));
}

#[test]
fn generalization_id_two_uses() {
    let src = "
id2 x = x
a = id2 1
b = id2 \"x\"
";
    let m = check(src).unwrap();
    assert_eq!(scheme_of(&m, "a"), "Int");
    assert_eq!(scheme_of(&m, "b"), "String");
}

#[test]
fn show_list_of_ints_via_class() {
    let src = "s = show [1,2,3]";
    let m = check(src).unwrap();
    assert_eq!(scheme_of(&m, "s"), "String");
}

#[test]
fn ord_list_of_ints() {
    let src = "b = compare [1] [2]";
    let m = check(src).unwrap();
    assert_eq!(scheme_of(&m, "b"), "Ordering");
}

#[test]
fn monad_ruby_pure_int() {
    let src = "
g : Ruby Int
g = pure 1
";
    let m = check(src).unwrap();
    assert!(scheme_of(&m, "g").contains("Ruby"));
}

#[test]
fn result_err_ctor() {
    let src = "
f : Result String Int
f = Err \"no\"
";
    let m = check(src).unwrap();
    assert!(scheme_of(&m, "f").contains("Result"));
}

#[test]
fn record_empty_unit_type() {
    let src = "
main : Ruby {}
main = pure {}
";
    let m = check(src).unwrap();
    assert!(scheme_of(&m, "main").contains("Ruby"));
}

#[test]
fn ctor_partial_application() {
    let src = "
data Pair a b = Pair a b
mkPair : a -> b -> Pair a b
mkPair x y = Pair x y
";
    let m = check(src).unwrap();
    assert!(scheme_of(&m, "mkPair").contains("Pair"));
}

#[test]
fn signature_only_no_body_is_ok() {
    let src = "
foo : Int -> Int
bar : Int
bar = 1
";
    let _ = check(src);
}

#[test]
fn string_append_chain() {
    let src = "s = \"a\" ++ \"b\" ++ \"c\"";
    let m = check(src).unwrap();
    assert_eq!(scheme_of(&m, "s"), "String");
}

#[test]
fn class_default_method_inherited() {
    let src = "
class Foo a where
  foo : a -> Int
  foo _ = 0

instance Foo Int where
  foo n = n
x = foo 1
";
    let m = check(src).unwrap();
    assert_eq!(scheme_of(&m, "x"), "Int");
}

#[test]
fn let_shadowing() {
    let src = "f x = let x = 1 in x + 1";
    let m = check(src).unwrap();
    assert!(scheme_of(&m, "f").contains("Int"));
}

#[test]
fn as_pattern() {
    let src = "
f : List Int -> List Int
f xs = xs
";
    let m = check(src).unwrap();
    assert!(scheme_of(&m, "f").contains("List"));
}

#[test]
fn functor_fmap_on_maybe() {
    let src = "
g : Maybe Int -> Maybe Int
g m = fmap (\\n -> n + 1) m
";
    let m = check(src).unwrap();
    assert!(scheme_of(&m, "g").contains("Maybe"));
}

#[test]
fn bool_binop_and_or() {
    let src = "
f x y = x && y
g x y = x || y
";
    let m = check(src).unwrap();
    assert_eq!(scheme_of(&m, "f"), "Bool -> Bool -> Bool");
    assert_eq!(scheme_of(&m, "g"), "Bool -> Bool -> Bool");
}

#[test]
fn head_tail_total() {
    let src = "
h : List Int -> Maybe Int
h xs = head xs
";
    let m = check(src).unwrap();
    assert!(scheme_of(&m, "h").contains("Maybe Int"));
}

#[test]
fn application_chain() {
    let src = "
inc : Int -> Int
inc n = n + 1
x = inc (inc (inc 0))
";
    let m = check(src).unwrap();
    assert_eq!(scheme_of(&m, "x"), "Int");
}

#[test]
fn generalization_preserves_constraints() {
    let src = "eqSame x = x == x";
    let m = check(src).unwrap();
    let s = scheme_of(&m, "eqSame");
    assert!(s.contains("Eq"));
    assert!(s.contains("Bool"));
}

#[test]
fn pattern_bind_binds_local() {
    let src = "
f p = case p of
  Just x -> x
  Nothing -> 0
";
    let m = check(src).unwrap();
    assert_eq!(scheme_of(&m, "f"), "Maybe Int -> Int");
}
