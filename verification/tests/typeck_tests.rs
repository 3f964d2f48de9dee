use sapphire_compiler::span::Span;
use sapphire_compiler::typeck::error::{TypeError, TypeErrorKind};
use sapphire_compiler::typeck::ty::{Constraint, Kind, Scheme, Subst, Ty, TyVar};
use sapphire_compiler::typeck::unify::{occurs_in, unify};

fn v(id: u32, name: &str) -> Ty {
    Ty::Var(TyVar { id, name: name.into() })
}

fn star(name: &str) -> Ty {
    Ty::star(name.to_string())
}

#[test]
fn unify_int_int() {
    let s = unify(&star("Int"), &star("Int"), Span::new(0, 0)).unwrap();
    assert!(s.is_empty());
}

#[test]
fn unify_var_int() {
    let a = v(1, "a");
    let s = unify(&a, &star("Int"), Span::new(0, 0)).unwrap();
    assert_eq!(s.apply(&a), star("Int"));
}

#[test]
fn unify_fun() {
    let a = v(1, "a");
    let b = v(2, "b");
    let t1 = Ty::fun(a.clone(), b.clone());
    let t2 = Ty::fun(star("Int"), star("Bool"));
    let s = unify(&t1, &t2, Span::new(0, 0)).unwrap();
    assert_eq!(s.apply(&a), star("Int"));
    assert_eq!(s.apply(&b), star("Bool"));
}

#[test]
fn unify_app() {
    let a = v(1, "a");
    let t1 = Ty::app(Ty::con("Maybe".to_string(), Kind::arr(Kind::Star, Kind::Star)), a.clone());
    let t2 = Ty::app(Ty::con("Maybe".to_string(), Kind::arr(Kind::Star, Kind::Star)), star("Int"));
    let s = unify(&t1, &t2, Span::new(0, 0)).unwrap();
    assert_eq!(s.apply(&a), star("Int"));
}

#[test]
fn occurs_check_fails() {
    let a = v(1, "a");
    let t = Ty::fun(a.clone(), star("Int"));
    let err = unify(&a, &t, Span::new(0, 0)).unwrap_err();
    assert!(matches!(err.kind, TypeErrorKind::OccursCheck { .. }));
}

#[test]
fn mismatch_distinct_cons() {
    let err = unify(&star("Int"), &star("String"), Span::new(0, 0)).unwrap_err();
    assert!(matches!(err.kind, TypeErrorKind::Mismatch { .. }));
}

#[test]
fn record_unify_same_fields() {
    let r1 = Ty::record(vec![("x".into(), v(1, "a")), ("y".into(), star("Int"))]);
    let r2 = Ty::record(vec![("x".into(), star("String")), ("y".into(), star("Int"))]);
    let s = unify(&r1, &r2, Span::new(0, 0)).unwrap();
    assert_eq!(s.apply(&v(1, "a")), star("String"));
}

#[test]
fn record_mismatch_missing_field() {
    let r1 = Ty::record(vec![("x".into(), star("Int"))]);
    let r2 = Ty::record(vec![("x".into(), star("Int")), ("y".into(), star("Int"))]);
    let err = unify(&r1, &r2, Span::new(0, 0)).unwrap_err();
    assert!(matches!(err.kind, TypeErrorKind::Mismatch { .. }));
}

#[test]
fn unifier_makes_both_sides_equal() {
    // a -> Maybe b  ~  Int -> c
    let maybe = || Ty::con("Maybe".to_string(), Kind::arr(Kind::Star, Kind::Star));
    let t1 = Ty::fun(v(1, "a"), Ty::app(maybe(), v(2, "b")));
    let t2 = Ty::fun(star("Int"), v(3, "c"));
    let s = unify(&t1, &t2, Span::new(4, 9)).unwrap();
    assert_eq!(s.apply(&t1), s.apply(&t2));
    assert_eq!(s.apply(&v(3, "c")), Ty::app(maybe(), v(2, "b")));
}

#[test]
fn unify_chains_through_earlier_bindings() {
    // (a -> a) ~ (b -> Int): a := b, then b := Int.
    let t1 = Ty::fun(v(1, "a"), v(1, "a"));
    let t2 = Ty::fun(v(2, "b"), star("Int"));
    let s = unify(&t1, &t2, Span::new(0, 0)).unwrap();
    assert_eq!(s.apply(&v(1, "a")), star("Int"));
    assert_eq!(s.apply(&v(2, "b")), star("Int"));
}

#[test]
fn unify_error_carries_span_and_sides() {
    let err = unify(&star("Int"), &Ty::fun(star("Int"), star("Int")), Span::new(3, 7)).unwrap_err();
    assert_eq!(err.span, Span::new(3, 7));
    assert_eq!(err.render(), "type error at bytes 3..7: expected `Int`, found `Int -> Int`");
}

#[test]
fn occurs_check_reports_variable_name() {
    let a = v(1, "a");
    let t = Ty::app(Ty::con("List".to_string(), Kind::arr(Kind::Star, Kind::Star)), a.clone());
    let err = unify(&t, &a, Span::new(0, 1)).unwrap_err();
    assert_eq!(err.kind.message(), "occurs check: `a` occurs in `List a#1`");
}

#[test]
fn record_field_names_must_agree() {
    let r1 = Ty::record(vec![("x".into(), star("Int"))]);
    let r2 = Ty::record(vec![("y".into(), star("Int"))]);
    assert!(unify(&r1, &r2, Span::new(0, 0)).is_err());
}

#[test]
fn record_fields_are_sorted_by_name() {
    let r = Ty::record(vec![
        ("y".into(), star("Int")),
        ("x".into(), star("Bool")),
        ("ab".into(), star("String")),
    ]);
    match r {
        Ty::Record(fs) => {
            let names: Vec<&str> = fs.iter().map(|(n, _)| n.as_str()).collect();
            assert_eq!(names, vec!["ab", "x", "y"]);
        }
        _ => panic!("not a record"),
    }
}

#[test]
fn occurs_in_finds_nested_variable() {
    let t = Ty::record(vec![("f".into(), Ty::fun(star("Int"), v(7, "q")))]);
    assert!(occurs_in(7, &t));
    assert!(!occurs_in(8, &t));
}

#[test]
fn apply_follows_chains_and_stops_at_cycles() {
    let mut s = Subst::new();
    s.insert(1, v(2, "b"));
    s.insert(2, star("Int"));
    assert_eq!(s.apply(&v(1, "a")), star("Int"));
    let mut c = Subst::new();
    c.insert(1, v(2, "b"));
    c.insert(2, v(1, "a"));
    assert_eq!(c.apply(&v(1, "a")), v(1, "a"));
}

#[test]
fn compose_applies_left_to_right_images() {
    let first = Subst::single(1, v(2, "b"));
    let second = Subst::single(2, star("Bool"));
    let c = second.compose(&first);
    assert_eq!(c.apply(&v(1, "a")), star("Bool"));
    assert_eq!(c.apply(&v(2, "b")), star("Bool"));
    assert_eq!(c.get(1), Some(&star("Bool")));
}

#[test]
fn apply_scheme_leaves_bound_variables() {
    let s = Scheme {
        vars: vec![TyVar { id: 1, name: "a".into() }],
        context: vec![Constraint { class: "Eq".into(), arg: v(1, "a") }],
        body: Ty::fun(v(1, "a"), v(2, "b")),
    };
    let mut sub = Subst::new();
    sub.insert(1, star("Int"));
    sub.insert(2, star("Bool"));
    let r = sub.apply_scheme(&s);
    assert_eq!(r.body, Ty::fun(v(1, "a"), star("Bool")));
    assert_eq!(r.context[0].arg, v(1, "a"));
}

#[test]
fn scheme_pretty_prints_quantifier_context_and_body() {
    let s = Scheme {
        vars: vec![TyVar { id: 4, name: "a".into() }],
        context: vec![Constraint { class: "Eq".into(), arg: v(4, "a") }],
        body: Ty::fun(v(4, "a"), Ty::fun(v(4, "a"), star("Bool"))),
    };
    assert_eq!(s.pretty(), "forall a. Eq a#4 => a#4 -> a#4 -> Bool");
    let two = Scheme {
        vars: vec![],
        context: vec![
            Constraint { class: "Eq".into(), arg: v(1, "") },
            Constraint { class: "Show".into(), arg: v(1, "") },
        ],
        body: v(1, ""),
    };
    assert_eq!(two.pretty(), "(Eq t1, Show t1) => t1");
    assert_eq!(Scheme::mono(star("Int")).pretty(), "Int");
}

#[test]
fn type_display_parenthesises_by_position() {
    let maybe = Ty::con("Maybe".to_string(), Kind::arr(Kind::Star, Kind::Star));
    let t = Ty::fun(
        Ty::fun(star("Int"), star("Int")),
        Ty::app(maybe.clone(), Ty::app(maybe, star("Int"))),
    );
    assert_eq!(t.display(), "(Int -> Int) -> Maybe (Maybe Int)");
    let r = Ty::record(vec![("x".into(), star("Int")), ("f".into(), Ty::fun(star("Int"), star("Bool")))]);
    assert_eq!(r.display(), "{ f : Int -> Bool, x : Int }");
}

#[test]
fn kind_display_parenthesises_left_arrows() {
    let k = Kind::arr(Kind::arr(Kind::Star, Kind::Star), Kind::Star);
    assert_eq!(k.display(), "(* -> *) -> *");
    assert_eq!(Kind::Var(3).display(), "k3");
}

#[test]
fn split_fun_returns_arguments_and_result() {
    let t = Ty::fun(star("Int"), Ty::fun(star("Bool"), star("String")));
    let (args, res) = t.split_fun();
    assert_eq!(args.len(), 2);
    assert_eq!(*args[0], star("Int"));
    assert_eq!(*args[1], star("Bool"));
    assert_eq!(*res, star("String"));
}

#[test]
fn type_error_messages_read_as_documented() {
    let e = TypeError::new(
        TypeErrorKind::CtorArity { ctor: "Just".into(), expected: 1, found: 2 },
        Span::new(0, 4),
    );
    assert_eq!(e.render(), "type error at bytes 0..4: constructor `Just` expects 1 arg(s) but was given 2");
    assert_eq!(TypeErrorKind::EmptyDo.message(), "empty `do` block");
    assert_eq!(
        TypeErrorKind::UnresolvedConstraint { constraint: Constraint { class: "Show".into(), arg: star("Int") } }
            .message(),
        "no instance for `Show Int`"
    );
}
