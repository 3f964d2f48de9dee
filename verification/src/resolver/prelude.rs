//! The prelude's names, as the resolver sees them.
//!
//! Every module can use these names unqualified unless it opts out with
//! an explicit `import Prelude ...`. They are a fixed table split by
//! namespace.
use vstd::prelude::*;

use super::error::Namespace;

verus! {

/// The prelude module's name.
pub const PRELUDE_MODULE: &'static str = "Prelude";

/// The prelude's values, each with whether it is a constructor.
pub open spec fn prelude_values() -> Seq<(Seq<char>, bool)> {
    seq![
        ("True"@, true),
        ("False"@, true),
        ("LT"@, true),
        ("EQ"@, true),
        ("GT"@, true),
        ("Nothing"@, true),
        ("Just"@, true),
        ("Err"@, true),
        ("Ok"@, true),
        ("Nil"@, true),
        ("Cons"@, true),
        ("+"@, false),
        ("-"@, false),
        ("*"@, false),
        ("/"@, false),
        ("%"@, false),
        ("negate"@, false),
        ("<"@, false),
        (">"@, false),
        ("<="@, false),
        (">="@, false),
        ("=="@, false),
        ("/="@, false),
        ("compare"@, false),
        ("&&"@, false),
        ("||"@, false),
        ("not"@, false),
        ("++"@, false),
        ("::"@, false),
        (">>="@, false),
        (">>"@, false),
        ("pure"@, false),
        ("return"@, false),
        ("id"@, false),
        ("const"@, false),
        ("compose"@, false),
        ("flip"@, false),
        ("map"@, false),
        ("filter"@, false),
        ("foldr"@, false),
        ("foldl"@, false),
        ("concat"@, false),
        ("concatMap"@, false),
        ("length"@, false),
        ("head"@, false),
        ("tail"@, false),
        ("null"@, false),
        ("fst"@, false),
        ("snd"@, false),
        ("maybe"@, false),
        ("fromMaybe"@, false),
        ("result"@, false),
        ("mapErr"@, false),
        ("readInt"@, false),
        ("join"@, false),
        ("when"@, false),
        ("unless"@, false),
        ("show"@, false),
        ("print"@, false)
    ]
}

/// The prelude's types and classes, each with whether it is a class.
pub open spec fn prelude_types() -> Seq<(Seq<char>, bool)> {
    seq![
        ("Bool"@, false),
        ("Ordering"@, false),
        ("Maybe"@, false),
        ("Result"@, false),
        ("List"@, false),
        ("Int"@, false),
        ("String"@, false),
        ("Ruby"@, false),
        ("Eq"@, true),
        ("Ord"@, true),
        ("Show"@, true),
        ("Functor"@, true),
        ("Applicative"@, true),
        ("Monad"@, true)
    ]
}

/// The views of a table of static names with flags.
pub open spec fn name_table_view(t: Seq<(&'static str, bool)>) -> Seq<(Seq<char>, bool)> {
    t.map_values(|p: (&'static str, bool)| (p.0@, p.1))
}

/// The prelude's values, each with whether it is a constructor.
pub fn prelude_value_table() -> (r: Vec<(&'static str, bool)>)
    ensures
        name_table_view(r@) == prelude_values(),
{
    let r = vec![
        ("True", true),
        ("False", true),
        ("LT", true),
        ("EQ", true),
        ("GT", true),
        ("Nothing", true),
        ("Just", true),
        ("Err", true),
        ("Ok", true),
        ("Nil", true),
        ("Cons", true),
        ("+", false),
        ("-", false),
        ("*", false),
        ("/", false),
        ("%", false),
        ("negate", false),
        ("<", false),
        (">", false),
        ("<=", false),
        (">=", false),
        ("==", false),
        ("/=", false),
        ("compare", false),
        ("&&", false),
        ("||", false),
        ("not", false),
        ("++", false),
        ("::", false),
        (">>=", false),
        (">>", false),
        ("pure", false),
        ("return", false),
        ("id", false),
        ("const", false),
        ("compose", false),
        ("flip", false),
        ("map", false),
        ("filter", false),
        ("foldr", false),
        ("foldl", false),
        ("concat", false),
        ("concatMap", false),
        ("length", false),
        ("head", false),
        ("tail", false),
        ("null", false),
        ("fst", false),
        ("snd", false),
        ("maybe", false),
        ("fromMaybe", false),
        ("result", false),
        ("mapErr", false),
        ("readInt", false),
        ("join", false),
        ("when", false),
        ("unless", false),
        ("show", false),
        ("print", false)
    ];
    assert(name_table_view(r@) =~= prelude_values());
    r
}

/// The prelude's types and classes, each with whether it is a class.
pub fn prelude_type_table() -> (r: Vec<(&'static str, bool)>)
    ensures
        name_table_view(r@) == prelude_types(),
{
    let r = vec![
        ("Bool", false),
        ("Ordering", false),
        ("Maybe", false),
        ("Result", false),
        ("List", false),
        ("Int", false),
        ("String", false),
        ("Ruby", false),
        ("Eq", true),
        ("Ord", true),
        ("Show", true),
        ("Functor", true),
        ("Applicative", true),
        ("Monad", true)
    ];
    assert(name_table_view(r@) =~= prelude_types());
    r
}

/// The prelude's table for namespace `ns`.
pub open spec fn prelude_names(ns: Namespace) -> Seq<(Seq<char>, bool)> {
    match ns {
        Namespace::Value => prelude_values(),
        Namespace::Type => prelude_types(),
    }
}

/// `name` is a prelude name of namespace `ns`.
pub open spec fn prelude_has(name: Seq<char>, ns: Namespace) -> bool {
    exists|i: int| 0 <= i < prelude_names(ns).len() && #[trigger] prelude_names(ns)[i].0 == name
}

/// Whether `name` belongs to the prelude in namespace `ns`.
pub fn is_prelude(name: &str, ns: Namespace) -> (r: bool)
    ensures
        r == prelude_has(name@, ns),
{
    let t = match ns {
        Namespace::Value => prelude_value_table(),
        Namespace::Type => prelude_type_table(),
    };
    let ghost tv = name_table_view(t@);
    assert(tv == prelude_names(ns));
    let target = String::from_str(name);
    let mut i: usize = 0;
    while i < t.len()
        invariant
            i <= t@.len(),
            tv == name_table_view(t@),
            tv == prelude_names(ns),
            target@ == name@,
            forall|j: int| 0 <= j < i ==> tv[j].0 != name@,
        decreases t.len() - i,
    {
        let s = String::from_str(t[i].0);
        if s.eq(&target) {
            assert(prelude_names(ns)[i as int].0 == name@);
            return true;
        }
        i = i + 1;
    }
    false
}

} // verus!
