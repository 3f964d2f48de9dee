//! The Ruby the generator emits for prelude names: inline operators,
//! prelude values and constructors, and the specialised forms of
//! `pure`.
use vstd::prelude::*;

verus! {

/// The first entry of a table whose key is `k`.
pub open spec fn lookup_first(t: Seq<(Seq<char>, Seq<char>)>, k: Seq<char>) -> Option<Seq<char>>
    decreases t.len(),
{
    if t.len() == 0 {
        None
    } else if t[0].0 == k {
        Some(t[0].1)
    } else {
        lookup_first(t.drop_first(), k)
    }
}

/// The views of a table of static text pairs.
pub open spec fn pair_table_view(t: Seq<(&'static str, &'static str)>) -> Seq<(Seq<char>, Seq<char>)> {
    t.map_values(|p: (&'static str, &'static str)| (p.0@, p.1@))
}

/// Whether two texts are equal.
fn text_eq(a: &str, b: &str) -> (r: bool)
    ensures
        r == (a@ == b@),
{
    let x = String::from_str(a);
    let y = String::from_str(b);
    x.eq(&y)
}

/// The entry of `name` in a table of static pairs, the first one.
fn find_pair(t: &Vec<(&'static str, &'static str)>, name: &str) -> (r: Option<&'static str>)
    ensures
        r matches Some(v) ==> lookup_first(pair_table_view(t@), name@) == Some(v@),
        r is None ==> lookup_first(pair_table_view(t@), name@) is None,
{
    let ghost tv = pair_table_view(t@);
    let mut i: usize = 0;
    assert(tv.subrange(0, tv.len() as int) =~= tv);
    while i < t.len()
        invariant
            i <= t@.len(),
            tv == pair_table_view(t@),
            lookup_first(tv, name@) == lookup_first(tv.subrange(i as int, tv.len() as int), name@),
        decreases t.len() - i,
    {
        let ghost rest = tv.subrange(i as int, tv.len() as int);
        assert(rest[0] == (t@[i as int].0@, t@[i as int].1@));
        if text_eq(t[i].0, name) {
            return Some(t[i].1);
        }
        assert(rest.drop_first() =~= tv.subrange(i + 1, tv.len() as int));
        i = i + 1;
    }
    None
}

/// Operators the generator writes inline between two Ruby operands,
/// with the Ruby operator for each.
pub open spec fn inline_ops() -> Seq<(Seq<char>, Seq<char>)> {
    seq![
        ("+"@, "+"@),
        ("-"@, "-"@),
        ("*"@, "*"@),
        ("/"@, "/"@),
        ("%"@, "%"@),
        ("=="@, "=="@),
        ("/="@, "!="@),
        ("<"@, "<"@),
        ("<="@, "<="@),
        (">"@, ">"@),
        (">="@, ">="@),
        ("&&"@, "&&"@),
        ("||"@, "||"@),
        ("++"@, "+"@)
    ]
}

/// The Ruby operator a prelude operator becomes when written inline
/// between two operands; `None` for operators that need more than an
/// infix substitution (`::`, `>>=`, `>>`) and for other names.
pub fn binop_inline(op: &str) -> (r: Option<&'static str>)
    ensures
        r matches Some(v) ==> lookup_first(inline_ops(), op@) == Some(v@),
        r is None ==> lookup_first(inline_ops(), op@) is None,
{
    let t = vec![
        ("+", "+"),
        ("-", "-"),
        ("*", "*"),
        ("/", "/"),
        ("%", "%"),
        ("==", "=="),
        ("/=", "!="),
        ("<", "<"),
        ("<=", "<="),
        (">", ">"),
        (">=", ">="),
        ("&&", "&&"),
        ("||", "||"),
        ("++", "+")
    ];
    assert(pair_table_view(t@) =~= inline_ops());
    find_pair(&t, op)
}

/// The Ruby expression of each prelude value, constructor and operator
/// used as a value.
pub open spec fn prelude_values_ruby() -> Seq<(Seq<char>, Seq<char>)> {
    seq![
        ("True"@, "Sapphire::Prelude::True"@),
        ("False"@, "Sapphire::Prelude::False"@),
        ("LT"@, "Sapphire::Prelude::LT"@),
        ("EQ"@, "Sapphire::Prelude::EQ"@),
        ("GT"@, "Sapphire::Prelude::GT"@),
        ("Nothing"@, "Sapphire::Runtime::ADT.make(:Nothing, [])"@),
        ("Just"@, "->(v) { Sapphire::Runtime::ADT.make(:Just, [v]) }"@),
        ("Ok"@, "->(v) { Sapphire::Runtime::ADT.make(:Ok, [v]) }"@),
        ("Err"@, "->(v) { Sapphire::Runtime::ADT.make(:Err, [v]) }"@),
        ("Nil"@, "Sapphire::Prelude::SP_NIL"@),
        ("Cons"@, "Sapphire::Prelude::SP_CONS"@),
        ("+"@, "Sapphire::Prelude::OP_PLUS"@),
        ("-"@, "Sapphire::Prelude::OP_MINUS"@),
        ("*"@, "Sapphire::Prelude::OP_TIMES"@),
        ("/"@, "Sapphire::Prelude::OP_DIV"@),
        ("%"@, "Sapphire::Prelude::OP_MOD"@),
        ("=="@, "Sapphire::Prelude::OP_EQ"@),
        ("/="@, "Sapphire::Prelude::OP_NEQ"@),
        ("<"@, "Sapphire::Prelude::OP_LT"@),
        ("<="@, "Sapphire::Prelude::OP_LE"@),
        (">"@, "Sapphire::Prelude::OP_GT"@),
        (">="@, "Sapphire::Prelude::OP_GE"@),
        ("&&"@, "Sapphire::Prelude::OP_AND"@),
        ("||"@, "Sapphire::Prelude::OP_OR"@),
        ("++"@, "Sapphire::Prelude::OP_CONCAT"@),
        ("::"@, "Sapphire::Prelude::SP_CONS"@),
        ("negate"@, "Sapphire::Prelude::NEGATE"@),
        ("not"@, "Sapphire::Prelude::NOT"@),
        ("id"@, "Sapphire::Prelude::ID"@),
        ("const"@, "Sapphire::Prelude::CONST"@),
        ("compose"@, "Sapphire::Prelude::COMPOSE"@),
        ("flip"@, "Sapphire::Prelude::FLIP"@),
        ("map"@, "Sapphire::Prelude::MAP"@),
        ("filter"@, "Sapphire::Prelude::FILTER"@),
        ("foldr"@, "Sapphire::Prelude::FOLDR"@),
        ("foldl"@, "Sapphire::Prelude::FOLDL"@),
        ("concat"@, "Sapphire::Prelude::CONCAT"@),
        ("concatMap"@, "Sapphire::Prelude::CONCAT_MAP"@),
        ("length"@, "Sapphire::Prelude::LENGTH"@),
        ("head"@, "Sapphire::Prelude::HEAD"@),
        ("tail"@, "Sapphire::Prelude::TAIL"@),
        ("null"@, "Sapphire::Prelude::NULL"@),
        ("fst"@, "Sapphire::Prelude::FST"@),
        ("snd"@, "Sapphire::Prelude::SND"@),
        ("maybe"@, "Sapphire::Prelude::MAYBE"@),
        ("fromMaybe"@, "Sapphire::Prelude::FROM_MAYBE"@),
        ("result"@, "Sapphire::Prelude::RESULT"@),
        ("mapErr"@, "Sapphire::Prelude::MAP_ERR"@),
        ("readInt"@, "Sapphire::Prelude::READ_INT"@),
        ("compare"@, "Sapphire::Prelude::COMPARE"@),
        ("join"@, "Sapphire::Prelude::JOIN"@),
        ("when"@, "Sapphire::Prelude::WHEN"@),
        ("unless"@, "Sapphire::Prelude::UNLESS"@),
        ("show"@, "Sapphire::Prelude::SHOW"@),
        ("print"@, "Sapphire::Prelude::PRINT"@),
        (">>="@, "->(m) { ->(k) { Sapphire::Prelude.monad_bind(m, k) } }"@),
        (">>"@, "->(m) { ->(n) { Sapphire::Prelude.monad_then(m, -> { n }) } }"@),
        ("pure"@, "->(x) { Sapphire::Prelude.pure_polymorphic(x) }"@),
        ("return"@, "->(x) { Sapphire::Prelude.pure_polymorphic(x) }"@)
    ]
}

/// The Ruby expression for a prelude name in value position; `None`
/// when the name is not a prelude value.
pub fn prelude_value(name: &str) -> (r: Option<String>)
    ensures
        r matches Some(v) ==> lookup_first(prelude_values_ruby(), name@) == Some(v@),
        r is None ==> lookup_first(prelude_values_ruby(), name@) is None,
{
    let t = vec![
        ("True", "Sapphire::Prelude::True"),
        ("False", "Sapphire::Prelude::False"),
        ("LT", "Sapphire::Prelude::LT"),
        ("EQ", "Sapphire::Prelude::EQ"),
        ("GT", "Sapphire::Prelude::GT"),
        ("Nothing", "Sapphire::Runtime::ADT.make(:Nothing, [])"),
        ("Just", "->(v) { Sapphire::Runtime::ADT.make(:Just, [v]) }"),
        ("Ok", "->(v) { Sapphire::Runtime::ADT.make(:Ok, [v]) }"),
        ("Err", "->(v) { Sapphire::Runtime::ADT.make(:Err, [v]) }"),
        ("Nil", "Sapphire::Prelude::SP_NIL"),
        ("Cons", "Sapphire::Prelude::SP_CONS"),
        ("+", "Sapphire::Prelude::OP_PLUS"),
        ("-", "Sapphire::Prelude::OP_MINUS"),
        ("*", "Sapphire::Prelude::OP_TIMES"),
        ("/", "Sapphire::Prelude::OP_DIV"),
        ("%", "Sapphire::Prelude::OP_MOD"),
        ("==", "Sapphire::Prelude::OP_EQ"),
        ("/=", "Sapphire::Prelude::OP_NEQ"),
        ("<", "Sapphire::Prelude::OP_LT"),
        ("<=", "Sapphire::Prelude::OP_LE"),
        (">", "Sapphire::Prelude::OP_GT"),
        (">=", "Sapphire::Prelude::OP_GE"),
        ("&&", "Sapphire::Prelude::OP_AND"),
        ("||", "Sapphire::Prelude::OP_OR"),
        ("++", "Sapphire::Prelude::OP_CONCAT"),
        ("::", "Sapphire::Prelude::SP_CONS"),
        ("negate", "Sapphire::Prelude::NEGATE"),
        ("not", "Sapphire::Prelude::NOT"),
        ("id", "Sapphire::Prelude::ID"),
        ("const", "Sapphire::Prelude::CONST"),
        ("compose", "Sapphire::Prelude::COMPOSE"),
        ("flip", "Sapphire::Prelude::FLIP"),
        ("map", "Sapphire::Prelude::MAP"),
        ("filter", "Sapphire::Prelude::FILTER"),
        ("foldr", "Sapphire::Prelude::FOLDR"),
        ("foldl", "Sapphire::Prelude::FOLDL"),
        ("concat", "Sapphire::Prelude::CONCAT"),
        ("concatMap", "Sapphire::Prelude::CONCAT_MAP"),
        ("length", "Sapphire::Prelude::LENGTH"),
        ("head", "Sapphire::Prelude::HEAD"),
        ("tail", "Sapphire::Prelude::TAIL"),
        ("null", "Sapphire::Prelude::NULL"),
        ("fst", "Sapphire::Prelude::FST"),
        ("snd", "Sapphire::Prelude::SND"),
        ("maybe", "Sapphire::Prelude::MAYBE"),
        ("fromMaybe", "Sapphire::Prelude::FROM_MAYBE"),
        ("result", "Sapphire::Prelude::RESULT"),
        ("mapErr", "Sapphire::Prelude::MAP_ERR"),
        ("readInt", "Sapphire::Prelude::READ_INT"),
        ("compare", "Sapphire::Prelude::COMPARE"),
        ("join", "Sapphire::Prelude::JOIN"),
        ("when", "Sapphire::Prelude::WHEN"),
        ("unless", "Sapphire::Prelude::UNLESS"),
        ("show", "Sapphire::Prelude::SHOW"),
        ("print", "Sapphire::Prelude::PRINT"),
        (">>=", "->(m) { ->(k) { Sapphire::Prelude.monad_bind(m, k) } }"),
        (">>", "->(m) { ->(n) { Sapphire::Prelude.monad_then(m, -> { n }) } }"),
        ("pure", "->(x) { Sapphire::Prelude.pure_polymorphic(x) }"),
        ("return", "->(x) { Sapphire::Prelude.pure_polymorphic(x) }")
    ];
    assert(pair_table_view(t@) =~= prelude_values_ruby());
    match find_pair(&t, name) {
        Some(v) => Some(String::from_str(v)),
        None => None,
    }
}

/// The Ruby template for `pure` / `return`, given the head type
/// constructor of the enclosing binding's result; `{}` stands for the
/// argument.
pub open spec fn pure_template(head: Option<Seq<char>>) -> Seq<char> {
    if head == Some("Ruby"@) {
        "Sapphire::Runtime::Ruby.prim_return({})"@
    } else if head == Some("Result"@) {
        "Sapphire::Runtime::ADT.make(:Ok, [{}])"@
    } else if head == Some("Maybe"@) {
        "Sapphire::Runtime::ADT.make(:Just, [{}])"@
    } else if head == Some("List"@) {
        "[{}]"@
    } else {
        "Sapphire::Prelude.pure_polymorphic({})"@
    }
}

/// Which monad a `pure` / `return` call is specialised to, given the
/// head constructor of the enclosing binding's result type.
pub fn specialised_pure(head: Option<&str>) -> (r: &'static str)
    ensures
        r@ == pure_template(
            match head {
                Some(h) => Some(h@),
                None => None,
            },
        ),
{
    match head {
        Some(h) => {
            if text_eq(h, "Ruby") {
                "Sapphire::Runtime::Ruby.prim_return({})"
            } else if text_eq(h, "Result") {
                "Sapphire::Runtime::ADT.make(:Ok, [{}])"
            } else if text_eq(h, "Maybe") {
                "Sapphire::Runtime::ADT.make(:Just, [{}])"
            } else if text_eq(h, "List") {
                "[{}]"
            } else {
                "Sapphire::Prelude.pure_polymorphic({})"
            }
        },
        None => "Sapphire::Prelude.pure_polymorphic({})",
    }
}

/// The prelude constructors without arguments.
pub open spec fn nullary_prelude_ctor(name: Seq<char>) -> bool {
    name == "Nothing"@ || name == "Nil"@ || name == "True"@ || name == "False"@ || name == "LT"@
        || name == "EQ"@ || name == "GT"@
}

/// Whether a prelude constructor takes no arguments.
pub fn is_nullary_prelude_ctor(name: &str) -> (r: bool)
    ensures
        r == nullary_prelude_ctor(name@),
{
    text_eq(name, "Nothing") || text_eq(name, "Nil") || text_eq(name, "True") || text_eq(name, "False")
        || text_eq(name, "LT") || text_eq(name, "EQ") || text_eq(name, "GT")
}

/// `lookup_first` finds a key exactly when some entry has it.
pub proof fn lemma_lookup_first_some(t: Seq<(Seq<char>, Seq<char>)>, k: Seq<char>)
    ensures
        lookup_first(t, k) is Some <==> exists|j: int| 0 <= j < t.len() && #[trigger] t[j].0 == k,
    decreases t.len(),
{
    if t.len() > 0 {
        lemma_lookup_first_some(t.drop_first(), k);
        if exists|j: int| 0 <= j < t.len() && #[trigger] t[j].0 == k {
            let j = choose|j: int| 0 <= j < t.len() && #[trigger] t[j].0 == k;
            if j > 0 {
                assert(t.drop_first()[j - 1].0 == k);
            }
        }
        if exists|j: int| 0 <= j < t.len() - 1 && #[trigger] t.drop_first()[j].0 == k {
            let j = choose|j: int| 0 <= j < t.len() - 1 && #[trigger] t.drop_first()[j].0 == k;
            assert(t[j + 1].0 == k);
        }
    }
}

/// The values the resolver takes as the prelude's are exactly those the
/// generated Ruby has a translation for: every prelude value a module
/// can name unqualified (`map`, `filter`, `foldr`, ...) is defined, and
/// the Ruby runtime defines nothing the prelude does not export.
pub proof fn lemma_prelude_values_translated(n: Seq<char>)
    ensures
        crate::resolver::prelude::prelude_has(n, crate::resolver::error::Namespace::Value) <==> lookup_first(
            prelude_values_ruby(),
            n,
        ) is Some,
{
    let a = crate::resolver::prelude::prelude_values();
    let b = prelude_values_ruby();
    lemma_lookup_first_some(b, n);
    assert(a.len() == 59 && b.len() == 59);
    if crate::resolver::prelude::prelude_has(n, crate::resolver::error::Namespace::Value) {
        let i = choose|i: int| 0 <= i < a.len() && #[trigger] a[i].0 == n;
        assert(exists|j: int| 0 <= j < b.len() && #[trigger] b[j].0 == n) by {
            if i == 0 {
                assert(b[0].0 == a[0].0);
            } else if i == 1 {
                assert(b[1].0 == a[1].0);
            } else if i == 2 {
                assert(b[2].0 == a[2].0);
            } else if i == 3 {
                assert(b[3].0 == a[3].0);
            } else if i == 4 {
                assert(b[4].0 == a[4].0);
            } else if i == 5 {
                assert(b[5].0 == a[5].0);
            } else if i == 6 {
                assert(b[6].0 == a[6].0);
            } else if i == 7 {
                assert(b[8].0 == a[7].0);
            } else if i == 8 {
                assert(b[7].0 == a[8].0);
            } else if i == 9 {
                assert(b[9].0 == a[9].0);
            } else if i == 10 {
                assert(b[10].0 == a[10].0);
            } else if i == 11 {
                assert(b[11].0 == a[11].0);
            } else if i == 12 {
                assert(b[12].0 == a[12].0);
            } else if i == 13 {
                assert(b[13].0 == a[13].0);
            } else if i == 14 {
                assert(b[14].0 == a[14].0);
            } else if i == 15 {
                assert(b[15].0 == a[15].0);
            } else if i == 16 {
                assert(b[26].0 == a[16].0);
            } else if i == 17 {
                assert(b[18].0 == a[17].0);
            } else if i == 18 {
                assert(b[20].0 == a[18].0);
            } else if i == 19 {
                assert(b[19].0 == a[19].0);
            } else if i == 20 {
                assert(b[21].0 == a[20].0);
            } else if i == 21 {
                assert(b[16].0 == a[21].0);
            } else if i == 22 {
                assert(b[17].0 == a[22].0);
            } else if i == 23 {
                assert(b[49].0 == a[23].0);
            } else if i == 24 {
                assert(b[22].0 == a[24].0);
            } else if i == 25 {
                assert(b[23].0 == a[25].0);
            } else if i == 26 {
                assert(b[27].0 == a[26].0);
            } else if i == 27 {
                assert(b[24].0 == a[27].0);
            } else if i == 28 {
                assert(b[25].0 == a[28].0);
            } else if i == 29 {
                assert(b[55].0 == a[29].0);
            } else if i == 30 {
                assert(b[56].0 == a[30].0);
            } else if i == 31 {
                assert(b[57].0 == a[31].0);
            } else if i == 32 {
                assert(b[58].0 == a[32].0);
            } else if i == 33 {
                assert(b[28].0 == a[33].0);
            } else if i == 34 {
                assert(b[29].0 == a[34].0);
            } else if i == 35 {
                assert(b[30].0 == a[35].0);
            } else if i == 36 {
                assert(b[31].0 == a[36].0);
            } else if i == 37 {
                assert(b[32].0 == a[37].0);
            } else if i == 38 {
                assert(b[33].0 == a[38].0);
            } else if i == 39 {
                assert(b[34].0 == a[39].0);
            } else if i == 40 {
                assert(b[35].0 == a[40].0);
            } else if i == 41 {
                assert(b[36].0 == a[41].0);
            } else if i == 42 {
                assert(b[37].0 == a[42].0);
            } else if i == 43 {
                assert(b[38].0 == a[43].0);
            } else if i == 44 {
                assert(b[39].0 == a[44].0);
            } else if i == 45 {
                assert(b[40].0 == a[45].0);
            } else if i == 46 {
                assert(b[41].0 == a[46].0);
            } else if i == 47 {
                assert(b[42].0 == a[47].0);
            } else if i == 48 {
                assert(b[43].0 == a[48].0);
            } else if i == 49 {
                assert(b[44].0 == a[49].0);
            } else if i == 50 {
                assert(b[45].0 == a[50].0);
            } else if i == 51 {
                assert(b[46].0 == a[51].0);
            } else if i == 52 {
                assert(b[47].0 == a[52].0);
            } else if i == 53 {
                assert(b[48].0 == a[53].0);
            } else if i == 54 {
                assert(b[50].0 == a[54].0);
            } else if i == 55 {
                assert(b[51].0 == a[55].0);
            } else if i == 56 {
                assert(b[52].0 == a[56].0);
            } else if i == 57 {
                assert(b[53].0 == a[57].0);
            } else if i == 58 {
                assert(b[54].0 == a[58].0);
            }
        }
    }
    if lookup_first(b, n) is Some {
        let j = choose|j: int| 0 <= j < b.len() && #[trigger] b[j].0 == n;
        assert(exists|i: int| 0 <= i < a.len() && #[trigger] a[i].0 == n) by {
            if j == 0 {
                assert(a[0].0 == b[0].0);
            } else if j == 1 {
                assert(a[1].0 == b[1].0);
            } else if j == 2 {
                assert(a[2].0 == b[2].0);
            } else if j == 3 {
                assert(a[3].0 == b[3].0);
            } else if j == 4 {
                assert(a[4].0 == b[4].0);
            } else if j == 5 {
                assert(a[5].0 == b[5].0);
            } else if j == 6 {
                assert(a[6].0 == b[6].0);
            } else if j == 7 {
                assert(a[8].0 == b[7].0);
            } else if j == 8 {
                assert(a[7].0 == b[8].0);
            } else if j == 9 {
                assert(a[9].0 == b[9].0);
            } else if j == 10 {
                assert(a[10].0 == b[10].0);
            } else if j == 11 {
                assert(a[11].0 == b[11].0);
            } else if j == 12 {
                assert(a[12].0 == b[12].0);
            } else if j == 13 {
                assert(a[13].0 == b[13].0);
            } else if j == 14 {
                assert(a[14].0 == b[14].0);
            } else if j == 15 {
                assert(a[15].0 == b[15].0);
            } else if j == 16 {
                assert(a[21].0 == b[16].0);
            } else if j == 17 {
                assert(a[22].0 == b[17].0);
            } else if j == 18 {
                assert(a[17].0 == b[18].0);
            } else if j == 19 {
                assert(a[19].0 == b[19].0);
            } else if j == 20 {
                assert(a[18].0 == b[20].0);
            } else if j == 21 {
                assert(a[20].0 == b[21].0);
            } else if j == 22 {
                assert(a[24].0 == b[22].0);
            } else if j == 23 {
                assert(a[25].0 == b[23].0);
            } else if j == 24 {
                assert(a[27].0 == b[24].0);
            } else if j == 25 {
                assert(a[28].0 == b[25].0);
            } else if j == 26 {
                assert(a[16].0 == b[26].0);
            } else if j == 27 {
                assert(a[26].0 == b[27].0);
            } else if j == 28 {
                assert(a[33].0 == b[28].0);
            } else if j == 29 {
                assert(a[34].0 == b[29].0);
            } else if j == 30 {
                assert(a[35].0 == b[30].0);
            } else if j == 31 {
                assert(a[36].0 == b[31].0);
            } else if j == 32 {
                assert(a[37].0 == b[32].0);
            } else if j == 33 {
                assert(a[38].0 == b[33].0);
            } else if j == 34 {
                assert(a[39].0 == b[34].0);
            } else if j == 35 {
                assert(a[40].0 == b[35].0);
            } else if j == 36 {
                assert(a[41].0 == b[36].0);
            } else if j == 37 {
                assert(a[42].0 == b[37].0);
            } else if j == 38 {
                assert(a[43].0 == b[38].0);
            } else if j == 39 {
                assert(a[44].0 == b[39].0);
            } else if j == 40 {
                assert(a[45].0 == b[40].0);
            } else if j == 41 {
                assert(a[46].0 == b[41].0);
            } else if j == 42 {
                assert(a[47].0 == b[42].0);
            } else if j == 43 {
                assert(a[48].0 == b[43].0);
            } else if j == 44 {
                assert(a[49].0 == b[44].0);
            } else if j == 45 {
                assert(a[50].0 == b[45].0);
            } else if j == 46 {
                assert(a[51].0 == b[46].0);
            } else if j == 47 {
                assert(a[52].0 == b[47].0);
            } else if j == 48 {
                assert(a[53].0 == b[48].0);
            } else if j == 49 {
                assert(a[23].0 == b[49].0);
            } else if j == 50 {
                assert(a[54].0 == b[50].0);
            } else if j == 51 {
                assert(a[55].0 == b[51].0);
            } else if j == 52 {
                assert(a[56].0 == b[52].0);
            } else if j == 53 {
                assert(a[57].0 == b[53].0);
            } else if j == 54 {
                assert(a[58].0 == b[54].0);
            } else if j == 55 {
                assert(a[29].0 == b[55].0);
            } else if j == 56 {
                assert(a[30].0 == b[56].0);
            } else if j == 57 {
                assert(a[31].0 == b[57].0);
            } else if j == 58 {
                assert(a[32].0 == b[58].0);
            }
        }
    }
}

} // verus!
