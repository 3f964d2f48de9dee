//! Patterns as Ruby `case/in` patterns.
//!
//! Ruby's pattern syntax is close to the language's own: a wildcard is
//! `_`, a variable binds by name, literals stand for themselves, lists
//! are arrays (`[h, *t]` for a cons), records are hashes, and other
//! constructors are tagged hashes `{ tag: :C, values: [...] }`. `True`,
//! `False`, the `Ordering` constructors and `Nil` have their own forms;
//! an `as` pattern binds with `=>`, and a type annotation is dropped.
use vstd::prelude::*;

use super::emit::{escape_ruby_string, ruby_escape};
use crate::ast::{Literal, Pattern, PatternField};
use crate::text::{i64_text, signed_decimal_text};

verus! {

/// A literal as Ruby source.
pub open spec fn literal_text(lit: Literal) -> Seq<char> {
    match lit {
        Literal::Int(i) => signed_decimal_text(i as int),
        Literal::Str(s) => "\""@ + ruby_escape(s@) + "\""@,
    }
}

/// The first `n` patterns, rendered and separated by commas.
pub open spec fn patterns_text(ps: Seq<Pattern>, n: int) -> Seq<char>
    decreases ps, n,
{
    if n <= 0 || n > ps.len() {
        Seq::empty()
    } else {
        proof {
            assert(decreases_to!(ps => ps[n - 1]));
        }
        let sep = if n > 1 {
            ", "@
        } else {
            Seq::empty()
        };
        patterns_text(ps, n - 1) + sep + pattern_text(ps[n - 1])
    }
}

/// The first `n` record-pattern fields, `name: pattern` each, separated
/// by commas.
pub open spec fn field_patterns_text(fs: Seq<PatternField>, n: int) -> Seq<char>
    decreases fs, n,
{
    if n <= 0 || n > fs.len() {
        Seq::empty()
    } else {
        proof {
            assert(decreases_to!(fs => fs[n - 1]));
            assert(decreases_to!(fs[n - 1] => fs[n - 1].1));
        }
        let sep = if n > 1 {
            ", "@
        } else {
            Seq::empty()
        };
        field_patterns_text(fs, n - 1) + sep + fs[n - 1].0@ + ": "@ + pattern_text(fs[n - 1].1)
    }
}

/// A pattern as a Ruby `case/in` pattern.
pub open spec fn pattern_text(p: Pattern) -> Seq<char>
    decreases p, 0nat,
{
    match p {
        Pattern::Wildcard(_) => "_"@,
        Pattern::Var { name, .. } => name@,
        Pattern::As { name, inner, .. } => pattern_text(*inner) + " => "@ + name@,
        Pattern::Lit(lit, _) => literal_text(lit),
        Pattern::Con { name, args, .. } => {
            proof {
                assert(decreases_to!(p => args));
                assert(decreases_to!(args => args@));
            }
            if name@ == "True"@ {
                "true"@
            } else if name@ == "False"@ {
                "false"@
            } else if name@ == "LT"@ {
                ":lt"@
            } else if name@ == "EQ"@ {
                ":eq"@
            } else if name@ == "GT"@ {
                ":gt"@
            } else if name@ == "Nil"@ {
                "[]"@
            } else if name@ == "Cons"@ && args@.len() == 2 {
                proof {
                    assert(decreases_to!(args@ => args@[0]));
                    assert(decreases_to!(args@ => args@[1]));
                }
                "["@ + pattern_text(args@[0]) + ", *"@ + pattern_text(args@[1]) + "]"@
            } else if args@.len() == 0 {
                "{ tag: :"@ + name@ + ", values: [] }"@
            } else {
                "{ tag: :"@ + name@ + ", values: ["@ + patterns_text(args@, args@.len() as int) + "] }"@
            }
        },
        Pattern::Cons { head, tail, .. } => "["@ + pattern_text(*head) + ", *"@ + pattern_text(*tail) + "]"@,
        Pattern::List { items, .. } => {
            proof {
                assert(decreases_to!(p => items));
                assert(decreases_to!(items => items@));
            }
            "["@ + patterns_text(items@, items@.len() as int) + "]"@
        },
        Pattern::Record { fields, .. } => {
            proof {
                assert(decreases_to!(p => fields));
                assert(decreases_to!(fields => fields@));
            }
            "{ "@ + field_patterns_text(fields@, fields@.len() as int) + " }"@
        },
        Pattern::Annot { inner, .. } => pattern_text(*inner),
    }
}

/// Constructor patterns without arguments that name different
/// constructors become different Ruby patterns: no branch of a `case`
/// for one constructor (`False`, say) matches the values of another
/// (`True`).
pub proof fn lemma_nullary_ctor_patterns_distinct(p1: Pattern, p2: Pattern)
    requires
        p1 matches Pattern::Con { args, .. } && args@.len() == 0,
        p2 matches Pattern::Con { args, .. } && args@.len() == 0,
        p1->Con_name@ != p2->Con_name@,
    ensures
        pattern_text(p1) != pattern_text(p2),
{
    reveal_strlit("True");
    assert("True"@.len() == 4);
    reveal_strlit("False");
    assert("False"@.len() == 5);
    reveal_strlit("LT");
    assert("LT"@.len() == 2);
    reveal_strlit("EQ");
    assert("EQ"@.len() == 2);
    reveal_strlit("GT");
    assert("GT"@.len() == 2);
    reveal_strlit("Nil");
    assert("Nil"@.len() == 3);
    reveal_strlit("true");
    assert("true"@.len() == 4);
    reveal_strlit("false");
    assert("false"@.len() == 5);
    reveal_strlit(":lt");
    assert(":lt"@.len() == 3);
    reveal_strlit(":eq");
    assert(":eq"@.len() == 3);
    reveal_strlit(":gt");
    assert(":gt"@.len() == 3);
    reveal_strlit("[]");
    assert("[]"@.len() == 2);
    reveal_strlit("{ tag: :");
    assert("{ tag: :"@.len() == 8);
    reveal_strlit(", values: [] }");
    assert(", values: [] }"@.len() == 14);
    reveal_strlit("Cons");
    assert("Cons"@.len() == 4);
    assert("True"@[0] == 'T');
    assert("False"@[0] == 'F');
    assert("LT"@[0] == 'L');
    assert("EQ"@[0] == 'E');
    assert("GT"@[0] == 'G');
    assert("Nil"@[0] == 'N');
    assert("true"@[0] == 't');
    assert("false"@[0] == 'f');
    assert(":lt"@[0] == ':');
    assert(":eq"@[0] == ':');
    assert(":gt"@[0] == ':');
    assert("[]"@[0] == '[');
    assert("{ tag: :"@[0] == '{');
    assert(", values: [] }"@[0] == ',');
    assert("Cons"@[0] == 'C');
    assert("True"@[1] == 'r' && "False"@[1] == 'a' && "EQ"@[1] == 'Q' && "GT"@[1] == 'T' && "LT"@[1] == 'T');
    assert(":lt"@[1] == 'l' && ":eq"@[1] == 'e' && ":gt"@[1] == 'g');
    let n1 = p1->Con_name@;
    let n2 = p2->Con_name@;
    let t1 = pattern_text(p1);
    let t2 = pattern_text(p2);
    let pre = "{ tag: :"@;
    let post = ", values: [] }"@;
    let special = |n: Seq<char>| n == "True"@ || n == "False"@ || n == "LT"@ || n == "EQ"@ || n == "GT"@ || n == "Nil"@;
    if !special(n1) {
        assert(t1 == pre + n1 + post);
        assert(t1[0] == '{');
    }
    if !special(n2) {
        assert(t2 == pre + n2 + post);
        assert(t2[0] == '{');
    }
    if !special(n1) && !special(n2) && t1 == t2 {
        assert(n1.len() == n2.len());
        assert((pre + n1 + post).subrange(8, 8 + n1.len() as int) =~= n1);
        assert((pre + n2 + post).subrange(8, 8 + n2.len() as int) =~= n2);
    }
}

/// The constructors Ruby has values of its own for (`True`, `False`, and
/// the `Ordering` constructors `LT`, `EQ`, `GT`) match as those values:
/// the pattern is the constructor's name in lower case, a boolean
/// literal for `Bool` and a symbol for `Ordering`, whatever the pattern's
/// qualifier and span.
pub proof fn lemma_native_ctor_patterns(p: Pattern)
    requires
        p matches Pattern::Con { args, .. } && args@.len() == 0,
    ensures
        (p->Con_name@ == "True"@ || p->Con_name@ == "False"@) ==> pattern_text(p) == p->Con_name@.map_values(
            |c: char| super::output::ascii_lower(c),
        ),
        (p->Con_name@ == "LT"@ || p->Con_name@ == "EQ"@ || p->Con_name@ == "GT"@) ==> pattern_text(p) == seq![':']
            + p->Con_name@.map_values(|c: char| super::output::ascii_lower(c)),
{
    reveal_strlit("True");
    reveal_strlit("False");
    reveal_strlit("LT");
    reveal_strlit("EQ");
    reveal_strlit("GT");
    reveal_strlit("true");
    reveal_strlit("false");
    reveal_strlit(":lt");
    reveal_strlit(":eq");
    reveal_strlit(":gt");
    let n = p->Con_name@;
    let low = n.map_values(|c: char| super::output::ascii_lower(c));
    if n == "True"@ {
        assert(low =~= "true"@);
    } else if n == "False"@ {
        assert(low =~= "false"@);
    } else if n == "LT"@ {
        assert(seq![':'] + low =~= ":lt"@);
    } else if n == "EQ"@ {
        assert(seq![':'] + low =~= ":eq"@);
    } else if n == "GT"@ {
        assert(seq![':'] + low =~= ":gt"@);
    }
}

/// A literal as Ruby source: an integer in decimal, a string quoted and
/// escaped.
pub fn render_literal(lit: &Literal) -> (r: String)
    ensures
        r@ == literal_text(*lit),
{
    match lit {
        Literal::Int(i) => i64_text(*i),
        Literal::Str(s) => {
            let mut r = String::from_str("\"");
            r.append(escape_ruby_string(s.as_str()).as_str());
            r.append("\"");
            proof {
                reveal_strlit("\"");
            }
            assert(r@ =~= literal_text(*lit));
            r
        },
    }
}

/// Append the patterns to `out`, separated by commas.
fn push_patterns(ps: &Vec<Pattern>, out: &mut String)
    ensures
        final(out)@ == old(out)@ + patterns_text(ps@, ps@.len() as int),
    decreases ps@, 1nat,
{
    let ghost o = out@;
    let mut i: usize = 0;
    while i < ps.len()
        invariant
            i <= ps@.len(),
            out@ == o + patterns_text(ps@, i as int),
        decreases ps.len() - i,
    {
        proof {
            assert(decreases_to!(ps@ => ps@[i as int]));
            reveal_strlit(", ");
        }
        if i > 0 {
            out.append(", ");
        }
        let t = render_pattern(&ps[i]);
        out.append(t.as_str());
        proof {
            let sep = if i + 1 > 1 {
                ", "@
            } else {
                Seq::<char>::empty()
            };
            assert(patterns_text(ps@, i + 1) == patterns_text(ps@, i as int) + sep + pattern_text(ps@[i as int]));
            assert(out@ =~= o + patterns_text(ps@, i + 1));
        }
        i = i + 1;
    }
}

/// A pattern as a Ruby `case/in` pattern.
pub fn render_pattern(pat: &Pattern) -> (r: String)
    ensures
        r@ == pattern_text(*pat),
    decreases pat, 1nat,
{
    proof {
        reveal_strlit("_");
        reveal_strlit(" => ");
        reveal_strlit("[");
        reveal_strlit(", *");
        reveal_strlit("]");
        reveal_strlit("{ ");
        reveal_strlit(" }");
        reveal_strlit(", ");
        reveal_strlit(": ");
    }
    match pat {
        Pattern::Wildcard(_) => String::from_str("_"),
        Pattern::Var { name, .. } => name.clone(),
        Pattern::As { name, inner, .. } => {
            let mut r = render_pattern(inner);
            r.append(" => ");
            r.append(name.as_str());
            assert(r@ =~= pattern_text(*pat));
            r
        },
        Pattern::Lit(lit, _) => render_literal(lit),
        Pattern::Con { name, args, .. } => {
            proof {
                assert(decreases_to!(pat => args));
                assert(decreases_to!(args => args@));
            }
            render_ctor_pattern(pat, name, args)
        },
        Pattern::Cons { head, tail, .. } => {
            let mut r = String::from_str("[");
            r.append(render_pattern(head).as_str());
            r.append(", *");
            r.append(render_pattern(tail).as_str());
            r.append("]");
            assert(r@ =~= pattern_text(*pat));
            r
        },
        Pattern::List { items, .. } => {
            proof {
                assert(decreases_to!(pat => items));
            }
            let mut r = String::from_str("[");
            push_patterns(items, &mut r);
            r.append("]");
            assert(r@ =~= pattern_text(*pat));
            r
        },
        Pattern::Record { fields, .. } => {
            proof {
                assert(decreases_to!(pat => fields));
                assert(decreases_to!(fields => fields@));
            }
            let mut r = String::from_str("{ ");
            let ghost o = r@;
            let mut i: usize = 0;
            while i < fields.len()
                invariant
                    i <= fields@.len(),
                    decreases_to!(pat => fields@),
                    r@ == o + field_patterns_text(fields@, i as int),
                decreases fields.len() - i,
            {
                proof {
                    assert(decreases_to!(fields@ => fields@[i as int]));
                    assert(decreases_to!(fields@[i as int] => fields@[i as int].1));
                }
                if i > 0 {
                    r.append(", ");
                }
                r.append(fields[i].0.as_str());
                r.append(": ");
                r.append(render_pattern(&fields[i].1).as_str());
                proof {
                    let sep = if i + 1 > 1 {
                        ", "@
                    } else {
                        Seq::<char>::empty()
                    };
                    assert(field_patterns_text(fields@, i + 1) == field_patterns_text(fields@, i as int) + sep
                        + fields@[i as int].0@ + ": "@ + pattern_text(fields@[i as int].1));
                    assert(r@ =~= o + field_patterns_text(fields@, i + 1));
                }
                i = i + 1;
            }
            r.append(" }");
            assert(r@ =~= pattern_text(*pat));
            r
        },
        Pattern::Annot { inner, .. } => render_pattern(inner),
    }
}

/// A constructor pattern: the fixed forms of the prelude constructors,
/// or a tagged hash.
fn render_ctor_pattern(pat: &Pattern, name: &String, args: &Vec<Pattern>) -> (r: String)
    requires
        pat matches Pattern::Con { name: n, args: a, .. } && n == *name && a == *args,
    ensures
        r@ == pattern_text(*pat),
    decreases pat, 0nat,
{
    proof {
        reveal_strlit("True");
        reveal_strlit("False");
        reveal_strlit("LT");
        reveal_strlit("EQ");
        reveal_strlit("GT");
        reveal_strlit("Nil");
        reveal_strlit("Cons");
        reveal_strlit("true");
        reveal_strlit("false");
        reveal_strlit(":lt");
        reveal_strlit(":eq");
        reveal_strlit(":gt");
        reveal_strlit("[]");
        reveal_strlit("[");
        reveal_strlit(", *");
        reveal_strlit("]");
        reveal_strlit("{ tag: :");
        reveal_strlit(", values: [] }");
        reveal_strlit(", values: [");
        reveal_strlit("] }");
        assert(decreases_to!(pat => args));
        assert(decreases_to!(args => args@));
    }
    if crate::lexer::scan::text_is(name, "True") {
        return String::from_str("true");
    }
    if crate::lexer::scan::text_is(name, "False") {
        return String::from_str("false");
    }
    if crate::lexer::scan::text_is(name, "LT") {
        return String::from_str(":lt");
    }
    if crate::lexer::scan::text_is(name, "EQ") {
        return String::from_str(":eq");
    }
    if crate::lexer::scan::text_is(name, "GT") {
        return String::from_str(":gt");
    }
    if crate::lexer::scan::text_is(name, "Nil") {
        return String::from_str("[]");
    }
    if crate::lexer::scan::text_is(name, "Cons") && args.len() == 2 {
        proof {
            assert(decreases_to!(args@ => args@[0]));
            assert(decreases_to!(args@ => args@[1]));
        }
        let mut r = String::from_str("[");
        r.append(render_pattern(&args[0]).as_str());
        r.append(", *");
        r.append(render_pattern(&args[1]).as_str());
        r.append("]");
        assert(r@ =~= pattern_text(*pat));
        return r;
    }
    let mut r = String::from_str("{ tag: :");
    r.append(name.as_str());
    if args.len() == 0 {
        r.append(", values: [] }");
    } else {
        r.append(", values: [");
        push_patterns(args, &mut r);
        r.append("] }");
    }
    assert(r@ =~= pattern_text(*pat));
    r
}

} // verus!
