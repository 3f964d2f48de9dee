//! The generated files and where they go.
use vstd::prelude::*;
use vstd::string::StrSliceExecFns;

use crate::ast::Module as AstModule;
use crate::text::{join_strings, join_text, string_views};

verus! {

/// One Ruby file: its path under the output directory, always with `/`
/// separators, and its source, ending in a newline.
#[derive(Debug, PartialEq, Eq)]
pub struct GeneratedFile {
    pub path: String,
    pub content: String,
}

/// The files of a compiled program: the prelude first, then the modules
/// in dependency order.
#[derive(Debug, PartialEq, Eq)]
pub struct GeneratedProgram {
    pub files: Vec<GeneratedFile>,
}

/// Whether `c` is an ASCII capital.
pub open spec fn is_ascii_upper(c: char) -> bool {
    'A' <= c && c <= 'Z'
}

/// `c` in lower case, when an ASCII capital; otherwise `c`.
pub open spec fn ascii_lower(c: char) -> char {
    if is_ascii_upper(c) {
        ((c as u32) + 32) as char
    } else {
        c
    }
}

/// The first `n` characters in snake case: an underscore before each
/// capital but the first character, every capital in lower case.
pub open spec fn snake_prefix(s: Seq<char>, n: int) -> Seq<char>
    decreases n,
{
    if n <= 0 || n > s.len() {
        Seq::empty()
    } else {
        let c = s[n - 1];
        let piece = if n - 1 > 0 && is_ascii_upper(c) {
            seq!['_', ascii_lower(c)]
        } else {
            seq![ascii_lower(c)]
        };
        snake_prefix(s, n - 1) + piece
    }
}

/// A module-name segment as a file or directory name: `DataList`
/// becomes `data_list`, `HTTPServer` becomes `h_t_t_p_server`.
pub open spec fn snake_text(s: Seq<char>) -> Seq<char> {
    snake_prefix(s, s.len() as int)
}

/// A module-name segment as a file or directory name.
pub fn to_snake_case(s: &str) -> (r: String)
    ensures
        r@ == snake_text(s@),
{
    let n = s.unicode_len();
    let mut out = String::new();
    let mut i: usize = 0;
    while i < n
        invariant
            n == s@.len(),
            i <= n,
            out@ == snake_prefix(s@, i as int),
        decreases n - i,
    {
        let ch = s.get_char(i);
        if i > 0 && 'A' <= ch && ch <= 'Z' {
            out.push('_');
        }
        let lower = if 'A' <= ch && ch <= 'Z' {
            char::from_u32((ch as u32) + 32).unwrap()
        } else {
            ch
        };
        proof {
            if 'A' <= ch && ch <= 'Z' {
                let x: u32 = ((ch as u32) + 32) as u32;
                assert(lower as u32 == x);
                vstd::utf8::char_u32_cast(lower, x);
                assert(lower == (x as char));
            }
        }
        assert(lower == ascii_lower(ch));
        assert(ch == s@[i as int]);
        out.push(lower);
        proof {
            assert(out@ =~= snake_prefix(s@, i + 1));
        }
        i = i + 1;
    }
    out
}

/// The segments of a module's output path: its name's segments in
/// snake case, or `main` for a file without a header.
pub open spec fn output_segments(m: AstModule) -> Seq<Seq<char>> {
    match m.header {
        Some(h) => string_views(h.name.segments@).map_values(|x: Seq<char>| snake_text(x)),
        None => seq!["main"@],
    }
}

/// Where a module's Ruby file goes: `sapphire/` and its segments joined
/// by `/`, then `.rb`.
pub fn module_output_path(m: &AstModule) -> (r: String)
    ensures
        r@ == "sapphire/"@ + join_text(output_segments(*m), "/"@) + ".rb"@,
{
    let mut segments: Vec<String> = Vec::new();
    match &m.header {
        Some(h) => {
            let mut i: usize = 0;
            while i < h.name.segments.len()
                invariant
                    i <= h.name.segments@.len(),
                    string_views(segments@) == string_views(h.name.segments@).take(i as int).map_values(
                        |x: Seq<char>| snake_text(x),
                    ),
                decreases h.name.segments.len() - i,
            {
                let t = to_snake_case(h.name.segments[i].as_str());
                let ghost before = segments@;
                segments.push(t);
                proof {
                    let a = string_views(segments@);
                    let b = string_views(h.name.segments@).take(i + 1).map_values(|x: Seq<char>| snake_text(x));
                    let c = string_views(h.name.segments@).take(i as int).map_values(|x: Seq<char>| snake_text(x));
                    assert(c.len() == i);
                    assert(string_views(before).len() == before.len());
                    assert(before.len() == i);
                    assert(segments@.len() == i + 1);
                    assert(b.len() == i + 1);
                    assert(a.len() == b.len());
                    assert forall|k: int| 0 <= k < a.len() implies a[k] == b[k] by {
                        if k < i {
                            assert(segments@[k] == before[k]);
                            assert(string_views(before)[k] == c[k]);
                        }
                    }
                    assert(a =~= b);
                }
                i = i + 1;
            }
            proof {
                assert(string_views(h.name.segments@).take(h.name.segments@.len() as int) =~= string_views(
                    h.name.segments@,
                ));
            }
        },
        None => {
            segments.push(String::from_str("main"));
            proof {
                reveal_strlit("main");
                assert(string_views(segments@) =~= seq!["main"@]);
            }
        },
    }
    let mut r = String::from_str("sapphire/");
    let joined = join_strings(&segments, "/");
    r.append(joined.as_str());
    r.append(".rb");
    r
}

/// The pieces of `s` between its `.` characters; one more piece than
/// there are dots.
pub open spec fn split_dots(s: Seq<char>) -> Seq<Seq<char>>
    decreases s.len(),
{
    if s.len() == 0 {
        seq![Seq::empty()]
    } else {
        let p = split_dots(s.drop_last());
        if s.last() == '.' {
            p.push(Seq::empty())
        } else {
            p.update(p.len() - 1, p.last().push(s.last()))
        }
    }
}

/// The pieces of a dotted module name, as `str::split('.')` gives them.
fn split_on_dots(s: &str) -> (r: Vec<String>)
    ensures
        string_views(r@) == split_dots(s@),
{
    let n = s.unicode_len();
    let mut done: Vec<String> = Vec::new();
    let mut cur = String::new();
    let mut j: usize = 0;
    assert(s@.take(0) =~= Seq::<char>::empty());
    assert(string_views(done@).push(cur@) =~= split_dots(s@.take(0)));
    while j < n
        invariant
            j <= n,
            n == s@.len(),
            string_views(done@).push(cur@) == split_dots(s@.take(j as int)),
        decreases n - j,
    {
        let c = s.get_char(j);
        let ghost prev = split_dots(s@.take(j as int));
        assert(s@.take(j + 1).drop_last() =~= s@.take(j as int));
        assert(s@.take(j + 1).last() == c);
        if c == '.' {
            done.push(cur);
            cur = String::new();
            assert(string_views(done@).push(cur@) =~= prev.push(Seq::empty()));
        } else {
            cur.push(c);
            assert(string_views(done@).push(cur@) =~= prev.update(prev.len() - 1, prev.last().push(c)));
        }
        j = j + 1;
    }
    assert(s@.take(j as int) =~= s@);
    done.push(cur);
    done
}

/// The path, under the output directory and without `.rb`, that Ruby
/// loads a module from: `sapphire/` and the module's dot-separated
/// segments in snake case, joined by `/`.
pub fn module_rb_path(dotted: &str) -> (r: String)
    ensures
        r@ == "sapphire/"@ + join_text(split_dots(dotted@).map_values(|x: Seq<char>| snake_text(x)), "/"@),
{
    let pieces = split_on_dots(dotted);
    let ghost target = split_dots(dotted@).map_values(|x: Seq<char>| snake_text(x));
    let mut segs: Vec<String> = Vec::new();
    let mut i: usize = 0;
    while i < pieces.len()
        invariant
            i <= pieces@.len(),
            string_views(pieces@) == split_dots(dotted@),
            target == split_dots(dotted@).map_values(|x: Seq<char>| snake_text(x)),
            segs@.len() == i,
            forall|k: int| 0 <= k < i ==> (#[trigger] segs@[k])@ == target[k],
        decreases pieces.len() - i,
    {
        assert(pieces@[i as int]@ == split_dots(dotted@)[i as int]);
        segs.push(to_snake_case(pieces[i].as_str()));
        i = i + 1;
    }
    assert(string_views(segs@) =~= target);
    let mut r = String::from_str("sapphire/");
    r.append(join_strings(&segs, "/").as_str());
    r
}

} // verus!
