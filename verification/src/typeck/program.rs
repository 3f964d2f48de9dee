//! Checking whole programs.
use vstd::prelude::*;

use super::error::TypeError;
use super::infer::{bindings_among, check_module, InferCtx};
use super::prelude::install_prelude;
use super::ty::Scheme;
use crate::ast::Module as AstModule;
use crate::resolver::table::{lemma_table_get_some, table_find, table_keys, table_lookup};
use crate::resolver::ResolvedProgram;
use crate::text::{join_text, string_views};

verus! {

/// The checked modules, with the schemes inferred for their bindings.
#[derive(Debug)]
pub struct TypedProgram {
    pub modules: Vec<TypedModule>,
}

/// One checked module: its dotted name and each top-level binding's
/// scheme, in the order the bindings were first inferred.
#[derive(Debug)]
pub struct TypedModule {
    pub id: String,
    pub schemes: Vec<(String, Scheme)>,
}

/// The number of modules not yet visited.
pub open spec fn count_unvisited(s: Seq<bool>) -> nat
    decreases s.len(),
{
    if s.len() == 0 {
        0
    } else {
        count_unvisited(s.drop_last()) + if !s.last() {
            1nat
        } else {
            0nat
        }
    }
}

/// Visiting more never leaves more unvisited; visiting one more leaves
/// fewer.
proof fn lemma_count_mono(a: Seq<bool>, b: Seq<bool>)
    requires
        a.len() == b.len(),
        forall|i: int| 0 <= i < a.len() && a[i] ==> b[i],
    ensures
        count_unvisited(b) <= count_unvisited(a),
        (exists|i: int| 0 <= i < a.len() && !a[i] && b[i]) ==> count_unvisited(b) < count_unvisited(a),
    decreases a.len(),
{
    if a.len() > 0 {
        lemma_count_mono(a.drop_last(), b.drop_last());
        if exists|i: int| 0 <= i < a.len() && !a[i] && b[i] {
            let i = choose|i: int| 0 <= i < a.len() && !a[i] && b[i];
            if i < a.len() - 1 {
                assert(!a.drop_last()[i] && b.drop_last()[i]);
            }
        }
    }
}

/// An edge of a graph given as adjacency lists: `b` is among `a`'s
/// successors.
pub open spec fn g_edge(g: Seq<Vec<usize>>, a: int, b: int) -> bool {
    0 <= a < g.len() && exists|t: int| 0 <= t < g[a]@.len() && #[trigger] g[a]@[t] as int == b
}

/// A walk along the edges of a graph, of one node at least.
pub open spec fn g_path(g: Seq<Vec<usize>>, p: Seq<int>) -> bool {
    p.len() >= 1 && forall|i: int| 0 <= i < p.len() - 1 ==> #[trigger] g_edge(g, p[i], p[i + 1])
}

/// `y` can be reached from `x` along the edges, in no steps when they
/// are the same node.
pub open spec fn g_reaches(g: Seq<Vec<usize>>, x: int, y: int) -> bool {
    exists|p: Seq<int>| #[trigger] g_path(g, p) && p[0] == x && p.last() == y
}

/// `a` comes before `b` in `o`.
pub open spec fn comes_before(o: Seq<usize>, a: int, b: int) -> bool {
    exists|i: int, j: int| 0 <= i < j < o.len() && #[trigger] o[i] == a && #[trigger] o[j] == b
}

/// What a depth-first visit keeps: the nodes finished so far are
/// distinct visited nodes; a visited node not finished is on the stack
/// of nodes being visited; and a finished node's successors were either
/// finished before it or reach it.
pub open spec fn dfs_inv(g: Seq<Vec<usize>>, visited: Seq<bool>, order: Seq<usize>, stack: Seq<int>) -> bool {
    &&& forall|i: int| 0 <= i < order.len() ==> (#[trigger] order[i]) < visited.len() && visited[order[i] as int]
    &&& forall|i: int, j: int| 0 <= i < j < order.len() ==> #[trigger] order[i] != #[trigger] order[j]
    &&& forall|w: int|
        0 <= w < visited.len() && #[trigger] visited[w] && !order.contains(w as usize) ==> stack.contains(w)
    &&& forall|x: usize, d: int|
        order.contains(x) && #[trigger] g_edge(g, x as int, d) ==> comes_before(order, d, x as int) || g_reaches(
            g,
            d,
            x as int,
        )
}

/// A part of a walk is a walk.
proof fn lemma_subpath(g: Seq<Vec<usize>>, p: Seq<int>, i: int)
    requires
        g_path(g, p),
        0 <= i < p.len(),
    ensures
        g_path(g, p.subrange(i, p.len() as int)),
{
    let q = p.subrange(i, p.len() as int);
    assert forall|k: int| 0 <= k < q.len() - 1 implies #[trigger] g_edge(g, q[k], q[k + 1]) by {
        assert(q[k] == p[i + k] && q[k + 1] == p[i + k + 1]);
        assert(g_edge(g, p[i + k], p[i + k + 1]));
    }
}

/// Post-order depth-first visit of `u` and what it depends on; `stack`
/// holds the nodes being visited, each an edge from the one before, the
/// last one with an edge to `u`.
fn visit(
    u: usize,
    deps: &Vec<Vec<usize>>,
    visited: &mut Vec<bool>,
    order: &mut Vec<usize>,
    Ghost(stack): Ghost<Seq<int>>,
)
    requires
        u < old(visited)@.len(),
        deps@.len() == old(visited)@.len(),
        forall|i: int, j: int|
            0 <= i < deps@.len() && 0 <= j < deps@[i]@.len() ==> #[trigger] deps@[i]@[j] < deps@.len(),
        dfs_inv(deps@, old(visited)@, old(order)@, stack),
        stack.len() > 0 ==> g_path(deps@, stack) && g_edge(deps@, stack.last(), u as int),
        forall|i: int| 0 <= i < stack.len() ==> 0 <= #[trigger] stack[i] < old(visited)@.len() && old(visited)@[stack[i]],
    ensures
        final(visited)@.len() == old(visited)@.len(),
        forall|i: int| 0 <= i < old(visited)@.len() && old(visited)@[i] ==> final(visited)@[i],
        final(visited)@[u as int],
        final(order)@.len() >= old(order)@.len(),
        final(order)@.take(old(order)@.len() as int) == old(order)@,
        forall|i: int|
            old(order)@.len() <= i < final(order)@.len() ==> !old(visited)@[#[trigger] final(order)@[i] as int],
        dfs_inv(deps@, final(visited)@, final(order)@, stack),
    decreases count_unvisited(old(visited)@),
{
    if visited[u] {
        assert(order@.take(order@.len() as int) =~= order@);
        return;
    }
    let ghost v0 = visited@;
    let ghost o0 = order@;
    let ghost g = deps@;
    let ghost st = stack.push(u as int);
    visited.set(u, true);
    proof {
        lemma_count_mono(v0, visited@);
        assert(!o0.contains(u)) by {
            if o0.contains(u) {
                let i = choose|i: int| 0 <= i < o0.len() && o0[i] == u;
                assert(v0[o0[i] as int]);
            }
        }
        assert(g_path(g, st)) by {
            assert forall|k: int| 0 <= k < st.len() - 1 implies #[trigger] g_edge(g, st[k], st[k + 1]) by {
                if k < stack.len() - 1 {
                    assert(st[k] == stack[k] && st[k + 1] == stack[k + 1]);
                    assert(g_edge(g, stack[k], stack[k + 1]));
                }
            }
        }
        assert(forall|w: int| 0 <= w < visited@.len() && #[trigger] visited@[w] && !order@.contains(w as usize) ==> st.contains(w)) by {
            assert forall|w: int| 0 <= w < visited@.len() && #[trigger] visited@[w] && !order@.contains(w as usize) implies st.contains(w) by {
                if w == u as int {
                    assert(st[st.len() - 1] == w);
                } else {
                    assert(v0[w]);
                    assert(stack.contains(w));
                    let i = choose|i: int| 0 <= i < stack.len() && stack[i] == w;
                    assert(st[i] == w);
                }
            }
        }
        assert(dfs_inv(g, visited@, order@, st));
    }
    let mut k: usize = 0;
    while k < deps[u].len()
        invariant
            u < visited@.len(),
            g == deps@,
            deps@.len() == visited@.len(),
            v0.len() == visited@.len(),
            v0 == old(visited)@,
            o0 == old(order)@,
            st == stack.push(u as int),
            forall|i: int, j: int|
                0 <= i < deps@.len() && 0 <= j < deps@[i]@.len() ==> #[trigger] deps@[i]@[j] < deps@.len(),
            forall|i: int| 0 <= i < v0.len() && v0[i] ==> visited@[i],
            visited@[u as int],
            !v0[u as int],
            count_unvisited(visited@) < count_unvisited(v0),
            k <= deps@[u as int]@.len(),
            g_path(g, st),
            forall|i: int| 0 <= i < st.len() ==> 0 <= #[trigger] st[i] < visited@.len() && visited@[st[i]],
            dfs_inv(g, visited@, order@, st),
            order@.len() >= o0.len(),
            order@.take(o0.len() as int) == o0,
            forall|i: int| o0.len() <= i < order@.len() ==> !v0[#[trigger] order@[i] as int],
            !order@.contains(u),
            forall|j: int| 0 <= j < k ==> visited@[#[trigger] deps@[u as int]@[j] as int],
        decreases deps@[u as int]@.len() - k,
    {
        let v = deps[u][k];
        let ghost before = visited@;
        let ghost ob = order@;
        proof {
            assert(st.last() == u as int);
            assert(g_edge(g, u as int, v as int)) by {
                assert(g[u as int]@[k as int] as int == v as int);
            }
            assert forall|i: int| 0 <= i < st.len() implies 0 <= #[trigger] st[i] < before.len() && before[st[i]] by {}
        }
        visit(v, deps, visited, order, Ghost(st));
        proof {
            lemma_count_mono(before, visited@);
            assert forall|i: int| 0 <= i < st.len() implies 0 <= #[trigger] st[i] < visited@.len() && visited@[st[i]] by {
                assert(before[st[i]]);
            }
            assert(order@.take(ob.len() as int) == ob);
            assert(order@.take(o0.len() as int) =~= o0) by {
                assert(ob.take(o0.len() as int) == o0);
                assert forall|i: int| 0 <= i < o0.len() implies order@.take(o0.len() as int)[i] == o0[i] by {
                    assert(order@[i] == order@.take(ob.len() as int)[i]);
                    assert(ob[i] == ob.take(o0.len() as int)[i]);
                }
            }
            assert forall|i: int| o0.len() <= i < order@.len() implies !v0[#[trigger] order@[i] as int] by {
                if i < ob.len() {
                    assert(order@[i] == order@.take(ob.len() as int)[i]);
                } else {
                    assert(!before[order@[i] as int]);
                }
            }
            assert(!order@.contains(u)) by {
                if order@.contains(u) {
                    let i = choose|i: int| 0 <= i < order@.len() && order@[i] == u;
                    if i < ob.len() {
                        assert(order@[i] == order@.take(ob.len() as int)[i]);
                        assert(ob[i] == u);
                        assert(ob.contains(u));
                    } else {
                        assert(!before[order@[i] as int]);
                        assert(before[u as int]);
                    }
                }
            }
            assert forall|j: int| 0 <= j < k + 1 implies visited@[#[trigger] deps@[u as int]@[j] as int] by {
                if j < k {
                    assert(before[deps@[u as int]@[j] as int]);
                }
            }
        }
        k = k + 1;
    }
    let ghost ob = order@;
    order.push(u);
    proof {
        let o = order@;
        assert(o.take(o0.len() as int) =~= o0) by {
            assert forall|i: int| 0 <= i < o0.len() implies o.take(o0.len() as int)[i] == o0[i] by {
                assert(o[i] == ob[i]);
                assert(ob[i] == ob.take(o0.len() as int)[i]);
            }
        }
        assert forall|i: int| o0.len() <= i < o.len() implies !v0[#[trigger] o[i] as int] by {
            if i < ob.len() {
                assert(o[i] == ob[i]);
            }
        }
        // The finished nodes stay distinct, visited, and within range.
        assert forall|i: int| 0 <= i < o.len() implies (#[trigger] o[i]) < visited@.len() && visited@[o[i] as int] by {
            if i < ob.len() {
                assert(o[i] == ob[i]);
            }
        }
        assert forall|i: int, j: int| 0 <= i < j < o.len() implies #[trigger] o[i] != #[trigger] o[j] by {
            if j == o.len() - 1 {
                assert(o[i] == ob[i]);
                assert(!ob.contains(u));
            } else {
                assert(o[i] == ob[i] && o[j] == ob[j]);
            }
        }
        // Visited nodes not finished are still on the stack below `u`.
        assert forall|w: int| 0 <= w < visited@.len() && #[trigger] visited@[w] && !o.contains(w as usize) implies stack.contains(w) by {
            assert(!ob.contains(w as usize)) by {
                if ob.contains(w as usize) {
                    let i = choose|i: int| 0 <= i < ob.len() && ob[i] == w as usize;
                    assert(o[i] == ob[i]);
                }
            }
            assert(st.contains(w));
            let i = choose|i: int| 0 <= i < st.len() && st[i] == w;
            assert(w != u as int) by {
                assert(o[o.len() - 1] == u);
            }
            assert(i < stack.len());
            assert(stack[i] == w);
        }
        // Each finished node's successors came before it or reach it.
        assert forall|x: usize, d: int| o.contains(x) && #[trigger] g_edge(g, x as int, d) implies comes_before(o, d, x as int)
            || g_reaches(g, d, x as int) by {
            assert(o == ob.push(u));
            if x == u {
                let kk = choose|kk: int| 0 <= kk < g[x as int]@.len() && #[trigger] g[x as int]@[kk] as int == d;
                assert(visited@[deps@[u as int]@[kk] as int]);
                assert(deps@[u as int]@[kk] < deps@.len());
                assert(0 <= d < visited@.len());
                if ob.contains(d as usize) {
                    let i = choose|i: int| 0 <= i < ob.len() && ob[i] == d as usize;
                    assert(o[i] == ob[i]);
                    assert(o[i] == d && o[o.len() - 1] == u);
                    assert(comes_before(o, d, x as int));
                } else {
                    assert(st.contains(d));
                    let i = choose|i: int| 0 <= i < st.len() && st[i] == d;
                    lemma_subpath(g, st, i);
                    let p = st.subrange(i, st.len() as int);
                    assert(p[0] == d && p.last() == u as int);
                    assert(g_path(g, p));
                }
            } else {
                assert(ob.contains(x)) by {
                    let i = choose|i: int| 0 <= i < o.len() && o[i] == x;
                    if i == o.len() - 1 {
                        assert(o[i] == u);
                        assert(false);
                    }
                    assert(o[i] == ob[i]);
                }
                if comes_before(ob, d, x as int) {
                    let (i, j) = choose|i: int, j: int| 0 <= i < j < ob.len() && #[trigger] ob[i] == d && #[trigger] ob[j] == x as int;
                    assert(o[i] == ob[i] && o[j] == ob[j]);
                    assert(comes_before(o, d, x as int));
                }
            }
        }
        assert(dfs_inv(g, visited@, o, stack));
    }
}

/// The dotted names of the modules.
pub open spec fn module_names(p: ResolvedProgram) -> Seq<Seq<char>> {
    p.modules@.map_values(|m: crate::resolver::ResolvedModule| join_text(m.id@, "."@))
}

/// The index of the last name in `names` equal to `name`.
pub open spec fn last_named(names: Seq<Seq<char>>, name: Seq<char>) -> Option<int>
    decreases names.len(),
{
    if names.len() == 0 {
        None
    } else if names.last() == name {
        Some(names.len() - 1)
    } else {
        last_named(names.drop_last(), name)
    }
}

/// The dotted name of module `a`'s import `k`.
pub open spec fn import_name(p: ResolvedProgram, a: int, k: int) -> Seq<char> {
    join_text(string_views(p.modules@[a].ast.imports@[k].name.segments@), "."@)
}

/// Module `a` imports module `b`: one of `a`'s imports names `b`, the
/// last module of that name.
pub open spec fn imports_module(p: ResolvedProgram, a: int, b: int) -> bool {
    &&& 0 <= a < p.modules@.len()
    &&& exists|k: int|
        0 <= k < p.modules@[a].ast.imports@.len() && last_named(module_names(p), #[trigger] import_name(p, a, k))
            == Some(b)
}

/// A chain of imports, each module importing the next.
pub open spec fn import_chain(p: ResolvedProgram, c: Seq<int>) -> bool {
    c.len() >= 1 && forall|i: int| 0 <= i < c.len() - 1 ==> #[trigger] imports_module(p, c[i], c[i + 1])
}

/// A chain of imports leads from `x` to `y`.
pub open spec fn imports_reach(p: ResolvedProgram, x: int, y: int) -> bool {
    exists|c: Seq<int>| #[trigger] import_chain(p, c) && c[0] == x && c.last() == y
}

/// An order to check the modules in: each module once, and each module
/// after those it imports, except where an import closes a cycle.
pub open spec fn dependency_order(p: ResolvedProgram, o: Seq<usize>) -> bool {
    &&& o.len() == p.modules@.len()
    &&& forall|i: int| 0 <= i < o.len() ==> (#[trigger] o[i]) < o.len()
    &&& forall|i: int, j: int| 0 <= i < j < o.len() ==> #[trigger] o[i] != #[trigger] o[j]
    &&& forall|a: int, b: int| #[trigger] imports_module(p, a, b) ==> comes_before(o, b, a) || imports_reach(p, b, a)
}

/// In an order of the modules, a module that is in no import cycle
/// comes after every module it imports.
pub proof fn lemma_dependency_order_acyclic(p: ResolvedProgram, o: Seq<usize>, a: int, b: int)
    requires
        dependency_order(p, o),
        imports_module(p, a, b),
        !imports_reach(p, b, a),
    ensures
        comes_before(o, b, a),
{
}

/// The module a dotted name stands for, among the first `j` names.
proof fn lemma_last_named_step(names: Seq<Seq<char>>, name: Seq<char>, j: int)
    requires
        0 <= j < names.len(),
    ensures
        last_named(names.take(j + 1), name) == if names[j] == name {
            Some(j)
        } else {
            last_named(names.take(j), name)
        },
{
    assert(names.take(j + 1).drop_last() =~= names.take(j));
}

/// The modules in an order in which each comes after the modules it
/// imports (by dotted name; imports of unknown modules are ignored),
/// unless an import closes a cycle.
fn topological_order(resolved: &ResolvedProgram) -> (r: Vec<usize>)
    ensures
        dependency_order(*resolved, r@),
{
    let n = resolved.modules.len();
    let ghost names_v = module_names(*resolved);
    let mut names: Vec<String> = Vec::new();
    let mut i: usize = 0;
    while i < n
        invariant
            n == resolved.modules@.len(),
            names_v == module_names(*resolved),
            i <= n,
            names@.len() == i,
            forall|k: int| 0 <= k < i ==> (#[trigger] names@[k])@ == names_v[k],
        decreases n - i,
    {
        names.push(resolved.modules[i].id.display());
        i = i + 1;
    }
    let mut deps: Vec<Vec<usize>> = Vec::new();
    i = 0;
    while i < n
        invariant
            n == resolved.modules@.len(),
            names_v == module_names(*resolved),
            names@.len() == n,
            forall|k: int| 0 <= k < n ==> (#[trigger] names@[k])@ == names_v[k],
            i <= n,
            deps@.len() == i,
            forall|a: int, b: int| 0 <= a < deps@.len() && 0 <= b < deps@[a]@.len() ==> #[trigger] deps@[a]@[b] < n,
            forall|a: int, b: int| 0 <= a < i && #[trigger] g_edge(deps@, a, b) ==> imports_module(*resolved, a, b),
            forall|a: int, b: int| 0 <= a < i && #[trigger] imports_module(*resolved, a, b) ==> g_edge(deps@, a, b),
        decreases n - i,
    {
        let m = &resolved.modules[i];
        let mut ds: Vec<usize> = Vec::new();
        let mut k: usize = 0;
        while k < m.ast.imports.len()
            invariant
                n == resolved.modules@.len(),
                names_v == module_names(*resolved),
                names@.len() == n,
                forall|q: int| 0 <= q < n ==> (#[trigger] names@[q])@ == names_v[q],
                i < n,
                *m == resolved.modules@[i as int],
                k <= m.ast.imports@.len(),
                forall|b: int| 0 <= b < ds@.len() ==> #[trigger] ds@[b] < n,
                forall|b: usize|
                    #[trigger] ds@.contains(b) <==> exists|q: int|
                        0 <= q < k && last_named(names_v, #[trigger] import_name(*resolved, i as int, q)) == Some(
                            b as int,
                        ),
            decreases m.ast.imports.len() - k,
        {
            let name = crate::text::join_strings(&m.ast.imports[k].name.segments, ".");
            assert(name@ == import_name(*resolved, i as int, k as int));
            let mut found: Option<usize> = None;
            let mut j: usize = 0;
            assert(names_v.take(0) =~= Seq::<Seq<char>>::empty());
            while j < n
                invariant
                    names@.len() == n,
                    names_v.len() == n,
                    forall|q: int| 0 <= q < n ==> (#[trigger] names@[q])@ == names_v[q],
                    j <= n,
                    match found {
                        Some(x) => last_named(names_v.take(j as int), name@) == Some(x as int) && x < n,
                        None => last_named(names_v.take(j as int), name@) is None,
                    },
                decreases n - j,
            {
                proof {
                    lemma_last_named_step(names_v, name@, j as int);
                }
                if names[j].eq(&name) {
                    found = Some(j);
                }
                j = j + 1;
            }
            assert(names_v.take(n as int) =~= names_v);
            let ghost ds0 = ds@;
            match found {
                Some(j) => ds.push(j),
                None => {},
            }
            proof {
                assert forall|b: usize|
                    #[trigger] ds@.contains(b) <==> exists|q: int|
                        0 <= q < k + 1 && last_named(names_v, #[trigger] import_name(*resolved, i as int, q)) == Some(
                            b as int,
                        ) by {
                    if ds@.contains(b) {
                        let t = choose|t: int| 0 <= t < ds@.len() && ds@[t] == b;
                        if t < ds0.len() {
                            assert(ds0.contains(b));
                        } else {
                            assert(last_named(names_v, import_name(*resolved, i as int, k as int)) == Some(b as int));
                        }
                    }
                    if exists|q: int| 0 <= q < k + 1 && last_named(names_v, #[trigger] import_name(*resolved, i as int, q)) == Some(b as int) {
                        let q = choose|q: int| 0 <= q < k + 1 && last_named(names_v, #[trigger] import_name(*resolved, i as int, q)) == Some(b as int);
                        if q < k {
                            assert(ds0.contains(b));
                            let t = choose|t: int| 0 <= t < ds0.len() && ds0[t] == b;
                            assert(ds@[t] == b);
                        } else {
                            assert(ds@[ds@.len() - 1] == b);
                        }
                    }
                }
            }
            k = k + 1;
        }
        let ghost d0 = deps@;
        deps.push(ds);
        proof {
            assert forall|a: int, b: int| 0 <= a < deps@.len() && 0 <= b < deps@[a]@.len() implies #[trigger] deps@[a]@[b] < n by {
                if a < d0.len() {
                    assert(deps@[a] == d0[a]);
                }
            }
            assert forall|a: int, b: int| 0 <= a < i + 1 && #[trigger] g_edge(deps@, a, b) implies imports_module(*resolved, a, b) by {
                if a < i {
                    assert(deps@[a] == d0[a]);
                    let t = choose|t: int| 0 <= t < deps@[a]@.len() && #[trigger] deps@[a]@[t] as int == b;
                    assert(d0[a]@[t] as int == b);
                    assert(g_edge(d0, a, b));
                } else {
                    assert(deps@[a] == ds);
                    let t = choose|t: int| 0 <= t < deps@[a]@.len() && #[trigger] deps@[a]@[t] as int == b;
                    let bu = ds@[t];
                    assert(ds@.contains(bu));
                    let q = choose|q: int| 0 <= q < m.ast.imports@.len() && last_named(names_v, #[trigger] import_name(*resolved, i as int, q)) == Some(bu as int);
                    assert(*m == resolved.modules@[a]);
                }
            }
            assert forall|a: int, b: int| 0 <= a < i + 1 && #[trigger] imports_module(*resolved, a, b) implies g_edge(deps@, a, b) by {
                if a < i {
                    assert(deps@[a] == d0[a]);
                    assert(g_edge(d0, a, b));
                    let t = choose|t: int| 0 <= t < d0[a]@.len() && #[trigger] d0[a]@[t] as int == b;
                    assert(deps@[a]@[t] as int == b);
                } else {
                    assert(deps@[a] == ds);
                    assert(*m == resolved.modules@[a]);
                    let q = choose|q: int| 0 <= q < resolved.modules@[a].ast.imports@.len() && last_named(module_names(*resolved), #[trigger] import_name(*resolved, a, q)) == Some(b);
                    lemma_last_named_in(names_v, import_name(*resolved, a, q));
                    let bu = b as usize;
                    assert(exists|qq: int| 0 <= qq < m.ast.imports@.len() && last_named(names_v, #[trigger] import_name(*resolved, i as int, qq)) == Some(bu as int));
                    assert(ds@.contains(bu));
                    let t = choose|t: int| 0 <= t < ds@.len() && ds@[t] == bu;
                    assert(deps@[a]@[t] as int == b);
                }
            }
        }
        i = i + 1;
    }
    let mut visited: Vec<bool> = Vec::new();
    i = 0;
    while i < n
        invariant
            i <= n,
            visited@.len() == i,
            forall|q: int| 0 <= q < i ==> !visited@[q],
        decreases n - i,
    {
        visited.push(false);
        i = i + 1;
    }
    let mut order: Vec<usize> = Vec::new();
    assert(dfs_inv(deps@, visited@, order@, Seq::empty()));
    i = 0;
    while i < n
        invariant
            i <= n,
            visited@.len() == n,
            deps@.len() == n,
            forall|a: int, b: int| 0 <= a < deps@.len() && 0 <= b < deps@[a]@.len() ==> #[trigger] deps@[a]@[b] < n,
            dfs_inv(deps@, visited@, order@, Seq::empty()),
            forall|q: int| 0 <= q < i ==> visited@[q],
        decreases n - i,
    {
        let ghost before = visited@;
        visit(i, &deps, &mut visited, &mut order, Ghost(Seq::empty()));
        proof {
            assert forall|q: int| 0 <= q < i + 1 implies visited@[q] by {
                if q < i {
                    assert(before[q]);
                }
            }
        }
        i = i + 1;
    }
    proof {
        let o = order@;
        let g = deps@;
        // Every module was visited, so every module is finished.
        assert forall|w: usize| (w as int) < n implies #[trigger] o.contains(w) by {
            assert(visited@[w as int]);
            assert(!Seq::<int>::empty().contains(w as int));
        }
        lemma_distinct_len(o, n as int);
        assert forall|a: int, b: int| #[trigger] imports_module(*resolved, a, b) implies comes_before(o, b, a)
            || imports_reach(*resolved, b, a) by {
            let kk = choose|kk: int| 0 <= kk < resolved.modules@[a].ast.imports@.len() && last_named(module_names(*resolved), #[trigger] import_name(*resolved, a, kk)) == Some(b);
            lemma_last_named_in(names_v, import_name(*resolved, a, kk));
            assert(0 <= b < n);
            assert(g_edge(g, a, b));
            assert(o.contains(a as usize));
            assert(g_edge(g, (a as usize) as int, b));
            if !comes_before(o, b, a) {
                assert(g_reaches(g, b, a));
                let pth = choose|pth: Seq<int>| #[trigger] g_path(g, pth) && pth[0] == b && pth.last() == a;
                assert(import_chain(*resolved, pth)) by {
                    assert forall|t: int| 0 <= t < pth.len() - 1 implies #[trigger] imports_module(*resolved, pth[t], pth[t + 1]) by {
                        assert(g_edge(g, pth[t], pth[t + 1]));
                    }
                }
            }
        }
    }
    order
}

/// A name found among the names is at a position within them.
proof fn lemma_last_named_in(names: Seq<Seq<char>>, name: Seq<char>)
    ensures
        last_named(names, name) matches Some(j) ==> 0 <= j < names.len(),
    decreases names.len(),
{
    if names.len() > 0 && names.last() != name {
        lemma_last_named_in(names.drop_last(), name);
    }
}

/// `n` distinct numbers below `n` take them all: a sequence of distinct
/// numbers below `n` that holds each of them has `n` elements, each
/// below `n`.
proof fn lemma_distinct_len(o: Seq<usize>, n: int)
    requires
        0 <= n,
        forall|i: int| 0 <= i < o.len() ==> (#[trigger] o[i]) < n,
        forall|i: int, j: int| 0 <= i < j < o.len() ==> #[trigger] o[i] != #[trigger] o[j],
        n <= usize::MAX + 1,
        forall|w: usize| (w as int) < n ==> #[trigger] o.contains(w),
    ensures
        o.len() == n,
{
    let s = o.to_set();
    let full = Set::new(|w: usize| (w as int) < n);
    assert(s =~= full) by {
        assert forall|w: usize| s.contains(w) <==> full.contains(w) by {
            if (w as int) < n {
                assert(o.contains(w));
            }
        }
    }
    o.unique_seq_to_set();
    lemma_range_set_len(n);
}

/// The numbers below `n` are `n` many.
proof fn lemma_range_set_len(n: int)
    requires
        0 <= n <= usize::MAX + 1,
    ensures
        Set::new(|w: usize| (w as int) < n).finite(),
        Set::new(|w: usize| (w as int) < n).len() == n,
    decreases n,
{
    let full = Set::new(|w: usize| (w as int) < n);
    if n == 0 {
        assert(full =~= Set::<usize>::empty());
    } else {
        lemma_range_set_len(n - 1);
        let smaller = Set::new(|w: usize| (w as int) < n - 1);
        assert(full =~= smaller.insert((n - 1) as usize));
    }
}

/// Check every module of a resolved program against the prelude and the
/// modules before it, in dependency order; all the errors met, or each
/// module's schemes, the modules in the order they were checked.
pub fn check_program(resolved: &ResolvedProgram) -> (r: Result<TypedProgram, Vec<TypeError>>)
    ensures
        r matches Err(errs) ==> errs@.len() > 0,
        r matches Ok(p) ==> exists|o: Seq<usize>|
            #[trigger] dependency_order(*resolved, o) && p.modules@.len() == o.len() && forall|i: int|
                0 <= i < o.len() ==> (#[trigger] p.modules@[i]).id@ == module_names(*resolved)[o[i] as int]
                    && bindings_among(resolved.modules@[o[i] as int].ast.decls@, table_keys(p.modules@[i].schemes@)),
{
    let mut ctx = InferCtx::new(String::from_str("Prelude"));
    install_prelude(&mut ctx);
    let mut all_errors: Vec<TypeError> = Vec::new();
    let mut modules: Vec<TypedModule> = Vec::new();
    let order = topological_order(resolved);
    let ghost names = module_names(*resolved);
    let mut k: usize = 0;
    while k < order.len()
        invariant
            ctx.wf(),
            k <= order@.len(),
            dependency_order(*resolved, order@),
            names == module_names(*resolved),
            all_errors@.len() == 0 ==> modules@.len() == k && forall|i: int|
                0 <= i < k ==> (#[trigger] modules@[i]).id@ == names[order@[i] as int] && bindings_among(
                    resolved.modules@[order@[i] as int].ast.decls@,
                    table_keys(modules@[i].schemes@),
                ),
        decreases order.len() - k,
    {
        let idx = order[k];
        assert(idx < order@.len());
        let rm = &resolved.modules[idx];
        let name = rm.id.display();
        assert(name@ == names[idx as int]);
        ctx.module = name.clone();
        match check_module(&mut ctx, &rm.ast) {
            Ok(()) => {
                let schemes = inferred_schemes(&ctx);
                proof {
                    lemma_bindings_among_mono(rm.ast.decls@, table_keys(ctx.inferred@), table_keys(schemes@));
                }
                let ghost before = modules@;
                modules.push(TypedModule { id: name, schemes });
                proof {
                    if all_errors@.len() == 0 {
                        assert forall|i: int| 0 <= i < k + 1 implies (#[trigger] modules@[i]).id@ == names[order@[i] as int]
                            && bindings_among(
                            resolved.modules@[order@[i] as int].ast.decls@,
                            table_keys(modules@[i].schemes@),
                        ) by {
                            if i < k {
                                assert(modules@[i] == before[i]);
                            }
                        }
                    }
                }
                ctx.inferred = Vec::new();
                ctx.inferred_order = Vec::new();
            },
            Err(errs) => {
                let mut es = errs;
                all_errors.append(&mut es);
            },
        }
        k = k + 1;
    }
    if all_errors.len() == 0 {
        Ok(TypedProgram { modules })
    } else {
        Err(all_errors)
    }
}

/// The inferred schemes, in the order first inferred: one for each name
/// inferred.
fn inferred_schemes(ctx: &InferCtx) -> (r: Vec<(String, Scheme)>)
    requires
        ctx.wf(),
    ensures
        forall|q: Seq<char>| #[trigger] table_keys(ctx.inferred@).contains(q) ==> table_keys(r@).contains(q),
{
    let ghost order = string_views(ctx.inferred_order@);
    let mut schemes: Vec<(String, Scheme)> = Vec::new();
    let mut i: usize = 0;
    while i < ctx.inferred_order.len()
        invariant
            ctx.wf(),
            order == string_views(ctx.inferred_order@),
            i <= ctx.inferred_order@.len(),
            forall|j: int|
                0 <= j < i && table_keys(ctx.inferred@).contains(#[trigger] order[j]) ==> table_keys(
                    schemes@,
                ).contains(order[j]),
        decreases ctx.inferred_order.len() - i,
    {
        let ghost s0 = schemes@;
        proof {
            lemma_table_get_some(ctx.inferred@, order[i as int]);
        }
        match table_lookup(&ctx.inferred, ctx.inferred_order[i].as_str()) {
            Some(s) => {
                schemes.push((ctx.inferred_order[i].clone(), s.clone()));
                assert(table_keys(schemes@)[s0.len() as int] == order[i as int]);
            },
            None => {
                proof {
                    if table_keys(ctx.inferred@).contains(order[i as int]) {
                        let t = choose|t: int| 0 <= t < ctx.inferred@.len() && table_keys(ctx.inferred@)[t] == order[i as int];
                        assert(ctx.inferred@[t].0@ == order[i as int]);
                    }
                }
            },
        }
        proof {
            assert forall|j: int|
                0 <= j < i + 1 && table_keys(ctx.inferred@).contains(#[trigger] order[j]) implies table_keys(
                schemes@,
            ).contains(order[j]) by {
                if j < i {
                    let t = choose|t: int| 0 <= t < s0.len() && table_keys(s0)[t] == order[j];
                    assert(table_keys(schemes@)[t] == table_keys(s0)[t]);
                }
            }
        }
        i = i + 1;
    }
    proof {
        assert forall|q: Seq<char>| #[trigger] table_keys(ctx.inferred@).contains(q) implies table_keys(schemes@).contains(q) by {
            assert(order.contains(q));
            let j = choose|j: int| 0 <= j < order.len() && order[j] == q;
            assert(table_keys(ctx.inferred@).contains(order[j]));
        }
    }
    schemes
}

/// Every binding among some keys is among more keys.
proof fn lemma_bindings_among_mono(decls: Seq<crate::ast::Decl>, a: Seq<Seq<char>>, b: Seq<Seq<char>>)
    requires
        bindings_among(decls, a),
        forall|q: Seq<char>| #[trigger] a.contains(q) ==> b.contains(q),
    ensures
        bindings_among(decls, b),
{
    assert forall|i: int| 0 <= i < decls.len() implies match #[trigger] decls[i] {
        crate::ast::Decl::Value(vc) => b.contains(vc.name@),
        crate::ast::Decl::RubyEmbed(re) => b.contains(re.name@),
        _ => true,
    } by {
        match decls[i] {
            crate::ast::Decl::Value(vc) => {
                assert(a.contains(vc.name@));
            },
            crate::ast::Decl::RubyEmbed(re) => {
                assert(a.contains(re.name@));
            },
            _ => {},
        }
    }
}

/// Check one module, named `module_name`, against the prelude alone;
/// its bindings' schemes in the order first inferred, or the errors.
pub fn check_module_standalone(module_name: &str, module: &AstModule) -> (r: Result<
    Vec<(String, Scheme)>,
    Vec<TypeError>,
>)
    ensures
        r matches Err(errs) ==> errs@.len() > 0,
        r matches Ok(schemes) ==> bindings_among(module.decls@, table_keys(schemes@)),
{
    let mut ctx = InferCtx::new(String::from_str(module_name));
    install_prelude(&mut ctx);
    match check_module(&mut ctx, module) {
        Ok(()) => {
            let schemes = inferred_schemes(&ctx);
            proof {
                lemma_bindings_among_mono(module.decls@, table_keys(ctx.inferred@), table_keys(schemes@));
            }
            Ok(schemes)
        },
        Err(e) => Err(e),
    }
}

} // verus!
