//! Cycles in the import graph, found by depth-first search.
use vstd::prelude::*;

verus! {

/// `v` is among the modules `u` imports.
pub open spec fn is_edge(g: Seq<Vec<usize>>, u: int, v: int) -> bool {
    0 <= u < g.len() && g[u]@.contains(v as usize)
}

/// `c` is a cycle of the graph: at least one step, each step an
/// import, ending where it started.
pub open spec fn is_cycle(g: Seq<Vec<usize>>, c: Seq<usize>) -> bool {
    &&& c.len() >= 2
    &&& c[0] == c.last()
    &&& forall|k: int| 0 <= k < c.len() - 1 ==> is_edge(g, #[trigger] c[k] as int, c[k + 1] as int)
}

/// Every node a module imports is a module of the graph.
pub open spec fn edges_in_range(g: Seq<Vec<usize>>) -> bool {
    forall|u: int, k: int| 0 <= u < g.len() && 0 <= k < g[u]@.len() ==> (#[trigger] g[u]@[k]) < g.len()
}

/// Each step along the path is an import.
pub open spec fn path_edges(g: Seq<Vec<usize>>, p: Seq<usize>) -> bool {
    forall|k: int| 0 <= k < p.len() - 1 ==> is_edge(g, #[trigger] p[k] as int, p[k + 1] as int)
}

/// Node `x` is on the path.
pub open spec fn on_path(p: Seq<usize>, x: int) -> bool {
    exists|k: int| 0 <= k < p.len() && p[k] as int == x
}

/// The nodes being visited (colour 1) are exactly those on the path.
pub open spec fn grey_is_path(colour: Seq<u8>, p: Seq<usize>) -> bool {
    &&& forall|x: int| 0 <= x < colour.len() ==> (colour[x] == 1 <==> #[trigger] on_path(p, x))
    &&& forall|k: int| 0 <= k < p.len() ==> (#[trigger] p[k]) < colour.len()
}

/// The number of nodes not yet visited.
pub open spec fn unvisited(colour: Seq<u8>) -> nat
    decreases colour.len(),
{
    if colour.len() == 0 {
        0
    } else {
        unvisited(colour.drop_last()) + if colour.last() == 0 {
            1nat
        } else {
            0nat
        }
    }
}

/// Marking nodes visited never adds unvisited ones.
proof fn lemma_unvisited_mono(a: Seq<u8>, b: Seq<u8>)
    requires
        a.len() == b.len(),
        forall|x: int| 0 <= x < a.len() && a[x] != 0 ==> b[x] != 0,
    ensures
        unvisited(b) <= unvisited(a),
    decreases a.len(),
{
    if a.len() > 0 {
        lemma_unvisited_mono(a.drop_last(), b.drop_last());
    }
}

/// Marking an unvisited node visited removes exactly one.
proof fn lemma_unvisited_mark(a: Seq<u8>, u: int, c: u8)
    requires
        0 <= u < a.len(),
        a[u] == 0,
        c != 0,
    ensures
        unvisited(a.update(u, c)) + 1 == unvisited(a),
    decreases a.len(),
{
    if u < a.len() - 1 {
        assert(a.update(u, c).drop_last() =~= a.drop_last().update(u, c));
        lemma_unvisited_mark(a.drop_last(), u, c);
    } else {
        assert(a.update(u, c).drop_last() =~= a.drop_last());
    }
}

/// Every node coloured finished has only finished successors.
pub open spec fn closed(g: Seq<Vec<usize>>, colour: Seq<u8>) -> bool {
    forall|x: int, y: usize| 0 <= x < colour.len() && colour[x] == 2 && #[trigger] is_edge(g, x, y as int) ==> y
        < colour.len() && colour[y as int] == 2
}

/// No cycle runs through finished nodes alone.
pub open spec fn finished_acyclic(g: Seq<Vec<usize>>, colour: Seq<u8>) -> bool {
    forall|c: Seq<usize>|
        #[trigger] is_cycle(g, c) ==> exists|k: int| 0 <= k < c.len() && !(c[k] < colour.len() && colour[c[k] as int] == 2)
}

/// Along a walk from a finished node of a closed colouring, every node
/// is finished.
proof fn lemma_walk_finished(g: Seq<Vec<usize>>, colour: Seq<u8>, c: Seq<usize>, a: int, b: int)
    requires
        closed(g, colour),
        path_edges(g, c),
        0 <= a <= b < c.len(),
        c[a] < colour.len(),
        colour[c[a] as int] == 2,
    ensures
        c[b] < colour.len() && colour[c[b] as int] == 2,
    decreases b - a,
{
    if a < b {
        assert(is_edge(g, c[a] as int, c[a + 1] as int));
        lemma_walk_finished(g, colour, c, a + 1, b);
    }
}

/// Finishing a node whose successors are all finished keeps the finished
/// nodes closed and free of cycles.
proof fn lemma_finish(g: Seq<Vec<usize>>, colour: Seq<u8>, u: int)
    requires
        0 <= u < colour.len(),
        colour[u] != 2,
        closed(g, colour),
        finished_acyclic(g, colour),
        forall|y: usize| #[trigger] is_edge(g, u, y as int) ==> y < colour.len() && colour[y as int] == 2,
    ensures
        closed(g, colour.update(u, 2)),
        finished_acyclic(g, colour.update(u, 2)),
{
    let nc = colour.update(u, 2);
    assert forall|x: int, y: usize| 0 <= x < nc.len() && nc[x] == 2 && #[trigger] is_edge(g, x, y as int) implies y < nc.len()
        && nc[y as int] == 2 by {
        if x != u {
            assert(colour[x] == 2);
        }
    }
    assert forall|c: Seq<usize>| #[trigger] is_cycle(g, c) implies exists|k: int|
        0 <= k < c.len() && !(c[k] < nc.len() && nc[c[k] as int] == 2) by {
        if forall|k: int| 0 <= k < c.len() ==> c[k] < nc.len() && nc[c[k] as int] == 2 {
            if exists|k: int| 0 <= k < c.len() && c[k] as int == u {
                let k = choose|k: int| 0 <= k < c.len() && c[k] as int == u;
                let k0 = if k == c.len() - 1 {
                    0
                } else {
                    k
                };
                assert(c[k0] as int == u);
                assert(is_edge(g, c[k0] as int, c[k0 + 1] as int));
                lemma_walk_finished(g, colour, c, k0 + 1, c.len() - 1);
                assert(c[0] == c.last());
                if k0 > 0 {
                    lemma_walk_finished(g, colour, c, 0, k0);
                }
            } else {
                assert forall|k: int| 0 <= k < c.len() implies c[k] < colour.len() && colour[c[k] as int] == 2 by {
                    assert(nc[c[k] as int] == colour[c[k] as int]);
                }
            }
        }
    }
}

/// Visit `u` and everything reachable from it that is not visited yet;
/// report the first cycle met.
fn visit(u: usize, g: &Vec<Vec<usize>>, colour: &mut Vec<u8>, path: &mut Vec<usize>) -> (r: Result<(), Vec<usize>>)
    requires
        edges_in_range(g@),
        old(colour)@.len() == g@.len(),
        u < g@.len(),
        old(colour)@[u as int] == 0,
        path_edges(g@, old(path)@),
        old(path)@.len() > 0 ==> is_edge(g@, old(path)@.last() as int, u as int),
        grey_is_path(old(colour)@, old(path)@),
        forall|x: int| 0 <= x < old(colour)@.len() ==> #[trigger] old(colour)@[x] <= 2,
        closed(g@, old(colour)@),
        finished_acyclic(g@, old(colour)@),
    ensures
        final(colour)@.len() == old(colour)@.len(),
        r is Ok ==> forall|x: int| 0 <= x < final(colour)@.len() ==> #[trigger] final(colour)@[x] <= 2,
        r is Ok ==> forall|x: int| 0 <= x < old(colour)@.len() && old(colour)@[x] == 2 ==> final(colour)@[x] == 2,
        r is Ok ==> final(colour)@[u as int] == 2,
        r is Ok ==> closed(g@, final(colour)@) && finished_acyclic(g@, final(colour)@),
        forall|x: int| 0 <= x < old(colour)@.len() && old(colour)@[x] != 0 ==> final(colour)@[x] != 0,
        final(colour)@[u as int] != 0,
        r matches Err(c) ==> is_cycle(g@, c@),
        r is Ok ==> final(path)@ == old(path)@ && grey_is_path(final(colour)@, final(path)@),
    decreases unvisited(old(colour)@),
{
    let ghost c0 = colour@;
    colour.set(u, 1);
    let ghost p0 = path@;
    path.push(u);
    proof {
        lemma_unvisited_mark(c0, u as int, 1);
        assert(colour@ == c0.update(u as int, 1));
        assert forall|x: int, y: usize| 0 <= x < colour@.len() && colour@[x] == 2 && #[trigger] is_edge(g@, x, y as int) implies y
            < colour@.len() && colour@[y as int] == 2 by {
            assert(c0[x] == 2);
            assert(y != u);
        }
        assert forall|c: Seq<usize>| #[trigger] is_cycle(g@, c) implies exists|k: int|
            0 <= k < c.len() && !(c[k] < colour@.len() && colour@[c[k] as int] == 2) by {
            let k = choose|k: int| 0 <= k < c.len() && !(c[k] < c0.len() && c0[c[k] as int] == 2);
            if c[k] < c0.len() && c[k] as int != u {
                assert(colour@[c[k] as int] == c0[c[k] as int]);
            }
        }
        assert(path@ == p0.push(u));
        assert forall|x: int| 0 <= x < colour@.len() implies (colour@[x] == 1 <==> #[trigger] on_path(path@, x)) by {
            if x == u {
                assert(path@[p0.len() as int] == u);
            } else {
                assert(colour@[x] == c0[x]);
                if on_path(p0, x) {
                    let k = choose|k: int| 0 <= k < p0.len() && p0[k] as int == x;
                    assert(path@[k] == p0[k]);
                }
                if on_path(path@, x) {
                    let k = choose|k: int| 0 <= k < path@.len() && path@[k] as int == x;
                    if k < p0.len() {
                        assert(p0[k] == path@[k]);
                    }
                }
            }
        }
        assert forall|k: int| 0 <= k < path@.len() - 1 implies is_edge(g@, #[trigger] path@[k] as int, path@[k + 1] as int) by {
            if k < p0.len() - 1 {
                assert(path@[k] == p0[k]);
                assert(path@[k + 1] == p0[k + 1]);
            } else {
                assert(path@[k] == p0.last());
            }
        }
    }
    let edges = &g[u];
    let mut i: usize = 0;
    while i < edges.len()
        invariant
            i <= edges@.len(),
            edges@ == g@[u as int]@,
            c0 == old(colour)@,
            c0.len() == g@.len(),
            edges_in_range(g@),
            u < g@.len(),
            colour@.len() == g@.len(),
            forall|x: int| 0 <= x < c0.len() && c0[x] != 0 ==> colour@[x] != 0,
            colour@[u as int] != 0,
            unvisited(colour@) < unvisited(c0),
            path@ == p0.push(u),
            path_edges(g@, path@),
            grey_is_path(colour@, path@),
            forall|x: int| 0 <= x < colour@.len() ==> #[trigger] colour@[x] <= 2,
            forall|x: int| 0 <= x < c0.len() && c0[x] == 2 ==> colour@[x] == 2,
            colour@[u as int] == 1,
            closed(g@, colour@),
            finished_acyclic(g@, colour@),
            forall|j: int| 0 <= j < i ==> colour@[#[trigger] edges@[j] as int] == 2,
        decreases edges.len() - i,
    {
        let v = edges[i];
        assert(g@[u as int]@[i as int] == v);
        assert(is_edge(g@, u as int, v as int));
        let ghost cb = colour@;
        if colour[v] == 0 {
            let res = visit(v, g, colour, path);
            proof {
                lemma_unvisited_mono(cb, colour@);
            }
            match res {
                Err(c) => {
                    return Err(c);
                },
                Ok(()) => {},
            }
            proof {
                assert(colour@[u as int] == 1) by {
                    assert(on_path(path@, u as int)) by {
                        assert(path@[p0.len() as int] == u);
                    }
                }
            }
        } else if colour[v] == 1 {
            assert(on_path(path@, v as int));
            let start = position_of(path, v);
            let mut cycle: Vec<usize> = Vec::new();
            let mut k = start;
            while k < path.len()
                invariant
                    start <= k <= path@.len(),
                    path@[start as int] == v,
                    cycle@ == path@.subrange(start as int, k as int),
                decreases path.len() - k,
            {
                cycle.push(path[k]);
                assert(cycle@ =~= path@.subrange(start as int, k + 1));
                k = k + 1;
            }
            cycle.push(v);
            proof {
                let p = path@;
                assert forall|j: int| 0 <= j < cycle@.len() - 1 implies is_edge(g@, #[trigger] cycle@[j] as int, cycle@[j + 1] as int) by {
                    if j < cycle@.len() - 2 {
                        assert(cycle@[j] == p[start + j]);
                        assert(cycle@[j + 1] == p[start + j + 1]);
                    } else {
                        assert(cycle@[j] == p.last());
                        assert(p.last() == u);
                    }
                }
                assert(cycle@[0] == v);
            }
            return Err(cycle);
        }
        proof {
            assert(colour@[v as int] == 2);
            assert forall|j: int| 0 <= j < i + 1 implies colour@[#[trigger] edges@[j] as int] == 2 by {
                if j < i {
                    assert(cb[edges@[j] as int] == 2);
                }
            }
        }
        i = i + 1;
    }
    let ghost cl = colour@;
    proof {
        assert forall|y: usize| #[trigger] is_edge(g@, u as int, y as int) implies y < cl.len() && cl[y as int] == 2 by {
            let j = choose|j: int| 0 <= j < edges@.len() && edges@[j] == y;
            assert(edges@[j] < g@.len());
            assert(cl[edges@[j] as int] == 2);
        }
        lemma_finish(g@, cl, u as int);
    }
    colour.set(u, 2);
    let _ = path.pop();
    proof {
        assert(path@ =~= p0);
        assert forall|x: int| 0 <= x < colour@.len() implies (colour@[x] == 1 <==> #[trigger] on_path(path@, x)) by {
            if x != u {
                assert(cl[x] == colour@[x]);
                if on_path(p0.push(u), x) {
                    let k = choose|k: int| 0 <= k < p0.len() + 1 && p0.push(u)[k] as int == x;
                    assert(p0.push(u)[p0.len() as int] == u);
                    assert(k < p0.len());
                    assert(p0[k] == p0.push(u)[k]);
                }
                if on_path(p0, x) {
                    let k = choose|k: int| 0 <= k < p0.len() && p0[k] as int == x;
                    assert(p0.push(u)[k] == p0[k]);
                }
            } else {
                if on_path(p0, x) {
                    assert(c0[u as int] == 1);
                }
            }
        }
    }
    Ok(())
}

/// The position of `v` on the path, which holds it.
fn position_of(path: &Vec<usize>, v: usize) -> (r: usize)
    requires
        on_path(path@, v as int),
    ensures
        r < path@.len(),
        path@[r as int] == v,
{
    let mut i: usize = 0;
    while i < path.len()
        invariant
            i <= path@.len(),
            on_path(path@, v as int),
            forall|j: int| 0 <= j < i ==> path@[j] != v,
        decreases path.len() - i,
    {
        if path[i] == v {
            return i;
        }
        i = i + 1;
    }
    proof {
        let j = choose|j: int| 0 <= j < path@.len() && path@[j] as int == v as int;
    }
    0
}

/// Search the import graph for a cycle; the one found comes back as the
/// modules along it, the first repeated at the end.
pub fn detect_cycles(g: &Vec<Vec<usize>>) -> (r: Result<(), Vec<usize>>)
    requires
        edges_in_range(g@),
    ensures
        r matches Err(c) ==> is_cycle(g@, c@),
        r is Ok ==> forall|c: Seq<usize>| !is_cycle(g@, c),
{
    let n = g.len();
    let mut colour: Vec<u8> = Vec::new();
    let mut j: usize = 0;
    while j < n
        invariant
            j <= n,
            n == g@.len(),
            colour@.len() == j,
            forall|x: int| 0 <= x < j ==> colour@[x] == 0,
        decreases n - j,
    {
        colour.push(0);
        j = j + 1;
    }
    let mut path: Vec<usize> = Vec::new();
    let mut u: usize = 0;
    while u < n
        invariant
            n == g@.len(),
            edges_in_range(g@),
            colour@.len() == n,
            path@.len() == 0,
            grey_is_path(colour@, path@),
            u <= n,
            forall|x: int| 0 <= x < n ==> #[trigger] colour@[x] <= 2,
            closed(g@, colour@),
            finished_acyclic(g@, colour@),
            forall|x: int| 0 <= x < u ==> colour@[x] == 2,
        decreases n - u,
    {
        let ghost cb = colour@;
        if colour[u] == 0 {
            match visit(u, g, &mut colour, &mut path) {
                Err(c) => {
                    return Err(c);
                },
                Ok(()) => {},
            }
        }
        proof {
            assert forall|x: int| 0 <= x < u + 1 implies colour@[x] == 2 by {
                if x < u {
                    assert(cb[x] == 2);
                } else if cb[x] != 0 {
                    assert(!on_path(path@, x));
                    assert(colour@[x] != 1);
                    assert(colour@[x] == cb[x]);
                }
            }
        }
        u = u + 1;
    }
    proof {
        assert forall|c: Seq<usize>| !is_cycle(g@, c) by {
            if is_cycle(g@, c) {
                let k = choose|k: int| 0 <= k < c.len() && !(c[k] < colour@.len() && colour@[c[k] as int] == 2);
                if k < c.len() - 1 {
                    assert(is_edge(g@, c[k] as int, c[k + 1] as int));
                } else {
                    assert(c[k] == c[0]);
                    assert(is_edge(g@, c[0] as int, c[1] as int));
                }
            }
        }
    }
    Ok(())
}

} // verus!
