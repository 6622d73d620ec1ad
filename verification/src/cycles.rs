//! Cycles in directed graphs.

use vstd::prelude::*;

verus! {

/// Every edge of the graph leads to a node of it.
pub open spec fn is_graph(g: Seq<Vec<usize>>) -> bool {
    forall|u: int, k: int|
        0 <= u < g.len() && 0 <= k < g[u]@.len() ==> (#[trigger] g[u]@[k]) < g.len()
}

/// The graph has an edge from `u` to `v`.
pub open spec fn has_edge(g: Seq<Vec<usize>>, u: usize, v: usize) -> bool {
    u < g.len() && g[u as int]@.contains(v)
}

/// A walk along edges.
pub open spec fn is_walk(g: Seq<Vec<usize>>, w: Seq<usize>) -> bool {
    forall|i: int| 0 <= i < w.len() - 1 ==> has_edge(g, #[trigger] w[i], w[i + 1])
}

/// A walk along at least one edge that ends where it began.
pub open spec fn is_cycle(g: Seq<Vec<usize>>, w: Seq<usize>) -> bool {
    w.len() >= 2 && w[0] == w.last() && is_walk(g, w)
}

/// How many nodes are marked.
spec fn marked(v: Seq<bool>) -> nat
    decreases v.len(),
{
    if v.len() == 0 {
        0
    } else {
        marked(v.drop_last()) + if v.last() {
            1nat
        } else {
            0nat
        }
    }
}

proof fn lemma_marked_bound(v: Seq<bool>)
    ensures
        marked(v) <= v.len(),
    decreases v.len(),
{
    if v.len() > 0 {
        lemma_marked_bound(v.drop_last());
    }
}

proof fn lemma_marked_update(v: Seq<bool>, i: int)
    requires
        0 <= i < v.len(),
        !v[i],
    ensures
        marked(v.update(i, true)) == marked(v) + 1,
    decreases v.len(),
{
    let w = v.update(i, true);
    if i == v.len() - 1 {
        assert(w.drop_last() =~= v.drop_last());
    } else {
        assert(w.drop_last() =~= v.drop_last().update(i, true));
        lemma_marked_update(v.drop_last(), i);
    }
}

proof fn lemma_marked_mono(a: Seq<bool>, b: Seq<bool>)
    requires
        a.len() == b.len(),
        forall|i: int| 0 <= i < a.len() && a[i] ==> b[i],
    ensures
        marked(a) <= marked(b),
    decreases a.len(),
{
    if a.len() > 0 {
        assert forall|i: int| 0 <= i < a.drop_last().len() && a.drop_last()[i] implies b.drop_last()[i] by {
            assert(a[i]);
        }
        lemma_marked_mono(a.drop_last(), b.drop_last());
        assert(a.last() ==> b.last());
    }
}

/// What a search keeps: the nodes it visited are those on the current path and
/// those it is done with; the path is a walk; what it reported are cycles; and
/// as long as it reported none, every edge of a node that it is done with
/// leads to a node that it was done with before.
spec fn search_ok(
    g: Seq<Vec<usize>>,
    visited: Seq<bool>,
    path: Seq<usize>,
    done: Seq<usize>,
    cycles: Seq<Vec<usize>>,
) -> bool {
    &&& visited.len() == g.len()
    &&& forall|v: usize|
        v < g.len() ==> (visited[v as int] <==> path.contains(v) || #[trigger] done.contains(v))
    &&& forall|i: int| 0 <= i < path.len() ==> #[trigger] path[i] < g.len()
    &&& forall|i: int| 0 <= i < done.len() ==> #[trigger] done[i] < g.len()
    &&& path.no_duplicates()
    &&& forall|v: usize| #[trigger] path.contains(v) ==> !done.contains(v)
    &&& is_walk(g, path)
    &&& forall|i: int| 0 <= i < cycles.len() ==> is_cycle(g, (#[trigger] cycles[i])@)
    &&& cycles.len() == 0 ==> edges_go_back(g, done)
}

/// Every edge of a node in `done` leads to an earlier node in `done`.
spec fn edges_go_back(g: Seq<Vec<usize>>, done: Seq<usize>) -> bool {
    forall|i: int, v: usize|
        0 <= i < done.len() && #[trigger] has_edge(g, done[i], v) ==> done.take(i).contains(v)
}

/// Position of a node on the path.
fn position_on(path: &Vec<usize>, v: usize) -> (r: Option<usize>)
    ensures
        match r {
            Some(i) => i < path@.len() && path@[i as int] == v,
            None => !path@.contains(v),
        },
{
    let mut i: usize = 0;
    while i < path.len()
        invariant
            i <= path@.len(),
            forall|j: int| 0 <= j < i ==> path@[j] != v,
        decreases path@.len() - i,
    {
        if path[i] == v {
            return Some(i);
        }
        i = i + 1;
    }
    None
}

/// Visit a node and all that can be reached from it.
fn visit(
    node: usize,
    graph: &Vec<Vec<usize>>,
    visited: &mut Vec<bool>,
    path: &mut Vec<usize>,
    cycles: &mut Vec<Vec<usize>>,
    Ghost(done): Ghost<Seq<usize>>,
) -> (r: Ghost<Seq<usize>>)
    requires
        is_graph(graph@),
        node < graph@.len(),
        search_ok(graph@, old(visited)@, old(path)@, done, old(cycles)@),
        !old(visited)@[node as int],
        old(path)@.len() > 0 ==> has_edge(graph@, old(path)@.last(), node),
    ensures
        search_ok(graph@, final(visited)@, final(path)@, r@, final(cycles)@),
        final(path)@ == old(path)@,
        final(cycles)@.len() >= old(cycles)@.len(),
        r@.len() > done.len(),
        r@.take(done.len() as int) == done,
        r@.contains(node),
        final(visited)@.len() == old(visited)@.len(),
        forall|i: int| 0 <= i < old(visited)@.len() && old(visited)@[i] ==> final(visited)@[i],
    decreases graph@.len() - marked(old(visited)@),
{
    let ghost g = graph@;
    let ghost path0 = path@;
    let ghost visited0 = visited@;
    visited.set(node, true);
    path.push(node);
    let ghost path1 = path@;
    let ghost mut d: Seq<usize> = done;
    proof {
        lemma_marked_update(visited0, node as int);
        lemma_marked_bound(visited@);
        assert(!path0.contains(node) && !done.contains(node)) by {
            assert(!visited0[node as int]);
            if path0.contains(node) || done.contains(node) {
                assert(visited0[node as int]);
            }
        }
        assert forall|v: usize| #[trigger] path1.contains(v) <==> path0.contains(v) || v == node by {
            if path0.contains(v) {
                let i = choose|i: int| 0 <= i < path0.len() && path0[i] == v;
                assert(path1[i] == v);
            }
            if v == node {
                assert(path1[path0.len() as int] == v);
            }
        }
        assert(path1.no_duplicates()) by {
            assert forall|i: int, j: int| 0 <= i < path1.len() && 0 <= j < path1.len() && i
                != j implies path1[i] != path1[j] by {
                if i < path0.len() && j < path0.len() {
                    assert(path0[i] != path0[j]);
                } else if i < path0.len() {
                    assert(path0.contains(path0[i]));
                } else if j < path0.len() {
                    assert(path0.contains(path0[j]));
                }
            }
        }
        assert(is_walk(g, path1)) by {
            assert forall|i: int| 0 <= i < path1.len() - 1 implies has_edge(
                g,
                #[trigger] path1[i],
                path1[i + 1],
            ) by {
                if i < path0.len() - 1 {
                    assert(has_edge(g, path0[i], path0[i + 1]));
                }
            }
        }
        assert forall|v: usize| v < g.len() implies (visited@[v as int] <==> path1.contains(v)
            || #[trigger] done.contains(v)) by {
            if v != node {
                assert(visited@[v as int] == visited0[v as int]);
            }
        }
    }
    let mut k: usize = 0;
    while k < graph[node].len()
        invariant
            g == graph@,
            is_graph(g),
            node < g.len(),
            k <= g[node as int]@.len(),
            path@ == path1,
            path1 == path0.push(node),
            search_ok(g, visited@, path@, d, cycles@),
            cycles@.len() >= old(cycles)@.len(),
            d.len() >= done.len(),
            d.take(done.len() as int) == done,
            visited@.len() == visited0.len(),
            visited@[node as int],
            marked(visited0) < marked(visited@),
            marked(visited@) <= g.len(),
            visited0 == old(visited)@,
            forall|i: int| 0 <= i < visited0.len() && visited0[i] ==> visited@[i],
            cycles@.len() == 0 ==> forall|j: int| 0 <= j < k ==> d.contains(#[trigger] g[node as int]@[j]),
        decreases g[node as int]@.len() - k,
    {
        let next = graph[node][k];
        assert(g[node as int]@[k as int] < g.len());
        assert(g[node as int]@.contains(next));
        assert(has_edge(g, node, next));
        let ghost d0 = d;
        let ghost v0 = visited@;
        if !visited[next] {
            let more = visit(next, graph, visited, path, cycles, Ghost(d));
            proof {
                d = more@;
                assert(d.take(done.len() as int) =~= d0.take(done.len() as int));
                lemma_marked_mono(v0, visited@);
                lemma_marked_bound(visited@);
                assert forall|j: int| 0 <= j < k && cycles@.len() == 0 implies d.contains(
                    #[trigger] g[node as int]@[j],
                ) by {
                    assert(d0.contains(g[node as int]@[j]));
                    let m = choose|m: int| 0 <= m < d0.len() && d0[m] == g[node as int]@[j];
                    assert(d.take(d0.len() as int)[m] == d0[m]);
                    assert(d[m] == d0[m]);
                }
            }
        } else {
            match position_on(path, next) {
                Some(start) => {
                    let mut cycle: Vec<usize> = Vec::new();
                    let mut m: usize = start;
                    while m < path.len()
                        invariant
                            start <= m <= path@.len(),
                            cycle@ == path@.subrange(start as int, m as int),
                        decreases path@.len() - m,
                    {
                        cycle.push(path[m]);
                        assert(path@.subrange(start as int, m + 1) =~= path@.subrange(
                            start as int,
                            m as int,
                        ).push(path@[m as int]));
                        m = m + 1;
                    }
                    cycle.push(next);
                    proof {
                        let c = cycle@;
                        let n = path@.len() - start;
                        assert(c.len() == n + 1);
                        assert forall|i: int| 0 <= i < c.len() - 1 implies has_edge(
                            g,
                            #[trigger] c[i],
                            c[i + 1],
                        ) by {
                            assert(c[i] == path@[start + i]);
                            if i + 1 < n {
                                assert(has_edge(g, path@[start + i], path@[start + i + 1]));
                            } else {
                                assert(path@[start + i] == node);
                            }
                        }
                        assert(is_cycle(g, c));
                    }
                    let ghost before = cycles@;
                    cycles.push(cycle);
                    assert forall|i: int| 0 <= i < cycles@.len() implies is_cycle(
                        g,
                        (#[trigger] cycles@[i])@,
                    ) by {
                        if i < before.len() {
                            assert(is_cycle(g, before[i]@));
                        }
                    }
                },
                None => {
                    assert(visited@[next as int]);
                    assert(d.contains(next));
                },
            }
        }
        k = k + 1;
    }
    path.pop();
    proof {
        assert(path@ =~= path0);
        let d1 = d;
        d = d1.push(node);
        assert(path1.contains(node)) by {
            assert(path1[path0.len() as int] == node);
        }
        assert forall|v: usize| #[trigger] d.contains(v) <==> d1.contains(v) || v == node by {
            if d1.contains(v) {
                let i = choose|i: int| 0 <= i < d1.len() && d1[i] == v;
                assert(d[i] == v);
            }
            if v == node {
                assert(d[d1.len() as int] == v);
            }
        }
        assert forall|v: usize| #[trigger] path1.contains(v) <==> path0.contains(v) || v == node by {
            if path0.contains(v) {
                let i = choose|i: int| 0 <= i < path0.len() && path0[i] == v;
                assert(path1[i] == v);
            }
        }
        assert(!path0.contains(node)) by {
            if path0.contains(node) {
                let i = choose|i: int| 0 <= i < path0.len() && path0[i] == node;
                assert(path1[i] == path1[path0.len() as int]);
            }
        }
        assert forall|v: usize| #[trigger] path0.contains(v) implies !d.contains(v) by {
            assert(path1.contains(v));
        }
        assert forall|v: usize| v < g.len() implies (visited@[v as int] <==> path0.contains(v)
            || #[trigger] d.contains(v)) by {
            assert(visited@[v as int] <==> path1.contains(v) || d1.contains(v));
        }
        assert(is_walk(g, path0)) by {
            assert forall|i: int| 0 <= i < path0.len() - 1 implies has_edge(
                g,
                #[trigger] path0[i],
                path0[i + 1],
            ) by {
                assert(has_edge(g, path1[i], path1[i + 1]));
            }
        }
        assert(path0.no_duplicates()) by {
            assert forall|i: int, j: int| 0 <= i < path0.len() && 0 <= j < path0.len() && i
                != j implies path0[i] != path0[j] by {
                assert(path1[i] != path1[j]);
            }
        }
        if cycles@.len() == 0 {
            assert forall|i: int, v: usize| 0 <= i < d.len() && #[trigger] has_edge(
                g,
                d[i],
                v,
            ) implies d.take(i).contains(v) by {
                if i < d1.len() {
                    assert(d[i] == d1[i]);
                    assert(d1.take(i).contains(v));
                    assert(d.take(i) =~= d1.take(i));
                } else {
                    let j = choose|j: int| 0 <= j < g[node as int]@.len() && g[node as int]@[j] == v;
                    assert(d1.contains(g[node as int]@[j]));
                    assert(d.take(i) =~= d1);
                }
            }
        }
        assert forall|i: int| 0 <= i < d.len() implies #[trigger] d[i] < g.len() by {
            if i < d1.len() {
                assert(d1[i] < g.len());
            }
        }
        assert(d.take(done.len() as int) =~= d1.take(done.len() as int));
    }
    Ghost(d)
}

/// Find cycles by a depth-first search: each edge back into the current path
/// closes one. What is reported are cycles, and where nothing is reported there
/// are none.
pub fn find_cycles(graph: &Vec<Vec<usize>>) -> (cycles: Vec<Vec<usize>>)
    requires
        is_graph(graph@),
    ensures
        forall|i: int| 0 <= i < cycles@.len() ==> is_cycle(graph@, (#[trigger] cycles@[i])@),
        cycles@.len() == 0 <==> forall|w: Seq<usize>| !is_cycle(graph@, w),
{
    let ghost g = graph@;
    let mut visited: Vec<bool> = Vec::new();
    let mut i: usize = 0;
    while i < graph.len()
        invariant
            i <= graph@.len(),
            visited@.len() == i,
            forall|k: int| 0 <= k < i ==> !visited@[k],
        decreases graph@.len() - i,
    {
        visited.push(false);
        i = i + 1;
    }
    let mut path: Vec<usize> = Vec::new();
    let mut cycles: Vec<Vec<usize>> = Vec::new();
    let ghost mut done: Seq<usize> = Seq::empty();
    let mut node: usize = 0;
    while node < graph.len()
        invariant
            node <= graph@.len(),
            g == graph@,
            is_graph(g),
            path@.len() == 0,
            search_ok(g, visited@, path@, done, cycles@),
            forall|v: usize| v < node ==> #[trigger] done.contains(v),
        decreases graph@.len() - node,
    {
        let ghost d0 = done;
        if !visited[node] {
            let more = visit(node, graph, &mut visited, &mut path, &mut cycles, Ghost(done));
            proof {
                done = more@;
                assert forall|v: usize| v < node + 1 implies #[trigger] done.contains(v) by {
                    if v < node {
                        assert(d0.contains(v));
                        let m = choose|m: int| 0 <= m < d0.len() && d0[m] == v;
                        assert(done.take(d0.len() as int)[m] == d0[m]);
                        assert(done[m] == v);
                    }
                }
            }
        } else {
            proof {
                assert(!path@.contains(node));
                assert(visited@[node as int]);
                assert(done.contains(node));
            }
        }
        node = node + 1;
    }
    proof {
        if cycles@.len() == 0 {
            assert forall|w: Seq<usize>| !is_cycle(g, w) by {
                if is_cycle(g, w) {
                    assert(has_edge(g, w[0], w[1]));
                    assert(done.contains(w[0]));
                    let r = choose|r: int| 0 <= r < done.len() && done[r] == w[0];
                    lemma_no_cycle_from(g, done, w, r);
                }
            }
        } else {
            assert(is_cycle(g, cycles@[0]@));
        }
    }
    cycles
}

/// Where edges lead back, no cycle starts at position `r`: the rotated cycle
/// would start at a lower one.
proof fn lemma_no_cycle_from(g: Seq<Vec<usize>>, done: Seq<usize>, w: Seq<usize>, r: int)
    requires
        edges_go_back(g, done),
        0 <= r < done.len(),
        w.len() > 0,
        done[r] == w[0],
    ensures
        !is_cycle(g, w),
    decreases r,
{
    if is_cycle(g, w) {
        let w1 = w[1];
        assert(has_edge(g, w[0], w[0int + 1]));
        assert(has_edge(g, done[r], w1));
        assert(done.take(r).contains(w1));
        let s = choose|s: int| 0 <= s < r && done.take(r)[s] == w1;
        assert(done[s] == w1);
        let t = w.skip(1).push(w1);
        assert(is_cycle(g, t)) by {
            assert forall|i: int| 0 <= i < t.len() - 1 implies has_edge(
                g,
                #[trigger] t[i],
                t[i + 1],
            ) by {
                if i < w.len() - 2 {
                    assert(t[i] == w[i + 1] && t[i + 1] == w[i + 2]);
                    assert(has_edge(g, w[i + 1], w[i + 1 + 1]));
                } else {
                    assert(t[i] == w[w.len() - 1]);
                    assert(t[i + 1] == w1);
                }
            }
        }
        lemma_no_cycle_from(g, done, t, s);
    }
}

} // verus!
