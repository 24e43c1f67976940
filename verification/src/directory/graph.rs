//! The include graph of a schema package and what is reachable in it.
use vstd::prelude::*;

verus! {

/// A file known by its canonical path: a scanned schema, the target of an
/// `<xsd:include>`, or a prune root.
pub struct Node {
    /// Its path relative to the canonical input directory, by components;
    /// `None` when it lies outside that directory.
    pub rel: Option<Vec<String>>,
    /// The nodes its includes resolve to, in order (none for a file that was
    /// not scanned).
    pub includes: Vec<usize>,
}

/// The include lists of all nodes.
pub open spec fn graph_of(nodes: Seq<Node>) -> Seq<Seq<usize>> {
    nodes.map_values(|n: Node| n.includes@)
}

/// Every include names a node of the graph.
pub open spec fn edges_valid(g: Seq<Seq<usize>>) -> bool {
    forall|u: int, k: int| 0 <= u < g.len() && 0 <= k < g[u].len() ==> #[trigger] g[u][k] < g.len()
}

/// `u` includes `v`.
pub open spec fn edge(g: Seq<Seq<usize>>, u: int, v: int) -> bool {
    0 <= u < g.len() && exists|k: int| 0 <= k < g[u].len() && #[trigger] g[u][k] as int == v
}

/// A chain of at least one include.
pub open spec fn is_walk(g: Seq<Seq<usize>>, p: Seq<int>) -> bool {
    p.len() >= 2 && forall|i: int| 0 <= i < p.len() - 1 ==> #[trigger] edge(g, p[i], p[i + 1])
}

/// `v` is reached from `s` through one or more includes.
pub open spec fn reaches(g: Seq<Seq<usize>>, s: int, v: int) -> bool {
    exists|p: Seq<int>| #[trigger] is_walk(g, p) && p[0] == s && p.last() == v
}

proof fn lemma_reach_step(g: Seq<Seq<usize>>, s: int, u: int, w: int, k: int)
    requires
        u == s || reaches(g, s, u),
        0 <= u < g.len(),
        0 <= k < g[u].len(),
        g[u][k] as int == w,
    ensures
        reaches(g, s, w),
{
    assert(edge(g, u, w));
    if reaches(g, s, u) {
        let p = choose|p: Seq<int>| #[trigger] is_walk(g, p) && p[0] == s && p.last() == u;
        let q = p.push(w);
        assert forall|i: int| 0 <= i < q.len() - 1 implies #[trigger] edge(g, q[i], q[i + 1]) by {
            if i < p.len() - 1 {
                assert(q[i] == p[i] && q[i + 1] == p[i + 1]);
            }
        }
        assert(is_walk(g, q));
    } else {
        let q = seq![s, w];
        assert(is_walk(g, q));
    }
}

/// Flags closed under includes from `s`: `s` and every flagged node have
/// all their includes flagged.
pub open spec fn closed_from(g: Seq<Seq<usize>>, vis: Seq<bool>, s: int) -> bool {
    forall|u: int, k: int|
        0 <= u < g.len() && (u == s || vis[u]) && 0 <= k < g[u].len() ==> #[trigger] vis[g[u][k] as int]
}

proof fn lemma_closed_covers(g: Seq<Seq<usize>>, vis: Seq<bool>, s: int, p: Seq<int>, i: int)
    requires
        edges_valid(g),
        vis.len() == g.len(),
        closed_from(g, vis, s),
        is_walk(g, p),
        p[0] == s,
        1 <= i < p.len(),
    ensures
        vis[p[i]],
    decreases i,
{
    if i > 1 {
        lemma_closed_covers(g, vis, s, p, i - 1);
    }
    let h = i - 1;
    assert(edge(g, p[h], p[h + 1]));
    let k = choose|k: int| 0 <= k < g[p[i - 1]].len() && #[trigger] g[p[i - 1]][k] as int == p[i];
    assert(vis[g[p[i - 1]][k] as int]);
}

/// Number of `true` flags.
pub open spec fn count_true(s: Seq<bool>) -> nat
    decreases s.len(),
{
    if s.len() == 0 {
        0
    } else {
        count_true(s.drop_last()) + if s.last() {
            1nat
        } else {
            0nat
        }
    }
}

proof fn lemma_count_true(s: Seq<bool>, i: int)
    requires
        0 <= i < s.len(),
        !s[i],
    ensures
        count_true(s) <= s.len(),
        count_true(s.update(i, true)) == count_true(s) + 1,
        count_true(s.update(i, true)) <= s.len(),
    decreases s.len(),
{
    lemma_count_bound(s);
    lemma_count_bound(s.update(i, true));
    if i < s.len() - 1 {
        lemma_count_true(s.drop_last(), i);
        assert(s.update(i, true).drop_last() =~= s.drop_last().update(i, true));
    } else {
        assert(s.update(i, true).drop_last() =~= s.drop_last());
    }
}

proof fn lemma_count_bound(s: Seq<bool>)
    ensures
        count_true(s) <= s.len(),
    decreases s.len(),
{
    if s.len() > 0 {
        lemma_count_bound(s.drop_last());
    }
}

/// For each node, whether it is reached from `start` through one or more
/// includes (`start` itself only when it lies on a cycle).
pub fn collect_transitive(nodes: &Vec<Node>, start: usize) -> (r: Vec<bool>)
    requires
        edges_valid(graph_of(nodes@)),
        start < nodes.len(),
    ensures
        r.len() == nodes.len(),
        forall|v: int| 0 <= v < nodes.len() ==> (r@[v] <==> reaches(graph_of(nodes@), start as int, v)),
{
    let ghost g = graph_of(nodes@);
    let n = nodes.len();
    let mut visited: Vec<bool> = Vec::new();
    while visited.len() < n
        invariant
            visited.len() <= n,
            forall|v: int| 0 <= v < visited.len() ==> !visited@[v],
        decreases n - visited.len(),
    {
        visited.push(false);
    }
    let mut stack: Vec<usize> = Vec::new();
    stack.push(start);
    proof {
        lemma_count_bound(visited@);
        assert(stack@[0] == start);
        assert(stack@.contains(start));
    }
    while stack.len() > 0
        invariant
            g == graph_of(nodes@),
            g.len() == n,
            edges_valid(g),
            start < n,
            visited.len() == n,
            count_true(visited@) <= n,
            forall|i: int|
                0 <= i < stack.len() ==> #[trigger] stack@[i] < n && (stack@[i] == start
                    || visited@[stack@[i] as int]),
            forall|v: int| 0 <= v < n && #[trigger] visited@[v] ==> reaches(g, start as int, v),
            forall|u: int, k: int|
                0 <= u < n && (u == start || visited@[u]) && !stack@.contains(u as usize) && 0 <= k
                    < g[u].len() ==> #[trigger] visited@[g[u][k] as int],
        decreases n - count_true(visited@), stack.len(),
    {
        let ghost before_count = count_true(visited@);
        let ghost before_len = stack.len();
        let ghost old_stack = stack@;
        let u = stack.pop().unwrap();
        assert(u < n && (u == start || visited@[u as int]));
        proof {
            assert(old_stack == stack@.push(u));
            assert forall|x: int| 0 <= x < n && x != u && !#[trigger] stack@.contains(x as usize) implies !old_stack.contains(x as usize) by {
                if old_stack.contains(x as usize) {
                    let i = choose|i: int| 0 <= i < old_stack.len() && old_stack[i] == x as usize;
                    assert(stack@[i] == x as usize);
                }
            }
        }
        let incs = &nodes[u].includes;
        assert(incs@ == g[u as int]);
        let mut k: usize = 0;
        while k < incs.len()
            invariant
                g == graph_of(nodes@),
                g.len() == n,
                edges_valid(g),
                start < n,
                u < n,
                u == start || visited@[u as int],
                incs@ == g[u as int],
                k <= incs.len(),
                visited.len() == n,
                count_true(visited@) <= n,
                count_true(visited@) >= before_count,
                count_true(visited@) == before_count ==> stack.len() < before_len,
                forall|i: int|
                    0 <= i < stack.len() ==> #[trigger] stack@[i] < n && (stack@[i] == start
                        || visited@[stack@[i] as int]),
                forall|v: int| 0 <= v < n && #[trigger] visited@[v] ==> reaches(g, start as int, v),
                forall|j: int| 0 <= j < k ==> #[trigger] visited@[g[u as int][j] as int],
                forall|x: int, j: int|
                    0 <= x < n && x != u && (x == start || visited@[x]) && !stack@.contains(
                        x as usize,
                    ) && 0 <= j < g[x].len() ==> #[trigger] visited@[g[x][j] as int],
            decreases incs.len() - k,
        {
            let w = incs[k];
            assert(w < n);
            if !visited[w] {
                proof {
                    lemma_count_true(visited@, w as int);
                    lemma_reach_step(g, start as int, u as int, w as int, k as int);
                }
                let ghost vis0 = visited@;
                let ghost st0 = stack@;
                visited.set(w, true);
                stack.push(w);
                proof {
                    assert(stack@ == st0.push(w));
                    assert forall|x: int| 0 <= x < n && !#[trigger] stack@.contains(x as usize) implies !st0.contains(x as usize) by {
                        if st0.contains(x as usize) {
                            let i = choose|i: int| 0 <= i < st0.len() && st0[i] == x as usize;
                            assert(stack@[i] == x as usize);
                        }
                    }
                    assert(stack@[stack.len() - 1] == w);
                    assert(stack@.contains(w));
                }
            }
            k = k + 1;
        }
        proof {
            assert forall|x: int, j: int|
                0 <= x < n && (x == start || visited@[x]) && !stack@.contains(x as usize) && 0 <= j
                    < g[x].len() implies #[trigger] visited@[g[x][j] as int] by {
                if x == u {
                    assert(visited@[g[u as int][j] as int]);
                }
            }
        }
    }
    proof {
        assert(closed_from(g, visited@, start as int)) by {
            assert forall|x: int, j: int|
                0 <= x < g.len() && (x == start || visited@[x]) && 0 <= j < g[x].len() implies #[trigger] visited@[g[x][j] as int] by {
                assert(!stack@.contains(x as usize));
            }
        }
        assert forall|v: int| 0 <= v < n && reaches(g, start as int, v) implies visited@[v] by {
            let p = choose|p: Seq<int>| #[trigger] is_walk(g, p) && p[0] == start && p.last() == v;
            lemma_closed_covers(g, visited@, start as int, p, p.len() - 1);
        }
    }
    visited
}

/// Node `v` is kept when pruning to `roots`: it is a root or reached from
/// one.
pub open spec fn kept(g: Seq<Seq<usize>>, roots: Seq<usize>, v: int) -> bool {
    exists|i: int| 0 <= i < roots.len() && (roots[i] as int == v || reaches(g, roots[i] as int, v))
}

/// For each node, whether it is kept when pruning to `roots`.
pub fn keep_set(nodes: &Vec<Node>, roots: &[usize]) -> (r: Vec<bool>)
    requires
        edges_valid(graph_of(nodes@)),
        forall|i: int| 0 <= i < roots@.len() ==> #[trigger] roots@[i] < nodes.len(),
    ensures
        r.len() == nodes.len(),
        forall|v: int| 0 <= v < nodes.len() ==> (r@[v] <==> kept(graph_of(nodes@), roots@, v)),
{
    let ghost g = graph_of(nodes@);
    let n = nodes.len();
    let mut keep: Vec<bool> = Vec::new();
    while keep.len() < n
        invariant
            keep.len() <= n,
            forall|v: int| 0 <= v < keep.len() ==> !keep@[v],
        decreases n - keep.len(),
    {
        keep.push(false);
    }
    let mut i: usize = 0;
    while i < roots.len()
        invariant
            g == graph_of(nodes@),
            edges_valid(g),
            forall|j: int| 0 <= j < roots@.len() ==> #[trigger] roots@[j] < n,
            n == nodes.len(),
            i <= roots.len(),
            keep.len() == n,
            forall|v: int|
                0 <= v < n ==> (keep@[v] <==> kept(g, roots@.subrange(0, i as int), v)),
        decreases roots.len() - i,
    {
        let r = roots[i];
        let reach = collect_transitive(nodes, r);
        let mut v: usize = 0;
        while v < n
            invariant
                g == graph_of(nodes@),
                n == nodes.len(),
                reach.len() == n,
                r == roots@[i as int],
                i < roots.len(),
                forall|x: int| 0 <= x < n ==> (reach@[x] <==> reaches(g, r as int, x)),
                v <= n,
                keep.len() == n,
                forall|x: int|
                    0 <= x < v ==> (keep@[x] <==> kept(g, roots@.subrange(0, i + 1), x)),
                forall|x: int|
                    v <= x < n ==> (keep@[x] <==> kept(g, roots@.subrange(0, i as int), x)),
            decreases n - v,
        {
            let ghost old_keep = keep@;
            let now = keep[v] || reach[v] || v == r;
            keep.set(v, now);
            proof {
                let pre = roots@.subrange(0, i as int);
                let cur = roots@.subrange(0, i + 1);
                assert(cur[i as int] == r);
                if kept(g, cur, v as int) {
                    let j = choose|j: int|
                        0 <= j < cur.len() && (cur[j] as int == v || reaches(g, cur[j] as int, v as int));
                    if j < i {
                        assert(pre[j] == cur[j]);
                    }
                }
                if kept(g, pre, v as int) {
                    let j = choose|j: int|
                        0 <= j < pre.len() && (pre[j] as int == v || reaches(g, pre[j] as int, v as int));
                    assert(cur[j] == pre[j]);
                }
            }
            v = v + 1;
        }
        i = i + 1;
    }
    assert(roots@.subrange(0, i as int) =~= roots@);
    keep
}

/// Pruning keeps whatever a kept schema includes: the kept set is closed
/// under includes, so the emitted modules import only emitted modules.
pub proof fn lemma_kept_closed(g: Seq<Seq<usize>>, roots: Seq<usize>, u: int, w: int)
    requires
        kept(g, roots, u),
        edge(g, u, w),
    ensures
        kept(g, roots, w),
{
    let i = choose|i: int| 0 <= i < roots.len() && (roots[i] as int == u || reaches(g, roots[i] as int, u));
    let k = choose|k: int| 0 <= k < g[u].len() && #[trigger] g[u][k] as int == w;
    lemma_reach_step(g, roots[i] as int, u, w, k);
}

} // verus!
