//! The similarity graph over day summaries and the closest-match searches.
use vstd::prelude::*;
use std::collections::HashMap;
use crate::common::{Conditions, DaySummary, DayView};

verus! {

broadcast use vstd::std_specs::hash::group_hash_axioms;

/// Two days are similar when their weather, temperature band and
/// precipitation intensity all agree; month and totals play no part.
pub open spec fn similar(a: DayView, b: DayView) -> bool {
    &&& a.weather == b.weather
    &&& a.temperature_category == b.temperature_category
    &&& a.precipitation == b.precipitation
}

/// The weighted mismatch between a day and a query: 10 for the month, 30 for
/// the weather, 20 for the temperature band, 15 for the precipitation.
pub open spec fn score(d: DayView, q: Conditions) -> int {
    (if d.month != q.month { 10int } else { 0int })
    + (if d.weather != q.weather { 30int } else { 0int })
    + (if d.temperature_category != q.temperature { 20int } else { 0int })
    + (if d.precipitation != q.precipitation { 15int } else { 0int })
}

/// Adjacency lists keyed by the position of a day in the summary sequence.
/// A node without neighbours has no entry.
#[derive(Debug)]
pub struct Graph {
    pub adj_list: HashMap<usize, Vec<usize>>,
}

/// The adjacency map `m` lists `j` among the neighbours of `i`.
pub open spec fn lists(m: Map<usize, Vec<usize>>, i: usize, j: usize) -> bool {
    m.contains_key(i) && m[i]@.contains(j)
}

impl Graph {
    /// There is an edge from `i` to `j`.
    pub open spec fn edge(&self, i: usize, j: usize) -> bool {
        lists(self.adj_list@, i, j)
    }

    /// Every edge joins two positions below `n`.
    pub open spec fn wf(&self, n: nat) -> bool {
        forall|i: usize, j: usize| #[trigger] self.edge(i, j) ==> i < n && j < n
    }

    /// `p` is a walk along edges.
    pub open spec fn is_walk(&self, p: Seq<usize>) -> bool {
        &&& p.len() >= 1
        &&& forall|i: int| 0 <= i < p.len() - 1 ==> #[trigger] self.edge(p[i], p[i + 1])
    }

    /// Some walk leads from `a` to `b`.
    pub open spec fn reachable(&self, a: usize, b: usize) -> bool {
        exists|p: Seq<usize>| #[trigger] self.is_walk(p) && p[0] == a && p.last() == b
    }
}

/// Every node reaches itself.
pub proof fn lemma_reachable_self(g: &Graph, a: usize)
    ensures
        g.reachable(a, a),
{
    let p = seq![a];
    assert(g.is_walk(p));
}

/// Reachability extends along an edge.
pub proof fn lemma_reachable_step(g: &Graph, a: usize, b: usize, c: usize)
    requires
        g.reachable(a, b),
        g.edge(b, c),
    ensures
        g.reachable(a, c),
{
    let p = choose|p: Seq<usize>| #[trigger] g.is_walk(p) && p[0] == a && p.last() == b;
    let q = p.push(c);
    assert forall|i: int| 0 <= i < q.len() - 1 implies #[trigger] g.edge(q[i], q[i + 1]) by {
        if i < p.len() - 1 {
            assert(q[i] == p[i] && q[i + 1] == p[i + 1]);
        }
    }
    assert(g.is_walk(q));
}

/// Along a walk that starts in a set closed under edges, every node is in
/// the set.
proof fn lemma_closed_holds_walk(g: &Graph, s: Seq<bool>, p: Seq<usize>, k: int)
    requires
        g.is_walk(p),
        0 <= k < p.len(),
        p[0] < s.len() && s[p[0] as int],
        forall|i: usize, j: usize| #[trigger] g.edge(i, j) && i < s.len() && s[i as int] ==> j < s.len() && s[j as int],
    ensures
        p[k] < s.len() && s[p[k] as int],
    decreases k,
{
    if k > 0 {
        lemma_closed_holds_walk(g, s, p, k - 1);
        let i = k - 1;
        assert(0 <= i < p.len() - 1);
        assert(g.edge(p[i], p[i + 1]));
    }
}

/// A set of nodes that holds `a` and is closed under edges holds every node
/// that `a` reaches.
proof fn lemma_closed_holds_reachable(g: &Graph, s: Seq<bool>, a: usize, b: usize)
    requires
        0 <= a < s.len(),
        s[a as int],
        forall|i: usize, j: usize| #[trigger] g.edge(i, j) && i < s.len() && s[i as int] ==> j < s.len() && s[j as int],
        g.reachable(a, b),
    ensures
        b < s.len() && s[b as int],
{
    let p = choose|p: Seq<usize>| #[trigger] g.is_walk(p) && p[0] == a && p.last() == b;
    lemma_closed_holds_walk(g, s, p, p.len() - 1);
}

/// `d` is a day of `days` at a position that `start` reaches, with a score no
/// greater than that of any other such day.
pub open spec fn closest_in_component(
    graph: &Graph,
    days: Seq<DaySummary>,
    start: usize,
    query: Conditions,
    d: DayView,
) -> bool {
    exists|k: usize|
        #![trigger days[k as int]]
        k < days.len() && graph.reachable(start, k) && d == days[k as int]@ && forall|m: usize|
            m < days.len() && #[trigger] graph.reachable(start, m) ==> score(days[k as int]@, query)
                <= score(days[m as int]@, query)
}

/// What a traversal from `start` returns: nothing when `start` is no
/// position of `days`, else a closest day of its component.
pub open spec fn traversal_result(
    graph: &Graph,
    days: Seq<DaySummary>,
    start: usize,
    query: Conditions,
    r: Option<DaySummary>,
) -> bool {
    match r {
        Some(d) => start < days.len() && closest_in_component(graph, days, start, query, d@),
        None => start >= days.len(),
    }
}

/// `d` is the first of the lowest-scoring days of `days`.
pub open spec fn first_closest(days: Seq<DaySummary>, query: Conditions, d: DayView) -> bool {
    exists|k: int|
        #![trigger days[k]]
        0 <= k < days.len() && d == days[k]@ && (forall|m: int|
            0 <= m < days.len() ==> score(days[k]@, query) <= #[trigger] score(days[m]@, query))
            && (forall|m: int| 0 <= m < k ==> score(days[k]@, query) < #[trigger] score(days[m]@, query))
}

/// What the whole-sequence scan returns: nothing for no days, else the
/// first of the lowest-scoring days.
pub open spec fn scan_result(days: Seq<DaySummary>, query: Conditions, r: Option<DaySummary>) -> bool {
    match r {
        Some(d) => first_closest(days, query, d@),
        None => days.len() == 0,
    }
}

/// The score is 0 exactly when month, weather, temperature band and
/// precipitation all match the query.
pub proof fn lemma_score_zero_iff_match(d: DayView, q: Conditions)
    ensures
        score(d, q) == 0 <==> (d.month == q.month && d.weather == q.weather
            && d.temperature_category == q.temperature && d.precipitation == q.precipitation),
{
}

/// The graph that `build_graph` makes is symmetric: an edge from `i` to `j`
/// comes with one from `j` to `i`.
pub proof fn lemma_graph_symmetric(g: &Graph, days: Seq<DaySummary>, i: usize, j: usize)
    requires
        links_similar(g, days),
    ensures
        g.edge(i, j) <==> g.edge(j, i),
{
    assert(g.edge(i, j) == (i < days.len() && j < days.len() && i != j && similar(days[i as int]@, days[j as int]@)));
    assert(g.edge(j, i) == (j < days.len() && i < days.len() && j != i && similar(days[j as int]@, days[i as int]@)));
}

/// Of two days, where one matches the query exactly and the other does not,
/// both the traversal started at the matching day and the whole-sequence
/// scan return the matching day.
pub proof fn lemma_exact_match_wins(
    graph: &Graph,
    days: Seq<DaySummary>,
    query: Conditions,
    a: usize,
    walked: Option<DaySummary>,
    scanned: Option<DaySummary>,
)
    requires
        days.len() == 2,
        a < 2,
        score(days[a as int]@, query) == 0,
        score(days[1 - a]@, query) != 0,
        traversal_result(graph, days, a, query, walked),
        scan_result(days, query, scanned),
    ensures
        walked matches Some(d) && d@ == days[a as int]@,
        scanned matches Some(d) && d@ == days[a as int]@,
{
    lemma_reachable_self(graph, a);
    let d = walked->0;
    let k = choose|k: usize|
        #![trigger days[k as int]]
        k < days.len() && graph.reachable(a, k) && d@ == days[k as int]@ && forall|m: usize|
            m < days.len() && #[trigger] graph.reachable(a, m) ==> score(days[k as int]@, query)
                <= score(days[m as int]@, query);
    assert(score(days[k as int]@, query) <= score(days[a as int]@, query));
    assert(k == a);
    let e = scanned->0;
    let k2 = choose|k2: int|
        #![trigger days[k2]]
        0 <= k2 < days.len() && e@ == days[k2]@ && (forall|m: int|
            0 <= m < days.len() ==> score(days[k2]@, query) <= #[trigger] score(days[m]@, query))
            && (forall|m: int| 0 <= m < k2 ==> score(days[k2]@, query) < #[trigger] score(days[m]@, query));
    assert(score(days[k2]@, query) <= score(days[a as int]@, query));
    assert(k2 == a);
}

/// Whether two days are similar.
pub fn are_similar(a: &DaySummary, b: &DaySummary) -> (r: bool)
    ensures
        r == similar(a@, b@),
{
    a.weather == b.weather && a.temperature_category == b.temperature_category && a.precipitation
        == b.precipitation
}

/// The weighted mismatch between a day and a query; 0 for an exact match.
pub fn similarity_score(day: &DaySummary, query: &Conditions) -> (r: i32)
    ensures
        r == score(day@, *query),
        0 <= r <= 75,
        r == 0 <==> (day.month == query.month && day.weather == query.weather
            && day.temperature_category == query.temperature && day.precipitation
            == query.precipitation),
{
    let mut s: i32 = 0;
    if day.month != query.month {
        s += 10;
    }
    if day.weather != query.weather {
        s += 30;
    }
    if day.temperature_category != query.temperature {
        s += 20;
    }
    if day.precipitation != query.precipitation {
        s += 15;
    }
    s
}

/// Row `k` of `m` lists exactly the other positions of `days` whose day is
/// similar to day `k`.
spec fn row_ok(m: Map<usize, Vec<usize>>, days: Seq<DaySummary>, k: usize) -> bool {
    forall|x: usize|
        #[trigger] lists(m, k, x) <==> (x < days.len() && x != k
            && similar(days[k as int]@, days[x as int]@))
}

/// `g` has an edge between every two distinct positions of `days` whose days
/// are similar, and no other.
pub open spec fn links_similar(g: &Graph, days: Seq<DaySummary>) -> bool {
    forall|i: usize, j: usize| #[trigger]
        g.edge(i, j) <==> (i < days.len() && j < days.len() && i != j && similar(
            days[i as int]@,
            days[j as int]@,
        ))
}

/// Links every two distinct days with the same labels, in both directions.
pub fn build_graph(days: &[DaySummary]) -> (g: Graph)
    ensures
        links_similar(&g, days@),
        g.wf(days@.len() as nat),
{
    let n = days.len();
    let mut adj_list: HashMap<usize, Vec<usize>> = HashMap::new();
    let mut i: usize = 0;
    while i < n
        invariant
            n == days@.len(),
            i <= n,
            forall|k: usize| #[trigger] adj_list@.contains_key(k) ==> k < i,
            forall|k: usize| k < i ==> #[trigger] row_ok(adj_list@, days@, k),
        decreases n - i,
    {
        let mut neighbours: Vec<usize> = Vec::new();
        let mut j: usize = 0;
        while j < n
            invariant
                n == days@.len(),
                i < n,
                j <= n,
                forall|x: usize|
                    #[trigger] neighbours@.contains(x) <==> (x < j && x != i && similar(
                        days@[i as int]@,
                        days@[x as int]@,
                    )),
            decreases n - j,
        {
            let ghost before = neighbours@;
            if i != j && are_similar(&days[i], &days[j]) {
                neighbours.push(j);
                proof {
                    assert forall|x: usize| #[trigger] neighbours@.contains(x) <==> (x < j + 1 && x
                        != i && similar(days@[i as int]@, days@[x as int]@)) by {
                        if x == j {
                            assert(neighbours@[neighbours@.len() - 1] == x);
                        } else if before.contains(x) {
                            let idx = choose|idx: int| 0 <= idx < before.len() && before[idx] == x;
                            assert(neighbours@[idx] == x);
                        } else if neighbours@.contains(x) {
                            let idx = choose|idx: int|
                                0 <= idx < neighbours@.len() && neighbours@[idx] == x;
                            assert(idx < before.len());
                            assert(before[idx] == x);
                        }
                    }
                }
            }
            j += 1;
        }
        let ghost before = adj_list@;
        let ghost row = neighbours@;
        if neighbours.len() > 0 {
            adj_list.insert(i, neighbours);
        }
        proof {
            assert forall|k: usize| k < i + 1 implies #[trigger] row_ok(adj_list@, days@, k) by {
                if k < i {
                    assert(row_ok(before, days@, k));
                    assert forall|x: usize| #[trigger] lists(adj_list@, k, x) == lists(before, k, x) by {
                        if before.contains_key(k) {
                            assert(adj_list@[k] == before[k]);
                        }
                    }
                } else if row.len() > 0 {
                    assert(adj_list@[k]@ == row);
                } else {
                    assert(!adj_list@.contains_key(k));
                    assert forall|x: usize|
                        !(x < n && x != k && similar(days@[k as int]@, days@[x as int]@)) by {
                        if x < n && x != k && similar(days@[k as int]@, days@[x as int]@) {
                            assert(row.contains(x));
                        }
                    }
                }
            }
        }
        i += 1;
    }
    let g = Graph { adj_list };
    assert forall|a: usize, b: usize| #[trigger] g.edge(a, b) <==> (a < n && b < n && a != b
        && similar(days@[a as int]@, days@[b as int]@)) by {
        if a < n {
            assert(row_ok(adj_list@, days@, a));
            assert(lists(adj_list@, a, b) <==> (b < n && b != a && similar(days@[a as int]@, days@[b as int]@)));
        } else {
            assert(!adj_list@.contains_key(a));
        }
    }
    g
}

/// The number of unset flags in `v`.
spec fn unvisited(v: Seq<bool>) -> nat
    decreases v.len(),
{
    if v.len() == 0 {
        0
    } else {
        unvisited(v.drop_last()) + if v.last() { 0nat } else { 1nat }
    }
}

/// Setting an unset flag lowers the count of unset flags by one.
proof fn lemma_unvisited_set(v: Seq<bool>, i: int)
    requires
        0 <= i < v.len(),
        !v[i],
    ensures
        unvisited(v.update(i, true)) + 1 == unvisited(v),
    decreases v.len(),
{
    let w = v.update(i, true);
    if i < v.len() - 1 {
        assert(w.drop_last() == v.drop_last().update(i, true));
        lemma_unvisited_set(v.drop_last(), i);
    } else {
        assert(w.drop_last() == v.drop_last());
    }
}

/// `k` waits in the frontier, at or after position `head`.
spec fn pending(frontier: Seq<usize>, head: int, k: usize) -> bool {
    exists|idx: int| head <= idx < frontier.len() && #[trigger] frontier[idx] == k
}

/// Walks the component of `start`, taking the oldest waiting node first
/// when `breadth_first` holds and the newest otherwise, and keeps the first
/// node met with the lowest score.
fn closest_by_walk(
    start: usize,
    graph: &Graph,
    days: &[DaySummary],
    query: &Conditions,
    breadth_first: bool,
) -> (r: Option<DaySummary>)
    requires
        graph.wf(days@.len() as nat),
    ensures
        traversal_result(graph, days@, start, *query, r),
{
    let n = days.len();
    if start >= n {
        return None;
    }
    let mut visited: Vec<bool> = Vec::new();
    let mut i: usize = 0;
    while i < n
        invariant
            i <= n,
            visited@.len() == i,
            forall|k: int| 0 <= k < i ==> !visited@[k],
        decreases n - i,
    {
        visited.push(false);
        i += 1;
    }
    let mut frontier: Vec<usize> = Vec::new();
    let mut head: usize = 0;
    let mut best: Option<DaySummary> = None;
    let mut best_score: i32 = i32::MAX;
    let ghost mut best_k: usize = start;
    frontier.push(start);
    proof {
        lemma_reachable_self(graph, start);
        assert(frontier@[0] == start);
    }
    visited.set(start, true);
    while head < frontier.len()
        invariant
            n == days@.len(),
            start < n,
            graph.wf(n as nat),
            visited@.len() == n,
            head <= frontier@.len(),
            !breadth_first ==> head == 0,
            forall|idx: int|
                head <= idx < frontier@.len() ==> #[trigger] frontier@[idx] < n && visited@[frontier@[idx] as int],
            visited@[start as int],
            forall|k: usize| k < n && #[trigger] visited@[k as int] ==> graph.reachable(start, k),
            forall|k: usize, j: usize|
                #[trigger] graph.edge(k, j) && k < n && visited@[k as int] && !pending(frontier@, head as int, k)
                    ==> visited@[j as int],
            best is None ==> best_score == i32::MAX,
            best is None ==> forall|k: usize| k < n && #[trigger] visited@[k as int] ==> pending(frontier@, head as int, k),
            best is Some ==> {
                &&& best_k < n
                &&& visited@[best_k as int]
                &&& best->0@ == days@[best_k as int]@
                &&& best_score == score(days@[best_k as int]@, *query)
                &&& forall|k: usize|
                    k < n && #[trigger] visited@[k as int] && !pending(frontier@, head as int, k) ==> best_score
                        <= score(days@[k as int]@, *query)
            },
        decreases 2 * unvisited(visited@) + frontier@.len() - head,
    {
        let ghost f0 = frontier@;
        let ghost h0 = head as int;
        let node: usize;
        if breadth_first {
            node = frontier[head];
            head += 1;
        } else {
            node = frontier[frontier.len() - 1];
            frontier.pop();
        }
        proof {
            if breadth_first {
                assert(f0[h0] == node);
            } else {
                assert(f0[f0.len() - 1] == node);
            }
            assert forall|k: usize| k != node && pending(f0, h0, k) implies pending(frontier@, head as int, k) by {
                let idx = choose|idx: int| h0 <= idx < f0.len() && #[trigger] f0[idx] == k;
                assert(frontier@[idx] == k);
            }
            assert forall|k: usize| pending(frontier@, head as int, k) implies pending(f0, h0, k) by {
                let idx = choose|idx: int| head <= idx < frontier@.len() && #[trigger] frontier@[idx] == k;
                assert(f0[idx] == k);
            }
        }
        let s = similarity_score(&days[node], query);
        if s < best_score {
            best_score = s;
            best = Some(days[node].clone());
            proof {
                best_k = node;
            }
        }
        let ghost m0 = 2 * unvisited(visited@) + frontier@.len() - head;
        match graph.adj_list.get(&node) {
            Some(neighbours) => {
                proof {
                    assert forall|m: int| 0 <= m < neighbours@.len() implies #[trigger] neighbours@[m] < n by {
                        assert(neighbours@.contains(neighbours@[m]));
                        assert(graph.edge(node, neighbours@[m]));
                    }
                }
                let mut t: usize = 0;
                while t < neighbours.len()
                    invariant
                        n == days@.len(),
                        start < n,
                        node < n,
                        graph.wf(n as nat),
                        graph.adj_list@.contains_key(node),
                        graph.adj_list@[node] == *neighbours,
                        visited@.len() == n,
                        visited@[node as int],
                        head <= frontier@.len(),
                        !breadth_first ==> head == 0,
                        t <= neighbours@.len(),
                        forall|m: int| 0 <= m < neighbours@.len() ==> #[trigger] neighbours@[m] < n,
                        2 * unvisited(visited@) + frontier@.len() - head <= m0,
                        forall|m: int| 0 <= m < t ==> visited@[#[trigger] neighbours@[m] as int],
                        forall|idx: int|
                            head <= idx < frontier@.len() ==> #[trigger] frontier@[idx] < n && visited@[frontier@[idx] as int],
                        visited@[start as int],
                        forall|k: usize| k < n && #[trigger] visited@[k as int] ==> graph.reachable(start, k),
                        graph.reachable(start, node),
                        forall|k: usize, j: usize|
                            #[trigger] graph.edge(k, j) && k < n && k != node && visited@[k as int] && !pending(frontier@, head as int, k)
                                ==> visited@[j as int],
                        best is Some,
                        best_k < n,
                        visited@[best_k as int],
                        best->0@ == days@[best_k as int]@,
                        best_score == score(days@[best_k as int]@, *query),
                        best_score <= score(days@[node as int]@, *query),
                        forall|k: usize|
                            k < n && k != node && #[trigger] visited@[k as int] && !pending(frontier@, head as int, k) ==> best_score
                                <= score(days@[k as int]@, *query),
                    decreases neighbours@.len() - t,
                {
                    let next = neighbours[t];
                    proof {
                        assert(neighbours@.contains(next));
                        assert(graph.edge(node, next));
                    }
                    if !visited[next] {
                        let ghost v0 = visited@;
                        let ghost f1 = frontier@;
                        proof {
                            lemma_unvisited_set(v0, next as int);
                            lemma_reachable_step(graph, start, node, next);
                        }
                        visited.set(next, true);
                        frontier.push(next);
                        proof {
                            assert(frontier@[f1.len() as int] == next);
                            assert forall|k: usize| pending(f1, head as int, k) implies pending(frontier@, head as int, k) by {
                                let idx = choose|idx: int| head <= idx < f1.len() && #[trigger] f1[idx] == k;
                                assert(frontier@[idx] == k);
                            }
                            assert forall|k: usize| k != next && pending(frontier@, head as int, k) implies pending(f1, head as int, k) by {
                                let idx = choose|idx: int| head <= idx < frontier@.len() && #[trigger] frontier@[idx] == k;
                                assert(f1[idx] == k);
                            }
                            assert(pending(frontier@, head as int, next));
                        }
                    }
                    t += 1;
                }
                proof {
                    assert forall|j: usize| graph.edge(node, j) implies visited@[j as int] by {
                        let m = choose|m: int| 0 <= m < neighbours@.len() && neighbours@[m] == j;
                        assert(visited@[neighbours@[m] as int]);
                    }
                }
            },
            None => {},
        }
    }
    proof {
        assert forall|k: usize| !pending(frontier@, head as int, k) by {}
        assert forall|i: usize, j: usize| #[trigger] graph.edge(i, j) && i < visited@.len() && visited@[i as int]
            implies j < visited@.len() && visited@[j as int] by {}
        assert forall|m: usize| m < n && #[trigger] graph.reachable(start, m) implies best_score <= score(
            days@[m as int]@,
            *query,
        ) by {
            lemma_closed_holds_reachable(graph, visited@, start, m);
        }
        assert(days@[best_k as int] == days@[best_k as int]);
    }
    best
}

/// The day with the lowest score among those whose position `start` reaches
/// in `graph`, visited in breadth-first order; on a tie the first one met.
/// Nothing when `start` is no position of `days`.
pub fn bfs_closest(start: usize, graph: &Graph, days: &[DaySummary], query: &Conditions) -> (r:
    Option<DaySummary>)
    requires
        graph.wf(days@.len() as nat),
    ensures
        traversal_result(graph, days@, start, *query, r),
{
    closest_by_walk(start, graph, days, query, true)
}

/// The day with the lowest score among those whose position `start` reaches
/// in `graph`, visited in depth-first order; on a tie the first one met.
/// Nothing when `start` is no position of `days`.
pub fn dfs_closest(start: usize, graph: &Graph, days: &[DaySummary], query: &Conditions) -> (r:
    Option<DaySummary>)
    requires
        graph.wf(days@.len() as nat),
    ensures
        traversal_result(graph, days@, start, *query, r),
{
    closest_by_walk(start, graph, days, query, false)
}

/// The first of the lowest-scoring days of the whole sequence, whatever the
/// graph; nothing when `days` is empty.
pub fn linear_closest(days: &[DaySummary], query: &Conditions) -> (r: Option<DaySummary>)
    ensures
        scan_result(days@, *query, r),
{
    if days.len() == 0 {
        return None;
    }
    let mut best_k: usize = 0;
    let mut best_score: i32 = similarity_score(&days[0], query);
    let mut i: usize = 1;
    while i < days.len()
        invariant
            1 <= i <= days@.len(),
            best_k < i,
            best_score == score(days@[best_k as int]@, *query),
            forall|m: int| 0 <= m < i ==> best_score <= #[trigger] score(days@[m]@, *query),
            forall|m: int| 0 <= m < best_k ==> best_score < #[trigger] score(days@[m]@, *query),
        decreases days@.len() - i,
    {
        let s = similarity_score(&days[i], query);
        if s < best_score {
            best_score = s;
            best_k = i;
        }
        i += 1;
    }
    let d = days[best_k].clone();
    assert(d@ == days@[best_k as int]@);
    Some(d)
}

} // verus!
