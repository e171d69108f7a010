//! The A* shortest-path search over the planner's graph, with a bounded
//! iteration budget, and the path reconstruction that walks the predecessor
//! map back from the goal.

use vstd::prelude::*;
use crate::data::Data;
use crate::geom::{GeoCoord, node_coord, node_to_geocoord, distance};
use crate::graph::{
    PathPlanner, way_adjacent, valid_chain, reachable, lemma_reachable_refl,
    lemma_reachable_step, lemma_reachable_symm, lemma_way_adjacent_symm,
};

verus! {

/// Hard cap on the number of nodes a single search may pop from its open set:
/// the search then behaves as if the open set were exhausted and reports
/// itself truncated.
pub const MAX_ITERS: usize = 10_000_000;

/// The coordinates of a chain of node indices, in chain order.
pub open spec fn chain_coords(d: Data, p: Seq<usize>) -> Seq<GeoCoord> {
    p.map_values(|v: usize| node_coord(d.nodes@[v as int]))
}

/// The debug result is the coordinate list of a set of node indices `vs`:
/// strictly increasing (so listed in index order, without repeats), every one
/// reachable from the start, the start among them, and - unless the search
/// was truncated - either every reachable node among them or the goal among
/// them (the search stops exploring when it pops the goal).
pub open spec fn debug_view_ok(
    d: Data,
    start: int,
    end: int,
    truncated: bool,
    path: Seq<GeoCoord>,
    vs: Seq<usize>,
) -> bool {
    &&& path == chain_coords(d, vs)
    &&& forall|k: int|
        0 <= k < vs.len() ==> (#[trigger] vs[k]) < d.nodes@.len() && reachable(
            d,
            start,
            vs[k] as int,
        )
    &&& forall|k: int| 0 <= k < vs.len() - 1 ==> (#[trigger] vs[k]) < vs[k + 1]
    &&& exists|k: int| 0 <= k < vs.len() && (#[trigger] vs[k]) == start
    &&& (!truncated ==> (forall|u: int|
        0 <= u < d.nodes@.len() && reachable(d, start, u) ==> exists|k: int|
            0 <= k < vs.len() && (#[trigger] vs[k]) == u) || (exists|k: int|
        0 <= k < vs.len() && (#[trigger] vs[k]) == end))
}

/// What a finished search guarantees about its result and its truncation
/// flag. A non-debug result is empty or carries a genuine end-to-start chain
/// of adjacent nodes; a goal equal to the start yields exactly its own
/// coordinate; and unless the search was truncated (pop budget exhausted or
/// an accumulated score overflowed), a route comes back exactly when the goal
/// is reachable. A debug result is the explored set, in index order.
pub open spec fn plan_path_post(
    d: Data,
    start: int,
    end: int,
    debug: bool,
    path: Seq<GeoCoord>,
    truncated: bool,
) -> bool {
    &&& (!debug && start == end ==> path =~= seq![node_coord(d.nodes@[start])] && !truncated)
    &&& (!debug && path.len() > 0 ==> exists|p: Seq<usize>|
        valid_chain(d, p, end, start) && path == chain_coords(d, p))
    &&& (!debug && !reachable(d, start, end) ==> path.len() == 0)
    &&& (!debug && !truncated ==> (path.len() > 0 <==> reachable(d, start, end)))
    &&& (debug ==> exists|vs: Seq<usize>| debug_view_ok(d, start, end, truncated, path, vs))
}

/// A non-empty route runs end to start: its first coordinate is the goal's
/// and its last is the start's.
pub proof fn lemma_route_endpoints(
    d: Data,
    start: int,
    end: int,
    path: Seq<GeoCoord>,
    truncated: bool,
)
    requires
        0 <= start < d.nodes@.len(),
        0 <= end < d.nodes@.len(),
        plan_path_post(d, start, end, false, path, truncated),
        path.len() > 0,
    ensures
        path[0] == node_coord(d.nodes@[end]),
        path[path.len() - 1] == node_coord(d.nodes@[start]),
{
    let p = choose|p: Seq<usize>| valid_chain(d, p, end, start) && path == chain_coords(d, p);
    assert(path[0] == node_coord(d.nodes@[p[0] as int]));
    assert(path[path.len() - 1] == node_coord(d.nodes@[p[p.len() - 1] as int]));
}

/// One recorded predecessor edge is consistent: it joins adjacent valid
/// nodes whose scores strictly descend toward the start, counting recording
/// depth as a tie-breaker so predecessor walks terminate even across
/// zero-length edges.
pub open spec fn edge_ok(
    d: Data,
    came_from: Seq<Option<usize>>,
    g_score: Seq<Option<u64>>,
    depth: Map<int, nat>,
    v: int,
) -> bool {
    let u = came_from[v]->0 as int;
    &&& 0 <= u < came_from.len()
    &&& way_adjacent(d, u, v)
    &&& g_score[u] is Some
    &&& g_score[v] is Some
    &&& depth.dom().contains(u)
    &&& depth.dom().contains(v)
    &&& (g_score[u]->0 < g_score[v]->0
        || (g_score[u]->0 == g_score[v]->0 && depth[u] < depth[v]))
}

/// The search bookkeeping is consistent: scores and predecessors cover the
/// node array, every scored node is reachable from the start, the start is
/// the only scored node without a predecessor, and every predecessor edge is
/// consistent.
pub open spec fn search_inv(
    d: Data,
    start: int,
    came_from: Seq<Option<usize>>,
    g_score: Seq<Option<u64>>,
    depth: Map<int, nat>,
) -> bool {
    &&& came_from.len() == d.nodes@.len()
    &&& g_score.len() == d.nodes@.len()
    &&& 0 <= start < d.nodes@.len()
    &&& depth.dom().contains(start)
    &&& forall|v: int|
        0 <= v < g_score.len() && (#[trigger] g_score[v]) is Some ==> reachable(d, start, v)
    &&& forall|v: int|
        0 <= v < g_score.len() && (#[trigger] g_score[v]) is Some && came_from[v] is None
            ==> v == start
    &&& forall|v: int|
        0 <= v < came_from.len() && (#[trigger] came_from[v]) is Some
            ==> edge_ok(d, came_from, g_score, depth, v)
}

/// Some entry for node `v` sits in the open set.
pub open spec fn in_open(open: Seq<(u64, usize)>, v: int) -> bool {
    exists|k: int| 0 <= k < open.len() && (#[trigger] open[k]).1 == v
}

/// Every neighbor of `v` has been scored.
pub open spec fn nbrs_scored(p: PathPlanner, g_score: Seq<Option<u64>>, v: int) -> bool {
    forall|j: int|
        0 <= j < p.neighbors@[v]@.len() ==> g_score[(#[trigger] p.neighbors@[v]@[j]) as int] is Some
}

/// Along a chain whose first node is scored, every node is scored, as long
/// as the scored set is closed under adjacency.
proof fn lemma_chain_scored(p: PathPlanner, g_score: Seq<Option<u64>>, chain: Seq<usize>, k: int)
    requires
        p.wf(),
        g_score.len() == p.data.nodes@.len(),
        forall|v: int|
            0 <= v < g_score.len() && (#[trigger] g_score[v]) is Some ==> nbrs_scored(
                p,
                g_score,
                v,
            ),
        chain.len() >= 1,
        forall|m: int| 0 <= m < chain.len() ==> (#[trigger] chain[m]) < p.data.nodes@.len(),
        forall|m: int|
            0 <= m < chain.len() - 1 ==> way_adjacent(
                p.data,
                #[trigger] chain[m] as int,
                chain[m + 1] as int,
            ),
        g_score[chain[0] as int] is Some,
        0 <= k < chain.len(),
    ensures
        g_score[chain[k] as int] is Some,
    decreases k,
{
    if k > 0 {
        lemma_chain_scored(p, g_score, chain, k - 1);
        let u = chain[k - 1];
        let v = chain[k];
        assert(way_adjacent(p.data, u as int, v as int));
        assert(p.neighbors@[u as int]@.contains(v));
        let j = choose|j: int|
            0 <= j < p.neighbors@[u as int]@.len() && p.neighbors@[u as int]@[j] == v;
        assert(nbrs_scored(p, g_score, u as int));
        assert(g_score[p.neighbors@[u as int]@[j] as int] is Some);
    }
}

/// When the scored set is closed under adjacency and holds the start, it
/// holds every node reachable from the start.
proof fn lemma_closure_covers_reachable(
    p: PathPlanner,
    g_score: Seq<Option<u64>>,
    start: usize,
    target: int,
)
    requires
        p.wf(),
        g_score.len() == p.data.nodes@.len(),
        start < p.data.nodes@.len(),
        g_score[start as int] is Some,
        forall|v: int|
            0 <= v < g_score.len() && (#[trigger] g_score[v]) is Some ==> nbrs_scored(
                p,
                g_score,
                v,
            ),
        reachable(p.data, start as int, target),
        0 <= target < p.data.nodes@.len(),
    ensures
        g_score[target] is Some,
{
    let chain = choose|c: Seq<usize>| valid_chain(p.data, c, start as int, target);
    lemma_chain_scored(p, g_score, chain, chain.len() - 1);
}

impl PathPlanner {
    /// A* search from `start_node` to `end_node`.
    ///
    /// Returns the route's coordinates in end-to-start order together with a
    /// truncation flag: true when the pop budget was exhausted or an
    /// accumulated score overflowed, in which case the search degraded to
    /// "not found" without having exhausted the graph. When the flag is
    /// false, a route comes back exactly when the goal is reachable; a goal
    /// equal to the start yields its own single coordinate. In debug mode the
    /// first component is instead the explored set's coordinates, in node
    /// index order.
    #[verifier::rlimit(100)]
    pub fn plan_path(&self, start_node: usize, end_node: usize, debug_paths: bool) -> (r: (
        Vec<GeoCoord>,
        bool,
    ))
        requires
            self.wf(),
            start_node < self.data.nodes@.len(),
            end_node < self.data.nodes@.len(),
        ensures
            plan_path_post(self.data, start_node as int, end_node as int, debug_paths, r.0@, r.1),
    {
        let ghost d = self.data;
        let ghost start = start_node as int;
        let n: usize = self.data.nodes.len();

        if start_node == end_node && !debug_paths {
            // The first node popped would be the goal itself, before anything
            // is recorded: the route is the start's own coordinate.
            let mut path: Vec<GeoCoord> = Vec::new();
            path.push(node_to_geocoord(&self.data.nodes[start_node]));
            proof {
                let p = seq![start_node];
                lemma_reachable_refl(d, start_node);
                assert(valid_chain(d, p, end_node as int, start_node as int));
                assert(path@ =~= chain_coords(d, p));
            }
            return (path, false);
        }

        let mut came_from: Vec<Option<usize>> = Vec::new();
        let mut g_score: Vec<Option<u64>> = Vec::new();
        while came_from.len() < n
            invariant
                came_from@.len() <= n,
                forall|v: int| 0 <= v < came_from@.len() ==> (#[trigger] came_from@[v]) is None,
            decreases n - came_from@.len(),
        {
            came_from.push(None);
        }
        while g_score.len() < n
            invariant
                g_score@.len() <= n,
                forall|v: int| 0 <= v < g_score@.len() ==> (#[trigger] g_score@[v]) is None,
            decreases n - g_score@.len(),
        {
            g_score.push(None);
        }
        g_score.set(start_node, Some(0u64));
        let ghost mut depth: Map<int, nat> = Map::empty().insert(start, 0nat);
        let mut open_set: Vec<(u64, usize)> = Vec::new();
        open_set.push((0u64, start_node));
        proof {
            lemma_reachable_refl(d, start_node);
            assert(open_set@[0].1 == start_node);
            assert(in_open(open_set@, start));
        }

        let mut truncated: bool = false;
        let mut iters: usize = 0;
        while open_set.len() > 0
            invariant_except_break
                iters < MAX_ITERS,
            invariant
                self.wf(),
                self.data == d,
                n == d.nodes@.len(),
                start == start_node as int,
                start_node < n,
                end_node < n,
                debug_paths || start_node != end_node,
                search_inv(d, start, came_from@, g_score@, depth),
                g_score@[start as int] is Some,
                forall|k: int|
                    0 <= k < open_set@.len() ==> (#[trigger] open_set@[k]).1 < n
                        && g_score@[open_set@[k].1 as int] is Some,
                !truncated && !(debug_paths && g_score@[end_node as int] is Some)
                    ==> forall|v: int|
                    0 <= v < n && (#[trigger] g_score@[v]) is Some ==> in_open(open_set@, v)
                        || nbrs_scored(*self, g_score@, v),
                !truncated && !debug_paths ==> (g_score@[end_node as int] is Some ==> in_open(
                    open_set@,
                    end_node as int,
                )),
            ensures
                search_inv(d, start, came_from@, g_score@, depth),
                g_score@[start as int] is Some,
                !truncated && !(debug_paths && g_score@[end_node as int] is Some)
                    ==> forall|v: int|
                    0 <= v < n && (#[trigger] g_score@[v]) is Some ==> in_open(open_set@, v)
                        || nbrs_scored(*self, g_score@, v),
                !truncated && !debug_paths ==> (g_score@[end_node as int] is Some ==> in_open(
                    open_set@,
                    end_node as int,
                )),
                truncated || open_set@.len() == 0 || (debug_paths && g_score@[
                    end_node as int
                ] is Some),
            decreases MAX_ITERS - iters,
        {
            let popped: (u64, usize) = pop_min(&mut open_set);
            let cur: usize = popped.1;
            iters = iters + 1;
            if iters >= MAX_ITERS {
                truncated = true;
                break;
            }
            if cur == end_node {
                if debug_paths {
                    break;
                }
                let path = reconstruct_path(
                    &self.data,
                    &came_from,
                    &g_score,
                    Ghost(depth),
                    cur,
                    Ghost(start),
                );
                proof {
                    let p = choose|p: Seq<usize>|
                        valid_chain(d, p, cur as int, start) && path@ == chain_coords(d, p);
                    assert(valid_chain(d, p, end_node as int, start_node as int));
                    assert(reachable(d, end_node as int, start));
                    lemma_reachable_symm(d, end_node as int, start);
                }
                return (path, truncated);
            }
            let g_cur: u64 = g_score[cur].unwrap();
            let nbr_len: usize = self.neighbors[cur].len();
            let mut j: usize = 0;
            while j < nbr_len
                invariant
                    self.wf(),
                    self.data == d,
                    n == d.nodes@.len(),
                    start == start_node as int,
                    start_node < n,
                    end_node < n,
                    cur < n,
                    nbr_len == self.neighbors@[cur as int]@.len(),
                    j <= nbr_len,
                    g_score@[cur as int] == Some(g_cur),
                    g_score@[start as int] is Some,
                    search_inv(d, start, came_from@, g_score@, depth),
                    forall|k: int|
                        0 <= k < open_set@.len() ==> (#[trigger] open_set@[k]).1 < n
                            && g_score@[open_set@[k].1 as int] is Some,
                    !truncated ==> forall|j2: int|
                        0 <= j2 < j ==> g_score@[(#[trigger] self.neighbors@[cur as int]@[
                            j2
                        ]) as int] is Some,
                    !truncated && !(debug_paths && g_score@[end_node as int] is Some)
                        ==> forall|v: int|
                        0 <= v < n && (#[trigger] g_score@[v]) is Some ==> v == cur as int
                            || in_open(open_set@, v) || nbrs_scored(*self, g_score@, v),
                    !truncated && !debug_paths ==> (g_score@[end_node as int] is Some ==> in_open(
                        open_set@,
                        end_node as int,
                    )),
                decreases nbr_len - j,
            {
                let nb: usize = self.neighbors[cur][j];
                let dist_val: u64 = distance(&self.data.nodes[cur], &self.data.nodes[nb]);
                match g_cur.checked_add(dist_val) {
                    Some(t) => {
                        let better: bool = match g_score[nb] {
                            Some(gn) => t < gn,
                            None => true,
                        };
                        if better {
                            let ghost old_came_from = came_from@;
                            let ghost old_g = g_score@;
                            let ghost old_depth = depth;
                            let ghost old_open = open_set@;
                            proof {
                                // The current node is in the depth map: it is
                                // the start, or it has a recorded predecessor.
                                if cur as int != start {
                                    assert(came_from@[cur as int] is Some);
                                } else {
                                    assert(depth.dom().contains(start));
                                }
                            }
                            came_from.set(nb, Some(cur));
                            g_score.set(nb, Some(t));
                            proof {
                                depth = depth.insert(nb as int, (old_depth[cur as int] + 1) as nat);
                                lemma_reachable_step(d, start, cur as int, nb);
                                assert forall|v: int|
                                    0 <= v < came_from@.len() && (#[trigger] came_from@[v]) is Some
                                    implies edge_ok(d, came_from@, g_score@, depth, v) by {
                                    if v == nb as int {
                                        assert(way_adjacent(d, cur as int, nb as int));
                                    } else {
                                        assert(old_came_from[v] is Some);
                                        assert(edge_ok(d, old_came_from, old_g, old_depth, v));
                                        let u = came_from@[v]->0 as int;
                                        if u == nb as int {
                                            // The predecessor's score only
                                            // dropped: the edge descends.
                                            assert(t < old_g[u]->0);
                                        }
                                    }
                                };
                            }
                            let h: u64 = distance(
                                &self.data.nodes[nb],
                                &self.data.nodes[end_node],
                            );
                            let f: u64 = match t.checked_add(h) {
                                Some(f) => f,
                                None => u64::MAX,
                            };
                            open_set.push((f, nb));
                            proof {
                                // The push keeps every earlier entry in
                                // place, and gives the newly scored node its
                                // own entry.
                                assert(open_set@[open_set@.len() - 1].1 == nb);
                                assert(in_open(open_set@, nb as int));
                                assert forall|v: int| in_open(old_open, v) implies in_open(
                                    open_set@,
                                    v,
                                ) by {
                                    let k = choose|k: int|
                                        0 <= k < old_open.len() && (#[trigger] old_open[k]).1 == v;
                                    assert(open_set@[k].1 == v);
                                };
                                if !truncated && !(debug_paths && g_score@[
                                    end_node as int
                                ] is Some) {
                                    assert forall|v: int|
                                        0 <= v < n && (#[trigger] g_score@[v]) is Some
                                        implies v == cur as int || in_open(open_set@, v)
                                            || nbrs_scored(*self, g_score@, v) by {
                                        if v != nb as int {
                                            assert(old_g[v] is Some);
                                            if !(v == cur as int || in_open(old_open, v)) {
                                                assert(nbrs_scored(*self, old_g, v));
                                                assert forall|j2: int|
                                                    0 <= j2 < self.neighbors@[v]@.len()
                                                    implies g_score@[(
                                                    #[trigger] self.neighbors@[v]@[j2]) as int]
                                                        is Some by {
                                                    assert(old_g[self.neighbors@[v]@[
                                                        j2
                                                    ] as int] is Some);
                                                };
                                            }
                                        }
                                    };
                                }
                            }
                        }
                    },
                    None => {
                        // The accumulated score overflowed: treat it as
                        // unreachable along this edge and report the search
                        // truncated.
                        truncated = true;
                    },
                }
                proof {
                    if !truncated {
                        assert(g_score@[(self.neighbors@[cur as int]@[j as int]) as int] is Some);
                    }
                }
                j = j + 1;
            }
            proof {
                if !truncated {
                    assert(nbrs_scored(*self, g_score@, cur as int));
                }
            }
        }

        if debug_paths {
            let collected: (Vec<GeoCoord>, Ghost<Seq<usize>>) = collect_scored(
                &self.data,
                &g_score,
            );
            let out: Vec<GeoCoord> = collected.0;
            let ghost picked: Seq<usize> = collected.1@;
            proof {
                assert forall|k: int| 0 <= k < picked.len() implies reachable(
                    d,
                    start,
                    (#[trigger] picked[k]) as int,
                ) by {
                    assert(g_score@[picked[k] as int] is Some);
                };
                // The start is always scored, so it is in the view.
                assert(exists|k: int|
                    0 <= k < picked.len() && (#[trigger] picked[k]) == start);
                if !truncated {
                    if g_score@[end_node as int] is Some {
                        assert(exists|k: int|
                            0 <= k < picked.len() && (#[trigger] picked[k]) == end_node as int);
                    } else {
                        // The open set emptied: the scored set is closed
                        // under adjacency and covers everything reachable.
                        assert(open_set@.len() == 0);
                        assert forall|w: int|
                            0 <= w < n && (#[trigger] g_score@[w]) is Some
                            implies nbrs_scored(*self, g_score@, w) by {
                            assert(!in_open(open_set@, w));
                        };
                        assert forall|u: int|
                            0 <= u < d.nodes@.len() && reachable(d, start, u)
                            implies exists|k: int|
                                0 <= k < picked.len() && (#[trigger] picked[k]) == u by {
                            lemma_closure_covers_reachable(*self, g_score@, start_node, u);
                        };
                    }
                }
                assert(debug_view_ok(
                    d,
                    start,
                    end_node as int,
                    truncated,
                    out@,
                    picked,
                ));
            }
            (out, truncated)
        } else {
            proof {
                if !truncated {
                    // The loop ended with its open set empty, the goal was
                    // never scored, and the scored set covers everything
                    // reachable: the goal is unreachable.
                    assert(open_set@.len() == 0);
                    assert(!in_open(open_set@, end_node as int));
                    assert(g_score@[end_node as int] is None);
                    if reachable(d, start, end_node as int) {
                        assert forall|w: int|
                            0 <= w < n && (#[trigger] g_score@[w]) is Some
                            implies nbrs_scored(*self, g_score@, w) by {
                            assert(!in_open(open_set@, w));
                        };
                        lemma_closure_covers_reachable(
                            *self,
                            g_score@,
                            start_node,
                            end_node as int,
                        );
                        assert(false);
                    }
                }
            }
            (Vec::new(), truncated)
        }
    }
}

/// Collects the coordinates of every scored node, in increasing node-index
/// order, together with the index list itself.
fn collect_scored(data: &Data, g_score: &Vec<Option<u64>>) -> (r: (Vec<GeoCoord>, Ghost<
    Seq<usize>,
>))
    requires
        g_score@.len() == data.nodes@.len(),
    ensures
        r.0@ == chain_coords(*data, r.1@),
        forall|k: int|
            0 <= k < r.1@.len() ==> (#[trigger] r.1@[k]) < data.nodes@.len() && g_score@[
                r.1@[k] as int
            ] is Some,
        forall|k: int| 0 <= k < r.1@.len() - 1 ==> (#[trigger] r.1@[k]) < r.1@[k + 1],
        forall|u: int|
            0 <= u < g_score@.len() && (#[trigger] g_score@[u]) is Some ==> exists|k: int|
                0 <= k < r.1@.len() && (#[trigger] r.1@[k]) == u,
{
    let ghost d = *data;
    let n: usize = g_score.len();
    let mut out: Vec<GeoCoord> = Vec::new();
    let ghost mut picked: Seq<usize> = Seq::empty();
    let mut v: usize = 0;
    while v < n
        invariant
            *data == d,
            n == g_score@.len() == d.nodes@.len(),
            v <= n,
            picked.len() == out@.len(),
            forall|k: int|
                0 <= k < picked.len() ==> (#[trigger] picked[k]) < d.nodes@.len() && g_score@[
                    picked[k] as int
                ] is Some && out@[k] == node_coord(d.nodes@[picked[k] as int]),
            forall|k: int| 0 <= k < picked.len() ==> (#[trigger] picked[k]) < v,
            forall|k: int| 0 <= k < picked.len() - 1 ==> (#[trigger] picked[k]) < picked[k + 1],
            forall|u: int|
                0 <= u < v && (#[trigger] g_score@[u]) is Some ==> exists|k: int|
                    0 <= k < picked.len() && (#[trigger] picked[k]) == u,
        decreases n - v,
    {
        if g_score[v].is_some() {
            out.push(node_to_geocoord(&data.nodes[v]));
            let ghost old_picked = picked;
            proof {
                picked = picked.push(v);
                assert(out@[out@.len() - 1] == node_coord(d.nodes@[v as int]));
                assert(picked[picked.len() - 1] == v);
                assert forall|u: int|
                    0 <= u < v + 1 && (#[trigger] g_score@[u]) is Some
                    implies exists|k: int|
                        0 <= k < picked.len() && (#[trigger] picked[k]) == u by {
                    if u < v as int {
                        let k = choose|k: int|
                            0 <= k < old_picked.len() && (#[trigger] old_picked[k]) == u;
                        assert(picked[k] == u);
                    } else {
                        assert(picked[picked.len() - 1] == u);
                    }
                };
            }
        }
        v = v + 1;
    }
    proof {
        assert(out@ =~= chain_coords(d, picked));
    }
    (out, Ghost(picked))
}

/// Removes and returns an entry with the smallest priority; ties go to the
/// earliest such entry. Every other node keeps an entry.
fn pop_min(open_set: &mut Vec<(u64, usize)>) -> (r: (u64, usize))
    requires
        old(open_set)@.len() > 0,
    ensures
        old(open_set)@.contains(r),
        final(open_set)@.len() == old(open_set)@.len() - 1,
        forall|k: int|
            0 <= k < final(open_set)@.len()
                ==> old(open_set)@.contains(#[trigger] final(open_set)@[k]),
        forall|v: int|
            in_open(old(open_set)@, v) && v != r.1 as int ==> in_open(final(open_set)@, v),
{
    let mut best: usize = 0;
    let mut i: usize = 1;
    while i < open_set.len()
        invariant
            open_set == old(open_set),
            open_set@.len() > 0,
            best < open_set@.len(),
            i <= open_set@.len(),
            forall|k: int| 0 <= k < i ==> open_set@[best as int].0 <= (#[trigger] open_set@[k]).0,
        decreases open_set@.len() - i,
    {
        if open_set[i].0 < open_set[best].0 {
            best = i;
        }
        i = i + 1;
    }
    let ghost before = open_set@;
    let ghost best_idx = best as int;
    let r = open_set.swap_remove(best);
    proof {
        assert(before.contains(r)) by {
            assert(before[best_idx] == r);
        }
        assert forall|k: int| 0 <= k < open_set@.len()
            implies before.contains(#[trigger] open_set@[k]) by {
            if k == best_idx {
                assert(open_set@[k] == before[before.len() - 1]);
            } else {
                assert(open_set@[k] == before[k]);
            }
        };
        assert forall|v: int| in_open(before, v) && v != r.1 as int
            implies in_open(open_set@, v) by {
            let k = choose|k: int| 0 <= k < before.len() && (#[trigger] before[k]).1 == v;
            if k == best_idx {
                assert(before[k] == r);
                assert(false);
            } else if k == before.len() - 1 {
                // The last entry moved into the removed slot.
                assert(open_set@[best_idx].1 == v);
            } else {
                assert(open_set@[k].1 == v);
            }
        };
    }
    r
}

/// Walks the predecessor map backward from `current`, collecting coordinates
/// until the start (the one recorded node without a predecessor) is reached.
/// The result is the coordinate sequence of exactly that predecessor walk.
fn reconstruct_path(
    data: &Data,
    came_from: &Vec<Option<usize>>,
    g_score: &Vec<Option<u64>>,
    Ghost(depth): Ghost<Map<int, nat>>,
    current: usize,
    Ghost(start): Ghost<int>,
) -> (path: Vec<GeoCoord>)
    requires
        search_inv(*data, start, came_from@, g_score@, depth),
        current < data.nodes@.len(),
        g_score@[current as int] is Some,
    ensures
        path@.len() >= 1,
        exists|p: Seq<usize>|
            {
                &&& valid_chain(*data, p, current as int, start)
                &&& path@ == chain_coords(*data, p)
                &&& forall|k: int|
                    0 <= k < p.len() - 1 ==> came_from@[(#[trigger] p[k]) as int] == Some(
                        p[k + 1],
                    )
                &&& came_from@[p[p.len() - 1] as int] is None
            },
{
    let ghost d = *data;
    let mut path: Vec<GeoCoord> = Vec::new();
    path.push(node_to_geocoord(&data.nodes[current]));
    let mut cur: usize = current;
    let ghost mut trace: Seq<usize> = seq![current];
    proof {
        assert(path@ =~= chain_coords(d, trace));
    }
    loop
        invariant
            search_inv(d, start, came_from@, g_score@, depth),
            d == *data,
            cur < d.nodes@.len(),
            g_score@[cur as int] is Some,
            trace.len() == path@.len(),
            trace.len() >= 1,
            trace[0] == current,
            trace[trace.len() - 1] == cur,
            forall|k: int| 0 <= k < trace.len() ==> (#[trigger] trace[k]) < d.nodes@.len(),
            forall|k: int|
                0 <= k < trace.len() - 1
                    ==> way_adjacent(d, #[trigger] trace[k] as int, trace[k + 1] as int),
            forall|k: int|
                0 <= k < trace.len() - 1 ==> came_from@[(#[trigger] trace[k]) as int] == Some(
                    trace[k + 1],
                ),
            path@ == chain_coords(d, trace),
        ensures
            came_from@[cur as int] is None,
        decreases g_score@[cur as int]->0, depth[cur as int],
    {
        match came_from[cur] {
            Some(u) => {
                proof {
                    assert(edge_ok(d, came_from@, g_score@, depth, cur as int));
                    lemma_way_adjacent_symm(d, u as int, cur as int);
                }
                path.push(node_to_geocoord(&data.nodes[u]));
                let ghost old_trace = trace;
                proof {
                    trace = trace.push(u);
                    assert(path@ =~= chain_coords(d, trace)) by {
                        assert(chain_coords(d, trace) =~= chain_coords(d, old_trace).push(
                            node_coord(d.nodes@[u as int]),
                        ));
                    }
                }
                cur = u;
            },
            None => {
                break;
            },
        }
    }
    proof {
        assert(cur as int == start);
        assert(valid_chain(d, trace, current as int, start));
    }
    path
}

} // verus!
