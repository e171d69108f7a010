//! The navigable graph over the way data: per-node adjacency derived from
//! consecutive way entries, and the reachability notions the search's
//! contracts are stated with.

use vstd::prelude::*;
use crate::data::{Data, valid_data};

verus! {

/// Way `w` makes `a` and `b` adjacent at position `i`: they sit next to each
/// other (in either order) in that way's node list.
pub open spec fn way_adjacent_at(d: Data, w: int, i: int, a: int, b: int) -> bool {
    &&& 0 <= w < d.ways@.len()
    &&& 0 <= i
    &&& i + 1 < d.ways@[w].nodes@.len()
    &&& ((d.ways@[w].nodes@[i] == a && d.ways@[w].nodes@[i + 1] == b)
        || (d.ways@[w].nodes@[i] == b && d.ways@[w].nodes@[i + 1] == a))
}

/// Nodes `a` and `b` are graph-adjacent: some way lists them consecutively.
/// Symmetric by construction.
pub open spec fn way_adjacent(d: Data, a: int, b: int) -> bool {
    exists|w: int, i: int| way_adjacent_at(d, w, i, a, b)
}

/// A chain of pairwise-adjacent valid node indices leading from `from` to `to`.
pub open spec fn valid_chain(d: Data, p: Seq<usize>, from: int, to: int) -> bool {
    &&& p.len() >= 1
    &&& p[0] == from
    &&& p[p.len() - 1] == to
    &&& forall|k: int| 0 <= k < p.len() ==> (#[trigger] p[k]) < d.nodes@.len()
    &&& forall|k: int| 0 <= k < p.len() - 1 ==> way_adjacent(d, #[trigger] p[k] as int, p[k + 1] as int)
}

/// `to` can be reached from `from` along graph edges.
pub open spec fn reachable(d: Data, from: int, to: int) -> bool {
    exists|p: Seq<usize>| valid_chain(d, p, from, to)
}

/// A valid node is reachable from itself.
pub proof fn lemma_reachable_refl(d: Data, v: usize)
    requires
        v < d.nodes@.len(),
    ensures
        reachable(d, v as int, v as int),
{
    let p = seq![v];
    assert(valid_chain(d, p, v as int, v as int));
}

/// Reachability extends across one more edge.
pub proof fn lemma_reachable_step(d: Data, from: int, a: int, b: usize)
    requires
        reachable(d, from, a),
        way_adjacent(d, a, b as int),
        b < d.nodes@.len(),
    ensures
        reachable(d, from, b as int),
{
    let p = choose|p: Seq<usize>| valid_chain(d, p, from, a);
    let q = p.push(b);
    assert(q[q.len() - 1] == b);
    assert(forall|k: int| 0 <= k < q.len() - 1
        ==> way_adjacent(d, #[trigger] q[k] as int, q[k + 1] as int)) by {
        assert(forall|k: int| 0 <= k < p.len() ==> q[k] == p[k]);
    }
    assert(valid_chain(d, q, from, b as int));
}

/// Adjacency does not depend on the order of its arguments.
pub proof fn lemma_way_adjacent_symm(d: Data, a: int, b: int)
    requires
        way_adjacent(d, a, b),
    ensures
        way_adjacent(d, b, a),
{
    let (w, i) = choose|w: int, i: int|
        #![trigger d.ways@[w].nodes@[i]]
        way_adjacent_at(d, w, i, a, b);
    assert(way_adjacent_at(d, w, i, b, a));
}

/// Every chain can be walked backward: adjacency is symmetric, so
/// reachability is too.
pub proof fn lemma_reachable_symm(d: Data, from: int, to: int)
    requires
        reachable(d, from, to),
    ensures
        reachable(d, to, from),
{
    let p = choose|p: Seq<usize>| valid_chain(d, p, from, to);
    let q = p.reverse();
    assert(q.len() == p.len());
    assert(q[0] == p[p.len() - 1]);
    assert(q[q.len() - 1] == p[0]);
    assert forall|k: int| 0 <= k < q.len() - 1
        implies way_adjacent(d, #[trigger] q[k] as int, q[k + 1] as int) by {
        assert(q[k] == p[p.len() - 1 - k]);
        assert(q[k + 1] == p[p.len() - 2 - k]);
        let m = p.len() - 2 - k;
        assert(way_adjacent(d, p[m] as int, p[m + 1] as int));
        let (w, i) = choose|w: int, i: int|
            #![trigger d.ways@[w].nodes@[i]]
            way_adjacent_at(d, w, i, p[m] as int, p[m + 1] as int);
        assert(way_adjacent_at(d, w, i, q[k] as int, q[k + 1] as int));
    };
    assert(valid_chain(d, q, to, from));
}

/// The path planner: the graph source plus the adjacency lists derived from
/// it. Built once; read-only afterward.
pub struct PathPlanner {
    pub data: Data,
    pub neighbors: Vec<Vec<usize>>,
}

impl PathPlanner {
    /// The planner is well formed: the adjacency lists cover exactly the
    /// consecutive-way-entry relation of its data, with no duplicates.
    pub open spec fn wf(self) -> bool {
        &&& valid_data(self.data)
        &&& self.neighbors@.len() == self.data.nodes@.len()
        &&& forall|a: int, j: int|
            0 <= a < self.neighbors@.len() && 0 <= j < self.neighbors@[a]@.len()
                ==> (#[trigger] self.neighbors@[a]@[j]) < self.data.nodes@.len()
                    && way_adjacent(self.data, a, self.neighbors@[a]@[j] as int)
        &&& forall|a: int, b: usize|
            0 <= a < self.neighbors@.len() && way_adjacent(self.data, a, b as int)
                ==> #[trigger] self.neighbors@[a]@.contains(b)
        &&& forall|a: int, j: int, k: int|
            0 <= a < self.neighbors@.len() && 0 <= j < k < self.neighbors@[a]@.len()
                ==> (#[trigger] self.neighbors@[a]@[j]) != (#[trigger] self.neighbors@[a]@[k])
    }

    /// Builds the adjacency lists: for every way, each node is linked to its
    /// immediate predecessor and successor in that way, once.
    pub fn new(data: Data) -> (p: PathPlanner)
        requires
            valid_data(data),
        ensures
            p.wf(),
            p.data == data,
    {
        let n: usize = data.nodes.len();
        let mut neighbors: Vec<Vec<usize>> = Vec::new();
        while neighbors.len() < n
            invariant
                neighbors@.len() <= n,
                forall|a: int| 0 <= a < neighbors@.len() ==> (#[trigger] neighbors@[a])@.len() == 0,
            decreases n - neighbors@.len(),
        {
            neighbors.push(Vec::new());
        }
        let ghost d = data;
        let mut w: usize = 0;
        while w < data.ways.len()
            invariant
                data == d,
                valid_data(data),
                w <= data.ways@.len(),
                neighbors@.len() == n == data.nodes@.len(),
                forall|a: int, j: int|
                    0 <= a < neighbors@.len() && 0 <= j < neighbors@[a]@.len()
                        ==> (#[trigger] neighbors@[a]@[j]) < n
                            && way_adjacent(data, a, neighbors@[a]@[j] as int),
                forall|a: int, j: int, k: int|
                    0 <= a < neighbors@.len() && 0 <= j < k < neighbors@[a]@.len()
                        ==> (#[trigger] neighbors@[a]@[j]) != (#[trigger] neighbors@[a]@[k]),
                forall|w2: int, i2: int|
                    0 <= w2 < w && 0 <= i2 && i2 + 1 < data.ways@[w2].nodes@.len()
                        ==> neighbors@[(#[trigger] data.ways@[w2].nodes@[i2]) as int]@.contains(
                                data.ways@[w2].nodes@[i2 + 1])
                            && neighbors@[data.ways@[w2].nodes@[i2 + 1] as int]@.contains(
                                data.ways@[w2].nodes@[i2]),
            decreases data.ways@.len() - w,
        {
            let way_len: usize = data.ways[w].nodes.len();
            let segs: usize = if way_len == 0 { 0 } else { way_len - 1 };
            let mut i: usize = 0;
            while i < segs
                invariant
                    data == d,
                    valid_data(data),
                    w < data.ways@.len(),
                    way_len == data.ways@[w as int].nodes@.len(),
                    segs == if way_len == 0 { 0int } else { way_len - 1 },
                    i <= segs,
                    neighbors@.len() == n == data.nodes@.len(),
                    forall|a: int, j: int|
                        0 <= a < neighbors@.len() && 0 <= j < neighbors@[a]@.len()
                            ==> (#[trigger] neighbors@[a]@[j]) < n
                                && way_adjacent(data, a, neighbors@[a]@[j] as int),
                    forall|a: int, j: int, k: int|
                        0 <= a < neighbors@.len() && 0 <= j < k < neighbors@[a]@.len()
                            ==> (#[trigger] neighbors@[a]@[j]) != (#[trigger] neighbors@[a]@[k]),
                    forall|w2: int, i2: int|
                        0 <= w2 < w && 0 <= i2 && i2 + 1 < data.ways@[w2].nodes@.len()
                            ==> neighbors@[(#[trigger] data.ways@[w2].nodes@[i2]) as int]@.contains(
                                    data.ways@[w2].nodes@[i2 + 1])
                                && neighbors@[data.ways@[w2].nodes@[i2 + 1] as int]@.contains(
                                    data.ways@[w2].nodes@[i2]),
                    forall|i2: int|
                        0 <= i2 < i
                            ==> neighbors@[(#[trigger] data.ways@[w as int].nodes@[i2]) as int]@
                                    .contains(data.ways@[w as int].nodes@[i2 + 1])
                                && neighbors@[data.ways@[w as int].nodes@[i2 + 1] as int]@
                                    .contains(data.ways@[w as int].nodes@[i2]),
                decreases segs - i,
            {
                let a: usize = data.ways[w].nodes[i];
                let b: usize = data.ways[w].nodes[i + 1];
                proof {
                    assert(way_adjacent_at(data, w as int, i as int, a as int, b as int));
                    assert(way_adjacent_at(data, w as int, i as int, b as int, a as int));
                }
                insert_unique(&mut neighbors, a, b, Ghost(data));
                insert_unique(&mut neighbors, b, a, Ghost(data));
                i = i + 1;
            }
            w = w + 1;
        }
        PathPlanner { data, neighbors }
    }

    /// The adjacency lists are symmetric: edges are recorded in both
    /// directions, so a node lists another exactly when it is listed by it.
    pub proof fn lemma_neighbors_symmetric(self, a: usize, b: usize)
        requires
            self.wf(),
            a < self.data.nodes@.len(),
            b < self.data.nodes@.len(),
        ensures
            self.neighbors@[a as int]@.contains(b) <==> self.neighbors@[b as int]@.contains(a),
    {
        if self.neighbors@[a as int]@.contains(b) {
            let j = choose|j: int|
                0 <= j < self.neighbors@[a as int]@.len() && self.neighbors@[a as int]@[j] == b;
            assert(way_adjacent(self.data, a as int, b as int));
            lemma_way_adjacent_symm(self.data, a as int, b as int);
        }
        if self.neighbors@[b as int]@.contains(a) {
            let j = choose|j: int|
                0 <= j < self.neighbors@[b as int]@.len() && self.neighbors@[b as int]@[j] == a;
            assert(way_adjacent(self.data, b as int, a as int));
            lemma_way_adjacent_symm(self.data, b as int, a as int);
        }
    }

    /// The distinct graph neighbors of a node.
    pub fn node_neighbors(&self, node_id: usize) -> (r: &Vec<usize>)
        requires
            self.wf(),
            node_id < self.data.nodes@.len(),
        ensures
            r@ == self.neighbors@[node_id as int]@,
    {
        &self.neighbors[node_id]
    }
}

/// Appends `b` to `lists[a]` unless already present, preserving the adjacency
/// soundness and distinctness of every list.
fn insert_unique(lists: &mut Vec<Vec<usize>>, a: usize, b: usize, Ghost(d): Ghost<Data>)
    requires
        a < old(lists)@.len(),
        b < old(lists)@.len(),
        old(lists)@.len() == d.nodes@.len(),
        way_adjacent(d, a as int, b as int),
        forall|x: int, j: int|
            0 <= x < old(lists)@.len() && 0 <= j < old(lists)@[x]@.len()
                ==> (#[trigger] old(lists)@[x]@[j]) < old(lists)@.len()
                    && way_adjacent(d, x, old(lists)@[x]@[j] as int),
        forall|x: int, j: int, k: int|
            0 <= x < old(lists)@.len() && 0 <= j < k < old(lists)@[x]@.len()
                ==> (#[trigger] old(lists)@[x]@[j]) != (#[trigger] old(lists)@[x]@[k]),
    ensures
        final(lists)@.len() == old(lists)@.len(),
        forall|x: int| 0 <= x < old(lists)@.len() && x != a ==> final(lists)@[x] == old(lists)@[x],
        final(lists)@[a as int]@.contains(b),
        forall|y: usize|
            #[trigger] final(lists)@[a as int]@.contains(y)
                ==> old(lists)@[a as int]@.contains(y) || y == b,
        forall|y: usize|
            #[trigger] old(lists)@[a as int]@.contains(y) ==> final(lists)@[a as int]@.contains(y),
        forall|x: int, j: int|
            0 <= x < final(lists)@.len() && 0 <= j < final(lists)@[x]@.len()
                ==> (#[trigger] final(lists)@[x]@[j]) < final(lists)@.len()
                    && way_adjacent(d, x, final(lists)@[x]@[j] as int),
        forall|x: int, j: int, k: int|
            0 <= x < final(lists)@.len() && 0 <= j < k < final(lists)@[x]@.len()
                ==> (#[trigger] final(lists)@[x]@[j]) != (#[trigger] final(lists)@[x]@[k]),
{
    let list_len: usize = lists[a].len();
    let mut found: bool = false;
    let mut i: usize = 0;
    while i < list_len
        invariant
            lists == old(lists),
            a < lists@.len(),
            list_len == lists@[a as int]@.len(),
            i <= list_len,
            found ==> lists@[a as int]@.contains(b),
            !found ==> forall|j: int| 0 <= j < i ==> lists@[a as int]@[j] != b,
        decreases list_len - i,
    {
        if lists[a][i] == b {
            found = true;
        }
        i = i + 1;
    }
    if found {
        return;
    }
    let ghost before = lists@;
    proof {
        assert(forall|j: int| 0 <= j < before[a as int]@.len() ==> before[a as int]@[j] != b);
    }
    let list: &mut Vec<usize> = &mut lists[a];
    list.push(b);
    proof {
        let ghost la = lists@[a as int]@;
        let ghost ba = before[a as int]@;
        assert(la =~= ba.push(b));
        assert(la[ba.len() as int] == b);
        assert(la.contains(b));
        assert forall|y: usize| #[trigger] ba.contains(y) implies la.contains(y) by {
            let j = choose|j: int| 0 <= j < ba.len() && ba[j] == y;
            assert(la[j] == y);
        };
        assert forall|y: usize| #[trigger] la.contains(y) implies ba.contains(y) || y == b by {
            let j = choose|j: int| 0 <= j < la.len() && la[j] == y;
            if j < ba.len() {
                assert(ba[j] == y);
            }
        };
    }
}

} // verus!
