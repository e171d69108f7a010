//! The graph source data: nodes, tagged ways, and the healing step that turns
//! raw id-keyed input into a dense, index-healed `Data` value.

use vstd::prelude::*;
use crate::geom::Node;

verus! {

/// A way: an ordered polyline of node indices with descriptive `"key/value"`
/// tag strings. Consecutive entries of `nodes` are graph-adjacent.
pub struct Way {
    pub tags: Vec<String>,
    pub nodes: Vec<usize>,
}

/// The graph source: a dense node array and the ways over it.
pub struct Data {
    pub nodes: Vec<Node>,
    pub ways: Vec<Way>,
}

/// Every node index referenced by a way is a valid index into `nodes`.
pub open spec fn valid_data(d: Data) -> bool {
    forall|w: int, i: int|
        0 <= w < d.ways@.len() && 0 <= i < d.ways@[w].nodes@.len()
            ==> (#[trigger] d.ways@[w].nodes@[i]) < d.nodes@.len()
}

/// A raw node as ingested: a foreign id and a position in decimicro-degrees.
#[derive(Clone, Copy, PartialEq, Eq, Structural, Debug)]
pub struct RawNode {
    pub id: i64,
    pub lat: i32,
    pub long: i32,
}

/// A raw way as ingested: foreign node ids and `"key/value"` tag strings.
pub struct RawWay {
    pub node_ids: Vec<i64>,
    pub tags: Vec<String>,
}

/// Some raw node carries this id.
pub open spec fn id_occurs(raw_nodes: Seq<RawNode>, id: i64) -> bool {
    exists|k: int| 0 <= k < raw_nodes.len() && (#[trigger] raw_nodes[k]).id == id
}

/// The position of the last raw node carrying `id` (ids may repeat; the last
/// occurrence wins, as a keyed insert would have it).
pub open spec fn last_node_value(raw_nodes: Seq<RawNode>, id: i64) -> Node
    decreases raw_nodes.len(),
{
    if raw_nodes.len() == 0 {
        Node { lat: 0, long: 0 }
    } else if raw_nodes[raw_nodes.len() - 1].id == id {
        Node {
            lat: raw_nodes[raw_nodes.len() - 1].lat,
            long: raw_nodes[raw_nodes.len() - 1].long,
        }
    } else {
        last_node_value(raw_nodes.drop_last(), id)
    }
}

/// Every foreign id referenced by some raw way names a raw node.
pub open spec fn refs_resolvable(raw_nodes: Seq<RawNode>, raw_ways: Seq<RawWay>) -> bool {
    forall|w: int, i: int|
        0 <= w < raw_ways.len() && 0 <= i < raw_ways[w].node_ids@.len() ==> id_occurs(
            raw_nodes,
            #[trigger] raw_ways[w].node_ids@[i],
        )
}

/// Node `idx` is referenced by some way of `d`.
pub open spec fn node_referenced(d: Data, idx: int) -> bool {
    exists|w: int, i: int|
        0 <= w < d.ways@.len() && 0 <= i < d.ways@[w].nodes@.len() && (#[trigger] d.ways@[
            w
        ].nodes@[i]) == idx
}

/// Index `idx` appears in one of the first `upto` finished ways, or in the
/// reference list of the way under construction.
spec fn referenced_in(ways: Seq<Way>, upto: int, mapped: Seq<usize>, idx: int) -> bool {
    (exists|w2: int, i2: int|
        0 <= w2 < upto && 0 <= i2 < ways[w2].nodes@.len() && (#[trigger] ways[w2].nodes@[i2])
            == idx) || (exists|k2: int| 0 <= k2 < mapped.len() && (#[trigger] mapped[k2]) == idx)
}

/// Extending the way under construction keeps every reference.
proof fn lemma_referenced_push_mapped(
    ways: Seq<Way>,
    upto: int,
    mapped: Seq<usize>,
    y: usize,
    idx: int,
)
    requires
        referenced_in(ways, upto, mapped, idx),
    ensures
        referenced_in(ways, upto, mapped.push(y), idx),
{
    if !(exists|w2: int, i2: int|
        0 <= w2 < upto && 0 <= i2 < ways[w2].nodes@.len() && (#[trigger] ways[w2].nodes@[i2])
            == idx) {
        let k2 = choose|k2: int| 0 <= k2 < mapped.len() && (#[trigger] mapped[k2]) == idx;
        assert(mapped.push(y)[k2] == idx);
    }
}

/// Finishing the way under construction keeps every reference.
proof fn lemma_referenced_finish_way(ways: Seq<Way>, upto: int, mapped: Seq<usize>, wy: Way, idx: int)
    requires
        referenced_in(ways, upto, mapped, idx),
        wy.nodes@ == mapped,
        upto == ways.len(),
    ensures
        referenced_in(ways.push(wy), upto + 1, Seq::<usize>::empty(), idx),
{
    if exists|w2: int, i2: int|
        0 <= w2 < upto && 0 <= i2 < ways[w2].nodes@.len() && (#[trigger] ways[w2].nodes@[i2])
            == idx {
        let (w2, i2) = choose|w2: int, i2: int|
            0 <= w2 < upto && 0 <= i2 < ways[w2].nodes@.len() && (#[trigger] ways[w2].nodes@[i2])
                == idx;
        assert(ways.push(wy)[w2].nodes@[i2] == idx);
    } else {
        let k2 = choose|k2: int| 0 <= k2 < mapped.len() && (#[trigger] mapped[k2]) == idx;
        assert(ways.push(wy)[upto].nodes@[k2] == idx);
    }
}

/// Compacts raw id-keyed input into a dense, index-healed `Data` value: the
/// nodes that ways reference are kept, in order of first reference, each way
/// reference becomes the index of its node, and tags are carried over
/// unchanged. Nodes that no way references are discarded, so every kept node
/// is referenced by some way.
pub fn heal_data(raw_nodes: &Vec<RawNode>, raw_ways: &Vec<RawWay>) -> (d: Data)
    requires
        refs_resolvable(raw_nodes@, raw_ways@),
    ensures
        valid_data(d),
        forall|idx: int| 0 <= idx < d.nodes@.len() ==> node_referenced(d, idx),
        d.ways@.len() == raw_ways@.len(),
        forall|w: int|
            0 <= w < raw_ways@.len() ==> (#[trigger] d.ways@[w]).tags@ == raw_ways@[w].tags@
                && d.ways@[w].nodes@.len() == raw_ways@[w].node_ids@.len(),
        forall|w: int, i: int|
            0 <= w < raw_ways@.len() && 0 <= i < raw_ways@[w].node_ids@.len()
                ==> (#[trigger] d.ways@[w].nodes@[i]) < d.nodes@.len()
                    && d.nodes@[d.ways@[w].nodes@[i] as int] == last_node_value(
                    raw_nodes@,
                    raw_ways@[w].node_ids@[i],
                ),
{
    broadcast use vstd::std_specs::hash::group_hash_axioms;

    let ghost rn = raw_nodes@;
    // First pass: the position of each id, last occurrence winning.
    let mut value_of: std::collections::HashMap<i64, Node> = std::collections::HashMap::new();
    let mut k: usize = 0;
    while k < raw_nodes.len()
        invariant
            raw_nodes@ == rn,
            k <= rn.len(),
            forall|id: i64|
                #[trigger] value_of@.contains_key(id) <==> id_occurs(rn.take(k as int), id),
            forall|id: i64|
                value_of@.contains_key(id) ==> #[trigger] value_of@[id] == last_node_value(
                    rn.take(k as int),
                    id,
                ),
        decreases rn.len() - k,
    {
        let node = raw_nodes[k];
        value_of.insert(node.id, Node { lat: node.lat, long: node.long });
        proof {
            assert(rn.take(k as int + 1).drop_last() =~= rn.take(k as int));
            assert(rn.take(k as int + 1)[k as int] == node);
            assert forall|id: i64| #[trigger] value_of@.contains_key(id)
                implies id_occurs(rn.take(k as int + 1), id) by {
                if id != node.id {
                    assert(id_occurs(rn.take(k as int), id));
                    let j = choose|j: int|
                        0 <= j < rn.take(k as int).len() && (#[trigger] rn.take(k as int)[j]).id
                            == id;
                    assert(rn.take(k as int + 1)[j].id == id);
                }
            };
            assert forall|id: i64| id_occurs(rn.take(k as int + 1), id)
                implies value_of@.contains_key(id) by {
                if id != node.id {
                    let j = choose|j: int|
                        0 <= j < rn.take(k as int + 1).len() && (#[trigger] rn.take(
                            k as int + 1,
                        )[j]).id == id;
                    assert(j < k as int);
                    assert(rn.take(k as int)[j].id == id);
                }
            };
        }
        k = k + 1;
    }
    proof {
        assert(rn.take(rn.len() as int) =~= rn);
    }
    // Second pass: walk the ways, handing each first-seen id the next dense
    // index.
    let mut index_of: std::collections::HashMap<i64, usize> = std::collections::HashMap::new();
    let mut nodes: Vec<Node> = Vec::new();
    let mut ways: Vec<Way> = Vec::new();
    let mut w: usize = 0;
    while w < raw_ways.len()
        invariant
            raw_nodes@ == rn,
            refs_resolvable(rn, raw_ways@),
            w <= raw_ways@.len(),
            ways@.len() == w,
            forall|id: i64|
                #[trigger] value_of@.contains_key(id) <==> id_occurs(rn, id),
            forall|id: i64|
                value_of@.contains_key(id) ==> #[trigger] value_of@[id] == last_node_value(rn, id),
            forall|id: i64|
                #[trigger] index_of@.contains_key(id) ==> index_of@[id] < nodes@.len()
                    && nodes@[index_of@[id] as int] == last_node_value(rn, id),
            forall|w2: int|
                0 <= w2 < w ==> (#[trigger] ways@[w2]).tags@ == raw_ways@[w2].tags@
                    && ways@[w2].nodes@.len() == raw_ways@[w2].node_ids@.len(),
            forall|w2: int, i: int|
                0 <= w2 < w && 0 <= i < raw_ways@[w2].node_ids@.len()
                    ==> (#[trigger] ways@[w2].nodes@[i]) < nodes@.len()
                        && nodes@[ways@[w2].nodes@[i] as int] == last_node_value(
                        rn,
                        raw_ways@[w2].node_ids@[i],
                    ),
            forall|idx: int|
                0 <= idx < nodes@.len() ==> #[trigger] referenced_in(
                    ways@,
                    w as int,
                    Seq::<usize>::empty(),
                    idx,
                ),
        decreases raw_ways@.len() - w,
    {
        let id_count: usize = raw_ways[w].node_ids.len();
        let mut mapped: Vec<usize> = Vec::new();
        let mut i: usize = 0;
        while i < id_count
            invariant
                raw_nodes@ == rn,
                refs_resolvable(rn, raw_ways@),
                w < raw_ways@.len(),
                id_count == raw_ways@[w as int].node_ids@.len(),
                i <= id_count,
                mapped@.len() == i,
                forall|id: i64|
                    #[trigger] value_of@.contains_key(id) <==> id_occurs(rn, id),
                forall|id: i64|
                    value_of@.contains_key(id) ==> #[trigger] value_of@[id] == last_node_value(
                        rn,
                        id,
                    ),
                forall|id: i64|
                    #[trigger] index_of@.contains_key(id) ==> index_of@[id] < nodes@.len()
                        && nodes@[index_of@[id] as int] == last_node_value(rn, id),
                forall|k2: int|
                    0 <= k2 < i ==> (#[trigger] mapped@[k2]) < nodes@.len()
                        && nodes@[mapped@[k2] as int] == last_node_value(
                        rn,
                        raw_ways@[w as int].node_ids@[k2],
                    ),
                forall|w2: int|
                    0 <= w2 < w ==> (#[trigger] ways@[w2]).tags@ == raw_ways@[w2].tags@
                        && ways@[w2].nodes@.len() == raw_ways@[w2].node_ids@.len(),
                forall|w2: int, i2: int|
                    0 <= w2 < w && 0 <= i2 < raw_ways@[w2].node_ids@.len()
                        ==> (#[trigger] ways@[w2].nodes@[i2]) < nodes@.len()
                            && nodes@[ways@[w2].nodes@[i2] as int] == last_node_value(
                            rn,
                            raw_ways@[w2].node_ids@[i2],
                        ),
                forall|idx: int|
                    0 <= idx < nodes@.len() ==> #[trigger] referenced_in(
                        ways@,
                        w as int,
                        mapped@,
                        idx,
                    ),
            decreases id_count - i,
        {
            let ghost head_nodes = nodes@;
            let ghost head_mapped = mapped@;
            let id: i64 = raw_ways[w].node_ids[i];
            let idx: usize = match index_of.get(&id) {
                Some(found) => *found,
                None => {
                    let fresh: usize = nodes.len();
                    let value: Node = *value_of.get(&id).unwrap();
                    nodes.push(value);
                    index_of.insert(id, fresh);
                    fresh
                },
            };
            proof {
                // Either the id was seen before (nodes untouched) or one
                // fresh node was appended and mapped.
                assert(nodes@ == head_nodes || (nodes@.len() == head_nodes.len() + 1
                    && idx == head_nodes.len() && forall|k: int|
                    0 <= k < head_nodes.len() ==> #[trigger] nodes@[k] == head_nodes[k]));
            }
            mapped.push(idx);
            proof {
                assert(mapped@ == head_mapped.push(idx));
                assert forall|x: int| 0 <= x < nodes@.len() implies #[trigger] referenced_in(
                    ways@,
                    w as int,
                    mapped@,
                    x,
                ) by {
                    if x < head_nodes.len() {
                        assert(referenced_in(ways@, w as int, head_mapped, x));
                        lemma_referenced_push_mapped(ways@, w as int, head_mapped, idx, x);
                    } else {
                        // The fresh node is the one just mapped.
                        assert(x == idx);
                        assert(mapped@[mapped@.len() - 1] == x);
                    }
                };
            }
            i = i + 1;
        }
        let tags: Vec<String> = clone_strings(&raw_ways[w].tags);
        let ghost finished_mapped = mapped@;
        let ghost old_ways = ways@;
        ways.push(Way { tags, nodes: mapped });
        proof {
            assert(ways@[w as int].nodes@ == finished_mapped);
            assert(ways@ == old_ways.push(ways@[w as int]));
            assert forall|x: int| 0 <= x < nodes@.len() implies #[trigger] referenced_in(
                ways@,
                w as int + 1,
                Seq::<usize>::empty(),
                x,
            ) by {
                assert(referenced_in(old_ways, w as int, finished_mapped, x));
                lemma_referenced_finish_way(
                    old_ways,
                    w as int,
                    finished_mapped,
                    ways@[w as int],
                    x,
                );
            };
        }
        w = w + 1;
    }
    proof {
        assert forall|idx: int| 0 <= idx < nodes@.len() implies node_referenced(
            Data { nodes: nodes, ways: ways },
            idx,
        ) by {
            assert(referenced_in(ways@, ways@.len() as int, Seq::<usize>::empty(), idx));
            let (w2, i2) = choose|w2: int, i2: int|
                0 <= w2 < ways@.len() && 0 <= i2 < ways@[w2].nodes@.len() && (#[trigger] ways@[
                    w2
                ].nodes@[i2]) == idx;
            assert(Data { nodes: nodes, ways: ways }.ways@[w2].nodes@[i2] == idx);
        };
    }
    Data { nodes, ways }
}

/// Copies a list of strings element by element.
pub(crate) fn clone_strings(v: &Vec<String>) -> (r: Vec<String>)
    ensures
        r@ == v@,
{
    let mut out: Vec<String> = Vec::new();
    let mut i: usize = 0;
    while i < v.len()
        invariant
            i <= v@.len(),
            out@.len() == i,
            forall|j: int| 0 <= j < i ==> (#[trigger] out@[j]) == v@[j],
        decreases v@.len() - i,
    {
        out.push(v[i].clone());
        i = i + 1;
    }
    proof {
        assert(out@ =~= v@);
    }
    out
}

/// An error carrying a reason and, optionally, the rendering of an underlying
/// cause.
pub struct Error {
    pub reason: String,
    pub source: Option<String>,
}

impl Error {
    /// Builds an error from a reason and the rendering of its cause.
    pub fn new(reason: String, source: String) -> (e: Error)
        ensures
            e.reason == reason,
            e.source == Some(source),
    {
        Error { reason, source: Some(source) }
    }
}

} // verus!
