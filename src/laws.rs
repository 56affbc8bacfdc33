//! Laws relating the graph built from an edge list to that list.
use vstd::prelude::*;

use crate::graph::{
    built, canonical_edges, ids_in, in_box, lemma_canonical_edges, lemma_node_ids,
    lemma_pair_index, node_ids, pair_index, rows_of, same_pair, Graph, Node,
};

verus! {

/// Two graphs built from the same edge list, bounding box and placements are
/// the same graph: the build has no other input.
pub proof fn law_build_is_determined(
    data: Seq<[u64; 2]>,
    width: u32,
    height: u32,
    placements: Seq<(u32, u32)>,
    g1: Graph,
    g2: Graph,
)
    requires
        g1@ == built(data, width, height, placements),
        g2@ == built(data, width, height, placements),
    ensures
        g1@ == g2@,
{
}

/// The graph has one node per distinct id of the edge list, and its node ids
/// are exactly the ids of the edge list.
pub proof fn law_node_count(
    data: Seq<[u64; 2]>,
    width: u32,
    height: u32,
    placements: Seq<(u32, u32)>,
    g: Graph,
)
    requires
        placements.len() == node_ids(rows_of(data)).len(),
        g@ == built(data, width, height, placements),
    ensures
        g@.nodes.len() == ids_in(rows_of(data)).len(),
        g@.nodes.map_values(|n: Node| n.value).to_set() == ids_in(rows_of(data)),
        g@.nodes.map_values(|n: Node| n.value).no_duplicates(),
{
    let rows = rows_of(data);
    let ids = node_ids(rows);
    lemma_node_ids(rows);
    assert(g@.nodes.map_values(|n: Node| n.value) =~= ids);
    assert(ids.to_set() =~= ids_in(rows));
    ids.unique_seq_to_set();
}

/// For every pair of ids joined by some row of the edge list, in either
/// direction and however often, exactly one canonical edge joins them; and
/// every canonical edge is a row of the edge list.
pub proof fn law_edge_dedup(data: Seq<[u64; 2]>, a: u64, b: u64)
    requires
        exists|i: int| 0 <= i < data.len() && same_pair(#[trigger] rows_of(data)[i], a, b),
    ensures
        exists|k: int|
            0 <= k < canonical_edges(rows_of(data)).len() && same_pair(
                #[trigger] canonical_edges(rows_of(data))[k],
                a,
                b,
            ),
        forall|k1: int, k2: int|
            0 <= k1 < canonical_edges(rows_of(data)).len() && 0 <= k2 < canonical_edges(
                rows_of(data),
            ).len() && same_pair(#[trigger] canonical_edges(rows_of(data))[k1], a, b)
                && same_pair(#[trigger] canonical_edges(rows_of(data))[k2], a, b) ==> k1 == k2,
        forall|k: int|
            0 <= k < canonical_edges(rows_of(data)).len() ==> exists|i: int|
                0 <= i < data.len() && rows_of(data)[i] == #[trigger] canonical_edges(
                    rows_of(data),
                )[k],
{
    let rows = rows_of(data);
    let es = canonical_edges(rows);
    lemma_canonical_edges(rows);
    let i = choose|i: int| 0 <= i < data.len() && same_pair(#[trigger] rows_of(data)[i], a, b);
    lemma_pair_index(es, rows[i].0, rows[i].1);
    let k = pair_index(es, rows[i].0, rows[i].1);
    assert(same_pair(es[k], a, b));
    assert forall|k1: int, k2: int|
        0 <= k1 < es.len() && 0 <= k2 < es.len() && same_pair(#[trigger] es[k1], a, b) && same_pair(
            #[trigger] es[k2],
            a,
            b,
        ) implies k1 == k2 by {
        if k1 < k2 {
            assert(!same_pair(es[k1], es[k2].0, es[k2].1));
        } else if k2 < k1 {
            assert(!same_pair(es[k2], es[k1].0, es[k1].1));
        }
    }
}

/// Every node of a graph whose placements lie in its bounding box lies in
/// that box.
pub proof fn law_nodes_in_box(
    data: Seq<[u64; 2]>,
    width: u32,
    height: u32,
    placements: Seq<(u32, u32)>,
    g: Graph,
)
    requires
        placements.len() == node_ids(rows_of(data)).len(),
        in_box(placements, width, height),
        g@ == built(data, width, height, placements),
    ensures
        forall|i: int|
            0 <= i < g@.nodes.len() ==> (#[trigger] g@.nodes[i]).x < width && g@.nodes[i].y < height,
{
}

} // verus!
