//! The graph built from a raw edge list: nodes in first-seen order, canonical
//! undirected edges numbered in first-seen order, and the adjacency lists.
use std::collections::HashMap;
use vstd::prelude::*;

use crate::placement::draw_placements;

verus! {

broadcast use vstd::std_specs::hash::group_hash_axioms;

/// One node of the graph: its id and its initial grid position.
#[derive(Clone, Copy, Debug, PartialEq, Eq, Structural)]
pub struct Node {
    pub value: u64,
    pub x: u32,
    pub y: u32,
}

/// The mathematical content of a [`Graph`].
pub ghost struct GraphModel {
    pub width: u32,
    pub height: u32,
    /// Node `i` is the `i`-th distinct id of the input, with its placement.
    pub nodes: Seq<Node>,
    /// Edge `k` is the `k`-th distinct unordered pair of the input, in the
    /// orientation of its first occurrence.
    pub edges: Seq<(u64, u64)>,
    /// `adjacencies[i]` lists, for each input row whose first id is node
    /// `i`, the row's second id and the index of the row's edge.
    pub adjacencies: Seq<Seq<(u64, usize)>>,
}

/// The input rows as pairs of ids.
pub open spec fn rows_of(data: Seq<[u64; 2]>) -> Seq<(u64, u64)> {
    data.map_values(|r: [u64; 2]| (r@[0], r@[1]))
}

/// `e` joins `a` and `b`, in either direction.
pub open spec fn same_pair(e: (u64, u64), a: u64, b: u64) -> bool {
    e == (a, b) || e == (b, a)
}

/// `ids` with `x` appended unless it is already there.
pub open spec fn with_id(ids: Seq<u64>, x: u64) -> Seq<u64> {
    if ids.contains(x) {
        ids
    } else {
        ids.push(x)
    }
}

/// The distinct ids of `rows` in order of first occurrence, taking each
/// row's first id before its second.
pub open spec fn node_ids(rows: Seq<(u64, u64)>) -> Seq<u64>
    decreases rows.len(),
{
    if rows.len() == 0 {
        Seq::empty()
    } else {
        with_id(with_id(node_ids(rows.drop_last()), rows.last().0), rows.last().1)
    }
}

/// The set of ids that occur in `rows`, at either end.
pub open spec fn ids_in(rows: Seq<(u64, u64)>) -> Set<u64> {
    Set::new(|x: u64| exists|k: int| 0 <= k < rows.len() && (rows[k].0 == x || rows[k].1 == x))
}

/// The last index of an edge of `edges` that joins `a` and `b`, or -1.
pub open spec fn pair_index(edges: Seq<(u64, u64)>, a: u64, b: u64) -> int
    decreases edges.len(),
{
    if edges.len() == 0 {
        -1
    } else if same_pair(edges.last(), a, b) {
        edges.len() - 1
    } else {
        pair_index(edges.drop_last(), a, b)
    }
}

/// No two edges of `edges` join the same unordered pair.
pub open spec fn edges_distinct(edges: Seq<(u64, u64)>) -> bool {
    forall|i: int, j: int|
        0 <= i < j < edges.len() ==> !same_pair(#[trigger] edges[i], #[trigger] edges[j].0, edges[j].1)
}

/// The canonical edges of `rows`: each unordered pair once, in order of first
/// occurrence and in the orientation of that occurrence.
pub open spec fn canonical_edges(rows: Seq<(u64, u64)>) -> Seq<(u64, u64)>
    decreases rows.len(),
{
    if rows.len() == 0 {
        Seq::empty()
    } else {
        let p = canonical_edges(rows.drop_last());
        let r = rows.last();
        if pair_index(p, r.0, r.1) >= 0 {
            p
        } else {
            p.push(r)
        }
    }
}

/// The adjacency list of `id`: for each row `(id, b)`, in input order, `b`
/// and the index of the canonical edge of that row. Only the row's first id
/// gets the entry.
pub open spec fn adjacency_of(rows: Seq<(u64, u64)>, id: u64) -> Seq<(u64, usize)>
    decreases rows.len(),
{
    if rows.len() == 0 {
        Seq::empty()
    } else {
        let p = adjacency_of(rows.drop_last(), id);
        let r = rows.last();
        if r.0 == id {
            p.push((r.1, pair_index(canonical_edges(rows), r.0, r.1) as usize))
        } else {
            p
        }
    }
}

/// Every placement lies in the grid `[0, width) x [0, height)`.
pub open spec fn in_box(placements: Seq<(u32, u32)>, width: u32, height: u32) -> bool {
    forall|i: int|
        0 <= i < placements.len() ==> (#[trigger] placements[i]).0 < width && placements[i].1
            < height
}

/// The graph built from the input `data`, with node `i` placed at
/// `placements[i]`.
pub open spec fn built(
    data: Seq<[u64; 2]>,
    width: u32,
    height: u32,
    placements: Seq<(u32, u32)>,
) -> GraphModel {
    let rows = rows_of(data);
    GraphModel {
        width,
        height,
        nodes: node_ids(rows).map(
            |i: int, id: u64| Node { value: id, x: placements[i].0, y: placements[i].1 },
        ),
        edges: canonical_edges(rows),
        adjacencies: node_ids(rows).map(|i: int, id: u64| adjacency_of(rows, id)),
    }
}

pub proof fn lemma_pair_index(edges: Seq<(u64, u64)>, a: u64, b: u64)
    ensures
        -1 <= pair_index(edges, a, b) < edges.len(),
        pair_index(edges, a, b) >= 0 ==> same_pair(edges[pair_index(edges, a, b)], a, b),
        pair_index(edges, a, b) < 0 ==> forall|k: int|
            0 <= k < edges.len() ==> !same_pair(#[trigger] edges[k], a, b),
    decreases edges.len(),
{
    if edges.len() > 0 {
        let q = edges.drop_last();
        lemma_pair_index(q, a, b);
        if pair_index(edges, a, b) < 0 {
            assert forall|k: int| 0 <= k < edges.len() implies !same_pair(#[trigger] edges[k], a, b) by {
                if k < q.len() {
                    assert(edges[k] == q[k]);
                }
            }
        }
    }
}

/// In a list of distinct edges the one edge joining `a` and `b` is found.
proof fn lemma_pair_index_found(edges: Seq<(u64, u64)>, a: u64, b: u64, k: int)
    requires
        edges_distinct(edges),
        0 <= k < edges.len(),
        same_pair(edges[k], a, b),
    ensures
        pair_index(edges, a, b) == k,
{
    lemma_pair_index(edges, a, b);
    let p = pair_index(edges, a, b);
    if p != k {
        if p < k {
            assert(!same_pair(edges[p], edges[k].0, edges[k].1));
        } else {
            assert(!same_pair(edges[k], edges[p].0, edges[p].1));
        }
    }
}

pub proof fn lemma_canonical_edges(rows: Seq<(u64, u64)>)
    ensures
        edges_distinct(canonical_edges(rows)),
        canonical_edges(rows).len() <= rows.len(),
        forall|k: int|
            0 <= k < canonical_edges(rows).len() ==> exists|i: int|
                0 <= i < rows.len() && rows[i] == #[trigger] canonical_edges(rows)[k],
        forall|i: int|
            0 <= i < rows.len() ==> pair_index(canonical_edges(rows), #[trigger] rows[i].0, rows[i].1)
                >= 0,
    decreases rows.len(),
{
    if rows.len() > 0 {
        let q = rows.drop_last();
        let p = canonical_edges(q);
        let r = rows.last();
        lemma_canonical_edges(q);
        lemma_pair_index(p, r.0, r.1);
        let c = canonical_edges(rows);
        assert forall|k: int| 0 <= k < c.len() implies exists|i: int|
            0 <= i < rows.len() && rows[i] == #[trigger] c[k] by {
            if k < p.len() {
                let i = choose|i: int| 0 <= i < q.len() && q[i] == p[k];
                assert(rows[i] == q[i]);
            } else {
                assert(rows[rows.len() - 1] == c[k]);
            }
        }
        assert forall|i: int| 0 <= i < rows.len() implies pair_index(c, #[trigger] rows[i].0, rows[i].1)
            >= 0 by {
            lemma_pair_index(c, rows[i].0, rows[i].1);
            if i < q.len() {
                assert(rows[i] == q[i]);
                lemma_pair_index(p, q[i].0, q[i].1);
                let j = pair_index(p, q[i].0, q[i].1);
                assert(c[j] == p[j]);
            } else {
                if pair_index(p, r.0, r.1) < 0 {
                    assert(c[c.len() - 1] == r);
                }
            }
        }
    }
}

proof fn lemma_with_id(ids: Seq<u64>, x: u64)
    requires
        ids.no_duplicates(),
    ensures
        with_id(ids, x).no_duplicates(),
        with_id(ids, x).contains(x),
        forall|y: u64| #[trigger] with_id(ids, x).contains(y) <==> (ids.contains(y) || y == x),
        forall|j: int| 0 <= j < ids.len() ==> #[trigger] with_id(ids, x)[j] == ids[j],
        ids.len() <= with_id(ids, x).len() <= ids.len() + 1,
{
    if !ids.contains(x) {
        let s = ids.push(x);
        assert(s[ids.len() as int] == x);
        assert forall|y: u64| s.contains(y) <==> (ids.contains(y) || y == x) by {
            if s.contains(y) && y != x {
                let j = choose|j: int| 0 <= j < s.len() && s[j] == y;
                assert(ids[j] == y);
            }
            if ids.contains(y) {
                let j = choose|j: int| 0 <= j < ids.len() && ids[j] == y;
                assert(s[j] == y);
            }
        }
    }
}

pub proof fn lemma_node_ids(rows: Seq<(u64, u64)>)
    ensures
        node_ids(rows).no_duplicates(),
        node_ids(rows).len() <= 2 * rows.len(),
        forall|x: u64| #[trigger] node_ids(rows).contains(x) <==> ids_in(rows).contains(x),
    decreases rows.len(),
{
    if rows.len() > 0 {
        let q = rows.drop_last();
        let r = rows.last();
        lemma_node_ids(q);
        lemma_with_id(node_ids(q), r.0);
        lemma_with_id(with_id(node_ids(q), r.0), r.1);
        assert forall|x: u64| #[trigger] node_ids(rows).contains(x) <==> ids_in(rows).contains(x) by {
            if ids_in(q).contains(x) {
                let k = choose|k: int| 0 <= k < q.len() && (q[k].0 == x || q[k].1 == x);
                assert(rows[k] == q[k]);
            }
            if ids_in(rows).contains(x) {
                let k = choose|k: int| 0 <= k < rows.len() && (rows[k].0 == x || rows[k].1 == x);
                if k < q.len() {
                    assert(rows[k] == q[k]);
                }
            }
        }
    }
}

/// An id that does not occur in `rows` has an empty adjacency list.
proof fn lemma_adjacency_unseen(rows: Seq<(u64, u64)>, id: u64)
    requires
        !node_ids(rows).contains(id),
    ensures
        adjacency_of(rows, id) == Seq::<(u64, usize)>::empty(),
    decreases rows.len(),
{
    if rows.len() > 0 {
        let q = rows.drop_last();
        lemma_node_ids(q);
        lemma_with_id(node_ids(q), rows.last().0);
        lemma_with_id(with_id(node_ids(q), rows.last().0), rows.last().1);
        lemma_adjacency_unseen(q, id);
    }
}

/// `index` maps each id of `ids` to its position, and nothing else.
spec fn indexed(index: Map<u64, usize>, ids: Seq<u64>) -> bool {
    &&& ids.no_duplicates()
    &&& forall|x: u64| index.contains_key(x) <==> ids.contains(x)
    &&& forall|j: int| 0 <= j < ids.len() ==> index[#[trigger] ids[j]] == j
}

/// The position of `id` in `ids`, appending it (with an empty adjacency
/// list) when it is new.
fn add_id(
    index: &mut HashMap<u64, usize>,
    ids: &mut Vec<u64>,
    adjacencies: &mut Vec<Vec<(u64, usize)>>,
    id: u64,
) -> (r: usize)
    requires
        indexed(old(index)@, old(ids)@),
        old(adjacencies)@.len() == old(ids)@.len(),
    ensures
        indexed(final(index)@, final(ids)@),
        final(ids)@ == with_id(old(ids)@, id),
        r < final(ids)@.len(),
        final(ids)@[r as int] == id,
        final(adjacencies)@.len() == final(ids)@.len(),
        forall|j: int| 0 <= j < old(ids)@.len() ==> #[trigger] final(adjacencies)@[j] == old(adjacencies)@[j],
        forall|j: int| old(ids)@.len() <= j < final(ids)@.len() ==> (#[trigger] final(adjacencies)@[j])@.len() == 0,
{
    match index.get(&id) {
        Some(j) => {
            let j = *j;
            assert(ids@[j as int] == id) by {
                let k = choose|k: int| 0 <= k < ids@.len() && ids@[k] == id;
                assert(index@[ids@[k]] == k);
            }
            j
        },
        None => {
            let n = ids.len();
            proof {
                lemma_with_id(ids@, id);
            }
            ids.push(id);
            adjacencies.push(Vec::new());
            index.insert(id, n);
            assert forall|x: u64| index@.contains_key(x) <==> ids@.contains(x) by {
                if ids@.contains(x) && x != id {
                    let k = choose|k: int| 0 <= k < ids@.len() && ids@[k] == x;
                    assert(old(ids)@[k] == x);
                }
            }
            n
        },
    }
}

/// The structure of the graph of `data`, before placement: the node ids, the
/// canonical edges with the positions of their ends, and the adjacency lists.
struct Skeleton {
    ids: Vec<u64>,
    edges: Vec<(u64, u64)>,
    edge_ends: Vec<(usize, usize)>,
    adjacencies: Vec<Vec<(u64, usize)>>,
}

/// The ends of each edge are the nodes at the recorded positions.
spec fn ends_match(ids: Seq<u64>, edges: Seq<(u64, u64)>, ends: Seq<(usize, usize)>) -> bool {
    &&& ends.len() == edges.len()
    &&& forall|k: int|
        0 <= k < ends.len() ==> {
            &&& (#[trigger] ends[k]).0 < ids.len()
            &&& ends[k].1 < ids.len()
            &&& ids[ends[k].0 as int] == edges[k].0
            &&& ids[ends[k].1 as int] == edges[k].1
        }
}

fn skeleton(data: &Vec<[u64; 2]>) -> (s: Skeleton)
    ensures
        s.ids@ == node_ids(rows_of(data@)),
        s.ids@.no_duplicates(),
        s.edges@ == canonical_edges(rows_of(data@)),
        edges_distinct(s.edges@),
        ends_match(s.ids@, s.edges@, s.edge_ends@),
        s.adjacencies@.len() == s.ids@.len(),
        forall|j: int|
            0 <= j < s.ids@.len() ==> (#[trigger] s.adjacencies@[j])@ == adjacency_of(
                rows_of(data@),
                s.ids@[j],
            ),
{
    let ghost rows = rows_of(data@);
    let mut index: HashMap<u64, usize> = HashMap::new();
    let mut ids: Vec<u64> = Vec::new();
    let mut edges: Vec<(u64, u64)> = Vec::new();
    let mut edge_ends: Vec<(usize, usize)> = Vec::new();
    let mut adjacencies: Vec<Vec<(u64, usize)>> = Vec::new();
    let mut i: usize = 0;
    assert(rows.take(0) =~= Seq::<(u64, u64)>::empty());
    while i < data.len()
        invariant
            i <= data@.len(),
            rows == rows_of(data@),
            indexed(index@, ids@),
            ids@ == node_ids(rows.take(i as int)),
            edges@ == canonical_edges(rows.take(i as int)),
            edges_distinct(edges@),
            ends_match(ids@, edges@, edge_ends@),
            adjacencies@.len() == ids@.len(),
            forall|j: int|
                0 <= j < ids@.len() ==> (#[trigger] adjacencies@[j])@ == adjacency_of(
                    rows.take(i as int),
                    ids@[j],
                ),
        decreases data@.len() - i,
    {
        let ghost before = rows.take(i as int);
        let ghost after = rows.take(i + 1);
        let ghost old_ids = ids@;
        let ghost old_adj = adjacencies@;
        let a = data[i][0];
        let b = data[i][1];
        assert(after.drop_last() =~= before);
        assert(after.last() == (a, b));
        let ia = add_id(&mut index, &mut ids, &mut adjacencies, a);
        let ib = add_id(&mut index, &mut ids, &mut adjacencies, b);
        assert(ids@ == node_ids(after));
        proof {
            lemma_node_ids(before);
            assert forall|j: int| 0 <= j < ids@.len() implies (#[trigger] adjacencies@[j])@
                == adjacency_of(before, ids@[j]) by {
                if j >= old_ids.len() {
                    lemma_with_id(old_ids, a);
                    lemma_with_id(with_id(old_ids, a), b);
                    assert(!old_ids.contains(ids@[j]));
                    lemma_adjacency_unseen(before, ids@[j]);
                } else {
                    lemma_with_id(old_ids, a);
                    lemma_with_id(with_id(old_ids, a), b);
                }
            }
        }
        let mut k: usize = 0;
        while k < edges.len() && !((edges[k].0 == a && edges[k].1 == b) || (edges[k].0 == b
            && edges[k].1 == a))
            invariant
                k <= edges@.len(),
                forall|j: int| 0 <= j < k ==> !same_pair(#[trigger] edges@[j], a, b),
            decreases edges@.len() - k,
        {
            k = k + 1;
        }
        let edge: usize;
        if k < edges.len() {
            proof {
                lemma_pair_index_found(edges@, a, b, k as int);
            }
            edge = k;
        } else {
            proof {
                lemma_pair_index(edges@, a, b);
            }
            edges.push((a, b));
            edge_ends.push((ia, ib));
            edge = k;
            assert(edges_distinct(edges@)) by {
                assert forall|x: int, y: int| 0 <= x < y < edges@.len() implies !same_pair(
                    #[trigger] edges@[x],
                    #[trigger] edges@[y].0,
                    edges@[y].1,
                ) by {
                    if y == k {
                        assert(!same_pair(edges@[x], a, b));
                    }
                }
            }
        }
        assert(edges@ == canonical_edges(after));
        assert(pair_index(edges@, a, b) == edge);
        let ghost mid_adj = adjacencies@;
        adjacencies[ia].push((b, edge));
        assert forall|j: int| 0 <= j < ids@.len() implies (#[trigger] adjacencies@[j])@
            == adjacency_of(after, ids@[j]) by {
            if j != ia {
                assert(adjacencies@[j] == mid_adj[j]);
            }
        }
        i = i + 1;
    }
    assert(rows.take(data@.len() as int) =~= rows);
    Skeleton { ids, edges, edge_ends, adjacencies }
}

/// A graph laid out on the grid `[0, width) x [0, height)`.
pub struct Graph {
    width: u32,
    height: u32,
    nodes: Vec<Node>,
    edges: Vec<(u64, u64)>,
    edge_ends: Vec<(usize, usize)>,
    adjacencies: Vec<Vec<(u64, usize)>>,
}

impl View for Graph {
    type V = GraphModel;

    closed spec fn view(&self) -> GraphModel {
        GraphModel {
            width: self.width,
            height: self.height,
            nodes: self.nodes@,
            edges: self.edges@,
            adjacencies: self.adjacencies@.map_values(|l: Vec<(u64, usize)>| l@),
        }
    }
}

impl Graph {
    /// The graph's internal consistency: distinct node ids, distinct edges,
    /// one adjacency list per node, and the recorded ends of each edge.
    pub closed spec fn wf(&self) -> bool {
        let ids = self.nodes@.map_values(|n: Node| n.value);
        &&& ids.no_duplicates()
        &&& edges_distinct(self.edges@)
        &&& ends_match(ids, self.edges@, self.edge_ends@)
        &&& self.adjacencies@.len() == self.nodes@.len()
    }

    fn assemble(width: u32, height: u32, s: Skeleton, placements: &Vec<(u32, u32)>) -> (g: Graph)
        requires
            placements@.len() == s.ids@.len(),
            s.ids@.no_duplicates(),
            edges_distinct(s.edges@),
            ends_match(s.ids@, s.edges@, s.edge_ends@),
            s.adjacencies@.len() == s.ids@.len(),
        ensures
            g.wf(),
            g@ == (GraphModel {
                width,
                height,
                nodes: s.ids@.map(
                    |i: int, id: u64| Node { value: id, x: placements@[i].0, y: placements@[i].1 },
                ),
                edges: s.edges@,
                adjacencies: s.adjacencies@.map_values(|l: Vec<(u64, usize)>| l@),
            }),
    {
        let mut nodes: Vec<Node> = Vec::new();
        let mut i: usize = 0;
        while i < s.ids.len()
            invariant
                i <= s.ids@.len(),
                placements@.len() == s.ids@.len(),
                nodes@.len() == i,
                forall|j: int|
                    0 <= j < i ==> #[trigger] nodes@[j] == (Node {
                        value: s.ids@[j],
                        x: placements@[j].0,
                        y: placements@[j].1,
                    }),
            decreases s.ids@.len() - i,
        {
            let (x, y) = placements[i];
            nodes.push(Node { value: s.ids[i], x, y });
            i = i + 1;
        }
        let ghost ids = nodes@.map_values(|n: Node| n.value);
        assert(ids =~= s.ids@);
        assert(nodes@ =~= s.ids@.map(
            |i: int, id: u64| Node { value: id, x: placements@[i].0, y: placements@[i].1 },
        ));
        Graph {
            width,
            height,
            nodes,
            edges: s.edges,
            edge_ends: s.edge_ends,
            adjacencies: s.adjacencies,
        }
    }

    /// Builds the graph of `data` on the grid `[0, width) x [0, height)`,
    /// placing the `i`-th node (in order of first occurrence) at
    /// `placements[i]`.
    pub fn from_placements(
        data: &Vec<[u64; 2]>,
        width: u32,
        height: u32,
        placements: &Vec<(u32, u32)>,
    ) -> (g: Graph)
        requires
            placements@.len() == node_ids(rows_of(data@)).len(),
        ensures
            g.wf(),
            g@ == built(data@, width, height, placements@),
    {
        let s = skeleton(data);
        let g = Graph::assemble(width, height, s, placements);
        let ghost rows = rows_of(data@);
        assert(g@.adjacencies =~= built(data@, width, height, placements@).adjacencies);
        g
    }

    /// Builds the graph of `data` on the grid `[0, width) x [0, height)`,
    /// each node placed at a grid point drawn from a generator seeded with
    /// `seed`: for each new node in order of first occurrence, first its `x`,
    /// then its `y`.
    pub fn new(data: Vec<[u64; 2]>, width: u32, height: u32, seed: u64) -> (g: Graph)
        requires
            width > 0,
            height > 0,
        ensures
            g.wf(),
            exists|p: Seq<(u32, u32)>|
                #![trigger built(data@, width, height, p)]
                {
                    &&& p.len() == node_ids(rows_of(data@)).len()
                    &&& in_box(p, width, height)
                    &&& g@ == built(data@, width, height, p)
                },
    {
        let s = skeleton(&data);
        let placements = draw_placements(s.ids.len(), width, height, seed);
        let g = Graph::assemble(width, height, s, &placements);
        assert(g@.adjacencies =~= built(data@, width, height, placements@).adjacencies);
        assert(g@ == built(data@, width, height, placements@));
        g
    }

    /// The width of the bounding box.
    pub fn width(&self) -> (r: u32)
        ensures
            r == self@.width,
    {
        self.width
    }

    /// The height of the bounding box.
    pub fn height(&self) -> (r: u32)
        ensures
            r == self@.height,
    {
        self.height
    }

    /// The nodes, in order of first occurrence of their ids.
    pub fn nodes(&self) -> (r: &Vec<Node>)
        ensures
            r@ == self@.nodes,
    {
        &self.nodes
    }

    /// The canonical edges; an edge's identifier is its index here.
    pub fn edges(&self) -> (r: &Vec<(u64, u64)>)
        ensures
            r@ == self@.edges,
    {
        &self.edges
    }

    /// The positions in [`Graph::nodes`] of the two ends of edge `k`.
    pub fn edge_ends(&self, k: usize) -> (r: (usize, usize))
        requires
            self.wf(),
            k < self@.edges.len(),
        ensures
            r.0 < self@.nodes.len(),
            r.1 < self@.nodes.len(),
            self@.nodes[r.0 as int].value == self@.edges[k as int].0,
            self@.nodes[r.1 as int].value == self@.edges[k as int].1,
    {
        let r = self.edge_ends[k];
        assert(self.nodes@.map_values(|n: Node| n.value)[r.0 as int] == self.nodes@[r.0 as int].value);
        assert(self.nodes@.map_values(|n: Node| n.value)[r.1 as int] == self.nodes@[r.1 as int].value);
        r
    }

    /// The adjacency list of node `i`: for each input row whose first id is
    /// that node's, the row's second id and the identifier of its edge.
    pub fn adjacency(&self, i: usize) -> (r: &Vec<(u64, usize)>)
        requires
            self.wf(),
            i < self@.nodes.len(),
        ensures
            r@ == self@.adjacencies[i as int],
    {
        &self.adjacencies[i]
    }
}

/// The number of distinct ids in `data`, that is, the number of nodes of its
/// graph.
pub fn node_count_of(data: &Vec<[u64; 2]>) -> (n: usize)
    ensures
        n == node_ids(rows_of(data@)).len(),
{
    let s = skeleton(data);
    s.ids.len()
}

} // verus!
