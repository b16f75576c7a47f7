//! The task graph: nodes carry their task's repeatability flag, edges are typed
//! `Outgoing` (the source precedes the target) or `Incoming` (the mirror of an
//! `Outgoing` edge). Storage is petgraph's `DiGraph`.

use petgraph::graph::{DiGraph, EdgeIndex, NodeIndex};
use vstd::prelude::*;

verus! {

/// The kind of a dependency edge.
#[derive(Copy, Clone, PartialEq, Eq, Structural, Debug)]
pub enum TaskEdge {
    Outgoing,
    Incoming,
}

/// An edge as the model sees it: source, target, kind.
pub type EdgeModel = (usize, usize, TaskEdge);

pub open spec fn opposite(k: TaskEdge) -> TaskEdge {
    match k {
        TaskEdge::Outgoing => TaskEdge::Incoming,
        TaskEdge::Incoming => TaskEdge::Outgoing,
    }
}

/// The edge that runs the other way, with the opposite kind.
pub open spec fn mirror(e: EdgeModel) -> EdgeModel {
    (e.1, e.0, opposite(e.2))
}

#[verifier::external_type_specification]
#[verifier::external_body]
#[verifier::reject_recursive_types(N)]
#[verifier::reject_recursive_types(E)]
#[verifier::reject_recursive_types(Ty)]
#[verifier::reject_recursive_types(Ix)]
pub struct ExGraph<N, E, Ty, Ix>(petgraph::graph::Graph<N, E, Ty, Ix>);

#[verifier::external_type_specification]
#[verifier::external_body]
pub struct ExDirected(petgraph::Directed);

/// The node weights of a graph, in index order.
pub uninterp spec fn graph_nodes(g: DiGraph<bool, TaskEdge>) -> Seq<bool>;

/// The edges of a graph, in index (that is, insertion) order.
pub uninterp spec fn graph_edges(g: DiGraph<bool, TaskEdge>) -> Seq<EdgeModel>;

/// Relies on petgraph's `Graph::new`: a graph with no nodes and no edges.
#[verifier::external_body]
fn graph_new() -> (g: DiGraph<bool, TaskEdge>)
    ensures
        graph_nodes(g) == Seq::<bool>::empty(),
        graph_edges(g) == Seq::<EdgeModel>::empty(),
{
    DiGraph::new()
}

/// Relies on petgraph's `Graph::add_node`: the weight is appended and its index,
/// the former node count, returned; it panics only at the index type's limit.
#[verifier::external_body]
fn graph_add_node(g: &mut DiGraph<bool, TaskEdge>, w: bool) -> (r: usize)
    requires
        graph_nodes(*old(g)).len() < u32::MAX,
    ensures
        r == graph_nodes(*old(g)).len(),
        graph_nodes(*final(g)) == graph_nodes(*old(g)).push(w),
        graph_edges(*final(g)) == graph_edges(*old(g)),
{
    g.add_node(w).index()
}

/// Relies on petgraph's `Graph::add_edge`: the edge is appended; it panics only
/// on an endpoint out of range or at the index type's limit.
#[verifier::external_body]
fn graph_add_edge(g: &mut DiGraph<bool, TaskEdge>, a: usize, b: usize, k: TaskEdge)
    requires
        a < graph_nodes(*old(g)).len(),
        b < graph_nodes(*old(g)).len(),
        graph_edges(*old(g)).len() < u32::MAX,
    ensures
        graph_nodes(*final(g)) == graph_nodes(*old(g)),
        graph_edges(*final(g)) == graph_edges(*old(g)).push((a, b, k)),
{
    g.add_edge(NodeIndex::new(a), NodeIndex::new(b), k);
}

/// Relies on petgraph's `Graph::edge_endpoints`: source and target of edge `i`.
#[verifier::external_body]
fn graph_edge_endpoints(g: &DiGraph<bool, TaskEdge>, i: usize) -> (r: (usize, usize))
    requires
        i < graph_edges(*g).len(),
    ensures
        r.0 == graph_edges(*g)[i as int].0,
        r.1 == graph_edges(*g)[i as int].1,
{
    let (a, b) = g.edge_endpoints(EdgeIndex::new(i)).unwrap();
    (a.index(), b.index())
}

/// Relies on petgraph's `Graph::edge_weight`: the kind of edge `i`.
#[verifier::external_body]
fn graph_edge_weight(g: &DiGraph<bool, TaskEdge>, i: usize) -> (r: TaskEdge)
    requires
        i < graph_edges(*g).len(),
    ensures
        r == graph_edges(*g)[i as int].2,
{
    *g.edge_weight(EdgeIndex::new(i)).unwrap()
}

/// Relies on petgraph's `Graph::edge_count`.
#[verifier::external_body]
fn graph_edge_count(g: &DiGraph<bool, TaskEdge>) -> (r: usize)
    ensures
        r == graph_edges(*g).len(),
{
    g.edge_count()
}

/// Relies on petgraph's `Graph::node_count`.
#[verifier::external_body]
fn graph_node_count(g: &DiGraph<bool, TaskEdge>) -> (r: usize)
    ensures
        r == graph_nodes(*g).len(),
{
    g.node_count()
}

/// Relies on petgraph's `Graph::node_weight`: the weight of node `a`.
#[verifier::external_body]
fn graph_node_weight(g: &DiGraph<bool, TaskEdge>, a: usize) -> (r: bool)
    requires
        a < graph_nodes(*g).len(),
    ensures
        r == graph_nodes(*g)[a as int],
{
    *g.node_weight(NodeIndex::new(a)).unwrap()
}

/// Relies on petgraph's `Graph::contains_edge`: whether some edge runs from `a`
/// to `b` (it walks the outgoing list of `a`, which holds exactly the edges
/// whose source is `a`).
#[verifier::external_body]
fn graph_contains_edge(g: &DiGraph<bool, TaskEdge>, a: usize, b: usize) -> (r: bool)
    requires
        a < graph_nodes(*g).len(),
        b < graph_nodes(*g).len(),
    ensures
        r == has_edge(graph_edges(*g), a, b),
{
    g.contains_edge(NodeIndex::new(a), NodeIndex::new(b))
}

/// Some edge runs from `a` to `b`.
pub open spec fn has_edge(edges: Seq<EdgeModel>, a: usize, b: usize) -> bool {
    exists|i: int| 0 <= i < edges.len() && edges[i].0 == a && edges[i].1 == b
}

/// The mirrors that normalization adds for the first `n` edges: one for each
/// edge with no edge running back, in edge order.
pub open spec fn missing_mirrors(edges: Seq<EdgeModel>, n: nat) -> Seq<EdgeModel>
    decreases n,
{
    if n == 0 || n > edges.len() {
        Seq::empty()
    } else {
        let prev = missing_mirrors(edges, (n - 1) as nat);
        let e = edges[n - 1];
        if has_edge(edges, e.1, e.0) {
            prev
        } else {
            prev.push(mirror(e))
        }
    }
}

/// The edge sequence after normalization.
pub open spec fn normalized(edges: Seq<EdgeModel>) -> Seq<EdgeModel> {
    edges + missing_mirrors(edges, edges.len())
}

/// Targets of the `Outgoing` edges from `node` among the first `n` edges, in edge order.
pub open spec fn outgoing_targets(edges: Seq<EdgeModel>, node: usize, n: nat) -> Seq<usize>
    decreases n,
{
    if n == 0 || n > edges.len() {
        Seq::empty()
    } else {
        let prev = outgoing_targets(edges, node, (n - 1) as nat);
        let e = edges[n - 1];
        if e.0 == node && e.2 == TaskEdge::Outgoing {
            prev.push(e.1)
        } else {
            prev
        }
    }
}

/// `e` is the mirror of one of the first `n` edges that has no edge running back.
pub open spec fn mirror_of_unanswered(edges: Seq<EdgeModel>, n: nat, e: EdgeModel) -> bool {
    exists|i: int| 0 <= i < n && !has_edge(edges, edges[i].1, edges[i].0) && e == mirror(edges[i])
}

proof fn lemma_missing_mirrors_members(edges: Seq<EdgeModel>, n: nat)
    requires
        n <= edges.len(),
    ensures
        forall|i: int|
            0 <= i < n && !has_edge(edges, edges[i].1, edges[i].0) ==> #[trigger] missing_mirrors(
                edges,
                n,
            ).contains(mirror(edges[i])),
        forall|j: int|
            0 <= j < missing_mirrors(edges, n).len() ==> mirror_of_unanswered(
                edges,
                n,
                #[trigger] missing_mirrors(edges, n)[j],
            ),
    decreases n,
{
    if n > 0 {
        let m = (n - 1) as nat;
        lemma_missing_mirrors_members(edges, m);
        let prev = missing_mirrors(edges, m);
        let cur = missing_mirrors(edges, n);
        let e = edges[n - 1];
        if !has_edge(edges, e.1, e.0) {
            assert(cur == prev.push(mirror(e)));
            assert forall|i: int|
                0 <= i < n && !has_edge(edges, edges[i].1, edges[i].0) implies #[trigger] cur.contains(
                mirror(edges[i]),
            ) by {
                if i < m {
                    assert(missing_mirrors(edges, m).contains(mirror(edges[i])));
                    let k = choose|k: int| 0 <= k < prev.len() && prev[k] == mirror(edges[i]);
                    assert(cur[k] == mirror(edges[i]));
                } else {
                    assert(cur[prev.len() as int] == mirror(edges[i]));
                }
            }
            assert forall|j: int| 0 <= j < cur.len() implies mirror_of_unanswered(edges, n, #[trigger] cur[j]) by {
                if j < prev.len() {
                    assert(cur[j] == prev[j]);
                    assert(mirror_of_unanswered(edges, m, prev[j]));
                    let w = choose|w: int|
                        0 <= w < m && !has_edge(edges, edges[w].1, edges[w].0) && prev[j] == mirror(edges[w]);
                    assert(0 <= w < n && !has_edge(edges, edges[w].1, edges[w].0) && cur[j] == mirror(edges[w]));
                } else {
                    assert(cur[j] == mirror(edges[n - 1]));
                    let w = n - 1;
                    assert(0 <= w < n && !has_edge(edges, edges[w].1, edges[w].0) && cur[j] == mirror(edges[w]));
                }
            }
        } else {
            assert(cur == prev);
            assert forall|i: int|
                0 <= i < n && !has_edge(edges, edges[i].1, edges[i].0) implies #[trigger] cur.contains(
                mirror(edges[i]),
            ) by {
                assert(i != n - 1);
                assert(prev.contains(mirror(edges[i])));
            }
            assert forall|j: int| 0 <= j < cur.len() implies mirror_of_unanswered(edges, n, #[trigger] cur[j]) by {
                assert(cur[j] == prev[j]);
                assert(mirror_of_unanswered(edges, m, prev[j]));
                let w = choose|w: int|
                    0 <= w < m && !has_edge(edges, edges[w].1, edges[w].0) && prev[j] == mirror(edges[w]);
                assert(0 <= w < n && !has_edge(edges, edges[w].1, edges[w].0) && cur[j] == mirror(edges[w]));
            }
        }
    }
}

proof fn lemma_no_missing_mirrors(edges: Seq<EdgeModel>, n: nat)
    requires
        forall|i: int| 0 <= i < edges.len() ==> has_edge(edges, #[trigger] edges[i].1, edges[i].0),
    ensures
        missing_mirrors(edges, n) == Seq::<EdgeModel>::empty(),
    decreases n,
{
    if n > 0 {
        lemma_no_missing_mirrors(edges, (n - 1) as nat);
    }
}

/// Every edge that already has an edge running back has its mirror, the edge
/// running back with the opposite kind.
pub open spec fn reversals_mirrored(edges: Seq<EdgeModel>) -> bool {
    forall|i: int|
        0 <= i < edges.len() && has_edge(edges, #[trigger] edges[i].1, edges[i].0) ==> edges.contains(
            mirror(edges[i]),
        )
}

/// After normalization every edge has a mirror edge of the opposite kind,
/// provided each edge given that already has an edge running back has its
/// mirror among them (so in particular when no edge runs back at all).
pub proof fn lemma_normalize_mirrors(edges: Seq<EdgeModel>)
    requires
        reversals_mirrored(edges),
    ensures
        forall|k: int|
            0 <= k < normalized(edges).len() ==> normalized(edges).contains(
                mirror(#[trigger] normalized(edges)[k]),
            ),
{
    let nn = normalized(edges);
    let mm = missing_mirrors(edges, edges.len());
    lemma_missing_mirrors_members(edges, edges.len());
    assert forall|k: int| 0 <= k < nn.len() implies nn.contains(mirror(#[trigger] nn[k])) by {
        if k < edges.len() {
            let e = edges[k];
            assert(nn[k] == e);
            if has_edge(edges, e.1, e.0) {
                assert(edges.contains(mirror(edges[k])));
                let j = choose|j: int| 0 <= j < edges.len() && edges[j] == mirror(e);
                assert(nn[j] == mirror(e));
            } else {
                assert(mm.contains(mirror(e)));
                let j = choose|j: int| 0 <= j < mm.len() && mm[j] == mirror(e);
                assert(nn[edges.len() + j] == mirror(e));
            }
        } else {
            let j = k - edges.len();
            assert(nn[k] == mm[j]);
            assert(mirror_of_unanswered(edges, edges.len(), mm[j]));
            let i = choose|i: int|
                0 <= i < edges.len() && !has_edge(edges, edges[i].1, edges[i].0) && mm[j] == mirror(
                    edges[i],
                );
            assert(mirror(mirror(edges[i])) == edges[i]);
            assert(nn[i] == edges[i]);
        }
    }
}

/// Normalization is idempotent: normalizing a normalized edge sequence adds
/// nothing, so a second `normalize` on a graph is always allowed and leaves
/// its edges as they are.
pub proof fn lemma_normalize_idempotent(edges: Seq<EdgeModel>)
    ensures
        normalized(normalized(edges)) == normalized(edges),
        missing_mirrors(normalized(edges), normalized(edges).len()) == Seq::<EdgeModel>::empty(),
{
    let nn = normalized(edges);
    let mm = missing_mirrors(edges, edges.len());
    lemma_missing_mirrors_members(edges, edges.len());
    assert forall|k: int| 0 <= k < nn.len() implies has_edge(nn, #[trigger] nn[k].1, nn[k].0) by {
        if k < edges.len() {
            let e = edges[k];
            assert(nn[k] == e);
            if has_edge(edges, e.1, e.0) {
                let j = choose|j: int| 0 <= j < edges.len() && edges[j].0 == e.1 && edges[j].1 == e.0;
                assert(nn[j] == edges[j]);
            } else {
                assert(mm.contains(mirror(e)));
                let j = choose|j: int| 0 <= j < mm.len() && mm[j] == mirror(e);
                assert(nn[edges.len() + j] == mirror(e));
            }
        } else {
            let j = k - edges.len();
            assert(nn[k] == mm[j]);
            assert(mirror_of_unanswered(edges, edges.len(), mm[j]));
            let i = choose|i: int|
                0 <= i < edges.len() && !has_edge(edges, edges[i].1, edges[i].0) && mm[j] == mirror(
                    edges[i],
                );
            assert(nn[i] == edges[i]);
        }
    }
    lemma_no_missing_mirrors(nn, nn.len());
    assert(normalized(nn) == nn + Seq::<EdgeModel>::empty());
    assert(nn + Seq::<EdgeModel>::empty() == nn);
}

/// Every target of an outgoing edge is a node of a well-formed graph.
pub proof fn lemma_outgoing_targets_are_nodes(g: TaskGraph, node: usize, n: nat)
    requires
        g.wf(),
        n <= g.edges().len(),
    ensures
        forall|j: int|
            0 <= j < outgoing_targets(g.edges(), node, n).len() ==> #[trigger] outgoing_targets(
                g.edges(),
                node,
                n,
            )[j] < g.nodes().len(),
        outgoing_targets(g.edges(), node, n).len() <= n,
    decreases n,
{
    if n > 0 {
        lemma_outgoing_targets_are_nodes(g, node, (n - 1) as nat);
        assert(g.edges()[n - 1].0 < g.nodes().len());
    }
}

/// Normalizing a graph twice: the second call's bound holds whenever the first
/// call's did, and it leaves the edges exactly as the first call left them.
pub proof fn lemma_normalize_twice(edges: Seq<EdgeModel>)
    requires
        normalized(edges).len() <= MAX_GRAPH_ITEMS,
    ensures
        normalized(normalized(edges)).len() <= MAX_GRAPH_ITEMS,
        normalized(normalized(edges)) == normalized(edges),
{
    lemma_normalize_idempotent(edges);
}

/// The largest number of nodes, and of edges, that a graph holds.
pub const MAX_GRAPH_ITEMS: usize = 0x7fff_ffff;

/// A graph of tasks. Node `i` carries the repeatability flag of task `i`; the
/// caller keeps the tasks themselves in the same order.
pub struct TaskGraph {
    graph: DiGraph<bool, TaskEdge>,
}

impl TaskGraph {
    /// The repeatability flags of the nodes, in index order.
    pub closed spec fn nodes(&self) -> Seq<bool> {
        graph_nodes(self.graph)
    }

    /// The edges, in insertion order.
    pub closed spec fn edges(&self) -> Seq<EdgeModel> {
        graph_edges(self.graph)
    }

    /// Every edge joins two existing nodes, and the counts stay within bounds.
    pub open spec fn wf(&self) -> bool {
        &&& self.nodes().len() <= MAX_GRAPH_ITEMS
        &&& self.edges().len() <= MAX_GRAPH_ITEMS
        &&& forall|i: int|
            0 <= i < self.edges().len() ==> #[trigger] self.edges()[i].0 < self.nodes().len()
                && self.edges()[i].1 < self.nodes().len()
    }

    /// An empty graph.
    pub fn new() -> (g: TaskGraph)
        ensures
            g.wf(),
            g.nodes() == Seq::<bool>::empty(),
            g.edges() == Seq::<EdgeModel>::empty(),
    {
        TaskGraph { graph: graph_new() }
    }

    /// Adds a node for a task; returns its handle, the former node count.
    pub fn add_node(&mut self, repeatable: bool) -> (r: usize)
        requires
            old(self).wf(),
            old(self).nodes().len() < MAX_GRAPH_ITEMS,
        ensures
            final(self).wf(),
            r == old(self).nodes().len(),
            final(self).nodes() == old(self).nodes().push(repeatable),
            final(self).edges() == old(self).edges(),
    {
        graph_add_node(&mut self.graph, repeatable)
    }

    /// Adds an edge of kind `kind` from `from` to `to`.
    pub fn add_edge(&mut self, from: usize, to: usize, kind: TaskEdge)
        requires
            old(self).wf(),
            from < old(self).nodes().len(),
            to < old(self).nodes().len(),
            old(self).edges().len() < MAX_GRAPH_ITEMS,
        ensures
            final(self).wf(),
            final(self).nodes() == old(self).nodes(),
            final(self).edges() == old(self).edges().push((from, to, kind)),
    {
        graph_add_edge(&mut self.graph, from, to, kind);
        assert(forall|i: int| 0 <= i < old(self).edges().len() ==> self.edges()[i] == old(self).edges()[i]);
    }

    /// The number of nodes.
    pub fn node_count(&self) -> (r: usize)
        ensures
            r == self.nodes().len(),
    {
        graph_node_count(&self.graph)
    }

    /// The number of edges.
    pub fn edge_count(&self) -> (r: usize)
        ensures
            r == self.edges().len(),
    {
        graph_edge_count(&self.graph)
    }

    /// The edge at position `i` of the insertion order.
    pub fn edge(&self, i: usize) -> (r: EdgeModel)
        requires
            i < self.edges().len(),
        ensures
            r == self.edges()[i as int],
    {
        let (a, b) = graph_edge_endpoints(&self.graph, i);
        let k = graph_edge_weight(&self.graph, i);
        (a, b, k)
    }

    /// Whether some edge runs from `a` to `b`; never for a handle that names no node.
    pub fn contains_edge(&self, a: usize, b: usize) -> (r: bool)
        requires
            self.wf(),
        ensures
            r == has_edge(self.edges(), a, b),
    {
        let n = graph_node_count(&self.graph);
        if a >= n || b >= n {
            assert forall|i: int| 0 <= i < self.edges().len() implies !(self.edges()[i].0 == a
                && self.edges()[i].1 == b) by {
                assert(self.edges()[i].0 < self.nodes().len());
            }
            return false;
        }
        graph_contains_edge(&self.graph, a, b)
    }

    /// Whether the task at `node` is repeatable.
    pub fn is_repeatable(&self, node: usize) -> (r: bool)
        requires
            node < self.nodes().len(),
        ensures
            r == self.nodes()[node as int],
    {
        graph_node_weight(&self.graph, node)
    }

    /// Makes the graph edge-symmetric: for every edge `(u, v, kind)` with no edge
    /// from `v` to `u`, adds `(v, u, opposite(kind))`. Existing edges are kept as
    /// they are; the added mirrors follow them, in the order of their originals.
    pub fn normalize(&mut self)
        requires
            old(self).wf(),
            normalized(old(self).edges()).len() <= MAX_GRAPH_ITEMS,
        ensures
            final(self).wf(),
            final(self).nodes() == old(self).nodes(),
            final(self).edges() == normalized(old(self).edges()),
    {
        let n = graph_edge_count(&self.graph);
        let mut to_add: Vec<EdgeModel> = Vec::new();
        let mut i: usize = 0;
        while i < n
            invariant
                self.wf(),
                *self == *old(self),
                n == self.edges().len(),
                i <= n,
                to_add@ == missing_mirrors(self.edges(), i as nat),
                to_add@.len() <= i,
                forall|j: int| 0 <= j < to_add@.len() ==> #[trigger] to_add@[j].0 < self.nodes().len()
                    && to_add@[j].1 < self.nodes().len(),
            decreases n - i,
        {
            let (a, b) = graph_edge_endpoints(&self.graph, i);
            let k = graph_edge_weight(&self.graph, i);
            assert(self.edges()[i as int] == (a, b, k));
            assert(self.edges()[i as int].0 < self.nodes().len());
            if !graph_contains_edge(&self.graph, b, a) {
                let back = match k {
                    TaskEdge::Outgoing => TaskEdge::Incoming,
                    TaskEdge::Incoming => TaskEdge::Outgoing,
                };
                to_add.push((b, a, back));
            }
            i = i + 1;
        }
        let ghost base = self.edges();
        let mut j: usize = 0;
        while j < to_add.len()
            invariant
                self.wf(),
                self.nodes() == old(self).nodes(),
                base == old(self).edges(),
                base.len() + to_add@.len() <= MAX_GRAPH_ITEMS,
                j <= to_add@.len(),
                self.edges() == base + to_add@.subrange(0, j as int),
                forall|m: int| 0 <= m < to_add@.len() ==> #[trigger] to_add@[m].0 < self.nodes().len()
                    && to_add@[m].1 < self.nodes().len(),
            decreases to_add@.len() - j,
        {
            let e = to_add[j];
            let ghost before = self.edges();
            graph_add_edge(&mut self.graph, e.0, e.1, e.2);
            assert(to_add@.subrange(0, j + 1) == to_add@.subrange(0, j as int).push(e));
            assert(forall|m: int| 0 <= m < before.len() ==> self.edges()[m] == before[m]);
            j = j + 1;
        }
        assert(to_add@.subrange(0, to_add@.len() as int) == to_add@);
    }

    /// The targets of the `Outgoing` edges from `node`, in edge-insertion order:
    /// the order in which candidate successors are tried.
    pub fn successors(&self, node: usize) -> (r: Vec<usize>)
        requires
            self.wf(),
        ensures
            r@ == outgoing_targets(self.edges(), node, self.edges().len()),
    {
        let n = graph_edge_count(&self.graph);
        let mut r: Vec<usize> = Vec::new();
        let mut i: usize = 0;
        while i < n
            invariant
                n == self.edges().len(),
                i <= n,
                r@ == outgoing_targets(self.edges(), node, i as nat),
            decreases n - i,
        {
            let (a, b) = graph_edge_endpoints(&self.graph, i);
            let k = graph_edge_weight(&self.graph, i);
            if a == node && k == TaskEdge::Outgoing {
                r.push(b);
            }
            i = i + 1;
        }
        r
    }
}

} // verus!
