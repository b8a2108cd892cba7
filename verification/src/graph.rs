//! The structure of the audio processing graph: which nodes exist, which
//! outputs feed which inputs, and in what order the nodes are run.  The graph
//! itself is a `petgraph` directed graph; it never holds a cycle.
use vstd::prelude::*;
use vstd::multiset::Multiset;
use petgraph::algo::{toposort, Cycle};
use petgraph::graph::{DiGraph, EdgeIndex, NodeIndex};
use petgraph::{Directed, Direction};

verus! {

broadcast use {
    vstd::seq_lib::group_to_multiset_ensures,
    vstd::multiset::group_multiset_axioms,
    vstd::multiset::group_multiset_properties,
};

/// petgraph's graph type, carried opaquely.
#[verifier::external_type_specification]
#[verifier::external_body]
#[verifier::reject_recursive_types(N)]
#[verifier::reject_recursive_types(E)]
#[verifier::reject_recursive_types(Ty)]
#[verifier::reject_recursive_types(Ix)]
pub struct ExGraph<N, E, Ty, Ix>(petgraph::graph::Graph<N, E, Ty, Ix>);

/// petgraph's marker for directed graphs.
#[verifier::external_type_specification]
#[verifier::external_body]
pub struct ExDirected(Directed);

/// petgraph's node index.
#[verifier::external_type_specification]
#[verifier::external_body]
#[verifier::reject_recursive_types(Ix)]
pub struct ExNodeIndex<Ix>(NodeIndex<Ix>);

/// The error petgraph's `toposort` reports when it meets a cycle.
#[verifier::external_type_specification]
#[verifier::external_body]
#[verifier::reject_recursive_types(N)]
pub struct ExCycle<N>(Cycle<N>);

/// The number of nodes of a petgraph graph (`Graph::node_count`).
pub uninterp spec fn graph_node_count(g: DiGraph<(), ()>) -> nat;

/// The edges of a petgraph graph as (source, target) pairs, listed by edge index.
pub uninterp spec fn graph_edges(g: DiGraph<(), ()>) -> Seq<(usize, usize)>;

/// The node order that petgraph's `toposort` gives for an acyclic graph.
pub uninterp spec fn graph_topo_order(g: DiGraph<(), ()>) -> Seq<usize>;

/// The sources of the edges into `node`, in the order petgraph's
/// `neighbors_directed` with `Incoming` walks them.
pub uninterp spec fn graph_incoming_order(g: DiGraph<(), ()>, node: usize) -> Seq<usize>;

/// The edges that `edges` holds after petgraph's `remove_edge(i)`: the last
/// edge takes the place of edge `i`.
pub open spec fn swap_removed(edges: Seq<(usize, usize)>, i: int) -> Seq<(usize, usize)> {
    edges.update(i, edges.last()).drop_last()
}

/// Every edge joins two of the nodes `0..n`.
pub open spec fn edges_within(n: nat, edges: Multiset<(usize, usize)>) -> bool {
    forall|e: (usize, usize)| #[trigger] edges.contains(e) ==> e.0 < n && e.1 < n
}

/// `order` lists each of the nodes `0..n` once, and every edge leads from a
/// node to one listed after it.
pub open spec fn is_topological_order(
    n: nat,
    edges: Multiset<(usize, usize)>,
    order: Seq<usize>,
) -> bool {
    &&& order.len() == n
    &&& forall|i: int| 0 <= i < order.len() ==> #[trigger] order[i] < n
    &&& forall|i: int, j: int| 0 <= i < j < order.len() ==> #[trigger] order[i] != #[trigger] order[j]
    &&& forall|i: int, j: int|
        0 <= i < order.len() && 0 <= j < order.len() && edges.contains(
            (#[trigger] order[i], #[trigger] order[j]),
        ) ==> i < j
}

/// The graph on nodes `0..n` with these edges has no directed cycle: its nodes
/// can be put in an order in which every edge leads forward.
pub open spec fn is_acyclic(n: nat, edges: Multiset<(usize, usize)>) -> bool {
    exists|order: Seq<usize>| is_topological_order(n, edges, order)
}

/// Creates an empty directed graph (`DiGraph::new`).
#[verifier::external_body]
fn graph_new() -> (g: DiGraph<(), ()>)
    ensures
        graph_node_count(g) == 0,
        graph_edges(g) == Seq::<(usize, usize)>::empty(),
{
    DiGraph::new()
}

/// Adds a node (`Graph::add_node`); its index is the old node count.  petgraph
/// panics when the count reaches the largest `u32`.
#[verifier::external_body]
fn graph_add_node(g: &mut DiGraph<(), ()>) -> (id: usize)
    requires
        graph_node_count(*old(g)) < u32::MAX,
    ensures
        id == graph_node_count(*old(g)),
        graph_node_count(*final(g)) == graph_node_count(*old(g)) + 1,
        graph_edges(*final(g)) == graph_edges(*old(g)),
{
    g.add_node(()).index()
}

/// Adds an edge from `from` to `to` (`Graph::add_edge`) at the end of the edge
/// list.  petgraph panics on a missing node or when the edge count reaches the
/// largest `u32`.
#[verifier::external_body]
fn graph_add_edge(g: &mut DiGraph<(), ()>, from: usize, to: usize)
    requires
        from < graph_node_count(*old(g)),
        to < graph_node_count(*old(g)),
        graph_edges(*old(g)).len() < u32::MAX,
    ensures
        graph_node_count(*final(g)) == graph_node_count(*old(g)),
        graph_edges(*final(g)) == graph_edges(*old(g)).push((from, to)),
{
    g.add_edge(NodeIndex::new(from), NodeIndex::new(to), ());
}

/// Looks up an edge from `from` to `to` (`Graph::find_edge`): the index of
/// such an edge, or `None` when there is none.
#[verifier::external_body]
fn graph_find_edge(g: &DiGraph<(), ()>, from: usize, to: usize) -> (r: Option<usize>)
    requires
        from < graph_node_count(*g),
        to < graph_node_count(*g),
    ensures
        r matches Some(i) ==> i < graph_edges(*g).len() && graph_edges(*g)[i as int] == (from, to),
        r is None ==> !graph_edges(*g).contains((from, to)),
{
    g.find_edge(NodeIndex::new(from), NodeIndex::new(to)).map(|e| e.index())
}

/// Removes edge `i` (`Graph::remove_edge`); the last edge takes its index.
#[verifier::external_body]
fn graph_remove_edge(g: &mut DiGraph<(), ()>, i: usize)
    requires
        i < graph_edges(*old(g)).len(),
    ensures
        graph_node_count(*final(g)) == graph_node_count(*old(g)),
        graph_edges(*final(g)) == swap_removed(graph_edges(*old(g)), i as int),
{
    g.remove_edge(EdgeIndex::new(i));
}

/// The indices of the nodes with an edge into `node`
/// (`Graph::neighbors_directed` with `Incoming`), once per such edge, in the
/// order petgraph walks them, which depends on the graph alone.
#[verifier::external_body]
fn graph_incoming(g: &DiGraph<(), ()>, node: usize) -> (sources: Vec<usize>)
    requires
        node < graph_node_count(*g),
    ensures
        sources@ == graph_incoming_order(*g, node),
        forall|src: usize|
            #[trigger] sources@.to_multiset().count(src) == graph_edges(*g).to_multiset().count(
                (src, node),
            ),
{
    g.neighbors_directed(NodeIndex::new(node), Direction::Incoming).map(|n| n.index()).collect()
}

/// petgraph's `toposort`: the nodes in topological order when the graph is
/// acyclic, and the `Cycle` error when it is not.  The order it picks
/// depends on the graph alone.
#[verifier::external_body]
fn graph_toposort(g: &DiGraph<(), ()>) -> (r: Result<Vec<usize>, Cycle<NodeIndex>>)
    ensures
        r is Ok <==> is_acyclic(graph_node_count(*g), graph_edges(*g).to_multiset()),
        r matches Ok(order) ==> is_topological_order(
            graph_node_count(*g),
            graph_edges(*g).to_multiset(),
            order@,
        ),
        r matches Ok(order) ==> order@ == graph_topo_order(*g),
{
    toposort(g, None).map(|order| order.into_iter().map(|n| n.index()).collect())
}

/// Removing edge `i` the way petgraph does takes one copy of that edge out of
/// the multiset of edges.
proof fn lemma_swap_removed_to_multiset(edges: Seq<(usize, usize)>, i: int)
    requires
        0 <= i < edges.len(),
    ensures
        swap_removed(edges, i).to_multiset() =~= edges.to_multiset().remove(edges[i]),
{
    let last = edges.last();
    let moved = edges.update(i, last);
    if i == edges.len() - 1 {
        assert(moved =~= edges);
        assert(edges =~= edges.drop_last().push(last));
        assert(edges.remove(i) =~= edges.drop_last());
    } else {
        let t = swap_removed(edges, i);
        assert(moved =~= t.push(last));
        assert(moved.remove(i) =~= edges.remove(i));
        assert(moved.to_multiset() =~= t.to_multiset().insert(last));
        assert(moved.remove(i).to_multiset() =~= moved.to_multiset().remove(last));
        assert(t.to_multiset().insert(last).remove(last) =~= t.to_multiset());
    }
}

/// A topological order of the nodes `0..n` lists every one of them.
pub proof fn lemma_order_lists_every_node(
    n: nat,
    edges: Multiset<(usize, usize)>,
    order: Seq<usize>,
    v: usize,
)
    requires
        is_topological_order(n, edges, order),
        v < n,
    ensures
        exists|i: int| 0 <= i < order.len() && #[trigger] order[i] == v,
{
    let listed = order.map_values(|x: usize| x as int);
    assert(listed.no_duplicates()) by {
        assert forall|i: int, j: int|
            0 <= i < listed.len() && 0 <= j < listed.len() && i != j implies listed[i]
            != listed[j] by {
            if i < j {
                assert(order[i] != order[j]);
            } else {
                assert(order[j] != order[i]);
            }
        }
    }
    listed.unique_seq_to_set();
    vstd::set_lib::lemma_int_range(0, n as int);
    let all = vstd::set_lib::set_int_range(0, n as int);
    if !(exists|i: int| 0 <= i < order.len() && #[trigger] order[i] == v) {
        assert(listed.to_set().subset_of(all.remove(v as int))) by {
            assert forall|x: int| listed.to_set().contains(x) implies all.remove(v as int).contains(
                x,
            ) by {
                let i = choose|i: int| 0 <= i < listed.len() && listed[i] == x;
                assert(order[i] < n);
                assert(order[i] != v);
            }
        }
        vstd::set_lib::lemma_len_subset(listed.to_set(), all.remove(v as int));
    }
}

/// A connection from a node to itself closes a cycle: `connect` always
/// refuses it.
pub proof fn lemma_self_connection_is_a_cycle(n: nat, edges: Multiset<(usize, usize)>, v: usize)
    requires
        v < n,
    ensures
        !is_acyclic(n, edges.insert((v, v))),
{
    if is_acyclic(n, edges.insert((v, v))) {
        let order = choose|order: Seq<usize>| is_topological_order(n, edges.insert((v, v)), order);
        lemma_order_lists_every_node(n, edges.insert((v, v)), order, v);
        let i = choose|i: int| 0 <= i < order.len() && #[trigger] order[i] == v;
        assert(edges.insert((v, v)).contains((order[i], order[i])));
    }
}

/// A connection that runs against one already in the graph (from `b` back to
/// `a` when `a` feeds `b`) closes a cycle: `connect` always refuses it.
pub proof fn lemma_reverse_connection_is_a_cycle(
    n: nat,
    edges: Multiset<(usize, usize)>,
    a: usize,
    b: usize,
)
    requires
        a < n,
        b < n,
        edges.contains((a, b)),
    ensures
        !is_acyclic(n, edges.insert((b, a))),
{
    if is_acyclic(n, edges.insert((b, a))) {
        let both = edges.insert((b, a));
        let order = choose|order: Seq<usize>| is_topological_order(n, both, order);
        lemma_order_lists_every_node(n, both, order, a);
        lemma_order_lists_every_node(n, both, order, b);
        let i = choose|i: int| 0 <= i < order.len() && #[trigger] order[i] == a;
        let j = choose|j: int| 0 <= j < order.len() && #[trigger] order[j] == b;
        assert(both.contains((order[i], order[j])));
        assert(both.contains((order[j], order[i])));
    }
}

/// Why a graph operation was refused.
#[derive(Debug, Clone, Copy, PartialEq, Eq, Structural)]
pub enum GraphError {
    CycleDetected,
    NodeNotFound,
    InvalidConnection,
}

impl GraphError {
    /// The message that describes the error.
    pub fn message(&self) -> (m: &'static str)
        ensures
            *self == GraphError::CycleDetected ==> m@ == "Cycle detected in audio graph"@,
            *self == GraphError::NodeNotFound ==> m@ == "Node not found"@,
            *self == GraphError::InvalidConnection ==> m@ == "Invalid connection"@,
    {
        match self {
            GraphError::CycleDetected => "Cycle detected in audio graph",
            GraphError::NodeNotFound => "Node not found",
            GraphError::InvalidConnection => "Invalid connection",
        }
    }
}

/// A node of the audio graph, by index.
pub type NodeId = usize;

/// One node to run, with the nodes whose outputs are its inputs (one entry
/// per connection).
#[derive(Debug, Clone)]
pub struct NodeStep {
    pub node: NodeId,
    pub inputs: Vec<NodeId>,
}

/// The nodes of `steps`, in order.
pub open spec fn step_nodes(steps: Seq<NodeStep>) -> Seq<usize> {
    steps.map_values(|s: NodeStep| s.node)
}

/// The shape of an audio graph: its nodes `0..node_count` and the connections
/// between them.  It never holds a directed cycle.
pub struct AudioGraph {
    graph: DiGraph<(), ()>,
    buffer_size: usize,
}

impl AudioGraph {
    /// How many nodes the graph has; they are numbered from 0.
    pub closed spec fn node_count(&self) -> nat {
        graph_node_count(self.graph)
    }

    /// The connections, as (from, to) pairs, one copy per connection.
    pub closed spec fn edges(&self) -> Multiset<(usize, usize)> {
        graph_edges(self.graph).to_multiset()
    }

    /// The order in which the nodes are run (petgraph's topological order).
    pub closed spec fn run_order(&self) -> Seq<usize> {
        graph_topo_order(self.graph)
    }

    /// The nodes feeding `node`, in the order they are handed to it.
    pub closed spec fn input_order(&self, node: usize) -> Seq<usize> {
        graph_incoming_order(self.graph, node)
    }

    /// The block length used when none is asked for.
    pub closed spec fn default_block_len(&self) -> usize {
        self.buffer_size
    }

    /// Every connection joins two nodes of the graph, and there is no cycle.
    pub open spec fn wf(&self) -> bool {
        &&& edges_within(self.node_count(), self.edges())
        &&& is_acyclic(self.node_count(), self.edges())
    }

    /// An empty graph whose blocks are `buffer_size` samples long by default.
    pub fn new(buffer_size: usize) -> (g: AudioGraph)
        ensures
            g.wf(),
            g.node_count() == 0,
            g.edges() =~= Multiset::<(usize, usize)>::empty(),
            g.default_block_len() == buffer_size,
    {
        let g = AudioGraph { graph: graph_new(), buffer_size };
        proof {
            assert(is_topological_order(0, g.edges(), Seq::<usize>::empty()));
        }
        g
    }

    /// Adds a node with no connections; it gets the next index.
    pub fn add_node(&mut self) -> (id: NodeId)
        requires
            old(self).wf(),
            old(self).node_count() < u32::MAX,
        ensures
            final(self).wf(),
            id == old(self).node_count(),
            final(self).node_count() == old(self).node_count() + 1,
            final(self).edges() == old(self).edges(),
            final(self).default_block_len() == old(self).default_block_len(),
    {
        let ghost n = self.node_count();
        let ghost order = choose|order: Seq<usize>| is_topological_order(n, self.edges(), order);
        let id = graph_add_node(&mut self.graph);
        proof {
            let extended = order.push(id);
            assert forall|i: int, j: int|
                0 <= i < extended.len() && 0 <= j < extended.len() && self.edges().contains(
                    (#[trigger] extended[i], #[trigger] extended[j]),
                ) implies i < j by {
                if i < n && j < n {
                    assert(order.contains(order[i]));
                }
            }
            assert(is_topological_order(n + 1, self.edges(), extended));
        }
        id
    }

    /// Connects the output of `from` to an input of `to`.  When the new
    /// connection would close a cycle it is taken back out and the error is
    /// `CycleDetected`.
    pub fn connect(&mut self, from: NodeId, to: NodeId) -> (r: Result<(), GraphError>)
        requires
            old(self).wf(),
            from < old(self).node_count(),
            to < old(self).node_count(),
            old(self).edges().len() < u32::MAX,
        ensures
            final(self).wf(),
            final(self).node_count() == old(self).node_count(),
            final(self).default_block_len() == old(self).default_block_len(),
            is_acyclic(old(self).node_count(), old(self).edges().insert((from, to))) ==> {
                &&& r is Ok
                &&& final(self).edges() == old(self).edges().insert((from, to))
            },
            !is_acyclic(old(self).node_count(), old(self).edges().insert((from, to))) ==> {
                &&& r == Err::<(), GraphError>(GraphError::CycleDetected)
                &&& final(self).edges() == old(self).edges()
            },
    {
        let ghost before = graph_edges(self.graph);
        graph_add_edge(&mut self.graph, from, to);
        let ghost added = graph_edges(self.graph);
        assert(added.to_multiset() =~= before.to_multiset().insert((from, to)));
        if graph_toposort(&self.graph).is_err() {
            assert(added[added.len() - 1] == (from, to));
            match graph_find_edge(&self.graph, from, to) {
                Some(i) => {
                    graph_remove_edge(&mut self.graph, i);
                    proof {
                        lemma_swap_removed_to_multiset(added, i as int);
                        assert(graph_edges(self.graph).to_multiset() =~= before.to_multiset());
                    }
                },
                None => {},
            }
            return Err(GraphError::CycleDetected);
        }
        proof {
            assert forall|e: (usize, usize)| #[trigger] self.edges().contains(e) implies e.0
                < self.node_count() && e.1 < self.node_count() by {
                if e != (from, to) {
                    assert(before.to_multiset().contains(e));
                }
            }
        }
        Ok(())
    }

    /// The block length to render: `requested`, or the graph's own buffer size
    /// when `requested` is 0.
    pub fn block_len(&self, requested: usize) -> (len: usize)
        ensures
            len == if requested > 0 {
                requested
            } else {
                self.default_block_len()
            },
    {
        if requested > 0 {
            requested
        } else {
            self.buffer_size
        }
    }

    /// The order in which to run the nodes: every node once, each after all
    /// the nodes that feed it, in petgraph's topological order, with the
    /// sources of its inputs in the order petgraph lists them.
    pub fn schedule(&self) -> (r: Result<Vec<NodeStep>, GraphError>)
        requires
            self.wf(),
        ensures
            r matches Ok(steps) && {
                &&& is_topological_order(self.node_count(), self.edges(), step_nodes(steps@))
                &&& step_nodes(steps@) == self.run_order()
                &&& forall|i: int|
                    0 <= i < steps.len() ==> #[trigger] steps@[i].inputs@ == self.input_order(
                        steps@[i].node,
                    )
                &&& forall|i: int, src: usize|
                    0 <= i < steps.len() ==> #[trigger] steps@[i].inputs@.to_multiset().count(src)
                        == self.edges().count((src, steps@[i].node))
            },
    {
        let order = match graph_toposort(&self.graph) {
            Ok(order) => order,
            Err(_) => {
                return Err(GraphError::CycleDetected);
            },
        };
        let mut steps: Vec<NodeStep> = Vec::new();
        let mut i: usize = 0;
        while i < order.len()
            invariant
                is_topological_order(self.node_count(), self.edges(), order@),
                i <= order.len(),
                steps.len() == i,
                forall|k: int| 0 <= k < i ==> #[trigger] steps@[k].node == order@[k],
                order@ == self.run_order(),
                forall|k: int|
                    0 <= k < i ==> #[trigger] steps@[k].inputs@ == self.input_order(steps@[k].node),
                forall|k: int, src: usize|
                    0 <= k < i ==> #[trigger] steps@[k].inputs@.to_multiset().count(src)
                        == self.edges().count((src, steps@[k].node)),
            decreases order.len() - i,
        {
            let node = order[i];
            let inputs = graph_incoming(&self.graph, node);
            steps.push(NodeStep { node, inputs });
            i += 1;
        }
        assert(step_nodes(steps@) =~= order@);
        Ok(steps)
    }
}

} // verus!
