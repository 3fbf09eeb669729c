use vstd::prelude::*;
use petgraph::graph::{EdgeIndex, NodeIndex};

verus! {

#[verifier::external_type_specification]
#[verifier::external_body]
#[verifier::reject_recursive_types(N)]
#[verifier::reject_recursive_types(E)]
#[verifier::reject_recursive_types(Ty)]
#[verifier::reject_recursive_types(Ix)]
pub struct ExGraph<N, E, Ty, Ix>(petgraph::Graph<N, E, Ty, Ix>);

#[verifier::external_type_specification]
#[verifier::external_body]
pub struct ExDirected(petgraph::Directed);

/// The directed graph that holds an automaton: node weights are state labels,
/// edge weights are transition symbols.
pub type Automaton = petgraph::Graph<String, String>;

/// A transition as plain values: source index, target index, symbol.
pub type Transition = (nat, nat, Seq<char>);

/// The labels of the graph's nodes, in index order.
pub uninterp spec fn graph_nodes(g: Automaton) -> Seq<Seq<char>>;

/// The graph's edges, in index order.
pub uninterp spec fn graph_edges(g: Automaton) -> Seq<Transition>;

/// Relies on petgraph's `Graph::new`: a graph with no nodes and no edges.
#[verifier::external_body]
pub(crate) fn new_graph() -> (g: Automaton)
    ensures
        graph_nodes(g) == Seq::<Seq<char>>::empty(),
        graph_edges(g) == Seq::<Transition>::empty(),
{
    petgraph::Graph::new()
}

/// Relies on petgraph's `Graph::add_node`: the node is appended, its index is
/// the previous node count. It panics only when the count reaches `u32::MAX`.
#[verifier::external_body]
pub(crate) fn add_node(g: &mut Automaton, w: String) -> (i: usize)
    requires
        graph_nodes(*old(g)).len() < u32::MAX,
    ensures
        graph_nodes(*final(g)) == graph_nodes(*old(g)).push(w@),
        graph_edges(*final(g)) == graph_edges(*old(g)),
        i == graph_nodes(*old(g)).len(),
{
    g.add_node(w).index()
}

/// Relies on petgraph's `Graph::add_edge`: the edge is appended. It panics
/// when an endpoint is not a node, or when the edge count reaches `u32::MAX`.
#[verifier::external_body]
pub(crate) fn add_edge(g: &mut Automaton, a: usize, b: usize, w: String)
    requires
        a < graph_nodes(*old(g)).len(),
        b < graph_nodes(*old(g)).len(),
        graph_edges(*old(g)).len() < u32::MAX,
    ensures
        graph_nodes(*final(g)) == graph_nodes(*old(g)),
        graph_edges(*final(g)) == graph_edges(*old(g)).push((a as nat, b as nat, w@)),
{
    g.add_edge(NodeIndex::new(a), NodeIndex::new(b), w);
}

/// Relies on petgraph's `Graph::node_count`: the number of nodes.
#[verifier::external_body]
pub(crate) fn node_count(g: &Automaton) -> (r: usize)
    ensures
        r == graph_nodes(*g).len(),
{
    g.node_count()
}

/// Relies on petgraph's `Graph::edge_count`: the number of edges.
#[verifier::external_body]
pub(crate) fn edge_count(g: &Automaton) -> (r: usize)
    ensures
        r == graph_edges(*g).len(),
{
    g.edge_count()
}

/// Relies on petgraph's `Graph::node_weight`: the label of node `i`, or
/// `None` past the last node.
#[verifier::external_body]
pub(crate) fn node_weight(g: &Automaton, i: usize) -> (r: Option<String>)
    requires
        i < u32::MAX,
    ensures
        i < graph_nodes(*g).len() ==> r is Some && r->0@ == graph_nodes(*g)[i as int],
        i >= graph_nodes(*g).len() ==> r is None,
{
    g.node_weight(NodeIndex::new(i)).cloned()
}

/// Relies on petgraph's `Graph::node_weight_mut`: the label of node `i` is
/// replaced; other nodes and all edges stay as they were.
#[verifier::external_body]
pub(crate) fn set_node_weight(g: &mut Automaton, i: usize, w: String)
    requires
        i < graph_nodes(*old(g)).len(),
    ensures
        graph_nodes(*final(g)) == graph_nodes(*old(g)).update(i as int, w@),
        graph_edges(*final(g)) == graph_edges(*old(g)),
{
    if let Some(slot) = g.node_weight_mut(NodeIndex::new(i)) {
        *slot = w;
    }
}

/// Relies on petgraph's `Graph::edge_endpoints`: source and target of edge
/// `e`, or `None` past the last edge.
#[verifier::external_body]
pub(crate) fn edge_endpoints(g: &Automaton, e: usize) -> (r: Option<(usize, usize)>)
    requires
        e < u32::MAX,
    ensures
        e < graph_edges(*g).len() ==> r is Some && (r->0).0 == graph_edges(*g)[e as int].0
            && (r->0).1 == graph_edges(*g)[e as int].1,
        e >= graph_edges(*g).len() ==> r is None,
{
    g.edge_endpoints(EdgeIndex::new(e)).map(|(a, b)| (a.index(), b.index()))
}

/// Relies on petgraph's `Graph::edge_weight`: the symbol of edge `e`, or
/// `None` past the last edge.
#[verifier::external_body]
pub(crate) fn edge_weight(g: &Automaton, e: usize) -> (r: Option<String>)
    requires
        e < u32::MAX,
    ensures
        e < graph_edges(*g).len() ==> r is Some && r->0@ == graph_edges(*g)[e as int].2,
        e >= graph_edges(*g).len() ==> r is None,
{
    g.edge_weight(EdgeIndex::new(e)).cloned()
}

} // verus!
