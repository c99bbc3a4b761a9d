//! The directed graph that holds the tree's topology, kept in a
//! `petgraph::Graph` whose node and edge weights carry nothing: the node data
//! lives beside it, under the same indices.
use vstd::prelude::*;

verus! {

/// Declares `petgraph::Graph` to the verifier as an opaque type; what it holds
/// is known only through the names and wrappers below.
#[verifier::external_type_specification]
#[verifier::external_body]
#[verifier::reject_recursive_types(N)]
#[verifier::reject_recursive_types(E)]
#[verifier::reject_recursive_types(Ty)]
#[verifier::reject_recursive_types(Ix)]
pub struct ExGraph<N, E, Ty, Ix>(petgraph::Graph<N, E, Ty, Ix>);

/// Declares `petgraph::Directed`, the edge kind of the graph, as an opaque type.
#[verifier::external_type_specification]
#[verifier::external_body]
pub struct ExDirected(petgraph::Directed);

/// The topology store.
pub type Topology = petgraph::Graph<(), ()>;

/// How many nodes a topology holds.
pub uninterp spec fn topo_node_count(g: Topology) -> nat;

/// The edges of a topology, as (source, target) node indices, in the order of
/// their edge indices.
pub uninterp spec fn topo_edges(g: Topology) -> Seq<(usize, usize)>;

/// Relies on `petgraph::Graph::new`: a graph with no node and no edge.
#[verifier::external_body]
pub(crate) fn topo_new() -> (r: Topology)
    ensures
        topo_node_count(r) == 0,
        topo_edges(r) == Seq::<(usize, usize)>::empty(),
{
    petgraph::Graph::new()
}

/// Relies on `petgraph::Graph::add_node`: the node is appended and its index is
/// the former node count; it panics only once the count reaches `u32::MAX`.
#[verifier::external_body]
pub(crate) fn topo_add_node(g: &mut Topology) -> (r: usize)
    requires
        topo_node_count(*old(g)) < u32::MAX,
    ensures
        r == topo_node_count(*old(g)),
        topo_node_count(*final(g)) == topo_node_count(*old(g)) + 1,
        topo_edges(*final(g)) == topo_edges(*old(g)),
{
    g.add_node(()).index()
}

/// Relies on `petgraph::Graph::add_edge`: the edge (a, b) is appended; it panics
/// only on an index out of bounds or once the edge count reaches `u32::MAX`.
#[verifier::external_body]
pub(crate) fn topo_add_edge(g: &mut Topology, a: usize, b: usize)
    requires
        a < topo_node_count(*old(g)),
        b < topo_node_count(*old(g)),
        topo_edges(*old(g)).len() < u32::MAX,
    ensures
        topo_node_count(*final(g)) == topo_node_count(*old(g)),
        topo_edges(*final(g)) == topo_edges(*old(g)).push((a, b)),
{
    g.add_edge(petgraph::graph::NodeIndex::new(a), petgraph::graph::NodeIndex::new(b), ());
}

/// Relies on `petgraph::Graph::edge_endpoints`: the source and target of the edge
/// with index `e`.
#[verifier::external_body]
pub(crate) fn topo_edge(g: &Topology, e: usize) -> (r: (usize, usize))
    requires
        e < topo_edges(*g).len(),
    ensures
        r == topo_edges(*g)[e as int],
{
    let (a, b) = g.edge_endpoints(petgraph::graph::EdgeIndex::new(e)).unwrap();
    (a.index(), b.index())
}

/// Relies on `petgraph::Graph::edge_count`: the number of edges.
#[verifier::external_body]
pub(crate) fn topo_edge_count(g: &Topology) -> (r: usize)
    ensures
        r == topo_edges(*g).len(),
{
    g.edge_count()
}

} // verus!
