//! The graph artifact: the verified passes poured into a `petgraph`
//! directed graph. The graph's node weights and its edges, as position
//! pairs, are named by uninterpreted spec functions, and the trusted
//! wrappers below state how `petgraph`'s constructors change them.

use vstd::prelude::*;
use crate::records::{PackageInfo, Node, NodeView};
use crate::model::{spec_nodes, spec_edges, edges_as_int};
use crate::builder::build_graph_model;
use crate::laws::{lemma_no_dangling_edges, edges_in_range};

verus! {

#[verifier::external_type_specification]
#[verifier::external_body]
#[verifier::reject_recursive_types(N)]
#[verifier::reject_recursive_types(E)]
#[verifier::reject_recursive_types(Ty)]
#[verifier::reject_recursive_types(Ix)]
pub struct ExGraph<N, E, Ty, Ix>(petgraph::graph::Graph<N, E, Ty, Ix>);

#[verifier::external_type_specification]
#[verifier::external_body]
pub struct ExDirected(petgraph::Directed);

/// The node weights a graph value holds, in insertion order.
pub uninterp spec fn graph_nodes(
    g: petgraph::graph::Graph<Node, (), petgraph::Directed, u32>,
) -> Seq<NodeView>;

/// The edges a graph value holds, as (source, target) node-position
/// pairs, in insertion order.
pub uninterp spec fn graph_edges(
    g: petgraph::graph::Graph<Node, (), petgraph::Directed, u32>,
) -> Seq<(int, int)>;

/// Relies on petgraph's `Graph::new`: it returns a graph with no nodes
/// and no edges.
#[verifier::external_body]
fn pg_new() -> (g: petgraph::graph::Graph<Node, (), petgraph::Directed, u32>)
    ensures
        graph_nodes(g) == Seq::<NodeView>::empty(),
        graph_edges(g) == Seq::<(int, int)>::empty(),
{
    petgraph::graph::Graph::new()
}

/// Relies on petgraph's `Graph::add_node`: it appends one node weight and
/// returns its index, the node count before the call. With index type
/// `u32` it panics only when the graph already holds `u32::MAX` nodes,
/// which the precondition rules out.
#[verifier::external_body]
fn pg_add_node(
    g: &mut petgraph::graph::Graph<Node, (), petgraph::Directed, u32>,
    node: Node,
) -> (i: usize)
    requires
        graph_nodes(*old(g)).len() < 0xffff_ffff,
    ensures
        graph_nodes(*final(g)) == graph_nodes(*old(g)).push(node@),
        graph_edges(*final(g)) == graph_edges(*old(g)),
        i == graph_nodes(*old(g)).len(),
{
    g.add_node(node).index()
}

/// Relies on petgraph's `Graph::add_edge`: it appends one directed edge
/// from `a` to `b` and changes nothing else. It panics on an endpoint
/// that is not a node position or when the graph already holds
/// `u32::MAX` edges, which the preconditions rule out.
#[verifier::external_body]
fn pg_add_edge(
    g: &mut petgraph::graph::Graph<Node, (), petgraph::Directed, u32>,
    a: usize,
    b: usize,
)
    requires
        a < graph_nodes(*old(g)).len(),
        b < graph_nodes(*old(g)).len(),
        graph_edges(*old(g)).len() < 0xffff_ffff,
    ensures
        graph_nodes(*final(g)) == graph_nodes(*old(g)),
        graph_edges(*final(g)) == graph_edges(*old(g)).push((a as int, b as int)),
{
    g.add_edge(
        petgraph::graph::NodeIndex::new(a),
        petgraph::graph::NodeIndex::new(b),
        (),
    );
}

/// A copy of a node with the same name, version and timestamp.
fn clone_node(n: &Node) -> (r: Node)
    ensures
        r@ == n@,
{
    Node { name: n.name.clone(), version: n.version.clone(), timestamp: n.timestamp.clone() }
}

/// Pours a node list and an edge list into a `petgraph` directed graph.
///
/// Returns `None` exactly when the lists do not fit the graph's `u32`
/// index type or an edge endpoint is not a node position; otherwise the
/// graph holds exactly the given nodes and edges, in order.
pub fn to_petgraph(nodes: &Vec<Node>, edges: &Vec<(usize, usize)>) -> (r: Option<
    petgraph::graph::Graph<Node, (), petgraph::Directed, u32>,
>)
    ensures
        r is Some <==> {
            &&& nodes@.len() < 0xffff_ffff
            &&& edges@.len() < 0xffff_ffff
            &&& forall|i: int|
                0 <= i < edges@.len() ==> (#[trigger] edges@[i]).0 < nodes@.len()
                    && edges@[i].1 < nodes@.len()
        },
        r is Some ==> graph_nodes(r->Some_0) == nodes.deep_view() && graph_edges(r->Some_0)
            == edges_as_int(edges@),
{
    if nodes.len() >= 0xffff_ffff || edges.len() >= 0xffff_ffff {
        return None;
    }
    let mut i: usize = 0;
    while i < edges.len()
        invariant
            i <= edges@.len(),
            forall|j: int|
                0 <= j < i ==> (#[trigger] edges@[j]).0 < nodes@.len() && edges@[j].1
                    < nodes@.len(),
        decreases edges@.len() - i,
    {
        if edges[i].0 >= nodes.len() || edges[i].1 >= nodes.len() {
            return None;
        }
        i = i + 1;
    }
    let mut g = pg_new();
    let mut a: usize = 0;
    while a < nodes.len()
        invariant
            a <= nodes@.len(),
            nodes@.len() < 0xffff_ffff,
            graph_nodes(g) == nodes.deep_view().take(a as int),
            graph_edges(g) == Seq::<(int, int)>::empty(),
        decreases nodes@.len() - a,
    {
        let n = clone_node(&nodes[a]);
        pg_add_node(&mut g, n);
        proof {
            assert(graph_nodes(g) =~= nodes.deep_view().take(a as int + 1));
        }
        a = a + 1;
    }
    proof {
        assert(nodes.deep_view().take(nodes@.len() as int) =~= nodes.deep_view());
    }
    let mut b: usize = 0;
    while b < edges.len()
        invariant
            b <= edges@.len(),
            edges@.len() < 0xffff_ffff,
            forall|j: int|
                0 <= j < edges@.len() ==> (#[trigger] edges@[j]).0 < nodes@.len() && edges@[j].1
                    < nodes@.len(),
            graph_nodes(g) == nodes.deep_view(),
            graph_edges(g) == edges_as_int(edges@.take(b as int)),
        decreases edges@.len() - b,
    {
        pg_add_edge(&mut g, edges[b].0, edges[b].1);
        proof {
            assert(graph_edges(g) =~= edges_as_int(edges@.take(b as int + 1)));
        }
        b = b + 1;
    }
    proof {
        assert(edges_as_int(edges@.take(edges@.len() as int)) =~= edges_as_int(edges@));
    }
    Some(g)
}

/// Builds the dependency graph of a snapshot: one node per
/// (package, version) pair, one directed edge from a dependent version to
/// every published dependency version that satisfies the declared range,
/// both endpoints resolved through the completed identifier map. No node
/// gains an edge to itself.
///
/// Returns `None` exactly when the snapshot's node or edge count does not
/// fit the graph's `u32` index type; a data-quality problem in one
/// declaration or candidate never fails the whole construction.
pub fn build_graph(packages: &Vec<PackageInfo>) -> (r: Option<
    petgraph::graph::Graph<Node, (), petgraph::Directed, u32>,
>)
    ensures
        r is Some <==> {
            &&& spec_nodes(packages.deep_view()).len() < 0xffff_ffff
            &&& spec_edges(packages.deep_view()).len() < 0xffff_ffff
        },
        r is Some ==> graph_nodes(r->Some_0) == spec_nodes(packages.deep_view()) && graph_edges(
            r->Some_0,
        ) == spec_edges(packages.deep_view()),
{
    let (nodes, edges) = build_graph_model(packages);
    proof {
        lemma_no_dangling_edges(packages.deep_view());
        assert(edges_in_range(
            edges_as_int(edges@),
            spec_nodes(packages.deep_view()).len() as int,
        ));
        assert(nodes.deep_view().len() == nodes@.len());
        assert forall|i: int| 0 <= i < edges@.len() implies (#[trigger] edges@[i]).0 < nodes@.len()
            && edges@[i].1 < nodes@.len() by {
            assert(edges_as_int(edges@)[i] == (edges@[i].0 as int, edges@[i].1 as int));
        }
    }
    to_petgraph(&nodes, &edges)
}

} // verus!
