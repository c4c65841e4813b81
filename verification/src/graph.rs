//! The directed graph that holds the repositories, and what this library
//! relies on of it.
//!
//! The graph is petgraph's `StableGraph`. Nothing is ever removed from it here,
//! so its nodes are numbered from 0 in the order in which they were added, and
//! its edges are known by that order too. Two sequences stand for a graph in
//! specifications: what its nodes carry, and its edges as pairs of node numbers.

use crate::repo::{Repo, RepoId};
use petgraph::graph::NodeIndex;
use petgraph::stable_graph::StableGraph;
use petgraph::{Directed, Incoming};
use vstd::prelude::*;

verus! {

/// petgraph's `StableGraph`, taken as it is: nothing is known of a value of it
/// but what the functions below say.
#[verifier::external_type_specification]
#[verifier::external_body]
#[verifier::reject_recursive_types(N)]
#[verifier::reject_recursive_types(E)]
#[verifier::reject_recursive_types(Ty)]
#[verifier::reject_recursive_types(Ix)]
pub struct ExStableGraph<N, E, Ty, Ix>(StableGraph<N, E, Ty, Ix>);

/// petgraph's `Directed`, the mark of a graph whose edges have a direction.
#[verifier::external_type_specification]
#[verifier::external_body]
pub struct ExDirected(Directed);

/// A graph of repositories with directed edges.
pub type Graph = StableGraph<Repo, (), Directed, usize>;

/// What the nodes of `g` carry: the repository of node 0, of node 1, and so on.
pub uninterp spec fn graph_nodes(g: Graph) -> Seq<RepoId>;

/// The edges of `g`, each as the numbers of the node it leaves and of the node
/// it enters, in the order in which they were added.
pub uninterp spec fn graph_edges(g: Graph) -> Seq<(usize, usize)>;

/// The nodes that the edges leaving `a` enter: one for each such edge, that of
/// the edge added last first.
pub open spec fn successors(edges: Seq<(usize, usize)>, a: usize) -> Seq<usize>
    decreases edges.len(),
{
    if edges.len() == 0 {
        Seq::empty()
    } else if edges.last().0 == a {
        seq![edges.last().1] + successors(edges.drop_last(), a)
    } else {
        successors(edges.drop_last(), a)
    }
}

/// The nodes that the edges entering `a` leave: one for each such edge, that of
/// the edge added last first.
pub open spec fn predecessors(edges: Seq<(usize, usize)>, a: usize) -> Seq<usize>
    decreases edges.len(),
{
    if edges.len() == 0 {
        Seq::empty()
    } else if edges.last().1 == a {
        seq![edges.last().0] + predecessors(edges.drop_last(), a)
    } else {
        predecessors(edges.drop_last(), a)
    }
}

/// A node is among the successors of `a` exactly if an edge goes from `a` to it.
pub proof fn lemma_successors_are_edges(edges: Seq<(usize, usize)>, a: usize, b: usize)
    ensures
        successors(edges, a).contains(b) <==> edges.contains((a, b)),
    decreases edges.len(),
{
    if edges.len() > 0 {
        let rest = edges.drop_last();
        lemma_successors_are_edges(rest, a, b);
        if edges.contains((a, b)) {
            let i = choose|i: int| 0 <= i < edges.len() && edges[i] == (a, b);
            if i < edges.len() - 1 {
                assert(rest[i] == (a, b));
            }
        }
        if rest.contains((a, b)) {
            let i = choose|i: int| 0 <= i < rest.len() && rest[i] == (a, b);
            assert(edges[i] == (a, b));
        }
        if edges.last().0 == a {
            let head = seq![edges.last().1];
            let tail = successors(rest, a);
            if (head + tail).contains(b) {
                let i = choose|i: int| 0 <= i < (head + tail).len() && (head + tail)[i] == b;
                if i > 0 {
                    assert(tail[i - 1] == b);
                } else {
                    assert(edges[edges.len() - 1] == (a, b));
                }
            }
            if tail.contains(b) {
                let i = choose|i: int| 0 <= i < tail.len() && tail[i] == b;
                assert((head + tail)[i + 1] == b);
            }
            if edges.last() == (a, b) {
                assert((head + tail)[0] == b);
            }
        }
    }
}

/// A node is among the predecessors of `a` exactly if an edge goes from it to `a`.
pub proof fn lemma_predecessors_are_edges(edges: Seq<(usize, usize)>, a: usize, b: usize)
    ensures
        predecessors(edges, a).contains(b) <==> edges.contains((b, a)),
    decreases edges.len(),
{
    if edges.len() > 0 {
        let rest = edges.drop_last();
        lemma_predecessors_are_edges(rest, a, b);
        if edges.contains((b, a)) {
            let i = choose|i: int| 0 <= i < edges.len() && edges[i] == (b, a);
            if i < edges.len() - 1 {
                assert(rest[i] == (b, a));
            }
        }
        if rest.contains((b, a)) {
            let i = choose|i: int| 0 <= i < rest.len() && rest[i] == (b, a);
            assert(edges[i] == (b, a));
        }
        if edges.last().1 == a {
            let head = seq![edges.last().0];
            let tail = predecessors(rest, a);
            if (head + tail).contains(b) {
                let i = choose|i: int| 0 <= i < (head + tail).len() && (head + tail)[i] == b;
                if i > 0 {
                    assert(tail[i - 1] == b);
                } else {
                    assert(edges[edges.len() - 1] == (b, a));
                }
            }
            if tail.contains(b) {
                let i = choose|i: int| 0 <= i < tail.len() && tail[i] == b;
                assert((head + tail)[i + 1] == b);
            }
            if edges.last() == (b, a) {
                assert((head + tail)[0] == b);
            }
        }
    }
}

/// Calls `StableGraph::with_capacity` for no nodes and no edges: a graph
/// without nodes and edges.
#[verifier::external_body]
pub(crate) fn graph_new() -> (g: Graph)
    ensures
        graph_nodes(g) == Seq::<RepoId>::empty(),
        graph_edges(g) == Seq::<(usize, usize)>::empty(),
{
    StableGraph::with_capacity(0, 0)
}

/// Calls `StableGraph::add_node`. The new node comes behind those that are
/// there and gets the next number, which is returned; the edges stay. With
/// `usize` for its indices the graph has no limit of its own to the number of
/// its nodes.
#[verifier::external_body]
pub(crate) fn graph_add_node(g: &mut Graph, weight: Repo) -> (node: usize)
    ensures
        graph_nodes(*final(g)) == graph_nodes(*old(g)).push(weight@),
        graph_edges(*final(g)) == graph_edges(*old(g)),
        node == graph_nodes(*old(g)).len(),
{
    g.add_node(weight).index()
}

/// Calls `StableGraph::add_edge`, which panics where one of the two nodes is
/// not in the graph. The new edge, from `a` to `b`, comes behind those that
/// are there; the nodes stay. With `usize` for its indices the graph has no
/// limit of its own to the number of its edges.
#[verifier::external_body]
pub(crate) fn graph_add_edge(g: &mut Graph, a: usize, b: usize)
    requires
        a < graph_nodes(*old(g)).len(),
        b < graph_nodes(*old(g)).len(),
    ensures
        graph_nodes(*final(g)) == graph_nodes(*old(g)),
        graph_edges(*final(g)) == graph_edges(*old(g)).push((a, b)),
{
    g.add_edge(NodeIndex::new(a), NodeIndex::new(b), ());
}

/// Calls `StableGraph::neighbors`, which walks the edges that leave `a` from
/// the one added last to the one added first and yields the node that each
/// enters.
#[verifier::external_body]
pub(crate) fn graph_successors(g: &Graph, a: usize) -> (nodes: Vec<usize>)
    requires
        a < graph_nodes(*g).len(),
    ensures
        nodes@ == successors(graph_edges(*g), a),
{
    g.neighbors(NodeIndex::new(a)).map(|node| node.index()).collect()
}

/// Calls `StableGraph::neighbors_directed` with `Incoming`, which walks the
/// edges that enter `a` from the one added last to the one added first and
/// yields the node that each leaves.
#[verifier::external_body]
pub(crate) fn graph_predecessors(g: &Graph, a: usize) -> (nodes: Vec<usize>)
    requires
        a < graph_nodes(*g).len(),
    ensures
        nodes@ == predecessors(graph_edges(*g), a),
{
    g.neighbors_directed(NodeIndex::new(a), Incoming).map(|node| node.index()).collect()
}

/// Calls `StableGraph::node_count`: the number of nodes.
#[verifier::external_body]
pub(crate) fn graph_node_count(g: &Graph) -> (count: usize)
    ensures
        count == graph_nodes(*g).len(),
{
    g.node_count()
}

/// Indexes the graph by a node, which panics where the node is not in the
/// graph, and returns what the node carries.
#[verifier::external_body]
pub(crate) fn graph_node_weight(g: &Graph, a: usize) -> (weight: &Repo)
    requires
        a < graph_nodes(*g).len(),
    ensures
        weight@ == graph_nodes(*g)[a as int],
{
    &g[NodeIndex::new(a)]
}

} // verus!
