//! Directed graphs over 128-bit node keys, kept in petgraph's `DiGraphMap`.
//!
//! The graph is an outside collection: what it holds is named by
//! `graph_nodes` and `graph_edges`, and each operation that the library
//! uses is a small wrapper whose contract says what it does to those sets.

use vstd::prelude::*;
use petgraph::graphmap::{DiGraphMap, GraphMap};
use petgraph::visit::{Bfs, Walker};
use petgraph::{Directed, Direction};
use std::hash::BuildHasher;

verus! {

#[verifier::external_type_specification]
#[verifier::external_body]
pub struct ExDirected(Directed);

#[verifier::external_type_specification]
#[verifier::external_body]
#[verifier::reject_recursive_types(N)]
#[verifier::reject_recursive_types(E)]
#[verifier::reject_recursive_types(Ty)]
#[verifier::reject_recursive_types(S)]
pub struct ExGraphMap<N, E, Ty, S: BuildHasher>(GraphMap<N, E, Ty, S>);

/// A directed graph whose nodes are 128-bit keys and whose edges carry nothing.
pub type KeyGraph = DiGraphMap<u128, ()>;

/// The nodes that a graph holds.
pub uninterp spec fn graph_nodes(g: KeyGraph) -> Set<u128>;

/// The edges `(from, to)` that a graph holds.
pub uninterp spec fn graph_edges(g: KeyGraph) -> Set<(u128, u128)>;

/// The targets of the edges that leave `n`.
pub open spec fn successors(edges: Set<(u128, u128)>, n: u128) -> Set<u128> {
    Set::new(|m: u128| edges.contains((n, m)))
}

/// The sources of the edges that enter `n`.
pub open spec fn predecessors(edges: Set<(u128, u128)>, n: u128) -> Set<u128> {
    Set::new(|m: u128| edges.contains((m, n)))
}

/// The edges that remain once every edge touching `n` is gone.
pub open spec fn edges_without_node(edges: Set<(u128, u128)>, n: u128) -> Set<(u128, u128)> {
    edges.filter(|e: (u128, u128)| e.0 != n && e.1 != n)
}

/// `order` is a breadth-first enumeration of what `edges` reach from `start`:
/// it begins at `start`, holds no node twice, is closed under successors,
/// and reaches each later node by an edge from an earlier one.
pub open spec fn is_bfs_order(edges: Set<(u128, u128)>, start: u128, order: Seq<u128>) -> bool {
    &&& order.len() > 0
    &&& order[0] == start
    &&& order.no_duplicates()
    &&& forall|i: int, m: u128|
        0 <= i < order.len() && #[trigger] edges.contains((order[i], m)) ==> order.contains(m)
    &&& forall|k: int|
        0 < k < order.len() ==> exists|j: int|
            0 <= j < k && edges.contains((order[j], #[trigger] order[k]))
}

/// Relies on `GraphMap::new`: a new graph is empty.
#[verifier::external_body]
pub(crate) fn graph_new() -> (g: KeyGraph)
    ensures
        graph_nodes(g) == Set::<u128>::empty(),
        graph_edges(g) == Set::<(u128, u128)>::empty(),
{
    DiGraphMap::new()
}

/// Relies on `GraphMap::add_node`: the node is added, edges stay.
#[verifier::external_body]
pub(crate) fn graph_add_node(g: &mut KeyGraph, n: u128)
    ensures
        graph_nodes(*final(g)) == graph_nodes(*old(g)).insert(n),
        graph_edges(*final(g)) == graph_edges(*old(g)),
{
    g.add_node(n);
}

/// Relies on `GraphMap::add_edge`: both ends become nodes and the edge is
/// added; an edge that was there stays once (no parallel edges).
#[verifier::external_body]
pub(crate) fn graph_add_edge(g: &mut KeyGraph, a: u128, b: u128)
    ensures
        graph_nodes(*final(g)) == graph_nodes(*old(g)).insert(a).insert(b),
        graph_edges(*final(g)) == graph_edges(*old(g)).insert((a, b)),
{
    g.add_edge(a, b, ());
}

/// Relies on `GraphMap::remove_edge`: the edge is removed, nodes stay.
#[verifier::external_body]
pub(crate) fn graph_remove_edge(g: &mut KeyGraph, a: u128, b: u128)
    ensures
        graph_nodes(*final(g)) == graph_nodes(*old(g)),
        graph_edges(*final(g)) == graph_edges(*old(g)).remove((a, b)),
{
    g.remove_edge(a, b);
}

/// Relies on `GraphMap::remove_node`: the node and every edge touching it
/// are removed.
#[verifier::external_body]
pub(crate) fn graph_remove_node(g: &mut KeyGraph, n: u128)
    ensures
        graph_nodes(*final(g)) == graph_nodes(*old(g)).remove(n),
        graph_edges(*final(g)) == edges_without_node(graph_edges(*old(g)), n),
{
    g.remove_node(n);
}

/// Relies on `GraphMap::contains_node`.
#[verifier::external_body]
pub(crate) fn graph_contains_node(g: &KeyGraph, n: u128) -> (r: bool)
    ensures
        r == graph_nodes(*g).contains(n),
{
    g.contains_node(n)
}

/// Relies on `GraphMap::neighbors`: on a directed graph, the targets of the
/// edges leaving `n`, each once (nothing when `n` is not a node).
#[verifier::external_body]
pub(crate) fn graph_successors(g: &KeyGraph, n: u128) -> (r: Vec<u128>)
    ensures
        r@.to_set() == successors(graph_edges(*g), n),
        r@.no_duplicates(),
{
    g.neighbors(n).collect()
}

/// Relies on `GraphMap::neighbors_directed` with `Incoming`: the sources of
/// the edges entering `n`, each once.
#[verifier::external_body]
pub(crate) fn graph_predecessors(g: &KeyGraph, n: u128) -> (r: Vec<u128>)
    ensures
        r@.to_set() == predecessors(graph_edges(*g), n),
        r@.no_duplicates(),
{
    g.neighbors_directed(n, Direction::Incoming).collect()
}

/// Relies on `GraphMap::nodes`: every node once, in the graph's order.
#[verifier::external_body]
pub(crate) fn graph_node_list(g: &KeyGraph) -> (r: Vec<u128>)
    ensures
        r@.to_set() == graph_nodes(*g),
        r@.no_duplicates(),
{
    g.nodes().collect()
}

/// Relies on `GraphMap::all_edges`: every edge once, in the graph's order.
#[verifier::external_body]
pub(crate) fn graph_edge_list(g: &KeyGraph) -> (r: Vec<(u128, u128)>)
    ensures
        r@.to_set() == graph_edges(*g),
        r@.no_duplicates(),
{
    g.all_edges().map(|(a, b, _)| (a, b)).collect()
}

/// Relies on petgraph's `Bfs` walked to its end: `start` first, then each
/// node that the edges reach from it, once, in breadth-first order.
#[verifier::external_body]
pub(crate) fn graph_bfs(g: &KeyGraph, start: u128) -> (r: Vec<u128>)
    ensures
        is_bfs_order(graph_edges(*g), start, r@),
{
    Bfs::new(g, start).iter(g).collect()
}

} // verus!
