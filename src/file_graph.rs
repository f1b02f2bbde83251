//! The file dependency graph. An edge `u -> v` means that a change to file
//! `u` requires rebuilding file `v`; only files of the project itself are
//! nodes, files of packages are read but never tracked.

use vstd::prelude::*;
use crate::digraph::{
    KeyGraph, graph_nodes, graph_edges, edges_without_node, is_bfs_order, graph_new, graph_add_node,
    graph_add_edge, graph_remove_edge, graph_remove_node, graph_contains_node, graph_predecessors,
    graph_bfs,
};

verus! {

/// A file that a build read, with whether it belongs to a package.
#[derive(Clone, Copy, PartialEq, Eq, Structural, Debug)]
pub struct Dependency {
    pub id: u128,
    pub package: bool,
}

/// The project files among a build's dependencies.
pub open spec fn local_ids(deps: Seq<Dependency>) -> Set<u128> {
    Set::new(|x: u128| exists|k: int| 0 <= k < deps.len() && !deps[k].package && (#[trigger] deps[k]).id == x)
}

/// The edges from each project file among `deps` to `v`.
pub open spec fn edges_into(deps: Seq<Dependency>, v: u128) -> Set<(u128, u128)> {
    Set::new(|e: (u128, u128)| e.1 == v && local_ids(deps).contains(e.0))
}

pub struct FileGraphModel {
    pub nodes: Set<u128>,
    pub edges: Set<(u128, u128)>,
}

pub struct FileGraph {
    graph: KeyGraph,
}

impl View for FileGraph {
    type V = FileGraphModel;

    closed spec fn view(&self) -> FileGraphModel {
        FileGraphModel { nodes: graph_nodes(self.graph), edges: graph_edges(self.graph) }
    }
}

impl FileGraph {
    pub fn new() -> (g: Self)
        ensures
            g@.nodes.is_empty(),
            g@.edges.is_empty(),
    {
        FileGraph { graph: graph_new() }
    }

    pub fn contains(&self, id: u128) -> (r: bool)
        ensures
            r == self@.nodes.contains(id),
    {
        graph_contains_node(&self.graph, id)
    }

    pub fn add_node(&mut self, id: u128)
        ensures
            final(self)@.nodes == old(self)@.nodes.insert(id),
            final(self)@.edges == old(self)@.edges,
    {
        graph_add_node(&mut self.graph, id);
    }

    pub fn add_edge(&mut self, u: u128, v: u128)
        ensures
            final(self)@.nodes == old(self)@.nodes.insert(u).insert(v),
            final(self)@.edges == old(self)@.edges.insert((u, v)),
    {
        graph_add_edge(&mut self.graph, u, v);
    }

    pub fn remove_edge(&mut self, u: u128, v: u128)
        ensures
            final(self)@.nodes == old(self)@.nodes,
            final(self)@.edges == old(self)@.edges.remove((u, v)),
    {
        graph_remove_edge(&mut self.graph, u, v);
    }

    /// Removes a file and every edge touching it.
    pub fn remove_node(&mut self, id: u128)
        ensures
            final(self)@.nodes == old(self)@.nodes.remove(id),
            final(self)@.edges == edges_without_node(old(self)@.edges, id),
    {
        graph_remove_node(&mut self.graph, id);
    }

    /// The files reachable from `id` along edges, `id` first, in
    /// breadth-first order.
    pub fn bfs_from(&self, id: u128) -> (r: Vec<u128>)
        ensures
            is_bfs_order(self@.edges, id, r@),
    {
        graph_bfs(&self.graph, id)
    }

    /// The files with an edge into `id`.
    pub fn incoming(&self, id: u128) -> (r: Vec<u128>)
        ensures
            r@.to_set() == Set::new(|u: u128| self@.edges.contains((u, id))),
            r@.no_duplicates(),
    {
        graph_predecessors(&self.graph, id)
    }

    /// Adds an edge from each project file among `deps` to `v`.
    pub fn add_dependencies(&mut self, v: u128, deps: &Vec<Dependency>)
        ensures
            final(self)@.nodes == old(self)@.nodes.insert(v).union(local_ids(deps@)),
            final(self)@.edges == old(self)@.edges.union(edges_into(deps@, v)),
    {
        self.add_node(v);
        let ghost n0 = self@.nodes;
        let ghost e0 = self@.edges;
        let mut k: usize = 0;
        while k < deps.len()
            invariant
                k <= deps@.len(),
                n0.contains(v),
                self@.nodes == n0.union(local_ids(deps@.take(k as int))),
                self@.edges == e0.union(edges_into(deps@.take(k as int), v)),
            decreases deps@.len() - k,
        {
            let d = deps[k];
            if !d.package {
                self.add_edge(d.id, v);
            }
            proof {
                let cur = deps@.take(k as int);
                let next = deps@.take(k as int + 1);
                assert forall|x: u128| local_ids(next).contains(x)
                    <==> (local_ids(cur).contains(x) || (!d.package && x == d.id)) by {
                    if local_ids(next).contains(x) {
                        let j = choose|j: int| 0 <= j < next.len() && !next[j].package && (#[trigger] next[j]).id == x;
                        if j < k {
                            assert(cur[j] == next[j]);
                        }
                    }
                    if local_ids(cur).contains(x) {
                        let j = choose|j: int| 0 <= j < cur.len() && !cur[j].package && (#[trigger] cur[j]).id == x;
                        assert(next[j] == cur[j]);
                    }
                    if !d.package && x == d.id {
                        assert(next[k as int] == d);
                    }
                }
                assert(self@.nodes =~= n0.union(local_ids(next)));
                assert(self@.edges =~= e0.union(edges_into(next, v)));
            }
            k += 1;
        }
        proof {
            assert(deps@.take(deps@.len() as int) =~= deps@);
        }
    }

    /// Replaces the edges into `v` by an edge from each project file among
    /// `deps`.
    pub fn replace_dependencies(&mut self, v: u128, deps: &Vec<Dependency>)
        ensures
            final(self)@.nodes == old(self)@.nodes.insert(v).union(local_ids(deps@)),
            final(self)@.edges == old(self)@.edges.filter(|e: (u128, u128)| e.1 != v).union(
                edges_into(deps@, v),
            ),
    {
        let preds = self.incoming(v);
        let ghost n0 = self@.nodes;
        let ghost e0 = self@.edges;
        let mut k: usize = 0;
        while k < preds.len()
            invariant
                k <= preds@.len(),
                preds@.to_set() == Set::new(|u: u128| e0.contains((u, v))),
                self@.nodes == n0,
                self@.edges == e0.filter(|e: (u128, u128)| !(e.1 == v && preds@.take(k as int).contains(e.0))),
            decreases preds@.len() - k,
        {
            let u = preds[k];
            self.remove_edge(u, v);
            proof {
                let cur = preds@.take(k as int);
                let next = preds@.take(k as int + 1);
                assert forall|x: u128| next.contains(x) <==> (cur.contains(x) || x == u) by {
                    if next.contains(x) {
                        let j = choose|j: int| 0 <= j < next.len() && next[j] == x;
                        if j < k {
                            assert(cur[j] == x);
                        }
                    }
                    if cur.contains(x) {
                        let j = choose|j: int| 0 <= j < k && cur[j] == x;
                        assert(next[j] == x);
                    }
                    if x == u {
                        assert(next[k as int] == x);
                    }
                }
                assert(self@.edges =~= e0.filter(|e: (u128, u128)| !(e.1 == v && next.contains(e.0))));
            }
            k += 1;
        }
        proof {
            assert(preds@.take(preds@.len() as int) =~= preds@);
            assert forall|e: (u128, u128)| e0.contains(e) && e.1 == v implies preds@.contains(e.0) by {
                assert(preds@.to_set().contains(e.0));
            }
            assert(self@.edges =~= e0.filter(|e: (u128, u128)| e.1 != v));
        }
        self.add_dependencies(v, deps);
    }
}

} // verus!
