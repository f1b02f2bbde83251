//! The decisions of the build coordinator: which watcher events lead to a
//! build, which sources a change forces to rebuild, and how the file graph
//! and the set of source roots follow each build.
//!
//! Compiling, writing fragments and talking to the notes service are left
//! to the caller, which hands each build's outcome back.

use vstd::prelude::*;
use std::collections::HashSet;
use crate::digraph::{edges_without_node, is_bfs_order};
use crate::file_graph::{Dependency, FileGraph, FileGraphModel, local_ids, edges_into};

verus! {

broadcast use vstd::std_specs::hash::group_hash_axioms;

/// The kind of a filesystem event.
#[derive(Clone, Copy, PartialEq, Eq, Structural, Debug)]
pub enum WatchEventKind {
    Access,
    Any,
    Other,
    Create,
    Modify,
    Remove,
}

/// What is known of the path of a filesystem event.
#[derive(Clone, Copy, PartialEq, Eq, Structural, Debug)]
pub struct PathFacts {
    /// The path lies inside the project directory.
    pub in_project: bool,
    /// The path ends in `.typ`.
    pub typ_extension: bool,
    /// The path lies inside the notes subdirectory.
    pub under_notes: bool,
}

/// What the coordinator does about one event.
#[derive(Clone, Copy, PartialEq, Eq, Structural, Debug)]
pub enum BuildAction {
    Ignore,
    Create(u128),
    Modify(u128),
    Remove(u128),
}

/// A file that may hold notes: a `.typ` file of the project under the notes
/// subdirectory.
pub open spec fn qualifies_as_source(p: PathFacts) -> bool {
    p.in_project && p.typ_extension && p.under_notes
}

/// Whether the path names a file that may hold notes.
pub fn qualifies(p: PathFacts) -> (r: bool)
    ensures
        r == qualifies_as_source(p),
{
    p.in_project && p.typ_extension && p.under_notes
}

/// The sources of `order` that a change seeded at `seed` rebuilds: the
/// tracked source roots, and the seed itself when it qualifies as one.
pub open spec fn rebuild_order(order: Seq<u128>, sources: Set<u128>, seed: u128, seed_qualifies: bool) -> Seq<u128>
    decreases order.len(),
{
    if order.len() == 0 {
        Seq::empty()
    } else {
        let rest = rebuild_order(order.drop_last(), sources, seed, seed_qualifies);
        let j = order.last();
        if sources.contains(j) || (j == seed && seed_qualifies) {
            rest.push(j)
        } else {
            rest
        }
    }
}

/// What a change to one file asks for: the file slots to reset, and the
/// sources to rebuild, in this order.
pub struct ModifyPlan {
    pub reset: Vec<u128>,
    pub rebuild: Vec<u128>,
}

pub struct CoordinatorModel {
    pub graph: FileGraphModel,
    pub sources: Set<u128>,
}

/// Every edge of the file graph ends at a source root.
pub open spec fn edges_end_at_sources(m: CoordinatorModel) -> bool {
    forall|e: (u128, u128)| #[trigger] m.graph.edges.contains(e) ==> m.sources.contains(e.1)
}

pub struct BuildCoordinator {
    graph: FileGraph,
    is_source: HashSet<u128>,
}

impl View for BuildCoordinator {
    type V = CoordinatorModel;

    closed spec fn view(&self) -> CoordinatorModel {
        CoordinatorModel { graph: self.graph@, sources: self.is_source@ }
    }
}

impl BuildCoordinator {
    pub open spec fn wf(&self) -> bool {
        edges_end_at_sources(self@)
    }

    pub fn new() -> (c: Self)
        ensures
            c.wf(),
            c@.graph.nodes.is_empty(),
            c@.graph.edges.is_empty(),
            c@.sources.is_empty(),
    {
        BuildCoordinator { graph: FileGraph::new(), is_source: HashSet::new() }
    }

    /// Whether `id` is a tracked source root.
    pub fn is_source(&self, id: u128) -> (r: bool)
        ensures
            r == self@.sources.contains(id),
    {
        self.is_source.contains(&id)
    }

    /// Whether `id` is a node of the file graph.
    pub fn is_tracked(&self, id: u128) -> (r: bool)
        ensures
            r == self@.graph.nodes.contains(id),
    {
        self.graph.contains(id)
    }

    /// Sorts a filesystem event on file `id`: accesses and unknown kinds are
    /// ignored; a creation counts only for a file that qualifies as a source;
    /// a modification counts for a tracked file or one that qualifies; a
    /// removal always counts. Paths outside the project are ignored.
    pub fn dispatch(&self, kind: WatchEventKind, id: u128, path: PathFacts) -> (r: BuildAction)
        ensures
            r == (if !path.in_project {
                BuildAction::Ignore
            } else {
                match kind {
                    WatchEventKind::Create => if qualifies_as_source(path) {
                        BuildAction::Create(id)
                    } else {
                        BuildAction::Ignore
                    },
                    WatchEventKind::Modify => if self@.graph.nodes.contains(id) || qualifies_as_source(path) {
                        BuildAction::Modify(id)
                    } else {
                        BuildAction::Ignore
                    },
                    WatchEventKind::Remove => BuildAction::Remove(id),
                    _ => BuildAction::Ignore,
                }
            }),
    {
        if !path.in_project {
            return BuildAction::Ignore;
        }
        let qualifies = path.typ_extension && path.under_notes;
        match kind {
            WatchEventKind::Create => if qualifies {
                BuildAction::Create(id)
            } else {
                BuildAction::Ignore
            },
            WatchEventKind::Modify => if self.graph.contains(id) || qualifies {
                BuildAction::Modify(id)
            } else {
                BuildAction::Ignore
            },
            WatchEventKind::Remove => BuildAction::Remove(id),
            _ => BuildAction::Ignore,
        }
    }

    /// What a change to file `i` forces: every file reachable from `i` has
    /// its slot reset, and of those, in breadth-first order from `i`, the
    /// source roots are rebuilt (`i` itself too when it qualifies as one).
    pub fn plan_modify(&self, i: u128, i_qualifies: bool) -> (r: ModifyPlan)
        ensures
            is_bfs_order(self@.graph.edges, i, r.reset@),
            r.rebuild@ == rebuild_order(r.reset@, self@.sources, i, i_qualifies),
    {
        let order = self.graph.bfs_from(i);
        let mut rebuild: Vec<u128> = Vec::new();
        let mut k: usize = 0;
        while k < order.len()
            invariant
                k <= order@.len(),
                rebuild@ == rebuild_order(order@.take(k as int), self@.sources, i, i_qualifies),
            decreases order@.len() - k,
        {
            let j = order[k];
            proof {
                assert(order@.take(k as int + 1).drop_last() =~= order@.take(k as int));
            }
            if self.is_source.contains(&j) || (j == i && i_qualifies) {
                rebuild.push(j);
            }
            k += 1;
        }
        proof {
            assert(order@.take(order@.len() as int) =~= order@);
        }
        ModifyPlan { reset: order, rebuild }
    }

    /// Source `i` was built for the first time: it becomes a source root,
    /// with an edge from each project file it read.
    pub fn handle_create(&mut self, i: u128, dependencies: &Vec<Dependency>)
        requires
            old(self).wf(),
        ensures
            final(self).wf(),
            final(self)@.graph.nodes == old(self)@.graph.nodes.insert(i).union(local_ids(dependencies@)),
            final(self)@.graph.edges == old(self)@.graph.edges.union(edges_into(dependencies@, i)),
            final(self)@.sources == old(self)@.sources.insert(i),
    {
        self.graph.add_dependencies(i, dependencies);
        self.is_source.insert(i);
        proof {
            assert forall|e: (u128, u128)| #[trigger] self@.graph.edges.contains(e) implies self@.sources.contains(e.1) by {
                if !old(self)@.graph.edges.contains(e) {
                    assert(edges_into(dependencies@, i).contains(e));
                }
            }
        }
    }

    /// Source `j` was rebuilt: the edges into it become one from each
    /// project file it read, and it is a source root.
    pub fn handle_rebuilt(&mut self, j: u128, dependencies: &Vec<Dependency>)
        requires
            old(self).wf(),
        ensures
            final(self).wf(),
            final(self)@.graph.nodes == old(self)@.graph.nodes.insert(j).union(local_ids(dependencies@)),
            final(self)@.graph.edges == old(self)@.graph.edges.filter(|e: (u128, u128)| e.1 != j).union(
                edges_into(dependencies@, j),
            ),
            final(self)@.sources == old(self)@.sources.insert(j),
    {
        self.graph.replace_dependencies(j, dependencies);
        self.is_source.insert(j);
        proof {
            assert forall|e: (u128, u128)| #[trigger] self@.graph.edges.contains(e) implies self@.sources.contains(e.1) by {
                if !old(self)@.graph.edges.contains(e) {
                    assert(edges_into(dependencies@, j).contains(e));
                }
            }
        }
    }

    /// File `i` is gone: it leaves the graph and the source roots.
    pub fn handle_remove(&mut self, i: u128)
        requires
            old(self).wf(),
        ensures
            final(self).wf(),
            final(self)@.graph.nodes == old(self)@.graph.nodes.remove(i),
            final(self)@.graph.edges == edges_without_node(old(self)@.graph.edges, i),
            final(self)@.sources == old(self)@.sources.remove(i),
    {
        self.graph.remove_node(i);
        self.is_source.remove(&i);
        proof {
            assert forall|e: (u128, u128)| #[trigger] self@.graph.edges.contains(e) implies self@.sources.contains(e.1) by {
                assert(old(self)@.graph.edges.contains(e));
            }
        }
    }
}

} // verus!
