//! The build coordinator and the notes service together: each build outcome
//! is applied to the file graph and to the note state at once, so that the
//! two agree on which files are source roots.

use vstd::prelude::*;
use crate::coordinator::{BuildCoordinator, BuildAction, ModifyPlan, PathFacts, WatchEventKind, CoordinatorModel};
use crate::file_graph::{Dependency, local_ids, edges_into};
use crate::notes::{
    BuildResult, Effects, NotesModel, NotesServiceState, create_spec, update_spec, remove_spec, effects_are,
    accept_dropped, update_dropped, gated_update, result_notes, batch_notes, ok_files, lemma_accept_wf,
    lemma_update_wf, lemma_remove_wf,
};
use crate::digraph::edges_without_node;

verus! {

pub struct Engine {
    coordinator: BuildCoordinator,
    notes: NotesServiceState,
}

pub struct EngineModel {
    pub coordinator: CoordinatorModel,
    pub notes: NotesModel,
}

impl View for Engine {
    type V = EngineModel;

    closed spec fn view(&self) -> EngineModel {
        EngineModel { coordinator: self.coordinator@, notes: self.notes@ }
    }
}

/// Both parts keep their invariants, and the source roots of the
/// coordinator are exactly the files the notes service lists notes for.
pub open spec fn engine_wf(e: EngineModel) -> bool {
    &&& crate::coordinator::edges_end_at_sources(e.coordinator)
    &&& crate::notes::model_wf(e.notes)
    &&& e.coordinator.sources == e.notes.ids.dom()
}

impl Engine {
    pub open spec fn wf(&self) -> bool {
        engine_wf(self@)
    }

    pub fn new() -> (e: Self)
        ensures
            e.wf(),
            e@.coordinator.sources.is_empty(),
            e@.notes.nodes.is_empty(),
            !e@.notes.ready,
    {
        let e = Engine { coordinator: BuildCoordinator::new(), notes: NotesServiceState::new() };
        assert(e@.coordinator.sources =~= e@.notes.ids.dom());
        e
    }

    pub fn coordinator(&self) -> (r: &BuildCoordinator)
        ensures
            r@ == self@.coordinator,
            r.wf() == crate::coordinator::edges_end_at_sources(self@.coordinator),
    {
        &self.coordinator
    }

    pub fn notes(&self) -> (r: &NotesServiceState)
        ensures
            r@ == self@.notes,
    {
        &self.notes
    }

    /// Sorts a filesystem event; see `BuildCoordinator::dispatch`.
    pub fn dispatch(&self, kind: WatchEventKind, id: u128, path: PathFacts) -> (r: BuildAction)
        ensures
            r == (if !path.in_project {
                BuildAction::Ignore
            } else {
                match kind {
                    WatchEventKind::Create => if crate::coordinator::qualifies_as_source(path) {
                        BuildAction::Create(id)
                    } else {
                        BuildAction::Ignore
                    },
                    WatchEventKind::Modify => if self@.coordinator.graph.nodes.contains(id)
                        || crate::coordinator::qualifies_as_source(path) {
                        BuildAction::Modify(id)
                    } else {
                        BuildAction::Ignore
                    },
                    WatchEventKind::Remove => BuildAction::Remove(id),
                    _ => BuildAction::Ignore,
                }
            }),
    {
        self.coordinator.dispatch(kind, id, path)
    }

    /// What a change to file `i` forces; see `BuildCoordinator::plan_modify`.
    pub fn plan_modify(&self, i: u128, i_qualifies: bool) -> (r: ModifyPlan)
        ensures
            crate::digraph::is_bfs_order(self@.coordinator.graph.edges, i, r.reset@),
            r.rebuild@ == crate::coordinator::rebuild_order(r.reset@, self@.coordinator.sources, i, i_qualifies),
    {
        self.coordinator.plan_modify(i, i_qualifies)
    }

    /// Records that the initial build finished.
    pub fn set_build_finished(&mut self)
        requires
            old(self).wf(),
        ensures
            final(self).wf(),
            final(self)@.coordinator == old(self)@.coordinator,
            final(self)@.notes == (NotesModel { ready: true, ..old(self)@.notes }),
    {
        self.notes.set_build_finished();
    }

    /// The first build of source `i` gave `result`, having read
    /// `dependencies`. On success `i` becomes a source root with an edge
    /// from each project file it read; either way the notes service stores
    /// the result.
    pub fn create(&mut self, i: u128, result: BuildResult, dependencies: &Vec<Dependency>) -> (e: Effects)
        requires
            old(self).wf(),
        ensures
            final(self).wf(),
            final(self)@.notes == create_spec(old(self)@.notes, i, result),
            result is Ok ==> final(self)@.coordinator.graph.nodes
                == old(self)@.coordinator.graph.nodes.insert(i).union(local_ids(dependencies@)),
            result is Ok ==> final(self)@.coordinator.graph.edges
                == old(self)@.coordinator.graph.edges.union(edges_into(dependencies@, i)),
            result is Ok ==> final(self)@.coordinator.sources == old(self)@.coordinator.sources.insert(i),
            result is Err ==> final(self)@.coordinator == old(self)@.coordinator,
            effects_are(e, accept_dropped(old(self)@.notes, i, result),
                gated_update(old(self)@.notes.ready, result_notes(result))),
    {
        proof {
            lemma_accept_wf(self@.notes, i, result, false);
        }
        if result.is_ok() {
            self.coordinator.handle_create(i, dependencies);
        }
        let e = self.notes.create_notes(i, result);
        assert(self@.coordinator.sources =~= self@.notes.ids.dom());
        e
    }

    /// The sources of a modify plan were rebuilt: entry `k` of `batch` is
    /// the outcome for its file, which read `dependencies[k]`. Each source
    /// that built has the edges into it replaced; the notes service stores
    /// the whole batch.
    pub fn rebuild(&mut self, batch: Vec<(u128, BuildResult)>, dependencies: &Vec<Vec<Dependency>>) -> (e: Effects)
        requires
            old(self).wf(),
            dependencies@.len() == batch@.len(),
        ensures
            final(self).wf(),
            final(self)@.notes == update_spec(old(self)@.notes, batch@),
            final(self)@.coordinator.sources == old(self)@.coordinator.sources.union(ok_files(batch@)),
            effects_are(e, update_dropped(old(self)@.notes, batch@),
                gated_update(old(self)@.notes.ready, batch_notes(batch@))),
    {
        let ghost b = batch@;
        let ghost s0 = self@.coordinator.sources;
        proof {
            lemma_update_wf(self@.notes, b);
        }
        let mut k: usize = 0;
        while k < batch.len()
            invariant
                k <= b.len(),
                batch@ == b,
                dependencies@.len() == b.len(),
                self.coordinator.wf(),
                self@.coordinator.sources == s0.union(ok_files(b.take(k as int))),
                self@.notes == old(self)@.notes,
            decreases b.len() - k,
        {
            proof {
                assert(b.take(k as int + 1).drop_last() =~= b.take(k as int));
            }
            if batch[k].1.is_ok() {
                self.coordinator.handle_rebuilt(batch[k].0, &dependencies[k]);
            }
            proof {
                assert(self@.coordinator.sources =~= s0.union(ok_files(b.take(k as int + 1))));
            }
            k += 1;
        }
        proof {
            assert(b.take(b.len() as int) =~= b);
        }
        let e = self.notes.update_notes(batch);
        assert(self@.coordinator.sources =~= self@.notes.ids.dom());
        e
    }

    /// File `i` was removed: it leaves the file graph and the source roots,
    /// and the notes service forgets its notes.
    pub fn remove(&mut self, i: u128) -> (e: Effects)
        requires
            old(self).wf(),
        ensures
            final(self).wf(),
            final(self)@.notes == remove_spec(old(self)@.notes, i),
            final(self)@.coordinator.graph.nodes == old(self)@.coordinator.graph.nodes.remove(i),
            final(self)@.coordinator.graph.edges == edges_without_node(old(self)@.coordinator.graph.edges, i),
            final(self)@.coordinator.sources == old(self)@.coordinator.sources.remove(i),
            old(self)@.notes.ids.contains_key(i) ==> effects_are(e, old(self)@.notes.ids[i], None),
            !old(self)@.notes.ids.contains_key(i) ==> effects_are(e, Seq::empty(), None),
    {
        proof {
            lemma_remove_wf(self@.notes, i);
        }
        self.coordinator.handle_remove(i);
        let e = self.notes.remove_notes(i);
        assert(self@.coordinator.sources =~= self@.notes.ids.dom());
        e
    }
}

/// Every note that has an owner file lies in the link graph, its owner is a
/// source root, and the owner lists it.
pub proof fn law_owners_are_sources(e: EngineModel)
    requires
        engine_wf(e),
    ensures
        forall|x: u128| #[trigger] e.notes.owners.contains_key(x) ==> {
            &&& e.notes.nodes.contains(x)
            &&& e.coordinator.sources.contains(e.notes.owners[x])
            &&& e.notes.ids[e.notes.owners[x]].contains(x)
        },
{
}

/// Every source root has a stored build report.
pub proof fn law_sources_have_reports(e: EngineModel)
    requires
        engine_wf(e),
    ensures
        forall|f: u128| #[trigger] e.coordinator.sources.contains(f) ==> e.notes.errors.contains_key(f),
{
    assert forall|f: u128| #[trigger] e.coordinator.sources.contains(f) implies e.notes.errors.contains_key(f) by {
        assert(e.notes.ids.contains_key(f));
    }
}

/// Every note of the link graph that has an owner has its fragment file in
/// the build directory. (A dangling link target has neither.)
pub proof fn law_owned_notes_have_fragments(e: EngineModel)
    requires
        engine_wf(e),
    ensures
        forall|x: u128| #[trigger] e.notes.owners.contains_key(x) ==> e.notes.nodes.contains(x)
            && e.notes.fragments.contains(x),
{
}

/// Every edge of the file graph ends at a source root.
pub proof fn law_file_edges_end_at_sources(e: EngineModel)
    requires
        engine_wf(e),
    ensures
        forall|u: u128, v: u128| #[trigger] e.coordinator.graph.edges.contains((u, v)) ==> e.coordinator.sources.contains(v),
{
    assert forall|u: u128, v: u128| #[trigger] e.coordinator.graph.edges.contains((u, v))
        implies e.coordinator.sources.contains(v) by {
        assert(e.coordinator.graph.edges.contains((u, v)));
    }
}

} // verus!
