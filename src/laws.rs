//! Laws of the notes service, stated over its model and proved from the
//! definitions that the service's operations are held to.

use vstd::prelude::*;
use crate::notes::{
    BuildResult, NoteData, NotesModel, Warned, accept, add_notes, drop_all, create_spec, update_spec,
    remove_spec, batch_notes, batch_files, model_wf, note_ids, link_edges, link_targets, file_notes,
    drop_stale, lemma_drop_stale, lemma_add_notes,
    lemma_update_wf, lemma_push_contains,
};

verus! {

/// Every link target of some note of `notes`.
pub open spec fn all_targets(notes: Seq<NoteData>) -> Set<u128> {
    Set::new(|t: u128| exists|k: int| 0 <= k < notes.len() && (#[trigger] notes[k]).links@.contains(t))
}

/// Every link of some note of `notes`, as an edge.
pub open spec fn all_link_edges(notes: Seq<NoteData>) -> Set<(u128, u128)> {
    Set::new(|e: (u128, u128)| exists|k: int| 0 <= k < notes.len() && (#[trigger] notes[k]).id == e.0
        && notes[k].links@.contains(e.1))
}

/// No two entries of a batch name the same file.
pub open spec fn distinct_files(batch: Seq<(u128, BuildResult)>) -> bool {
    forall|i: int, j: int| 0 <= i < j < batch.len() ==> (#[trigger] batch[i]).0 != (#[trigger] batch[j]).0
}

proof fn lemma_add_notes_exact(m: NotesModel, f: u128, notes: Seq<NoteData>)
    ensures
        add_notes(m, f, notes, false).nodes == m.nodes.union(note_ids(notes).to_set()).union(all_targets(notes)),
        add_notes(m, f, notes, false).edges == m.edges.union(all_link_edges(notes)),
        forall|x: u128| !note_ids(notes).contains(x) ==> {
            &&& (#[trigger] add_notes(m, f, notes, false).titles.contains_key(x) <==> m.titles.contains_key(x))
            &&& add_notes(m, f, notes, false).titles[x] == m.titles[x]
        },
    decreases notes.len(),
{
    let r = add_notes(m, f, notes, false);
    if notes.len() == 0 {
        assert(r.nodes =~= m.nodes.union(note_ids(notes).to_set()).union(all_targets(notes)));
        assert(r.edges =~= m.edges.union(all_link_edges(notes)));
    } else {
        let front = notes.drop_last();
        let n = notes.last();
        lemma_add_notes_exact(m, f, front);
        assert(note_ids(notes) =~= note_ids(front).push(n.id));
        lemma_push_contains(note_ids(front), n.id);
        assert forall|t: u128| all_targets(notes).contains(t) <==> (all_targets(front).contains(t) || link_targets(n).contains(t)) by {
            if all_targets(notes).contains(t) {
                let k = choose|k: int| 0 <= k < notes.len() && (#[trigger] notes[k]).links@.contains(t);
                if k < front.len() {
                    assert(front[k] == notes[k]);
                }
            }
            if all_targets(front).contains(t) {
                let k = choose|k: int| 0 <= k < front.len() && (#[trigger] front[k]).links@.contains(t);
                assert(notes[k] == front[k]);
            }
            if link_targets(n).contains(t) {
                assert(notes[notes.len() - 1] == n);
            }
        }
        assert forall|e: (u128, u128)| all_link_edges(notes).contains(e) <==> (all_link_edges(front).contains(e) || link_edges(n).contains(e)) by {
            if all_link_edges(notes).contains(e) {
                let k = choose|k: int| 0 <= k < notes.len() && (#[trigger] notes[k]).id == e.0 && notes[k].links@.contains(e.1);
                if k < front.len() {
                    assert(front[k] == notes[k]);
                }
            }
            if all_link_edges(front).contains(e) {
                let k = choose|k: int| 0 <= k < front.len() && (#[trigger] front[k]).id == e.0 && front[k].links@.contains(e.1);
                assert(notes[k] == front[k]);
            }
            if link_edges(n).contains(e) {
                assert(notes[notes.len() - 1] == n);
            }
        }
        assert(r.nodes =~= m.nodes.union(note_ids(notes).to_set()).union(all_targets(notes)));
        assert(r.edges =~= m.edges.union(all_link_edges(notes)));
    }
}

proof fn lemma_drop_all_exact(m: NotesModel, xs: Seq<u128>)
    ensures
        drop_all(m, xs).nodes == m.nodes.difference(xs.to_set()),
        drop_all(m, xs).edges == m.edges.filter(|e: (u128, u128)| !xs.contains(e.0) && !xs.contains(e.1)),
        drop_all(m, xs).fragments == m.fragments.difference(xs.to_set()),
        drop_all(m, xs).titles == m.titles.remove_keys(xs.to_set()),
        drop_all(m, xs).owners == m.owners.remove_keys(xs.to_set()),
        drop_all(m, xs).ids == m.ids,
        drop_all(m, xs).ready == m.ready,
    decreases xs.len(),
{
    let r = drop_all(m, xs);
    if xs.len() == 0 {
        assert(r.nodes =~= m.nodes.difference(xs.to_set()));
        assert(r.edges =~= m.edges.filter(|e: (u128, u128)| !xs.contains(e.0) && !xs.contains(e.1)));
        assert(r.fragments =~= m.fragments.difference(xs.to_set()));
        assert(r.titles =~= m.titles.remove_keys(xs.to_set()));
        assert(r.owners =~= m.owners.remove_keys(xs.to_set()));
    } else {
        let front = xs.drop_last();
        lemma_drop_all_exact(m, front);
        assert(xs =~= front.push(xs.last()));
        lemma_push_contains(front, xs.last());
        assert(r.nodes =~= m.nodes.difference(xs.to_set()));
        assert(r.edges =~= m.edges.filter(|e: (u128, u128)| !xs.contains(e.0) && !xs.contains(e.1)));
        assert(r.fragments =~= m.fragments.difference(xs.to_set()));
        assert(r.titles =~= m.titles.remove_keys(xs.to_set()));
        assert(r.owners =~= m.owners.remove_keys(xs.to_set()));
    }
}

/// Creating a new source whose notes are new to the graph and link only to
/// notes of the graph or of the source itself, then removing that source,
/// gives back the titles, owners, note lists, link graph and fragments that
/// the service had before. (A link to a note that the graph lacks leaves a
/// dangling node behind, so such sources are not covered.)
pub proof fn law_create_then_remove(m: NotesModel, f: u128, w: Warned<Vec<NoteData>>)
    requires
        model_wf(m),
        !m.ids.contains_key(f),
        forall|x: u128| note_ids(w.output@).contains(x) ==> !m.nodes.contains(x) && !m.fragments.contains(x),
        forall|t: u128| all_targets(w.output@).contains(t) ==> m.nodes.contains(t) || note_ids(w.output@).contains(t),
    ensures
        ({
            let r = remove_spec(create_spec(m, f, Ok(w)), f);
            &&& r.nodes == m.nodes
            &&& r.edges == m.edges
            &&& r.titles == m.titles
            &&& r.owners == m.owners
            &&& r.ids == m.ids
            &&& r.fragments == m.fragments
            &&& r.ready == m.ready
        }),
{
    let notes = w.output@;
    let ids = note_ids(notes);
    let res: BuildResult = Ok(w);
    assert(file_notes(m, f) =~= Seq::<u128>::empty());
    assert(drop_stale(m, f, file_notes(m, f), ids) == m);
    let m2 = NotesModel { errors: m.errors.insert(f, Ok(w.warnings)), ids: m.ids.insert(f, Seq::empty()), ..m };
    let c = create_spec(m, f, res);
    assert(c == add_notes(m2, f, notes, false));
    lemma_add_notes(m2, f, notes, false);
    lemma_add_notes_exact(m2, f, notes);
    assert(c.ids[f] =~= ids);
    let c0 = NotesModel { errors: c.errors.remove(f), ..c };
    lemma_drop_all_exact(c0, ids);
    let r = remove_spec(c, f);
    assert(r.ids =~= m.ids);
    assert(r.nodes =~= m.nodes);
    assert forall|e: (u128, u128)| #[trigger] r.edges.contains(e) <==> m.edges.contains(e) by {
        if m.edges.contains(e) {
            assert(m.nodes.contains(e.0) && m.nodes.contains(e.1));
        }
        if all_link_edges(notes).contains(e) {
            let k = choose|k: int| 0 <= k < notes.len() && (#[trigger] notes[k]).id == e.0 && notes[k].links@.contains(e.1);
            assert(ids[k] == e.0);
            assert(ids.contains(e.0));
        }
    }
    assert(r.edges =~= m.edges);
    assert forall|x: u128| ids.contains(x) implies !m.titles.contains_key(x) && !m.owners.contains_key(x) by {
        if m.owners.contains_key(x) {
            assert(m.nodes.contains(x));
        }
    }
    assert(r.titles =~= m.titles);
    assert(r.owners =~= m.owners);
    assert(r.fragments =~= m.fragments);
}

/// A source with no notes builds: its note list is empty and no fragment
/// is added.
pub proof fn law_empty_source(m: NotesModel, f: u128, w: Warned<Vec<NoteData>>)
    requires
        model_wf(m),
        w.output@.len() == 0,
    ensures
        create_spec(m, f, Ok(w)).ids[f] == Seq::<u128>::empty(),
        create_spec(m, f, Ok(w)).fragments.subset_of(m.fragments),
{
    let ids = note_ids(w.output@);
    lemma_drop_stale(m, f, file_notes(m, f), ids);
}

/// Every link of a created source's notes becomes an edge of the link
/// graph, and its target a node, whether or not a note of that id exists.
pub proof fn law_links_become_edges(m: NotesModel, f: u128, w: Warned<Vec<NoteData>>)
    ensures
        forall|k: int, t: u128| 0 <= k < w.output@.len() && #[trigger] w.output@[k].links@.contains(t) ==> {
            &&& create_spec(m, f, Ok(w)).edges.contains((w.output@[k].id, t))
            &&& create_spec(m, f, Ok(w)).nodes.contains(t)
        },
{
    let notes = w.output@;
    let m1 = drop_stale(m, f, file_notes(m, f), note_ids(notes));
    let m2 = NotesModel { errors: m1.errors.insert(f, Ok(w.warnings)), ids: m1.ids.insert(f, Seq::empty()), ..m1 };
    lemma_add_notes_exact(m2, f, notes);
    assert forall|k: int, t: u128| 0 <= k < notes.len() && #[trigger] notes[k].links@.contains(t) implies {
        &&& create_spec(m, f, Ok(w)).edges.contains((notes[k].id, t))
        &&& create_spec(m, f, Ok(w)).nodes.contains(t)
    } by {
        assert(all_link_edges(notes).contains((notes[k].id, t)));
        assert(all_targets(notes).contains(t));
    }
}

/// After a source is created, every note it reports is a node of the link
/// graph.
pub proof fn law_created_notes_are_nodes(m: NotesModel, f: u128, w: Warned<Vec<NoteData>>)
    ensures
        forall|k: int| 0 <= k < w.output@.len() ==> create_spec(m, f, Ok(w)).nodes.contains(#[trigger] w.output@[k].id),
{
    let notes = w.output@;
    let m1 = drop_stale(m, f, file_notes(m, f), note_ids(notes));
    let m2 = NotesModel { errors: m1.errors.insert(f, Ok(w.warnings)), ids: m1.ids.insert(f, Seq::empty()), ..m1 };
    lemma_add_notes(m2, f, notes, false);
    assert forall|k: int| 0 <= k < notes.len() implies create_spec(m, f, Ok(w)).nodes.contains(#[trigger] notes[k].id) by {
        assert(note_ids(notes)[k] == notes[k].id);
    }
}

/// After a batch whose entries name distinct files, every note that the
/// batch reports is a node of the link graph.
pub proof fn law_reported_notes_are_nodes(m: NotesModel, batch: Seq<(u128, BuildResult)>)
    requires
        model_wf(m),
        distinct_files(batch),
    ensures
        forall|k: int| 0 <= k < batch_notes(batch).len()
            ==> update_spec(m, batch).nodes.contains(#[trigger] batch_notes(batch)[k].id),
{
    lemma_reported_owned(m, batch);
}

proof fn lemma_batch_files(batch: Seq<(u128, BuildResult)>, g: u128)
    requires
        forall|k: int| 0 <= k < batch.len() ==> (#[trigger] batch[k]).0 != g,
    ensures
        !batch_files(batch).contains(g),
    decreases batch.len(),
{
    if batch.len() > 0 {
        let front = batch.drop_last();
        assert forall|k: int| 0 <= k < front.len() implies (#[trigger] front[k]).0 != g by {
            assert(front[k] == batch[k]);
        }
        lemma_batch_files(front, g);
    }
}

proof fn lemma_reported_owned(m: NotesModel, batch: Seq<(u128, BuildResult)>)
    requires
        model_wf(m),
        distinct_files(batch),
    ensures
        forall|k: int| 0 <= k < batch_notes(batch).len() ==> {
            &&& update_spec(m, batch).nodes.contains(#[trigger] batch_notes(batch)[k].id)
            &&& update_spec(m, batch).owners.contains_key(batch_notes(batch)[k].id)
            &&& batch_files(batch).contains(update_spec(m, batch).owners[batch_notes(batch)[k].id])
        },
    decreases batch.len(),
{
    if batch.len() > 0 {
        let front = batch.drop_last();
        let (g, r) = batch.last();
        assert(distinct_files(front)) by {
            assert forall|i: int, j: int| 0 <= i < j < front.len() implies (#[trigger] front[i]).0 != (#[trigger] front[j]).0 by {
                assert(front[i] == batch[i] && front[j] == batch[j]);
            }
        }
        lemma_reported_owned(m, front);
        lemma_update_wf(m, front);
        assert forall|k: int| 0 <= k < front.len() implies (#[trigger] front[k]).0 != g by {
            assert(front[k] == batch[k]);
            assert(batch[k].0 != batch[batch.len() - 1].0);
        }
        lemma_batch_files(front, g);
        let m1 = update_spec(m, front);
        let prev = batch_notes(front);
        let res = update_spec(m, batch);
        assert(res == accept(m1, g, r, true));
        match r {
            Ok(w) => {
                let notes = w.output@;
                let ids = note_ids(notes);
                lemma_drop_stale(m1, g, file_notes(m1, g), ids);
                let d = drop_stale(m1, g, file_notes(m1, g), ids);
                let m2 = NotesModel { errors: d.errors.insert(g, Ok(w.warnings)), ids: d.ids.insert(g, Seq::empty()), ..d };
                lemma_add_notes(m2, g, notes, true);
                assert(batch_notes(batch) == prev + notes);
                assert forall|k: int| 0 <= k < batch_notes(batch).len() implies {
                    &&& res.nodes.contains(#[trigger] batch_notes(batch)[k].id)
                    &&& res.owners.contains_key(batch_notes(batch)[k].id)
                    &&& batch_files(batch).contains(res.owners[batch_notes(batch)[k].id])
                } by {
                    let x = batch_notes(batch)[k].id;
                    if k < prev.len() {
                        assert(batch_notes(batch)[k] == prev[k]);
                        assert(m1.owners.contains_key(x));
                        assert(m1.owners[x] != g);
                        if ids.contains(x) {
                        } else {
                            assert(d.owners.contains_key(x));
                        }
                    } else {
                        assert(batch_notes(batch)[k] == notes[k - prev.len()]);
                        assert(ids[k - prev.len()] == x);
                        assert(ids.contains(x));
                    }
                }
            },
            Err(_) => {
                assert(batch_notes(batch) == prev);
            },
        }
    }
}

/// The last note of `notes` with id `x`.
pub open spec fn last_with_id(notes: Seq<NoteData>, x: u128) -> Option<NoteData>
    decreases notes.len(),
{
    if notes.len() == 0 {
        None
    } else if notes.last().id == x {
        Some(notes.last())
    } else {
        last_with_id(notes.drop_last(), x)
    }
}

proof fn lemma_last_with_id(notes: Seq<NoteData>, x: u128)
    ensures
        last_with_id(notes, x) is Some <==> note_ids(notes).contains(x),
        last_with_id(notes, x) is Some ==> last_with_id(notes, x)->Some_0.id == x,
    decreases notes.len(),
{
    if notes.len() > 0 {
        let front = notes.drop_last();
        lemma_last_with_id(front, x);
        assert(note_ids(notes) =~= note_ids(front).push(notes.last().id));
        lemma_push_contains(note_ids(front), notes.last().id);
    }
}

/// What storing `notes` with replaced links leaves: notes not among them
/// keep their edges, title and owner; each of them has those of its last
/// occurrence.
proof fn lemma_add_notes_replace(m: NotesModel, f: u128, notes: Seq<NoteData>)
    ensures
        ({
            let r = add_notes(m, f, notes, true);
            &&& forall|e: (u128, u128)| #[trigger] r.edges.contains(e) <==> (
                (m.edges.contains(e) && !note_ids(notes).contains(e.0))
                || (last_with_id(notes, e.0) is Some && last_with_id(notes, e.0)->Some_0.links@.contains(e.1)))
            &&& forall|x: u128| #[trigger] r.titles.contains_key(x) <==> (m.titles.contains_key(x) || note_ids(notes).contains(x))
            &&& forall|x: u128| #[trigger] r.owners.contains_key(x) <==> (m.owners.contains_key(x) || note_ids(notes).contains(x))
            &&& forall|x: u128| #[trigger] r.titles[x] == if last_with_id(notes, x) is Some {
                last_with_id(notes, x)->Some_0.title
            } else {
                m.titles[x]
            }
            &&& forall|x: u128| #[trigger] r.owners[x] == if note_ids(notes).contains(x) { f } else { m.owners[x] }
            &&& r.nodes == m.nodes.union(note_ids(notes).to_set()).union(all_targets(notes))
            &&& r.fragments == m.fragments.union(note_ids(notes).to_set())
            &&& r.errors == m.errors
            &&& r.ready == m.ready
        }),
    decreases notes.len(),
{
    let r = add_notes(m, f, notes, true);
    if notes.len() == 0 {
        assert(r.nodes =~= m.nodes.union(note_ids(notes).to_set()).union(all_targets(notes)));
        assert(r.fragments =~= m.fragments.union(note_ids(notes).to_set()));
    } else {
        let front = notes.drop_last();
        let n = notes.last();
        lemma_add_notes_replace(m, f, front);
        assert(note_ids(notes) =~= note_ids(front).push(n.id));
        lemma_push_contains(note_ids(front), n.id);
        lemma_last_with_id(front, n.id);
        assert forall|t: u128| all_targets(notes).contains(t) <==> (all_targets(front).contains(t) || link_targets(n).contains(t)) by {
            if all_targets(notes).contains(t) {
                let k = choose|k: int| 0 <= k < notes.len() && (#[trigger] notes[k]).links@.contains(t);
                if k < front.len() {
                    assert(front[k] == notes[k]);
                }
            }
            if all_targets(front).contains(t) {
                let k = choose|k: int| 0 <= k < front.len() && (#[trigger] front[k]).links@.contains(t);
                assert(notes[k] == front[k]);
            }
            if link_targets(n).contains(t) {
                assert(notes[notes.len() - 1] == n);
            }
        }
        assert(r.nodes =~= m.nodes.union(note_ids(notes).to_set()).union(all_targets(notes)));
        assert(r.fragments =~= m.fragments.union(note_ids(notes).to_set()));
        assert forall|e: (u128, u128)| #[trigger] r.edges.contains(e) <==> (
            (m.edges.contains(e) && !note_ids(notes).contains(e.0))
            || (last_with_id(notes, e.0) is Some && last_with_id(notes, e.0)->Some_0.links@.contains(e.1))) by {
            lemma_last_with_id(front, e.0);
        }
    }
}

/// Rebuilding a source twice with the same result leaves the state that the
/// first rebuild left: titles, owners, note lists, reports, link graph and
/// fragments alike.
pub proof fn law_rebuild_twice(m: NotesModel, f: u128, r: BuildResult)
    ensures
        accept(accept(m, f, r, true), f, r, true) == accept(m, f, r, true),
{
    let m1 = accept(m, f, r, true);
    match r {
        Ok(w) => {
            let notes = w.output@;
            let keep = note_ids(notes);
            let d0 = drop_stale(m, f, file_notes(m, f), keep);
            let x0 = NotesModel { errors: d0.errors.insert(f, Ok(w.warnings)), ids: d0.ids.insert(f, Seq::empty()), ..d0 };
            assert(m1 == add_notes(x0, f, notes, true));
            lemma_add_notes(x0, f, notes, true);
            lemma_add_notes_replace(x0, f, notes);
            assert(m1.ids[f] =~= keep);
            lemma_keep_all(m1, f, m1.ids[f], keep);
            let x1 = NotesModel { errors: m1.errors.insert(f, Ok(w.warnings)), ids: m1.ids.insert(f, Seq::empty()), ..m1 };
            let m2 = accept(m1, f, r, true);
            assert(m2 == add_notes(x1, f, notes, true));
            lemma_add_notes(x1, f, notes, true);
            lemma_add_notes_replace(x1, f, notes);
            assert(m2.nodes =~= m1.nodes);
            assert(m2.fragments =~= m1.fragments);
            assert(m2.edges =~= m1.edges);
            assert(m2.titles =~= m1.titles);
            assert(m2.owners =~= m1.owners);
            assert(m2.ids =~= m1.ids);
            assert(m2.errors =~= m1.errors);
        },
        Err(d) => {
            assert(accept(m1, f, r, true).errors =~= m1.errors);
        },
    }
}

/// Sending the same one-source batch twice leaves the state that the first
/// one left, so a later snapshot sees no difference.
pub proof fn law_update_twice(m: NotesModel, f: u128, r: BuildResult)
    ensures
        update_spec(update_spec(m, seq![(f, r)]), seq![(f, r)]) == update_spec(m, seq![(f, r)]),
{
    let b = seq![(f, r)];
    assert(b.len() == 1);
    assert(b.last() == (f, r));
    assert(b.drop_last() =~= Seq::<(u128, BuildResult)>::empty());
    assert(update_spec(m, b.drop_last()) == m);
    assert(update_spec(m, b) == accept(m, f, r, true));
    let m1 = accept(m, f, r, true);
    assert(update_spec(m1, b.drop_last()) == m1);
    assert(update_spec(m1, b) == accept(m1, f, r, true));
    law_rebuild_twice(m, f, r);
}

proof fn lemma_keep_all(m: NotesModel, f: u128, old: Seq<u128>, keep: Seq<u128>)
    requires
        forall|x: u128| old.contains(x) ==> keep.contains(x),
    ensures
        drop_stale(m, f, old, keep) == m,
    decreases old.len(),
{
    if old.len() > 0 {
        let front = old.drop_last();
        assert forall|x: u128| front.contains(x) implies keep.contains(x) by {
            let j = choose|j: int| 0 <= j < front.len() && front[j] == x;
            assert(old[j] == x);
        }
        lemma_keep_all(m, f, front, keep);
        assert(old[old.len() - 1] == old.last());
        assert(old.contains(old.last()));
    }
}

} // verus!
