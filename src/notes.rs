//! The notes service state: the note link graph, the title and owner
//! indexes, the notes of each source file and the latest build report of
//! each source file.
//!
//! The state does no I/O. Each change returns the fragment files that are
//! to be deleted and the updates that are to be broadcast; its owner carries
//! them out.

use vstd::prelude::*;
use std::collections::HashMap;
use crate::digraph::{
    KeyGraph, graph_nodes, graph_edges, edges_without_node, successors, graph_new,
    graph_add_node, graph_add_edge, graph_remove_edge, graph_remove_node, graph_contains_node,
    graph_successors, graph_edge_list, graph_node_list,
};

verus! {

broadcast use vstd::std_specs::hash::group_hash_axioms;

/// One note as a build reports it.
#[derive(Clone, Debug)]
pub struct NoteData {
    pub title: String,
    pub id: u128,
    pub links: Vec<u128>,
}

/// A build output together with the warnings the compiler raised.
pub struct Warned<T> {
    pub output: T,
    pub warnings: Vec<String>,
}

/// What a build of one source file gave: its notes, or its diagnostics.
pub type BuildResult = Result<Warned<Vec<NoteData>>, Vec<String>>;

/// The stored report of a source file: its warnings, or its diagnostics.
pub type BuildStatus = Result<Vec<String>, Vec<String>>;

/// A change that subscribers are told about.
#[derive(Clone, Debug)]
pub enum NoteUpdate {
    Update(Vec<NoteData>),
    Remove(Vec<u128>),
}

/// The picture of the note graph that a new subscriber starts from.
pub struct Initialize {
    pub outgoing_links: HashMap<u128, Vec<u128>>,
    pub titles: HashMap<u128, String>,
}

/// What the owner of the state has to carry out after a change: fragment
/// files to delete, then updates to broadcast.
pub struct Effects {
    pub delete: Vec<u128>,
    pub broadcast: Vec<NoteUpdate>,
}

/// The mathematical picture of the notes service.
pub struct NotesModel {
    pub nodes: Set<u128>,
    pub edges: Set<(u128, u128)>,
    pub titles: Map<u128, String>,
    pub owners: Map<u128, u128>,
    pub ids: Map<u128, Seq<u128>>,
    pub errors: Map<u128, BuildStatus>,
    pub ready: bool,
    /// The notes whose fragment file stands in the build directory.
    pub fragments: Set<u128>,
}

pub open spec fn ids_view(m: Map<u128, Vec<u128>>) -> Map<u128, Seq<u128>> {
    m.map_values(|v: Vec<u128>| v@)
}

/// The notes recorded for file `f`, none if it has no entry.
pub open spec fn file_notes(m: NotesModel, f: u128) -> Seq<u128> {
    if m.ids.contains_key(f) {
        m.ids[f]
    } else {
        Seq::empty()
    }
}

pub open spec fn link_targets(n: NoteData) -> Set<u128> {
    Set::new(|t: u128| n.links@.contains(t))
}

pub open spec fn link_edges(n: NoteData) -> Set<(u128, u128)> {
    Set::new(|e: (u128, u128)| e.0 == n.id && n.links@.contains(e.1))
}

/// The ids of a list of notes, in order.
pub open spec fn note_ids(notes: Seq<NoteData>) -> Seq<u128> {
    notes.map_values(|n: NoteData| n.id)
}

/// Records note `n` as owned by `f`. With `replace`, the note's earlier
/// outgoing links are dropped first.
pub open spec fn add_note(m: NotesModel, f: u128, n: NoteData, replace: bool) -> NotesModel {
    let kept = if replace {
        m.edges.filter(|e: (u128, u128)| e.0 != n.id)
    } else {
        m.edges
    };
    NotesModel {
        nodes: m.nodes.insert(n.id).union(link_targets(n)),
        edges: kept.union(link_edges(n)),
        titles: m.titles.insert(n.id, n.title),
        owners: m.owners.insert(n.id, f),
        ids: m.ids.insert(f, file_notes(m, f).push(n.id)),
        fragments: m.fragments.insert(n.id),
        ..m
    }
}

pub open spec fn add_notes(m: NotesModel, f: u128, notes: Seq<NoteData>, replace: bool) -> NotesModel
    decreases notes.len(),
{
    if notes.len() == 0 {
        m
    } else {
        add_note(add_notes(m, f, notes.drop_last(), replace), f, notes.last(), replace)
    }
}

/// Forgets note `x`: its title, owner, graph node and fragment.
pub open spec fn drop_note(m: NotesModel, x: u128) -> NotesModel {
    NotesModel {
        nodes: m.nodes.remove(x),
        edges: edges_without_node(m.edges, x),
        titles: m.titles.remove(x),
        owners: m.owners.remove(x),
        fragments: m.fragments.remove(x),
        ..m
    }
}

pub open spec fn is_stale(m: NotesModel, f: u128, x: u128, keep: Seq<u128>) -> bool {
    m.owners.contains_key(x) && m.owners[x] == f && !keep.contains(x)
}

/// Forgets each note of `old` that `f` still owns and that `keep` does not hold.
pub open spec fn drop_stale(m: NotesModel, f: u128, old: Seq<u128>, keep: Seq<u128>) -> NotesModel
    decreases old.len(),
{
    if old.len() == 0 {
        m
    } else {
        let m1 = drop_stale(m, f, old.drop_last(), keep);
        if is_stale(m1, f, old.last(), keep) {
            drop_note(m1, old.last())
        } else {
            m1
        }
    }
}

/// The notes that `drop_stale` forgets, in order.
pub open spec fn stale_ids(m: NotesModel, f: u128, old: Seq<u128>, keep: Seq<u128>) -> Seq<u128>
    decreases old.len(),
{
    if old.len() == 0 {
        Seq::empty()
    } else {
        let m1 = drop_stale(m, f, old.drop_last(), keep);
        let d = stale_ids(m, f, old.drop_last(), keep);
        if is_stale(m1, f, old.last(), keep) {
            d.push(old.last())
        } else {
            d
        }
    }
}

/// Stores a build result of `f`: on success its warnings and its notes, on
/// failure its diagnostics alone.
pub open spec fn record(m: NotesModel, f: u128, r: BuildResult, replace: bool) -> NotesModel {
    match r {
        Ok(w) => add_notes(
            NotesModel { errors: m.errors.insert(f, Ok(w.warnings)), ids: m.ids.insert(f, Seq::empty()), ..m },
            f,
            w.output@,
            replace,
        ),
        Err(d) => NotesModel { errors: m.errors.insert(f, Err(d)), ..m },
    }
}

/// The note ids that a result reports: the notes its file keeps.
pub open spec fn create_keep(r: BuildResult) -> Seq<u128> {
    match r {
        Ok(w) => note_ids(w.output@),
        Err(_) => Seq::empty(),
    }
}

/// Stores a build result of `f`: on success the notes that `f` owned and
/// no longer reports are dropped, then the result is recorded.
pub open spec fn accept(m: NotesModel, f: u128, r: BuildResult, replace: bool) -> NotesModel {
    if r is Ok {
        record(drop_stale(m, f, file_notes(m, f), create_keep(r)), f, r, replace)
    } else {
        record(m, f, r, replace)
    }
}

/// The notes that `accept` drops, in order.
pub open spec fn accept_dropped(m: NotesModel, f: u128, r: BuildResult) -> Seq<u128> {
    if r is Ok {
        stale_ids(m, f, file_notes(m, f), create_keep(r))
    } else {
        Seq::empty()
    }
}

pub open spec fn create_spec(m: NotesModel, f: u128, r: BuildResult) -> NotesModel {
    accept(m, f, r, false)
}

pub open spec fn update_spec(m: NotesModel, batch: Seq<(u128, BuildResult)>) -> NotesModel
    decreases batch.len(),
{
    if batch.len() == 0 {
        m
    } else {
        accept(update_spec(m, batch.drop_last()), batch.last().0, batch.last().1, true)
    }
}

pub open spec fn update_dropped(m: NotesModel, batch: Seq<(u128, BuildResult)>) -> Seq<u128>
    decreases batch.len(),
{
    if batch.len() == 0 {
        Seq::empty()
    } else {
        update_dropped(m, batch.drop_last()) + accept_dropped(
            update_spec(m, batch.drop_last()),
            batch.last().0,
            batch.last().1,
        )
    }
}

/// The notes that the successful entries of a batch report, in order.
pub open spec fn batch_notes(batch: Seq<(u128, BuildResult)>) -> Seq<NoteData>
    decreases batch.len(),
{
    if batch.len() == 0 {
        Seq::empty()
    } else {
        let rest = batch_notes(batch.drop_last());
        match batch.last().1 {
            Ok(w) => rest + w.output@,
            Err(_) => rest,
        }
    }
}

pub open spec fn drop_all(m: NotesModel, xs: Seq<u128>) -> NotesModel
    decreases xs.len(),
{
    if xs.len() == 0 {
        m
    } else {
        drop_note(drop_all(m, xs.drop_last()), xs.last())
    }
}

pub open spec fn remove_spec(m: NotesModel, f: u128) -> NotesModel {
    let m0 = NotesModel { errors: m.errors.remove(f), ..m };
    if m.ids.contains_key(f) {
        let m1 = drop_all(m0, m.ids[f]);
        NotesModel { ids: m1.ids.remove(f), ..m1 }
    } else {
        m0
    }
}

/// `e` deletes the fragments of `dropped` and broadcasts, in order, their
/// removal (when there are any) and then `update` (when there is one).
pub open spec fn effects_are(e: Effects, dropped: Seq<u128>, update: Option<Seq<NoteData>>) -> bool {
    let removes: int = if dropped.len() > 0 { 1 } else { 0 };
    let updates: int = if update is Some { 1 } else { 0 };
    &&& e.delete@ == dropped
    &&& e.broadcast@.len() == removes + updates
    &&& dropped.len() > 0 ==> e.broadcast@[0] is Remove && e.broadcast@[0]->Remove_0@ == dropped
    &&& update is Some ==> e.broadcast@[removes] is Update && e.broadcast@[removes]->Update_0@ == update->Some_0
}

/// The broadcast that follows a change reporting `notes`: only once the
/// initial build finished, and only when there is something to report.
pub open spec fn gated_update(ready: bool, notes: Seq<NoteData>) -> Option<Seq<NoteData>> {
    if ready && notes.len() > 0 {
        Some(notes)
    } else {
        None
    }
}

pub open spec fn result_notes(r: BuildResult) -> Seq<NoteData> {
    match r {
        Ok(w) => w.output@,
        Err(_) => Seq::empty(),
    }
}

/// The service's own invariant on notes: edges join nodes, and every owned
/// note has a title, a graph node and a fragment, and is listed under its
/// owner.
pub open spec fn core_wf(m: NotesModel) -> bool {
    &&& forall|e: (u128, u128)| #[trigger] m.edges.contains(e) ==> m.nodes.contains(e.0) && m.nodes.contains(e.1)
    &&& m.titles.dom() == m.owners.dom()
    &&& forall|x: u128| #[trigger] m.owners.contains_key(x) ==> {
        &&& m.nodes.contains(x)
        &&& m.fragments.contains(x)
        &&& m.ids.contains_key(m.owners[x])
        &&& m.ids[m.owners[x]].contains(x)
    }
}

/// Every file with a note list has a build report.
pub open spec fn reports_wf(m: NotesModel) -> bool {
    forall|f: u128| #[trigger] m.ids.contains_key(f) ==> m.errors.contains_key(f)
}

pub open spec fn model_wf(m: NotesModel) -> bool {
    core_wf(m) && reports_wf(m)
}

pub proof fn lemma_push_contains<A>(s: Seq<A>, v: A)
    ensures
        forall|x: A| #[trigger] s.push(v).contains(x) <==> (s.contains(x) || x == v),
{
    assert forall|x: A| #[trigger] s.push(v).contains(x) <==> (s.contains(x) || x == v) by {
        let t = s.push(v);
        if t.contains(x) {
            let j = choose|j: int| 0 <= j < t.len() && t[j] == x;
            if j < s.len() {
                assert(s[j] == x);
            }
        }
        if s.contains(x) {
            let j = choose|j: int| 0 <= j < s.len() && s[j] == x;
            assert(t[j] == x);
        }
        if x == v {
            assert(t[s.len() as int] == x);
        }
    }
}

pub proof fn lemma_drop_note_wf(m: NotesModel, x: u128)
    requires
        core_wf(m),
    ensures
        core_wf(drop_note(m, x)),
{
    let r = drop_note(m, x);
    assert forall|e: (u128, u128)| #[trigger] r.edges.contains(e) implies r.nodes.contains(e.0) && r.nodes.contains(e.1) by {
        assert(m.edges.contains(e));
    }
    assert(r.titles.dom() =~= r.owners.dom());
    assert forall|y: u128| #[trigger] r.owners.contains_key(y) implies {
        &&& r.nodes.contains(y)
        &&& r.fragments.contains(y)
        &&& r.ids.contains_key(r.owners[y])
        &&& r.ids[r.owners[y]].contains(y)
    } by {
        assert(m.owners.contains_key(y));
    }
}

pub proof fn lemma_drop_stale(m: NotesModel, f: u128, old: Seq<u128>, keep: Seq<u128>)
    requires
        core_wf(m),
    ensures
        core_wf(drop_stale(m, f, old, keep)),
        drop_stale(m, f, old, keep).ids == m.ids,
        drop_stale(m, f, old, keep).errors == m.errors,
        drop_stale(m, f, old, keep).ready == m.ready,
        forall|x: u128| #[trigger] drop_stale(m, f, old, keep).owners.contains_key(x)
            ==> m.owners.contains_key(x) && drop_stale(m, f, old, keep).owners[x] == m.owners[x],
        forall|x: u128| #[trigger] drop_stale(m, f, old, keep).owners.contains_key(x)
            && drop_stale(m, f, old, keep).owners[x] == f && !keep.contains(x) ==> !old.contains(x),
        forall|y: u128| #[trigger] m.owners.contains_key(y) && m.owners[y] != f
            ==> drop_stale(m, f, old, keep).owners.contains_key(y) && drop_stale(m, f, old, keep).nodes.contains(y),
        forall|y: u128| #[trigger] drop_stale(m, f, old, keep).fragments.contains(y) ==> m.fragments.contains(y),
        forall|e: (u128, u128)| #[trigger] drop_stale(m, f, old, keep).edges.contains(e) ==> m.edges.contains(e),
    decreases old.len(),
{
    if old.len() > 0 {
        let front = old.drop_last();
        let y = old.last();
        lemma_drop_stale(m, f, front, keep);
        let m1 = drop_stale(m, f, front, keep);
        let r = drop_stale(m, f, old, keep);
        if is_stale(m1, f, y, keep) {
            lemma_drop_note_wf(m1, y);
        }
        assert(old =~= front.push(y));
        lemma_push_contains(front, y);
        assert forall|x: u128| #[trigger] r.owners.contains_key(x) && r.owners[x] == f && !keep.contains(x)
            implies !old.contains(x) by {
            assert(m1.owners.contains_key(x));
        }
    }
}

pub proof fn lemma_drop_all(m: NotesModel, xs: Seq<u128>)
    requires
        core_wf(m),
    ensures
        core_wf(drop_all(m, xs)),
        drop_all(m, xs).ids == m.ids,
        drop_all(m, xs).errors == m.errors,
        drop_all(m, xs).ready == m.ready,
        forall|x: u128| #[trigger] drop_all(m, xs).owners.contains_key(x)
            ==> m.owners.contains_key(x) && drop_all(m, xs).owners[x] == m.owners[x] && !xs.contains(x),
    decreases xs.len(),
{
    if xs.len() > 0 {
        let front = xs.drop_last();
        lemma_drop_all(m, front);
        lemma_drop_note_wf(drop_all(m, front), xs.last());
        assert(xs =~= front.push(xs.last()));
        lemma_push_contains(front, xs.last());
    }
}

pub proof fn lemma_add_notes(m: NotesModel, f: u128, notes: Seq<NoteData>, replace: bool)
    requires
        m.ids.contains_key(f),
    ensures
        ({
            let r = add_notes(m, f, notes, replace);
            &&& r.ids == m.ids.insert(f, m.ids[f] + note_ids(notes))
            &&& r.errors == m.errors
            &&& r.ready == m.ready
            &&& forall|x: u128| #[trigger] r.owners.contains_key(x)
                <==> (m.owners.contains_key(x) || note_ids(notes).contains(x))
            &&& forall|x: u128| #[trigger] r.titles.contains_key(x)
                <==> (m.titles.contains_key(x) || note_ids(notes).contains(x))
            &&& forall|x: u128| note_ids(notes).contains(x) ==> #[trigger] r.owners[x] == f
            &&& forall|x: u128| m.owners.contains_key(x) && !note_ids(notes).contains(x)
                ==> #[trigger] r.owners[x] == m.owners[x]
            &&& forall|x: u128| m.nodes.contains(x) || note_ids(notes).contains(x) ==> #[trigger] r.nodes.contains(x)
            &&& forall|x: u128| #[trigger] r.fragments.contains(x)
                <==> (m.fragments.contains(x) || note_ids(notes).contains(x))
            &&& (forall|e: (u128, u128)| #[trigger] m.edges.contains(e) ==> m.nodes.contains(e.0) && m.nodes.contains(e.1))
                ==> (forall|e: (u128, u128)| #[trigger] r.edges.contains(e) ==> r.nodes.contains(e.0) && r.nodes.contains(e.1))
        }),
    decreases notes.len(),
{
    if notes.len() == 0 {
        assert(m.ids[f] + note_ids(notes) =~= m.ids[f]);
        assert(m.ids.insert(f, m.ids[f]) =~= m.ids);
    } else {
        let front = notes.drop_last();
        let n = notes.last();
        lemma_add_notes(m, f, front, replace);
        let r1 = add_notes(m, f, front, replace);
        assert(note_ids(notes) =~= note_ids(front).push(n.id));
        lemma_push_contains(note_ids(front), n.id);
        assert(m.ids[f] + note_ids(notes) =~= (m.ids[f] + note_ids(front)).push(n.id));
        let r = add_notes(m, f, notes, replace);
        assert(r.ids =~= m.ids.insert(f, m.ids[f] + note_ids(notes)));
        if forall|e: (u128, u128)| #[trigger] m.edges.contains(e) ==> m.nodes.contains(e.0) && m.nodes.contains(e.1) {
            assert forall|e: (u128, u128)| #[trigger] r.edges.contains(e) implies r.nodes.contains(e.0) && r.nodes.contains(e.1) by {
                if r1.edges.contains(e) {
                } else {
                    assert(link_edges(n).contains(e));
                    assert(link_targets(n).contains(e.1));
                }
            }
        }
    }
}

/// Accepting a build result keeps the invariant; a success adds its file
/// to the listed files and every result stores a report.
pub proof fn lemma_accept_wf(m: NotesModel, f: u128, r: BuildResult, replace: bool)
    requires
        model_wf(m),
    ensures
        model_wf(accept(m, f, r, replace)),
        accept(m, f, r, replace).ids.dom() == (if r is Ok { m.ids.dom().insert(f) } else { m.ids.dom() }),
        accept(m, f, r, replace).errors.dom() == m.errors.dom().insert(f),
        accept(m, f, r, replace).ready == m.ready,
{
    let a = accept(m, f, r, replace);
    match r {
        Ok(w) => {
            let keep = note_ids(w.output@);
            lemma_drop_stale(m, f, file_notes(m, f), keep);
            let m1 = drop_stale(m, f, file_notes(m, f), keep);
            let m2 = NotesModel { errors: m1.errors.insert(f, Ok(w.warnings)), ids: m1.ids.insert(f, Seq::empty()), ..m1 };
            lemma_add_notes(m2, f, w.output@, replace);
            assert(a == add_notes(m2, f, w.output@, replace));
            assert(a.titles.dom() =~= a.owners.dom());
            assert forall|x: u128| #[trigger] a.owners.contains_key(x) implies {
                &&& a.nodes.contains(x)
                &&& a.fragments.contains(x)
                &&& a.ids.contains_key(a.owners[x])
                &&& a.ids[a.owners[x]].contains(x)
            } by {
                if keep.contains(x) {
                    assert(a.ids[f] =~= Seq::<u128>::empty() + keep);
                } else {
                    assert(m1.owners.contains_key(x));
                    let g = m1.owners[x];
                    assert(m.owners[x] == g);
                    if g == f {
                        assert(m.ids.contains_key(f));
                        assert(file_notes(m, f).contains(x));
                    }
                }
            }
            assert(a.ids.dom() =~= m.ids.dom().insert(f));
            assert(a.errors.dom() =~= m.errors.dom().insert(f));
        },
        Err(d) => {
            assert(a.errors.dom() =~= m.errors.dom().insert(f));
        },
    }
}

/// Removing a source keeps the invariant, and drops its note list and report.
pub proof fn lemma_remove_wf(m: NotesModel, f: u128)
    requires
        model_wf(m),
    ensures
        model_wf(remove_spec(m, f)),
        remove_spec(m, f).ids.dom() == m.ids.dom().remove(f),
        remove_spec(m, f).errors.dom() == m.errors.dom().remove(f),
        remove_spec(m, f).ready == m.ready,
{
    let m0 = NotesModel { errors: m.errors.remove(f), ..m };
    let a = remove_spec(m, f);
    if m.ids.contains_key(f) {
        lemma_drop_all(m0, m.ids[f]);
        let m1 = drop_all(m0, m.ids[f]);
        assert forall|x: u128| #[trigger] a.owners.contains_key(x) implies {
            &&& a.nodes.contains(x)
            &&& a.fragments.contains(x)
            &&& a.ids.contains_key(a.owners[x])
            &&& a.ids[a.owners[x]].contains(x)
        } by {
            assert(m1.owners.contains_key(x));
            assert(m.owners[x] != f);
        }
    }
    assert(a.ids.dom() =~= m.ids.dom().remove(f));
    assert(a.errors.dom() =~= m.errors.dom().remove(f));
}

/// The files whose entries in a batch succeeded.
pub open spec fn ok_files(batch: Seq<(u128, BuildResult)>) -> Set<u128>
    decreases batch.len(),
{
    if batch.len() == 0 {
        Set::empty()
    } else if batch.last().1 is Ok {
        ok_files(batch.drop_last()).insert(batch.last().0)
    } else {
        ok_files(batch.drop_last())
    }
}

/// The files of all entries of a batch.
pub open spec fn batch_files(batch: Seq<(u128, BuildResult)>) -> Set<u128>
    decreases batch.len(),
{
    if batch.len() == 0 {
        Set::empty()
    } else {
        batch_files(batch.drop_last()).insert(batch.last().0)
    }
}

/// Storing a batch keeps the invariant; the files of its successful entries
/// join the listed files and every entry stores a report.
pub proof fn lemma_update_wf(m: NotesModel, batch: Seq<(u128, BuildResult)>)
    requires
        model_wf(m),
    ensures
        model_wf(update_spec(m, batch)),
        update_spec(m, batch).ids.dom() == m.ids.dom().union(ok_files(batch)),
        update_spec(m, batch).errors.dom() == m.errors.dom().union(batch_files(batch)),
        update_spec(m, batch).ready == m.ready,
    decreases batch.len(),
{
    if batch.len() == 0 {
        assert(m.ids.dom().union(ok_files(batch)) =~= m.ids.dom());
        assert(m.errors.dom().union(batch_files(batch)) =~= m.errors.dom());
    } else {
        lemma_update_wf(m, batch.drop_last());
        lemma_accept_wf(update_spec(m, batch.drop_last()), batch.last().0, batch.last().1, true);
        assert(update_spec(m, batch).ids.dom() =~= m.ids.dom().union(ok_files(batch)));
        assert(update_spec(m, batch).errors.dom() =~= m.errors.dom().union(batch_files(batch)));
    }
}

pub struct NotesServiceState {
    links: KeyGraph,
    titles: HashMap<u128, String>,
    file_ids: HashMap<u128, u128>,
    ids: HashMap<u128, Vec<u128>>,
    errors: HashMap<u128, BuildStatus>,
    build_finished: bool,
    fragments: Ghost<Set<u128>>,
}

impl View for NotesServiceState {
    type V = NotesModel;

    closed spec fn view(&self) -> NotesModel {
        NotesModel {
            nodes: graph_nodes(self.links),
            edges: graph_edges(self.links),
            titles: self.titles@,
            owners: self.file_ids@,
            ids: ids_view(self.ids@),
            errors: self.errors@,
            ready: self.build_finished,
            fragments: self.fragments@,
        }
    }
}

impl NotesServiceState {
    pub open spec fn wf(&self) -> bool {
        model_wf(self@)
    }

    /// An empty service, not yet told that the initial build finished.
    pub fn new() -> (s: Self)
        ensures
            s.wf(),
            s@.nodes.is_empty(),
            s@.edges.is_empty(),
            s@.titles.is_empty(),
            s@.owners.is_empty(),
            s@.ids.is_empty(),
            s@.errors.is_empty(),
            !s@.ready,
            s@.fragments.is_empty(),
    {
        let s = NotesServiceState {
            links: graph_new(),
            titles: HashMap::new(),
            file_ids: HashMap::new(),
            ids: HashMap::new(),
            errors: HashMap::new(),
            build_finished: false,
            fragments: Ghost(Set::empty()),
        };
        assert(s@.ids =~= Map::empty());
        s
    }
}

/// Whether `x` occurs in `v`.
fn contains_id(v: &Vec<u128>, x: u128) -> (r: bool)
    ensures
        r == v@.contains(x),
{
    let mut k: usize = 0;
    while k < v.len()
        invariant
            k <= v@.len(),
            forall|j: int| 0 <= j < k ==> v@[j] != x,
        decreases v@.len() - k,
    {
        if v[k] == x {
            return true;
        }
        k += 1;
    }
    false
}

/// Drops every edge that leaves `n`.
fn drop_out_edges(g: &mut KeyGraph, n: u128)
    ensures
        graph_nodes(*final(g)) == graph_nodes(*old(g)),
        graph_edges(*final(g)) == graph_edges(*old(g)).filter(|e: (u128, u128)| e.0 != n),
{
    let succ = graph_successors(g, n);
    let ghost e0 = graph_edges(*g);
    let ghost n0 = graph_nodes(*g);
    let mut k: usize = 0;
    while k < succ.len()
        invariant
            k <= succ@.len(),
            succ@.to_set() == successors(e0, n),
            graph_nodes(*g) == n0,
            graph_edges(*g) == e0.filter(|e: (u128, u128)| !(e.0 == n && succ@.take(k as int).contains(e.1))),
        decreases succ@.len() - k,
    {
        let t = succ[k];
        graph_remove_edge(g, n, t);
        proof {
            let next = succ@.take(k as int + 1);
            assert(next =~= succ@.take(k as int).push(t));
            assert forall|x: u128| next.contains(x) <==> (succ@.take(k as int).contains(x) || x == t) by {
                if next.contains(x) {
                    let j = choose|j: int| 0 <= j < next.len() && next[j] == x;
                    if j < k {
                        assert(succ@.take(k as int)[j] == x);
                    }
                }
                if succ@.take(k as int).contains(x) {
                    let j = choose|j: int| 0 <= j < k && succ@.take(k as int)[j] == x;
                    assert(next[j] == x);
                }
                if x == t {
                    assert(next[k as int] == x);
                }
            }
            assert(graph_edges(*g) =~= e0.filter(|e: (u128, u128)| !(e.0 == n && next.contains(e.1))));
        }
        k += 1;
    }
    proof {
        assert(succ@.take(succ@.len() as int) =~= succ@);
        assert forall|e: (u128, u128)| e0.contains(e) && e.0 == n implies succ@.contains(e.1) by {
            assert(successors(e0, n).contains(e.1));
            assert(succ@.to_set().contains(e.1));
        }
        assert(graph_edges(*g) =~= e0.filter(|e: (u128, u128)| e.0 != n));
    }
}

/// Adds the note's node and an edge from it to each of its link targets.
fn add_out_edges(g: &mut KeyGraph, n: &NoteData)
    ensures
        graph_nodes(*final(g)) == graph_nodes(*old(g)).insert(n.id).union(link_targets(*n)),
        graph_edges(*final(g)) == graph_edges(*old(g)).union(link_edges(*n)),
{
    graph_add_node(g, n.id);
    let ghost e0 = graph_edges(*g);
    let ghost n0 = graph_nodes(*g);
    let mut k: usize = 0;
    while k < n.links.len()
        invariant
            k <= n.links@.len(),
            n0.contains(n.id),
            graph_nodes(*g) == n0.union(Set::new(|t: u128| n.links@.take(k as int).contains(t))),
            graph_edges(*g) == e0.union(
                Set::new(|e: (u128, u128)| e.0 == n.id && n.links@.take(k as int).contains(e.1)),
            ),
        decreases n.links@.len() - k,
    {
        let t = n.links[k];
        graph_add_edge(g, n.id, t);
        proof {
            let cur = n.links@.take(k as int);
            let next = n.links@.take(k as int + 1);
            assert forall|x: u128| next.contains(x) <==> (cur.contains(x) || x == t) by {
                if next.contains(x) {
                    let j = choose|j: int| 0 <= j < next.len() && next[j] == x;
                    if j < k {
                        assert(cur[j] == x);
                    }
                }
                if cur.contains(x) {
                    let j = choose|j: int| 0 <= j < k && cur[j] == x;
                    assert(next[j] == x);
                }
                if x == t {
                    assert(next[k as int] == x);
                }
            }
            assert(graph_nodes(*g) =~= n0.union(Set::new(|t: u128| next.contains(t))));
            assert(graph_edges(*g) =~= e0.union(
                Set::new(|e: (u128, u128)| e.0 == n.id && next.contains(e.1)),
            ));
        }
        k += 1;
    }
    proof {
        assert(n.links@.take(n.links@.len() as int) =~= n.links@);
        assert(graph_nodes(*g) =~= n0.union(link_targets(*n)));
        assert(graph_edges(*g) =~= e0.union(link_edges(*n)));
    }
}

impl NotesServiceState {
    /// The notes recorded for file `f`.
    fn notes_of(&self, f: u128) -> (r: Vec<u128>)
        ensures
            r@ == file_notes(self@, f),
    {
        match self.ids.get(&f) {
            Some(v) => v.clone(),
            None => Vec::new(),
        }
    }

    fn forget_note(&mut self, x: u128)
        ensures
            final(self)@ == drop_note(old(self)@, x),
    {
        self.titles.remove(&x);
        self.file_ids.remove(&x);
        graph_remove_node(&mut self.links, x);
        self.fragments = Ghost(self.fragments@.remove(x));
        assert(final(self)@.titles =~= drop_note(old(self)@, x).titles);
    }

    fn forget_stale(&mut self, f: u128, listed: &Vec<u128>, keep: &Vec<u128>, dropped: &mut Vec<u128>)
        ensures
            final(self)@ == drop_stale(old(self)@, f, listed@, keep@),
            final(dropped)@ == old(dropped)@ + stale_ids(old(self)@, f, listed@, keep@),
    {
        let ghost m = self@;
        let ghost d0 = dropped@;
        let mut k: usize = 0;
        while k < listed.len()
            invariant
                k <= listed@.len(),
                self@ == drop_stale(m, f, listed@.take(k as int), keep@),
                dropped@ == d0 + stale_ids(m, f, listed@.take(k as int), keep@),
            decreases listed@.len() - k,
        {
            let x = listed[k];
            proof {
                assert(listed@.take(k as int + 1).drop_last() =~= listed@.take(k as int));
            }
            let owned = match self.file_ids.get(&x) {
                Some(o) => *o == f,
                None => false,
            };
            if owned && !contains_id(keep, x) {
                self.forget_note(x);
                dropped.push(x);
                proof {
                    assert(dropped@ =~= d0 + stale_ids(m, f, listed@.take(k as int + 1), keep@));
                }
            }
            k += 1;
        }
        proof {
            assert(listed@.take(listed@.len() as int) =~= listed@);
        }
    }

    /// Records note `n` as owned by `f`; with `replace`, its earlier
    /// outgoing links go first.
    fn add_note(&mut self, f: u128, n: &NoteData, replace: bool)
        ensures
            final(self)@ == add_note(old(self)@, f, *n, replace),
    {
        let ghost m = self@;
        if replace {
            drop_out_edges(&mut self.links, n.id);
        }
        add_out_edges(&mut self.links, n);
        self.titles.insert(n.id, n.title.clone());
        self.file_ids.insert(n.id, f);
        let mut listed = match self.ids.remove(&f) {
            Some(v) => v,
            None => Vec::new(),
        };
        listed.push(n.id);
        self.ids.insert(f, listed);
        self.fragments = Ghost(self.fragments@.insert(n.id));
        proof {
            let want = add_note(m, f, *n, replace);
            assert(self@.nodes =~= want.nodes);
            assert(self@.edges =~= want.edges);
            assert(self@.ids =~= want.ids);
        }
    }

    fn add_notes(&mut self, f: u128, notes: &Vec<NoteData>, replace: bool)
        ensures
            final(self)@ == add_notes(old(self)@, f, notes@, replace),
    {
        let ghost m = self@;
        let mut k: usize = 0;
        while k < notes.len()
            invariant
                k <= notes@.len(),
                self@ == add_notes(m, f, notes@.take(k as int), replace),
            decreases notes@.len() - k,
        {
            proof {
                assert(notes@.take(k as int + 1).drop_last() =~= notes@.take(k as int));
            }
            self.add_note(f, &notes[k], replace);
            k += 1;
        }
        proof {
            assert(notes@.take(notes@.len() as int) =~= notes@);
        }
    }

    /// Stores one build result of `f` (without dropping stale notes) and
    /// hands back the notes it reported.
    fn record(&mut self, f: u128, result: BuildResult, replace: bool) -> (out: Vec<NoteData>)
        ensures
            final(self)@ == record(old(self)@, f, result, replace),
            out@ == match result {
                Ok(w) => w.output@,
                Err(_) => Seq::empty(),
            },
    {
        match result {
            Ok(w) => {
                let Warned { output, warnings } = w;
                let ghost m = self@;
                self.errors.insert(f, Ok(warnings));
                self.ids.insert(f, Vec::new());
                proof {
                    assert(self@.ids =~= m.ids.insert(f, Seq::empty()));
                }
                self.add_notes(f, &output, replace);
                output
            },
            Err(d) => {
                self.errors.insert(f, Err(d));
                Vec::new()
            },
        }
    }
}

proof fn lemma_drop_all_keeps(m: NotesModel, xs: Seq<u128>)
    ensures
        drop_all(m, xs).ids == m.ids,
        drop_all(m, xs).errors == m.errors,
        drop_all(m, xs).ready == m.ready,
    decreases xs.len(),
{
    if xs.len() > 0 {
        lemma_drop_all_keeps(m, xs.drop_last());
    }
}

fn copy_ids(v: &Vec<u128>) -> (r: Vec<u128>)
    ensures
        r@ == v@,
{
    let mut r: Vec<u128> = Vec::new();
    let mut k: usize = 0;
    while k < v.len()
        invariant
            k <= v@.len(),
            r@ == v@.take(k as int),
        decreases v@.len() - k,
    {
        r.push(v[k]);
        proof {
            assert(r@ =~= v@.take(k as int + 1));
        }
        k += 1;
    }
    proof {
        assert(v@.take(v@.len() as int) =~= v@);
    }
    r
}

/// Appends the ids of `notes` to `ids`.
fn push_note_ids(ids: &mut Vec<u128>, notes: &Vec<NoteData>)
    ensures
        final(ids)@ == old(ids)@ + note_ids(notes@),
{
    let ghost start = ids@;
    let mut k: usize = 0;
    while k < notes.len()
        invariant
            k <= notes@.len(),
            ids@ == start + note_ids(notes@.take(k as int)),
        decreases notes@.len() - k,
    {
        ids.push(notes[k].id);
        proof {
            assert(ids@ =~= start + note_ids(notes@.take(k as int + 1)));
        }
        k += 1;
    }
    proof {
        assert(notes@.take(notes@.len() as int) =~= notes@);
    }
}

fn effects(dropped: Vec<u128>, update: Option<Vec<NoteData>>) -> (e: Effects)
    ensures
        effects_are(e, dropped@, match update {
            Some(v) => Some(v@),
            None => None,
        }),
{
    let mut broadcast: Vec<NoteUpdate> = Vec::new();
    if dropped.len() > 0 {
        broadcast.push(NoteUpdate::Remove(copy_ids(&dropped)));
    }
    match update {
        Some(v) => broadcast.push(NoteUpdate::Update(v)),
        None => {},
    }
    Effects { delete: dropped, broadcast }
}

impl NotesServiceState {
    /// The notes listed for file `file_id`, if it has a list.
    pub fn ids_of(&self, file_id: u128) -> (r: Option<Vec<u128>>)
        ensures
            match r {
                Some(v) => self@.ids.contains_key(file_id) && v@ == self@.ids[file_id],
                None => !self@.ids.contains_key(file_id),
            },
    {
        match self.ids.get(&file_id) {
            Some(v) => Some(copy_ids(v)),
            None => None,
        }
    }

    /// The stored build report of file `file_id`.
    pub fn build_report(&self, file_id: u128) -> (r: Option<&BuildStatus>)
        ensures
            match r {
                Some(b) => self@.errors.contains_key(file_id) && *b == self@.errors[file_id],
                None => !self@.errors.contains_key(file_id),
            },
    {
        self.errors.get(&file_id)
    }

    /// The title of note `id`, if it has an owner.
    pub fn title(&self, id: u128) -> (r: Option<&String>)
        ensures
            match r {
                Some(t) => self@.titles.contains_key(id) && *t == self@.titles[id],
                None => !self@.titles.contains_key(id),
            },
    {
        self.titles.get(&id)
    }

    /// Whether note `id` has content to serve: only a note with an owner has
    /// a fragment file (a dangling link target is a node without one).
    pub fn has_fragment(&self, id: u128) -> (r: bool)
        requires
            self.wf(),
        ensures
            r == self@.owners.contains_key(id),
            r ==> self@.fragments.contains(id),
    {
        self.file_ids.contains_key(&id)
    }

    /// Whether `id` is a node of the link graph.
    pub fn contains_note(&self, id: u128) -> (r: bool)
        ensures
            r == self@.nodes.contains(id),
    {
        graph_contains_node(&self.links, id)
    }

    /// Records that the initial build finished.
    pub fn set_build_finished(&mut self)
        requires
            old(self).wf(),
        ensures
            final(self).wf(),
            final(self)@ == (NotesModel { ready: true, ..old(self)@ }),
    {
        self.build_finished = true;
    }

    /// Whether the initial build finished.
    pub fn get_build_finished(&self) -> (r: bool)
        ensures
            r == self@.ready,
    {
        self.build_finished
    }

    /// Stores the first build of source `file_id`. On success its notes join
    /// the graph (notes it owned before and no longer reports are dropped),
    /// and once the initial build finished a non-empty list of notes is
    /// broadcast; on failure only its diagnostics are kept.
    pub fn create_notes(&mut self, file_id: u128, result: BuildResult) -> (e: Effects)
        requires
            old(self).wf(),
        ensures
            final(self).wf(),
            final(self)@ == create_spec(old(self)@, file_id, result),
            effects_are(e, accept_dropped(old(self)@, file_id, result),
                gated_update(old(self)@.ready, result_notes(result))),
    {
        let ghost m = self@;
        proof {
            lemma_accept_wf(m, file_id, result, false);
        }
        let ready = self.build_finished;
        let mut dropped: Vec<u128> = Vec::new();
        match &result {
            Ok(w) => {
                let mut keep: Vec<u128> = Vec::new();
                push_note_ids(&mut keep, &w.output);
                let listed = self.notes_of(file_id);
                self.forget_stale(file_id, &listed, &keep, &mut dropped);
                proof {
                    assert(keep@ =~= note_ids(w.output@));
                    assert(dropped@ =~= accept_dropped(m, file_id, result));
                }
            },
            Err(_) => {},
        }
        let out = self.record(file_id, result, false);
        let update = if ready && out.len() > 0 {
            Some(out)
        } else {
            None
        };
        effects(dropped, update)
    }

    /// Stores a batch of rebuilds, entry by entry: on success the notes that
    /// the source owned and no longer reports are dropped, and each reported
    /// note has its title, owner and outgoing links replaced. Once the
    /// initial build finished, the notes of the batch are broadcast as one
    /// update.
    pub fn update_notes(&mut self, batch: Vec<(u128, BuildResult)>) -> (e: Effects)
        requires
            old(self).wf(),
        ensures
            final(self).wf(),
            final(self)@ == update_spec(old(self)@, batch@),
            effects_are(e, update_dropped(old(self)@, batch@),
                gated_update(old(self)@.ready, batch_notes(batch@))),
    {
        let ghost m = self@;
        let ghost b = batch@;
        proof {
            lemma_update_wf(m, b);
        }
        let ready = self.build_finished;
        let mut dropped: Vec<u128> = Vec::new();
        let mut data: Vec<NoteData> = Vec::new();
        let mut rest = batch;
        let ghost mut done: int = 0;
        while rest.len() > 0
            invariant
                0 <= done <= b.len(),
                rest@ == b.skip(done),
                self@ == update_spec(m, b.take(done)),
                dropped@ == update_dropped(m, b.take(done)),
                data@ == batch_notes(b.take(done)),
            decreases rest@.len(),
        {
            proof {
                assert(b.take(done + 1).drop_last() =~= b.take(done));
                assert(b.skip(done)[0] == b[done]);
            }
            let ghost before = dropped@;
            let (f, r) = rest.remove(0);
            match &r {
                Ok(w) => {
                    let mut keep: Vec<u128> = Vec::new();
                    push_note_ids(&mut keep, &w.output);
                    let listed = self.notes_of(f);
                    self.forget_stale(f, &listed, &keep, &mut dropped);
                    proof {
                        assert(keep@ =~= note_ids(w.output@));
                    }
                },
                Err(_) => {},
            }
            let mut out = self.record(f, r, true);
            data.append(&mut out);
            proof {
                assert(dropped@ =~= before + accept_dropped(update_spec(m, b.take(done)), f, r));
                done = done + 1;
                assert(rest@ =~= b.skip(done));
            }
        }
        proof {
            assert(b.take(b.len() as int) =~= b);
        }
        let update = if ready && data.len() > 0 {
            Some(data)
        } else {
            None
        };
        effects(dropped, update)
    }

    /// Removes source `file_id`: its report, and every note it lists, whose
    /// fragments are deleted and whose removal is broadcast.
    pub fn remove_notes(&mut self, file_id: u128) -> (e: Effects)
        requires
            old(self).wf(),
        ensures
            final(self).wf(),
            final(self)@ == remove_spec(old(self)@, file_id),
            old(self)@.ids.contains_key(file_id) ==> effects_are(e, old(self)@.ids[file_id], None),
            !old(self)@.ids.contains_key(file_id) ==> effects_are(e, Seq::empty(), None),
    {
        let ghost m = self@;
        proof {
            lemma_remove_wf(m, file_id);
        }
        self.errors.remove(&file_id);
        let ghost m0 = NotesModel { errors: m.errors.remove(file_id), ..m };
        match self.ids.remove(&file_id) {
            Some(listed) => {
                proof {
                    assert(self@.ids =~= m.ids.remove(file_id));
                    assert(listed@.take(0) =~= Seq::<u128>::empty());
                }
                let mut k: usize = 0;
                while k < listed.len()
                    invariant
                        k <= listed@.len(),
                        m.ids.contains_key(file_id),
                        listed@ == m.ids[file_id],
                        self@ == (NotesModel { ids: m.ids.remove(file_id), ..drop_all(m0, listed@.take(k as int)) }),
                    decreases listed@.len() - k,
                {
                    proof {
                        assert(listed@.take(k as int + 1).drop_last() =~= listed@.take(k as int));
                    }
                    self.forget_note(listed[k]);
                    k += 1;
                }
                proof {
                    assert(listed@.take(listed@.len() as int) =~= listed@);
                    lemma_drop_all_keeps(m0, listed@);
                }
                effects(listed, None)
            },
            None => {
                proof {
                    assert(self@.ids =~= m.ids);
                }
                effects(Vec::new(), None)
            },
        }
    }

    /// The graph as a new subscriber first sees it: the titles, and for
    /// every node of the link graph the list of its link targets.
    pub fn subscribe(&self) -> (r: Initialize)
        requires
            self.wf(),
        ensures
            r.titles@ == self@.titles,
            r.outgoing_links@.dom() == self@.nodes,
            forall|u: u128| #[trigger] r.outgoing_links@.contains_key(u)
                ==> r.outgoing_links@[u]@.to_set() == successors(self@.edges, u),
    {
        let nodes = graph_node_list(&self.links);
        let mut out: HashMap<u128, Vec<u128>> = HashMap::new();
        let mut k: usize = 0;
        while k < nodes.len()
            invariant
                k <= nodes@.len(),
                out@.dom() == nodes@.take(k as int).to_set(),
                forall|u: u128| #[trigger] out@.contains_key(u) ==> out@[u]@ == Seq::<u128>::empty(),
            decreases nodes@.len() - k,
        {
            out.insert(nodes[k], Vec::new());
            proof {
                lemma_push_contains(nodes@.take(k as int), nodes@[k as int]);
                assert(nodes@.take(k as int + 1) =~= nodes@.take(k as int).push(nodes@[k as int]));
                assert(out@.dom() =~= nodes@.take(k as int + 1).to_set());
            }
            k += 1;
        }
        proof {
            assert(nodes@.take(nodes@.len() as int) =~= nodes@);
            assert(out@.dom() =~= self@.nodes);
        }
        let edges = graph_edge_list(&self.links);
        proof {
            assert(edges@.take(0) =~= Seq::<(u128, u128)>::empty());
            assert forall|u: u128| #[trigger] out@.contains_key(u)
                implies out@[u]@.to_set() == Set::new(|v: u128| edges@.take(0).contains((u, v))) by {
                assert(out@[u]@.to_set() =~= Set::new(|v: u128| edges@.take(0).contains((u, v))));
            }
        }
        let mut k: usize = 0;
        while k < edges.len()
            invariant
                k <= edges@.len(),
                edges@.to_set() == self@.edges,
                out@.dom() == self@.nodes,
                forall|e: (u128, u128)| #[trigger] self@.edges.contains(e) ==> self@.nodes.contains(e.0),
                forall|u: u128| #[trigger] out@.contains_key(u)
                    ==> out@[u]@.to_set() == Set::new(|v: u128| edges@.take(k as int).contains((u, v))),
            decreases edges@.len() - k,
        {
            let (u, v) = edges[k];
            let ghost cur = edges@.take(k as int);
            let ghost next = edges@.take(k as int + 1);
            proof {
                assert(edges@.to_set().contains((u, v)));
                assert(edges@.contains((u, v)));
            }
            let ghost old_out = out;
            let mut list = match out.remove(&u) {
                Some(l) => l,
                None => Vec::new(),
            };
            let ghost prev = list;
            proof {
                if old_out@.contains_key(u) {
                    assert(prev == old_out@[u]);
                } else {
                    assert(prev@ == Seq::<u128>::empty());
                }
            }
            list.push(v);
            out.insert(u, list);
            proof {
                assert forall|e: (u128, u128)| next.contains(e) <==> (cur.contains(e) || e == (u, v)) by {
                    if next.contains(e) {
                        let j = choose|j: int| 0 <= j < next.len() && next[j] == e;
                        if j < k {
                            assert(cur[j] == e);
                        }
                    }
                    if cur.contains(e) {
                        let j = choose|j: int| 0 <= j < k && cur[j] == e;
                        assert(next[j] == e);
                    }
                    if e == (u, v) {
                        assert(next[k as int] == e);
                    }
                }
                assert(out@.dom() =~= self@.nodes);
                assert forall|x: u128| #[trigger] out@[u]@.contains(x) <==> (prev@.contains(x) || x == v) by {
                    let l = out@[u]@;
                    assert(l =~= prev@.push(v));
                    if l.contains(x) {
                        let j = choose|j: int| 0 <= j < l.len() && l[j] == x;
                        if j < prev@.len() {
                            assert(prev@[j] == x);
                        }
                    }
                    if prev@.contains(x) {
                        let j = choose|j: int| 0 <= j < prev@.len() && prev@[j] == x;
                        assert(l[j] == x);
                    }
                    if x == v {
                        assert(l[prev@.len() as int] == x);
                    }
                }
                assert forall|x: u128| prev@.contains(x) <==> cur.contains((u, x)) by {
                    assert(prev@.to_set() == Set::new(|y: u128| cur.contains((u, y))));
                    assert(prev@.to_set().contains(x) <==> prev@.contains(x));
                }
                assert forall|w: u128| #[trigger] out@.contains_key(w)
                    implies out@[w]@.to_set() == Set::new(|x: u128| next.contains((w, x))) by {
                    if w != u {
                        assert(out@[w] == old_out@[w]);
                        assert(old_out@.contains_key(w));
                        assert(old_out@[w]@.to_set() == Set::new(|x: u128| cur.contains((w, x))));
                        assert forall|x: u128| out@[w]@.to_set().contains(x) <==> next.contains((w, x)) by {
                            assert(old_out@[w]@.to_set().contains(x) <==> cur.contains((w, x)));
                        }
                    } else {
                        assert forall|x: u128| out@[w]@.to_set().contains(x) <==> next.contains((w, x)) by {
                            assert(out@[u]@.contains(x) <==> (prev@.contains(x) || x == v));
                        }
                    }
                    assert(out@[w]@.to_set() =~= Set::new(|x: u128| next.contains((w, x))));
                }
            }
            k += 1;
        }
        proof {
            assert(edges@.take(edges@.len() as int) =~= edges@);
            assert forall|e: (u128, u128)| edges@.contains(e) <==> self@.edges.contains(e) by {
                assert(edges@.to_set().contains(e) <==> edges@.contains(e));
            }
            assert forall|u: u128| #[trigger] out@.contains_key(u)
                implies out@[u]@.to_set() == successors(self@.edges, u) by {
                assert(out@[u]@.to_set() =~= successors(self@.edges, u));
            }
        }
        Initialize { outgoing_links: out, titles: self.titles.clone() }
    }
}

} // verus!
