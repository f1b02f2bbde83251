use phelps::coordinator::{BuildAction, PathFacts, WatchEventKind};
use phelps::engine::Engine;
use phelps::file_graph::Dependency;
use phelps::notes::{BuildResult, NoteData, NoteUpdate, Warned};
use phelps::session::{forward, initialize_message, opening_message, WebsocketMessage};

const A: u128 = 0x550e8400_e29b_41d4_a716_446655440000;
const B: u128 = 0x550e8400_e29b_41d4_a716_446655440001;
const FILE_A: u128 = 1;
const FILE_B: u128 = 2;

fn note(title: &str, id: u128, links: &[u128]) -> NoteData {
    NoteData { title: title.to_string(), id, links: links.to_vec() }
}

fn ok(notes: Vec<NoteData>) -> BuildResult {
    Ok(Warned { output: notes, warnings: Vec::new() })
}

fn source_facts() -> PathFacts {
    PathFacts { in_project: true, typ_extension: true, under_notes: true }
}

#[test]
fn single_note() {
    let mut engine = Engine::new();
    assert_eq!(engine.dispatch(WatchEventKind::Create, FILE_A, source_facts()), BuildAction::Create(FILE_A));
    let effects = engine.create(FILE_A, ok(vec![note("Heading", A, &[])]), &Vec::new());
    assert!(effects.delete.is_empty());
    assert!(effects.broadcast.is_empty());
    engine.set_build_finished();
    let snapshot = engine.notes().subscribe();
    assert_eq!(snapshot.titles.get(&A).map(|t| t.as_str()), Some("Heading"));
    assert_eq!(snapshot.outgoing_links.get(&A), Some(&Vec::new()));
    assert!(engine.notes().has_fragment(A));
}

#[test]
fn two_notes_one_link() {
    let mut engine = Engine::new();
    engine.create(FILE_A, ok(vec![note("A", A, &[B])]), &Vec::new());
    engine.create(FILE_B, ok(vec![note("B", B, &[])]), &Vec::new());
    engine.set_build_finished();
    let snapshot = engine.notes().subscribe();
    assert_eq!(snapshot.outgoing_links.get(&A), Some(&vec![B]));
    assert_eq!(snapshot.outgoing_links.get(&B), Some(&Vec::new()));
    assert_eq!(snapshot.titles.get(&B).map(|t| t.as_str()), Some("B"));
}

#[test]
fn modify_propagation() {
    let mut engine = Engine::new();
    engine.create(FILE_A, ok(vec![note("A", A, &[B])]), &Vec::new());
    engine.create(FILE_B, ok(vec![note("B", B, &[])]), &Vec::new());
    engine.set_build_finished();
    assert_eq!(engine.dispatch(WatchEventKind::Modify, FILE_B, source_facts()), BuildAction::Modify(FILE_B));
    let plan = engine.plan_modify(FILE_B, true);
    assert_eq!(plan.rebuild, vec![FILE_B]);
    assert_eq!(plan.reset, vec![FILE_B]);
    let batch = vec![(FILE_B, ok(vec![note("B2", B, &[])]))];
    let effects = engine.rebuild(batch, &vec![Vec::new()]);
    assert!(effects.delete.is_empty());
    assert_eq!(effects.broadcast.len(), 1);
    match &effects.broadcast[0] {
        NoteUpdate::Update(notes) => {
            assert_eq!(notes.len(), 1);
            assert_eq!(notes[0].id, B);
            assert_eq!(notes[0].title, "B2");
            assert!(notes[0].links.is_empty());
        }
        NoteUpdate::Remove(_) => panic!("expected an update"),
    }
    assert_eq!(engine.notes().title(B).map(|t| t.as_str()), Some("B2"));
}

#[test]
fn remove_source() {
    let mut engine = Engine::new();
    engine.create(FILE_A, ok(vec![note("Heading", A, &[])]), &Vec::new());
    engine.set_build_finished();
    let effects = engine.remove(FILE_A);
    assert_eq!(effects.delete, vec![A]);
    assert_eq!(effects.broadcast.len(), 1);
    match &effects.broadcast[0] {
        NoteUpdate::Remove(ids) => assert_eq!(ids, &vec![A]),
        NoteUpdate::Update(_) => panic!("expected a removal"),
    }
    let snapshot = engine.notes().subscribe();
    assert!(!snapshot.titles.contains_key(&A));
    assert!(!snapshot.outgoing_links.contains_key(&A));
    assert!(!engine.coordinator().is_source(FILE_A));
}

#[test]
fn dangling_link() {
    let mut engine = Engine::new();
    engine.create(FILE_A, ok(vec![note("A", A, &[B])]), &Vec::new());
    engine.set_build_finished();
    let snapshot = engine.notes().subscribe();
    assert_eq!(snapshot.outgoing_links.get(&A), Some(&vec![B]));
    assert!(!snapshot.titles.contains_key(&B));
    assert!(engine.notes().contains_note(B));
    assert!(!engine.notes().has_fragment(B));
}

#[test]
fn initial_gate() {
    let mut engine = Engine::new();
    // A subscriber that connects during the initial build.
    let early = opening_message(engine.notes().get_build_finished());
    assert!(matches!(early, Some(WebsocketMessage::Building)));
    let effects = engine.create(FILE_A, ok(vec![note("A", A, &[])]), &Vec::new());
    assert!(effects.broadcast.is_empty());
    engine.set_build_finished();
    let picture = initialize_message(engine.notes().subscribe());
    match &picture {
        WebsocketMessage::Initialize(snapshot) => assert!(snapshot.titles.contains_key(&A)),
        _ => panic!("expected the picture of the graph"),
    }
    // A subscriber that connects afterwards gets no marker.
    assert!(opening_message(engine.notes().get_build_finished()).is_none());
    let mut effects = engine.create(FILE_B, ok(vec![note("B", B, &[])]), &Vec::new());
    assert_eq!(effects.broadcast.len(), 1);
    match forward(effects.broadcast.remove(0)) {
        WebsocketMessage::Update(notes) => assert_eq!(notes[0].id, B),
        _ => panic!("expected an update"),
    }
}

#[test]
fn dependency_rebuilds_dependents() {
    let lib: u128 = 10;
    let package_file: u128 = 11;
    let mut engine = Engine::new();
    let deps = vec![Dependency { id: lib, package: false }, Dependency { id: package_file, package: true }];
    engine.create(FILE_A, ok(vec![note("A", A, &[])]), &deps);
    assert!(engine.coordinator().is_tracked(lib));
    assert!(!engine.coordinator().is_tracked(package_file));
    let not_source = PathFacts { in_project: true, typ_extension: true, under_notes: false };
    assert_eq!(engine.dispatch(WatchEventKind::Modify, lib, not_source), BuildAction::Modify(lib));
    let plan = engine.plan_modify(lib, false);
    assert_eq!(plan.reset, vec![lib, FILE_A]);
    assert_eq!(plan.rebuild, vec![FILE_A]);
    assert_eq!(engine.dispatch(WatchEventKind::Modify, package_file, not_source), BuildAction::Ignore);
}
