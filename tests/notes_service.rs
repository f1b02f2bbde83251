use phelps::notes::{BuildResult, Initialize, NoteData, NoteUpdate, NotesServiceState, Warned};
use std::collections::HashMap;

const A: u128 = 0x550e8400_e29b_41d4_a716_446655440000;
const B: u128 = 0x550e8400_e29b_41d4_a716_446655440001;
const C: u128 = 0x550e8400_e29b_41d4_a716_446655440002;
const FILE_A: u128 = 1;
const FILE_B: u128 = 2;

fn note(title: &str, id: u128, links: &[u128]) -> NoteData {
    NoteData { title: title.to_string(), id, links: links.to_vec() }
}

fn ok(notes: Vec<NoteData>) -> BuildResult {
    Ok(Warned { output: notes, warnings: Vec::new() })
}

fn sorted_links(snapshot: &Initialize) -> Vec<(u128, Vec<u128>)> {
    let mut out: Vec<(u128, Vec<u128>)> = snapshot
        .outgoing_links
        .iter()
        .map(|(k, v)| {
            let mut v = v.clone();
            v.sort();
            (*k, v)
        })
        .collect();
    out.sort();
    out
}

fn sorted_titles(snapshot: &Initialize) -> Vec<(u128, String)> {
    let mut out: Vec<(u128, String)> = snapshot.titles.iter().map(|(k, v)| (*k, v.clone())).collect();
    out.sort();
    out
}

#[test]
fn empty_source_builds() {
    let mut s = NotesServiceState::new();
    s.set_build_finished();
    let effects = s.create_notes(FILE_A, ok(Vec::new()));
    assert!(effects.delete.is_empty());
    assert!(effects.broadcast.is_empty());
    assert_eq!(s.ids_of(FILE_A), Some(Vec::new()));
    assert!(matches!(s.build_report(FILE_A), Some(Ok(_))));
}

#[test]
fn failed_build_keeps_notes() {
    let mut s = NotesServiceState::new();
    s.create_notes(FILE_A, ok(vec![note("A", A, &[])]));
    let effects = s.update_notes(vec![(FILE_A, Err(vec!["unclosed delimiter".to_string()]))]);
    assert!(effects.delete.is_empty());
    assert!(effects.broadcast.is_empty());
    assert_eq!(s.title(A).map(|t| t.as_str()), Some("A"));
    match s.build_report(FILE_A) {
        Some(Err(d)) => assert_eq!(d, &vec!["unclosed delimiter".to_string()]),
        _ => panic!("expected the diagnostics"),
    }
}

#[test]
fn failed_create_stores_diagnostics_only() {
    let mut s = NotesServiceState::new();
    s.create_notes(FILE_A, Err(vec!["error".to_string()]));
    assert_eq!(s.ids_of(FILE_A), None);
    assert!(matches!(s.build_report(FILE_A), Some(Err(_))));
    assert!(!s.contains_note(A));
}

#[test]
fn dangling_target_is_a_node_without_title() {
    let mut s = NotesServiceState::new();
    s.create_notes(FILE_A, ok(vec![note("A", A, &[C])]));
    assert!(s.contains_note(C));
    assert_eq!(s.title(C), None);
    assert!(!s.has_fragment(C));
    let snapshot = s.subscribe();
    assert_eq!(snapshot.outgoing_links.get(&A), Some(&vec![C]));
    assert_eq!(snapshot.outgoing_links.get(&C), Some(&Vec::new()));
}

#[test]
fn create_then_remove_restores_state() {
    let mut s = NotesServiceState::new();
    s.create_notes(FILE_A, ok(vec![note("A", A, &[])]));
    let before = s.subscribe();
    s.create_notes(FILE_B, ok(vec![note("B", B, &[A, C]), note("C", C, &[B])]));
    let effects = s.remove_notes(FILE_B);
    assert_eq!(effects.delete, vec![B, C]);
    let after = s.subscribe();
    assert_eq!(sorted_links(&before), sorted_links(&after));
    assert_eq!(sorted_titles(&before), sorted_titles(&after));
    assert_eq!(s.ids_of(FILE_B), None);
    assert_eq!(s.ids_of(FILE_A), Some(vec![A]));
}

#[test]
fn recompiling_unchanged_file_keeps_snapshot() {
    let mut s = NotesServiceState::new();
    s.create_notes(FILE_A, ok(vec![note("A", A, &[B]), note("B", B, &[A])]));
    s.set_build_finished();
    s.update_notes(vec![(FILE_A, ok(vec![note("A", A, &[B]), note("B", B, &[A])]))]);
    let first = s.subscribe();
    s.update_notes(vec![(FILE_A, ok(vec![note("A", A, &[B]), note("B", B, &[A])]))]);
    let second = s.subscribe();
    assert_eq!(sorted_links(&first), sorted_links(&second));
    assert_eq!(sorted_titles(&first), sorted_titles(&second));
    assert_eq!(s.ids_of(FILE_A), Some(vec![A, B]));
}

#[test]
fn update_replaces_links_and_drops_vanished_notes() {
    let mut s = NotesServiceState::new();
    s.create_notes(FILE_A, ok(vec![note("A", A, &[B]), note("C", C, &[])]));
    s.set_build_finished();
    let effects = s.update_notes(vec![(FILE_A, ok(vec![note("A2", A, &[])]))]);
    assert_eq!(effects.delete, vec![C]);
    assert_eq!(effects.broadcast.len(), 2);
    match &effects.broadcast[0] {
        NoteUpdate::Remove(ids) => assert_eq!(ids, &vec![C]),
        NoteUpdate::Update(_) => panic!("expected the removal first"),
    }
    match &effects.broadcast[1] {
        NoteUpdate::Update(notes) => {
            assert_eq!(notes.len(), 1);
            assert_eq!(notes[0].title, "A2");
        }
        NoteUpdate::Remove(_) => panic!("expected the update second"),
    }
    assert!(!s.contains_note(C));
    let snapshot = s.subscribe();
    assert_eq!(snapshot.outgoing_links.get(&A), Some(&Vec::new()));
    assert_eq!(s.ids_of(FILE_A), Some(vec![A]));
}

#[test]
fn update_before_ready_is_not_broadcast() {
    let mut s = NotesServiceState::new();
    s.create_notes(FILE_A, ok(vec![note("A", A, &[])]));
    let effects = s.update_notes(vec![(FILE_A, ok(vec![note("A", A, &[])]))]);
    assert!(effects.broadcast.is_empty());
    assert!(!s.get_build_finished());
}

#[test]
fn broadcast_notes_are_in_graph() {
    let mut s = NotesServiceState::new();
    s.set_build_finished();
    s.create_notes(FILE_A, ok(vec![note("A", A, &[])]));
    let effects = s.update_notes(vec![
        (FILE_A, ok(vec![note("A", A, &[C])])),
        (FILE_B, ok(vec![note("B", B, &[A])])),
    ]);
    match effects.broadcast.last() {
        Some(NoteUpdate::Update(notes)) => {
            assert_eq!(notes.len(), 2);
            for n in notes {
                assert!(s.contains_note(n.id));
            }
        }
        _ => panic!("expected an update"),
    }
}

#[test]
fn remove_before_ready_is_consistent() {
    let mut s = NotesServiceState::new();
    let effects = s.remove_notes(FILE_A);
    assert!(effects.delete.is_empty());
    assert!(effects.broadcast.is_empty());
    s.create_notes(FILE_A, ok(vec![note("A", A, &[])]));
    let effects = s.remove_notes(FILE_A);
    assert_eq!(effects.delete, vec![A]);
    assert!(s.build_report(FILE_A).is_none());
    assert!(!s.contains_note(A));
    let snapshot = s.subscribe();
    assert!(snapshot.titles.is_empty());
    assert_eq!(snapshot.outgoing_links, HashMap::new());
}

#[test]
fn owned_notes_have_reports_and_fragments() {
    let mut s = NotesServiceState::new();
    s.create_notes(FILE_A, ok(vec![note("A", A, &[B])]));
    assert!(s.has_fragment(A));
    assert!(s.build_report(FILE_A).is_some());
    assert_eq!(s.ids_of(FILE_A), Some(vec![A]));
}
