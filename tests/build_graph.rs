use phelps::coordinator::{BuildAction, BuildCoordinator, PathFacts, WatchEventKind};
use phelps::file_graph::{Dependency, FileGraph};
use phelps::slots::{FileSlot, SlotCell};

fn facts(in_project: bool, typ_extension: bool, under_notes: bool) -> PathFacts {
    PathFacts { in_project, typ_extension, under_notes }
}

#[test]
fn dispatch_sorts_events() {
    let c = BuildCoordinator::new();
    let source = facts(true, true, true);
    let other = facts(true, false, false);
    assert_eq!(c.dispatch(WatchEventKind::Access, 1, source), BuildAction::Ignore);
    assert_eq!(c.dispatch(WatchEventKind::Any, 1, source), BuildAction::Ignore);
    assert_eq!(c.dispatch(WatchEventKind::Other, 1, source), BuildAction::Ignore);
    assert_eq!(c.dispatch(WatchEventKind::Create, 1, source), BuildAction::Create(1));
    assert_eq!(c.dispatch(WatchEventKind::Create, 1, other), BuildAction::Ignore);
    assert_eq!(c.dispatch(WatchEventKind::Create, 1, facts(true, true, false)), BuildAction::Ignore);
    assert_eq!(c.dispatch(WatchEventKind::Modify, 1, source), BuildAction::Modify(1));
    assert_eq!(c.dispatch(WatchEventKind::Modify, 1, other), BuildAction::Ignore);
    assert_eq!(c.dispatch(WatchEventKind::Remove, 1, other), BuildAction::Remove(1));
    assert_eq!(c.dispatch(WatchEventKind::Remove, 1, facts(false, true, true)), BuildAction::Ignore);
}

#[test]
fn rebuilt_source_replaces_its_dependencies() {
    let mut c = BuildCoordinator::new();
    let a: u128 = 1;
    let lib: u128 = 5;
    let other: u128 = 6;
    c.handle_create(a, &vec![Dependency { id: lib, package: false }]);
    assert!(c.is_source(a));
    assert_eq!(c.plan_modify(lib, false).rebuild, vec![a]);
    c.handle_rebuilt(a, &vec![Dependency { id: other, package: false }]);
    assert_eq!(c.plan_modify(lib, false).rebuild, Vec::<u128>::new());
    assert_eq!(c.plan_modify(lib, false).reset, vec![lib]);
    assert_eq!(c.plan_modify(other, false).rebuild, vec![a]);
    c.handle_remove(a);
    assert!(!c.is_source(a));
    assert!(!c.is_tracked(a));
    assert_eq!(c.plan_modify(other, false).reset, vec![other]);
}

#[test]
fn modify_plan_follows_breadth_first_order() {
    let mut c = BuildCoordinator::new();
    let (lib, a, b): (u128, u128, u128) = (10, 1, 2);
    c.handle_create(a, &vec![Dependency { id: lib, package: false }]);
    c.handle_create(b, &vec![Dependency { id: lib, package: false }, Dependency { id: a, package: false }]);
    let plan = c.plan_modify(lib, false);
    assert_eq!(plan.reset.len(), 3);
    assert_eq!(plan.reset[0], lib);
    assert_eq!(plan.rebuild.len(), 2);
    assert!(plan.rebuild.contains(&a) && plan.rebuild.contains(&b));
    let plan = c.plan_modify(a, true);
    assert_eq!(plan.rebuild, vec![a, b]);
    let new_source: u128 = 3;
    assert_eq!(c.plan_modify(new_source, true).rebuild, vec![new_source]);
    assert_eq!(c.plan_modify(new_source, false).rebuild, Vec::<u128>::new());
}

#[test]
fn file_graph_operations() {
    let mut g = FileGraph::new();
    g.add_edge(1, 2);
    g.add_edge(1, 2);
    g.add_edge(3, 2);
    assert!(g.contains(1) && g.contains(2) && g.contains(3));
    let mut incoming = g.incoming(2);
    incoming.sort();
    assert_eq!(incoming, vec![1, 3]);
    g.remove_edge(1, 2);
    assert_eq!(g.incoming(2), vec![3]);
    g.add_node(4);
    assert_eq!(g.bfs_from(4), vec![4]);
    g.remove_node(3);
    assert!(g.incoming(2).is_empty());
    assert_eq!(g.bfs_from(7), vec![7]);
}

#[test]
fn slot_serves_one_value_per_build() {
    let mut cell: SlotCell<String> = SlotCell::new();
    assert!(!cell.begin());
    assert!(!cell.observe(7));
    assert_eq!(cell.take(), None);
    cell.store("v1".to_string());
    assert!(cell.accessed());
    // Second read in the same build: served from the cell.
    assert!(cell.begin());
    assert_eq!(cell.get().map(|v| v.as_str()), Some("v1"));
    // Next build, unchanged bytes: the held value serves.
    cell.reset();
    assert!(!cell.accessed());
    assert!(!cell.begin());
    assert!(cell.observe(7));
    assert_eq!(cell.get().map(|v| v.as_str()), Some("v1"));
    // Next build, changed bytes: decode again from the previous value.
    cell.reset();
    assert!(!cell.begin());
    assert!(!cell.observe(8));
    assert_eq!(cell.take(), Some("v1".to_string()));
    cell.store("v2".to_string());
    assert_eq!(cell.get().map(|v| v.as_str()), Some("v2"));
}

#[test]
fn file_slot_tracks_both_cells() {
    let mut slot: FileSlot<u8, u16> = FileSlot::new();
    assert!(!slot.accessed());
    slot.file.begin();
    assert!(slot.accessed());
    slot.reset();
    assert!(!slot.accessed());
}
