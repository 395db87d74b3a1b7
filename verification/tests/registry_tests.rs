//! Peer registry: insert/remove/snapshot semantics, idempotent removal, and
//! the snapshot exclusions.

use relay_core::registry::Registry;

fn id(s: &str) -> Vec<u8> {
    s.as_bytes().to_vec()
}

#[test]
fn insert_returns_count_and_registers() {
    let mut reg = Registry::new();
    assert_eq!(reg.len(), 0);
    assert_eq!(reg.insert(id("p1"), id("Alice"), 1), 1);
    assert_eq!(reg.insert(id("p2"), id("Bob"), 2), 2);
    assert!(reg.contains(&id("p1")));
    assert!(reg.contains(&id("p2")));
    assert!(!reg.contains(&id("p3")));
    assert_eq!(reg.display_name_of(&id("p1")), Some(id("Alice")));
    assert_eq!(reg.display_name_of(&id("p3")), None);
}

#[test]
fn duplicate_insert_last_connect_wins() {
    let mut reg = Registry::new();
    reg.insert(id("p1"), id("Alice"), 1);
    // same identifier again: the earlier entry is overwritten, not duplicated
    assert_eq!(reg.insert(id("p1"), id("Alicia"), 9), 1);
    assert_eq!(reg.len(), 1);
    assert_eq!(reg.display_name_of(&id("p1")), Some(id("Alicia")));
    let snap = reg.snapshot_except(&id("nobody"));
    assert_eq!(snap.len(), 1);
    assert_eq!(snap[0].handle, 9);
}

#[test]
fn remove_twice_equals_remove_once() {
    let mut reg = Registry::new();
    reg.insert(id("p1"), id("Alice"), 1);
    reg.insert(id("p2"), id("Bob"), 2);
    reg.remove(&id("p1"));
    let len_once = reg.len();
    let bob_once = reg.display_name_of(&id("p2"));
    reg.remove(&id("p1"));
    assert_eq!(reg.len(), len_once);
    assert_eq!(reg.display_name_of(&id("p2")), bob_once);
    assert!(!reg.contains(&id("p1")));
    assert!(reg.contains(&id("p2")));
}

#[test]
fn remove_absent_is_noop() {
    let mut reg = Registry::new();
    reg.insert(id("p1"), id("Alice"), 1);
    reg.remove(&id("ghost"));
    assert_eq!(reg.len(), 1);
    assert!(reg.contains(&id("p1")));
}

#[test]
fn snapshot_never_includes_excluded_or_removed() {
    let mut reg = Registry::new();
    reg.insert(id("p1"), id("Alice"), 1);
    reg.insert(id("p2"), id("Bob"), 2);
    reg.insert(id("p3"), id("Cara"), 3);
    reg.remove(&id("p2"));
    let snap = reg.snapshot_except(&id("p1"));
    assert_eq!(snap.len(), 1);
    assert_eq!(snap[0].peer_id, id("p3"));
    assert_eq!(snap[0].display_name, id("Cara"));
    assert_eq!(snap[0].handle, 3);
}

#[test]
fn snapshot_of_empty_registry_is_empty() {
    let reg = Registry::new();
    assert!(reg.snapshot_except(&id("p1")).is_empty());
}

#[test]
fn snapshot_excluding_absent_id_holds_everyone() {
    let mut reg = Registry::new();
    reg.insert(id("p1"), id("Alice"), 1);
    reg.insert(id("p2"), id("Bob"), 2);
    let snap = reg.snapshot_except(&id("p9"));
    assert_eq!(snap.len(), 2);
}

#[test]
fn update_display_name_in_place() {
    let mut reg = Registry::new();
    reg.insert(id("p1"), id("Alice"), 1);
    reg.update_display_name(&id("p1"), id("Alicia"));
    assert_eq!(reg.display_name_of(&id("p1")), Some(id("Alicia")));
    assert_eq!(reg.len(), 1);
}

#[test]
fn update_display_name_of_absent_peer_is_noop() {
    let mut reg = Registry::new();
    reg.insert(id("p1"), id("Alice"), 1);
    reg.update_display_name(&id("ghost"), id("Nobody"));
    assert_eq!(reg.len(), 1);
    assert_eq!(reg.display_name_of(&id("p1")), Some(id("Alice")));
    assert!(!reg.contains(&id("ghost")));
}
