//! Broadcast planning and the isolation of send failures.

use relay_core::codec::{decode, encode};
use relay_core::envelope::{Envelope, EventData, EventKind, Pair};
use relay_core::registry::Registry;
use relay_core::relay::{broadcast_plan, delivered_targets};

fn id(s: &str) -> Vec<u8> {
    s.as_bytes().to_vec()
}

fn notification(method: &str) -> Envelope {
    Envelope {
        event: EventKind::Notification,
        event_data: Some(EventData {
            method: method.as_bytes().to_vec(),
            data: vec![Pair { key: id("peerId"), value: id("p1") }],
        }),
    }
}

#[test]
fn plan_reaches_everyone_but_excluded_with_identical_bytes() {
    let mut reg = Registry::new();
    reg.insert(id("a"), id("Alice"), 10);
    reg.insert(id("b"), id("Bob"), 20);
    reg.insert(id("c"), id("Cara"), 30);
    let env = notification("peer_joined");
    let plan = broadcast_plan(&reg, &id("a"), &env);
    assert_eq!(plan.len(), 2);
    let expected = encode(&env);
    for d in &plan {
        assert_ne!(d.peer_id, id("a"));
        assert_eq!(d.bytes, expected);
        assert_eq!(decode(&d.bytes).unwrap(), notification("peer_joined"));
    }
    let mut handles: Vec<u64> = plan.iter().map(|d| d.handle).collect();
    handles.sort();
    assert_eq!(handles, vec![20, 30]);
}

#[test]
fn failed_send_to_one_peer_leaves_the_others_delivered() {
    let mut reg = Registry::new();
    reg.insert(id("a"), id("Alice"), 10);
    reg.insert(id("b"), id("Bob"), 20);
    reg.insert(id("c"), id("Cara"), 30);
    let env = notification("chat_message");
    let plan = broadcast_plan(&reg, &id("a"), &env);
    assert_eq!(plan.len(), 2);
    // the send towards b fails, the one towards c succeeds
    let ok: Vec<bool> = plan.iter().map(|d| d.peer_id != id("b")).collect();
    let reached = delivered_targets(&plan, &ok);
    assert_eq!(reached.len(), 1);
    assert_eq!(reached[0].peer_id, id("c"));
    assert_eq!(reached[0].bytes, encode(&env));
}

#[test]
fn all_sends_failing_delivers_nothing() {
    let mut reg = Registry::new();
    reg.insert(id("a"), id("Alice"), 10);
    reg.insert(id("b"), id("Bob"), 20);
    let env = notification("peer_left");
    let plan = broadcast_plan(&reg, &id("z"), &env);
    assert_eq!(plan.len(), 2);
    let ok = vec![false, false];
    assert!(delivered_targets(&plan, &ok).is_empty());
}
