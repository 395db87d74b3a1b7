//! Session scenarios: join announcements, chat relay, disconnects, malformed
//! frames, and pings.

use relay_core::codec::{decode, encode};
use relay_core::envelope::{Envelope, EventData, EventKind, Pair};
use relay_core::protocol::lookup;
use relay_core::registry::Registry;
use relay_core::session::{join, leave, on_frame, Frame};

fn id(s: &str) -> Vec<u8> {
    s.as_bytes().to_vec()
}

fn value_of(env: &Envelope, key: &str) -> Option<Vec<u8>> {
    lookup(&env.event_data.as_ref().unwrap().data, &id(key))
}

fn chat_request(entries: Vec<(&str, &str)>) -> Vec<u8> {
    let data = entries
        .into_iter()
        .map(|(k, v)| Pair { key: id(k), value: id(v) })
        .collect();
    encode(&Envelope {
        event: EventKind::Request,
        event_data: Some(EventData { method: id("chat_message"), data }),
    })
}

#[test]
fn scenario_join_notifies_only_the_peer_already_present() {
    let mut reg = Registry::new();
    // b is already connected; a joins afterwards
    let (_b_sess, b_plan) = join(&mut reg, id("p2"), id("Bob"), 20);
    assert!(b_plan.is_empty());
    let (_a_sess, a_plan) = join(&mut reg, id("p1"), id("Alice"), 10);
    // exactly one notification, addressed to b, about a — never to a itself
    assert_eq!(a_plan.len(), 1);
    assert_eq!(a_plan[0].peer_id, id("p2"));
    assert_eq!(a_plan[0].handle, 20);
    let env = decode(&a_plan[0].bytes).unwrap();
    assert_eq!(env.event, EventKind::Notification);
    assert_eq!(env.event_data.as_ref().unwrap().method, id("peer_joined"));
    assert_eq!(value_of(&env, "peerId"), Some(id("p1")));
    assert_eq!(value_of(&env, "displayName"), Some(id("Alice")));
}

#[test]
fn scenario_chat_reaches_exactly_the_other_peer() {
    let mut reg = Registry::new();
    let (mut a_sess, _) = join(&mut reg, id("p1"), id("Alice"), 10);
    let (_b_sess, _) = join(&mut reg, id("p2"), id("Bob"), 20);
    let step = on_frame(&mut reg, &mut a_sess, &Frame::Binary(chat_request(vec![("text", "hi")])));
    assert!(!step.closed);
    assert!(step.pong.is_none());
    assert_eq!(step.deliveries.len(), 1);
    assert_eq!(step.deliveries[0].peer_id, id("p2"));
    assert_eq!(step.deliveries[0].handle, 20);
    let env = decode(&step.deliveries[0].bytes).unwrap();
    assert_eq!(env.event, EventKind::Notification);
    assert_eq!(env.event_data.as_ref().unwrap().method, id("chat_message"));
    assert_eq!(value_of(&env, "fromPeerId"), Some(id("p1")));
    assert_eq!(value_of(&env, "fromDisplayName"), Some(id("Alice")));
    assert_eq!(value_of(&env, "text"), Some(id("hi")));
}

#[test]
fn scenario_chat_updates_display_name() {
    let mut reg = Registry::new();
    let (mut a_sess, _) = join(&mut reg, id("p1"), id("Alice"), 10);
    let (_b_sess, _) = join(&mut reg, id("p2"), id("Bob"), 20);
    let frame = Frame::Binary(chat_request(vec![("displayName", "Alicia"), ("text", "hey")]));
    let step = on_frame(&mut reg, &mut a_sess, &frame);
    assert_eq!(reg.display_name_of(&id("p1")), Some(id("Alicia")));
    assert_eq!(a_sess.display_name, id("Alicia"));
    let env = decode(&step.deliveries[0].bytes).unwrap();
    assert_eq!(value_of(&env, "fromDisplayName"), Some(id("Alicia")));
    // an empty supplied name falls back to the current one
    let step = on_frame(
        &mut reg,
        &mut a_sess,
        &Frame::Binary(chat_request(vec![("displayName", ""), ("text", "again")])),
    );
    let env = decode(&step.deliveries[0].bytes).unwrap();
    assert_eq!(value_of(&env, "fromDisplayName"), Some(id("Alicia")));
}

#[test]
fn scenario_disconnect_announces_departure_once() {
    let mut reg = Registry::new();
    let (mut a_sess, _) = join(&mut reg, id("p1"), id("Alice"), 10);
    let (_b_sess, _) = join(&mut reg, id("p2"), id("Bob"), 20);
    let plan = leave(&mut reg, &mut a_sess);
    assert!(!a_sess.live);
    assert!(!reg.contains(&id("p1")));
    assert_eq!(plan.len(), 1);
    assert_eq!(plan[0].peer_id, id("p2"));
    assert_eq!(plan[0].handle, 20);
    let env = decode(&plan[0].bytes).unwrap();
    assert_eq!(env.event, EventKind::Notification);
    assert_eq!(env.event_data.as_ref().unwrap().method, id("peer_left"));
    assert_eq!(value_of(&env, "peerId"), Some(id("p1")));
}

#[test]
fn scenario_malformed_frame_is_dropped_and_session_recovers() {
    let mut reg = Registry::new();
    let (mut a_sess, _) = join(&mut reg, id("p1"), id("Alice"), 10);
    let (_b_sess, _) = join(&mut reg, id("p2"), id("Bob"), 20);
    let step = on_frame(&mut reg, &mut a_sess, &Frame::Binary(vec![255u8, 254u8, 7u8]));
    assert!(step.deliveries.is_empty());
    assert!(step.pong.is_none());
    assert!(!step.closed);
    assert!(a_sess.live);
    assert_eq!(reg.len(), 2);
    // the next valid frame from the same session is processed normally
    let step = on_frame(&mut reg, &mut a_sess, &Frame::Binary(chat_request(vec![("text", "hi")])));
    assert_eq!(step.deliveries.len(), 1);
    assert_eq!(step.deliveries[0].peer_id, id("p2"));
}

#[test]
fn scenario_ping_answered_with_same_payload_and_no_broadcast() {
    let mut reg = Registry::new();
    let (mut a_sess, _) = join(&mut reg, id("p1"), id("Alice"), 10);
    let step = on_frame(&mut reg, &mut a_sess, &Frame::Ping(vec![9u8, 8u8, 7u8]));
    assert_eq!(step.pong, Some(vec![9u8, 8u8, 7u8]));
    assert!(step.deliveries.is_empty());
    assert!(!step.closed);
}

#[test]
fn text_and_pong_frames_are_ignored() {
    let mut reg = Registry::new();
    let (mut a_sess, _) = join(&mut reg, id("p1"), id("Alice"), 10);
    let (_b_sess, _) = join(&mut reg, id("p2"), id("Bob"), 20);
    let step = on_frame(&mut reg, &mut a_sess, &Frame::Text(id("hello")));
    assert!(step.deliveries.is_empty() && step.pong.is_none() && !step.closed);
    let step = on_frame(&mut reg, &mut a_sess, &Frame::Pong(vec![1u8]));
    assert!(step.deliveries.is_empty() && step.pong.is_none() && !step.closed);
    assert_eq!(reg.len(), 2);
}

#[test]
fn non_request_and_unknown_method_envelopes_are_ignored() {
    let mut reg = Registry::new();
    let (mut a_sess, _) = join(&mut reg, id("p1"), id("Alice"), 10);
    let (_b_sess, _) = join(&mut reg, id("p2"), id("Bob"), 20);
    // a notification from a client is not acted on
    let bytes = encode(&Envelope {
        event: EventKind::Notification,
        event_data: Some(EventData {
            method: id("chat_message"),
            data: vec![Pair { key: id("text"), value: id("hi") }],
        }),
    });
    let step = on_frame(&mut reg, &mut a_sess, &Frame::Binary(bytes));
    assert!(step.deliveries.is_empty());
    // an unknown method is accepted syntactically and ignored semantically
    let bytes = encode(&Envelope {
        event: EventKind::Request,
        event_data: Some(EventData { method: id("shout"), data: Vec::new() }),
    });
    let step = on_frame(&mut reg, &mut a_sess, &Frame::Binary(bytes));
    assert!(step.deliveries.is_empty() && step.pong.is_none() && !step.closed);
}

#[test]
fn close_frame_ends_only_this_session() {
    let mut reg = Registry::new();
    let (mut a_sess, _) = join(&mut reg, id("p1"), id("Alice"), 10);
    let (_b_sess, _) = join(&mut reg, id("p2"), id("Bob"), 20);
    let step = on_frame(&mut reg, &mut a_sess, &Frame::Close);
    assert!(step.closed);
    assert!(!a_sess.live);
    assert!(step.deliveries.is_empty() && step.pong.is_none());
    // the registry still holds both peers until the handler leaves
    assert_eq!(reg.len(), 2);
    let plan = leave(&mut reg, &mut a_sess);
    assert_eq!(reg.len(), 1);
    assert_eq!(plan.len(), 1);
}

#[test]
fn request_without_body_is_ignored() {
    let mut reg = Registry::new();
    let (mut a_sess, _) = join(&mut reg, id("p1"), id("Alice"), 10);
    let (_b_sess, _) = join(&mut reg, id("p2"), id("Bob"), 20);
    let bytes = encode(&Envelope { event: EventKind::Request, event_data: None });
    let step = on_frame(&mut reg, &mut a_sess, &Frame::Binary(bytes));
    assert!(step.deliveries.is_empty() && step.pong.is_none() && !step.closed);
    assert!(a_sess.live);
}

#[test]
fn chat_reaches_every_other_peer_exactly_once() {
    let mut reg = Registry::new();
    let (mut a_sess, _) = join(&mut reg, id("p1"), id("Alice"), 10);
    let (_b, _) = join(&mut reg, id("p2"), id("Bob"), 20);
    let (_c, _) = join(&mut reg, id("p3"), id("Cara"), 30);
    let step = on_frame(&mut reg, &mut a_sess, &Frame::Binary(chat_request(vec![("text", "hi")])));
    assert_eq!(step.deliveries.len(), 2);
    let mut targets: Vec<Vec<u8>> = step.deliveries.iter().map(|d| d.peer_id.clone()).collect();
    targets.sort();
    assert_eq!(targets, vec![id("p2"), id("p3")]);
    assert_eq!(step.deliveries[0].bytes, step.deliveries[1].bytes);
}

#[test]
fn duplicate_peer_id_last_connect_wins_on_join() {
    let mut reg = Registry::new();
    let (_first, _) = join(&mut reg, id("p1"), id("Alice"), 10);
    let (_second, plan) = join(&mut reg, id("p1"), id("Impostor"), 99);
    // the duplicate overwrites the earlier entry and notifies nobody else
    assert_eq!(reg.len(), 1);
    assert!(plan.is_empty());
    assert_eq!(reg.display_name_of(&id("p1")), Some(id("Impostor")));
}
