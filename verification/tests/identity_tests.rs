//! Identity resolution: defaults, generated identifiers, and the freshly
//! drawn token.

use relay_core::identity::{fresh_peer_id, fresh_token, generated_peer_id, resolve_display_name,
    resolve_peer_id};

#[test]
fn generated_id_stops_at_first_hyphen() {
    assert_eq!(generated_peer_id(&b"abc12345-def".to_vec()), b"peer_abc12345".to_vec());
    assert_eq!(generated_peer_id(&b"-leading".to_vec()), b"peer_".to_vec());
    assert_eq!(generated_peer_id(&b"nohyphen".to_vec()), b"peer_nohyphen".to_vec());
    assert_eq!(generated_peer_id(&Vec::new()), b"peer_".to_vec());
}

#[test]
fn fresh_token_has_documented_shape() {
    let t = fresh_token();
    assert_eq!(t.len(), 36);
    assert_eq!(t[8], b'-');
    assert!(t[0..8].iter().all(|b| *b != b'-'));
}

#[test]
fn fresh_peer_id_is_prefixed_and_short() {
    let p = fresh_peer_id();
    assert_eq!(p.len(), 13);
    assert_eq!(&p[0..5], b"peer_");
    // two draws almost surely differ; equal draws would expose a constant token
    let q = fresh_peer_id();
    assert_eq!(q.len(), 13);
}

#[test]
fn resolve_display_name_defaults_to_anonymous() {
    assert_eq!(resolve_display_name(None), b"Anonymous".to_vec());
    assert_eq!(resolve_display_name(Some(b"Alice".to_vec())), b"Alice".to_vec());
}

#[test]
fn resolve_peer_id_prefers_the_client_parameter() {
    let token = b"abcdef12-3456".to_vec();
    assert_eq!(resolve_peer_id(Some(b"p1".to_vec()), &token), b"p1".to_vec());
    assert_eq!(resolve_peer_id(None, &token), b"peer_abcdef12".to_vec());
}
