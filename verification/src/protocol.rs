//! The relay's message vocabulary: the method names and payload keys that
//! travel inside envelopes, the payload lookup rule, and the builders of the
//! three server-originated notifications.

use vstd::prelude::*;
use crate::bytestr::{bytes_clone, bytes_eq};
use crate::codec::pairs_model;
use crate::envelope::{Envelope, EnvelopeModel, EventData, EventDataModel, EventKind, Pair,
    PairModel};

verus! {

/// The method of a chat broadcast. (`"chat_message"`)
pub open spec fn spec_method_chat() -> Seq<u8> {
    seq!['c' as u8, 'h' as u8, 'a' as u8, 't' as u8, '_' as u8, 'm' as u8, 'e' as u8, 's' as u8, 's' as u8, 'a' as u8, 'g' as u8, 'e' as u8]
}

/// The method of a chat broadcast. (`"chat_message"`)
pub fn method_chat() -> (r: Vec<u8>)
    ensures
        r@ == spec_method_chat(),
{
    let mut v: Vec<u8> = Vec::new();
    v.push('c' as u8);
    v.push('h' as u8);
    v.push('a' as u8);
    v.push('t' as u8);
    v.push('_' as u8);
    v.push('m' as u8);
    v.push('e' as u8);
    v.push('s' as u8);
    v.push('s' as u8);
    v.push('a' as u8);
    v.push('g' as u8);
    v.push('e' as u8);
    proof {
        assert(v@ =~= spec_method_chat());
    }
    v
}

/// The method announcing a new peer. (`"peer_joined"`)
pub open spec fn spec_method_peer_joined() -> Seq<u8> {
    seq!['p' as u8, 'e' as u8, 'e' as u8, 'r' as u8, '_' as u8, 'j' as u8, 'o' as u8, 'i' as u8, 'n' as u8, 'e' as u8, 'd' as u8]
}

/// The method announcing a new peer. (`"peer_joined"`)
pub fn method_peer_joined() -> (r: Vec<u8>)
    ensures
        r@ == spec_method_peer_joined(),
{
    let mut v: Vec<u8> = Vec::new();
    v.push('p' as u8);
    v.push('e' as u8);
    v.push('e' as u8);
    v.push('r' as u8);
    v.push('_' as u8);
    v.push('j' as u8);
    v.push('o' as u8);
    v.push('i' as u8);
    v.push('n' as u8);
    v.push('e' as u8);
    v.push('d' as u8);
    proof {
        assert(v@ =~= spec_method_peer_joined());
    }
    v
}

/// The method announcing a departed peer. (`"peer_left"`)
pub open spec fn spec_method_peer_left() -> Seq<u8> {
    seq!['p' as u8, 'e' as u8, 'e' as u8, 'r' as u8, '_' as u8, 'l' as u8, 'e' as u8, 'f' as u8, 't' as u8]
}

/// The method announcing a departed peer. (`"peer_left"`)
pub fn method_peer_left() -> (r: Vec<u8>)
    ensures
        r@ == spec_method_peer_left(),
{
    let mut v: Vec<u8> = Vec::new();
    v.push('p' as u8);
    v.push('e' as u8);
    v.push('e' as u8);
    v.push('r' as u8);
    v.push('_' as u8);
    v.push('l' as u8);
    v.push('e' as u8);
    v.push('f' as u8);
    v.push('t' as u8);
    proof {
        assert(v@ =~= spec_method_peer_left());
    }
    v
}

/// Payload key: the subject peer's identifier. (`"peerId"`)
pub open spec fn spec_key_peer_id() -> Seq<u8> {
    seq!['p' as u8, 'e' as u8, 'e' as u8, 'r' as u8, 'I' as u8, 'd' as u8]
}

/// Payload key: the subject peer's identifier. (`"peerId"`)
pub fn key_peer_id() -> (r: Vec<u8>)
    ensures
        r@ == spec_key_peer_id(),
{
    let mut v: Vec<u8> = Vec::new();
    v.push('p' as u8);
    v.push('e' as u8);
    v.push('e' as u8);
    v.push('r' as u8);
    v.push('I' as u8);
    v.push('d' as u8);
    proof {
        assert(v@ =~= spec_key_peer_id());
    }
    v
}

/// Payload key: a display name. (`"displayName"`)
pub open spec fn spec_key_display_name() -> Seq<u8> {
    seq!['d' as u8, 'i' as u8, 's' as u8, 'p' as u8, 'l' as u8, 'a' as u8, 'y' as u8, 'N' as u8, 'a' as u8, 'm' as u8, 'e' as u8]
}

/// Payload key: a display name. (`"displayName"`)
pub fn key_display_name() -> (r: Vec<u8>)
    ensures
        r@ == spec_key_display_name(),
{
    let mut v: Vec<u8> = Vec::new();
    v.push('d' as u8);
    v.push('i' as u8);
    v.push('s' as u8);
    v.push('p' as u8);
    v.push('l' as u8);
    v.push('a' as u8);
    v.push('y' as u8);
    v.push('N' as u8);
    v.push('a' as u8);
    v.push('m' as u8);
    v.push('e' as u8);
    proof {
        assert(v@ =~= spec_key_display_name());
    }
    v
}

/// Payload key: the chat text. (`"text"`)
pub open spec fn spec_key_text() -> Seq<u8> {
    seq!['t' as u8, 'e' as u8, 'x' as u8, 't' as u8]
}

/// Payload key: the chat text. (`"text"`)
pub fn key_text() -> (r: Vec<u8>)
    ensures
        r@ == spec_key_text(),
{
    let mut v: Vec<u8> = Vec::new();
    v.push('t' as u8);
    v.push('e' as u8);
    v.push('x' as u8);
    v.push('t' as u8);
    proof {
        assert(v@ =~= spec_key_text());
    }
    v
}

/// Payload key: the sending peer's identifier. (`"fromPeerId"`)
pub open spec fn spec_key_from_peer_id() -> Seq<u8> {
    seq!['f' as u8, 'r' as u8, 'o' as u8, 'm' as u8, 'P' as u8, 'e' as u8, 'e' as u8, 'r' as u8, 'I' as u8, 'd' as u8]
}

/// Payload key: the sending peer's identifier. (`"fromPeerId"`)
pub fn key_from_peer_id() -> (r: Vec<u8>)
    ensures
        r@ == spec_key_from_peer_id(),
{
    let mut v: Vec<u8> = Vec::new();
    v.push('f' as u8);
    v.push('r' as u8);
    v.push('o' as u8);
    v.push('m' as u8);
    v.push('P' as u8);
    v.push('e' as u8);
    v.push('e' as u8);
    v.push('r' as u8);
    v.push('I' as u8);
    v.push('d' as u8);
    proof {
        assert(v@ =~= spec_key_from_peer_id());
    }
    v
}

/// Payload key: the sending peer's display name. (`"fromDisplayName"`)
pub open spec fn spec_key_from_display_name() -> Seq<u8> {
    seq!['f' as u8, 'r' as u8, 'o' as u8, 'm' as u8, 'D' as u8, 'i' as u8, 's' as u8, 'p' as u8, 'l' as u8, 'a' as u8, 'y' as u8, 'N' as u8, 'a' as u8, 'm' as u8, 'e' as u8]
}

/// Payload key: the sending peer's display name. (`"fromDisplayName"`)
pub fn key_from_display_name() -> (r: Vec<u8>)
    ensures
        r@ == spec_key_from_display_name(),
{
    let mut v: Vec<u8> = Vec::new();
    v.push('f' as u8);
    v.push('r' as u8);
    v.push('o' as u8);
    v.push('m' as u8);
    v.push('D' as u8);
    v.push('i' as u8);
    v.push('s' as u8);
    v.push('p' as u8);
    v.push('l' as u8);
    v.push('a' as u8);
    v.push('y' as u8);
    v.push('N' as u8);
    v.push('a' as u8);
    v.push('m' as u8);
    v.push('e' as u8);
    proof {
        assert(v@ =~= spec_key_from_display_name());
    }
    v
}

/// The display name used when a client supplies none. (`"Anonymous"`)
pub open spec fn spec_default_display_name() -> Seq<u8> {
    seq!['A' as u8, 'n' as u8, 'o' as u8, 'n' as u8, 'y' as u8, 'm' as u8, 'o' as u8, 'u' as u8, 's' as u8]
}

/// The display name used when a client supplies none. (`"Anonymous"`)
pub fn default_display_name() -> (r: Vec<u8>)
    ensures
        r@ == spec_default_display_name(),
{
    let mut v: Vec<u8> = Vec::new();
    v.push('A' as u8);
    v.push('n' as u8);
    v.push('o' as u8);
    v.push('n' as u8);
    v.push('y' as u8);
    v.push('m' as u8);
    v.push('o' as u8);
    v.push('u' as u8);
    v.push('s' as u8);
    proof {
        assert(v@ =~= spec_default_display_name());
    }
    v
}

/// The prefix of generated peer identifiers. (`"peer_"`)
pub open spec fn spec_id_prefix() -> Seq<u8> {
    seq!['p' as u8, 'e' as u8, 'e' as u8, 'r' as u8, '_' as u8]
}

/// The prefix of generated peer identifiers. (`"peer_"`)
pub fn id_prefix() -> (r: Vec<u8>)
    ensures
        r@ == spec_id_prefix(),
{
    let mut v: Vec<u8> = Vec::new();
    v.push('p' as u8);
    v.push('e' as u8);
    v.push('e' as u8);
    v.push('r' as u8);
    v.push('_' as u8);
    proof {
        assert(v@ =~= spec_id_prefix());
    }
    v
}


/// The value of the last payload entry carrying `key`, if any. A sender that
/// writes one key twice means the later entry: last write wins.
pub open spec fn spec_lookup(data: Seq<PairModel>, key: Seq<u8>) -> Option<Seq<u8>>
    decreases data.len(),
{
    if data.len() == 0 {
        Option::None
    } else if data.last().key == key {
        Option::Some(data.last().value)
    } else {
        spec_lookup(data.drop_last(), key)
    }
}

/// Look a key up among the payload entries of an envelope body.
pub fn lookup(data: &Vec<Pair>, key: &Vec<u8>) -> (r: Option<Vec<u8>>)
    ensures
        match r {
            Option::Some(v) => spec_lookup(pairs_model(data@), key@) == Option::Some(v@),
            Option::None => spec_lookup(pairs_model(data@), key@) is None,
        },
{
    let ghost ds = pairs_model(data@);
    proof {
        assert(ds.take(data@.len() as int) =~= ds);
    }
    let mut i: usize = data.len();
    while i > 0
        invariant
            i <= data@.len(),
            ds == pairs_model(data@),
            spec_lookup(ds, key@) == spec_lookup(ds.take(i as int), key@),
        decreases i,
    {
        let p = &data[i - 1];
        if bytes_eq(&p.key, key) {
            proof {
                assert(ds.take(i as int).last() == ds[i - 1]);
                assert(ds[i - 1] == p@);
            }
            return Option::Some(bytes_clone(&p.value));
        }
        proof {
            assert(ds.take(i as int).last() == ds[i - 1]);
            assert(ds.take(i as int).drop_last() =~= ds.take(i - 1));
        }
        i = i - 1;
    }
    proof {
        assert(ds.take(0).len() == 0);
    }
    Option::None
}

/// The notification announcing a newly joined peer, carrying its identifier
/// and display name.
pub open spec fn spec_peer_joined(peer_id: Seq<u8>, display_name: Seq<u8>) -> EnvelopeModel {
    EnvelopeModel {
        event: EventKind::Notification,
        event_data: Option::Some(
            EventDataModel {
                method: spec_method_peer_joined(),
                data: seq![
                    PairModel { key: spec_key_peer_id(), value: peer_id },
                    PairModel { key: spec_key_display_name(), value: display_name },
                ],
            },
        ),
    }
}

/// Build the notification announcing a newly joined peer.
pub fn peer_joined_envelope(peer_id: &Vec<u8>, display_name: &Vec<u8>) -> (r: Envelope)
    ensures
        r@ == spec_peer_joined(peer_id@, display_name@),
{
    let mut data: Vec<Pair> = Vec::new();
    data.push(Pair { key: key_peer_id(), value: bytes_clone(peer_id) });
    data.push(Pair { key: key_display_name(), value: bytes_clone(display_name) });
    let r = Envelope {
        event: EventKind::Notification,
        event_data: Option::Some(EventData { method: method_peer_joined(), data }),
    };
    proof {
        assert(r@.event_data->Some_0.data =~~= spec_peer_joined(
            peer_id@,
            display_name@,
        ).event_data->Some_0.data);
        assert(r@ =~~= spec_peer_joined(peer_id@, display_name@));
    }
    r
}

/// The notification announcing a departed peer, carrying its identifier and
/// last display name.
pub open spec fn spec_peer_left(peer_id: Seq<u8>, display_name: Seq<u8>) -> EnvelopeModel {
    EnvelopeModel {
        event: EventKind::Notification,
        event_data: Option::Some(
            EventDataModel {
                method: spec_method_peer_left(),
                data: seq![
                    PairModel { key: spec_key_peer_id(), value: peer_id },
                    PairModel { key: spec_key_display_name(), value: display_name },
                ],
            },
        ),
    }
}

/// Build the notification announcing a departed peer.
pub fn peer_left_envelope(peer_id: &Vec<u8>, display_name: &Vec<u8>) -> (r: Envelope)
    ensures
        r@ == spec_peer_left(peer_id@, display_name@),
{
    let mut data: Vec<Pair> = Vec::new();
    data.push(Pair { key: key_peer_id(), value: bytes_clone(peer_id) });
    data.push(Pair { key: key_display_name(), value: bytes_clone(display_name) });
    let r = Envelope {
        event: EventKind::Notification,
        event_data: Option::Some(EventData { method: method_peer_left(), data }),
    };
    proof {
        assert(r@.event_data->Some_0.data =~~= spec_peer_left(
            peer_id@,
            display_name@,
        ).event_data->Some_0.data);
        assert(r@ =~~= spec_peer_left(peer_id@, display_name@));
    }
    r
}

/// The chat notification relayed to every other peer, carrying the sender's
/// identifier, its display name, and the chat text.
pub open spec fn spec_chat(
    from_peer_id: Seq<u8>,
    from_display_name: Seq<u8>,
    text: Seq<u8>,
) -> EnvelopeModel {
    EnvelopeModel {
        event: EventKind::Notification,
        event_data: Option::Some(
            EventDataModel {
                method: spec_method_chat(),
                data: seq![
                    PairModel { key: spec_key_from_peer_id(), value: from_peer_id },
                    PairModel { key: spec_key_from_display_name(), value: from_display_name },
                    PairModel { key: spec_key_text(), value: text },
                ],
            },
        ),
    }
}

/// Build the chat notification relayed on behalf of a sender.
pub fn chat_envelope(
    from_peer_id: &Vec<u8>,
    from_display_name: &Vec<u8>,
    text: &Vec<u8>,
) -> (r: Envelope)
    ensures
        r@ == spec_chat(from_peer_id@, from_display_name@, text@),
{
    let mut data: Vec<Pair> = Vec::new();
    data.push(Pair { key: key_from_peer_id(), value: bytes_clone(from_peer_id) });
    data.push(Pair { key: key_from_display_name(), value: bytes_clone(from_display_name) });
    data.push(Pair { key: key_text(), value: bytes_clone(text) });
    let r = Envelope {
        event: EventKind::Notification,
        event_data: Option::Some(EventData { method: method_chat(), data }),
    };
    proof {
        assert(r@.event_data->Some_0.data =~~= spec_chat(
            from_peer_id@,
            from_display_name@,
            text@,
        ).event_data->Some_0.data);
        assert(r@ =~~= spec_chat(from_peer_id@, from_display_name@, text@));
    }
    r
}

} // verus!
