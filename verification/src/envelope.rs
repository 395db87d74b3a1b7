//! The wire envelope: the single message wrapper exchanged between the relay
//! and its clients.
//!
//! An envelope carries an event kind (request, notification, or system), and
//! optionally an event body: a method name plus a flat list of key/value
//! byte-string pairs. All higher-level semantics (chat text, join/leave
//! payloads) travel as entries of that list, keyed by convention.

use vstd::prelude::*;

verus! {

/// The recognized envelope kinds on the wire.
#[derive(Clone, Copy, PartialEq, Eq, Structural, Debug)]
pub enum EventKind {
    /// A client-originated message asking the server to act.
    Request,
    /// A server-originated fan-out message.
    Notification,
    /// Reserved server-originated kind.
    System,
}

/// One key/value entry of an envelope's payload.
#[derive(Debug, PartialEq, Eq)]
pub struct Pair {
    pub key: Vec<u8>,
    pub value: Vec<u8>,
}

/// The body of an envelope: a method name and its payload entries.
///
/// Key collisions inside `data` are the sender's affair (the codec carries the
/// list as given); readers resolve them by taking the last entry for a key.
#[derive(Debug, PartialEq, Eq)]
pub struct EventData {
    pub method: Vec<u8>,
    pub data: Vec<Pair>,
}

/// The wire message.
#[derive(Debug, PartialEq, Eq)]
pub struct Envelope {
    pub event: EventKind,
    pub event_data: Option<EventData>,
}

/// Mathematical model of a `Pair`.
#[verifier::ext_equal]
pub struct PairModel {
    pub key: Seq<u8>,
    pub value: Seq<u8>,
}

/// Mathematical model of an `EventData`.
#[verifier::ext_equal]
pub struct EventDataModel {
    pub method: Seq<u8>,
    pub data: Seq<PairModel>,
}

/// Mathematical model of an `Envelope`.
#[verifier::ext_equal]
pub struct EnvelopeModel {
    pub event: EventKind,
    pub event_data: Option<EventDataModel>,
}

impl View for Pair {
    type V = PairModel;

    open spec fn view(&self) -> PairModel {
        PairModel { key: self.key@, value: self.value@ }
    }
}

impl View for EventData {
    type V = EventDataModel;

    open spec fn view(&self) -> EventDataModel {
        EventDataModel {
            method: self.method@,
            data: Seq::new(self.data@.len(), |i: int| self.data@[i]@),
        }
    }
}

impl View for Envelope {
    type V = EnvelopeModel;

    open spec fn view(&self) -> EnvelopeModel {
        EnvelopeModel {
            event: self.event,
            event_data: match self.event_data {
                Option::None => Option::None,
                Option::Some(ref d) => Option::Some(d@),
            },
        }
    }
}

impl EnvelopeModel {
    /// An envelope is well formed when each of its byte strings and its entry
    /// count fit the wire format's 64-bit length prefixes. Every envelope
    /// built from in-memory vectors is well formed.
    pub open spec fn wf(self) -> bool {
        match self.event_data {
            Option::None => true,
            Option::Some(d) => {
                &&& d.method.len() <= u64::MAX
                &&& d.data.len() <= u64::MAX
                &&& forall|i: int|
                    0 <= i < d.data.len() ==> (#[trigger] d.data[i]).key.len() <= u64::MAX
                        && d.data[i].value.len() <= u64::MAX
            },
        }
    }
}

/// The model of an envelope held in memory is always well formed: vector
/// lengths are bounded by `usize::MAX`, which fits the 64-bit length prefixes.
pub proof fn lemma_envelope_wf(e: &Envelope)
    ensures
        e@.wf(),
{
    assert(usize::MAX <= u64::MAX);
    match e.event_data {
        Option::None => {},
        Option::Some(ref d) => {
            assert(d.method.len() <= usize::MAX);
            assert(d.data.len() <= usize::MAX);
            assert forall|i: int|
                0 <= i < e@.event_data->Some_0.data.len()
                    implies (#[trigger] e@.event_data->Some_0.data[i]).key.len() <= u64::MAX
                    && e@.event_data->Some_0.data[i].value.len() <= u64::MAX by {
                let p = d.data@[i];
                assert(p.key.len() <= usize::MAX);
                assert(p.value.len() <= usize::MAX);
                assert(e@.event_data->Some_0.data[i] == p@);
            }
        },
    }
}

} // verus!
