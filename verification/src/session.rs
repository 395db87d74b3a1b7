//! One peer's session: joining, the decision taken for each inbound frame,
//! and leaving.
//!
//! The functions here are the whole decision logic of the relay's receive
//! loop. A server task drives them: it hands every inbound frame to
//! [`on_frame`] and performs the returned actions (planned deliveries, a pong
//! reply), calling [`leave`] once the stream ends, errors out, or a close
//! frame was seen. No frame ever terminates another peer's session, and a
//! malformed binary frame leaves the session open and the registry untouched.

use vstd::prelude::*;
use crate::bytestr::{bytes_clone, bytes_eq};
use crate::codec::{decode, pairs_model, spec_decode, spec_encode};
use crate::envelope::{EnvelopeModel, EventKind, PairModel};
use crate::protocol::{chat_envelope, key_display_name, key_text, lookup, method_chat,
    peer_joined_envelope, peer_left_envelope, spec_chat, spec_key_display_name, spec_key_text,
    spec_lookup, spec_method_chat, spec_peer_joined, spec_peer_left};
use crate::registry::{PeerInfo, Registry};
use crate::relay::{broadcast_plan, deliveries_model, fans_out_to, Delivery};

verus! {

/// The server-side state of one connected peer.
pub struct Session {
    pub peer_id: Vec<u8>,
    pub display_name: Vec<u8>,
    pub handle: u64,
    /// False once a close frame was seen or the session left the registry.
    pub live: bool,
}

/// Mathematical model of a [`Session`].
#[verifier::ext_equal]
pub struct SessionModel {
    pub peer_id: Seq<u8>,
    pub display_name: Seq<u8>,
    pub handle: u64,
    pub live: bool,
}

impl View for Session {
    type V = SessionModel;

    open spec fn view(&self) -> SessionModel {
        SessionModel {
            peer_id: self.peer_id@,
            display_name: self.display_name@,
            handle: self.handle,
            live: self.live,
        }
    }
}

/// One inbound transport frame, as the receive loop sees it.
#[derive(Debug)]
pub enum Frame {
    /// A binary frame: the only carrier of application envelopes.
    Binary(Vec<u8>),
    /// A text frame: unsupported in the binary protocol, ignored.
    Text(Vec<u8>),
    /// A transport liveness probe, answered with a pong of the same payload.
    Ping(Vec<u8>),
    /// A pong: ignored.
    Pong(Vec<u8>),
    /// The remote closed the connection.
    Close,
}

/// Mathematical model of a [`Frame`].
pub enum FrameModel {
    Binary(Seq<u8>),
    Text(Seq<u8>),
    Ping(Seq<u8>),
    Pong(Seq<u8>),
    Close,
}

impl View for Frame {
    type V = FrameModel;

    open spec fn view(&self) -> FrameModel {
        match self {
            Frame::Binary(p) => FrameModel::Binary(p@),
            Frame::Text(p) => FrameModel::Text(p@),
            Frame::Ping(p) => FrameModel::Ping(p@),
            Frame::Pong(p) => FrameModel::Pong(p@),
            Frame::Close => FrameModel::Close,
        }
    }
}

/// What the session decides for one inbound frame: sends to plan towards
/// other peers, an optional pong back to this peer, and whether the receive
/// loop is over.
pub struct StepResult {
    pub deliveries: Vec<Delivery>,
    pub pong: Option<Vec<u8>>,
    pub closed: bool,
}

/// A decoded envelope the relay acts on: a client request carrying the chat
/// method. Everything else — notifications, system envelopes, a missing
/// body, an unknown method — is ignored without error.
pub open spec fn spec_is_chat_request(env: EnvelopeModel) -> bool {
    &&& env.event == EventKind::Request
    &&& env.event_data is Some
    &&& env.event_data->Some_0.method == spec_method_chat()
}

/// The display name a chat takes effect under: the one supplied in the
/// payload, unless absent or empty, in which case the session's current name
/// stands.
pub open spec fn spec_chat_name(current: Seq<u8>, data: Seq<PairModel>) -> Seq<u8> {
    match spec_lookup(data, spec_key_display_name()) {
        Option::Some(n) => if n.len() > 0 {
            n
        } else {
            current
        },
        Option::None => current,
    }
}

/// The chat text: the payload's, defaulting to the empty string.
pub open spec fn spec_chat_text(data: Seq<PairModel>) -> Seq<u8> {
    match spec_lookup(data, spec_key_text()) {
        Option::Some(t) => t,
        Option::None => Seq::empty(),
    }
}

/// A step that neither changes any state nor sends anything.
pub open spec fn spec_quiet(
    reg0: Map<Seq<u8>, PeerInfo>,
    reg1: Map<Seq<u8>, PeerInfo>,
    s0: SessionModel,
    s1: SessionModel,
    r: &StepResult,
) -> bool {
    &&& reg1 == reg0
    &&& s1 == s0
    &&& r.deliveries@.len() == 0
    &&& r.pong is None
    &&& !r.closed
}

/// Register a connecting peer and announce it: the peer enters the registry
/// (a duplicate identifier overwrites the earlier entry), and one
/// `peer_joined` notification is planned for every other registered peer —
/// never for the joining peer itself.
pub fn join(reg: &mut Registry, peer_id: Vec<u8>, display_name: Vec<u8>, handle: u64) -> (r: (
    Session,
    Vec<Delivery>,
))
    requires
        old(reg).wf(),
    ensures
        final(reg).wf(),
        final(reg)@ == old(reg)@.insert(
            peer_id@,
            PeerInfo { display_name: display_name@, handle },
        ),
        r.0@ == (SessionModel { peer_id: peer_id@, display_name: display_name@, handle, live: true }),
        fans_out_to(
            deliveries_model(r.1@),
            final(reg)@.remove(peer_id@),
            spec_encode(spec_peer_joined(peer_id@, display_name@)),
        ),
{
    let id = bytes_clone(&peer_id);
    let name = bytes_clone(&display_name);
    reg.insert(peer_id, display_name, handle);
    let env = peer_joined_envelope(&id, &name);
    let plan = broadcast_plan(reg, &id, &env);
    let sess = Session { peer_id: id, display_name: name, handle, live: true };
    (sess, plan)
}

/// Decide one inbound frame.
///
/// A binary frame that does not decode is dropped: the session stays open,
/// nothing is sent, the registry is untouched. A decoded chat request
/// updates the sender's display name (payload name, falling back to the
/// current one) and plans one chat notification to every other peer. Any
/// other envelope, a text frame and a pong are ignored. A ping is answered
/// with a pong carrying the identical payload, and nothing is broadcast. A
/// close frame only ends this session's loop.
pub fn on_frame(reg: &mut Registry, sess: &mut Session, frame: &Frame) -> (r: StepResult)
    requires
        old(reg).wf(),
        old(sess).live,
        old(reg)@.contains_key(old(sess).peer_id@),
        old(reg)@[old(sess).peer_id@].handle == old(sess).handle,
    ensures
        final(reg).wf(),
        final(sess).peer_id@ == old(sess).peer_id@,
        final(sess).handle == old(sess).handle,
        match frame@ {
            FrameModel::Binary(payload) => match spec_decode(payload) {
                Option::None => spec_quiet(old(reg)@, final(reg)@, old(sess)@, final(sess)@, &r),
                Option::Some(env) => if spec_is_chat_request(env) {
                    let id = old(sess).peer_id@;
                    let d = env.event_data->Some_0.data;
                    let name = spec_chat_name(old(sess).display_name@, d);
                    let text = spec_chat_text(d);
                    &&& final(sess).display_name@ == name
                    &&& final(sess).live
                    &&& final(reg)@ == old(reg)@.insert(
                        id,
                        PeerInfo { display_name: name, handle: old(sess).handle },
                    )
                    &&& fans_out_to(
                        deliveries_model(r.deliveries@),
                        final(reg)@.remove(id),
                        spec_encode(spec_chat(id, name, text)),
                    )
                    &&& r.pong is None
                    &&& !r.closed
                } else {
                    spec_quiet(old(reg)@, final(reg)@, old(sess)@, final(sess)@, &r)
                },
            },
            FrameModel::Text(_) => spec_quiet(old(reg)@, final(reg)@, old(sess)@, final(sess)@, &r),
            FrameModel::Ping(p) => {
                &&& final(reg)@ == old(reg)@
                &&& final(sess)@ == old(sess)@
                &&& r.deliveries@.len() == 0
                &&& (r.pong matches Option::Some(q) && q@ == p)
                &&& !r.closed
            },
            FrameModel::Pong(_) => spec_quiet(old(reg)@, final(reg)@, old(sess)@, final(sess)@, &r),
            FrameModel::Close => {
                &&& final(reg)@ == old(reg)@
                &&& final(sess).display_name@ == old(sess).display_name@
                &&& !final(sess).live
                &&& r.deliveries@.len() == 0
                &&& r.pong is None
                &&& r.closed
            },
        },
{
    match frame {
        Frame::Binary(payload) => {
            match decode(payload) {
                Result::Err(_) => StepResult {
                    deliveries: Vec::new(),
                    pong: Option::None,
                    closed: false,
                },
                Result::Ok(env) => {
                    let is_request = env.event == EventKind::Request;
                    match env.event_data {
                        Option::None => StepResult {
                            deliveries: Vec::new(),
                            pong: Option::None,
                            closed: false,
                        },
                        Option::Some(d) => {
                            let mc = method_chat();
                            if !is_request || !bytes_eq(&d.method, &mc) {
                                StepResult {
                                    deliveries: Vec::new(),
                                    pong: Option::None,
                                    closed: false,
                                }
                            } else {
                                let ghost dm = pairs_model(d.data@);
                                let kd = key_display_name();
                                let name: Vec<u8> = match lookup(&d.data, &kd) {
                                    Option::Some(n) => {
                                        if n.len() > 0 {
                                            n
                                        } else {
                                            bytes_clone(&sess.display_name)
                                        }
                                    },
                                    Option::None => bytes_clone(&sess.display_name),
                                };
                                let kt = key_text();
                                let text: Vec<u8> = match lookup(&d.data, &kt) {
                                    Option::Some(t) => t,
                                    Option::None => Vec::new(),
                                };
                                proof {
                                    assert(name@ == spec_chat_name(old(sess).display_name@, dm));
                                    assert(text@ =~= spec_chat_text(dm));
                                }
                                reg.update_display_name(&sess.peer_id, bytes_clone(&name));
                                sess.display_name = bytes_clone(&name);
                                let env2 = chat_envelope(&sess.peer_id, &name, &text);
                                let plan = broadcast_plan(reg, &sess.peer_id, &env2);
                                StepResult {
                                    deliveries: plan,
                                    pong: Option::None,
                                    closed: false,
                                }
                            }
                        },
                    }
                },
            }
        },
        Frame::Text(_) => StepResult { deliveries: Vec::new(), pong: Option::None, closed: false },
        Frame::Ping(p) => StepResult {
            deliveries: Vec::new(),
            pong: Option::Some(bytes_clone(p)),
            closed: false,
        },
        Frame::Pong(_) => StepResult { deliveries: Vec::new(), pong: Option::None, closed: false },
        Frame::Close => {
            sess.live = false;
            StepResult { deliveries: Vec::new(), pong: Option::None, closed: true }
        },
    }
}

/// Deregister a departing peer and announce it: the peer leaves the registry
/// exactly once (removal is idempotent), and one `peer_left` notification is
/// planned for every remaining peer — no exclusion needed, the leaving peer
/// is already gone from the registry when the snapshot is taken.
pub fn leave(reg: &mut Registry, sess: &mut Session) -> (r: Vec<Delivery>)
    requires
        old(reg).wf(),
    ensures
        final(reg).wf(),
        final(reg)@ == old(reg)@.remove(old(sess).peer_id@),
        final(sess).peer_id@ == old(sess).peer_id@,
        final(sess).display_name@ == old(sess).display_name@,
        final(sess).handle == old(sess).handle,
        !final(sess).live,
        fans_out_to(
            deliveries_model(r@),
            final(reg)@,
            spec_encode(spec_peer_left(old(sess).peer_id@, old(sess).display_name@)),
        ),
{
    reg.remove(&sess.peer_id);
    let env = peer_left_envelope(&sess.peer_id, &sess.display_name);
    let plan = broadcast_plan(reg, &sess.peer_id, &env);
    sess.live = false;
    proof {
        assert(reg@.remove(sess.peer_id@) =~= reg@);
    }
    plan
}

} // verus!
