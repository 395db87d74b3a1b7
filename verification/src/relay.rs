//! Broadcast planning: given an envelope and an excluded peer, one planned
//! send per remaining registered peer, all carrying byte-identical payload.
//!
//! The envelope is encoded exactly once per broadcast, not once per
//! recipient. A planned send either succeeds or fails at the transport; a
//! failure towards one peer never removes any other peer from the plan, which
//! is what makes send failures isolated.

use vstd::prelude::*;
use crate::codec::{encode, spec_encode};
use crate::envelope::Envelope;
use crate::bytestr::bytes_clone;
use crate::registry::{entries_model, PeerInfo, Registry};

verus! {

/// One planned send: the target peer, its connection handle, and the bytes
/// to write.
#[derive(Debug, PartialEq, Eq)]
pub struct Delivery {
    pub peer_id: Vec<u8>,
    pub handle: u64,
    pub bytes: Vec<u8>,
}

/// Mathematical model of a [`Delivery`].
#[verifier::ext_equal]
pub struct DeliveryModel {
    pub peer_id: Seq<u8>,
    pub handle: u64,
    pub bytes: Seq<u8>,
}

impl View for Delivery {
    type V = DeliveryModel;

    open spec fn view(&self) -> DeliveryModel {
        DeliveryModel { peer_id: self.peer_id@, handle: self.handle, bytes: self.bytes@ }
    }
}

/// The model of a sequence of in-memory deliveries.
pub open spec fn deliveries_model(s: Seq<Delivery>) -> Seq<DeliveryModel> {
    Seq::new(s.len(), |i: int| s[i]@)
}

/// What a broadcast plan promises: exactly one delivery per peer of `m`,
/// addressed to the handle the registry stores for it, every delivery
/// carrying the same `bytes`.
pub open spec fn fans_out_to(
    ds: Seq<DeliveryModel>,
    m: Map<Seq<u8>, PeerInfo>,
    bytes: Seq<u8>,
) -> bool {
    &&& forall|i: int|
        0 <= i < ds.len() ==> m.contains_key((#[trigger] ds[i]).peer_id) && ds[i].handle
            == m[ds[i].peer_id].handle && ds[i].bytes == bytes
    &&& forall|i: int, j: int|
        0 <= i < j < ds.len() ==> (#[trigger] ds[i]).peer_id != (#[trigger] ds[j]).peer_id
    &&& forall|k: Seq<u8>|
        #[trigger] m.contains_key(k) ==> exists|i: int|
            0 <= i < ds.len() && (#[trigger] ds[i]).peer_id == k
}

/// Plan a broadcast: encode `env` once and address the bytes to every
/// registered peer other than `exclude`. The plan is a point-in-time
/// snapshot; peers joining or leaving afterwards are unaffected.
pub fn broadcast_plan(reg: &Registry, exclude: &Vec<u8>, env: &Envelope) -> (r: Vec<Delivery>)
    requires
        reg.wf(),
    ensures
        fans_out_to(deliveries_model(r@), reg@.remove(exclude@), spec_encode(env@)),
{
    let bytes = encode(env);
    let snap = reg.snapshot_except(exclude);
    let ghost sn = entries_model(snap@);
    let mut out: Vec<Delivery> = Vec::new();
    let mut i: usize = 0;
    while i < snap.len()
        invariant
            out@.len() == i,
            i <= snap@.len(),
            sn == entries_model(snap@),
            bytes@ == spec_encode(env@),
            forall|a: int|
                0 <= a < i ==> (#[trigger] out@[a])@.peer_id == sn[a].peer_id && out@[a]@.handle
                    == sn[a].handle && out@[a]@.bytes == bytes@,
        decreases snap@.len() - i,
    {
        let e = &snap[i];
        out.push(
            Delivery {
                peer_id: bytes_clone(&e.peer_id),
                handle: e.handle,
                bytes: bytes_clone(&bytes),
            },
        );
        i = i + 1;
    }
    proof {
        let ds = deliveries_model(out@);
        let m = reg@.remove(exclude@);
        assert forall|a: int| 0 <= a < ds.len() implies m.contains_key(
            (#[trigger] ds[a]).peer_id,
        ) && ds[a].handle == m[ds[a].peer_id].handle && ds[a].bytes == spec_encode(env@) by {
            assert(ds[a] == out@[a]@);
            assert(sn[a].peer_id != exclude@ && reg@.contains_key(sn[a].peer_id)
                && reg@[sn[a].peer_id] == sn[a].info());
        }
        assert forall|k: Seq<u8>| #[trigger] m.contains_key(k) implies exists|a: int|
            0 <= a < ds.len() && (#[trigger] ds[a]).peer_id == k by {
            assert(reg@.contains_key(k) && k != exclude@);
            let j = choose|j: int| 0 <= j < sn.len() && (#[trigger] sn[j]).peer_id == k;
            assert(ds[j].peer_id == k);
        }
        assert forall|a: int, b: int| 0 <= a < b < ds.len() implies (#[trigger] ds[a]).peer_id
            != (#[trigger] ds[b]).peer_id by {
            assert(sn[a].peer_id != sn[b].peer_id);
        }
    }
    out
}

/// Whether the peer `k` receives the broadcast, given the per-delivery
/// outcomes `ok` of one fan-out attempt.
pub open spec fn spec_delivered(ds: Seq<DeliveryModel>, ok: Seq<bool>, k: Seq<u8>) -> bool {
    exists|i: int|
        0 <= i < ds.len() && i < ok.len() && (#[trigger] ds[i]).peer_id == k && ok[i]
}

/// Send failures during a fan-out are isolated: any target peer whose own
/// send succeeded receives the message, whatever happened to the sends
/// addressed to every other peer — a failure towards one recipient never
/// costs another recipient its copy.
pub proof fn lemma_send_failure_isolated(
    ds: Seq<DeliveryModel>,
    m: Map<Seq<u8>, PeerInfo>,
    bytes: Seq<u8>,
    ok: Seq<bool>,
    c: Seq<u8>,
)
    requires
        fans_out_to(ds, m, bytes),
        m.contains_key(c),
        ok.len() == ds.len(),
        forall|i: int| 0 <= i < ds.len() && (#[trigger] ds[i]).peer_id == c ==> ok[i],
    ensures
        spec_delivered(ds, ok, c),
{
    let i = choose|i: int| 0 <= i < ds.len() && (#[trigger] ds[i]).peer_id == c;
    assert(ok[i]);
}

/// The deliveries of `plan` whose outcome in `ok` is success, in order: the
/// set of peers one fan-out attempt actually reached.
pub open spec fn spec_successes(ds: Seq<DeliveryModel>, ok: Seq<bool>) -> Seq<DeliveryModel>
    decreases ds.len(),
{
    if ds.len() == 0 || ok.len() == 0 {
        Seq::empty()
    } else {
        let rest = spec_successes(ds.drop_first(), ok.drop_first());
        if ok[0] {
            seq![ds[0]] + rest
        } else {
            rest
        }
    }
}

/// Copy one planned send.
fn clone_delivery(d: &Delivery) -> (r: Delivery)
    ensures
        r@ == d@,
{
    Delivery {
        peer_id: bytes_clone(&d.peer_id),
        handle: d.handle,
        bytes: bytes_clone(&d.bytes),
    }
}

/// The suffix of the successful deliveries from `pos` on.
fn successes_from(plan: &Vec<Delivery>, ok: &Vec<bool>, pos: usize) -> (r: Vec<Delivery>)
    requires
        plan@.len() == ok@.len(),
        pos <= plan@.len(),
    ensures
        deliveries_model(r@) == spec_successes(
            deliveries_model(plan@).skip(pos as int),
            ok@.skip(pos as int),
        ),
    decreases plan@.len() - pos,
{
    let ghost ds = deliveries_model(plan@).skip(pos as int);
    let ghost oks = ok@.skip(pos as int);
    if pos == plan.len() {
        let r: Vec<Delivery> = Vec::new();
        proof {
            assert(ds.len() == 0);
            assert(deliveries_model(r@) =~= spec_successes(ds, oks));
        }
        r
    } else {
        let mut rest = successes_from(plan, ok, pos + 1);
        proof {
            assert(ds.drop_first() =~= deliveries_model(plan@).skip(pos + 1));
            assert(oks.drop_first() =~= ok@.skip(pos + 1));
        }
        if ok[pos] {
            let ghost rest0 = rest@;
            rest.insert(0, clone_delivery(&plan[pos]));
            proof {
                assert(ds[0] == plan@[pos as int]@);
                assert(oks[0] == ok@[pos as int]);
                assert(deliveries_model(rest@) =~= seq![ds[0]] + deliveries_model(rest0));
            }
            rest
        } else {
            proof {
                assert(oks[0] == ok@[pos as int]);
            }
            rest
        }
    }
}

/// Perform-model of one fan-out attempt: given the plan and each send's
/// outcome, the deliveries that reached their peer. A failed send only ever
/// removes its own target from this set.
pub fn delivered_targets(plan: &Vec<Delivery>, ok: &Vec<bool>) -> (r: Vec<Delivery>)
    requires
        plan@.len() == ok@.len(),
    ensures
        deliveries_model(r@) == spec_successes(deliveries_model(plan@), ok@),
{
    let r = successes_from(plan, ok, 0);
    proof {
        assert(deliveries_model(plan@).skip(0) =~= deliveries_model(plan@));
        assert(ok@.skip(0) =~= ok@);
    }
    r
}

} // verus!
