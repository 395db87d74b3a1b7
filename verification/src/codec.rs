//! Binary wire codec for [`Envelope`].
//!
//! Layout, all lengths little-endian 64-bit:
//!
//! ```text
//! [ event tag: 1 byte ] [ body flag: 1 byte ]
//! body flag 0: nothing follows
//! body flag 1: [ method len: 8 ][ method ][ entry count: 8 ]
//!              then per entry [ key len: 8 ][ key ][ value len: 8 ][ value ]
//! ```
//!
//! Encoding is total and deterministic; decoding accepts exactly the byte
//! strings that some envelope encodes to, and rejects everything else
//! (truncated input, an unknown tag or flag, or trailing bytes).

use vstd::prelude::*;
use vstd::bytes::{
    spec_u64_from_le_bytes, spec_u64_to_le_bytes, u64_from_le_bytes, u64_to_le_bytes,
};
use vstd::slice::{slice_subrange, slice_to_vec};
use crate::envelope::{Envelope, EnvelopeModel, EventData, EventDataModel, EventKind, Pair,
    PairModel};

verus! {

/// Rejection of a malformed binary frame. Never fatal to a session: the
/// caller drops the frame and keeps its connection open.
#[derive(Clone, Copy, PartialEq, Eq, Structural, Debug)]
pub enum DecodeError {
    /// The bytes are not the encoding of any envelope.
    Malformed,
}

/// The model of a sequence of in-memory payload entries.
pub open spec fn pairs_model(s: Seq<Pair>) -> Seq<PairModel> {
    Seq::new(s.len(), |i: int| s[i]@)
}

/// The wire tag of each event kind.
pub open spec fn spec_event_tag(k: EventKind) -> u8 {
    match k {
        EventKind::Request => 0u8,
        EventKind::Notification => 1u8,
        EventKind::System => 2u8,
    }
}

/// The event kind of a recognized wire tag.
pub open spec fn spec_kind_of_tag(t: u8) -> EventKind
    recommends
        t == 0 || t == 1 || t == 2,
{
    if t == 0 {
        EventKind::Request
    } else if t == 1 {
        EventKind::Notification
    } else {
        EventKind::System
    }
}

/// A byte string on the wire: its length, then its bytes.
pub open spec fn spec_encode_str(s: Seq<u8>) -> Seq<u8> {
    spec_u64_to_le_bytes(s.len() as u64) + s
}

/// The payload entries on the wire, in order.
pub open spec fn spec_encode_pairs(ps: Seq<PairModel>) -> Seq<u8>
    decreases ps.len(),
{
    if ps.len() == 0 {
        Seq::empty()
    } else {
        spec_encode_str(ps[0].key) + spec_encode_str(ps[0].value) + spec_encode_pairs(
            ps.drop_first(),
        )
    }
}

/// An envelope body on the wire: method, entry count, entries.
pub open spec fn spec_encode_data(d: EventDataModel) -> Seq<u8> {
    spec_encode_str(d.method) + spec_u64_to_le_bytes(d.data.len() as u64) + spec_encode_pairs(
        d.data,
    )
}

/// The encoding of an envelope. Total: defined for every envelope model,
/// injective on well-formed ones (see [`lemma_round_trip`]).
pub open spec fn spec_encode(e: EnvelopeModel) -> Seq<u8> {
    match e.event_data {
        Option::None => seq![spec_event_tag(e.event), 0u8],
        Option::Some(d) => seq![spec_event_tag(e.event), 1u8] + spec_encode_data(d),
    }
}

/// Parse `n` length-prefixed key/value entries, requiring that they consume
/// `b` exactly.
pub open spec fn spec_decode_pairs(b: Seq<u8>, n: nat) -> Option<Seq<PairModel>>
    decreases n,
{
    if n == 0 {
        if b.len() == 0 {
            Option::Some(Seq::empty())
        } else {
            Option::None
        }
    } else if b.len() < 8 {
        Option::None
    } else {
        let klen = spec_u64_from_le_bytes(b.subrange(0, 8)) as int;
        if b.len() < 8 + klen {
            Option::None
        } else {
            let key = b.subrange(8, 8 + klen);
            let b1 = b.subrange(8 + klen, b.len() as int);
            if b1.len() < 8 {
                Option::None
            } else {
                let vlen = spec_u64_from_le_bytes(b1.subrange(0, 8)) as int;
                if b1.len() < 8 + vlen {
                    Option::None
                } else {
                    let value = b1.subrange(8, 8 + vlen);
                    let b2 = b1.subrange(8 + vlen, b1.len() as int);
                    match spec_decode_pairs(b2, (n - 1) as nat) {
                        Option::Some(ps) => Option::Some(
                            ps.insert(0, PairModel { key, value }),
                        ),
                        Option::None => Option::None,
                    }
                }
            }
        }
    }
}

/// The envelope a byte string decodes to, or `None` where the bytes are not
/// the encoding of any envelope. This is the codec's whole acceptance
/// condition: the executable decoder returns `Ok` exactly where this is
/// `Some`.
pub open spec fn spec_decode(b: Seq<u8>) -> Option<EnvelopeModel> {
    if b.len() < 2 {
        Option::None
    } else if !(b[0] == 0 || b[0] == 1 || b[0] == 2) {
        Option::None
    } else if b[1] == 0 {
        if b.len() == 2 {
            Option::Some(EnvelopeModel { event: spec_kind_of_tag(b[0]), event_data: Option::None })
        } else {
            Option::None
        }
    } else if b[1] != 1 {
        Option::None
    } else {
        let rest = b.subrange(2, b.len() as int);
        if rest.len() < 8 {
            Option::None
        } else {
            let mlen = spec_u64_from_le_bytes(rest.subrange(0, 8)) as int;
            if rest.len() < 8 + mlen {
                Option::None
            } else {
                let method = rest.subrange(8, 8 + mlen);
                let rest2 = rest.subrange(8 + mlen, rest.len() as int);
                if rest2.len() < 8 {
                    Option::None
                } else {
                    let count = spec_u64_from_le_bytes(rest2.subrange(0, 8));
                    match spec_decode_pairs(rest2.subrange(8, rest2.len() as int), count as nat) {
                        Option::Some(ps) => Option::Some(
                            EnvelopeModel {
                                event: spec_kind_of_tag(b[0]),
                                event_data: Option::Some(
                                    EventDataModel { method, data: ps },
                                ),
                            },
                        ),
                        Option::None => Option::None,
                    }
                }
            }
        }
    }
}

/// Appending one entry to the back of a payload extends its wire form at the
/// back with that entry's key and value.
proof fn lemma_encode_pairs_push(ps: Seq<PairModel>, p: PairModel)
    ensures
        spec_encode_pairs(ps.push(p)) == spec_encode_pairs(ps) + spec_encode_str(p.key)
            + spec_encode_str(p.value),
    decreases ps.len(),
{
    if ps.len() == 0 {
        reveal_with_fuel(spec_encode_pairs, 3);
        assert(ps.push(p)[0] == p);
        assert(ps.push(p).drop_first() =~= Seq::<PairModel>::empty());
        assert(spec_encode_pairs(ps.push(p)) =~= spec_encode_pairs(ps) + spec_encode_str(p.key)
            + spec_encode_str(p.value));
    } else {
        let tail = ps.drop_first();
        let hk = spec_encode_str(ps[0].key);
        let hv = spec_encode_str(ps[0].value);
        let pk = spec_encode_str(p.key);
        let pv = spec_encode_str(p.value);
        assert(ps.push(p).drop_first() =~= tail.push(p));
        assert(ps.push(p)[0] == ps[0]);
        assert(spec_encode_pairs(ps.push(p)) == hk + hv + spec_encode_pairs(tail.push(p)));
        lemma_encode_pairs_push(tail, p);
        assert(hk + hv + (spec_encode_pairs(tail) + pk + pv) =~= (hk + hv + spec_encode_pairs(
            tail,
        )) + pk + pv);
    }
}

/// The wire tag of an event kind.
fn event_tag(k: EventKind) -> (r: u8)
    ensures
        r == spec_event_tag(k),
{
    match k {
        EventKind::Request => 0u8,
        EventKind::Notification => 1u8,
        EventKind::System => 2u8,
    }
}

/// Append a byte vector to the output.
fn push_bytes(dst: &mut Vec<u8>, src: &Vec<u8>)
    ensures
        final(dst)@ == old(dst)@ + src@,
{
    let ghost start = dst@;
    let mut i: usize = 0;
    while i < src.len()
        invariant
            i <= src@.len(),
            dst@ == start + src@.subrange(0, i as int),
        decreases src@.len() - i,
    {
        dst.push(src[i]);
        assert(start + src@.subrange(0, i as int) + seq![src@[i as int]] =~= start + src@.subrange(
            0,
            i + 1,
        ));
        i = i + 1;
    }
    assert(start + src@.subrange(0, src@.len() as int) =~= start + src@);
}

/// Append a 64-bit little-endian length to the output.
fn push_u64_le(dst: &mut Vec<u8>, x: u64)
    ensures
        final(dst)@ == old(dst)@ + spec_u64_to_le_bytes(x),
{
    let bytes = u64_to_le_bytes(x);
    push_bytes(dst, &bytes);
}

/// Append a length-prefixed byte string to the output.
fn push_str(dst: &mut Vec<u8>, s: &Vec<u8>)
    ensures
        final(dst)@ == old(dst)@ + spec_encode_str(s@),
{
    push_u64_le(dst, s.len() as u64);
    push_bytes(dst, s);
    assert(old(dst)@ + spec_u64_to_le_bytes(s@.len() as u64) + s@ =~= old(dst)@ + spec_encode_str(
        s@,
    ));
}

/// Encode an envelope to its wire bytes. Deterministic and total; the result
/// is exactly [`spec_encode`] of the envelope's model, so one call per
/// broadcast suffices for byte-identical payloads to every recipient.
pub fn encode(e: &Envelope) -> (r: Vec<u8>)
    ensures
        r@ == spec_encode(e@),
{
    let mut out: Vec<u8> = Vec::new();
    out.push(event_tag(e.event));
    match e.event_data {
        Option::None => {
            out.push(0u8);
            assert(out@ =~= spec_encode(e@));
        },
        Option::Some(ref d) => {
            out.push(1u8);
            let ghost head = seq![spec_event_tag(e@.event), 1u8];
            assert(out@ =~= head);
            push_str(&mut out, &d.method);
            push_u64_le(&mut out, d.data.len() as u64);
            let ghost mid = head + spec_encode_str(d@.method) + spec_u64_to_le_bytes(
                d@.data.len() as u64,
            );
            assert(out@ =~= mid);
            let mut i: usize = 0;
            while i < d.data.len()
                invariant
                    i <= d.data@.len(),
                    d@.data.len() == d.data@.len(),
                    forall|j: int| 0 <= j < d.data@.len() ==> d@.data[j] == d.data@[j]@,
                    out@ == mid + spec_encode_pairs(d@.data.subrange(0, i as int)),
                decreases d.data@.len() - i,
            {
                let p = &d.data[i];
                push_str(&mut out, &p.key);
                push_str(&mut out, &p.value);
                proof {
                    lemma_encode_pairs_push(d@.data.subrange(0, i as int), d@.data[i as int]);
                    assert(d@.data.subrange(0, i as int).push(d@.data[i as int]) =~= d@.data
                        .subrange(0, i + 1));
                    assert(out@ =~= mid + spec_encode_pairs(d@.data.subrange(0, i + 1)));
                }
                i = i + 1;
            }
            assert(d@.data.subrange(0, d.data@.len() as int) =~= d@.data);
            assert(out@ =~= spec_encode(e@));
        },
    }
    out
}

/// Entry lengths bounded by the wire format's length prefixes.
pub open spec fn pairs_wf(ps: Seq<PairModel>) -> bool {
    forall|i: int|
        0 <= i < ps.len() ==> (#[trigger] ps[i]).key.len() <= u64::MAX && ps[i].value.len()
            <= u64::MAX
}

/// Parsing the wire form of a payload back yields the payload: the entry list
/// round-trips through the codec.
proof fn lemma_pairs_round_trip(ps: Seq<PairModel>)
    requires
        pairs_wf(ps),
    ensures
        spec_decode_pairs(spec_encode_pairs(ps), ps.len()) == Option::Some(ps),
    decreases ps.len(),
{
    vstd::bytes::lemma_auto_spec_u64_to_from_le_bytes();
    if ps.len() == 0 {
        assert(spec_encode_pairs(ps).len() == 0);
        assert(spec_decode_pairs(spec_encode_pairs(ps), 0) == Option::Some(
            Seq::<PairModel>::empty(),
        ));
        assert(Seq::<PairModel>::empty() =~= ps);
    } else {
        let k = ps[0].key;
        let v = ps[0].value;
        let tail = ps.drop_first();
        let b = spec_encode_pairs(ps);
        assert(b == spec_encode_str(k) + spec_encode_str(v) + spec_encode_pairs(tail));
        let klen_bytes = spec_u64_to_le_bytes(k.len() as u64);
        let vlen_bytes = spec_u64_to_le_bytes(v.len() as u64);
        assert(klen_bytes.len() == 8 && vlen_bytes.len() == 8);
        assert(b.subrange(0, 8) =~= klen_bytes);
        assert(spec_u64_from_le_bytes(b.subrange(0, 8)) == k.len() as u64);
        let klen = spec_u64_from_le_bytes(b.subrange(0, 8)) as int;
        assert(klen == k.len());
        assert(b.len() >= 8 + klen);
        assert(b.subrange(8, 8 + klen) =~= k);
        let b1 = b.subrange(8 + klen, b.len() as int);
        assert(b1 =~= spec_encode_str(v) + spec_encode_pairs(tail));
        assert(b1.subrange(0, 8) =~= vlen_bytes);
        let vlen = spec_u64_from_le_bytes(b1.subrange(0, 8)) as int;
        assert(vlen == v.len());
        assert(b1.len() >= 8 + vlen);
        assert(b1.subrange(8, 8 + vlen) =~= v);
        let b2 = b1.subrange(8 + vlen, b1.len() as int);
        assert(b2 =~= spec_encode_pairs(tail));
        assert(pairs_wf(tail));
        lemma_pairs_round_trip(tail);
        assert(spec_decode_pairs(b2, (ps.len() - 1) as nat) == Option::Some(tail));
        assert(spec_decode_pairs(b, ps.len()) == Option::Some(
            tail.insert(0, PairModel { key: b.subrange(8, 8 + klen), value: b1.subrange(
                8,
                8 + vlen,
            ) }),
        ));
        assert(PairModel { key: b.subrange(8, 8 + klen), value: b1.subrange(8, 8 + vlen) }
            =~= ps[0]);
        assert(tail.insert(0, ps[0]) =~= ps);
    }
}

/// Round trip: decoding the encoding of any well-formed envelope yields that
/// envelope back, unchanged.
pub proof fn lemma_round_trip(e: EnvelopeModel)
    requires
        e.wf(),
    ensures
        spec_decode(spec_encode(e)) == Option::Some(e),
{
    vstd::bytes::lemma_auto_spec_u64_to_from_le_bytes();
    let b = spec_encode(e);
    let tag = spec_event_tag(e.event);
    assert(tag == 0 || tag == 1 || tag == 2);
    assert(spec_kind_of_tag(tag) == e.event);
    match e.event_data {
        Option::None => {
            assert(b =~= seq![tag, 0u8]);
            assert(b.len() == 2 && b[0] == tag && b[1] == 0);
            assert(spec_decode(b)->Some_0 =~~= e);
        },
        Option::Some(d) => {
            assert(b == seq![tag, 1u8] + spec_encode_data(d));
            assert(b[0] == tag && b[1] == 1);
            let rest = b.subrange(2, b.len() as int);
            let cnt_bytes = spec_u64_to_le_bytes(d.data.len() as u64);
            assert(rest =~= spec_encode_str(d.method) + cnt_bytes + spec_encode_pairs(d.data));
            let mlen_bytes = spec_u64_to_le_bytes(d.method.len() as u64);
            assert(mlen_bytes.len() == 8 && cnt_bytes.len() == 8);
            assert(rest.subrange(0, 8) =~= mlen_bytes);
            let mlen = spec_u64_from_le_bytes(rest.subrange(0, 8)) as int;
            assert(mlen == d.method.len());
            assert(rest.len() >= 8 + mlen);
            assert(rest.subrange(8, 8 + mlen) =~= d.method);
            let rest2 = rest.subrange(8 + mlen, rest.len() as int);
            assert(rest2 =~= cnt_bytes + spec_encode_pairs(d.data));
            assert(rest2.len() >= 8);
            assert(rest2.subrange(0, 8) =~= cnt_bytes);
            let count = spec_u64_from_le_bytes(rest2.subrange(0, 8));
            assert(count == d.data.len() as u64);
            assert(rest2.subrange(8, rest2.len() as int) =~= spec_encode_pairs(d.data));
            assert(pairs_wf(d.data));
            lemma_pairs_round_trip(d.data);
            assert(spec_decode_pairs(rest2.subrange(8, rest2.len() as int), count as nat)
                == Option::Some(d.data));
            assert(spec_decode(b)->Some_0 =~~= e);
        },
    }
}

/// Parsing is sound: a payload parsed out of `b` is well formed and encodes
/// back to `b` exactly.
proof fn lemma_pairs_sound(b: Seq<u8>, n: nat)
    requires
        spec_decode_pairs(b, n) is Some,
    ensures
        ({
            let ps = spec_decode_pairs(b, n)->Some_0;
            &&& pairs_wf(ps)
            &&& ps.len() == n
            &&& spec_encode_pairs(ps) == b
        }),
    decreases n,
{
    vstd::bytes::lemma_auto_spec_u64_to_from_le_bytes();
    let ps = spec_decode_pairs(b, n)->Some_0;
    if n == 0 {
        assert(spec_encode_pairs(ps) =~= b);
    } else {
        let klen64 = spec_u64_from_le_bytes(b.subrange(0, 8));
        let klen = klen64 as int;
        let key = b.subrange(8, 8 + klen);
        let b1 = b.subrange(8 + klen, b.len() as int);
        let vlen64 = spec_u64_from_le_bytes(b1.subrange(0, 8));
        let vlen = vlen64 as int;
        let value = b1.subrange(8, 8 + vlen);
        let b2 = b1.subrange(8 + vlen, b1.len() as int);
        let tail = spec_decode_pairs(b2, (n - 1) as nat)->Some_0;
        lemma_pairs_sound(b2, (n - 1) as nat);
        let pm = PairModel { key, value };
        assert(ps == tail.insert(0, pm));
        assert(ps[0] == pm);
        assert(ps.drop_first() =~= tail);
        assert(key.len() as u64 == klen64);
        assert(spec_u64_to_le_bytes(key.len() as u64) == b.subrange(0, 8));
        assert(value.len() as u64 == vlen64);
        assert(spec_u64_to_le_bytes(value.len() as u64) == b1.subrange(0, 8));
        assert(spec_encode_pairs(ps) == spec_encode_str(key) + spec_encode_str(value)
            + spec_encode_pairs(tail));
        assert(spec_encode_str(key) + spec_encode_str(value) + b2 =~= b);
        assert(pairs_wf(ps)) by {
            assert(forall|i: int| 1 <= i < ps.len() ==> ps[i] == tail[i - 1]);
        }
    }
}

/// Decoding is sound: a byte string that decodes at all is exactly the
/// encoding of the (well-formed) envelope it decodes to. Together with
/// [`lemma_round_trip`] this pins the codec down completely: the byte
/// strings the decoder accepts are precisely the encodings, one envelope
/// each.
pub proof fn lemma_decode_sound(b: Seq<u8>)
    requires
        spec_decode(b) is Some,
    ensures
        spec_decode(b)->Some_0.wf(),
        spec_encode(spec_decode(b)->Some_0) == b,
{
    vstd::bytes::lemma_auto_spec_u64_to_from_le_bytes();
    let e = spec_decode(b)->Some_0;
    if b[1] == 0 {
        assert(spec_encode(e) =~= b);
    } else {
        let rest = b.subrange(2, b.len() as int);
        let mlen64 = spec_u64_from_le_bytes(rest.subrange(0, 8));
        let mlen = mlen64 as int;
        let method = rest.subrange(8, 8 + mlen);
        let rest2 = rest.subrange(8 + mlen, rest.len() as int);
        let count = spec_u64_from_le_bytes(rest2.subrange(0, 8));
        let pairs_bytes = rest2.subrange(8, rest2.len() as int);
        lemma_pairs_sound(pairs_bytes, count as nat);
        let ps = spec_decode_pairs(pairs_bytes, count as nat)->Some_0;
        let d = EventDataModel { method, data: ps };
        assert(e == EnvelopeModel {
            event: spec_kind_of_tag(b[0]),
            event_data: Option::Some(d),
        });
        assert(method.len() as u64 == mlen64);
        assert(spec_u64_to_le_bytes(method.len() as u64) == rest.subrange(0, 8));
        assert(ps.len() as u64 == count);
        assert(spec_u64_to_le_bytes(ps.len() as u64) == rest2.subrange(0, 8));
        assert(spec_encode_data(d) =~= rest);
        assert(spec_event_tag(e.event) == b[0]);
        assert(spec_encode(e) =~= b);
    }
}

/// Parse one length-prefixed byte string starting at `pos`: its 64-bit
/// length, then that many bytes. Returns the string and the position just
/// after it.
fn read_str(bytes: &Vec<u8>, pos: usize) -> (r: Result<(Vec<u8>, usize), DecodeError>)
    requires
        pos <= bytes@.len(),
    ensures
        ({
            let b = bytes@.subrange(pos as int, bytes@.len() as int);
            match r {
                Ok(se) => {
                    &&& b.len() >= 8
                    &&& ({
                        let slen = spec_u64_from_le_bytes(b.subrange(0, 8)) as int;
                        &&& b.len() >= 8 + slen
                        &&& se.1 == pos + 8 + slen
                        &&& se.0@ == b.subrange(8, 8 + slen)
                    })
                },
                Err(_) => b.len() < 8 || b.len() < 8 + spec_u64_from_le_bytes(
                    b.subrange(0, 8),
                ) as int,
            }
        }),
{
    let ghost b = bytes@.subrange(pos as int, bytes@.len() as int);
    let total = bytes.len();
    if total - pos < 8 {
        return Err(DecodeError::Malformed);
    }
    let len_slice = slice_subrange(bytes.as_slice(), pos, pos + 8);
    assert(len_slice@ =~= b.subrange(0, 8));
    let slen64 = u64_from_le_bytes(len_slice);
    let avail = total - pos - 8;
    assert(avail as u64 == avail);
    if slen64 > avail as u64 {
        assert(b.len() < 8 + slen64 as int);
        return Err(DecodeError::Malformed);
    }
    let slen = slen64 as usize;
    assert(slen as int == slen64 as int);
    let s_slice = slice_subrange(bytes.as_slice(), pos + 8, pos + 8 + slen);
    let s = slice_to_vec(s_slice);
    assert(s@ =~= b.subrange(8, 8 + slen64 as int));
    Ok((s, pos + 8 + slen))
}

/// Parse exactly `n` key/value entries filling `bytes` from `pos` to its end.
fn decode_pairs(bytes: &Vec<u8>, pos: usize, n: u64) -> (r: Result<Vec<Pair>, DecodeError>)
    requires
        pos <= bytes@.len(),
    ensures
        ({
            let b = bytes@.subrange(pos as int, bytes@.len() as int);
            match r {
                Ok(ps) => spec_decode_pairs(b, n as nat) == Option::Some(pairs_model(ps@)),
                Err(_) => spec_decode_pairs(b, n as nat) is None,
            }
        }),
    decreases n,
{
    let ghost b = bytes@.subrange(pos as int, bytes@.len() as int);
    if n == 0 {
        if pos == bytes.len() {
            let ps: Vec<Pair> = Vec::new();
            assert(pairs_model(ps@) =~= Seq::<PairModel>::empty());
            Ok(ps)
        } else {
            Err(DecodeError::Malformed)
        }
    } else {
        match read_str(bytes, pos) {
            Err(e) => Err(e),
            Ok((key, pos1)) => {
                let ghost klen = spec_u64_from_le_bytes(b.subrange(0, 8)) as int;
                proof {
                    assert(b.subrange(0, 8) =~= bytes@.subrange(pos as int, pos + 8));
                    assert(b.subrange(8, 8 + klen) =~= bytes@.subrange(
                        pos + 8,
                        pos + 8 + klen,
                    ));
                    assert(bytes@.subrange(pos1 as int, bytes@.len() as int) =~= b.subrange(
                        8 + klen,
                        b.len() as int,
                    ));
                }
                let ghost b1 = b.subrange(8 + klen, b.len() as int);
                match read_str(bytes, pos1) {
                    Err(e) => Err(e),
                    Ok((value, pos2)) => {
                        let ghost vlen = spec_u64_from_le_bytes(b1.subrange(0, 8)) as int;
                        proof {
                            assert(b1.subrange(0, 8) =~= bytes@.subrange(
                                pos1 as int,
                                pos1 + 8,
                            ));
                            assert(b1.subrange(8, 8 + vlen) =~= bytes@.subrange(
                                pos1 + 8,
                                pos1 + 8 + vlen,
                            ));
                            assert(bytes@.subrange(pos2 as int, bytes@.len() as int)
                                =~= b1.subrange(8 + vlen, b1.len() as int));
                        }
                        match decode_pairs(bytes, pos2, n - 1) {
                            Err(e) => Err(e),
                            Ok(mut tail) => {
                                let ghost tail0 = tail@;
                                tail.insert(0, Pair { key, value });
                                proof {
                                    let pm = PairModel { key: b.subrange(8, 8 + klen), value: b1
                                        .subrange(8, 8 + vlen) };
                                    assert(pairs_model(tail@) =~= pairs_model(tail0).insert(
                                        0,
                                        pm,
                                    ));
                                }
                                Ok(tail)
                            },
                        }
                    },
                }
            },
        }
    }
}

/// Decode wire bytes to an envelope. Succeeds, returning the unique envelope
/// the bytes stand for, exactly where [`spec_decode`] accepts them; every
/// other input is rejected as [`DecodeError::Malformed`].
pub fn decode(bytes: &Vec<u8>) -> (r: Result<Envelope, DecodeError>)
    ensures
        match r {
            Ok(e) => spec_decode(bytes@) == Option::Some(e@),
            Err(_) => spec_decode(bytes@) is None,
        },
{
    if bytes.len() < 2 {
        return Err(DecodeError::Malformed);
    }
    let tag = bytes[0];
    if !(tag == 0 || tag == 1 || tag == 2) {
        return Err(DecodeError::Malformed);
    }
    let kind = if tag == 0 {
        EventKind::Request
    } else if tag == 1 {
        EventKind::Notification
    } else {
        EventKind::System
    };
    let flag = bytes[1];
    if flag == 0 {
        if bytes.len() == 2 {
            Ok(Envelope { event: kind, event_data: Option::None })
        } else {
            Err(DecodeError::Malformed)
        }
    } else if flag != 1 {
        Err(DecodeError::Malformed)
    } else {
        let ghost rest = bytes@.subrange(2, bytes@.len() as int);
        match read_str(bytes, 2) {
            Err(e) => Err(e),
            Ok((method, pos1)) => {
                let ghost mlen = spec_u64_from_le_bytes(rest.subrange(0, 8)) as int;
                let ghost rest2 = rest.subrange(8 + mlen, rest.len() as int);
                proof {
                    assert(bytes@.subrange(pos1 as int, bytes@.len() as int) =~= rest2);
                }
                if bytes.len() - pos1 < 8 {
                    return Err(DecodeError::Malformed);
                }
                let cnt_slice = slice_subrange(bytes.as_slice(), pos1, pos1 + 8);
                assert(cnt_slice@ =~= rest2.subrange(0, 8));
                let count = u64_from_le_bytes(cnt_slice);
                match decode_pairs(bytes, pos1 + 8, count) {
                    Err(e) => {
                        proof {
                            assert(bytes@.subrange(pos1 + 8, bytes@.len() as int)
                                =~= rest2.subrange(8, rest2.len() as int));
                        }
                        Err(e)
                    },
                    Ok(ps) => {
                        let e = Envelope {
                            event: kind,
                            event_data: Option::Some(EventData { method, data: ps }),
                        };
                        proof {
                            assert(bytes@.subrange(pos1 + 8, bytes@.len() as int)
                                =~= rest2.subrange(8, rest2.len() as int));
                            assert(spec_decode(bytes@) == Option::Some(e@)) by {
                                assert(e@.event_data->Some_0.method == rest.subrange(
                                    8,
                                    8 + mlen,
                                ));
                                assert(e@.event_data->Some_0.data =~= pairs_model(ps@));
                                assert(spec_decode(bytes@)->Some_0 =~~= e@);
                            }
                        }
                        Ok(e)
                    },
                }
            },
        }
    }
}

} // verus!
