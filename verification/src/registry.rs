//! The peer registry: the store of currently live peers and their send
//! handles.
//!
//! Its mathematical model is a finite map from peer identifier to the peer's
//! metadata. `insert` adds or replaces (a duplicate identifier overwrites the
//! earlier entry: last connect wins), `remove` is idempotent, and
//! `snapshot_except` returns a point-in-time copy of every entry but one
//! excluded identifier — the fan-out set of a broadcast.
//!
//! The registry itself is a sequential structure; a server shares it behind
//! one lock, held only for the duration of a mutation or a snapshot, never
//! across a send.

use vstd::prelude::*;
use crate::bytestr::{bytes_clone, bytes_eq};

verus! {

/// One live peer: its stable identifier, its mutable display name, and the
/// opaque handle under which the transport knows its outbound connection.
#[derive(Debug, PartialEq, Eq)]
pub struct PeerEntry {
    pub peer_id: Vec<u8>,
    pub display_name: Vec<u8>,
    pub handle: u64,
}

/// Mathematical model of a [`PeerEntry`].
#[verifier::ext_equal]
pub struct PeerEntryModel {
    pub peer_id: Seq<u8>,
    pub display_name: Seq<u8>,
    pub handle: u64,
}

/// What the registry stores about a peer, keyed by its identifier.
#[verifier::ext_equal]
pub struct PeerInfo {
    pub display_name: Seq<u8>,
    pub handle: u64,
}

impl View for PeerEntry {
    type V = PeerEntryModel;

    open spec fn view(&self) -> PeerEntryModel {
        PeerEntryModel {
            peer_id: self.peer_id@,
            display_name: self.display_name@,
            handle: self.handle,
        }
    }
}

impl PeerEntryModel {
    /// The keyed part of an entry.
    pub open spec fn info(self) -> PeerInfo {
        PeerInfo { display_name: self.display_name, handle: self.handle }
    }
}

/// The model of a sequence of in-memory entries.
pub open spec fn entries_model(s: Seq<PeerEntry>) -> Seq<PeerEntryModel> {
    Seq::new(s.len(), |i: int| s[i]@)
}

/// No two entries share an identifier.
pub open spec fn distinct_ids(s: Seq<PeerEntryModel>) -> bool {
    forall|i: int, j: int|
        0 <= i < j < s.len() ==> (#[trigger] s[i]).peer_id != (#[trigger] s[j]).peer_id
}

/// The finite map an entry sequence stands for; a later entry for the same
/// identifier wins.
pub open spec fn entries_map(s: Seq<PeerEntryModel>) -> Map<Seq<u8>, PeerInfo>
    decreases s.len(),
{
    if s.len() == 0 {
        Map::empty()
    } else {
        entries_map(s.drop_last()).insert(s.last().peer_id, s.last().info())
    }
}

/// Identifier membership in the map is occurrence in the sequence.
proof fn lemma_entries_map_contains(s: Seq<PeerEntryModel>, k: Seq<u8>)
    ensures
        entries_map(s).contains_key(k) <==> exists|i: int| 0 <= i < s.len() && (#[trigger] s[i])
            .peer_id == k,
    decreases s.len(),
{
    if s.len() > 0 {
        lemma_entries_map_contains(s.drop_last(), k);
        if s.last().peer_id == k {
            assert(s[s.len() - 1].peer_id == k);
        } else if entries_map(s).contains_key(k) {
            let i = choose|i: int| 0 <= i < s.drop_last().len() && (#[trigger] s.drop_last()[i])
                .peer_id == k;
            assert(s[i].peer_id == k);
        } else {
            assert forall|i: int| 0 <= i < s.len() && (#[trigger] s[i]).peer_id == k implies
                false by {
                if i < s.len() - 1 {
                    assert(s.drop_last()[i].peer_id == k);
                }
            }
        }
    }
}

/// With distinct identifiers, each entry is what the map stores for its key.
proof fn lemma_entries_map_lookup(s: Seq<PeerEntryModel>, i: int)
    requires
        distinct_ids(s),
        0 <= i < s.len(),
    ensures
        entries_map(s).contains_key(s[i].peer_id),
        entries_map(s)[s[i].peer_id] == s[i].info(),
    decreases s.len(),
{
    if i == s.len() - 1 {
        assert(entries_map(s) == entries_map(s.drop_last()).insert(s.last().peer_id, s.last()
            .info()));
    } else {
        assert(distinct_ids(s.drop_last())) by {
            assert(forall|a: int, b: int|
                0 <= a < b < s.drop_last().len() ==> (#[trigger] s.drop_last()[a]).peer_id != (
                #[trigger] s.drop_last()[b]).peer_id);
        }
        assert(s.drop_last()[i] == s[i]);
        lemma_entries_map_lookup(s.drop_last(), i);
        assert(s[i].peer_id != s.last().peer_id);
    }
}

/// With distinct identifiers, the map has exactly one key per entry.
proof fn lemma_entries_map_len(s: Seq<PeerEntryModel>)
    requires
        distinct_ids(s),
    ensures
        entries_map(s).dom().finite(),
        entries_map(s).len() == s.len(),
    decreases s.len(),
{
    if s.len() == 0 {
        assert(entries_map(s).dom() =~= Set::<Seq<u8>>::empty());
    } else {
        assert(distinct_ids(s.drop_last()));
        lemma_entries_map_len(s.drop_last());
        lemma_entries_map_contains(s.drop_last(), s.last().peer_id);
        assert(forall|i: int|
            0 <= i < s.drop_last().len() ==> (#[trigger] s.drop_last()[i]).peer_id != s.last()
                .peer_id);
        assert(!entries_map(s.drop_last()).contains_key(s.last().peer_id));
    }
}

/// Appending an entry inserts its key.
proof fn lemma_entries_map_push(s: Seq<PeerEntryModel>, e: PeerEntryModel)
    ensures
        entries_map(s.push(e)) == entries_map(s).insert(e.peer_id, e.info()),
{
    assert(s.push(e).drop_last() =~= s);
    assert(s.push(e).last() == e);
}

/// Replacing the entry that holds a key overwrites that key's value.
proof fn lemma_entries_map_update(s: Seq<PeerEntryModel>, i: int, e: PeerEntryModel)
    requires
        distinct_ids(s),
        0 <= i < s.len(),
        s[i].peer_id == e.peer_id,
    ensures
        entries_map(s.update(i, e)) == entries_map(s).insert(e.peer_id, e.info()),
    decreases s.len(),
{
    let t = s.update(i, e);
    if i == s.len() - 1 {
        assert(t.drop_last() =~= s.drop_last());
        assert(t.last() == e);
        assert(entries_map(t) == entries_map(s.drop_last()).insert(e.peer_id, e.info()));
        assert(entries_map(s.drop_last()).insert(s.last().peer_id, s.last().info()).insert(
            e.peer_id,
            e.info(),
        ) =~= entries_map(s.drop_last()).insert(e.peer_id, e.info()));
    } else {
        assert(distinct_ids(s.drop_last()));
        assert(s.drop_last()[i] == s[i]);
        lemma_entries_map_update(s.drop_last(), i, e);
        assert(t.drop_last() =~= s.drop_last().update(i, e));
        assert(t.last() == s.last());
        assert(s.last().peer_id != e.peer_id);
        assert(entries_map(t) == entries_map(s.drop_last()).insert(e.peer_id, e.info()).insert(
            s.last().peer_id,
            s.last().info(),
        ));
        assert(entries_map(s.drop_last()).insert(e.peer_id, e.info()).insert(
            s.last().peer_id,
            s.last().info(),
        ) =~= entries_map(s.drop_last()).insert(s.last().peer_id, s.last().info()).insert(
            e.peer_id,
            e.info(),
        ));
    }
}

/// Removing the entry that holds a key removes that key.
proof fn lemma_entries_map_remove(s: Seq<PeerEntryModel>, i: int)
    requires
        distinct_ids(s),
        0 <= i < s.len(),
    ensures
        entries_map(s.remove(i)) == entries_map(s).remove(s[i].peer_id),
    decreases s.len(),
{
    let t = s.remove(i);
    if i == s.len() - 1 {
        assert(t =~= s.drop_last());
        lemma_entries_map_contains(s.drop_last(), s.last().peer_id);
        assert(forall|j: int|
            0 <= j < s.drop_last().len() ==> (#[trigger] s.drop_last()[j]).peer_id != s.last()
                .peer_id);
        assert(!entries_map(s.drop_last()).contains_key(s.last().peer_id));
        assert(entries_map(s.drop_last()).insert(s.last().peer_id, s.last().info()).remove(
            s.last().peer_id,
        ) =~= entries_map(s.drop_last()));
    } else {
        assert(distinct_ids(s.drop_last()));
        assert(s.drop_last()[i] == s[i]);
        lemma_entries_map_remove(s.drop_last(), i);
        assert(t.drop_last() =~= s.drop_last().remove(i));
        assert(t.last() == s.last());
        assert(s.last().peer_id != s[i].peer_id);
        assert(entries_map(t) == entries_map(s.drop_last()).remove(s[i].peer_id).insert(
            s.last().peer_id,
            s.last().info(),
        ));
        assert(entries_map(s.drop_last()).remove(s[i].peer_id).insert(
            s.last().peer_id,
            s.last().info(),
        ) =~= entries_map(s.drop_last()).insert(s.last().peer_id, s.last().info()).remove(
            s[i].peer_id,
        ));
    }
}

/// What `snapshot_except` promises: the snapshot holds exactly one entry for
/// every registered peer other than the excluded identifier, each carrying
/// what the registry stores for it, and nothing else.
pub open spec fn snapshot_matches(
    snap: Seq<PeerEntryModel>,
    m: Map<Seq<u8>, PeerInfo>,
    exclude: Seq<u8>,
) -> bool {
    &&& forall|i: int|
        0 <= i < snap.len() ==> (#[trigger] snap[i]).peer_id != exclude && m.contains_key(
            snap[i].peer_id,
        ) && m[snap[i].peer_id] == snap[i].info()
    &&& distinct_ids(snap)
    &&& forall|k: Seq<u8>|
        #[trigger] m.contains_key(k) && k != exclude ==> exists|i: int|
            0 <= i < snap.len() && (#[trigger] snap[i]).peer_id == k
}

/// A snapshot taken for exclusion `exclude` after `removed` has been removed
/// includes neither: no send is ever planned to the excluded peer, nor to one
/// removed before the snapshot was taken.
pub proof fn lemma_snapshot_never_includes_removed(
    snap: Seq<PeerEntryModel>,
    m: Map<Seq<u8>, PeerInfo>,
    removed: Seq<u8>,
    exclude: Seq<u8>,
)
    requires
        snapshot_matches(snap, m.remove(removed), exclude),
    ensures
        forall|i: int|
            0 <= i < snap.len() ==> (#[trigger] snap[i]).peer_id != exclude && snap[i].peer_id
                != removed,
{
    assert forall|i: int| 0 <= i < snap.len() implies (#[trigger] snap[i]).peer_id != exclude
        && snap[i].peer_id != removed by {
        assert(m.remove(removed).contains_key(snap[i].peer_id));
    }
}

/// Removing a peer is idempotent: removing it twice in a row leaves the
/// registry state identical to removing it once.
pub proof fn lemma_remove_idempotent(m: Map<Seq<u8>, PeerInfo>, peer_id: Seq<u8>)
    ensures
        m.remove(peer_id).remove(peer_id) == m.remove(peer_id),
{
    assert(m.remove(peer_id).remove(peer_id) =~= m.remove(peer_id));
}

/// The concurrent store of currently live peers. Modelled as a finite map
/// from peer identifier to [`PeerInfo`].
pub struct Registry {
    entries: Vec<PeerEntry>,
}

impl View for Registry {
    type V = Map<Seq<u8>, PeerInfo>;

    closed spec fn view(&self) -> Map<Seq<u8>, PeerInfo> {
        entries_map(entries_model(self.entries@))
    }
}

impl Registry {
    /// Internal invariant: entries carry pairwise distinct identifiers.
    pub closed spec fn wf(&self) -> bool {
        distinct_ids(entries_model(self.entries@))
    }

    /// An empty registry.
    pub fn new() -> (r: Registry)
        ensures
            r.wf(),
            r@ == Map::<Seq<u8>, PeerInfo>::empty(),
    {
        let r = Registry { entries: Vec::new() };
        proof {
            assert(entries_model(r.entries@) =~= Seq::<PeerEntryModel>::empty());
        }
        r
    }

    /// The position of the entry for `id`, if any.
    fn find(&self, id: &Vec<u8>) -> (r: Option<usize>)
        ensures
            match r {
                Option::Some(i) => i < self.entries@.len() && self.entries@[i as int]@.peer_id
                    == id@,
                Option::None => forall|j: int|
                    0 <= j < self.entries@.len() ==> (#[trigger] self.entries@[j])@.peer_id
                        != id@,
            },
    {
        let mut i: usize = 0;
        while i < self.entries.len()
            invariant
                i <= self.entries@.len(),
                forall|j: int|
                    0 <= j < i ==> (#[trigger] self.entries@[j])@.peer_id != id@,
            decreases self.entries@.len() - i,
        {
            if bytes_eq(&self.entries[i].peer_id, id) {
                return Option::Some(i);
            }
            i = i + 1;
        }
        Option::None
    }

    /// Number of live peers.
    pub fn len(&self) -> (n: usize)
        requires
            self.wf(),
        ensures
            n == self@.len(),
    {
        proof {
            lemma_entries_map_len(entries_model(self.entries@));
        }
        self.entries.len()
    }

    /// Whether a peer with this identifier is live.
    pub fn contains(&self, peer_id: &Vec<u8>) -> (r: bool)
        requires
            self.wf(),
        ensures
            r == self@.contains_key(peer_id@),
    {
        proof {
            lemma_entries_map_contains(entries_model(self.entries@), peer_id@);
        }
        let ghost s = entries_model(self.entries@);
        match self.find(peer_id) {
            Option::Some(i) => {
                proof {
                    assert(s[i as int].peer_id == peer_id@);
                }
                true
            },
            Option::None => {
                proof {
                    assert forall|j: int| 0 <= j < s.len() implies (#[trigger] s[j]).peer_id
                        != peer_id@ by {
                        assert(self.entries@[j]@.peer_id != peer_id@);
                    }
                }
                false
            },
        }
    }

    /// The display name stored for a peer, if it is live.
    pub fn display_name_of(&self, peer_id: &Vec<u8>) -> (r: Option<Vec<u8>>)
        requires
            self.wf(),
        ensures
            match r {
                Option::Some(name) => self@.contains_key(peer_id@) && name@ == self@[peer_id@]
                    .display_name,
                Option::None => !self@.contains_key(peer_id@),
            },
    {
        let ghost s = entries_model(self.entries@);
        proof {
            lemma_entries_map_contains(s, peer_id@);
        }
        match self.find(peer_id) {
            Option::Some(i) => {
                proof {
                    assert(s[i as int].peer_id == peer_id@);
                    lemma_entries_map_lookup(s, i as int);
                }
                Option::Some(bytes_clone(&self.entries[i].display_name))
            },
            Option::None => {
                proof {
                    assert forall|j: int| 0 <= j < s.len() implies (#[trigger] s[j]).peer_id
                        != peer_id@ by {
                        assert(self.entries@[j]@.peer_id != peer_id@);
                    }
                }
                Option::None
            },
        }
    }

    /// A point-in-time copy of every entry whose identifier differs from
    /// `exclude`: the fan-out set of one broadcast. Entries that join or
    /// leave afterwards do not affect a snapshot already taken.
    /// The connection handle stored for a peer, if it is live.
    pub fn handle_of(&self, peer_id: &Vec<u8>) -> (r: Option<u64>)
        requires
            self.wf(),
        ensures
            match r {
                Option::Some(h) => self@.contains_key(peer_id@) && h == self@[peer_id@].handle,
                Option::None => !self@.contains_key(peer_id@),
            },
    {
        let ghost s = entries_model(self.entries@);
        proof {
            lemma_entries_map_contains(s, peer_id@);
        }
        match self.find(peer_id) {
            Option::Some(i) => {
                proof {
                    assert(s[i as int].peer_id == peer_id@);
                    lemma_entries_map_lookup(s, i as int);
                }
                Option::Some(self.entries[i].handle)
            },
            Option::None => {
                proof {
                    assert forall|j: int| 0 <= j < s.len() implies (#[trigger] s[j]).peer_id
                        != peer_id@ by {
                        assert(self.entries@[j]@.peer_id != peer_id@);
                    }
                }
                Option::None
            },
        }
    }

    /// A point-in-time copy of every entry whose identifier differs from
    /// `exclude`: the fan-out set of one broadcast. Entries that join or
    /// leave afterwards do not affect a snapshot already taken.
    pub fn snapshot_except(&self, exclude: &Vec<u8>) -> (r: Vec<PeerEntry>)
        requires
            self.wf(),
        ensures
            snapshot_matches(entries_model(r@), self@, exclude@),
    {
        let ghost s = entries_model(self.entries@);
        let mut out: Vec<PeerEntry> = Vec::new();
        let ghost mut src: Seq<int> = Seq::empty();
        let mut i: usize = 0;
        while i < self.entries.len()
            invariant
                self.wf(),
                i <= self.entries@.len(),
                s == entries_model(self.entries@),
                src.len() == out@.len(),
                forall|a: int|
                    0 <= a < src.len() ==> 0 <= #[trigger] src[a] < i && out@[a]@ == s[src[a]]
                        && s[src[a]].peer_id != exclude@,
                forall|a: int, b: int| 0 <= a < b < src.len() ==> src[a] < src[b],
                forall|j: int|
                    0 <= j < i && (#[trigger] s[j]).peer_id != exclude@ ==> exists|a: int|
                        #![trigger src[a]]
                        0 <= a < src.len() && src[a] == j,
            decreases self.entries@.len() - i,
        {
            let e = &self.entries[i];
            if !bytes_eq(&e.peer_id, exclude) {
                let copy = PeerEntry {
                    peer_id: bytes_clone(&e.peer_id),
                    display_name: bytes_clone(&e.display_name),
                    handle: e.handle,
                };
                proof {
                    assert(copy@ == s[i as int]);
                }
                out.push(copy);
                proof {
                    let src0 = src;
                    src = src.push(i as int);
                    assert forall|j: int|
                        0 <= j < i + 1 && (#[trigger] s[j]).peer_id != exclude@ implies exists|
                        a: int|
                        #![trigger src[a]]
                        0 <= a < src.len() && src[a] == j by {
                        if j == i {
                            assert(src[src.len() - 1] == j);
                        } else {
                            let a = choose|a: int|
                                #![trigger src0[a]]
                                0 <= a < src0.len() && src0[a] == j;
                            assert(src[a] == j);
                        }
                    }
                }
            }
            i = i + 1;
        }
        proof {
            let sn = entries_model(out@);
            assert forall|a: int| 0 <= a < sn.len() implies (#[trigger] sn[a]).peer_id
                != exclude@ && self@.contains_key(sn[a].peer_id) && self@[sn[a].peer_id]
                == sn[a].info() by {
                assert(sn[a] == s[src[a]]);
                lemma_entries_map_lookup(s, src[a]);
            }
            assert forall|a: int, b: int| 0 <= a < b < sn.len() implies (#[trigger] sn[a])
                .peer_id != (#[trigger] sn[b]).peer_id by {
                assert(sn[a] == s[src[a]]);
                assert(sn[b] == s[src[b]]);
                assert(src[a] < src[b]);
            }
            assert forall|k: Seq<u8>| #[trigger] self@.contains_key(k) && k != exclude@ implies
                exists|i2: int| 0 <= i2 < sn.len() && (#[trigger] sn[i2]).peer_id == k by {
                lemma_entries_map_contains(s, k);
                let j = choose|j: int| 0 <= j < s.len() && (#[trigger] s[j]).peer_id == k;
                let a = choose|a: int|
                    #![trigger src[a]]
                    0 <= a < src.len() && src[a] == j;
                assert(sn[a] == s[j]);
                assert(sn[a].peer_id == k);
            }
        }
        out
    }

    /// Add or replace the entry for `peer_id`; a duplicate identifier
    /// overwrites the earlier entry (last connect wins). Returns the
    /// resulting peer count.
    pub fn insert(&mut self, peer_id: Vec<u8>, display_name: Vec<u8>, handle: u64) -> (count:
        usize)
        requires
            old(self).wf(),
        ensures
            final(self).wf(),
            final(self)@ == old(self)@.insert(
                peer_id@,
                PeerInfo { display_name: display_name@, handle },
            ),
            count == final(self)@.len(),
    {
        let ghost s0 = entries_model(self.entries@);
        let entry = PeerEntry { peer_id, display_name, handle };
        let ghost em = entry@;
        match self.find(&entry.peer_id) {
            Option::Some(i) => {
                proof {
                    assert(s0[i as int].peer_id == em.peer_id);
                }
                self.entries.set(i, entry);
                proof {
                    assert(entries_model(self.entries@) =~= s0.update(i as int, em));
                    lemma_entries_map_update(s0, i as int, em);
                    assert(forall|a: int|
                        0 <= a < s0.len() ==> (#[trigger] s0.update(i as int, em)[a]).peer_id
                            == s0[a].peer_id);
                    assert(distinct_ids(entries_model(self.entries@)));
                    lemma_entries_map_len(entries_model(self.entries@));
                }
            },
            Option::None => {
                proof {
                    assert forall|j: int| 0 <= j < s0.len() implies (#[trigger] s0[j]).peer_id
                        != em.peer_id by {
                        assert(old(self).entries@[j]@.peer_id != em.peer_id);
                    }
                }
                self.entries.push(entry);
                proof {
                    assert(entries_model(self.entries@) =~= s0.push(em));
                    lemma_entries_map_push(s0, em);
                    assert(distinct_ids(entries_model(self.entries@)));
                    lemma_entries_map_len(entries_model(self.entries@));
                }
            },
        }
        self.entries.len()
    }

    /// Delete the entry for `peer_id` if present; a no-op when absent, so a
    /// racing double-remove is harmless.
    pub fn remove(&mut self, peer_id: &Vec<u8>)
        requires
            old(self).wf(),
        ensures
            final(self).wf(),
            final(self)@ == old(self)@.remove(peer_id@),
    {
        let ghost s0 = entries_model(self.entries@);
        match self.find(peer_id) {
            Option::Some(i) => {
                self.entries.remove(i);
                proof {
                    assert(entries_model(self.entries@) =~= s0.remove(i as int));
                    lemma_entries_map_remove(s0, i as int);
                    assert(distinct_ids(entries_model(self.entries@))) by {
                        assert(forall|a: int, b: int|
                            0 <= a < b < s0.remove(i as int).len()
                                ==> (#[trigger] s0.remove(i as int)[a]).peer_id != (
                            #[trigger] s0.remove(i as int)[b]).peer_id);
                    }
                }
            },
            Option::None => {
                proof {
                    assert forall|j: int| 0 <= j < s0.len() implies (#[trigger] s0[j]).peer_id
                        != peer_id@ by {
                        assert(self.entries@[j]@.peer_id != peer_id@);
                    }
                    lemma_entries_map_contains(s0, peer_id@);
                    assert(!old(self)@.contains_key(peer_id@));
                    assert(old(self)@.remove(peer_id@) =~= old(self)@);
                }
            },
        }
    }

    /// Overwrite the display name of a live peer; a no-op when the peer is
    /// not registered.
    pub fn update_display_name(&mut self, peer_id: &Vec<u8>, name: Vec<u8>)
        requires
            old(self).wf(),
        ensures
            final(self).wf(),
            final(self)@ == if old(self)@.contains_key(peer_id@) {
                old(self)@.insert(
                    peer_id@,
                    PeerInfo { display_name: name@, handle: old(self)@[peer_id@].handle },
                )
            } else {
                old(self)@
            },
    {
        let ghost s0 = entries_model(self.entries@);
        match self.find(peer_id) {
            Option::Some(i) => {
                proof {
                    lemma_entries_map_lookup(s0, i as int);
                }
                let handle = self.entries[i].handle;
                let id2 = bytes_clone(&self.entries[i].peer_id);
                let entry = PeerEntry { peer_id: id2, display_name: name, handle };
                let ghost em = entry@;
                self.entries.set(i, entry);
                proof {
                    assert(entries_model(self.entries@) =~= s0.update(i as int, em));
                    lemma_entries_map_update(s0, i as int, em);
                    assert(distinct_ids(entries_model(self.entries@)));
                }
            },
            Option::None => {
                proof {
                    assert forall|j: int| 0 <= j < s0.len() implies (#[trigger] s0[j]).peer_id
                        != peer_id@ by {
                        assert(self.entries@[j]@.peer_id != peer_id@);
                    }
                    lemma_entries_map_contains(s0, peer_id@);
                }
            },
        }
    }
}

} // verus!
