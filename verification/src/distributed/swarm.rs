use vstd::prelude::*;

use crate::collections::{first_position, lemma_first_position_absent, lemma_first_position_found, StrMap};
use crate::distributed::libp2p::string_seqs;
use crate::distributed::policy::RemotePeerDescriptor;
use crate::distributed::transport::TransportPeerRecord;
use crate::text::opt_text;

verus! {

/// A peer descriptor as text: id, platform, accelerator and transport.
pub type DescriptorView = (Seq<char>, Seq<char>, Option<Seq<char>>, Seq<char>);

/// A peer record as plain values: descriptor, addresses, round trip, last seen, reachability.
pub type PeerRecordView = (DescriptorView, Seq<Seq<char>>, Option<u64>, Option<u64>, bool);

pub open spec fn descriptor_view(d: RemotePeerDescriptor) -> DescriptorView {
    (d.peer_id@, d.platform@, opt_text(d.accelerator), d.transport@)
}

pub open spec fn peer_record_view(r: TransportPeerRecord) -> PeerRecordView {
    (
        descriptor_view(r.descriptor),
        string_seqs(r.addresses@),
        r.average_rtt_ms,
        r.last_seen_unix_ms,
        r.is_reachable,
    )
}

pub open spec fn peer_record_views(v: Seq<TransportPeerRecord>) -> Seq<PeerRecordView> {
    v.map_values(|r: TransportPeerRecord| peer_record_view(r))
}

/// The peer ids of records, in order.
pub open spec fn peer_ids(s: Seq<PeerRecordView>) -> Seq<Seq<char>> {
    s.map_values(|v: PeerRecordView| v.0.0)
}

/// No peer id occurs twice.
pub open spec fn distinct_ids(s: Seq<PeerRecordView>) -> bool {
    forall|i: int, j: int| 0 <= i < j < s.len() ==> #[trigger] s[i].0.0 != #[trigger] s[j].0.0
}

/// The records after `r` is put in: it replaces the record of its peer id, or is appended.
pub open spec fn upserted(s: Seq<PeerRecordView>, r: PeerRecordView) -> Seq<PeerRecordView> {
    match first_position(peer_ids(s), r.0.0) {
        Some(i) => s.update(i, r),
        None => s.push(r),
    }
}

fn copy_optional_text(o: &Option<String>) -> (r: Option<String>)
    ensures
        opt_text(r) == opt_text(*o),
{
    match o {
        Some(s) => Some(s.clone()),
        None => None,
    }
}

fn copy_texts(v: &Vec<String>) -> (r: Vec<String>)
    ensures
        string_seqs(r@) == string_seqs(v@),
{
    let mut out: Vec<String> = Vec::new();
    let mut i: usize = 0;
    while i < v.len()
        invariant
            i <= v.len(),
            out@.len() == i,
            forall|j: int| 0 <= j < i ==> #[trigger] out@[j]@ == v@[j]@,
        decreases v.len() - i,
    {
        out.push(v[i].clone());
        i = i + 1;
    }
    assert(string_seqs(out@) =~= string_seqs(v@));
    out
}

/// A copy of a peer descriptor.
pub fn copy_descriptor(d: &RemotePeerDescriptor) -> (r: RemotePeerDescriptor)
    ensures
        descriptor_view(r) == descriptor_view(*d),
{
    RemotePeerDescriptor {
        peer_id: d.peer_id.clone(),
        platform: d.platform.clone(),
        accelerator: copy_optional_text(&d.accelerator),
        transport: d.transport.clone(),
    }
}

/// A copy of a peer record.
pub fn copy_peer_record(r: &TransportPeerRecord) -> (c: TransportPeerRecord)
    ensures
        peer_record_view(c) == peer_record_view(*r),
{
    TransportPeerRecord {
        descriptor: copy_descriptor(&r.descriptor),
        addresses: copy_texts(&r.addresses),
        average_rtt_ms: r.average_rtt_ms,
        last_seen_unix_ms: r.last_seen_unix_ms,
        is_reachable: r.is_reachable,
    }
}

/// The peers a swarm has heard of, one record per peer id, in the order first heard.
#[derive(Debug)]
pub struct SwarmPeerTable {
    peers: Vec<TransportPeerRecord>,
}

impl SwarmPeerTable {
    pub closed spec fn records(&self) -> Seq<PeerRecordView> {
        peer_record_views(self.peers@)
    }

    #[verifier::type_invariant]
    closed spec fn ids_distinct(self) -> bool {
        distinct_ids(peer_record_views(self.peers@))
    }

    pub fn new() -> (r: Self)
        ensures
            r.records().len() == 0,
    {
        let t = Self { peers: Vec::new() };
        assert(peer_record_views(t.peers@) =~= Seq::<PeerRecordView>::empty());
        t
    }

    /// The number of peers.
    pub fn len(&self) -> (r: usize)
        ensures
            r == self.records().len(),
    {
        self.peers.len()
    }

    /// Puts in the record of a peer, replacing the record of the same peer id.
    pub fn upsert(&mut self, record: TransportPeerRecord)
        ensures
            final(self).records() == upserted(old(self).records(), peer_record_view(record)),
            distinct_ids(final(self).records()),
    {
        proof {
            use_type_invariant(&*self);
        }
        let ghost s = self.records();
        let ghost ids = peer_ids(s);
        let ghost v = peer_record_view(record);
        let mut i: usize = 0;
        let mut found: Option<usize> = None;
        while i < self.peers.len() && found.is_none()
            invariant
                i <= self.peers.len(),
                s == self.records(),
                ids == peer_ids(s),
                ids.len() == self.peers.len(),
                v == peer_record_view(record),
                found matches Some(idx) ==> idx < self.peers.len() && ids[idx as int] == v.0.0
                    && forall|j: int| 0 <= j < idx ==> #[trigger] ids[j] != v.0.0,
                found is None ==> forall|j: int| 0 <= j < i ==> #[trigger] ids[j] != v.0.0,
            decreases self.peers.len() - i,
        {
            assert(ids[i as int] == self.peers@[i as int].descriptor.peer_id@);
            if self.peers[i].descriptor.peer_id == record.descriptor.peer_id {
                found = Some(i);
            }
            i = i + 1;
        }
        let mut peers: Vec<TransportPeerRecord> = Vec::new();
        std::mem::swap(&mut peers, &mut self.peers);
        match found {
            Some(idx) => {
                proof {
                    lemma_first_position_found(ids, v.0.0, idx as int);
                }
                let ghost before = peers@;
                peers.set(idx, record);
                proof {
                    assert(peer_record_views(peers@) =~= s.update(idx as int, v));
                    lemma_upsert_keeps_distinct(s, v);
                }
            },
            None => {
                proof {
                    lemma_first_position_absent(ids, v.0.0);
                }
                peers.push(record);
                proof {
                    assert(peer_record_views(peers@) =~= s.push(v));
                    lemma_upsert_keeps_distinct(s, v);
                }
            },
        }
        self.peers = peers;
    }

    /// Copies of the records, in order.
    pub fn snapshot(&self) -> (r: Vec<TransportPeerRecord>)
        ensures
            peer_record_views(r@) == self.records(),
            distinct_ids(self.records()),
    {
        proof {
            use_type_invariant(self);
        }
        let mut out: Vec<TransportPeerRecord> = Vec::new();
        let mut i: usize = 0;
        while i < self.peers.len()
            invariant
                i <= self.peers.len(),
                out@.len() == i,
                forall|j: int|
                    0 <= j < i ==> #[trigger] peer_record_view(out@[j]) == peer_record_view(
                        self.peers@[j],
                    ),
            decreases self.peers.len() - i,
        {
            out.push(copy_peer_record(&self.peers[i]));
            i = i + 1;
        }
        assert(peer_record_views(out@) =~= peer_record_views(self.peers@));
        out
    }
}

/// Putting in a record keeps peer ids distinct.
pub proof fn lemma_upsert_keeps_distinct(s: Seq<PeerRecordView>, r: PeerRecordView)
    requires
        distinct_ids(s),
    ensures
        distinct_ids(upserted(s, r)),
{
    let ids = peer_ids(s);
    match first_position(ids, r.0.0) {
        Some(i) => {
            lemma_first_position_bounds(ids, r.0.0);
            let t = s.update(i, r);
            assert forall|a: int, b: int| 0 <= a < b < t.len() implies #[trigger] t[a].0.0
                != #[trigger] t[b].0.0 by {
                assert(ids[i] == r.0.0);
                if a == i {
                    assert(s[b].0.0 != s[i].0.0);
                } else if b == i {
                    assert(s[a].0.0 != s[i].0.0);
                } else {
                    assert(s[a].0.0 != s[b].0.0);
                }
            }
        },
        None => {
            lemma_first_position_none(ids, r.0.0);
            let t = s.push(r);
            assert forall|a: int, b: int| 0 <= a < b < t.len() implies #[trigger] t[a].0.0
                != #[trigger] t[b].0.0 by {
                if b == s.len() {
                    assert(ids[a] != r.0.0);
                } else {
                    assert(s[a].0.0 != s[b].0.0);
                }
            }
        },
    }
}

/// A position that is found holds the name.
pub proof fn lemma_first_position_bounds(s: Seq<Seq<char>>, name: Seq<char>)
    ensures
        first_position(s, name) matches Some(i) ==> 0 <= i < s.len() && s[i] == name,
    decreases s.len(),
{
    if s.len() > 0 && s[0] != name {
        lemma_first_position_bounds(s.drop_first(), name);
    }
}

/// A name that is not found occurs nowhere.
pub proof fn lemma_first_position_none(s: Seq<Seq<char>>, name: Seq<char>)
    ensures
        first_position(s, name) is None ==> forall|j: int| 0 <= j < s.len() ==> #[trigger] s[j] != name,
    decreases s.len(),
{
    if s.len() > 0 && s[0] != name {
        lemma_first_position_none(s.drop_first(), name);
        assert forall|j: int| 0 < j < s.len() implies s[j] == s.drop_first()[j - 1] by {}
    }
}

/// Putting in a record leaves exactly that record under its peer id.
pub proof fn lemma_upsert_latest_wins(s: Seq<PeerRecordView>, r: PeerRecordView)
    requires
        distinct_ids(s),
    ensures
        upserted(s, r).contains(r),
        forall|k: int|
            0 <= k < upserted(s, r).len() && #[trigger] upserted(s, r)[k].0.0 == r.0.0 ==> upserted(
                s,
                r,
            )[k] == r,
{
    let ids = peer_ids(s);
    let t = upserted(s, r);
    lemma_upsert_keeps_distinct(s, r);
    match first_position(ids, r.0.0) {
        Some(i) => {
            lemma_first_position_bounds(ids, r.0.0);
            assert(t[i] == r);
            assert forall|k: int| 0 <= k < t.len() && #[trigger] t[k].0.0 == r.0.0 implies t[k] == r by {
                if k != i {
                    if k < i {
                        assert(t[k].0.0 != t[i].0.0);
                    } else {
                        assert(t[i].0.0 != t[k].0.0);
                    }
                }
            }
        },
        None => {
            assert(t[s.len() as int] == r);
            assert forall|k: int| 0 <= k < t.len() && #[trigger] t[k].0.0 == r.0.0 implies t[k] == r by {
                if k < s.len() {
                    assert(t[k].0.0 != t[s.len() as int].0.0);
                }
            }
        },
    }
}

/// Putting in a record keeps the records of the other peers, in their places.
pub proof fn lemma_upsert_keeps_others(s: Seq<PeerRecordView>, r: PeerRecordView, k: int)
    requires
        0 <= k < s.len(),
        s[k].0.0 != r.0.0,
    ensures
        k < upserted(s, r).len(),
        upserted(s, r)[k] == s[k],
{
    lemma_first_position_bounds(peer_ids(s), r.0.0);
}

/// Putting in the same record twice is putting it in once.
pub proof fn lemma_upsert_idempotent(s: Seq<PeerRecordView>, r: PeerRecordView)
    requires
        distinct_ids(s),
    ensures
        upserted(upserted(s, r), r) == upserted(s, r),
{
    let t = upserted(s, r);
    lemma_upsert_keeps_distinct(s, r);
    lemma_upsert_latest_wins(s, r);
    let k = choose|k: int| 0 <= k < t.len() && t[k] == r;
    let tid = peer_ids(t);
    assert(tid[k] == r.0.0);
    assert forall|j: int| 0 <= j < k implies #[trigger] tid[j] != r.0.0 by {
        assert(t[j].0.0 != t[k].0.0);
    }
    lemma_first_position_found(tid, r.0.0, k);
    assert(t.update(k, r) =~= t);
}

/// Where messages of each swarm go: for each swarm identifier, a handle per peer id.
#[derive(Debug)]
pub struct SwarmRegistry<S> {
    swarms: StrMap<StrMap<S>>,
}

impl<S> SwarmRegistry<S> {
    /// The handle registered for a peer of a swarm.
    pub closed spec fn entry(&self, swarm: Seq<char>, peer: Seq<char>) -> Option<S> {
        match self.swarms.spec_get(swarm) {
            Some(m) => m.spec_get(peer),
            None => None,
        }
    }

    /// Whether the registry keeps a table for the swarm.
    pub closed spec fn has_swarm(&self, swarm: Seq<char>) -> bool {
        self.swarms.spec_get(swarm) is Some
    }

    /// The peer ids registered in a swarm, in the order first registered.
    pub closed spec fn peer_ids_of(&self, swarm: Seq<char>) -> Seq<Seq<char>> {
        match self.swarms.spec_get(swarm) {
            Some(m) => m.entries_view().map_values(|e: (Seq<char>, S)| e.0),
            None => Seq::empty(),
        }
    }

    pub fn new() -> (r: Self)
        ensures
            forall|swarm: Seq<char>, peer: Seq<char>| #[trigger] r.entry(swarm, peer) is None,
            forall|swarm: Seq<char>| !#[trigger] r.has_swarm(swarm),
    {
        Self { swarms: StrMap::new() }
    }

    /// Registers the handle of a peer in a swarm, replacing an earlier one.
    pub fn register(&mut self, swarm: &str, peer: &str, handle: S)
        ensures
            forall|sw: Seq<char>, p: Seq<char>|
                #[trigger] final(self).entry(sw, p) == if sw == swarm@ && p == peer@ {
                    Some(handle)
                } else {
                    old(self).entry(sw, p)
                },
            forall|sw: Seq<char>|
                #[trigger] final(self).has_swarm(sw) == (sw == swarm@ || old(self).has_swarm(sw)),
    {
        let mut peers = match self.swarms.remove(swarm) {
            Some(m) => m,
            None => StrMap::new(),
        };
        peers.insert(peer.to_string(), handle);
        self.swarms.insert(swarm.to_string(), peers);
    }

    /// Removes the handle of a peer from a swarm; a swarm left without peers is dropped.
    pub fn unregister(&mut self, swarm: &str, peer: &str)
        ensures
            forall|sw: Seq<char>, p: Seq<char>|
                #[trigger] final(self).entry(sw, p) == if sw == swarm@ && p == peer@ {
                    None
                } else {
                    old(self).entry(sw, p)
                },
            forall|sw: Seq<char>|
                sw != swarm@ ==> #[trigger] final(self).has_swarm(sw) == old(self).has_swarm(sw),
            final(self).has_swarm(swarm@) ==> final(self).peer_ids_of(swarm@).len() > 0,
    {
        let ghost before = self.swarms;
        match self.swarms.remove(swarm) {
            Some(mut peers) => {
                let ghost orig = peers;
                peers.remove(peer);
                if peers.len() > 0 {
                    self.swarms.insert(swarm.to_string(), peers);
                    assert forall|sw: Seq<char>, p: Seq<char>|
                        #[trigger] self.entry(sw, p) == if sw == swarm@ && p == peer@ {
                            None
                        } else {
                            old(self).entry(sw, p)
                        } by {
                        if sw == swarm@ {
                            assert(self.swarms.spec_get(sw) == Some(peers));
                            assert(before.spec_get(sw) == Some(orig));
                            assert(peers.spec_get(p) == if p == peer@ {
                                None
                            } else {
                                orig.spec_get(p)
                            });
                        } else {
                            assert(self.swarms.spec_get(sw) == before.spec_get(sw));
                        }
                    }
                } else {
                    assert forall|sw: Seq<char>, p: Seq<char>|
                        #[trigger] self.entry(sw, p) == if sw == swarm@ && p == peer@ {
                            None
                        } else {
                            old(self).entry(sw, p)
                        } by {
                        if sw == swarm@ {
                            assert(self.swarms.spec_get(sw) is None);
                            assert(before.spec_get(sw) == Some(orig));
                            assert(peers.entries_view().len() == 0);
                            assert(peers.spec_get(p) is None);
                            assert(peers.spec_get(p) == if p == peer@ {
                                None
                            } else {
                                orig.spec_get(p)
                            });
                        } else {
                            assert(self.swarms.spec_get(sw) == before.spec_get(sw));
                        }
                    }
                }
            },
            None => {},
        }
    }

    /// The handle registered for a peer of a swarm.
    pub fn resolve(&self, swarm: &str, peer: &str) -> (r: Option<&S>)
        ensures
            match r {
                Some(h) => self.entry(swarm@, peer@) == Some(*h),
                None => self.entry(swarm@, peer@) is None,
            },
    {
        match self.swarms.get(swarm) {
            Some(m) => m.get(peer),
            None => None,
        }
    }

    /// The peer ids registered in a swarm, in the order first registered.
    pub fn peers_of(&self, swarm: &str) -> (r: Vec<String>)
        ensures
            r@.len() == self.peer_ids_of(swarm@).len(),
            forall|i: int| 0 <= i < r@.len() ==> #[trigger] r@[i]@ == self.peer_ids_of(swarm@)[i],
    {
        match self.swarms.get(swarm) {
            Some(m) => m.keys(),
            None => Vec::new(),
        }
    }
}

} // verus!
