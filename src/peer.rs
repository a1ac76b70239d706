//! The table of known peers, one record per node, with expiry by age.
use vstd::prelude::*;
use crate::text::{copy_pairs, copy_texts, pairs_view, texts_view};

verus! {

/// Record of a peer, kept in the local peer table.
#[derive(Debug, Clone, PartialEq, Eq)]
pub struct PeerInfo {
    pub node_id: String,
    pub name: String,
    pub capabilities: Vec<String>,
    /// Local clock, in unix seconds, when the record was last refreshed.
    pub last_seen: u64,
    /// Seconds for which the record stays valid after `last_seen`.
    pub ttl: u64,
    pub addresses: Vec<String>,
    pub metadata: Vec<(String, String)>,
}

pub ghost struct PeerView {
    pub node_id: Seq<char>,
    pub name: Seq<char>,
    pub capabilities: Seq<Seq<char>>,
    pub last_seen: u64,
    pub ttl: u64,
    pub addresses: Seq<Seq<char>>,
    pub metadata: Seq<(Seq<char>, Seq<char>)>,
}

impl View for PeerInfo {
    type V = PeerView;

    open spec fn view(&self) -> PeerView {
        PeerView {
            node_id: self.node_id@,
            name: self.name@,
            capabilities: texts_view(self.capabilities@),
            last_seen: self.last_seen,
            ttl: self.ttl,
            addresses: texts_view(self.addresses@),
            metadata: pairs_view(self.metadata@),
        }
    }
}

impl PeerView {
    /// The record has outlived its time to live at time `now`.
    pub open spec fn expired_at(self, now: int) -> bool {
        now > self.last_seen + self.ttl
    }
}

/// Relies on `SystemTime::now` read against `UNIX_EPOCH`: whole seconds since
/// the epoch, or zero for a clock set before it. Nothing is promised of the
/// value: it is whatever the clock shows.
#[verifier::external_body]
pub fn now_secs() -> (r: u64) {
    std::time::SystemTime::now().duration_since(std::time::UNIX_EPOCH).unwrap_or_default().as_secs()
}

impl PeerInfo {
    /// Whether the record has expired at time `now`.
    pub fn is_expired_at(&self, now: u64) -> (r: bool)
        ensures
            r == self@.expired_at(now as int),
    {
        if self.ttl > u64::MAX - self.last_seen {
            false
        } else {
            now > self.last_seen + self.ttl
        }
    }

    /// Whether the record has expired by the local clock.
    pub fn is_expired(&self) -> (r: bool)
        ensures
            self.last_seen as int + self.ttl as int >= u64::MAX ==> !r,
    {
        let now = now_secs();
        self.is_expired_at(now)
    }

    /// A copy of the record.
    pub fn copy(&self) -> (r: PeerInfo)
        ensures
            r@ == self@,
    {
        PeerInfo {
            node_id: self.node_id.clone(),
            name: self.name.clone(),
            capabilities: copy_texts(&self.capabilities),
            last_seen: self.last_seen,
            ttl: self.ttl,
            addresses: copy_texts(&self.addresses),
            metadata: copy_pairs(&self.metadata),
        }
    }
}

/// A record is not expired at the very end of its time to live, and is
/// expired one second later.
pub proof fn lemma_ttl_boundary(p: PeerView)
    ensures
        !p.expired_at(p.last_seen + p.ttl),
        p.expired_at(p.last_seen + p.ttl + 1),
{
}

/// `after` is `before` with `p` put in: in place of the record of the same
/// node where there is one, else at the end.
pub open spec fn upserted(before: Seq<PeerView>, after: Seq<PeerView>, p: PeerView) -> bool {
    &&& ids_of(before).contains(p.node_id) ==> exists|i: int|
        0 <= i < before.len() && ids_of(before)[i] == p.node_id && after == before.update(i, p)
    &&& !ids_of(before).contains(p.node_id) ==> after == before.push(p)
}

pub open spec fn views_of(ps: Seq<PeerInfo>) -> Seq<PeerView> {
    ps.map_values(|p: PeerInfo| p@)
}

pub open spec fn ids_of(rs: Seq<PeerView>) -> Seq<Seq<char>> {
    rs.map_values(|p: PeerView| p.node_id)
}

/// The records that are not expired at time `now`, in table order.
pub open spec fn online_at(rs: Seq<PeerView>, now: int) -> Seq<PeerView> {
    rs.filter(|p: PeerView| !p.expired_at(now))
}

/// The peer table. Records keep the order in which their nodes were first
/// seen; a node has at most one record.
pub struct PeerStore {
    peers: Vec<PeerInfo>,
}

impl PeerStore {
    /// The records, in table order.
    pub closed spec fn records(&self) -> Seq<PeerView> {
        views_of(self.peers@)
    }

    /// The node ids of the records, in table order.
    pub open spec fn ids(&self) -> Seq<Seq<char>> {
        ids_of(self.records())
    }

    /// The set of nodes that have a record.
    pub open spec fn node_ids(&self) -> Set<Seq<char>> {
        self.ids().to_set()
    }

    /// No node has two records.
    pub open spec fn wf(&self) -> bool {
        self.ids().no_duplicates()
    }

    /// An empty table.
    pub fn new() -> (s: PeerStore)
        ensures
            s.wf(),
            s.records() == Seq::<PeerView>::empty(),
    {
        let s = PeerStore { peers: Vec::new() };
        assert(s.records() =~= Seq::<PeerView>::empty());
        s
    }

    /// Number of records.
    pub fn len(&self) -> (r: usize)
        ensures
            r == self.records().len(),
    {
        self.peers.len()
    }

    /// Position of the record of `node_id`, if there is one.
    pub fn find(&self, node_id: &String) -> (r: Option<usize>)
        ensures
            match r {
                Some(i) => i < self.records().len() && self.ids()[i as int] == node_id@,
                None => !self.ids().contains(node_id@),
            },
    {
        let mut i: usize = 0;
        while i < self.peers.len()
            invariant
                i <= self.peers@.len(),
                forall|k: int| 0 <= k < i ==> self.ids()[k] != node_id@,
            decreases self.peers@.len() - i,
        {
            if self.peers[i].node_id == *node_id {
                return Some(i);
            }
            i = i + 1;
        }
        None
    }

    /// Inserts `p`, or replaces the record of the same node with it.
    pub fn upsert(&mut self, p: PeerInfo)
        requires
            old(self).wf(),
        ensures
            final(self).wf(),
            final(self).node_ids() == old(self).node_ids().insert(p@.node_id),
            upserted(old(self).records(), final(self).records(), p@),
    {
        let ghost old_ids = self.ids();
        match self.find(&p.node_id) {
            Some(i) => {
                let ghost pv = p@;
                self.peers.set(i, p);
                assert(self.records() =~= old(self).records().update(i as int, pv));
                assert(self.ids() =~= old_ids);
                assert(old_ids.to_set().contains(pv.node_id));
                assert(self.node_ids() =~= old(self).node_ids().insert(pv.node_id));
            },
            None => {
                let ghost pv = p@;
                self.peers.push(p);
                assert(self.records() =~= old(self).records().push(pv));
                assert(self.ids() =~= old_ids.push(pv.node_id));
                proof {
                    old_ids.lemma_push_to_set_commute(pv.node_id);
                }
                assert(self.wf()) by {
                    assert forall|a: int, b: int|
                        0 <= a < self.ids().len() && 0 <= b < self.ids().len() && a != b implies
                        self.ids()[a] != self.ids()[b] by {
                        if a < old_ids.len() && b < old_ids.len() {
                        } else if a == old_ids.len() {
                            assert(old_ids.contains(old_ids[b]));
                        } else {
                            assert(old_ids.contains(old_ids[a]));
                        }
                    }
                }
            },
        }
    }

    /// Removes every record.
    pub fn clear(&mut self)
        ensures
            final(self).wf(),
            final(self).records() == Seq::<PeerView>::empty(),
    {
        self.peers.clear();
        assert(self.records() =~= Seq::<PeerView>::empty());
    }

    /// Copies of the records in table order: all of them, or only those not
    /// expired at time `now`.
    pub fn list(&self, online_only: bool, now: u64) -> (r: Vec<PeerInfo>)
        ensures
            views_of(r@) == if online_only {
                online_at(self.records(), now as int)
            } else {
                self.records()
            },
    {
        let ghost all = self.records();
        let mut r: Vec<PeerInfo> = Vec::new();
        let mut i: usize = 0;
        while i < self.peers.len()
            invariant
                i <= self.peers@.len(),
                all == self.records(),
                views_of(r@) == if online_only {
                    online_at(all.take(i as int), now as int)
                } else {
                    all.take(i as int)
                },
            decreases self.peers@.len() - i,
        {
            let keep = !online_only || !self.peers[i].is_expired_at(now);
            proof {
                assert(all.take(i + 1).drop_last() =~= all.take(i as int));
                assert(all.take(i + 1).last() == all[i as int]);
                assert(all[i as int] == self.peers@[i as int]@);
                let s = all.take(i + 1);
                reveal(Seq::filter);
                assert(online_at(s, now as int) == if !all[i as int].expired_at(now as int) {
                    online_at(all.take(i as int), now as int).push(all[i as int])
                } else {
                    online_at(all.take(i as int), now as int)
                });
            }
            if keep {
                let ghost before = r@;
                r.push(self.peers[i].copy());
                assert(views_of(r@) =~= views_of(before).push(all[i as int]));
            }
            i = i + 1;
            assert(views_of(r@) =~= if online_only {
                online_at(all.take(i as int), now as int)
            } else {
                all.take(i as int)
            });
        }
        assert(all.take(i as int) =~= all);
        r
    }
}

/// Putting a record in never gives a node a second record: the table grows
/// by one exactly when the node had no record, and keeps its size otherwise.
pub proof fn lemma_upsert_size(before: Seq<PeerView>, after: Seq<PeerView>, p: PeerView)
    requires
        upserted(before, after, p),
    ensures
        after.len() == before.len() + if ids_of(before).contains(p.node_id) {
            0int
        } else {
            1int
        },
{
}

/// The table holds one record for each node that it knows, and no more.
pub proof fn lemma_store_size(s: &PeerStore)
    requires
        s.wf(),
    ensures
        s.records().len() == s.node_ids().len(),
{
    s.ids().unique_seq_to_set();
}

} // verus!
