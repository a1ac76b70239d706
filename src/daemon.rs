//! The decisions of the discovery daemon. The application runs the timer,
//! the gossip receiver, the acceptor and the shutdown signal, and hands each
//! event to the daemon, which updates its peer table and counters and says
//! what to send.
use vstd::prelude::*;
use crate::peer::{ids_of, now_secs, upserted, PeerInfo, PeerStore, PeerView};
use crate::protocol::{
    decode_gossip, gossip_bytes, AnnouncementView, BotAnnouncement, GossipMessage, GossipView,
};
use crate::text::{copy_pairs, copy_texts, opt_text_view, pairs_view, texts_view};

verus! {

/// Counters and flags of a running daemon, read by status queries.
#[derive(Debug, Clone, Copy, PartialEq, Eq)]
pub struct DaemonState {
    pub running: bool,
    pub announcements_sent: u64,
    pub peers_discovered: u64,
    pub start_time: u64,
}

/// A counter one step further, held at its largest value.
pub open spec fn bumped(n: u64) -> u64 {
    if n < u64::MAX {
        (n + 1) as u64
    } else {
        n
    }
}

fn bump(n: u64) -> (r: u64)
    ensures
        r == bumped(n),
{
    if n < u64::MAX {
        n + 1
    } else {
        n
    }
}

impl DaemonState {
    /// A running daemon that has sent and discovered nothing, started at
    /// time `now`.
    pub fn started_at(now: u64) -> (s: DaemonState)
        ensures
            s == (DaemonState {
                running: true,
                announcements_sent: 0,
                peers_discovered: 0,
                start_time: now,
            }),
    {
        DaemonState { running: true, announcements_sent: 0, peers_discovered: 0, start_time: now }
    }

    /// A running daemon started now, by the local clock.
    pub fn new() -> (s: DaemonState)
        ensures
            s.running,
            s.announcements_sent == 0,
            s.peers_discovered == 0,
    {
        DaemonState::started_at(now_secs())
    }
}

/// What the daemon announces about itself.
#[derive(Debug, Clone, PartialEq, Eq)]
pub struct AgentConfig {
    pub name: String,
    pub capabilities: Vec<String>,
    pub openclaw_version: Option<String>,
    pub mode: Option<String>,
    /// Seconds for which peers should keep the announcement.
    pub peer_ttl: u64,
    pub metadata: Vec<(String, String)>,
}

/// What became of a gossip payload.
#[derive(Debug, Clone, PartialEq, Eq)]
pub enum GossipOutcome {
    /// An announcement of another node, now in the peer table.
    Discovered(String),
    /// The daemon's own announcement, ignored.
    OwnAnnouncement,
    /// A leave notice of the node; the table is left as it is.
    PeerLeft(String),
    /// The payload is not a gossip message.
    Malformed,
}

/// The record kept for an announcement received at time `now`.
pub open spec fn peer_of(a: AnnouncementView, now: u64) -> PeerView {
    PeerView {
        node_id: a.node_id,
        name: a.name,
        capabilities: a.capabilities,
        last_seen: now,
        ttl: a.ttl,
        addresses: Seq::empty(),
        metadata: a.metadata,
    }
}

/// The discovery daemon of node `node_id`: its counters and its peer table.
pub struct Daemon {
    pub node_id: String,
    pub state: DaemonState,
    pub store: PeerStore,
}

impl Daemon {
    /// The table is well formed and never holds the daemon's own node.
    pub open spec fn inv(&self) -> bool {
        &&& self.store.wf()
        &&& !ids_of(self.store.records()).contains(self.node_id@)
    }

    /// A running daemon of node `node_id`, started at time `now`, with an
    /// empty peer table.
    pub fn start(node_id: String, now: u64) -> (d: Daemon)
        ensures
            d.inv(),
            d.node_id@ == node_id@,
            d.state == (DaemonState {
                running: true,
                announcements_sent: 0,
                peers_discovered: 0,
                start_time: now,
            }),
            d.store.records() == Seq::<PeerView>::empty(),
    {
        Daemon { node_id, state: DaemonState::started_at(now), store: PeerStore::new() }
    }

    /// The announcement of this node at time `now`.
    pub fn announcement(&self, cfg: &AgentConfig, version: &String, now: u64) -> (r:
        GossipMessage)
        ensures
            r@ == GossipView::Announce(
                AnnouncementView {
                    node_id: self.node_id@,
                    name: cfg.name@,
                    version: version@,
                    capabilities: texts_view(cfg.capabilities@),
                    openclaw_version: opt_text_view(cfg.openclaw_version),
                    mode: opt_text_view(cfg.mode),
                    timestamp: now,
                    ttl: cfg.peer_ttl,
                    metadata: pairs_view(cfg.metadata@),
                },
            ),
    {
        let openclaw_version = match &cfg.openclaw_version {
            Some(s) => Some(s.clone()),
            None => None,
        };
        let mode = match &cfg.mode {
            Some(s) => Some(s.clone()),
            None => None,
        };
        GossipMessage::Announce(
            BotAnnouncement {
                node_id: self.node_id.clone(),
                name: cfg.name.clone(),
                version: version.clone(),
                capabilities: copy_texts(&cfg.capabilities),
                openclaw_version,
                mode,
                timestamp: now,
                ttl: cfg.peer_ttl,
                metadata: copy_pairs(&cfg.metadata),
            },
        )
    }

    /// Counts a broadcast of an announcement that succeeded; a failed one
    /// changes nothing.
    pub fn on_broadcast(&mut self, sent: bool)
        ensures
            final(self).node_id == old(self).node_id,
            final(self).store == old(self).store,
            final(self).state == (DaemonState {
                announcements_sent: if sent {
                    bumped(old(self).state.announcements_sent)
                } else {
                    old(self).state.announcements_sent
                },
                ..old(self).state
            }),
    {
        if sent {
            self.state.announcements_sent = bump(self.state.announcements_sent);
        }
    }

    /// Handles a payload received on the gossip channel at time `now`.
    pub fn on_gossip(&mut self, payload: &[u8], now: u64) -> (r: GossipOutcome)
        requires
            old(self).inv(),
        ensures
            final(self).inv(),
            final(self).node_id == old(self).node_id,
            match decode_gossip(payload@) {
                Some(GossipView::Announce(a)) => if a.node_id == old(self).node_id@ {
                    &&& r == GossipOutcome::OwnAnnouncement
                    &&& final(self).state == old(self).state
                    &&& final(self).store == old(self).store
                } else {
                    &&& r matches GossipOutcome::Discovered(id) && id@ == a.node_id
                    &&& final(self).state == (DaemonState {
                        peers_discovered: bumped(old(self).state.peers_discovered),
                        ..old(self).state
                    })
                    &&& upserted(
                        old(self).store.records(),
                        final(self).store.records(),
                        peer_of(a, now),
                    )
                },
                Some(GossipView::Leave { node_id, timestamp }) => {
                    &&& r matches GossipOutcome::PeerLeft(id) && id@ == node_id
                    &&& final(self).state == old(self).state
                    &&& final(self).store == old(self).store
                },
                None => {
                    &&& r == GossipOutcome::Malformed
                    &&& final(self).state == old(self).state
                    &&& final(self).store == old(self).store
                },
            },
    {
        match GossipMessage::from_bytes(payload) {
            Err(_) => GossipOutcome::Malformed,
            Ok(GossipMessage::Leave { node_id, timestamp }) => GossipOutcome::PeerLeft(node_id),
            Ok(GossipMessage::Announce(ann)) => {
                if ann.node_id == self.node_id {
                    return GossipOutcome::OwnAnnouncement;
                }
                let id = ann.node_id.clone();
                let peer = PeerInfo {
                    node_id: ann.node_id,
                    name: ann.name,
                    capabilities: ann.capabilities,
                    last_seen: now,
                    ttl: ann.ttl,
                    addresses: Vec::new(),
                    metadata: ann.metadata,
                };
                let ghost pv = peer@;
                assert(pv.addresses =~= Seq::<Seq<char>>::empty());
                self.store.upsert(peer);
                proof {
                    let before = ids_of(old(self).store.records());
                    let after = ids_of(self.store.records());
                    assert(self.store.node_ids() == old(self).store.node_ids().insert(pv.node_id));
                    if after.contains(self.node_id@) {
                        assert(self.store.node_ids().contains(self.node_id@));
                        assert(before.to_set().contains(self.node_id@));
                    }
                }
                self.state.peers_discovered = bump(self.state.peers_discovered);
                GossipOutcome::Discovered(id)
            },
        }
    }

    /// Begins shutting down at time `now`: the daemon stops running, and the
    /// result is the leave notice to broadcast.
    pub fn shutdown(&mut self, now: u64) -> (r: Vec<u8>)
        ensures
            final(self).node_id == old(self).node_id,
            final(self).store == old(self).store,
            final(self).state == (DaemonState { running: false, ..old(self).state }),
            r@ == gossip_bytes(GossipView::Leave { node_id: old(self).node_id@, timestamp: now }),
    {
        self.state.running = false;
        let leave = GossipMessage::Leave { node_id: self.node_id.clone(), timestamp: now };
        leave.to_bytes()
    }
}

} // verus!
