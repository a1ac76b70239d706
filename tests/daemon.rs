use clawnet::daemon::{AgentConfig, Daemon, DaemonState, GossipOutcome};
use clawnet::protocol::{BotAnnouncement, GossipMessage};

fn config(name: &str, ttl: u64) -> AgentConfig {
    AgentConfig {
        name: name.to_string(),
        capabilities: vec!["chat".to_string()],
        openclaw_version: None,
        mode: Some("bot".to_string()),
        peer_ttl: ttl,
        metadata: vec![],
    }
}

#[test]
fn state_starts_running_and_empty() {
    let s = DaemonState::started_at(42);
    assert!(s.running);
    assert_eq!(s.announcements_sent, 0);
    assert_eq!(s.peers_discovered, 0);
    assert_eq!(s.start_time, 42);
    let t = DaemonState::new();
    assert!(t.running);
}

#[test]
fn peer_announcement_is_discovered() {
    let x = Daemon::start("node-x".to_string(), 0);
    let payload = x.announcement(&config("alpha", 30), &"0.1.0".to_string(), 990).to_bytes();
    let mut y = Daemon::start("node-y".to_string(), 0);
    let out = y.on_gossip(&payload, 1000);
    assert_eq!(out, GossipOutcome::Discovered("node-x".to_string()));
    assert_eq!(y.state.peers_discovered, 1);
    let online = y.store.list(true, 1010);
    assert_eq!(online.len(), 1);
    assert_eq!(online[0].name, "alpha");
    assert_eq!(online[0].last_seen, 1000);
    assert_eq!(online[0].ttl, 30);
    assert!(online[0].addresses.is_empty());
    assert!(y.store.list(true, 1031).is_empty());
}

#[test]
fn repeated_announcements_refresh_one_record() {
    let x = Daemon::start("node-x".to_string(), 0);
    let mut y = Daemon::start("node-y".to_string(), 0);
    let first = x.announcement(&config("alpha", 30), &"0.1.0".to_string(), 1).to_bytes();
    let second = x.announcement(&config("alpha-2", 60), &"0.1.0".to_string(), 2).to_bytes();
    y.on_gossip(&first, 100);
    y.on_gossip(&second, 200);
    assert_eq!(y.store.len(), 1);
    let all = y.store.list(false, 0);
    assert_eq!(all[0].name, "alpha-2");
    assert_eq!(all[0].last_seen, 200);
    assert_eq!(y.state.peers_discovered, 2);
}

#[test]
fn own_announcement_is_ignored() {
    let mut x = Daemon::start("node-x".to_string(), 0);
    let payload = x.announcement(&config("alpha", 30), &"0.1.0".to_string(), 5).to_bytes();
    assert_eq!(x.on_gossip(&payload, 6), GossipOutcome::OwnAnnouncement);
    assert_eq!(x.store.len(), 0);
    assert_eq!(x.state.peers_discovered, 0);
}

#[test]
fn leave_notice_keeps_the_record() {
    let x = Daemon::start("node-x".to_string(), 0);
    let mut y = Daemon::start("node-y".to_string(), 0);
    y.on_gossip(&x.announcement(&config("alpha", 30), &"1".to_string(), 1).to_bytes(), 10);
    let leave = GossipMessage::Leave { node_id: "node-x".to_string(), timestamp: 11 }.to_bytes();
    assert_eq!(y.on_gossip(&leave, 11), GossipOutcome::PeerLeft("node-x".to_string()));
    assert_eq!(y.store.len(), 1);
}

#[test]
fn malformed_payload_changes_nothing() {
    let mut y = Daemon::start("node-y".to_string(), 0);
    assert_eq!(y.on_gossip(&[0xFFu8, 0x00], 1), GossipOutcome::Malformed);
    assert_eq!(y.store.len(), 0);
    assert_eq!(y.state, DaemonState::started_at(0));
}

#[test]
fn broadcasts_are_counted_when_sent() {
    let mut x = Daemon::start("node-x".to_string(), 0);
    x.on_broadcast(true);
    x.on_broadcast(false);
    x.on_broadcast(true);
    assert_eq!(x.state.announcements_sent, 2);
}

#[test]
fn announcement_carries_the_config() {
    let x = Daemon::start("node-x".to_string(), 0);
    let m = x.announcement(&config("alpha", 30), &"0.1.0".to_string(), 77);
    let expected = GossipMessage::Announce(BotAnnouncement {
        node_id: "node-x".to_string(),
        name: "alpha".to_string(),
        version: "0.1.0".to_string(),
        capabilities: vec!["chat".to_string()],
        openclaw_version: None,
        mode: Some("bot".to_string()),
        timestamp: 77,
        ttl: 30,
        metadata: vec![],
    });
    assert_eq!(m, expected);
}

#[test]
fn shutdown_stops_and_says_goodbye() {
    let mut x = Daemon::start("node-x".to_string(), 0);
    let bytes = x.shutdown(50);
    assert!(!x.state.running);
    assert_eq!(
        GossipMessage::from_bytes(&bytes),
        Ok(GossipMessage::Leave { node_id: "node-x".to_string(), timestamp: 50 })
    );
}
