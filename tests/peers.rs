use clawnet::peer::{PeerInfo, PeerStore};

fn peer(id: &str, name: &str, last_seen: u64, ttl: u64) -> PeerInfo {
    PeerInfo {
        node_id: id.to_string(),
        name: name.to_string(),
        capabilities: vec!["chat".to_string()],
        last_seen,
        ttl,
        addresses: vec![],
        metadata: vec![],
    }
}

#[test]
fn ttl_boundary() {
    let p = peer("a", "alpha", 100, 30);
    assert!(!p.is_expired_at(130));
    assert!(p.is_expired_at(131));
    assert!(!p.is_expired_at(0));
}

#[test]
fn ttl_without_overflow() {
    let p = peer("a", "alpha", u64::MAX - 1, 5);
    assert!(!p.is_expired_at(u64::MAX));
    assert!(!p.is_expired());
}

#[test]
fn upsert_keeps_one_record_per_node() {
    let mut s = PeerStore::new();
    s.upsert(peer("a", "alpha", 10, 30));
    s.upsert(peer("b", "beta", 10, 30));
    s.upsert(peer("a", "alpha2", 20, 60));
    assert_eq!(s.len(), 2);
    let all = s.list(false, 0);
    assert_eq!(all[0].node_id, "a");
    assert_eq!(all[0].name, "alpha2");
    assert_eq!(all[0].last_seen, 20);
    assert_eq!(all[1].node_id, "b");
}

#[test]
fn clear_removes_everything() {
    let mut s = PeerStore::new();
    s.upsert(peer("a", "alpha", 10, 30));
    s.clear();
    assert_eq!(s.len(), 0);
    assert!(s.list(false, 0).is_empty());
    s.upsert(peer("a", "alpha", 10, 30));
    assert_eq!(s.len(), 1);
}

#[test]
fn online_listing_drops_expired_records() {
    let mut s = PeerStore::new();
    s.upsert(peer("a", "alpha", 100, 30));
    s.upsert(peer("b", "beta", 100, 10));
    s.upsert(peer("c", "gamma", 120, 10));
    let online: Vec<String> = s.list(true, 125).into_iter().map(|p| p.node_id).collect();
    assert_eq!(online, vec!["a".to_string(), "c".to_string()]);
    assert_eq!(s.list(false, 125).len(), 3);
    assert_eq!(s.len(), 3);
}

#[test]
fn copy_keeps_every_field() {
    let mut p = peer("a", "alpha", 1, 2);
    p.addresses = vec!["10.0.0.1:4000".to_string()];
    p.metadata = vec![("k".to_string(), "v".to_string())];
    assert_eq!(p.copy(), p);
}
