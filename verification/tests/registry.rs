use localdrop::protocol::{Heartbeat, PeerOs, PeerState, PROTOCOL_VERSION};
use localdrop::registry::{PeerRegistry, Upsert};

fn hb(id: &str, alias: &str, state: PeerState) -> Heartbeat {
    Heartbeat {
        protocol_version: PROTOCOL_VERSION,
        device_id: id.into(),
        alias: alias.into(),
        os: PeerOs::Linux,
        tcp_port: 57322,
        client_version: "1.0.0".into(),
        state,
    }
}

#[test]
fn first_heartbeat_adds_then_repeats_are_unchanged() {
    let mut r = PeerRegistry::new();
    assert!(matches!(r.upsert(hb("a", "Laptop", PeerState::Ready), "10.0.0.2".into(), 1000), Upsert::Added(_)));
    assert!(matches!(r.upsert(hb("a", "Laptop", PeerState::Ready), "10.0.0.2".into(), 4000), Upsert::Unchanged));
    match r.upsert(hb("a", "Laptop", PeerState::Busy), "10.0.0.2".into(), 5000) {
        Upsert::Updated(p) => assert_eq!(p.state, PeerState::Busy),
        _ => panic!("a visible change must be reported"),
    }
    let p = r.get("a", 6000).unwrap();
    assert_eq!(p.alias, "Laptop");
    assert_eq!(p.ip, "10.0.0.2");
    assert_eq!(p.last_seen_ms, 1000);
}

#[test]
fn prune_drops_only_peers_silent_past_the_ttl() {
    let mut r = PeerRegistry::new();
    r.upsert(hb("old", "Old", PeerState::Ready), "10.0.0.3".into(), 0);
    r.upsert(hb("new", "New", PeerState::Ready), "10.0.0.4".into(), 5000);
    assert!(r.prune(12_000).is_empty());
    let gone = r.prune(12_001);
    assert_eq!(gone, vec!["old".to_string()]);
    assert!(r.get("old", 12_001).is_none());
    assert!(r.get("new", 12_001).is_some());
}

#[test]
fn list_is_ordered_by_alias_then_id() {
    let mut r = PeerRegistry::new();
    r.upsert(hb("z", "Bravo", PeerState::Ready), "10.0.0.5".into(), 0);
    r.upsert(hb("y", "Alpha", PeerState::Ready), "10.0.0.6".into(), 0);
    r.upsert(hb("x", "Bravo", PeerState::Ready), "10.0.0.7".into(), 0);
    let ids: Vec<String> = r.list(10).into_iter().map(|p| p.device_id).collect();
    assert_eq!(ids, vec!["y", "x", "z"]);
}

#[test]
fn clear_empties_the_table() {
    let mut r = PeerRegistry::new();
    r.upsert(hb("a", "A", PeerState::Ready), "10.0.0.2".into(), 0);
    r.clear();
    assert!(r.list(0).is_empty());
    assert!(r.get("a", 0).is_none());
}

#[test]
fn a_dual_homed_device_keeps_one_card_at_its_newest_address() {
    let mut r = PeerRegistry::new();
    assert!(matches!(r.upsert(hb("a", "Laptop", PeerState::Ready), "10.0.0.2".into(), 1000), Upsert::Added(_)));
    assert!(matches!(r.upsert(hb("b", "Phone", PeerState::Ready), "10.0.0.9".into(), 1000), Upsert::Added(_)));
    match r.upsert(hb("a", "Laptop", PeerState::Ready), "192.168.1.5".into(), 2000) {
        Upsert::Updated(p) => assert_eq!(p.ip, "192.168.1.5"),
        _ => panic!("a new address is a visible change"),
    }
    let listed = r.list(2000);
    let ids: Vec<&str> = listed.iter().map(|p| p.device_id.as_str()).collect();
    assert_eq!(ids, vec!["a", "b"]);
    assert_eq!(listed[0].ip, "192.168.1.5");
}
