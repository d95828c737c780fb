use localdrop::discovery::{
    broadcast_targets, broadcast_targets_from, derive_broadcast, ipv4_text, make_heartbeat,
    primary_interface, snapshot, snapshot_from, usable_from, usable_interfaces, Announced,
    Fingerprint, Heard, Interface, RawAddr, RawInterface, BROADCAST_ALL,
};
use localdrop::protocol::{PeerOs, PeerState, PROTOCOL_VERSION};

fn ip(a: u8, b: u8, c: u8, d: u8) -> u32 {
    u32::from_be_bytes([a, b, c, d])
}

fn iface(name: &str, addr: u32, mask: u32, bcast: u32) -> Interface {
    Interface { name: name.into(), ip: addr, netmask: mask, broadcast: bcast }
}

#[test]
fn only_usable_ipv4_interfaces_are_kept() {
    let raw = vec![
        RawInterface { name: "lo".into(), addr: RawAddr::V4 { ip: ip(127, 0, 0, 1), netmask: ip(255, 0, 0, 0), broadcast: None } },
        RawInterface { name: "apipa".into(), addr: RawAddr::V4 { ip: ip(169, 254, 3, 4), netmask: ip(255, 255, 0, 0), broadcast: None } },
        RawInterface { name: "zero".into(), addr: RawAddr::V4 { ip: 0, netmask: 0, broadcast: None } },
        RawInterface { name: "v6".into(), addr: RawAddr::V6 },
        RawInterface { name: "wlan0".into(), addr: RawAddr::V4 { ip: ip(192, 168, 1, 44), netmask: ip(255, 255, 255, 0), broadcast: None } },
        RawInterface { name: "eth0".into(), addr: RawAddr::V4 { ip: ip(10, 0, 0, 2), netmask: ip(255, 0, 0, 0), broadcast: Some(ip(10, 0, 0, 99)) } },
    ];
    let u = usable_from(raw);
    assert_eq!(u.len(), 2);
    assert_eq!(u[0].name, "wlan0");
    assert_eq!(u[0].broadcast, ip(192, 168, 1, 255));
    assert_eq!(u[1].broadcast, ip(10, 0, 0, 99));
}

#[test]
fn broadcast_is_derived_from_the_netmask() {
    assert_eq!(derive_broadcast(ip(192, 168, 1, 44), ip(255, 255, 255, 0)), ip(192, 168, 1, 255));
    assert_eq!(derive_broadcast(ip(10, 1, 2, 3), ip(255, 255, 0, 0)), ip(10, 1, 255, 255));
    assert_eq!(ipv4_text(ip(192, 168, 100, 44)), "192.168.100.44");
    assert_eq!(ipv4_text(0), "0.0.0.0");
}

#[test]
fn targets_are_sorted_deduped_with_a_fallback() {
    let ifs = vec![
        iface("a", ip(10, 0, 0, 2), 0, ip(10, 0, 0, 255)),
        iface("b", ip(192, 168, 1, 2), 0, ip(192, 168, 1, 255)),
        iface("c", ip(10, 0, 0, 3), 0, ip(10, 0, 0, 255)),
    ];
    assert_eq!(broadcast_targets_from(&ifs), vec![ip(10, 0, 0, 255), ip(192, 168, 1, 255)]);
    assert_eq!(broadcast_targets_from(&Vec::new()), vec![BROADCAST_ALL]);
    assert!(!broadcast_targets().is_empty());
}

#[test]
fn primary_interface_prefers_the_routable_address() {
    let ifs = vec![
        iface("vmnet1", ip(192, 168, 118, 1), ip(255, 255, 255, 0), ip(192, 168, 118, 255)),
        iface("wlan0", ip(192, 168, 100, 44), ip(255, 255, 255, 0), ip(192, 168, 100, 255)),
    ];
    assert_eq!(primary_interface(&ifs, &Some("192.168.100.44".into())), Some(1));
    assert_eq!(primary_interface(&ifs, &Some("fe80::1".into())), Some(0));
    assert_eq!(primary_interface(&ifs, &None), Some(0));
    assert_eq!(primary_interface(&Vec::new(), &None), None);

    let targets = broadcast_targets_from(&ifs);
    let s = snapshot_from(&ifs, &Some("192.168.100.44".into()), &targets, (57321, 57323));
    assert!(s.online);
    assert_eq!(s.interface.as_deref(), Some("wlan0"));
    assert_eq!(s.local_ip.as_deref(), Some("192.168.100.44"));
    assert_eq!(s.netmask.as_deref(), Some("255.255.255.0"));
    assert_eq!(s.broadcast_targets, vec!["192.168.100.255", "192.168.118.255"]);
    assert_eq!((s.discovery_port, s.transfer_port), (57321, 57323));

    let off = snapshot_from(&Vec::new(), &Some("10.9.8.7".into()), &vec![BROADCAST_ALL], (1, 2));
    assert!(!off.online);
    assert_eq!(off.interface, None);
    assert_eq!(off.local_ip.as_deref(), Some("10.9.8.7"));
    assert_eq!(off.broadcast_targets, vec!["255.255.255.255"]);
    let live = snapshot((57321, 57322));
    assert_eq!(live.online, !usable_interfaces().is_empty() || live.online);
}

#[test]
fn fingerprints_ignore_order_but_not_leases() {
    let a = vec![iface("eth0", ip(10, 0, 0, 2), 0, 0), iface("wlan0", ip(192, 168, 1, 2), 0, 0)];
    let b = vec![iface("wlan0", ip(192, 168, 1, 2), 0, 0), iface("eth0", ip(10, 0, 0, 2), 0, 0)];
    let c = vec![iface("wlan0", ip(192, 168, 1, 3), 0, 0), iface("eth0", ip(10, 0, 0, 2), 0, 0)];
    assert!(!Fingerprint::of(&a).differs(&Fingerprint::of(&b)));
    assert!(Fingerprint::of(&a).differs(&Fingerprint::of(&c)));
    assert!(Fingerprint::of(&a).differs(&Fingerprint::of(&Vec::new())));
    let now = Fingerprint::current();
    assert!(!now.differs(&now));
}

#[test]
fn heartbeats_are_judged() {
    let mut seen = Announced::new();
    assert_eq!(seen.judge("me", "me", PROTOCOL_VERSION), Heard::Own);
    assert_eq!(seen.judge("me", "old", PROTOCOL_VERSION + 1), Heard::Incompatible { announce: true });
    assert_eq!(seen.judge("me", "peer", PROTOCOL_VERSION), Heard::Compatible);
    assert_eq!(seen.judge("me", "old", PROTOCOL_VERSION + 1), Heard::Incompatible { announce: false });
    let mut fresh = Announced::new();
    assert_eq!(fresh.judge("me", "old", PROTOCOL_VERSION + 1), Heard::Incompatible { announce: true });
}

#[test]
fn heartbeats_advertise_busy_state() {
    let h = make_heartbeat("id".into(), "Me".into(), PeerOs::Linux, 57322, "1.0.0".into(), true);
    assert_eq!(h.state, PeerState::Busy);
    assert_eq!(h.protocol_version, PROTOCOL_VERSION);
    let h = make_heartbeat("id".into(), "Me".into(), PeerOs::Linux, 57322, "1.0.0".into(), false);
    assert_eq!(h.state, PeerState::Ready);
}
