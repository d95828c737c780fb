//! Discovery decisions: which interfaces are usable, where heartbeats are
//! broadcast, which address to show as this device's, when the network has
//! changed enough to rebind, and what to make of each heartbeat heard.
//!
//! IPv4 addresses are `u32` in network order: `a.b.c.d` is
//! `a << 24 | b << 16 | c << 8 | d`.
use vstd::prelude::*;

use crate::protocol::{Heartbeat, PeerOs, PeerState, PROTOCOL_VERSION};
use crate::text::{decimal, decimal_string};

verus! {

// ---------------------------------------------------------------------------
// Addresses
// ---------------------------------------------------------------------------

/// `127.0.0.0/8`: reaches nothing but this machine.
pub open spec fn loopback(ip: u32) -> bool {
    ip / 0x0100_0000 == 127
}

/// `169.254.0.0/16`: an APIPA address means DHCP failed.
pub open spec fn link_local(ip: u32) -> bool {
    ip / 0x1_0000 == 0xA9FE
}

/// `0.0.0.0`: not a real address.
pub open spec fn unspecified(ip: u32) -> bool {
    ip == 0
}

/// `ip | !netmask`: every host bit set, the subnet's directed broadcast.
pub fn derive_broadcast(ip: u32, netmask: u32) -> (b: u32)
    ensures
        b == ip | !netmask,
{
    ip | !netmask
}

/// The dotted-quad text of an address, as `Ipv4Addr` displays it.
pub open spec fn dotted(ip: u32) -> Seq<char> {
    decimal((ip / 0x0100_0000) as nat) + "."@ + decimal(((ip / 0x1_0000) % 256) as nat) + "."@
        + decimal(((ip / 0x100) % 256) as nat) + "."@ + decimal((ip % 256) as nat)
}

/// `dotted` computed.
pub fn ipv4_text(ip: u32) -> (s: String)
    ensures
        s@ == dotted(ip),
{
    let mut s = decimal_string((ip / 0x0100_0000) as u64);
    s.append(".");
    let b = decimal_string(((ip / 0x1_0000) % 256) as u64);
    s.append(b.as_str());
    s.append(".");
    let c = decimal_string(((ip / 0x100) % 256) as u64);
    s.append(c.as_str());
    s.append(".");
    let d = decimal_string((ip % 256) as u64);
    s.append(d.as_str());
    s
}

// ---------------------------------------------------------------------------
// Interfaces
// ---------------------------------------------------------------------------

/// An address the OS reports on an interface.
pub enum RawAddr {
    /// IPv4, with the broadcast address when the OS reports one.
    V4 { ip: u32, netmask: u32, broadcast: Option<u32> },
    /// IPv6, which has no broadcast and is out of scope for discovery.
    V6,
}

/// One interface address as the OS enumerates it.
pub struct RawInterface {
    pub name: String,
    pub addr: RawAddr,
}

/// A usable IPv4 interface and its broadcast address.
pub struct Interface {
    pub name: String,
    pub ip: u32,
    pub netmask: u32,
    pub broadcast: u32,
}

/// The usable interface an enumerated one gives, if any: IPv4, and neither
/// loopback, link-local nor unspecified; the broadcast address is the
/// reported one, else derived from the netmask.
pub open spec fn usable_view(r: RawInterface) -> Option<(Seq<char>, u32, u32, u32)> {
    match r.addr {
        RawAddr::V4 { ip, netmask, broadcast } => if loopback(ip) || link_local(ip)
            || unspecified(ip) {
            None
        } else {
            Some(
                (
                    r.name@,
                    ip,
                    netmask,
                    match broadcast {
                        Some(b) => b,
                        None => ip | !netmask,
                    },
                ),
            )
        },
        RawAddr::V6 => None,
    }
}

pub open spec fn interface_view(i: Interface) -> (Seq<char>, u32, u32, u32) {
    (i.name@, i.ip, i.netmask, i.broadcast)
}

/// The usable interfaces among those enumerated, in order.
pub open spec fn usable_of(raw: Seq<RawInterface>) -> Seq<(Seq<char>, u32, u32, u32)>
    decreases raw.len(),
{
    if raw.len() == 0 {
        Seq::empty()
    } else {
        let init = usable_of(raw.drop_last());
        match usable_view(raw.last()) {
            Some(v) => init.push(v),
            None => init,
        }
    }
}

pub open spec fn interfaces_view(v: Seq<Interface>) -> Seq<(Seq<char>, u32, u32, u32)> {
    v.map_values(|i: Interface| interface_view(i))
}

/// Keep the usable IPv4 interfaces; see `usable_view`.
pub fn usable_from(raw: Vec<RawInterface>) -> (r: Vec<Interface>)
    ensures
        interfaces_view(r@) == usable_of(raw@),
{
    let mut out: Vec<Interface> = Vec::new();
    let mut i: usize = 0;
    assert(raw@.take(0) == Seq::<RawInterface>::empty());
    while i < raw.len()
        invariant
            0 <= i <= raw.len(),
            interfaces_view(out@) == usable_of(raw@.take(i as int)),
        decreases raw.len() - i,
    {
        let ghost before = interfaces_view(out@);
        assert(raw@.take(i + 1).drop_last() == raw@.take(i as int));
        assert(raw@.take(i + 1).last() == raw@[i as int]);
        match &raw[i].addr {
            RawAddr::V4 { ip, netmask, broadcast } => {
                let ip = *ip;
                let netmask = *netmask;
                let lo = ip / 0x0100_0000 == 127;
                let ll = ip / 0x1_0000 == 0xA9FE;
                if !(lo || ll || ip == 0) {
                    let b = match broadcast {
                        Some(b) => *b,
                        None => derive_broadcast(ip, netmask),
                    };
                    let item = Interface { name: raw[i].name.clone(), ip, netmask, broadcast: b };
                    out.push(item);
                    assert(interfaces_view(out@) == before.push(interface_view(item)));
                }
            },
            RawAddr::V6 => {},
        }
        i = i + 1;
    }
    assert(raw@.take(raw.len() as int) == raw@);
    out
}

/// Every interface address the OS reports, or `None` when they cannot be
/// enumerated.
///
/// Calls `if_addrs::get_if_addrs` and converts each entry's IPv4 fields to
/// `u32` (`u32::from`, network order). What is configured depends on the
/// machine, so nothing is stated of the result.
#[verifier::external_body]
fn os_interfaces() -> (r: Option<Vec<RawInterface>>) {
    let addrs = if_addrs::get_if_addrs().ok()?;
    Some(addrs.into_iter().map(|i| RawInterface {
        name: i.name,
        addr: match i.addr {
            if_addrs::IfAddr::V4(v4) => RawAddr::V4 {
                ip: u32::from(v4.ip),
                netmask: u32::from(v4.netmask),
                broadcast: v4.broadcast.map(u32::from),
            },
            if_addrs::IfAddr::V6(_) => RawAddr::V6,
        },
    }).collect())
}

/// IPv4, up, non-loopback, non-link-local interfaces, as enumerated now;
/// none when they cannot be enumerated, which reads as offline.
pub fn usable_interfaces() -> (r: Vec<Interface>)
    ensures
        exists|raw: Seq<RawInterface>| interfaces_view(r@) == usable_of(raw),
{
    match os_interfaces() {
        Some(raw) => usable_from(raw),
        None => {
            let r: Vec<Interface> = Vec::new();
            assert(interfaces_view(r@) == usable_of(Seq::<RawInterface>::empty()));
            r
        },
    }
}

// ---------------------------------------------------------------------------
// Broadcast targets
// ---------------------------------------------------------------------------

/// The limited broadcast address `255.255.255.255`.
pub const BROADCAST_ALL: u32 = 0xFFFF_FFFF;

pub open spec fn strictly_increasing(s: Seq<u32>) -> bool {
    forall|i: int, j: int| 0 <= i < j < s.len() ==> s[i] < s[j]
}

/// The interfaces' broadcast addresses, in order.
pub open spec fn broadcasts(ifs: Seq<Interface>) -> Seq<u32> {
    ifs.map_values(|i: Interface| i.broadcast)
}

/// Where heartbeats go: each interface's directed broadcast address, sorted
/// and without repeats; the limited broadcast address only when no
/// interface gives one, since many access points drop it.
pub open spec fn targets_ok(ifs: Seq<Interface>, t: Seq<u32>) -> bool {
    if ifs.len() == 0 {
        t == seq![BROADCAST_ALL]
    } else {
        strictly_increasing(t) && t.to_set() == broadcasts(ifs).to_set()
    }
}

/// Insert `x` into a strictly increasing `v`, keeping it so.
fn insert_sorted(v: &mut Vec<u32>, x: u32)
    requires
        strictly_increasing(old(v)@),
    ensures
        strictly_increasing(final(v)@),
        final(v)@.contains(x),
        forall|y: u32| final(v)@.contains(y) <==> (old(v)@.contains(y) || y == x),
{
    let mut i: usize = 0;
    while i < v.len() && v[i] < x
        invariant
            0 <= i <= v.len(),
            v@ == old(v)@,
            forall|j: int| 0 <= j < i ==> v@[j] < x,
        decreases v.len() - i,
    {
        i = i + 1;
    }
    if i < v.len() && v[i] == x {
        assert(v@[i as int] == x);
        return;
    }
    let ghost before = v@;
    v.insert(i, x);
    assert(v@ == before.take(i as int).push(x) + before.skip(i as int));
    assert forall|a: int, b: int| 0 <= a < b < v@.len() implies v@[a] < v@[b] by {
        if a < i && b < i {
            assert(v@[a] == before[a] && v@[b] == before[b]);
        } else if a < i && b == i {
        } else if a < i {
            assert(v@[a] == before[a] && v@[b] == before[b - 1]);
        } else if a == i {
            assert(v@[b] == before[b - 1]);
        } else {
            assert(v@[a] == before[a - 1] && v@[b] == before[b - 1]);
        }
    }
    assert(v@[i as int] == x);
    assert forall|y: u32| v@.contains(y) <==> (before.contains(y) || y == x) by {
        if v@.contains(y) {
            let k = choose|k: int| 0 <= k < v@.len() && v@[k] == y;
            if k < i {
                assert(before[k] == y);
            } else if k > i {
                assert(before[k - 1] == y);
            }
        }
        if before.contains(y) {
            let k = choose|k: int| 0 <= k < before.len() && before[k] == y;
            if k < i {
                assert(v@[k] == y);
            } else {
                assert(v@[k + 1] == y);
            }
        }
    }
}

/// The broadcast targets for these interfaces; see `targets_ok`.
pub fn broadcast_targets_from(interfaces: &Vec<Interface>) -> (t: Vec<u32>)
    ensures
        targets_ok(interfaces@, t@),
{
    let mut t: Vec<u32> = Vec::new();
    let mut i: usize = 0;
    assert(broadcasts(interfaces@).take(0).to_set() =~= t@.to_set());
    while i < interfaces.len()
        invariant
            0 <= i <= interfaces.len(),
            strictly_increasing(t@),
            t@.to_set() == broadcasts(interfaces@).take(i as int).to_set(),
        decreases interfaces.len() - i,
    {
        let ghost before = t@;
        let b = interfaces[i].broadcast;
        insert_sorted(&mut t, b);
        proof {
            let bs = broadcasts(interfaces@);
            assert(bs.take(i + 1) == bs.take(i as int).push(b));
            bs.take(i as int).lemma_push_to_set_commute(b);
            assert(t@.to_set() =~= before.to_set().insert(b));
        }
        i = i + 1;
    }
    assert(broadcasts(interfaces@).take(interfaces.len() as int) == broadcasts(interfaces@));
    if t.len() == 0 {
        proof {
            if interfaces.len() > 0 {
                assert(broadcasts(interfaces@)[0] == interfaces@[0].broadcast);
                assert(broadcasts(interfaces@).contains(interfaces@[0].broadcast));
                assert(broadcasts(interfaces@).to_set().contains(interfaces@[0].broadcast));
                assert(t@.to_set().contains(interfaces@[0].broadcast));
            }
        }
        t.push(BROADCAST_ALL);
        assert(t@ == seq![BROADCAST_ALL]);
    } else {
        proof {
            assert(t@.contains(t@[0]));
            assert(t@.to_set().contains(t@[0]));
            if interfaces.len() == 0 {
                assert(broadcasts(interfaces@).len() == 0);
                assert(!broadcasts(interfaces@).contains(t@[0]));
            }
        }
    }
    t
}

/// Where heartbeats go now; see `targets_ok`.
pub fn broadcast_targets() -> (t: Vec<u32>)
    ensures
        exists|ifs: Seq<Interface>| targets_ok(ifs, t@),
{
    let ifs = usable_interfaces();
    broadcast_targets_from(&ifs)
}

// ---------------------------------------------------------------------------
// This device's address
// ---------------------------------------------------------------------------

/// The address that carries outbound traffic, as text, or `None` when it
/// cannot be found.
///
/// Calls `local_ip_address::local_ip` and formats its answer with
/// `to_string` (dotted quad for IPv4). Which address routes outbound
/// depends on the machine, so nothing is stated of the result.
#[verifier::external_body]
fn os_routable_ip() -> (r: Option<String>) {
    match local_ip_address::local_ip() {
        Ok(a) => Some(a.to_string()),
        Err(_) => None,
    }
}

/// Index of the first interface whose address reads as `text`.
pub open spec fn first_with_ip(ifs: Seq<Interface>, text: Seq<char>) -> Option<int>
    decreases ifs.len(),
{
    if ifs.len() == 0 {
        None
    } else if dotted(ifs[0].ip) == text {
        Some(0)
    } else {
        match first_with_ip(ifs.drop_first(), text) {
            Some(k) => Some(k + 1),
            None => None,
        }
    }
}

/// The interface shown as this device's: the one owning the routable
/// address when one does (virtual adapters make the first one a poor
/// guess), else the first, else none. An IPv6 answer matches none.
pub open spec fn primary_of(ifs: Seq<Interface>, routable: Option<Seq<char>>) -> Option<int> {
    let matched = match routable {
        Some(t) => first_with_ip(ifs, t),
        None => None,
    };
    match matched {
        Some(k) => Some(k),
        None => if ifs.len() > 0 {
            Some(0)
        } else {
            None
        },
    }
}

/// `primary_of` computed.
pub fn primary_interface(interfaces: &Vec<Interface>, routable: &Option<String>) -> (r: Option<usize>)
    ensures
        match r {
            Some(k) => primary_of(interfaces@, crate::error::opt_view(*routable)) == Some(k as int) && k < interfaces@.len(),
            None => primary_of(interfaces@, crate::error::opt_view(*routable)) is None,
        },
{
    if let Some(t) = routable {
        let tv = crate::text::chars_of(t.as_str());
        let mut i: usize = 0;
        assert(interfaces@.skip(0) == interfaces@);
        while i < interfaces.len()
            invariant
                0 <= i <= interfaces.len(),
                tv@ == t@,
                crate::error::opt_view(*routable) == Some(t@),
                first_with_ip(interfaces@, t@) == match first_with_ip(
                    interfaces@.skip(i as int),
                    t@,
                ) {
                    Some(k) => Some(k + i),
                    None => None,
                },
            decreases interfaces.len() - i,
        {
            let ghost rest = interfaces@.skip(i as int);
            assert(rest[0] == interfaces@[i as int]);
            let text = ipv4_text(interfaces[i].ip);
            if crate::paths::chars_eq_str(&tv, text.as_str()) {
                assert(first_with_ip(rest, t@) == Some(0int));
                assert(crate::error::opt_view(*routable) == Some(t@));
                return Some(i);
            }
            assert(rest.drop_first() == interfaces@.skip(i + 1));
            i = i + 1;
        }
        assert(interfaces@.skip(i as int).len() == 0);
    }
    if interfaces.len() > 0 {
        Some(0)
    } else {
        None
    }
}

// ---------------------------------------------------------------------------
// Network snapshot
// ---------------------------------------------------------------------------

/// Current network state, surfaced in the header and diagnostics.
pub struct NetworkSnapshot {
    pub online: bool,
    pub interface: Option<String>,
    pub local_ip: Option<String>,
    pub netmask: Option<String>,
    pub broadcast_targets: Vec<String>,
    pub discovery_port: u16,
    pub transfer_port: u16,
}

/// The snapshot built from the interfaces, the routable address, the
/// broadcast targets and the bound ports. Online means at least one usable
/// interface, not internet reachability; the shown address falls back to
/// the routable one when no interface qualified.
pub open spec fn snapshot_ok(
    s: NetworkSnapshot,
    ifs: Seq<Interface>,
    routable: Option<Seq<char>>,
    targets: Seq<u32>,
    ports: (u16, u16),
) -> bool {
    let p = primary_of(ifs, routable);
    &&& s.online == (ifs.len() > 0)
    &&& crate::error::opt_view(s.interface) == match p {
        Some(k) => Some(ifs[k].name@),
        None => None,
    }
    &&& crate::error::opt_view(s.local_ip) == match p {
        Some(k) => Some(dotted(ifs[k].ip)),
        None => routable,
    }
    &&& crate::error::opt_view(s.netmask) == match p {
        Some(k) => Some(dotted(ifs[k].netmask)),
        None => None,
    }
    &&& s.broadcast_targets@.len() == targets.len()
    &&& forall|i: int| 0 <= i < targets.len() ==> #[trigger] s.broadcast_targets@[i]@ == dotted(targets[i])
    &&& s.discovery_port == ports.0
    &&& s.transfer_port == ports.1
}

/// Assemble the snapshot; see `snapshot_ok`.
pub fn snapshot_from(
    interfaces: &Vec<Interface>,
    routable: &Option<String>,
    targets: &Vec<u32>,
    ports: (u16, u16),
) -> (s: NetworkSnapshot)
    ensures
        snapshot_ok(s, interfaces@, crate::error::opt_view(*routable), targets@, ports),
{
    let primary = primary_interface(interfaces, routable);
    let (interface, local_ip, netmask) = match primary {
        Some(k) => (
            Some(interfaces[k].name.clone()),
            Some(ipv4_text(interfaces[k].ip)),
            Some(ipv4_text(interfaces[k].netmask)),
        ),
        None => (
            None,
            match routable {
                Some(t) => Some(t.clone()),
                None => None,
            },
            None,
        ),
    };
    let mut texts: Vec<String> = Vec::new();
    let mut i: usize = 0;
    while i < targets.len()
        invariant
            0 <= i <= targets.len(),
            texts@.len() == i,
            forall|j: int| 0 <= j < i ==> #[trigger] texts@[j]@ == dotted(targets@[j]),
        decreases targets.len() - i,
    {
        texts.push(ipv4_text(targets[i]));
        i = i + 1;
    }
    NetworkSnapshot {
        online: interfaces.len() > 0,
        interface,
        local_ip,
        netmask,
        broadcast_targets: texts,
        discovery_port: ports.0,
        transfer_port: ports.1,
    }
}

/// Capture the current network state for the UI, with the ports actually
/// bound.
pub fn snapshot(ports: (u16, u16)) -> (s: NetworkSnapshot)
    ensures
        exists|ifs: Seq<Interface>, routable: Option<Seq<char>>, targets: Seq<u32>|
            snapshot_ok(s, ifs, routable, targets, ports) && targets_ok(ifs, targets),
{
    let interfaces = usable_interfaces();
    let routable = os_routable_ip();
    let targets = broadcast_targets_from(&interfaces);
    snapshot_from(&interfaces, &routable, &targets, ports)
}

// ---------------------------------------------------------------------------
// Network changes
// ---------------------------------------------------------------------------

/// The `name:ip` text of an interface.
pub open spec fn fingerprint_item(i: Interface) -> Seq<char> {
    i.name@ + ":"@ + dotted(i.ip)
}

proof fn lemma_views_contain(v: Seq<String>, x: Seq<char>)
    ensures
        v.map_values(|s: String| s@).contains(x) <==> exists|k: int|
            0 <= k < v.len() && #[trigger] v[k]@ == x,
{
    if v.map_values(|s: String| s@).contains(x) {
        let m = v.map_values(|s: String| s@);
        let k = choose|k: int| 0 <= k < m.len() && #[trigger] m[k] == x;
        assert(v[k]@ == x);
    }
    if exists|k: int| 0 <= k < v.len() && #[trigger] v[k]@ == x {
        let k = choose|k: int| 0 <= k < v.len() && #[trigger] v[k]@ == x;
        assert(v.map_values(|s: String| s@)[k] == x);
    }
}

/// The set of `name:ip` texts of the interfaces.
pub open spec fn fingerprint_of(ifs: Seq<Interface>) -> Set<Seq<char>> {
    ifs.map_values(|i: Interface| fingerprint_item(i)).to_set()
}

/// A comparable summary of the interfaces: the set of their `name:ip`
/// texts, so a new adapter and a new lease both count as a change, while
/// the order the OS lists them in does not.
pub struct Fingerprint {
    items: Vec<String>,
}

impl Fingerprint {
    pub closed spec fn view(&self) -> Set<Seq<char>> {
        self.items@.map_values(|s: String| s@).to_set()
    }

    /// The fingerprint of these interfaces.
    pub fn of(interfaces: &Vec<Interface>) -> (f: Fingerprint)
        ensures
            f.view() == fingerprint_of(interfaces@),
    {
        let mut items: Vec<String> = Vec::new();
        let mut i: usize = 0;
        while i < interfaces.len()
            invariant
                0 <= i <= interfaces.len(),
                items@.map_values(|s: String| s@) == interfaces@.map_values(
                    |i: Interface| fingerprint_item(i),
                ).take(i as int),
            decreases interfaces.len() - i,
        {
            let ghost before = items@.map_values(|s: String| s@);
            let mut s = interfaces[i].name.clone();
            s.append(":");
            let ip = ipv4_text(interfaces[i].ip);
            s.append(ip.as_str());
            items.push(s);
            assert(items@.map_values(|s: String| s@) == before.push(s@));
            assert(interfaces@.map_values(|i: Interface| fingerprint_item(i)).take(i + 1)
                == interfaces@.map_values(|i: Interface| fingerprint_item(i)).take(i as int).push(
                fingerprint_item(interfaces@[i as int]),
            ));
            i = i + 1;
        }
        assert(interfaces@.map_values(|i: Interface| fingerprint_item(i)).take(
            interfaces.len() as int,
        ) == interfaces@.map_values(|i: Interface| fingerprint_item(i)));
        Fingerprint { items }
    }

    /// The fingerprint of the interfaces as they are now.
    pub fn current() -> (f: Fingerprint)
        ensures
            exists|ifs: Seq<Interface>| f.view() == fingerprint_of(ifs),
    {
        let ifs = usable_interfaces();
        Fingerprint::of(&ifs)
    }

    fn holds(&self, x: &String) -> (b: bool)
        ensures
            b == self.view().contains(x@),
    {
        let mut i: usize = 0;
        while i < self.items.len()
            invariant
                0 <= i <= self.items.len(),
                forall|j: int| 0 <= j < i ==> self.items@[j]@ != x@,
            decreases self.items.len() - i,
        {
            if self.items[i] == *x {
                assert(self.items@.map_values(|s: String| s@)[i as int] == x@);
                return true;
            }
            i = i + 1;
        }
        proof {
            lemma_views_contain(self.items@, x@);
        }
        false
    }

    fn within_other(&self, other: &Fingerprint) -> (b: bool)
        ensures
            b == self.view().subset_of(other.view()),
    {
        let mut i: usize = 0;
        while i < self.items.len()
            invariant
                0 <= i <= self.items.len(),
                forall|j: int| 0 <= j < i ==> other.view().contains(#[trigger] self.items@[j]@),
            decreases self.items.len() - i,
        {
            if !other.holds(&self.items[i]) {
                assert(self.items@.map_values(|s: String| s@)[i as int] == self.items@[i as int]@);
                return false;
            }
            i = i + 1;
        }
        assert forall|x: Seq<char>| self.view().contains(x) implies other.view().contains(x) by {
            lemma_views_contain(self.items@, x);
        }
        true
    }

    /// Whether the network differs from `other`: a rebind is due.
    pub fn differs(&self, other: &Fingerprint) -> (b: bool)
        ensures
            b == (self.view() != other.view()),
    {
        let a = self.within_other(other);
        let b = other.within_other(self);
        proof {
            if a && b {
                assert(self.view() =~= other.view());
            }
        }
        !(a && b)
    }
}

// ---------------------------------------------------------------------------
// Heartbeats
// ---------------------------------------------------------------------------

/// The heartbeat this device broadcasts: busy while any transfer is in
/// flight, so peers can show it as not droppable.
pub fn make_heartbeat(
    device_id: String,
    alias: String,
    os: PeerOs,
    tcp_port: u16,
    client_version: String,
    busy: bool,
) -> (h: Heartbeat)
    ensures
        h.protocol_version == PROTOCOL_VERSION,
        h.device_id == device_id,
        h.alias == alias,
        h.os == os,
        h.tcp_port == tcp_port,
        h.client_version == client_version,
        h.state == if busy {
            PeerState::Busy
        } else {
            PeerState::Ready
        },
{
    Heartbeat {
        protocol_version: PROTOCOL_VERSION,
        device_id,
        alias,
        os,
        tcp_port,
        client_version,
        state: if busy {
            PeerState::Busy
        } else {
            PeerState::Ready
        },
    }
}

/// What to do with a heartbeat heard.
#[derive(Clone, Copy, PartialEq, Eq, Structural, Debug)]
pub enum Heard {
    /// Our own broadcast coming back: ignored.
    Own,
    /// A peer on another protocol version; `announce` is true the first time
    /// it is heard in this binding.
    Incompatible { announce: bool },
    /// A peer to put in the registry.
    Compatible,
}

/// The verdict on a heartbeat from `id` at `version`, given our own id and
/// the incompatible peers already announced.
pub open spec fn heard_of(announced: Set<Seq<char>>, own: Seq<char>, id: Seq<char>, version: u16) -> Heard {
    if id == own {
        Heard::Own
    } else if version != PROTOCOL_VERSION {
        Heard::Incompatible { announce: !announced.contains(id) }
    } else {
        Heard::Compatible
    }
}

/// The announced set after such a heartbeat.
pub open spec fn announced_after(announced: Set<Seq<char>>, own: Seq<char>, id: Seq<char>, version: u16) -> Set<Seq<char>> {
    if id != own && version != PROTOCOL_VERSION {
        announced.insert(id)
    } else {
        announced
    }
}

/// Incompatible peers already announced in this binding, so a peer on an
/// old protocol raises its notice once rather than every heartbeat.
pub struct Announced {
    ids: Vec<String>,
}

impl Announced {
    pub closed spec fn view(&self) -> Set<Seq<char>> {
        self.ids@.map_values(|s: String| s@).to_set()
    }

    pub fn new() -> (a: Announced)
        ensures
            a.view() == Set::<Seq<char>>::empty(),
    {
        let a = Announced { ids: Vec::new() };
        assert(a.view() =~= Set::<Seq<char>>::empty());
        a
    }

    fn contains(&self, id: &str) -> (b: bool)
        ensures
            b == self.view().contains(id@),
    {
        let mut i: usize = 0;
        while i < self.ids.len()
            invariant
                0 <= i <= self.ids.len(),
                forall|j: int| 0 <= j < i ==> self.ids@[j]@ != id@,
            decreases self.ids.len() - i,
        {
            if crate::paths::chars_eq_str(&crate::text::chars_of(self.ids[i].as_str()), id) {
                assert(self.ids@.map_values(|s: String| s@)[i as int] == id@);
                return true;
            }
            i = i + 1;
        }
        proof {
            lemma_views_contain(self.ids@, id@);
        }
        false
    }

    /// Judge a heartbeat from `id` at protocol `version`, heard by the
    /// device whose id is `own`: our own echo is ignored (compared by id,
    /// since the address varies per interface), an incompatible peer is
    /// announced once, anything else goes to the registry.
    pub fn judge(&mut self, own: &str, id: &str, version: u16) -> (h: Heard)
        ensures
            h == heard_of(old(self).view(), own@, id@, version),
            final(self).view() == announced_after(old(self).view(), own@, id@, version),
    {
        if crate::paths::chars_eq_str(&crate::text::chars_of(id), own) {
            return Heard::Own;
        }
        if version != PROTOCOL_VERSION {
            let seen = self.contains(id);
            if !seen {
                let ghost before = self.ids@.map_values(|s: String| s@);
                self.ids.push(id.to_owned());
                assert(self.ids@.map_values(|s: String| s@) == before.push(id@));
                proof {
                    before.lemma_push_to_set_commute(id@);
                }
                assert(self.view() =~= old(self).view().insert(id@));
            } else {
                assert(old(self).view().insert(id@) =~= old(self).view());
            }
            return Heard::Incompatible { announce: !seen };
        }
        Heard::Compatible
    }
}

/// An incompatible peer is announced at most once per binding: having been
/// heard once, the same peer heard again is not announced, whatever else
/// was heard in between.
pub proof fn law_incompatible_announced_once(
    announced: Set<Seq<char>>,
    own: Seq<char>,
    id: Seq<char>,
    version: u16,
    other_id: Seq<char>,
    other_version: u16,
)
    requires
        id != own,
        version != PROTOCOL_VERSION,
    ensures
        ({
            let once = announced_after(announced, own, id, version);
            let twice = announced_after(once, own, other_id, other_version);
            heard_of(twice, own, id, version) == (Heard::Incompatible { announce: false })
        }),
{
}

} // verus!
