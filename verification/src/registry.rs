//! The peer table: every device heard on the LAN, keyed by device id and
//! pruned on a TTL.
//!
//! Times are milliseconds on a monotonic clock, supplied by the caller.
use vstd::prelude::*;

use crate::protocol::{Heartbeat, PeerOs, PeerState, PEER_TTL_MS};
use crate::text::{chars_of, compare_chars, lemma_seq_lt_irreflexive, lemma_seq_lt_total,
    lemma_seq_lt_transitive, seq_lt};

verus! {

/// A peer currently visible on the LAN.
pub struct Peer {
    pub device_id: String,
    pub alias: String,
    pub os: PeerOs,
    pub ip: String,
    pub tcp_port: u16,
    pub client_version: String,
    pub state: PeerState,
    /// Milliseconds since this peer was last heard from.
    pub last_seen_ms: u64,
}

impl Clone for Peer {
    fn clone(&self) -> (r: Self)
        ensures
            r == *self,
    {
        Peer {
            device_id: self.device_id.clone(),
            alias: self.alias.clone(),
            os: self.os,
            ip: self.ip.clone(),
            tcp_port: self.tcp_port,
            client_version: self.client_version.clone(),
            state: self.state,
            last_seen_ms: self.last_seen_ms,
        }
    }
}

struct Entry {
    peer: Peer,
    last_seen: u64,
}

/// The live peer table, keyed by `device_id` and pruned on a TTL.
pub struct PeerRegistry {
    peers: Vec<Entry>,
}

/// Outcome of absorbing a heartbeat, so the caller only announces changes
/// the user can see.
pub enum Upsert {
    /// First time this `device_id` is seen.
    Added(Peer),
    /// Already known, and something the user can see changed.
    Updated(Peer),
    /// Absorbed with no user-visible change.
    Unchanged,
}

/// A table row: the peer as recorded, and when it was last heard from.
pub struct Row {
    pub peer: Peer,
    pub last_seen: u64,
}

/// Index of the row for `id`, or -1.
pub open spec fn row_index(rows: Seq<Row>, id: Seq<char>) -> int
    decreases rows.len(),
{
    if rows.len() == 0 {
        -1
    } else if rows.last().peer.device_id@ == id {
        rows.len() - 1
    } else {
        row_index(rows.drop_last(), id)
    }
}

/// Device ids are unique in the table.
pub open spec fn unique_ids(rows: Seq<Row>) -> bool {
    forall|i: int, j: int|
        0 <= i < rows.len() && 0 <= j < rows.len() && i != j ==> rows[i].peer.device_id@
            != rows[j].peer.device_id@
}

/// The peer as recorded after a heartbeat from a known device: every field
/// overwritten except the id, the freshness counter zeroed.
pub open spec fn refreshed(p: Peer, hb: Heartbeat, ip: String) -> Peer {
    Peer {
        device_id: p.device_id,
        alias: hb.alias,
        os: hb.os,
        ip: ip,
        tcp_port: hb.tcp_port,
        client_version: hb.client_version,
        state: hb.state,
        last_seen_ms: 0,
    }
}

/// The peer recorded for a device seen for the first time.
pub open spec fn first_sighting(hb: Heartbeat, ip: String) -> Peer {
    Peer {
        device_id: hb.device_id,
        alias: hb.alias,
        os: hb.os,
        ip: ip,
        tcp_port: hb.tcp_port,
        client_version: hb.client_version,
        state: hb.state,
        last_seen_ms: 0,
    }
}

/// A heartbeat changes something the user can see: the alias, the address,
/// the ready/busy state, or the transfer port.
pub open spec fn visible_change(p: Peer, hb: Heartbeat, ip: String) -> bool {
    p.alias@ != hb.alias@ || p.ip@ != ip@ || p.state != hb.state || p.tcp_port != hb.tcp_port
}

/// Milliseconds from `then` to `now`, zero if the clock reads earlier.
pub open spec fn elapsed(now: u64, then: u64) -> u64 {
    if now >= then {
        (now - then) as u64
    } else {
        0
    }
}

/// Unheard from for longer than the TTL.
pub open spec fn expired(r: Row, now: u64) -> bool {
    elapsed(now, r.last_seen) > PEER_TTL_MS
}

/// A peer as reported to callers: freshness computed at `now`.
pub open spec fn stamped(r: Row, now: u64) -> Peer {
    Peer { last_seen_ms: elapsed(now, r.last_seen), ..r.peer }
}

/// The rows still alive at `now`, in table order.
pub open spec fn surviving(rows: Seq<Row>, now: u64) -> Seq<Row>
    decreases rows.len(),
{
    if rows.len() == 0 {
        rows
    } else if expired(rows.last(), now) {
        surviving(rows.drop_last(), now)
    } else {
        surviving(rows.drop_last(), now).push(rows.last())
    }
}

/// `id` belongs to a row expired at `now`.
pub open spec fn is_expired_id(rows: Seq<Row>, now: u64, id: Seq<char>) -> bool {
    exists|j: int| 0 <= j < rows.len() && expired(rows[j], now) && id == rows[j].peer.device_id@
}

/// The ids of the rows expired at `now`, in table order.
pub open spec fn expired_ids(rows: Seq<Row>, now: u64) -> Seq<Seq<char>>
    decreases rows.len(),
{
    if rows.len() == 0 {
        Seq::empty()
    } else if expired(rows.last(), now) {
        expired_ids(rows.drop_last(), now).push(rows.last().peer.device_id@)
    } else {
        expired_ids(rows.drop_last(), now)
    }
}

/// The table after absorbing a heartbeat from `ip` at `now`: a known
/// device's row is refreshed in place, a new device is appended.
pub open spec fn upserted(rows: Seq<Row>, hb: Heartbeat, ip: String, now: u64) -> Seq<Row> {
    let i = row_index(rows, hb.device_id@);
    if i >= 0 {
        rows.update(i, Row { peer: refreshed(rows[i].peer, hb, ip), last_seen: now })
    } else {
        rows.push(Row { peer: first_sighting(hb, ip), last_seen: now })
    }
}

/// What absorbing the heartbeat reports.
pub open spec fn upsert_event(rows: Seq<Row>, hb: Heartbeat, ip: String) -> Upsert {
    let i = row_index(rows, hb.device_id@);
    if i >= 0 {
        if visible_change(rows[i].peer, hb, ip) {
            Upsert::Updated(refreshed(rows[i].peer, hb, ip))
        } else {
            Upsert::Unchanged
        }
    } else {
        Upsert::Added(first_sighting(hb, ip))
    }
}

/// List order: alias first, device id as the tiebreak.
pub open spec fn peer_before(a: Peer, b: Peer) -> bool {
    seq_lt(a.alias@, b.alias@) || (a.alias@ == b.alias@ && seq_lt(a.device_id@, b.device_id@))
}

pub open spec fn sorted_peers(s: Seq<Peer>) -> bool {
    forall|i: int, j: int| 0 <= i < j < s.len() ==> peer_before(#[trigger] s[i], #[trigger] s[j])
}

impl PeerRegistry {
    /// The table's rows, in insertion order.
    pub closed spec fn rows(&self) -> Seq<Row> {
        self.peers@.map_values(|e: Entry| Row { peer: e.peer, last_seen: e.last_seen })
    }

    /// Well-formed: one row per device id.
    pub open spec fn wf(&self) -> bool {
        unique_ids(self.rows())
    }

    pub fn new() -> (r: Self)
        ensures
            r.rows() == Seq::<Row>::empty(),
            r.wf(),
    {
        let r = PeerRegistry { peers: Vec::new() };
        assert(r.rows() =~= Seq::<Row>::empty());
        r
    }

    fn find(&self, device_id: &str) -> (r: Option<usize>)
        ensures
            match r {
                Some(i) => row_index(self.rows(), device_id@) == i as int && i < self.peers@.len(),
                None => row_index(self.rows(), device_id@) == -1,
            },
    {
        let target = device_id.to_owned();
        let mut j = self.peers.len();
        assert(self.rows().take(j as int) == self.rows());
        while j > 0
            invariant
                j <= self.peers.len(),
                target@ == device_id@,
                row_index(self.rows(), device_id@) == row_index(self.rows().take(j as int), device_id@),
            decreases j,
        {
            let ghost t = self.rows().take(j as int);
            assert(t.last() == self.rows()[j - 1]);
            if self.peers[j - 1].peer.device_id == target {
                return Some(j - 1);
            }
            assert(t.drop_last() == self.rows().take(j - 1));
            j = j - 1;
        }
        None
    }

    /// Record a heartbeat from `ip` at `now`, adding the peer or refreshing
    /// it in place. Keyed on `device_id`, so a dual-homed device reaching us
    /// from a second interface stays one peer, at its newest address.
    pub fn upsert(&mut self, hb: Heartbeat, ip: String, now: u64) -> (r: Upsert)
        requires
            old(self).wf(),
        ensures
            final(self).wf(),
            final(self).rows() == upserted(old(self).rows(), hb, ip, now),
            r == upsert_event(old(self).rows(), hb, ip),
    {
        match self.find(hb.device_id.as_str()) {
            Some(i) => {
                let ghost p = self.rows()[i as int].peer;
                let changed = self.peers[i].peer.alias != hb.alias || self.peers[i].peer.ip != ip
                    || self.peers[i].peer.state != hb.state || self.peers[i].peer.tcp_port
                    != hb.tcp_port;
                let device_id = self.peers[i].peer.device_id.clone();
                let peer = Peer {
                    device_id,
                    alias: hb.alias,
                    os: hb.os,
                    ip,
                    tcp_port: hb.tcp_port,
                    client_version: hb.client_version,
                    state: hb.state,
                    last_seen_ms: 0,
                };
                let out = if changed {
                    Upsert::Updated(peer.clone())
                } else {
                    Upsert::Unchanged
                };
                let ghost old_rows = self.rows();
                self.peers.set(i, Entry { peer, last_seen: now });
                proof {
                    assert(self.rows() =~= old_rows.update(
                        i as int,
                        Row { peer: refreshed(p, hb, ip), last_seen: now },
                    ));
                    assert forall|a: int, b: int|
                        0 <= a < self.rows().len() && 0 <= b < self.rows().len() && a != b implies self.rows()[a].peer.device_id@
                        != self.rows()[b].peer.device_id@ by {
                        assert(self.rows()[a].peer.device_id == old_rows[a].peer.device_id);
                        assert(self.rows()[b].peer.device_id == old_rows[b].peer.device_id);
                    }
                }
                out
            },
            None => {
                let peer = Peer {
                    device_id: hb.device_id,
                    alias: hb.alias,
                    os: hb.os,
                    ip,
                    tcp_port: hb.tcp_port,
                    client_version: hb.client_version,
                    state: hb.state,
                    last_seen_ms: 0,
                };
                let out = Upsert::Added(peer.clone());
                let ghost old_rows = self.rows();
                self.peers.push(Entry { peer, last_seen: now });
                proof {
                    assert(self.rows() =~= old_rows.push(
                        Row { peer: first_sighting(hb, ip), last_seen: now },
                    ));
                    lemma_row_index_absent(old_rows, hb.device_id@);
                    assert forall|a: int, b: int|
                        0 <= a < self.rows().len() && 0 <= b < self.rows().len() && a != b implies self.rows()[a].peer.device_id@
                        != self.rows()[b].peer.device_id@ by {
                        if a < old_rows.len() {
                            assert(self.rows()[a] == old_rows[a]);
                        }
                        if b < old_rows.len() {
                            assert(self.rows()[b] == old_rows[b]);
                        }
                    }
                }
                out
            },
        }
    }

    /// Drop peers unheard from for longer than the TTL, returning
    /// their ids so each can be announced as gone.
    pub fn prune(&mut self, now: u64) -> (ids: Vec<String>)
        requires
            old(self).wf(),
        ensures
            final(self).wf(),
            final(self).rows() == surviving(old(self).rows(), now),
            ids@.map_values(|s: String| s@) == expired_ids(old(self).rows(), now),
    {
        let ghost old_rows = self.rows();
        let mut kept: Vec<Entry> = Vec::new();
        let mut gone: Vec<String> = Vec::new();
        let mut old_peers = Vec::new();
        std::mem::swap(&mut old_peers, &mut self.peers);
        let n = old_peers.len();
        let mut i: usize = 0;
        while i < n
            invariant
                n == old_peers.len(),
                0 <= i <= n,
                old_rows == old_peers@.map_values(
                    |e: Entry| Row { peer: e.peer, last_seen: e.last_seen },
                ),
                kept@.map_values(|e: Entry| Row { peer: e.peer, last_seen: e.last_seen })
                    == surviving(old_rows.take(i as int), now),
                gone@.map_values(|s: String| s@) == expired_ids(old_rows.take(i as int), now),
            decreases n - i,
        {
            let e = &old_peers[i];
            proof {
                assert(old_rows.take(i + 1).drop_last() == old_rows.take(i as int));
                assert(old_rows.take(i + 1).last() == old_rows[i as int]);
            }
            let age = if now >= e.last_seen {
                now - e.last_seen
            } else {
                0
            };
            if age > PEER_TTL_MS {
                let ghost before = gone@.map_values(|s: String| s@);
                gone.push(e.peer.device_id.clone());
                assert(gone@.map_values(|s: String| s@) == before.push(
                    old_rows[i as int].peer.device_id@,
                ));
            } else {
                let ghost before = kept@.map_values(
                    |e: Entry| Row { peer: e.peer, last_seen: e.last_seen },
                );
                kept.push(Entry { peer: e.peer.clone(), last_seen: e.last_seen });
                assert(kept@.map_values(|e: Entry| Row { peer: e.peer, last_seen: e.last_seen })
                    == before.push(old_rows[i as int]));
            }
            i = i + 1;
        }
        assert(old_rows.take(n as int) == old_rows);
        self.peers = kept;
        proof {
            lemma_surviving_unique(old_rows, now);
        }
        gone
    }

    /// Rescan rebuilds the table from scratch.
    pub fn clear(&mut self)
        ensures
            final(self).rows() == Seq::<Row>::empty(),
            final(self).wf(),
    {
        self.peers.clear();
        assert(self.rows() =~= Seq::<Row>::empty());
    }

    /// Look up a peer, with `last_seen_ms` computed at `now`.
    pub fn get(&self, device_id: &str, now: u64) -> (r: Option<Peer>)
        ensures
            ({
                let i = row_index(self.rows(), device_id@);
                if i >= 0 {
                    r == Some(stamped(self.rows()[i], now))
                } else {
                    r is None
                }
            }),
    {
        match self.find(device_id) {
            Some(i) => {
                let e = &self.peers[i];
                let mut peer = e.peer.clone();
                peer.last_seen_ms = if now >= e.last_seen {
                    now - e.last_seen
                } else {
                    0
                };
                Some(peer)
            },
            None => None,
        }
    }

    /// Every known peer, stamped at `now`, ordered by alias and then by
    /// device id, so cards do not shuffle between polls.
    pub fn list(&self, now: u64) -> (r: Vec<Peer>)
        requires
            self.wf(),
        ensures
            r@.len() == self.rows().len(),
            sorted_peers(r@),
            distinct_peer_ids(r@),
            peer_ids(r@) == row_ids(self.rows()),
            forall|p: Peer| #[trigger] r@.contains(p) <==> exists|i: int|
                0 <= i < self.rows().len() && p == stamped(#[trigger] self.rows()[i], now),
    {
        let mut out: Vec<Peer> = Vec::new();
        let n = self.peers.len();
        let mut k: usize = 0;
        while k < n
            invariant
                n == self.peers.len(),
                0 <= k <= n,
                self.wf(),
                out@.len() == k,
                sorted_peers(out@),
                distinct_peer_ids(out@),
                forall|p: Peer| #[trigger] out@.contains(p) <==> exists|i: int|
                    0 <= i < k && p == stamped(#[trigger] self.rows()[i], now),
            decreases n - k,
        {
            let e = &self.peers[k];
            let mut peer = e.peer.clone();
            peer.last_seen_ms = if now >= e.last_seen {
                now - e.last_seen
            } else {
                0
            };
            assert(peer == stamped(self.rows()[k as int], now));
            proof {
                // The new peer's id differs from every id already listed.
                assert forall|j: int| 0 <= j < out@.len() implies out@[j].device_id@
                    != peer.device_id@ by {
                    assert(out@.contains(out@[j]));
                    let i = choose|i: int|
                        0 <= i < k && out@[j] == stamped(#[trigger] self.rows()[i], now);
                    assert(self.rows()[i].peer.device_id == out@[j].device_id);
                }
            }
            let pos = insert_position(&out, &peer);
            let ghost before = out@;
            out.insert(pos, peer);
            proof {
                lemma_insert_sorted(before, pos as int, stamped(self.rows()[k as int], now));
                assert forall|a: int, b: int| 0 <= a < b < out@.len() implies out@[a].device_id@
                    != out@[b].device_id@ by {
                    if a < pos && b < pos {
                        assert(out@[a] == before[a] && out@[b] == before[b]);
                    } else if a < pos && b == pos {
                        assert(out@[a] == before[a]);
                    } else if a < pos {
                        assert(out@[a] == before[a] && out@[b] == before[b - 1]);
                    } else if a == pos {
                        assert(out@[b] == before[b - 1]);
                    } else {
                        assert(out@[a] == before[a - 1] && out@[b] == before[b - 1]);
                    }
                }
                assert forall|p: Peer| #[trigger] out@.contains(p) <==> exists|i: int|
                    0 <= i < k + 1 && p == stamped(#[trigger] self.rows()[i], now) by {
                    if out@.contains(p) {
                        let j = choose|j: int| 0 <= j < out@.len() && out@[j] == p;
                        if j < pos {
                            assert(before[j] == p);
                            assert(before.contains(p));
                        } else if j > pos {
                            assert(before[j - 1] == p);
                            assert(before.contains(p));
                        }
                    }
                    if exists|i: int| 0 <= i < k + 1 && p == stamped(#[trigger] self.rows()[i], now) {
                        let i = choose|i: int|
                            0 <= i < k + 1 && p == stamped(#[trigger] self.rows()[i], now);
                        if i < k {
                            assert(before.contains(p));
                            let j = choose|j: int| 0 <= j < before.len() && before[j] == p;
                            if j < pos {
                                assert(out@[j] == p);
                            } else {
                                assert(out@[j + 1] == p);
                            }
                        } else {
                            assert(out@[pos as int] == p);
                        }
                    }
                }
            }
            k = k + 1;
        }
        proof {
            assert forall|x: Seq<char>| #[trigger] peer_ids(out@).contains(x) <==> row_ids(
                self.rows(),
            ).contains(x) by {
                if peer_ids(out@).contains(x) {
                    let j = choose|j: int| 0 <= j < out@.len() && out@[j].device_id@ == x;
                    assert(out@.contains(out@[j]));
                    let i = choose|i: int|
                        0 <= i < n && out@[j] == stamped(#[trigger] self.rows()[i], now);
                    assert(self.rows()[i].peer.device_id@ == x);
                }
                if row_ids(self.rows()).contains(x) {
                    let i = choose|i: int|
                        0 <= i < self.rows().len() && self.rows()[i].peer.device_id@ == x;
                    let p = stamped(self.rows()[i], now);
                    assert(out@.contains(p));
                    let j = choose|j: int| 0 <= j < out@.len() && out@[j] == p;
                    assert(out@[j].device_id@ == x);
                }
            }
            assert(peer_ids(out@) == row_ids(self.rows()));
        }
        out
    }
}

proof fn lemma_row_index_absent(rows: Seq<Row>, id: Seq<char>)
    ensures
        row_index(rows, id) >= -1,
        row_index(rows, id) == -1 ==> forall|i: int|
            0 <= i < rows.len() ==> #[trigger] rows[i].peer.device_id@ != id,
        row_index(rows, id) >= 0 ==> row_index(rows, id) < rows.len() && rows[row_index(
            rows,
            id,
        )].peer.device_id@ == id,
    decreases rows.len(),
{
    if rows.len() > 0 {
        lemma_row_index_absent(rows.drop_last(), id);
        if row_index(rows, id) == -1 {
            assert forall|i: int| 0 <= i < rows.len() implies #[trigger] rows[i].peer.device_id@
                != id by {
                if i < rows.len() - 1 {
                    assert(rows[i] == rows.drop_last()[i]);
                }
            }
        }
    }
}

proof fn lemma_surviving_unique(rows: Seq<Row>, now: u64)
    requires
        unique_ids(rows),
    ensures
        unique_ids(surviving(rows, now)),
        forall|r: Row| #[trigger] surviving(rows, now).contains(r) ==> rows.contains(r),
    decreases rows.len(),
{
    if rows.len() > 0 {
        let init = rows.drop_last();
        assert(unique_ids(init)) by {
            assert forall|i: int, j: int|
                0 <= i < init.len() && 0 <= j < init.len() && i != j implies init[i].peer.device_id@
                != init[j].peer.device_id@ by {
                assert(init[i] == rows[i]);
                assert(init[j] == rows[j]);
            }
        }
        lemma_surviving_unique(init, now);
        let s0 = surviving(init, now);
        assert forall|r: Row| #[trigger] surviving(rows, now).contains(r) implies rows.contains(
            r,
        ) by {
            if s0.contains(r) {
                assert(init.contains(r));
                let i = choose|i: int| 0 <= i < init.len() && init[i] == r;
                assert(rows[i] == r);
            } else {
                assert(r == rows.last());
                assert(rows[rows.len() - 1] == r);
            }
        }
        if !expired(rows.last(), now) {
            let s = s0.push(rows.last());
            assert forall|i: int, j: int|
                0 <= i < s.len() && 0 <= j < s.len() && i != j implies s[i].peer.device_id@
                != s[j].peer.device_id@ by {
                if i < s0.len() && j < s0.len() {
                    assert(s[i] == s0[i]);
                    assert(s[j] == s0[j]);
                } else {
                    let a = if i < s0.len() {
                        i
                    } else {
                        j
                    };
                    assert(s0.contains(s0[a]));
                    assert(init.contains(s0[a]));
                    let k = choose|k: int| 0 <= k < init.len() && init[k] == s0[a];
                    assert(rows[k] == init[k]);
                    assert(rows[rows.len() - 1] == rows.last());
                }
            }
        }
    }
}

/// Strict order between two peers with distinct ids.
fn peer_precedes(a: &Peer, b: &Peer) -> (r: bool)
    ensures
        r == peer_before(*a, *b),
{
    let c = compare_chars(&chars_of(a.alias.as_str()), &chars_of(b.alias.as_str()));
    if c < 0 {
        true
    } else if c > 0 {
        proof {
            lemma_seq_lt_total(a.alias@, b.alias@);
        }
        false
    } else {
        let d = compare_chars(&chars_of(a.device_id.as_str()), &chars_of(b.device_id.as_str()));
        proof {
            lemma_seq_lt_irreflexive(a.alias@);
        }
        d < 0
    }
}

proof fn lemma_peer_before_total(a: Peer, b: Peer)
    requires
        a.device_id@ != b.device_id@,
    ensures
        peer_before(a, b) || peer_before(b, a),
        !(peer_before(a, b) && peer_before(b, a)),
{
    lemma_seq_lt_total(a.alias@, b.alias@);
    lemma_seq_lt_total(a.device_id@, b.device_id@);
    lemma_seq_lt_irreflexive(a.alias@);
}

proof fn lemma_peer_before_transitive(a: Peer, b: Peer, c: Peer)
    requires
        peer_before(a, b),
        peer_before(b, c),
    ensures
        peer_before(a, c),
{
    lemma_seq_lt_irreflexive(a.alias@);
    lemma_seq_lt_irreflexive(b.alias@);
    lemma_seq_lt_total(a.alias@, b.alias@);
    lemma_seq_lt_total(b.alias@, c.alias@);
    if seq_lt(a.alias@, b.alias@) && seq_lt(b.alias@, c.alias@) {
        lemma_seq_lt_transitive(a.alias@, b.alias@, c.alias@);
    } else if a.alias@ == b.alias@ && b.alias@ == c.alias@ {
        lemma_seq_lt_transitive(a.device_id@, b.device_id@, c.device_id@);
    }
}

/// Where `p` goes in a sorted list of peers with ids distinct from its own.
fn insert_position(s: &Vec<Peer>, p: &Peer) -> (pos: usize)
    requires
        sorted_peers(s@),
        forall|j: int| 0 <= j < s@.len() ==> #[trigger] s@[j].device_id@ != p.device_id@,
    ensures
        pos <= s@.len(),
        forall|j: int| 0 <= j < pos ==> peer_before(#[trigger] s@[j], *p),
        forall|j: int| pos <= j < s@.len() ==> peer_before(*p, #[trigger] s@[j]),
{
    let mut i: usize = 0;
    while i < s.len() && peer_precedes(&s[i], p)
        invariant
            0 <= i <= s@.len(),
            sorted_peers(s@),
            forall|j: int| 0 <= j < i ==> peer_before(#[trigger] s@[j], *p),
        decreases s@.len() - i,
    {
        i = i + 1;
    }
    proof {
        if i < s@.len() {
            lemma_peer_before_total(s@[i as int], *p);
            assert forall|j: int| i <= j < s@.len() implies peer_before(*p, #[trigger] s@[j]) by {
                if j > i {
                    lemma_peer_before_transitive(*p, s@[i as int], s@[j]);
                }
            }
        }
    }
    i
}

proof fn lemma_insert_sorted(s: Seq<Peer>, pos: int, p: Peer)
    requires
        0 <= pos <= s.len(),
        sorted_peers(s),
        forall|j: int| 0 <= j < pos ==> peer_before(#[trigger] s[j], p),
        forall|j: int| pos <= j < s.len() ==> peer_before(p, #[trigger] s[j]),
    ensures
        sorted_peers(s.insert(pos, p)),
{
    s.insert_ensures(pos, p);
    let t = s.insert(pos, p);
    assert forall|i: int, j: int| 0 <= i < j < t.len() implies peer_before(
        #[trigger] t[i],
        #[trigger] t[j],
    ) by {
        if j < pos {
            assert(t[i] == s[i] && t[j] == s[j]);
        } else if j == pos {
            assert(t[i] == s[i]);
        } else if i < pos {
            assert(t[i] == s[i] && t[j] == s[j - 1]);
        } else if i == pos {
            assert(t[j] == s[j - 1]);
        } else {
            assert(t[i] == s[i - 1] && t[j] == s[j - 1]);
        }
    }
}

/// What a read gives back of a write: right after a heartbeat is absorbed,
/// looking its device up finds exactly one row, carrying the heartbeat's
/// alias, OS, address, port, version and state, heard from at `now`.
pub proof fn law_heartbeat_is_readable(rows: Seq<Row>, hb: Heartbeat, ip: String, now: u64)
    requires
        unique_ids(rows),
    ensures
        ({
            let r2 = upserted(rows, hb, ip, now);
            let i = row_index(r2, hb.device_id@);
            &&& unique_ids(r2)
            &&& 0 <= i < r2.len()
            &&& r2[i].peer.device_id@ == hb.device_id@
            &&& r2[i].peer.alias == hb.alias
            &&& r2[i].peer.os == hb.os
            &&& r2[i].peer.ip == ip
            &&& r2[i].peer.tcp_port == hb.tcp_port
            &&& r2[i].peer.client_version == hb.client_version
            &&& r2[i].peer.state == hb.state
            &&& r2[i].last_seen == now
        }),
{
    lemma_row_index_absent(rows, hb.device_id@);
    let r2 = upserted(rows, hb, ip, now);
    let i0 = row_index(rows, hb.device_id@);
    assert(unique_ids(r2)) by {
        assert forall|a: int, b: int|
            0 <= a < r2.len() && 0 <= b < r2.len() && a != b implies r2[a].peer.device_id@
            != r2[b].peer.device_id@ by {
            if i0 >= 0 {
                assert(r2[a].peer.device_id == rows[a].peer.device_id);
                assert(r2[b].peer.device_id == rows[b].peer.device_id);
                assert(rows[a].peer.device_id@ != rows[b].peer.device_id@);
            } else {
                if a < rows.len() {
                    assert(r2[a] == rows[a]);
                    assert(rows[a].peer.device_id@ != hb.device_id@);
                }
                if b < rows.len() {
                    assert(r2[b] == rows[b]);
                    assert(rows[b].peer.device_id@ != hb.device_id@);
                }
                if a < rows.len() && b < rows.len() {
                    assert(rows[a].peer.device_id@ != rows[b].peer.device_id@);
                }
            }
        }
    }
    lemma_row_index_absent(r2, hb.device_id@);
    lemma_row_index_unique(r2, hb.device_id@, if i0 >= 0 {
        i0
    } else {
        rows.len() as int
    });
}

/// No device id occurs twice in a list of peers.
pub open spec fn distinct_peer_ids(s: Seq<Peer>) -> bool {
    forall|a: int, b: int| 0 <= a < b < s.len() ==> s[a].device_id@ != s[b].device_id@
}

/// The device ids of a list of peers.
pub open spec fn peer_ids(s: Seq<Peer>) -> Set<Seq<char>> {
    Set::new(|id: Seq<char>| exists|j: int| 0 <= j < s.len() && s[j].device_id@ == id)
}

/// The device ids the table holds.
pub open spec fn row_ids(rows: Seq<Row>) -> Set<Seq<char>> {
    Set::new(|id: Seq<char>| exists|i: int| 0 <= i < rows.len() && rows[i].peer.device_id@ == id)
}

/// A device keeps one card, at its newest address: absorbing a heartbeat
/// reports `Added` exactly when its device id was not yet in the table,
/// leaves the ids known before plus that one, each still once, and records
/// the address the heartbeat came from.
pub proof fn law_upsert_keeps_one_card(rows: Seq<Row>, hb: Heartbeat, ip: String, now: u64)
    requires
        unique_ids(rows),
    ensures
        upsert_event(rows, hb, ip) is Added <==> !row_ids(rows).contains(hb.device_id@),
        row_ids(upserted(rows, hb, ip, now)) == row_ids(rows).insert(hb.device_id@),
        unique_ids(upserted(rows, hb, ip, now)),
        ({
            let r2 = upserted(rows, hb, ip, now);
            r2[row_index(r2, hb.device_id@)].peer.ip == ip
        }),
{
    law_heartbeat_is_readable(rows, hb, ip, now);
    lemma_row_index_absent(rows, hb.device_id@);
    let id = hb.device_id@;
    let i0 = row_index(rows, id);
    let r2 = upserted(rows, hb, ip, now);
    if i0 < 0 {
        assert(!row_ids(rows).contains(id));
    } else {
        assert(row_ids(rows).contains(id));
    }
    assert forall|x: Seq<char>| #[trigger] row_ids(r2).contains(x) <==> row_ids(rows).insert(
        id,
    ).contains(x) by {
        if row_ids(r2).contains(x) {
            let k = choose|k: int| 0 <= k < r2.len() && r2[k].peer.device_id@ == x;
            if i0 >= 0 {
                assert(r2[k].peer.device_id == rows[k].peer.device_id);
            } else if k < rows.len() {
                assert(r2[k] == rows[k]);
            }
        }
        if row_ids(rows).contains(x) {
            let k = choose|k: int| 0 <= k < rows.len() && rows[k].peer.device_id@ == x;
            if i0 >= 0 {
                assert(r2[k].peer.device_id == rows[k].peer.device_id);
            } else {
                assert(r2[k] == rows[k]);
            }
        }
        if x == id {
            let j = row_index(r2, id);
            assert(0 <= j < r2.len() && r2[j].peer.device_id@ == x);
        }
    }
    assert(row_ids(r2) == row_ids(rows).insert(id));
}

/// A heartbeat from a known device is reported as a change exactly when the
/// user could see one: it is `Unchanged` only if the recorded alias,
/// address, state and transfer port all equal what the heartbeat brings, and
/// otherwise `Updated` with the peer as it now stands (the new alias,
/// address, state and port).
pub proof fn law_upsert_reports_what_the_user_sees(
    rows: Seq<Row>,
    hb: Heartbeat,
    ip: String,
    k: int,
)
    requires
        unique_ids(rows),
        0 <= k < rows.len(),
        rows[k].peer.device_id@ == hb.device_id@,
    ensures
        upsert_event(rows, hb, ip) is Unchanged <==> (rows[k].peer.alias@ == hb.alias@
            && rows[k].peer.ip@ == ip@ && rows[k].peer.state == hb.state
            && rows[k].peer.tcp_port == hb.tcp_port),
        !(upsert_event(rows, hb, ip) is Unchanged) ==> (upsert_event(rows, hb, ip) matches Upsert::Updated(p)
            && p.device_id == rows[k].peer.device_id && p.alias == hb.alias && p.ip == ip
            && p.state == hb.state && p.tcp_port == hb.tcp_port && p.os == hb.os
            && p.client_version == hb.client_version),
{
    lemma_row_index_unique(rows, hb.device_id@, k);
}

proof fn lemma_row_index_unique(rows: Seq<Row>, id: Seq<char>, k: int)
    requires
        unique_ids(rows),
        0 <= k < rows.len(),
        rows[k].peer.device_id@ == id,
    ensures
        row_index(rows, id) == k,
{
    lemma_row_index_absent(rows, id);
    let ri = row_index(rows, id);
    if ri == -1 {
        assert(rows[k].peer.device_id@ != id);
    } else if ri != k {
        assert(rows[ri].peer.device_id@ != rows[k].peer.device_id@);
    }
}

/// Heartbeats that say nothing new are silent: absorbing the same
/// heartbeat from the same address a second time reports `Unchanged`.
pub proof fn law_repeated_heartbeat_is_unchanged(
    rows: Seq<Row>,
    hb: Heartbeat,
    ip: String,
    now: u64,
)
    requires
        unique_ids(rows),
    ensures
        upsert_event(upserted(rows, hb, ip, now), hb, ip) == Upsert::Unchanged,
{
    law_heartbeat_is_readable(rows, hb, ip, now);
}

/// Pruning keeps exactly the rows heard from within the TTL, and
/// reports the ids of exactly the others.
pub proof fn law_prune_drops_exactly_the_expired(rows: Seq<Row>, now: u64)
    ensures
        forall|r: Row| #[trigger] surviving(rows, now).contains(r) <==> rows.contains(r)
            && !expired(r, now),
        expired_ids(rows, now).len() + surviving(rows, now).len() == rows.len(),
        forall|i: int|
            0 <= i < expired_ids(rows, now).len() ==> is_expired_id(
                rows,
                now,
                #[trigger] expired_ids(rows, now)[i],
            ),
    decreases rows.len(),
{
    if rows.len() > 0 {
        let init = rows.drop_last();
        law_prune_drops_exactly_the_expired(init, now);
        let s0 = surviving(init, now);
        assert forall|r: Row| #[trigger] surviving(rows, now).contains(r) <==> rows.contains(r)
            && !expired(r, now) by {
            if rows.contains(r) {
                let j = choose|j: int| 0 <= j < rows.len() && rows[j] == r;
                if j < init.len() {
                    assert(init[j] == r);
                    assert(init.contains(r));
                }
            }
            if init.contains(r) {
                let j = choose|j: int| 0 <= j < init.len() && init[j] == r;
                assert(rows[j] == r);
            }
            if !expired(rows.last(), now) && r == rows.last() {
                assert(s0.push(r)[s0.len() as int] == r);
            }
            if surviving(rows, now).contains(r) && !s0.contains(r) {
                let j = choose|j: int|
                    0 <= j < surviving(rows, now).len() && surviving(rows, now)[j] == r;
                assert(j == s0.len());
                assert(rows[rows.len() - 1] == r);
            }
            if s0.contains(r) {
                let j = choose|j: int| 0 <= j < s0.len() && s0[j] == r;
                if !expired(rows.last(), now) {
                    assert(s0.push(rows.last())[j] == r);
                }
            }
        }
        let e0 = expired_ids(init, now);
        assert forall|i: int| 0 <= i < expired_ids(rows, now).len() implies is_expired_id(
            rows,
            now,
            #[trigger] expired_ids(rows, now)[i],
        ) by {
            if i < e0.len() {
                assert(expired_ids(rows, now)[i] == e0[i]);
                assert(is_expired_id(init, now, e0[i]));
                let j = choose|j: int|
                    0 <= j < init.len() && expired(init[j], now) && e0[i] == init[j].peer.device_id@;
                assert(rows[j] == init[j]);
            } else {
                assert(rows[rows.len() - 1] == rows.last());
                assert(expired(rows[rows.len() - 1], now));
                assert(expired_ids(rows, now)[i] == rows[rows.len() - 1].peer.device_id@);
            }
        }
    } else {
        assert(expired_ids(rows, now).len() == 0);
        assert(surviving(rows, now).len() == 0);
    }
}

} // verus!
