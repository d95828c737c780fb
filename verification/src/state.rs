//! Transfer lifecycle and progress telemetry, the activity counter behind
//! the `busy` flag, and the keyed tables that hold active transfers,
//! pending offers and per-peer queues.
//!
//! Times are nanoseconds on a monotonic clock, supplied by the caller.
use vstd::prelude::*;

use crate::history::Direction;

verus! {

/// Progress is emitted at most this often, in nanoseconds.
pub const PROGRESS_INTERVAL_NS: u64 = 100_000_000;

/// The rate is a rolling average over this window, in nanoseconds.
pub const RATE_WINDOW_NS: u64 = 1_000_000_000;

/// Below this much elapsed time a rate is too noisy to report, in
/// nanoseconds.
pub const MIN_RATE_SPAN_NS: u64 = 50_000_000;

/// At most three peers are streamed to concurrently.
pub const MAX_CONCURRENT_PEERS: usize = 3;

/// Lifecycle of a transfer, labelled identically on both ends.
#[derive(Clone, Copy, PartialEq, Eq, Structural, Debug)]
pub enum TransferPhase {
    Queued,
    Offered,
    Transferring,
    Completed,
    Cancelled,
    Failed,
    Rejected,
}

/// The snapshot both ends render identically.
pub struct TransferSnapshot {
    pub id: String,
    pub direction: Direction,
    pub peer_alias: String,
    pub peer_device_id: String,
    pub phase: TransferPhase,
    pub label: String,
    pub current_file: String,
    pub index: usize,
    pub count: usize,
    pub bytes_done: u64,
    pub total_bytes: u64,
    pub rate_bps: u64,
    pub eta_seconds: Option<u64>,
    pub is_text: bool,
}

impl Clone for TransferSnapshot {
    fn clone(&self) -> (r: Self)
        ensures
            r == *self,
    {
        TransferSnapshot {
            id: self.id.clone(),
            direction: self.direction,
            peer_alias: self.peer_alias.clone(),
            peer_device_id: self.peer_device_id.clone(),
            phase: self.phase,
            label: self.label.clone(),
            current_file: self.current_file.clone(),
            index: self.index,
            count: self.count,
            bytes_done: self.bytes_done,
            total_bytes: self.total_bytes,
            rate_bps: self.rate_bps,
            eta_seconds: self.eta_seconds,
            is_text: self.is_text,
        }
    }
}

/// An incoming offer awaiting the user's decision.
pub struct OfferPayload {
    pub id: String,
    pub peer_alias: String,
    pub peer_device_id: String,
    pub item_count: usize,
    pub total_bytes: u64,
    pub is_text: bool,
    pub preview: Vec<String>,
}

/// A failure, shaped for the frontend toast.
pub struct TransferErrorPayload {
    pub id: String,
    pub direction: Direction,
    pub peer_alias: String,
    pub code: String,
    pub message: String,
    pub detail: Option<String>,
}

/// The toast for a failure: the error's code and message addressed to
/// `alias`, and its detail, which the frontend only logs.
pub fn error_toast(id: &str, direction: Direction, alias: &str, err: &crate::error::TransferError) -> (p:
    TransferErrorPayload)
    ensures
        p.id@ == id@,
        p.direction == direction,
        p.peer_alias@ == alias@,
        p.code@ == crate::error::code_of(*err),
        p.message@ == crate::error::message_of(*err, alias@),
        crate::error::opt_view(p.detail) == crate::error::detail_of(*err),
{
    let payload = err.payload(alias);
    TransferErrorPayload {
        id: id.to_owned(),
        direction,
        peer_alias: alias.to_owned(),
        code: payload.code,
        message: payload.message,
        detail: payload.detail,
    }
}

// ---------------------------------------------------------------------------
// Progress
// ---------------------------------------------------------------------------

/// Nanoseconds from `then` to `now`, zero if the clock reads earlier.
pub open spec fn span(now: u64, then: u64) -> u64 {
    if now >= then {
        (now - then) as u64
    } else {
        0
    }
}

/// Samples older than the rate window dropped from the front, always
/// keeping at least two.
pub open spec fn evicted(w: Seq<(u64, u64)>, now: u64) -> Seq<(u64, u64)>
    decreases w.len(),
{
    if w.len() > 2 && span(now, w[0].0) > RATE_WINDOW_NS {
        evicted(w.drop_first(), now)
    } else {
        w
    }
}

/// Bytes per second between the window's front sample and now; the
/// previous figure is kept while the span is under 50 ms.
pub open spec fn rate_after(front: (u64, u64), done: u64, now: u64, prev: u64) -> u64 {
    let elapsed = span(now, front.0);
    if elapsed > MIN_RATE_SPAN_NS {
        let r = ((done - front.1) * 1_000_000_000) / (elapsed as int);
        if r > u64::MAX {
            u64::MAX
        } else {
            r as u64
        }
    } else {
        prev
    }
}

/// `span` computed.
fn age(now: u64, then: u64) -> (r: u64)
    ensures
        r == span(now, then),
{
    if now >= then {
        now - then
    } else {
        0
    }
}

/// Seconds left at `rate`, when there is a rate and bytes left to move.
pub open spec fn eta_for(total: u64, done: u64, rate: u64) -> Option<u64> {
    if rate > 0 && total > done {
        Some(((total - done) / (rate as int)) as u64)
    } else {
        None
    }
}

/// Honest telemetry, from bytes actually committed.
pub struct ProgressTracker {
    snapshot: TransferSnapshot,
    window: std::collections::VecDeque<(u64, u64)>,
    last_emit: Option<u64>,
    started: u64,
}

impl ProgressTracker {
    /// The snapshot as it stands.
    pub closed spec fn current(&self) -> TransferSnapshot {
        self.snapshot
    }

    /// The rate window: `(time, cumulative bytes)` samples, oldest first.
    pub closed spec fn samples(&self) -> Seq<(u64, u64)> {
        self.window@
    }

    /// When progress was last handed out, if ever.
    pub closed spec fn last_emitted(&self) -> Option<u64> {
        self.last_emit
    }

    /// Every sample lies at or below the bytes done, and there is always one.
    pub open spec fn wf(&self) -> bool {
        &&& self.samples().len() >= 1
        &&& forall|i: int|
            0 <= i < self.samples().len() ==> (#[trigger] self.samples()[i]).1
                <= self.current().bytes_done
    }

    /// Start tracking at `now`, seeded with a zero sample so the rate always
    /// has a window front to measure from.
    pub fn new(snapshot: TransferSnapshot, now: u64) -> (t: Self)
        requires
            snapshot.bytes_done == 0,
        ensures
            t.current() == snapshot,
            t.samples() == seq![(now, 0u64)],
            t.last_emitted() is None,
            t.wf(),
    {
        let mut window = std::collections::VecDeque::new();
        window.push_back((now, 0u64));
        ProgressTracker { snapshot, window, last_emit: None, started: now }
    }

    pub fn snapshot(&self) -> (s: TransferSnapshot)
        ensures
            s == self.current(),
    {
        self.snapshot.clone()
    }

    pub fn set_phase(&mut self, phase: TransferPhase)
        requires
            old(self).wf(),
        ensures
            final(self).current() == (TransferSnapshot { phase, ..old(self).current() }),
            final(self).samples() == old(self).samples(),
            final(self).last_emitted() == old(self).last_emitted(),
            final(self).wf(),
    {
        self.snapshot.phase = phase;
    }

    pub fn set_label(&mut self, label: String)
        requires
            old(self).wf(),
        ensures
            final(self).current() == (TransferSnapshot { label, ..old(self).current() }),
            final(self).samples() == old(self).samples(),
            final(self).last_emitted() == old(self).last_emitted(),
            final(self).wf(),
    {
        self.snapshot.label = label;
    }

    pub fn set_count(&mut self, count: usize)
        requires
            old(self).wf(),
        ensures
            final(self).current() == (TransferSnapshot { count, ..old(self).current() }),
            final(self).samples() == old(self).samples(),
            final(self).last_emitted() == old(self).last_emitted(),
            final(self).wf(),
    {
        self.snapshot.count = count;
    }

    /// Adjusts the denominator when an entry is skipped, clamped so it never
    /// falls below the bytes already done: the bar never passes 100%.
    pub fn set_total(&mut self, total: u64)
        requires
            old(self).wf(),
        ensures
            final(self).current() == (TransferSnapshot {
                total_bytes: if total >= old(self).current().bytes_done {
                    total
                } else {
                    old(self).current().bytes_done
                },
                ..old(self).current()
            }),
            final(self).samples() == old(self).samples(),
            final(self).last_emitted() == old(self).last_emitted(),
            final(self).wf(),
            final(self).current().total_bytes >= final(self).current().bytes_done,
    {
        self.snapshot.total_bytes = if total >= self.snapshot.bytes_done {
            total
        } else {
            self.snapshot.bytes_done
        };
    }

    /// An entry of `size` bytes will not arrive (skipped by either end):
    /// the total shrinks by its size, saturating, and never below the bytes
    /// done, so the bar still reaches 100%.
    pub fn drop_entry(&mut self, size: u64)
        requires
            old(self).wf(),
        ensures
            ({
                let shrunk: u64 = if old(self).current().total_bytes >= size {
                    (old(self).current().total_bytes - size) as u64
                } else {
                    0
                };
                final(self).current() == (TransferSnapshot {
                    total_bytes: if shrunk >= old(self).current().bytes_done {
                        shrunk
                    } else {
                        old(self).current().bytes_done
                    },
                    ..old(self).current()
                })
            }),
            final(self).samples() == old(self).samples(),
            final(self).last_emitted() == old(self).last_emitted(),
            final(self).wf(),
            final(self).current().total_bytes >= final(self).current().bytes_done,
    {
        let shrunk = self.snapshot.total_bytes.saturating_sub(size);
        self.set_total(shrunk);
    }

    pub fn total(&self) -> (t: u64)
        ensures
            t == self.current().total_bytes,
    {
        self.snapshot.total_bytes
    }

    pub fn done(&self) -> (d: u64)
        ensures
            d == self.current().bytes_done,
    {
        self.snapshot.bytes_done
    }

    /// The file now moving, one-based.
    pub fn begin_item(&mut self, name: &str, index: usize)
        requires
            old(self).wf(),
        ensures
            final(self).current().current_file@ == name@,
            final(self).current() == (TransferSnapshot {
                current_file: final(self).current().current_file,
                index,
                ..old(self).current()
            }),
            final(self).samples() == old(self).samples(),
            final(self).last_emitted() == old(self).last_emitted(),
            final(self).wf(),
    {
        self.snapshot.current_file = name.to_owned();
        self.snapshot.index = index;
    }

    /// Record `n` bytes committed at `now` and refresh the rate and ETA.
    pub fn add_bytes(&mut self, n: u64, now: u64)
        requires
            old(self).wf(),
            old(self).current().bytes_done + n <= u64::MAX,
        ensures
            final(self).wf(),
            ({
                let done = (old(self).current().bytes_done + n) as u64;
                let w = evicted(old(self).samples().push((now, done)), now);
                let rate = rate_after(w[0], done, now, old(self).current().rate_bps);
                &&& final(self).samples() == w
                &&& final(self).current() == (TransferSnapshot {
                    bytes_done: done,
                    rate_bps: rate,
                    eta_seconds: eta_for(old(self).current().total_bytes, done, rate),
                    ..old(self).current()
                })
            }),
            final(self).last_emitted() == old(self).last_emitted(),
            final(self).current().bytes_done >= old(self).current().bytes_done,
    {
        self.snapshot.bytes_done = self.snapshot.bytes_done + n;
        let done = self.snapshot.bytes_done;
        self.window.push_back((now, done));
        proof {
            assert(forall|i: int|
                0 <= i < self.window@.len() ==> (#[trigger] self.window@[i]).1 <= done);
        }
        let ghost snap = self.snapshot;
        while self.window.len() > 2 && age(now, self.window[0].0) > RATE_WINDOW_NS
            invariant
                self.window@.len() >= 2,
                evicted(self.window@, now) == evicted(old(self).samples().push((now, done)), now),
                forall|i: int| 0 <= i < self.window@.len() ==> (#[trigger] self.window@[i]).1 <= done,
                self.snapshot == snap,
                self.last_emit == old(self).last_emit,
                self.snapshot.bytes_done == done,
            decreases self.window@.len(),
        {
            let ghost before = self.window@;
            self.window.pop_front();
            proof {
                assert(self.window@ == before.drop_first());
                assert forall|i: int| 0 <= i < self.window@.len() implies (#[trigger] self.window@[i]).1
                    <= done by {
                    assert(self.window@[i] == before[i + 1]);
                }
            }
        }
        assert(evicted(self.window@, now) == self.window@);
        self.recompute_rate(now);
    }

    /// Derive rate and ETA from the rolling window.
    fn recompute_rate(&mut self, now: u64)
        requires
            old(self).wf(),
        ensures
            final(self).wf(),
            final(self).samples() == old(self).samples(),
            final(self).last_emitted() == old(self).last_emitted(),
            ({
                let rate = rate_after(
                    old(self).samples()[0],
                    old(self).current().bytes_done,
                    now,
                    old(self).current().rate_bps,
                );
                final(self).current() == (TransferSnapshot {
                    rate_bps: rate,
                    eta_seconds: eta_for(
                        old(self).current().total_bytes,
                        old(self).current().bytes_done,
                        rate,
                    ),
                    ..old(self).current()
                })
            }),
    {
        let (first_t, first_b) = if self.window.len() > 0 {
            self.window[0]
        } else {
            (self.started, 0)
        };
        let elapsed = if now >= first_t {
            now - first_t
        } else {
            0
        };
        let done = self.snapshot.bytes_done;
        let rate = if elapsed > MIN_RATE_SPAN_NS {
            let r: u128 = ((done - first_b) as u128 * 1_000_000_000) / (elapsed as u128);
            if r > u64::MAX as u128 {
                u64::MAX
            } else {
                r as u64
            }
        } else {
            self.snapshot.rate_bps
        };
        self.snapshot.rate_bps = rate;
        let total = self.snapshot.total_bytes;
        self.snapshot.eta_seconds = if rate > 0 && total > done {
            Some((total - done) / rate)
        } else {
            None
        };
    }

    /// Whether progress is due to be shown at `now`: at most every
    /// 100 ms, but always when `force`d for a phase change. Returns the
    /// snapshot to deliver and records the delivery time.
    pub fn emit(&mut self, now: u64, force: bool) -> (r: Option<TransferSnapshot>)
        requires
            old(self).wf(),
        ensures
            final(self).wf(),
            final(self).current() == old(self).current(),
            final(self).samples() == old(self).samples(),
            ({
                let throttled = !force && match old(self).last_emitted() {
                    Some(t) => span(now, t) < PROGRESS_INTERVAL_NS,
                    None => false,
                };
                if throttled {
                    r is None && final(self).last_emitted() == old(self).last_emitted()
                } else {
                    r == Some(old(self).current()) && final(self).last_emitted() == Some(now)
                }
            }),
    {
        if !force {
            match self.last_emit {
                Some(t) => {
                    let gap = if now >= t {
                        now - t
                    } else {
                        0
                    };
                    if gap < PROGRESS_INTERVAL_NS {
                        return None;
                    }
                },
                None => {},
            }
        }
        self.last_emit = Some(now);
        Some(self.snapshot.clone())
    }
}

/// The ETA is reported exactly when there is a rate and bytes remain, and is
/// then the remaining bytes over the rate.
pub proof fn law_eta_is_remaining_over_rate(total: u64, done: u64, rate: u64)
    ensures
        eta_for(total, done, rate) is Some <==> rate > 0 && total > done,
        eta_for(total, done, rate) matches Some(e) ==> e as int * rate <= total - done < (e + 1)
            * rate,
{
    if rate > 0 && total > done {
        let e = (total - done) / (rate as int);
        assert(e * rate <= total - done < (e + 1) * rate) by (nonlinear_arith)
            requires
                rate > 0,
                total > done,
                e == (total - done) / (rate as int),
        ;
    }
}

// ---------------------------------------------------------------------------
// Activity
// ---------------------------------------------------------------------------

/// Counts transfers in flight; drives the `busy` heartbeat flag and the
/// keep-awake hints, which toggle only on the idle/active edges.
pub struct ActivityCounter {
    active: usize,
}

/// The count after one `enter`: a wrapping increment.
pub open spec fn after_enter(c: usize) -> usize {
    if c == usize::MAX {
        0
    } else {
        (c + 1) as usize
    }
}

/// The count after one `leave`: a wrapping decrement.
pub open spec fn after_leave(c: usize) -> usize {
    if c == 0 {
        usize::MAX
    } else {
        (c - 1) as usize
    }
}

/// Whether an `enter` from `c` is the idle to active edge.
pub open spec fn enter_edge(c: usize) -> bool {
    c == 0
}

/// Whether a `leave` from `c` is the active to idle edge.
pub open spec fn leave_edge(c: usize) -> bool {
    c == 1
}

impl ActivityCounter {
    pub closed spec fn count(&self) -> usize {
        self.active
    }

    pub fn new() -> (c: Self)
        ensures
            c.count() == 0,
    {
        ActivityCounter { active: 0 }
    }

    /// One more transfer in flight. Returns whether this is the idle to
    /// active edge, when the hints must be turned on. The counter wraps like
    /// an atomic `fetch_add`.
    pub fn enter(&mut self) -> (became_active: bool)
        ensures
            final(self).count() == after_enter(old(self).count()),
            became_active == enter_edge(old(self).count()),
    {
        let previous = self.active;
        self.active = if previous == usize::MAX {
            0
        } else {
            previous + 1
        };
        previous == 0
    }

    /// One transfer fewer. Returns whether this is the active to idle edge,
    /// when the hints must be released. Wraps like an atomic `fetch_sub`.
    pub fn leave(&mut self) -> (became_idle: bool)
        ensures
            final(self).count() == after_leave(old(self).count()),
            became_idle == leave_edge(old(self).count()),
    {
        let previous = self.active;
        self.active = if previous == 0 {
            usize::MAX
        } else {
            previous - 1
        };
        previous == 1
    }

    /// Whether any transfer is in flight.
    pub fn is_busy(&self) -> (b: bool)
        ensures
            b == (self.count() > 0),
    {
        self.active > 0
    }
}

/// Overlapping transfers do not fight over the hints: entering from any
/// count below the maximum and then leaving restores that count, the enter
/// reports the idle to active edge exactly when starting from idle, and the
/// matching leave reports the active to idle edge exactly then too.
pub proof fn law_hints_toggle_on_edges_only(c: usize)
    requires
        c < usize::MAX,
    ensures
        after_leave(after_enter(c)) == c,
        enter_edge(c) <==> c == 0,
        leave_edge(after_enter(c)) <==> c == 0,
        c > 0 ==> !enter_edge(c) && !leave_edge(after_enter(c)),
{
}

// ---------------------------------------------------------------------------
// Keyed tables
// ---------------------------------------------------------------------------

/// A small table keyed by string id, one value per key: active transfers,
/// offers awaiting an answer, per-peer queue locks.
pub struct KeyedTable<V> {
    entries: Vec<(String, V)>,
}

pub open spec fn unique_keys<V>(s: Seq<(String, V)>) -> bool {
    forall|i: int, j: int| 0 <= i < s.len() && 0 <= j < s.len() && i != j ==> s[i].0@ != s[j].0@
}

/// The value held for `k`, if any.
pub open spec fn lookup<V>(s: Seq<(String, V)>, k: Seq<char>) -> Option<V>
    decreases s.len(),
{
    if s.len() == 0 {
        None
    } else if s.last().0@ == k {
        Some(s.last().1)
    } else {
        lookup(s.drop_last(), k)
    }
}

impl<V> KeyedTable<V> {
    pub closed spec fn pairs(&self) -> Seq<(String, V)> {
        self.entries@
    }

    /// The table as a map from key to value.
    pub open spec fn get_spec(&self, k: Seq<char>) -> Option<V> {
        lookup(self.pairs(), k)
    }

    pub open spec fn wf(&self) -> bool {
        unique_keys(self.pairs())
    }

    pub fn new() -> (t: Self)
        ensures
            t.wf(),
            forall|k: Seq<char>| t.get_spec(k) is None,
            t.pairs().len() == 0,
    {
        KeyedTable { entries: Vec::new() }
    }

    fn position(&self, key: &str) -> (r: Option<usize>)
        requires
            self.wf(),
        ensures
            match r {
                Some(i) => i < self.pairs().len() && self.pairs()[i as int].0@ == key@,
                None => forall|i: int| 0 <= i < self.pairs().len() ==> #[trigger] self.pairs()[i].0@ != key@,
            },
    {
        let k = key.to_owned();
        let mut i: usize = 0;
        while i < self.entries.len()
            invariant
                0 <= i <= self.entries.len(),
                k@ == key@,
                forall|j: int| 0 <= j < i ==> #[trigger] self.pairs()[j].0@ != key@,
            decreases self.entries.len() - i,
        {
            if self.entries[i].0 == k {
                return Some(i);
            }
            i = i + 1;
        }
        None
    }

    /// Insert or replace the value for `key`, returning the one replaced.
    pub fn insert(&mut self, key: String, value: V) -> (old_value: Option<V>)
        requires
            old(self).wf(),
        ensures
            final(self).wf(),
            final(self).get_spec(key@) == Some(value),
            forall|k: Seq<char>| k != key@ ==> #[trigger] final(self).get_spec(k) == old(self).get_spec(k),
            old_value == old(self).get_spec(key@),
    {
        let ghost old_pairs = self.pairs();
        proof {
            lemma_lookup_unique(old_pairs);
        }
        match self.position(key.as_str()) {
            Some(i) => {
                let ghost kv = key@;
                let (_, previous) = self.entries.remove(i);
                self.entries.insert(i, (key, value));
                proof {
                    assert(self.pairs() == old_pairs.update(i as int, (self.pairs()[i as int].0, value)));
                    lemma_lookup_unique(self.pairs());
                    assert forall|a: int, b: int|
                        0 <= a < self.pairs().len() && 0 <= b < self.pairs().len() && a != b implies self.pairs()[a].0@
                        != self.pairs()[b].0@ by {
                        if a != i && b != i {
                            assert(self.pairs()[a] == old_pairs[a]);
                            assert(self.pairs()[b] == old_pairs[b]);
                        } else if a == i {
                            assert(self.pairs()[b] == old_pairs[b]);
                            assert(old_pairs[b].0@ != old_pairs[i as int].0@);
                        } else {
                            assert(self.pairs()[a] == old_pairs[a]);
                            assert(old_pairs[a].0@ != old_pairs[i as int].0@);
                        }
                    }
                    lemma_lookup_unique(self.pairs());
                    assert forall|k: Seq<char>| k != key@ implies #[trigger] self.get_spec(k)
                        == lookup(old_pairs, k) by {
                        lemma_lookup_unique(old_pairs);
                        lemma_lookup_unique(self.pairs());
                        if lookup(old_pairs, k) is Some {
                            let j = lookup_index(old_pairs, k);
                            assert(j != i);
                            assert(self.pairs()[j] == old_pairs[j]);
                            assert(lookup(self.pairs(), self.pairs()[j].0@) == Some(self.pairs()[j].1));
                        } else if lookup(self.pairs(), k) is Some {
                            let j = lookup_index(self.pairs(), k);
                            assert(j != i);
                            assert(self.pairs()[j] == old_pairs[j]);
                            assert(lookup(old_pairs, old_pairs[j].0@) == Some(old_pairs[j].1));
                        }
                    }
                }
                Some(previous)
            },
            None => {
                self.entries.push((key, value));
                proof {
                    assert(self.pairs() == old_pairs.push(self.pairs().last()));
                    assert(self.pairs().drop_last() == old_pairs);
                    assert forall|a: int, b: int|
                        0 <= a < self.pairs().len() && 0 <= b < self.pairs().len() && a != b implies self.pairs()[a].0@
                        != self.pairs()[b].0@ by {
                        if a < old_pairs.len() {
                            assert(self.pairs()[a] == old_pairs[a]);
                        }
                        if b < old_pairs.len() {
                            assert(self.pairs()[b] == old_pairs[b]);
                        }
                    }
                    lemma_lookup_absent(old_pairs, key@);
                }
                None
            },
        }
    }

    /// Remove and return the value for `key`.
    pub fn remove(&mut self, key: &str) -> (r: Option<V>)
        requires
            old(self).wf(),
        ensures
            final(self).wf(),
            final(self).get_spec(key@) is None,
            forall|k: Seq<char>| k != key@ ==> #[trigger] final(self).get_spec(k) == old(self).get_spec(k),
            r == old(self).get_spec(key@),
    {
        let ghost old_pairs = self.pairs();
        proof {
            lemma_lookup_unique(old_pairs);
        }
        match self.position(key) {
            Some(i) => {
                let (_, v) = self.entries.remove(i);
                proof {
                    assert(self.pairs() == old_pairs.remove(i as int));
                    old_pairs.remove_ensures(i as int);
                    assert forall|a: int, b: int|
                        0 <= a < self.pairs().len() && 0 <= b < self.pairs().len() && a != b implies self.pairs()[a].0@
                        != self.pairs()[b].0@ by {
                        let a2 = if a < i {
                            a
                        } else {
                            a + 1
                        };
                        let b2 = if b < i {
                            b
                        } else {
                            b + 1
                        };
                        assert(self.pairs()[a] == old_pairs[a2]);
                        assert(self.pairs()[b] == old_pairs[b2]);
                    }
                    lemma_lookup_unique(self.pairs());
                    assert forall|k: Seq<char>| true implies #[trigger] self.get_spec(k) == (if k
                        == key@ {
                        None
                    } else {
                        lookup(old_pairs, k)
                    }) by {
                        if lookup(old_pairs, k) is Some {
                            let j = lookup_index(old_pairs, k);
                            if j != i {
                                let j2 = if j < i {
                                    j
                                } else {
                                    j - 1
                                };
                                assert(self.pairs()[j2] == old_pairs[j]);
                            }
                        }
                        if lookup(self.pairs(), k) is Some {
                            let j = lookup_index(self.pairs(), k);
                            let j2 = if j < i {
                                j
                            } else {
                                j + 1
                            };
                            assert(self.pairs()[j] == old_pairs[j2]);
                        }
                    }
                }
                Some(v)
            },
            None => {
                proof {
                    lemma_lookup_absent(old_pairs, key@);
                }
                None
            },
        }
    }

    /// The value for `key`, if any.
    pub fn get(&self, key: &str) -> (r: Option<&V>)
        requires
            self.wf(),
        ensures
            match r {
                Some(v) => self.get_spec(key@) == Some(*v),
                None => self.get_spec(key@) is None,
            },
    {
        proof {
            lemma_lookup_unique(self.pairs());
        }
        match self.position(key) {
            Some(i) => Some(&self.entries[i].1),
            None => {
                proof {
                    lemma_lookup_absent(self.pairs(), key@);
                }
                None
            },
        }
    }

    /// Replace the value for `key` only if one is held, returning whether it
    /// was: an update never adds an entry.
    pub fn update(&mut self, key: &str, value: V) -> (found: bool)
        requires
            old(self).wf(),
        ensures
            final(self).wf(),
            found == (old(self).get_spec(key@) is Some),
            found ==> final(self).get_spec(key@) == Some(value),
            !found ==> final(self).pairs() == old(self).pairs(),
            forall|k: Seq<char>| k != key@ ==> #[trigger] final(self).get_spec(k) == old(self).get_spec(k),
    {
        proof {
            lemma_lookup_unique(self.pairs());
        }
        match self.position(key) {
            Some(i) => {
                let owned = self.entries[i].0.clone();
                let _ = self.insert(owned, value);
                true
            },
            None => {
                proof {
                    lemma_lookup_absent(self.pairs(), key@);
                }
                false
            },
        }
    }

    /// Every value, in table order.
    pub fn values(&self) -> (r: Vec<&V>)
        ensures
            r@.len() == self.pairs().len(),
            forall|i: int| 0 <= i < r@.len() ==> *#[trigger] r@[i] == self.pairs()[i].1,
    {
        let mut r: Vec<&V> = Vec::new();
        let mut i: usize = 0;
        while i < self.entries.len()
            invariant
                0 <= i <= self.entries.len(),
                r@.len() == i,
                forall|j: int| 0 <= j < i ==> *#[trigger] r@[j] == self.pairs()[j].1,
            decreases self.entries.len() - i,
        {
            r.push(&self.entries[i].1);
            i = i + 1;
        }
        r
    }

    pub fn len(&self) -> (n: usize)
        ensures
            n == self.pairs().len(),
    {
        self.entries.len()
    }
}

/// Index of the entry `lookup` finds.
pub open spec fn lookup_index<V>(s: Seq<(String, V)>, k: Seq<char>) -> int
    decreases s.len(),
{
    if s.len() == 0 {
        -1
    } else if s.last().0@ == k {
        s.len() - 1
    } else {
        lookup_index(s.drop_last(), k)
    }
}

proof fn lemma_lookup_index<V>(s: Seq<(String, V)>, k: Seq<char>)
    ensures
        lookup(s, k) is Some <==> lookup_index(s, k) >= 0,
        lookup_index(s, k) >= 0 ==> lookup_index(s, k) < s.len() && s[lookup_index(s, k)].0@ == k
            && lookup(s, k) == Some(s[lookup_index(s, k)].1),
        lookup_index(s, k) >= -1,
    decreases s.len(),
{
    if s.len() > 0 {
        lemma_lookup_index(s.drop_last(), k);
    }
}

proof fn lemma_lookup_unique<V>(s: Seq<(String, V)>)
    requires
        unique_keys(s),
    ensures
        forall|i: int| 0 <= i < s.len() ==> #[trigger] lookup(s, s[i].0@) == Some(s[i].1),
        forall|k: Seq<char>| #[trigger] lookup(s, k) is Some ==> {
            let j = lookup_index(s, k);
            0 <= j < s.len() && s[j].0@ == k && lookup(s, k) == Some(s[j].1)
        },
    decreases s.len(),
{
    if s.len() > 0 {
        let init = s.drop_last();
        assert(unique_keys(init)) by {
            assert forall|i: int, j: int|
                0 <= i < init.len() && 0 <= j < init.len() && i != j implies init[i].0@ != init[j].0@ by {
                assert(init[i] == s[i]);
                assert(init[j] == s[j]);
            }
        }
        lemma_lookup_unique(init);
        assert forall|i: int| 0 <= i < s.len() implies #[trigger] lookup(s, s[i].0@) == Some(
            s[i].1,
        ) by {
            if i < s.len() - 1 {
                assert(s[i] == init[i]);
                assert(s[i].0@ != s[s.len() - 1].0@);
                assert(lookup(init, init[i].0@) == Some(init[i].1));
            }
        }
        assert forall|k: Seq<char>| #[trigger] lookup(s, k) is Some implies ({
            let j = lookup_index(s, k);
            0 <= j < s.len() && s[j].0@ == k && lookup(s, k) == Some(s[j].1)
        }) by {
            lemma_lookup_index(s, k);
        }
    }
}

proof fn lemma_lookup_absent<V>(s: Seq<(String, V)>, k: Seq<char>)
    requires
        forall|i: int| 0 <= i < s.len() ==> #[trigger] s[i].0@ != k,
    ensures
        lookup(s, k) is None,
    decreases s.len(),
{
    if s.len() > 0 {
        assert forall|i: int| 0 <= i < s.drop_last().len() implies #[trigger] s.drop_last()[i].0@
            != k by {
            assert(s.drop_last()[i] == s[i]);
        }
        lemma_lookup_absent(s.drop_last(), k);
        assert(s[s.len() - 1].0@ != k);
    }
}

} // verus!
