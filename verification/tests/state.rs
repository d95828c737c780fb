use localdrop::error::TransferError;
use localdrop::history::Direction;
use localdrop::state::{
    error_toast, ActivityCounter, KeyedTable, ProgressTracker, TransferPhase, TransferSnapshot,
};

fn snapshot(total: u64) -> TransferSnapshot {
    TransferSnapshot {
        id: "t1".into(),
        direction: Direction::Outgoing,
        peer_alias: "Pixel".into(),
        peer_device_id: "d".into(),
        phase: TransferPhase::Transferring,
        label: "a.bin".into(),
        current_file: String::new(),
        index: 0,
        count: 1,
        bytes_done: 0,
        total_bytes: total,
        rate_bps: 0,
        eta_seconds: None,
        is_text: false,
    }
}

const MS: u64 = 1_000_000;

#[test]
fn rate_and_eta_from_the_rolling_window() {
    let mut p = ProgressTracker::new(snapshot(10_000_000), 0);
    // Too soon after the window's start for a rate: the previous one stands.
    p.add_bytes(1_000_000, 10 * MS);
    assert_eq!(p.snapshot().rate_bps, 0);
    assert_eq!(p.snapshot().eta_seconds, None);
    // Half a second in, 2 MB done: 4 MB/s, 2 s left.
    p.add_bytes(1_000_000, 500 * MS);
    let s = p.snapshot();
    assert_eq!(s.bytes_done, 2_000_000);
    assert_eq!(s.rate_bps, 4_000_000);
    assert_eq!(s.eta_seconds, Some(2));
}

#[test]
fn stale_samples_leave_the_window_but_two_remain() {
    let mut p = ProgressTracker::new(snapshot(100), 0);
    p.add_bytes(10, 100 * MS);
    // Five seconds of silence, then more bytes: measured against the older
    // sample that stays, since at least two are kept.
    p.add_bytes(10, 5_100 * MS);
    assert_eq!(p.snapshot().bytes_done, 20);
    assert_eq!(p.snapshot().rate_bps, 2);
    // A burst within the window: the window front moves past the stale one.
    p.add_bytes(10, 5_200 * MS);
    assert_eq!(p.snapshot().rate_bps, 100);
}

#[test]
fn total_never_falls_below_bytes_done() {
    let mut p = ProgressTracker::new(snapshot(100), 0);
    p.add_bytes(60, 1000 * MS);
    p.set_total(10);
    assert_eq!(p.total(), 60);
    p.set_total(80);
    p.drop_entry(50);
    assert_eq!(p.total(), 60);
    p.drop_entry(1000);
    assert_eq!(p.total(), 60);
    assert_eq!(p.done(), 60);
}

#[test]
fn progress_is_throttled_unless_forced() {
    let mut p = ProgressTracker::new(snapshot(100), 0);
    assert!(p.emit(0, false).is_some());
    assert!(p.emit(50 * MS, false).is_none());
    assert!(p.emit(60 * MS, true).is_some());
    assert!(p.emit(100 * MS, false).is_none());
    assert!(p.emit(160 * MS, false).is_some());
}

#[test]
fn setters_and_items() {
    let mut p = ProgressTracker::new(snapshot(100), 0);
    p.set_phase(TransferPhase::Completed);
    p.set_label("x + 2 more".into());
    p.set_count(3);
    p.begin_item("photos/b.jpg", 2);
    let s = p.snapshot();
    assert_eq!(s.phase, TransferPhase::Completed);
    assert_eq!(s.label, "x + 2 more");
    assert_eq!(s.count, 3);
    assert_eq!(s.current_file, "photos/b.jpg");
    assert_eq!(s.index, 2);
}

#[test]
fn activity_counter_toggles_hints_on_edges_only() {
    let mut c = ActivityCounter::new();
    assert!(!c.is_busy());
    assert!(c.enter());
    assert!(!c.enter());
    assert!(c.is_busy());
    assert!(!c.leave());
    assert!(c.leave());
    assert!(!c.is_busy());
}

#[test]
fn keyed_table_holds_one_value_per_key() {
    let mut t: KeyedTable<u32> = KeyedTable::new();
    assert_eq!(t.insert("a".into(), 1), None);
    assert_eq!(t.insert("b".into(), 2), None);
    assert_eq!(t.insert("a".into(), 3), Some(1));
    assert_eq!(t.len(), 2);
    assert_eq!(t.get("a"), Some(&3));
    // An update never adds an entry: a late update must not resurrect a
    // finished transfer.
    assert!(!t.update("zombie", 9));
    assert_eq!(t.get("zombie"), None);
    assert!(t.update("b", 4));
    assert_eq!(t.remove("a"), Some(3));
    assert_eq!(t.remove("a"), None);
    let vals: Vec<u32> = t.values().into_iter().copied().collect();
    assert_eq!(vals, vec![4]);
}

#[test]
fn error_toast_addresses_the_alias() {
    let p = error_toast("t1", Direction::Incoming, "Pixel", &TransferError::OfferTimeout);
    assert_eq!(p.id, "t1");
    assert_eq!(p.direction, Direction::Incoming);
    assert_eq!(p.peer_alias, "Pixel");
    assert_eq!(p.code, "ERR_OFFER_TIMEOUT");
    assert_eq!(p.message, "Pixel didn't respond in time.");
    assert_eq!(p.detail, None);
}
