use localdrop::history::{push, Direction, HistoryEntry, Outcome, HISTORY_LIMIT};

fn entry(id: usize) -> HistoryEntry {
    HistoryEntry {
        id: id.to_string(),
        direction: Direction::Incoming,
        peer_alias: "P".into(),
        peer_device_id: "d".into(),
        label: "Files".into(),
        item_count: 1,
        total_bytes: 1,
        outcome: Outcome::Completed,
        finished_at: 0,
        path: None,
        text: None,
        error_code: None,
        error_message: None,
        skipped: Vec::new(),
    }
}

#[test]
fn history_is_newest_first_and_capped() {
    let mut h = Vec::new();
    for i in 0..(HISTORY_LIMIT + 5) {
        push(&mut h, entry(i));
    }
    assert_eq!(h.len(), HISTORY_LIMIT);
    assert_eq!(h[0].id, (HISTORY_LIMIT + 4).to_string());
    assert_eq!(h[HISTORY_LIMIT - 1].id, "5");
}
