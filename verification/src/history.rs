//! Transfer history: a capped, newest-first log of finished transfers.
use vstd::prelude::*;

verus! {

/// Capped so the file cannot grow without bound.
pub const HISTORY_LIMIT: usize = 200;

/// Which way a transfer went, from this device's point of view.
#[derive(Clone, Copy, PartialEq, Eq, Structural, Debug)]
pub enum Direction {
    Incoming,
    Outgoing,
}

/// How a transfer ended. Anything but `Completed` carries an error code.
#[derive(Clone, Copy, PartialEq, Eq, Structural, Debug)]
pub enum Outcome {
    Completed,
    Cancelled,
    Failed,
    Rejected,
}

/// A finished transfer, persisted across restarts.
pub struct HistoryEntry {
    pub id: String,
    pub direction: Direction,
    pub peer_alias: String,
    pub peer_device_id: String,
    pub label: String,
    pub item_count: usize,
    pub total_bytes: u64,
    pub outcome: Outcome,
    /// Unix milliseconds.
    pub finished_at: u64,
    /// Absolute path for "Open File" / "Show in Folder"; `None` for outgoing
    /// transfers and text snippets.
    pub path: Option<String>,
    /// Text snippet body, kept so it stays copyable from history.
    pub text: Option<String>,
    pub error_code: Option<String>,
    pub error_message: Option<String>,
    pub skipped: Vec<String>,
}

/// The history after recording `entry`: newest first, trimmed to the cap.
pub open spec fn pushed(history: Seq<HistoryEntry>, entry: HistoryEntry) -> Seq<HistoryEntry> {
    let h = seq![entry] + history;
    if h.len() > HISTORY_LIMIT {
        h.take(HISTORY_LIMIT as int)
    } else {
        h
    }
}

/// Newest first, trimmed to the cap.
pub fn push(history: &mut Vec<HistoryEntry>, entry: HistoryEntry)
    ensures
        final(history)@ == pushed(old(history)@, entry),
{
    history.insert(0, entry);
    history.truncate(HISTORY_LIMIT);
}

/// The history invariant holds after every insertion: never longer than the
/// cap, the new entry first, and the previous entries following in their
/// old order, the oldest dropped once the cap is reached.
pub proof fn law_push_keeps_newest_first(history: Seq<HistoryEntry>, entry: HistoryEntry)
    ensures
        pushed(history, entry).len() <= HISTORY_LIMIT,
        pushed(history, entry).len() == if history.len() < HISTORY_LIMIT {
            history.len() + 1
        } else {
            HISTORY_LIMIT as nat
        },
        pushed(history, entry)[0] == entry,
        forall|i: int|
            0 <= i < pushed(history, entry).len() - 1 ==> #[trigger] pushed(history, entry)[i + 1]
                == history[i],
{
}

} // verus!
