use localdrop::error::TransferError;
use localdrop::history::{Direction, Outcome};
use localdrop::protocol::{
    validate_offer, ManifestEntry, OfferHeader, PayloadType, RejectReason, ACK_ACCEPT, ACK_REJECT,
    CHUNK_SIZE, MAX_MANIFEST_ENTRIES, MAX_TEXT_BYTES, PROTOCOL_VERSION,
};
use localdrop::state::TransferPhase;
use localdrop::transfer::{
    build_text_offer, check_space, completion_trailer, decline_error, decode_snippet, describe,
    early_failure_phase, entry_target, incoming_snapshot, is_orphan_part, merge_skipped,
    next_chunk_len, offer_payload, offer_preview, plan_manifest, queued_snapshot, read_prelude,
    receive_failure_end, reject_reason, sanitize_alias, send_outcome,
    space_on_disks, still_as_declared, uri_file_name, walk_base_name, walk_rel_path, OfferDraft,
    Prelude, Source, WalkKind, ENTRY_DATA, ENTRY_SKIP, ack_accepted, transfer_id, chunk_received,
    entry_step, incoming_action, EntryStep, IncomingAction,
};

fn entry(rel: &str, size: u64, is_dir: bool) -> ManifestEntry {
    ManifestEntry { rel_path: rel.to_string(), size, is_dir }
}

fn files_offer(manifest: Vec<ManifestEntry>, items: usize) -> OfferHeader {
    OfferHeader {
        protocol_version: PROTOCOL_VERSION,
        payload_type: PayloadType::Files,
        sender_alias: "A".into(),
        sender_device_id: "dev".into(),
        total_size: manifest.iter().filter(|e| !e.is_dir).map(|e| e.size).sum(),
        item_count: items,
        manifest,
    }
}

#[test]
fn describe_labels_batches() {
    let o = files_offer(vec![entry("Assets", 0, true), entry("Assets/img/logo.png", 1, false)], 1);
    assert_eq!(describe(&o), "logo.png");
    let o = files_offer(
        vec![entry("a/x.txt", 1, false), entry("a/y.txt", 1, false), entry("a/z.txt", 1, false)],
        3,
    );
    assert_eq!(describe(&o), "x.txt + 2 more");
    let o = files_offer(vec![entry("Empty", 0, true)], 0);
    assert_eq!(describe(&o), "Files");
    let mut t = files_offer(Vec::new(), 1);
    t.payload_type = PayloadType::Text;
    assert_eq!(describe(&t), "Text snippet");
}

#[test]
fn uri_names_are_salvaged_or_generated() {
    assert_eq!(
        uri_file_name("content://com.android.providers.downloads.documents/document/report%20final.pdf", 7),
        "report final.pdf"
    );
    assert_eq!(
        uri_file_name("content://com.android.providers.media.documents/document/image%3A1000000034", 42),
        "shared-42.jpg"
    );
    assert_eq!(uri_file_name("content://x/document/video%3A5", 1), "shared-1.mp4");
    assert_eq!(uri_file_name("content://x/document/audio%3A5", 1), "shared-1.m4a");
    assert_eq!(uri_file_name("content://x/document/1000000034.5", 9), "1000000034.5");
    assert_eq!(uri_file_name("content://x/document/archive.tarball12", 9), "shared-9");
    assert_eq!(uri_file_name("content://x/document/a.b-c", 9), "shared-9");
}

#[test]
fn remote_aliases_are_cleaned() {
    assert_eq!(sanitize_alias("  Pixel\n8\u{1b}[31m  ", "10.0.0.9"), "Pixel8[31m");
    assert_eq!(sanitize_alias("\u{7}\u{8}", "10.0.0.9"), "10.0.0.9");
    let long = "y".repeat(50);
    assert_eq!(sanitize_alias(&long, "ip"), "y".repeat(32));
}

#[test]
fn sources_are_classified() {
    let p = Source::parse("/home/u/a.txt");
    assert!(matches!(&p, Source::Path(s) if s == "/home/u/a.txt"));
    let w = Source::parse("C:\\Users\\u\\a.txt");
    assert!(matches!(&w, Source::Path(s) if s == "C:\\Users\\u\\a.txt"));
    let saf = Source::parse("content://com.android.externalstorage.documents/document/primary%3ADCIM%2Fa.jpg");
    assert!(matches!(&saf, Source::Path(s) if s == "/storage/emulated/0/DCIM/a.jpg"));
    let media = "content://com.android.providers.media.documents/document/image%3A12";
    let m = Source::parse(media);
    assert!(matches!(&m, Source::Uri(s) if s == media));
    assert_eq!(m.display(), media);
}

#[test]
fn free_space_uses_the_longest_matching_mount() {
    let disks = vec![
        ("/".to_string(), 100u64),
        ("/data".to_string(), 5),
        ("/dat".to_string(), 7),
        ("/data".to_string(), 9),
    ];
    assert_eq!(space_on_disks("/data/dl", &disks), Some(9));
    assert_eq!(space_on_disks("/database", &disks), Some(100));
    assert_eq!(space_on_disks("relative", &disks), None);
    assert!(check_space(10, Some(9)).is_err());
    assert!(matches!(
        check_space(10, Some(9)),
        Err(TransferError::InsufficientSpace { needed: 10, available: 9 })
    ));
    assert!(check_space(9, Some(9)).is_ok());
    assert!(check_space(u64::MAX, None).is_ok());
}

#[test]
fn text_offers_are_capped() {
    let (o, e, s) = build_text_offer("Me", "id", "héllo").ok().unwrap();
    assert_eq!(o.total_size, 6);
    assert_eq!(o.item_count, 1);
    assert_eq!(o.payload_type, PayloadType::Text);
    assert!(o.manifest.is_empty() && e.is_empty() && s.is_empty());
    assert!(validate_offer(&o).is_ok());
    let big = "x".repeat(MAX_TEXT_BYTES as usize + 1);
    assert!(matches!(build_text_offer("Me", "id", &big), Err(TransferError::MalformedPayload)));
}

#[test]
fn file_offers_are_assembled_from_the_walk() {
    let mut d = OfferDraft::new();
    d.add_root_file("/home/u/a.txt", 10);
    d.add_root_symlink("/home/u/link");
    let base = walk_base_name("/home/u/Photos");
    assert_eq!(base, "Photos");
    assert_eq!(d.walk_entry(&base, "2024", "/home/u/Photos/2024", WalkKind::Dir, 0).ok(), Some(true));
    assert_eq!(
        d.walk_entry(&base, "2024\\b.jpg", "/home/u/Photos/2024/b.jpg", WalkKind::File, 5).ok(),
        Some(true)
    );
    assert_eq!(d.walk_entry(&base, "l", "/home/u/Photos/l", WalkKind::Symlink, 0).ok(), Some(false));
    d.finish_walk(&base, "/home/u/Photos", true);
    d.finish_walk("Empty", "/home/u/Empty", false);
    d.add_uri("content://x/document/image%3A3", 4, 77);
    assert_eq!(d.declared_bytes(), Some(19));
    let (o, entries, skipped) = d.finish("Me", "id", Some("/home/u/a.txt")).ok().unwrap();
    let rels: Vec<&str> = o.manifest.iter().map(|e| e.rel_path.as_str()).collect();
    assert_eq!(rels, vec!["a.txt", "Photos/2024", "Photos/2024/b.jpg", "Empty", "shared-77.jpg"]);
    assert_eq!(o.total_size, 19);
    assert_eq!(o.item_count, 3);
    assert_eq!(entries.len(), 5);
    assert!(matches!(&entries[4].source, Source::Uri(_)));
    assert_eq!(skipped, vec!["link".to_string(), "Photos/l".to_string()]);
    assert!(validate_offer(&o).is_ok());
}

#[test]
fn empty_or_oversized_drafts_fail() {
    let d = OfferDraft::new();
    match d.finish("Me", "id", Some("/x/only-links")) {
        Err(TransferError::ReadFailed { path, detail }) => {
            assert_eq!(path, "/x/only-links");
            assert_eq!(detail, "nothing to send");
        }
        _ => panic!("an empty manifest must fail"),
    }
    let mut d = OfferDraft::new();
    let mut last = Ok(true);
    for i in 0..=MAX_MANIFEST_ENTRIES {
        last = d.walk_entry("b", &i.to_string(), "p", WalkKind::Dir, 0);
    }
    assert!(matches!(last, Err(TransferError::MalformedPayload)));
    assert_eq!(walk_rel_path("b", "x\\y"), "b/x/y");
}

#[test]
fn incoming_manifests_are_planned_whole() {
    let m = vec![entry("a/b.txt", 1, false), entry("../../etc/passwd", 1, false)];
    let plan = plan_manifest("/dl", &m).ok().unwrap();
    assert_eq!(plan[0].1, "a/b.txt");
    assert_eq!(plan[1].1, "etc/passwd");
    let bad = vec![entry("a", 1, false), entry("..", 1, false)];
    assert!(matches!(plan_manifest("/dl", &bad), Err(TransferError::MalformedPayload)));
}

#[test]
fn offers_preview_five_files() {
    let mut m = vec![entry("dir", 0, true)];
    for i in 0..7 {
        m.push(entry(&format!("dir/{i}.txt"), 1, false));
    }
    let preview = offer_preview(&m);
    assert_eq!(preview, vec!["dir/0.txt", "dir/1.txt", "dir/2.txt", "dir/3.txt", "dir/4.txt"]);
    let o = files_offer(m, 7);
    let p = offer_payload("t", "Pixel", &o);
    assert_eq!(p.item_count, 7);
    assert_eq!(p.total_bytes, 7);
    assert!(!p.is_text);
    assert_eq!(p.preview.len(), 5);
    let s = incoming_snapshot("t", "Pixel", &o);
    assert_eq!(s.direction, Direction::Incoming);
    assert_eq!(s.phase, TransferPhase::Transferring);
    assert_eq!(s.label, "0.txt + 6 more");
    assert_eq!(s.total_bytes, 7);
}

#[test]
fn prelude_bytes() {
    assert_eq!(read_prelude(ENTRY_DATA).ok(), Some(Prelude::Data));
    assert_eq!(read_prelude(ENTRY_SKIP).ok(), Some(Prelude::Skip));
    assert!(matches!(read_prelude(7), Err(TransferError::MalformedPayload)));
}

#[test]
fn entry_targets_follow_organizing_settings() {
    assert_eq!(entry_target("/dl", "Pixel", "a/b.png", false, true, true).ok().unwrap(), "/dl/Pixel/PNG/a/b.png");
    assert_eq!(entry_target("/dl", "Pixel", "a", true, false, true).ok().unwrap(), "/dl/a");
    assert_eq!(entry_target("/dl", "..", "x.txt", false, true, false).ok().unwrap(), "/dl/Unknown/x.txt");
}

#[test]
fn chunks_and_snippets() {
    assert_eq!(next_chunk_len(10), 10);
    assert_eq!(next_chunk_len(CHUNK_SIZE as u64 + 1), CHUNK_SIZE);
    assert_eq!(decode_snippet("héllo".as_bytes().to_vec()).ok().unwrap(), "héllo");
    assert!(matches!(decode_snippet(vec![0xff, 0xfe]), Err(TransferError::MalformedPayload)));
}

#[test]
fn skip_lists_are_merged() {
    let merged = merge_skipped(
        vec!["a".into(), "b".into()],
        Some(vec!["b".into(), "c".into(), "c".into()]),
    );
    assert_eq!(merged, vec!["a", "b", "c"]);
    assert_eq!(merge_skipped(vec!["x".into()], None), vec!["x"]);
}

#[test]
fn endings_are_labelled() {
    assert_eq!(receive_failure_end(&TransferError::Cancelled), (TransferPhase::Cancelled, Outcome::Cancelled));
    assert_eq!(receive_failure_end(&TransferError::MalformedPayload), (TransferPhase::Failed, Outcome::Failed));
    let (ph, out, err) = send_outcome(None, "Pixel");
    assert_eq!((ph, out), (TransferPhase::Completed, Outcome::Completed));
    assert!(err.is_none());
    let (ph, out, err) = send_outcome(Some(&TransferError::Rejected("No".into())), "Pixel");
    assert_eq!((ph, out), (TransferPhase::Rejected, Outcome::Rejected));
    assert_eq!(err.unwrap().message, "No");
    let (ph, out, _) = send_outcome(Some(&TransferError::Cancelled), "Pixel");
    assert_eq!((ph, out), (TransferPhase::Cancelled, Outcome::Cancelled));
    let (ph, out, e) = send_outcome(Some(&TransferError::OfferTimeout), "Pixel");
    assert_eq!((ph, out), (TransferPhase::Failed, Outcome::Failed));
    assert_eq!(e.unwrap().code, "ERR_OFFER_TIMEOUT");
    assert_eq!(early_failure_phase(&TransferError::Cancelled), TransferPhase::Cancelled);
    assert_eq!(early_failure_phase(&TransferError::PeerUnreachable("x".into())), TransferPhase::Failed);
}

#[test]
fn sender_side_decisions() {
    let q = queued_snapshot("t", "Pixel", "dev", false);
    assert_eq!(q.phase, TransferPhase::Queued);
    assert_eq!(q.label, "Preparing…");
    assert_eq!(queued_snapshot("t", "Pixel", "dev", true).label, "Text snippet");
    assert!(ack_accepted(ACK_ACCEPT));
    assert!(!ack_accepted(ACK_REJECT));
    assert!(!ack_accepted(7));
    let r = RejectReason { code: "ERR_INSUFFICIENT_SPACE".into(), message: "full".into() };
    assert!(matches!(decline_error(Some(r)), TransferError::Rejected(m) if m == "full"));
    assert!(matches!(decline_error(None), TransferError::Rejected(m) if m.is_empty()));
    assert!(still_as_declared(Some(5), 5));
    assert!(!still_as_declared(Some(6), 5));
    assert!(!still_as_declared(None, 5));
    let t = completion_trailer(12, &vec!["a".to_string()]);
    assert_eq!(t.status, "complete");
    assert_eq!(t.bytes_sent, 12);
    assert_eq!(t.skipped, vec!["a"]);
    let rr = reject_reason(&TransferError::Rejected(String::new()));
    assert_eq!(rr.code, "ERR_REJECTED");
    assert_eq!(rr.message, "this device declined the transfer.");
}

#[test]
fn orphaned_part_files() {
    assert!(is_orphan_part("/dl/report.pdf.part"));
    assert!(!is_orphan_part("/dl/report.pdf"));
    assert!(!is_orphan_part("/dl/.part"));
    for target in ["/dl/report.pdf", "/dl/notes.part", "a", "/dl/.hidden", "dir/x/"] {
        assert!(is_orphan_part(&localdrop::paths::part_path(target)), "{target}");
    }
}

#[test]
fn transfer_ids_are_fresh_v4_uuids() {
    let a = transfer_id();
    let b = transfer_id();
    assert_ne!(a, b);
    assert_eq!(a.len(), 36);
    assert_eq!(a.as_bytes()[14], b'4');
}

#[test]
fn drafts_whose_sizes_overflow_are_malformed() {
    let mut d = OfferDraft::new();
    d.add_root_file("/a", u64::MAX);
    d.add_root_file("/b", 1);
    assert_eq!(d.declared_bytes(), None);
    assert!(matches!(d.finish("Me", "id", Some("/a")), Err(TransferError::MalformedPayload)));
}

#[test]
fn uri_names_survive_stray_percent_signs() {
    assert_eq!(uri_file_name("content://x/document/100%25%zz.txt", 5), "100%%zz.txt");
}

#[test]
fn the_handshake_answers_in_order() {
    let space_err = || Err(TransferError::InsufficientSpace { needed: 10, available: 5 });
    assert!(matches!(incoming_action(false, true, Ok(()), Some(true), true), IncomingAction::Close));
    assert!(matches!(incoming_action(true, false, space_err(), Some(true), true), IncomingAction::Close));
    assert!(matches!(
        incoming_action(true, true, space_err(), Some(true), true),
        IncomingAction::Reject(TransferError::InsufficientSpace { needed: 10, available: 5 })
    ));
    assert!(matches!(incoming_action(true, true, Ok(()), None, true), IncomingAction::Ack));
    assert!(matches!(incoming_action(true, true, Ok(()), Some(true), false), IncomingAction::Ack));
    match incoming_action(true, true, Ok(()), Some(false), false) {
        IncomingAction::Reject(TransferError::Rejected(m)) => assert!(m.is_empty()),
        _ => panic!("a refusal is rejected"),
    }
    assert!(matches!(
        incoming_action(true, true, Ok(()), None, false),
        IncomingAction::Reject(TransferError::Rejected(_))
    ));
}

#[test]
fn entries_commit_at_exactly_the_declared_size() {
    assert!(matches!(entry_step(ENTRY_SKIP, 10, 0), EntryStep::Skip));
    assert!(matches!(entry_step(0x7f, 10, 0), EntryStep::Malformed));
    assert!(matches!(entry_step(ENTRY_DATA, 0, 0), EntryStep::Commit));
    assert!(matches!(entry_step(ENTRY_DATA, 10, 4), EntryStep::Read(6)));
    assert!(matches!(entry_step(ENTRY_DATA, 10, 10), EntryStep::Commit));
    let big = CHUNK_SIZE as u64 * 3;
    assert!(matches!(entry_step(ENTRY_DATA, big, 1), EntryStep::Read(n) if n == CHUNK_SIZE));
    assert_eq!(chunk_received(4, 10, 6).ok(), Some(10));
    match chunk_received(4, 10, 0) {
        Err(TransferError::ConnectionLost(m)) => assert_eq!(m, "stream ended early"),
        _ => panic!("an empty read before the end is a lost connection"),
    }
    let mut received = 0u64;
    let mut steps = 0;
    loop {
        match entry_step(ENTRY_DATA, 25, received) {
            EntryStep::Read(n) => received = chunk_received(received, 25, n.min(7)).ok().unwrap(),
            EntryStep::Commit => break,
            _ => panic!("a data entry only reads or commits"),
        }
        steps += 1;
    }
    assert_eq!(received, 25);
    assert_eq!(steps, 4);
}
