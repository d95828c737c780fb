use localdrop::commands::{
    background_status, browse_root, browse_target, check_selection, device_info, fail, listed,
    make_listing, probe_path, require_peer, resolve_download_dir, snippet_file_name,
    snippet_needs_file, sort_listing, DirEntryInfo,
};
use localdrop::error::TransferError;
use localdrop::protocol::{PeerOs, PeerState, MAX_TEXT_BYTES, PROTOCOL_VERSION};
use localdrop::registry::Peer;

#[test]
fn failures_are_addressed_to_the_peer() {
    let p = fail(TransferError::OfferTimeout);
    assert_eq!(p.code, "ERR_OFFER_TIMEOUT");
    assert_eq!(p.message, "the peer didn't respond in time.");
    match require_peer(None) {
        Err(e) => {
            assert_eq!(e.code, "ERR_PEER_UNREACHABLE");
            assert_eq!(e.detail.as_deref(), Some("peer no longer listed"));
        }
        Ok(_) => panic!("a missing peer must be refused"),
    }
    let peer = Peer {
        device_id: "d".into(),
        alias: "A".into(),
        os: PeerOs::Android,
        ip: "10.0.0.2".into(),
        tcp_port: 1,
        client_version: "1".into(),
        state: PeerState::Ready,
        last_seen_ms: 0,
    };
    assert_eq!(require_peer(Some(peer)).ok().unwrap().device_id, "d");
}

#[test]
fn empty_selections_are_refused() {
    let e = check_selection(&Vec::new()).err().unwrap();
    assert_eq!(e.code, "ERR_READ_FAILED");
    assert_eq!(e.detail.as_deref(), Some("no files selected"));
    assert!(check_selection(&vec!["a".to_string()]).is_ok());
}

#[test]
fn oversize_snippets_become_files() {
    assert!(!snippet_needs_file(&"x".repeat(MAX_TEXT_BYTES as usize)));
    assert!(snippet_needs_file(&"x".repeat(MAX_TEXT_BYTES as usize + 1)));
    // Counted in bytes: 2-byte characters reach the limit at half the count.
    assert!(snippet_needs_file(&"é".repeat(MAX_TEXT_BYTES as usize / 2 + 1)));
    assert_eq!(snippet_file_name(1700000000000), "LocalDrop-snippet-1700000000000.txt");
}

#[test]
fn download_folders_are_resolved() {
    assert_eq!(resolve_download_dir("/home/u/Downloads").ok().unwrap(), "/home/u/Downloads");
    assert_eq!(
        resolve_download_dir("content://com.android.externalstorage.documents/tree/primary%3ADownload")
            .ok()
            .unwrap(),
        "/storage/emulated/0/Download"
    );
    let uri = "content://com.google.android.apps.docs.storage/tree/abc";
    let e = resolve_download_dir(uri).err().unwrap();
    assert_eq!(e.code, "ERR_UNSUPPORTED_FOLDER");
    assert_eq!(e.detail.as_deref(), Some(uri));
    assert!(e.message.starts_with("That folder lives in an app like Drive or Dropbox"));
    assert_eq!(probe_path("/dl"), "/dl/.localdrop-write-test");
}

#[test]
fn device_info_and_background_status() {
    let d = device_info("id".into(), "Me".into(), PeerOs::Windows, "1.0.0".into());
    assert_eq!(d.protocol_version, PROTOCOL_VERSION);
    assert!(!d.encrypted);
    let s = background_status(true);
    assert!(s.enabled && s.battery_unrestricted);
}

#[test]
fn browsing_starts_somewhere_sensible() {
    assert_eq!(browse_target(Some("  ".into()), "/home/u"), "/home/u");
    assert_eq!(browse_target(None, "/home/u"), "/home/u");
    assert_eq!(browse_target(Some("/srv".into()), "/home/u"), "/srv");
    assert_eq!(browse_root(None), "/");
    assert_eq!(browse_root(Some("/home/u".into())), "/home/u");
    assert!(!listed(".git"));
    assert!(listed("git"));
}

fn row(name: &str, is_dir: bool) -> DirEntryInfo {
    DirEntryInfo { name: name.into(), path: format!("/d/{name}"), is_dir, size: 1 }
}

#[test]
fn listings_put_directories_first_then_names_without_case() {
    let sorted = sort_listing(vec![
        row("beta.txt", false),
        row("Alpha.txt", false),
        row("zeta", true),
        row("Docs", true),
        row("alpha.txt", false),
        row("Zed.txt", false),
    ]);
    let names: Vec<&str> = sorted.iter().map(|e| e.name.as_str()).collect();
    assert_eq!(names, vec!["Docs", "zeta", "Alpha.txt", "alpha.txt", "beta.txt", "Zed.txt"]);

    let listing = make_listing(
        "/d",
        vec![
            ("b".into(), "/d/b".into(), false, 10),
            (".hidden".into(), "/d/.hidden".into(), false, 1),
            ("A".into(), "/d/A".into(), true, 4096),
        ],
    );
    assert_eq!(listing.path, "/d");
    assert_eq!(listing.parent.as_deref(), Some("/"));
    let rows: Vec<(&str, bool, u64)> =
        listing.entries.iter().map(|e| (e.name.as_str(), e.is_dir, e.size)).collect();
    assert_eq!(rows, vec![("A", true, 0), ("b", false, 10)]);
}
