use std::path::{Path, PathBuf};

use localdrop::error::TransferError;
use localdrop::paths::{
    content_document_to_path, content_tree_to_path, ensure_within, extension, file_name,
    join_path, organize_dir, parent, part_path, path_starts_with_str, percent_decode,
    extended_windows, resolve_collision,
    sanitize_component, sanitize_file_name, sanitize_rel_path,
};
use localdrop::settings::CollisionPolicy;

#[test]
fn rejects_traversal() {
    // Every one of these must land inside the root, not above it.
    for evil in [
        "../../Windows/System32/evil.dll",
        "..\\..\\evil.exe",
        "/etc/passwd",
        "C:\\Windows\\evil.dll",
        "a/../../../b.txt",
    ] {
        let safe = sanitize_rel_path(evil).ok().expect("should sanitize, not error");
        assert!(!safe.contains(".."), "{evil} leaked `..`: {safe:?}");
        assert!(!Path::new(&safe).is_absolute(), "{evil} stayed absolute: {safe:?}");
        let root = Path::new("/downloads");
        let joined = root.join(&safe);
        assert!(ensure_within("/downloads", joined.to_str().unwrap()).is_ok());
    }
}

#[test]
fn rejects_paths_that_reduce_to_nothing() {
    assert!(sanitize_rel_path("..").is_err());
    assert!(sanitize_rel_path("../..").is_err());
    assert!(sanitize_rel_path("").is_err());
}

#[test]
fn neutralizes_reserved_names() {
    assert_eq!(sanitize_component("CON").unwrap(), "_CON");
    assert_eq!(sanitize_component("con.txt").unwrap(), "_con.txt");
    assert_eq!(sanitize_component("LPT9.log").unwrap(), "_LPT9.log");
    assert_eq!(sanitize_component("console.txt").unwrap(), "console.txt");
}

#[test]
fn strips_control_chars_and_trailing_dots() {
    assert_eq!(sanitize_component("ev\u{0}il.txt").unwrap(), "evil.txt");
    assert_eq!(sanitize_component("report...").unwrap(), "report");
}

#[test]
fn preserves_unicode_names() {
    assert_eq!(sanitize_component("café 🎉.png").unwrap(), "café 🎉.png");
    let p = sanitize_rel_path("Fotos/año/niño.jpg").ok().unwrap();
    assert_eq!(PathBuf::from(p), PathBuf::from("Fotos").join("año").join("niño.jpg"));
}

#[test]
fn truncates_long_names_on_a_char_boundary() {
    let long_emoji = "🎉".repeat(100); // 400 bytes, no boundary at 255
    let cleaned = sanitize_component(&long_emoji).expect("must not panic or vanish");
    assert!(cleaned.len() <= 255);
    // Cut cleanly: 63 × 4 = 252 bytes is the last boundary at or below 255.
    assert_eq!(cleaned.chars().count(), 63);
    assert!(cleaned.chars().all(|c| c == '🎉'));

    // A long ASCII name still fills the limit exactly.
    let long_ascii = "a".repeat(300);
    assert_eq!(sanitize_component(&long_ascii).unwrap().len(), 255);

    // Truncation must not leave a trailing dot.
    let dotted = format!("{}...", "b".repeat(260));
    let cleaned = sanitize_component(&dotted).unwrap();
    assert!(!cleaned.ends_with('.'));
}

#[test]
fn resolves_saf_tree_uris() {
    assert_eq!(
        content_tree_to_path(
            "content://com.android.externalstorage.documents/tree/primary%3ADownload%2FKit"
        )
        .map(PathBuf::from),
        Some(PathBuf::from("/storage/emulated/0").join("Download").join("Kit"))
    );
    assert_eq!(
        content_tree_to_path("content://com.android.externalstorage.documents/tree/1A2B-3C4D%3ABackup")
            .map(PathBuf::from),
        Some(PathBuf::from("/storage").join("1A2B-3C4D").join("Backup"))
    );
    // Whole-volume grant.
    assert_eq!(
        content_tree_to_path("content://com.android.externalstorage.documents/tree/primary%3A")
            .map(PathBuf::from),
        Some(PathBuf::from("/storage/emulated/0"))
    );
}

#[test]
fn rejects_non_filesystem_providers() {
    for uri in [
        "content://com.google.android.apps.docs.storage/tree/abc",
        "content://com.android.providers.media.documents/document/image%3A1234",
        "content://com.android.providers.downloads.documents/tree/msf%3A99",
        "not-a-uri",
    ] {
        assert_eq!(content_tree_to_path(uri), None, "{uri} should not resolve");
    }
}

#[test]
fn ensure_within_catches_escapes() {
    assert!(ensure_within("/downloads", "/downloads/a/b.txt").is_ok());
    assert!(ensure_within("/downloads", "/downloads/../etc/passwd").is_err());
    assert!(ensure_within("/downloads", "/etc/passwd").is_err());
}

#[test]
fn ensure_within_compares_whole_components() {
    assert!(ensure_within("/dl", "/dl-evil/x").is_err());
    assert!(ensure_within("/dl", "/dl/./x/../y").is_ok());
    assert!(matches!(
        ensure_within("/dl", "/dl/../x"),
        Err(TransferError::MalformedPayload)
    ));
}

#[test]
fn sanitize_rel_path_rebuilds_segments() {
    assert_eq!(sanitize_rel_path("a\\b/c.txt").ok().unwrap(), "a/b/c.txt");
    assert_eq!(sanitize_rel_path("./a//b").ok().unwrap(), "a/b");
    assert!(matches!(sanitize_rel_path(""), Err(TransferError::MalformedPayload)));
    // Deeper than 64 segments is refused.
    let deep = vec!["d"; 65].join("/");
    assert!(sanitize_rel_path(&deep).is_err());
    let ok = vec!["d"; 64].join("/");
    assert!(sanitize_rel_path(&ok).is_ok());
    // Longer than 4096 bytes is refused.
    let long = "a".repeat(4097);
    assert!(sanitize_rel_path(&long).is_err());
}

#[test]
fn sanitize_component_replaces_illegal_characters() {
    assert_eq!(sanitize_component("a<b>c:d\"e|f?g*h").unwrap(), "a_b_c_d_e_f_g_h");
    assert_eq!(sanitize_component(".."), None);
    assert_eq!(sanitize_component("."), None);
    assert_eq!(sanitize_component(""), None);
    assert_eq!(sanitize_component(" . "), None);
    assert_eq!(sanitize_component("aux"), Some("_aux".to_string()));
}

#[test]
fn sanitize_file_name_keeps_last_segment() {
    assert_eq!(sanitize_file_name("dir/sub\\photo.jpg").unwrap(), "photo.jpg");
    assert_eq!(sanitize_file_name("dir/"), None);
}

#[test]
fn lexical_path_helpers_match_std() {
    for p in ["/a/b.txt", "a/b", "/", "a/b/", "archive.tar.gz", ".hidden", "a/..", "x/./y"] {
        let std_name = Path::new(p).file_name().map(|n| n.to_str().unwrap().to_string());
        assert_eq!(file_name(p), std_name, "file_name of {p}");
        let std_parent = Path::new(p).parent().map(|n| n.to_str().unwrap().to_string());
        assert_eq!(parent(p), std_parent, "parent of {p}");
        let std_ext = Path::new(p).extension().map(|n| n.to_str().unwrap().to_string());
        assert_eq!(extension(p), std_ext, "extension of {p}");
    }
    for (a, b) in [("/a", "b"), ("/a/", "b"), ("", "b"), ("/a", "/b")] {
        assert_eq!(join_path(a, b), Path::new(a).join(b).to_str().unwrap());
    }
    for (p, base) in [("/home/u", "/home"), ("/homer", "/home"), ("/x", "/"), ("./a", "a"), ("a/b", "a")] {
        assert_eq!(path_starts_with_str(p, base), Path::new(p).starts_with(base), "{p} vs {base}");
    }
}

#[test]
fn collision_policies() {
    let existing = vec!["/dl/report.pdf".to_string(), "/dl/report (2).pdf".to_string()];
    assert_eq!(
        resolve_collision("/dl/report.pdf", CollisionPolicy::Rename, &existing).unwrap(),
        "/dl/report (3).pdf"
    );
    assert_eq!(
        resolve_collision("/dl/report.pdf", CollisionPolicy::Overwrite, &existing).unwrap(),
        "/dl/report.pdf"
    );
    assert_eq!(resolve_collision("/dl/report.pdf", CollisionPolicy::Skip, &existing), None);
    assert_eq!(
        resolve_collision("/dl/new.pdf", CollisionPolicy::Skip, &existing).unwrap(),
        "/dl/new.pdf"
    );
    let none: Vec<String> = Vec::new();
    assert_eq!(
        resolve_collision("/dl/a", CollisionPolicy::Rename, &vec!["/dl/a".to_string()]).unwrap(),
        "/dl/a (2)"
    );
    assert_eq!(resolve_collision("/dl/a", CollisionPolicy::Rename, &none).unwrap(), "/dl/a");
}

#[test]
fn organize_dir_builds_sender_and_type_folders() {
    assert_eq!(organize_dir("/dl", "Galaxy S24", "pic.png", true, true), "/dl/Galaxy S24/PNG");
    assert_eq!(organize_dir("/dl", "Galaxy S24", "pic.png", false, false), "/dl");
    assert_eq!(organize_dir("/dl", "..", "x", true, false), "/dl/Unknown");
    assert_eq!(organize_dir("/dl", "a", "noext", false, true), "/dl/OTHER");
}

#[test]
fn part_path_appends_to_whole_name() {
    assert_eq!(part_path("/dl/report.pdf"), "/dl/report.pdf.part");
    assert_eq!(part_path("notes.part"), "notes.part.part");
}

#[test]
fn saf_document_uris() {
    assert_eq!(
        content_document_to_path(
            "content://com.android.externalstorage.documents/document/primary%3ADCIM%2Fa.jpg"
        ),
        Some("/storage/emulated/0/DCIM/a.jpg".to_string())
    );
}

#[test]
fn percent_decode_only_decodes_two_hex_digits() {
    assert_eq!(percent_decode("primary%3ADownload%2FKit"), "primary:Download/Kit");
    assert_eq!(percent_decode("%zz"), "%zz");
    assert_eq!(percent_decode("100%"), "100%");
    assert_eq!(percent_decode("%+1"), "%+1");
    assert_eq!(percent_decode("%1+"), "%1+");
    assert_eq!(percent_decode("%a\u{e9}"), "%a\u{e9}");
    assert_eq!(percent_decode("\u{e9}%\u{e9}x"), "\u{e9}%\u{e9}x");
    assert_eq!(percent_decode("%C3%A9"), "\u{e9}");
    assert_eq!(percent_decode("%ff"), "\u{fffd}");
}

#[test]
fn content_uris_with_stray_percent_signs_still_map() {
    assert_eq!(
        content_tree_to_path("content://com.android.externalstorage.documents/tree/primary%3A%a\u{e9}"),
        Some("/storage/emulated/0/%a\u{e9}".to_string())
    );
}

#[test]
fn a_device_name_uncovered_by_the_cut_is_still_prefixed() {
    let raw = format!("CON{}x", " ".repeat(300));
    let out = sanitize_component(&raw).unwrap();
    assert_ne!(out, "CON");
    assert_eq!(out, "_CON");
    let dotted = format!("lpt1{}.txt", " ".repeat(300));
    assert_eq!(sanitize_component(&dotted).unwrap(), "_lpt1");
    let long = "a".repeat(300);
    assert_eq!(sanitize_component(&long).unwrap(), "a".repeat(255));
}

#[test]
fn windows_paths_get_the_extended_prefix_once() {
    assert_eq!(extended_windows(r"C:\Users\u\a.txt", true), r"\\?\C:\Users\u\a.txt");
    assert_eq!(extended_windows(r"\\server\share\a.txt", true), r"\\?\UNC\server\share\a.txt");
    assert_eq!(extended_windows(r"\\?\C:\a.txt", true), r"\\?\C:\a.txt");
    assert_eq!(extended_windows(r"rel\a.txt", false), r"rel\a.txt");
}
