use localdrop::protocol::{DEFAULT_DISCOVERY_PORT, DEFAULT_TRANSFER_PORT};
use localdrop::settings::{
    alias_from_sources, default_alias, default_download_dir, downloads_candidate, usable,
    CollisionPolicy, Identity, Settings, MAX_ALIAS_LEN,
};

#[test]
fn useless_hostnames_are_refused() {
    assert_eq!(usable("localhost"), None);
    assert_eq!(usable("  LocalHost  "), None);
    assert_eq!(usable("localhost.localdomain"), None);
    assert_eq!(usable("Android"), None);
    assert_eq!(usable("unknown"), None);
    assert_eq!(usable("   "), None);
    assert_eq!(usable("  Emma's Laptop "), Some("Emma's Laptop".to_string()));
}

#[test]
fn aliases_are_clamped_to_32_characters() {
    let long = "é".repeat(40);
    let a = usable(&long).unwrap();
    assert_eq!(a.chars().count(), MAX_ALIAS_LEN);
    assert_eq!(usable(&"x".repeat(32)).unwrap().len(), 32);
}

#[test]
fn alias_chain_falls_through_in_order() {
    assert_eq!(alias_from_sources(Some("Pixel 8".into()), Some("host".into()), "dev"), "Pixel 8");
    assert_eq!(alias_from_sources(None, Some("localhost".into()), "Living Room PC"), "Living Room PC");
    assert_eq!(alias_from_sources(None, Some("desk".into()), "x"), "desk");
    assert_eq!(alias_from_sources(Some("android".into()), None, " unknown "), "LocalDrop Device");
}

#[test]
fn default_alias_is_never_blank() {
    let a = default_alias();
    assert!(!a.trim().is_empty());
    assert!(a.chars().count() <= MAX_ALIAS_LEN);
}

#[test]
fn default_download_dir_prefers_downloads() {
    assert_eq!(default_download_dir(Some("/home/u".into()), true, "/tmp"), "/home/u/Downloads/LocalDrop");
    assert_eq!(default_download_dir(Some("/home/u".into()), false, "/tmp"), "/home/u/LocalDrop");
    assert_eq!(default_download_dir(None, true, "/tmp"), "/tmp/LocalDrop");
    assert_eq!(downloads_candidate("/home/u/"), "/home/u/Downloads");
}

#[test]
fn normalize_repairs_each_field() {
    let mut s = Settings::defaults("/dl".into());
    s.device_alias = "  localhost ".into();
    s.download_directory = "   ".into();
    s.discovery_port = 0;
    s.transfer_port = 0;
    s.auto_accept = true;
    s.normalize("/fallback");
    assert!(!s.device_alias.trim().is_empty());
    assert_ne!(s.device_alias, "localhost");
    assert_eq!(s.download_directory, "/fallback");
    assert_eq!(s.discovery_port, DEFAULT_DISCOVERY_PORT);
    assert_eq!(s.transfer_port, DEFAULT_TRANSFER_PORT);
    assert!(s.auto_accept);

    let mut t = Settings::defaults("/dl".into());
    t.device_alias = format!(" {} ", "n".repeat(40));
    t.discovery_port = 1234;
    t.normalize("/fallback");
    assert_eq!(t.device_alias, "n".repeat(32));
    assert_eq!(t.download_directory, "/dl");
    assert_eq!(t.download_path(), "/dl");
    assert_eq!(t.discovery_port, 1234);
}

#[test]
fn defaults_are_conservative() {
    let s = Settings::defaults("/dl".into());
    assert!(!s.auto_accept);
    assert!(s.auto_copy_snippets);
    assert!(s.completion_sound);
    assert!(!s.transfer_start_sound);
    assert!(!s.launch_minimized);
    assert!(!s.organize_by_sender);
    assert!(!s.organize_by_file_type);
    assert_eq!(s.collision_policy, CollisionPolicy::Rename);
    assert_eq!(CollisionPolicy::default(), CollisionPolicy::Rename);
    assert!(s.background_service);
    assert_eq!(s.discovery_port, DEFAULT_DISCOVERY_PORT);
    assert_eq!(s.transfer_port, DEFAULT_TRANSFER_PORT);
}

#[test]
fn identities_are_random_v4_uuids() {
    let a = Identity::generate();
    let b = Identity::generate();
    assert_ne!(a.device_id, b.device_id);
    let id = a.device_id.as_bytes();
    assert_eq!(id.len(), 36);
    for i in [8, 13, 18, 23] {
        assert_eq!(id[i], b'-');
    }
    assert_eq!(id[14], b'4');
    assert!(matches!(id[19], b'8' | b'9' | b'a' | b'b'));
    let c = Identity::default();
    assert_eq!(c.device_id.len(), 36);
    assert_ne!(c.device_id, a.device_id);
}

#[test]
fn a_cut_alias_is_trimmed_again() {
    let long = format!("{} b", "a".repeat(31));
    assert_eq!(usable(&long), Some("a".repeat(31)));
    let hidden = format!("localhost{}x", " ".repeat(30));
    assert_eq!(usable(&hidden), None);
}

#[test]
fn normalize_is_a_fixed_point() {
    let mut s = Settings::defaults("/dl".into());
    s.device_alias = format!("{} b", "a".repeat(31));
    s.download_directory = "  ".into();
    s.transfer_port = 0;
    s.normalize("/fallback");
    assert_eq!(s.device_alias, "a".repeat(31));
    let mut t = s.clone();
    t.normalize("/fallback");
    assert_eq!(t.device_alias, s.device_alias);
    assert_eq!(t.download_directory, s.download_directory);
    assert_eq!(t.discovery_port, s.discovery_port);
    assert_eq!(t.transfer_port, s.transfer_port);
    assert_eq!(t.auto_accept, s.auto_accept);
    assert_eq!(t.collision_policy, s.collision_policy);
}
