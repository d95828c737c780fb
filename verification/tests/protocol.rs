use localdrop::error::TransferError;
use localdrop::protocol::{
    encode_frame, frame_length, manifest_bytes, port_range, ports_exhausted, validate_offer,
    ManifestEntry, OfferHeader, PayloadType, PeerOs, MAX_HEADER_BYTES, MAX_MANIFEST_ENTRIES,
    MAX_TEXT_BYTES, PROTOCOL_VERSION,
};

fn entry(rel: &str, size: u64, is_dir: bool) -> ManifestEntry {
    ManifestEntry { rel_path: rel.to_string(), size, is_dir }
}

fn files_offer(manifest: Vec<ManifestEntry>, total: u64) -> OfferHeader {
    OfferHeader {
        protocol_version: PROTOCOL_VERSION,
        payload_type: PayloadType::Files,
        sender_alias: "A".into(),
        sender_device_id: "id".into(),
        total_size: total,
        item_count: manifest.iter().filter(|e| !e.is_dir).count(),
        manifest,
    }
}

#[test]
fn frame_round_trip() {
    let payload = b"{\"x\":1}".to_vec();
    let frame = encode_frame(&payload).ok().unwrap();
    assert_eq!(&frame[..4], &[0, 0, 0, 7]);
    assert_eq!(&frame[4..], &payload[..]);
    let prefix: [u8; 4] = frame[..4].try_into().unwrap();
    assert_eq!(frame_length(prefix).ok().unwrap(), payload.len());
}

#[test]
fn frame_lengths_are_big_endian_and_capped() {
    assert_eq!(frame_length([0, 1, 0, 0]).ok().unwrap(), 65536);
    assert!(matches!(frame_length([0, 0, 0, 0]), Err(TransferError::MalformedPayload)));
    assert!(matches!(frame_length([0, 0x10, 0, 1]), Err(TransferError::MalformedPayload)));
    assert_eq!(frame_length([0, 0x10, 0, 0]).ok().unwrap(), MAX_HEADER_BYTES as usize);
    let big = vec![0u8; MAX_HEADER_BYTES as usize + 1];
    assert!(matches!(encode_frame(&big), Err(TransferError::MalformedPayload)));
}

#[test]
fn validate_offer_accepts_consistent_offers() {
    let o = files_offer(vec![entry("d", 0, true), entry("d/a", 10, false), entry("d/b", 5, false)], 15);
    assert!(validate_offer(&o).is_ok());
    let text = OfferHeader {
        protocol_version: PROTOCOL_VERSION,
        payload_type: PayloadType::Text,
        sender_alias: "A".into(),
        sender_device_id: "id".into(),
        total_size: MAX_TEXT_BYTES,
        item_count: 1,
        manifest: Vec::new(),
    };
    assert!(validate_offer(&text).is_ok());
}

#[test]
fn validate_offer_refuses_each_fault() {
    let mut o = files_offer(vec![entry("a", 10, false)], 10);
    o.protocol_version = PROTOCOL_VERSION + 1;
    assert!(matches!(validate_offer(&o), Err(TransferError::ProtocolMismatch)));

    let o = files_offer(vec![entry("a", 10, false)], 11);
    assert!(matches!(validate_offer(&o), Err(TransferError::MalformedPayload)));

    let o = files_offer(Vec::new(), 0);
    assert!(matches!(validate_offer(&o), Err(TransferError::MalformedPayload)));

    let many = (0..=MAX_MANIFEST_ENTRIES).map(|i| entry(&i.to_string(), 0, true)).collect();
    let o = files_offer(many, 0);
    assert!(matches!(validate_offer(&o), Err(TransferError::MalformedPayload)));

    let text = OfferHeader {
        protocol_version: PROTOCOL_VERSION,
        payload_type: PayloadType::Text,
        sender_alias: "A".into(),
        sender_device_id: "id".into(),
        total_size: MAX_TEXT_BYTES + 1,
        item_count: 1,
        manifest: Vec::new(),
    };
    assert!(matches!(validate_offer(&text), Err(TransferError::MalformedPayload)));
}

#[test]
fn manifest_bytes_counts_files_only_and_detects_overflow() {
    assert_eq!(manifest_bytes(&vec![entry("d", 99, true), entry("a", 3, false)]), Some(3));
    assert_eq!(manifest_bytes(&vec![entry("a", u64::MAX, false), entry("b", 1, false)]), None);
}

#[test]
fn peer_os_from_target_name() {
    assert_eq!(PeerOs::from_os("windows"), PeerOs::Windows);
    assert_eq!(PeerOs::from_os("android"), PeerOs::Android);
    assert_eq!(PeerOs::from_os("macos"), PeerOs::Macos);
    assert_eq!(PeerOs::from_os("linux"), PeerOs::Linux);
    assert_eq!(PeerOs::from_os("freebsd"), PeerOs::Unknown);
}

#[test]
fn port_fallback_range_saturates() {
    assert_eq!(port_range(57321), (57321, 57330));
    assert_eq!(port_range(65530), (65530, 65535));
    match ports_exhausted(57322) {
        TransferError::PortUnavailable { first, last } => assert_eq!((first, last), (57322, 57331)),
        _ => panic!("wrong variant"),
    }
}

#[test]
fn validate_offer_refuses_sizes_that_overflow() {
    let offer = OfferHeader {
        protocol_version: 1,
        payload_type: PayloadType::Files,
        sender_alias: "a".into(),
        sender_device_id: "d".into(),
        total_size: 0,
        item_count: 2,
        manifest: vec![entry("a", u64::MAX, false), entry("b", 1, false)],
    };
    assert!(matches!(validate_offer(&offer), Err(TransferError::MalformedPayload)));
    let mut wrapped = offer;
    wrapped.total_size = u64::MAX;
    assert!(matches!(validate_offer(&wrapped), Err(TransferError::MalformedPayload)));
}
