use localdrop::error::{human_bytes, TransferError};

/// The float formatting the byte counts are meant to match.
fn float_human_bytes(bytes: u64) -> String {
    const UNITS: [&str; 5] = ["B", "KB", "MB", "GB", "TB"];
    let mut value = bytes as f64;
    let mut unit = 0;
    while value >= 1024.0 && unit < UNITS.len() - 1 {
        value /= 1024.0;
        unit += 1;
    }
    if unit == 0 {
        format!("{bytes} B")
    } else {
        format!("{value:.1} {}", UNITS[unit])
    }
}

#[test]
fn human_bytes_exact_values() {
    assert_eq!(human_bytes(0), "0 B");
    assert_eq!(human_bytes(1023), "1023 B");
    assert_eq!(human_bytes(1024), "1.0 KB");
    assert_eq!(human_bytes(1536), "1.5 KB");
    assert_eq!(human_bytes(1_503_238_553), "1.4 GB");
    assert_eq!(human_bytes(5 * 1024 * 1024), "5.0 MB");
    assert_eq!(human_bytes(u64::MAX), "16777216.0 TB");
}

#[test]
fn human_bytes_matches_float_formatting() {
    let mut samples: Vec<u64> = vec![
        1024, 1075, 1076, 1126, 1127, 1280, 1331, 1332, 10 * 1024 + 51, 10 * 1024 + 52,
        1024 * 1024 - 1, 1024 * 1024, 1024 * 1024 + 52428, 1u64 << 40, (1u64 << 40) - 1,
        (1u64 << 53) + 1, (1u64 << 60) + 12345, u64::MAX - 1,
    ];
    let mut x: u64 = 0x9E37_79B9_7F4A_7C15;
    for _ in 0..2000 {
        x ^= x << 13;
        x ^= x >> 7;
        x ^= x << 17;
        samples.push(x >> (x % 60));
    }
    for b in samples {
        assert_eq!(human_bytes(b), float_human_bytes(b), "bytes = {b}");
    }
}

#[test]
fn every_error_has_its_code() {
    let cases: Vec<(TransferError, &str)> = vec![
        (TransferError::PeerUnreachable("x".into()), "ERR_PEER_UNREACHABLE"),
        (TransferError::ConnectionLost("x".into()), "ERR_CONNECTION_LOST"),
        (TransferError::Rejected(String::new()), "ERR_REJECTED"),
        (TransferError::OfferTimeout, "ERR_OFFER_TIMEOUT"),
        (TransferError::InsufficientSpace { needed: 1, available: 0 }, "ERR_INSUFFICIENT_SPACE"),
        (TransferError::WriteFailed { path: "p".into(), detail: "d".into() }, "ERR_WRITE_FAILED"),
        (TransferError::ReadFailed { path: "p".into(), detail: "d".into() }, "ERR_READ_FAILED"),
        (TransferError::ProtocolMismatch, "ERR_PROTOCOL_MISMATCH"),
        (TransferError::MalformedPayload, "ERR_MALFORMED_PAYLOAD"),
        (TransferError::PortUnavailable { first: 1, last: 2 }, "ERR_PORT_UNAVAILABLE"),
        (TransferError::Cancelled, "ERR_CANCELLED"),
    ];
    for (e, code) in cases {
        assert_eq!(e.code(), code);
        assert_eq!(e.payload("x").code, code);
    }
}

#[test]
fn messages_address_the_peer() {
    assert_eq!(
        TransferError::PeerUnreachable("d".into()).message("Pixel"),
        "Couldn't reach Pixel — it may have left the network."
    );
    assert_eq!(
        TransferError::ConnectionLost("d".into()).message("Pixel"),
        "Connection to Pixel dropped mid-transfer."
    );
    assert_eq!(TransferError::Rejected(String::new()).message("Pixel"), "Pixel declined the transfer.");
    assert_eq!(TransferError::Rejected("Not now".into()).message("Pixel"), "Not now");
    assert_eq!(TransferError::OfferTimeout.message("Pixel"), "Pixel didn't respond in time.");
    assert_eq!(
        TransferError::InsufficientSpace { needed: 1536, available: 0 }.message("this device"),
        "this device doesn't have enough free space (1.5 KB required)."
    );
    assert_eq!(
        TransferError::WriteFailed { path: "/dl/a".into(), detail: "d".into() }.message("x"),
        "Couldn't save to /dl/a. Check permissions."
    );
    assert_eq!(
        TransferError::ReadFailed { path: "/src/a".into(), detail: "d".into() }.message("x"),
        "Couldn't read /src/a — it may have been moved or deleted."
    );
    assert_eq!(
        TransferError::ProtocolMismatch.message("Pixel"),
        "Pixel is running an incompatible version of LocalDrop."
    );
    assert_eq!(
        TransferError::MalformedPayload.message("Pixel"),
        "Received invalid data from Pixel. Transfer aborted."
    );
    assert_eq!(
        TransferError::PortUnavailable { first: 57321, last: 57330 }.message("x"),
        "Ports 57321–57330 are in use. LocalDrop can't start networking."
    );
    assert_eq!(TransferError::Cancelled.message("x"), "Transfer cancelled.");
}

#[test]
fn details_go_to_the_log_only() {
    assert_eq!(TransferError::PeerUnreachable("timed out".into()).detail(), Some("timed out".into()));
    assert_eq!(
        TransferError::InsufficientSpace { needed: 10, available: 3 }.detail(),
        Some("needed 10 bytes, 3 available".into())
    );
    assert_eq!(TransferError::Cancelled.detail(), None);
    let p = TransferError::WriteFailed { path: "p".into(), detail: "disk full".into() }.payload("x");
    assert_eq!(p.detail, Some("disk full".into()));
    assert_eq!(p.message, "Couldn't save to p. Check permissions.");
}

#[test]
fn io_errors_are_wrapped_with_their_path() {
    let e = TransferError::write("/dl/a.txt", std::io::Error::new(std::io::ErrorKind::Other, "boom"));
    match e {
        TransferError::WriteFailed { path, detail } => {
            assert_eq!(path, "/dl/a.txt");
            assert_eq!(detail, "boom");
        }
        _ => panic!("wrong variant"),
    }
    let e = TransferError::read("/src", std::io::Error::new(std::io::ErrorKind::Other, "gone"));
    assert!(matches!(e, TransferError::ReadFailed { ref path, .. } if path == "/src"));
    let e = TransferError::connection(std::io::Error::new(std::io::ErrorKind::Other, "reset"));
    assert!(matches!(e, TransferError::ConnectionLost(ref d) if d == "reset"));
}
