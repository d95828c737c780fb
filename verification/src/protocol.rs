//! Wire protocol: the types and limits both ends agree on, offer
//! validation, and the `u32` big-endian length-prefixed control framing.
use vstd::prelude::*;

use crate::error::{TransferError, TransferResult};
use crate::paths::chars_eq_str;
use crate::text::chars_of;

verus! {

pub const PROTOCOL_VERSION: u16 = 1;

/// 128 KB streaming window.
pub const CHUNK_SIZE: usize = 131072;

/// Offer headers are capped to prevent memory exhaustion.
pub const MAX_HEADER_BYTES: u32 = 1048576;

/// Manifest entry cap.
pub const MAX_MANIFEST_ENTRIES: usize = 100000;

/// Snippets above this become a `.txt` file transfer.
pub const MAX_TEXT_BYTES: u64 = 1048576;

/// Heartbeat cadence, in milliseconds.
pub const HEARTBEAT_INTERVAL_MS: u64 = 3000;

/// A peer is pruned after this long without a heartbeat (4 missed
/// beats), in milliseconds.
pub const PEER_TTL_MS: u64 = 12000;

/// Unanswered offers auto-reject after this many milliseconds.
pub const OFFER_TIMEOUT_MS: u64 = 30000;

/// How long to wait for a peer to answer a connection attempt, in
/// milliseconds.
pub const CONNECT_TIMEOUT_MS: u64 = 8000;

pub const DEFAULT_DISCOVERY_PORT: u16 = 57321;

pub const DEFAULT_TRANSFER_PORT: u16 = 57322;

/// Port fallback scans `+1..=+9` before giving up.
pub const PORT_FALLBACK_RANGE: u16 = 9;

pub const ACK_ACCEPT: u8 = 1;

pub const ACK_REJECT: u8 = 0;

/// Operating system reported by a peer, used for its badge.
#[derive(Clone, Copy, PartialEq, Eq, Structural, Debug)]
pub enum PeerOs {
    Windows,
    Android,
    Macos,
    Linux,
    Unknown,
}

pub open spec fn os_of(name: Seq<char>) -> PeerOs {
    if name == "windows"@ {
        PeerOs::Windows
    } else if name == "android"@ {
        PeerOs::Android
    } else if name == "macos"@ {
        PeerOs::Macos
    } else if name == "linux"@ {
        PeerOs::Linux
    } else {
        PeerOs::Unknown
    }
}

impl PeerOs {
    /// The badge for a target OS name as `std::env::consts::OS` spells it.
    pub fn from_os(name: &str) -> (os: PeerOs)
        ensures
            os == os_of(name@),
    {
        let v = chars_of(name);
        if chars_eq_str(&v, "windows") {
            PeerOs::Windows
        } else if chars_eq_str(&v, "android") {
            PeerOs::Android
        } else if chars_eq_str(&v, "macos") {
            PeerOs::Macos
        } else if chars_eq_str(&v, "linux") {
            PeerOs::Linux
        } else {
            PeerOs::Unknown
        }
    }
}

/// Whether a peer can accept a transfer right now.
#[derive(Clone, Copy, PartialEq, Eq, Structural, Debug)]
pub enum PeerState {
    Ready,
    Busy,
}

/// UDP heartbeat payload.
pub struct Heartbeat {
    pub protocol_version: u16,
    pub device_id: String,
    pub alias: String,
    pub os: PeerOs,
    pub tcp_port: u16,
    pub client_version: String,
    pub state: PeerState,
}

/// Whether a connection carries files or a single text snippet.
#[derive(Clone, Copy, PartialEq, Eq, Structural, Debug)]
pub enum PayloadType {
    Files,
    Text,
}

/// One item in an offer. `size` is authoritative: the receiver reads
/// exactly that many bytes.
pub struct ManifestEntry {
    pub rel_path: String,
    pub size: u64,
    pub is_dir: bool,
}

impl Clone for ManifestEntry {
    fn clone(&self) -> (r: Self)
        ensures
            r == *self,
    {
        ManifestEntry { rel_path: self.rel_path.clone(), size: self.size, is_dir: self.is_dir }
    }
}

/// Offer header, the first frame on every connection.
pub struct OfferHeader {
    pub protocol_version: u16,
    pub payload_type: PayloadType,
    pub sender_alias: String,
    pub sender_device_id: String,
    pub total_size: u64,
    pub item_count: usize,
    pub manifest: Vec<ManifestEntry>,
}

/// Sent by the receiver after a reject byte.
pub struct RejectReason {
    pub code: String,
    pub message: String,
}

/// Final frame from the sender.
pub struct CompletionTrailer {
    pub status: String,
    pub bytes_sent: u64,
    pub skipped: Vec<String>,
}

/// The bytes the manifest's files declare; directories carry none.
pub open spec fn file_bytes(m: Seq<ManifestEntry>) -> nat
    decreases m.len(),
{
    if m.len() == 0 {
        0
    } else {
        file_bytes(m.drop_last()) + if m.last().is_dir {
            0
        } else {
            m.last().size as nat
        }
    }
}

/// Why an offer is refused, if it is.
pub enum OfferFault {
    Version,
    Malformed,
}

pub open spec fn offer_fault(o: OfferHeader) -> Option<OfferFault> {
    if o.protocol_version != PROTOCOL_VERSION {
        Some(OfferFault::Version)
    } else if o.manifest@.len() > MAX_MANIFEST_ENTRIES {
        Some(OfferFault::Malformed)
    } else {
        match o.payload_type {
            PayloadType::Text => if o.manifest@.len() > 0 || o.total_size > MAX_TEXT_BYTES {
                Some(OfferFault::Malformed)
            } else {
                None
            },
            PayloadType::Files => if o.manifest@.len() == 0 || file_bytes(o.manifest@)
                != o.total_size {
                Some(OfferFault::Malformed)
            } else {
                None
            },
        }
    }
}

proof fn lemma_file_bytes_prefix(m: Seq<ManifestEntry>, i: int)
    requires
        0 <= i <= m.len(),
    ensures
        file_bytes(m.take(i)) <= file_bytes(m),
    decreases m.len() - i,
{
    if i < m.len() {
        lemma_file_bytes_prefix(m, i + 1);
        assert(m.take(i + 1).drop_last() == m.take(i));
    } else {
        assert(m.take(i) == m);
    }
}

/// The bytes the manifest declares for files, or `None` if the sum does
/// not fit in a `u64`.
pub fn manifest_bytes(manifest: &Vec<ManifestEntry>) -> (r: Option<u64>)
    ensures
        match r {
            Some(n) => n == file_bytes(manifest@),
            None => file_bytes(manifest@) > u64::MAX,
        },
{
    let mut sum: u64 = 0;
    let mut i: usize = 0;
    while i < manifest.len()
        invariant
            0 <= i <= manifest.len(),
            sum == file_bytes(manifest@.take(i as int)),
        decreases manifest.len() - i,
    {
        assert(manifest@.take(i + 1).drop_last() == manifest@.take(i as int));
        if !manifest[i].is_dir {
            if sum > u64::MAX - manifest[i].size {
                proof {
                    lemma_file_bytes_prefix(manifest@, i + 1);
                }
                return None;
            }
            sum = sum + manifest[i].size;
        }
        i = i + 1;
    }
    assert(manifest@.take(manifest.len() as int) == manifest@);
    Some(sum)
}

/// Validate an incoming offer before any disk work happens:
/// the version, then the entry cap, then the per-payload-type rules. A
/// text offer carries no manifest and at most 1 MB; a file offer carries a
/// non-empty manifest whose file sizes add up to the declared total.
pub fn validate_offer(offer: &OfferHeader) -> (r: TransferResult<()>)
    ensures
        match r {
            Ok(()) => offer_fault(*offer) is None,
            Err(e) => match offer_fault(*offer) {
                Some(OfferFault::Version) => e is ProtocolMismatch,
                Some(OfferFault::Malformed) => e is MalformedPayload,
                None => false,
            },
        },
{
    if offer.protocol_version != PROTOCOL_VERSION {
        return Err(TransferError::ProtocolMismatch);
    }
    if offer.manifest.len() > MAX_MANIFEST_ENTRIES {
        return Err(TransferError::MalformedPayload);
    }
    match offer.payload_type {
        PayloadType::Text => {
            if offer.manifest.len() > 0 || offer.total_size > MAX_TEXT_BYTES {
                return Err(TransferError::MalformedPayload);
            }
        },
        PayloadType::Files => {
            if offer.manifest.len() == 0 {
                return Err(TransferError::MalformedPayload);
            }
            match manifest_bytes(&offer.manifest) {
                Some(sum) => {
                    if sum != offer.total_size {
                        return Err(TransferError::MalformedPayload);
                    }
                },
                None => {
                    return Err(TransferError::MalformedPayload);
                },
            }
        },
    }
    Ok(())
}

// ---------------------------------------------------------------------------
// Control-plane framing
// ---------------------------------------------------------------------------

/// The four big-endian bytes of `n`.
pub open spec fn be32(n: nat) -> Seq<u8> {
    seq![
        ((n / 16777216) % 256) as u8,
        ((n / 65536) % 256) as u8,
        ((n / 256) % 256) as u8,
        (n % 256) as u8,
    ]
}

/// The number four big-endian bytes encode.
pub open spec fn be32_value(b: Seq<u8>) -> nat {
    b[0] as nat * 16777216 + b[1] as nat * 65536 + b[2] as nat * 256 + b[3] as nat
}

/// A control frame for `payload`: its length as four big-endian bytes,
/// then the payload. `None` when the payload exceeds the header cap, which
/// is enforced on the way out as well as in.
pub open spec fn frame_of(payload: Seq<u8>) -> Option<Seq<u8>> {
    if payload.len() > MAX_HEADER_BYTES {
        None
    } else {
        Some(be32(payload.len()) + payload)
    }
}

/// The payload length a frame's prefix announces, if acceptable: neither
/// zero nor above the cap.
pub open spec fn announced_len(prefix: Seq<u8>) -> Option<nat> {
    let n = be32_value(prefix);
    if n == 0 || n > MAX_HEADER_BYTES {
        None
    } else {
        Some(n)
    }
}

/// Frame a serialized control message for the wire.
pub fn encode_frame(payload: &[u8]) -> (r: TransferResult<Vec<u8>>)
    ensures
        match r {
            Ok(f) => frame_of(payload@) == Some(f@),
            Err(e) => frame_of(payload@) is None && e is MalformedPayload,
        },
{
    let n = payload.len();
    if n > MAX_HEADER_BYTES as usize {
        return Err(TransferError::MalformedPayload);
    }
    let mut out: Vec<u8> = Vec::new();
    out.push(((n / 16777216) % 256) as u8);
    out.push(((n / 65536) % 256) as u8);
    out.push(((n / 256) % 256) as u8);
    out.push((n % 256) as u8);
    let mut i: usize = 0;
    while i < n
        invariant
            0 <= i <= n,
            n == payload@.len(),
            out@ == be32(n as nat) + payload@.take(i as int),
        decreases n - i,
    {
        out.push(payload[i]);
        assert(payload@.take(i + 1) == payload@.take(i as int).push(payload@[i as int]));
        i = i + 1;
    }
    assert(payload@.take(n as int) == payload@);
    Ok(out)
}

/// Read a frame's length prefix, refusing a zero or
/// oversized length before anything is allocated.
pub fn frame_length(prefix: [u8; 4]) -> (r: TransferResult<usize>)
    ensures
        match r {
            Ok(n) => announced_len(prefix@) == Some(n as nat),
            Err(e) => announced_len(prefix@) is None && e is MalformedPayload,
        },
{
    let n: u32 = (prefix[0] as u32) * 16777216 + (prefix[1] as u32) * 65536 + (prefix[2] as u32)
        * 256 + (prefix[3] as u32);
    if n == 0 || n > MAX_HEADER_BYTES {
        return Err(TransferError::MalformedPayload);
    }
    Ok(n as usize)
}

/// Framing round trip: a non-empty payload within the cap is framed, and
/// reading the frame's prefix gives back exactly the payload's length, with
/// the payload itself following the prefix unchanged.
pub proof fn law_frame_round_trip(payload: Seq<u8>)
    requires
        0 < payload.len() <= MAX_HEADER_BYTES,
    ensures
        frame_of(payload) is Some,
        announced_len(frame_of(payload)->Some_0.take(4)) == Some(payload.len()),
        frame_of(payload)->Some_0.skip(4) == payload,
{
    let f = frame_of(payload)->Some_0;
    let n = payload.len();
    assert(f.take(4) == be32(n));
    assert(f.skip(4) == payload);
    let b = be32(n);
    assert(be32_value(b) == n) by {
        let b0 = (n / 16777216) % 256;
        let b1 = (n / 65536) % 256;
        let b2 = (n / 256) % 256;
        let b3 = n % 256;
        assert(n < 16777216 * 256);
        assert(b0 == n / 16777216);
        assert(b0 * 16777216 + b1 * 65536 + b2 * 256 + b3 == n) by (nonlinear_arith)
            requires
                b0 == n / 16777216,
                b1 == (n / 65536) % 256,
                b2 == (n / 256) % 256,
                b3 == n % 256,
                n < 16777216 * 256,
        ;
    }
}

/// The ports tried when binding from `port`: `port` through `port + 9`,
/// saturating so a port near the top cannot overflow the range.
pub fn port_range(port: u16) -> (r: (u16, u16))
    ensures
        r.0 == port,
        r.1 == if port as int + PORT_FALLBACK_RANGE as int > u16::MAX as int {
            u16::MAX as int
        } else {
            port as int + PORT_FALLBACK_RANGE as int
        },
{
    (port, port.saturating_add(PORT_FALLBACK_RANGE))
}

/// The error when no port in the range would bind.
pub fn ports_exhausted(port: u16) -> (e: TransferError)
    ensures
        e matches TransferError::PortUnavailable { first, last } && first == port && (first, last)
            == port_range_of(port),
{
    let (first, last) = port_range(port);
    TransferError::PortUnavailable { first, last }
}

pub open spec fn port_range_of(port: u16) -> (u16, u16) {
    (
        port,
        if port as int + PORT_FALLBACK_RANGE as int > u16::MAX as int {
            u16::MAX
        } else {
            (port + PORT_FALLBACK_RANGE) as u16
        },
    )
}

} // verus!
