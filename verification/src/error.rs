//! Error taxonomy: every failure maps to exactly one code, one sentence for
//! the user, and optionally a technical detail for the log.
use vstd::prelude::*;

use crate::text::{concat2, decimal, decimal_chars, string_from_chars};

verus! {

/// Marks `std::io::Error` as a type verified code may carry through.
#[verifier::external_type_specification]
#[verifier::external_body]
pub struct ExIoError(std::io::Error);

/// The operating system's description of an I/O failure
/// (`<std::io::Error as Display>::fmt`). The text comes from the platform, so
/// nothing is claimed about it.
#[verifier::external_body]
fn io_error_text(e: &std::io::Error) -> String {
    e.to_string()
}

/// Every failure the transfer engine can produce.
#[derive(Debug)]
pub enum TransferError {
    PeerUnreachable(String),
    ConnectionLost(String),
    Rejected(String),
    OfferTimeout,
    InsufficientSpace { needed: u64, available: u64 },
    WriteFailed { path: String, detail: String },
    ReadFailed { path: String, detail: String },
    ProtocolMismatch,
    MalformedPayload,
    PortUnavailable { first: u16, last: u16 },
    Cancelled,
}

pub type TransferResult<T> = Result<T, TransferError>;

/// Serialized shape delivered to the frontend.
#[derive(Debug)]
pub struct ErrorPayload {
    pub code: String,
    pub message: String,
    pub detail: Option<String>,
}

impl Clone for ErrorPayload {
    fn clone(&self) -> (r: Self)
        ensures
            r == *self,
    {
        ErrorPayload {
            code: self.code.clone(),
            message: self.message.clone(),
            detail: match &self.detail {
                Some(d) => Some(d.clone()),
                None => None,
            },
        }
    }
}

/// The stable identifier of each variant.
pub open spec fn code_of(e: TransferError) -> Seq<char> {
    match e {
        TransferError::PeerUnreachable(_) => "ERR_PEER_UNREACHABLE"@,
        TransferError::ConnectionLost(_) => "ERR_CONNECTION_LOST"@,
        TransferError::Rejected(_) => "ERR_REJECTED"@,
        TransferError::OfferTimeout => "ERR_OFFER_TIMEOUT"@,
        TransferError::InsufficientSpace { .. } => "ERR_INSUFFICIENT_SPACE"@,
        TransferError::WriteFailed { .. } => "ERR_WRITE_FAILED"@,
        TransferError::ReadFailed { .. } => "ERR_READ_FAILED"@,
        TransferError::ProtocolMismatch => "ERR_PROTOCOL_MISMATCH"@,
        TransferError::MalformedPayload => "ERR_MALFORMED_PAYLOAD"@,
        TransferError::PortUnavailable { .. } => "ERR_PORT_UNAVAILABLE"@,
        TransferError::Cancelled => "ERR_CANCELLED"@,
    }
}

/// The user-facing sentence, with `alias` naming the peer.
pub open spec fn message_of(e: TransferError, alias: Seq<char>) -> Seq<char> {
    match e {
        TransferError::PeerUnreachable(_) => "Couldn't reach "@ + alias
            + " — it may have left the network."@,
        TransferError::ConnectionLost(_) => "Connection to "@ + alias + " dropped mid-transfer."@,
        TransferError::Rejected(reason) => if reason@.len() > 0 {
            reason@
        } else {
            alias + " declined the transfer."@
        },
        TransferError::OfferTimeout => alias + " didn't respond in time."@,
        TransferError::InsufficientSpace { needed, .. } => alias
            + " doesn't have enough free space ("@ + human_bytes_of(needed as nat)
            + " required)."@,
        TransferError::WriteFailed { path, .. } => "Couldn't save to "@ + path@
            + ". Check permissions."@,
        TransferError::ReadFailed { path, .. } => "Couldn't read "@ + path@
            + " — it may have been moved or deleted."@,
        TransferError::ProtocolMismatch => alias
            + " is running an incompatible version of LocalDrop."@,
        TransferError::MalformedPayload => "Received invalid data from "@ + alias
            + ". Transfer aborted."@,
        TransferError::PortUnavailable { first, last } => "Ports "@ + decimal(first as nat)
            + "–"@ + decimal(last as nat) + " are in use. LocalDrop can't start networking."@,
        TransferError::Cancelled => "Transfer cancelled."@,
    }
}

/// The technical detail for logs, where the variant carries one.
pub open spec fn detail_of(e: TransferError) -> Option<Seq<char>> {
    match e {
        TransferError::PeerUnreachable(d) => Some(d@),
        TransferError::ConnectionLost(d) => Some(d@),
        TransferError::Rejected(d) => Some(d@),
        TransferError::WriteFailed { detail, .. } => Some(detail@),
        TransferError::ReadFailed { detail, .. } => Some(detail@),
        TransferError::InsufficientSpace { needed, available } => Some(
            "needed "@ + decimal(needed as nat) + " bytes, "@ + decimal(available as nat)
                + " available"@,
        ),
        _ => None,
    }
}

pub open spec fn opt_view(o: Option<String>) -> Option<Seq<char>> {
    match o {
        Some(s) => Some(s@),
        None => None,
    }
}

fn concat3(a: &str, b: &str, c: &str) -> (r: String)
    ensures
        r@ == a@ + b@ + c@,
{
    let mut r = concat2(a, b);
    r.append(c);
    r
}

impl TransferError {
    /// Wrap a socket error, keeping the OS detail for the log.
    pub fn connection(e: std::io::Error) -> (r: Self)
        ensures
            r is ConnectionLost,
    {
        TransferError::ConnectionLost(io_error_text(&e))
    }

    /// Wrap a failure writing to `path`.
    pub fn write(path: &str, e: std::io::Error) -> (r: Self)
        ensures
            r matches TransferError::WriteFailed { path: p, .. } && p@ == path@,
    {
        TransferError::WriteFailed { path: path.to_owned(), detail: io_error_text(&e) }
    }

    /// Wrap a failure reading `path`.
    pub fn read(path: &str, e: std::io::Error) -> (r: Self)
        ensures
            r matches TransferError::ReadFailed { path: p, .. } && p@ == path@,
    {
        TransferError::ReadFailed { path: path.to_owned(), detail: io_error_text(&e) }
    }

    /// Stable identifier for logs and support, e.g. `ERR_CONNECTION_LOST`.
    pub fn code(&self) -> (c: &'static str)
        ensures
            c@ == code_of(*self),
    {
        match self {
            TransferError::PeerUnreachable(_) => "ERR_PEER_UNREACHABLE",
            TransferError::ConnectionLost(_) => "ERR_CONNECTION_LOST",
            TransferError::Rejected(_) => "ERR_REJECTED",
            TransferError::OfferTimeout => "ERR_OFFER_TIMEOUT",
            TransferError::InsufficientSpace { .. } => "ERR_INSUFFICIENT_SPACE",
            TransferError::WriteFailed { .. } => "ERR_WRITE_FAILED",
            TransferError::ReadFailed { .. } => "ERR_READ_FAILED",
            TransferError::ProtocolMismatch => "ERR_PROTOCOL_MISMATCH",
            TransferError::MalformedPayload => "ERR_MALFORMED_PAYLOAD",
            TransferError::PortUnavailable { .. } => "ERR_PORT_UNAVAILABLE",
            TransferError::Cancelled => "ERR_CANCELLED",
        }
    }

    /// User-facing copy naming the peer (`alias`) or the path involved.
    pub fn message(&self, alias: &str) -> (m: String)
        ensures
            m@ == message_of(*self, alias@),
    {
        match self {
            TransferError::PeerUnreachable(_) => concat3(
                "Couldn't reach ",
                alias,
                " — it may have left the network.",
            ),
            TransferError::ConnectionLost(_) => concat3(
                "Connection to ",
                alias,
                " dropped mid-transfer.",
            ),
            TransferError::Rejected(reason) => {
                if reason.as_str().is_empty() {
                    concat2(alias, " declined the transfer.")
                } else {
                    reason.clone()
                }
            },
            TransferError::OfferTimeout => concat2(alias, " didn't respond in time."),
            TransferError::InsufficientSpace { needed, .. } => {
                let size = human_bytes(*needed);
                let mut m = concat3(alias, " doesn't have enough free space (", size.as_str());
                m.append(" required).");
                m
            },
            TransferError::WriteFailed { path, .. } => concat3(
                "Couldn't save to ",
                path.as_str(),
                ". Check permissions.",
            ),
            TransferError::ReadFailed { path, .. } => concat3(
                "Couldn't read ",
                path.as_str(),
                " — it may have been moved or deleted.",
            ),
            TransferError::ProtocolMismatch => concat2(
                alias,
                " is running an incompatible version of LocalDrop.",
            ),
            TransferError::MalformedPayload => concat3(
                "Received invalid data from ",
                alias,
                ". Transfer aborted.",
            ),
            TransferError::PortUnavailable { first, last } => {
                let a = decimal_chars(*first as u64);
                let b = decimal_chars(*last as u64);
                let mut m = concat2("Ports ", string_from_chars(a.as_slice()).as_str());
                m.append("–");
                m.append(string_from_chars(b.as_slice()).as_str());
                m.append(" are in use. LocalDrop can't start networking.");
                m
            },
            TransferError::Cancelled => "Transfer cancelled.".to_owned(),
        }
    }

    /// The technical detail behind the failure, for logs and bug reports.
    pub fn detail(&self) -> (d: Option<String>)
        ensures
            opt_view(d) == detail_of(*self),
    {
        match self {
            TransferError::PeerUnreachable(d) => Some(d.clone()),
            TransferError::ConnectionLost(d) => Some(d.clone()),
            TransferError::Rejected(d) => Some(d.clone()),
            TransferError::WriteFailed { detail, .. } => Some(detail.clone()),
            TransferError::ReadFailed { detail, .. } => Some(detail.clone()),
            TransferError::InsufficientSpace { needed, available } => {
                let a = string_from_chars(decimal_chars(*needed).as_slice());
                let b = string_from_chars(decimal_chars(*available).as_slice());
                let mut m = concat3("needed ", a.as_str(), " bytes, ");
                m.append(b.as_str());
                m.append(" available");
                Some(m)
            },
            _ => None,
        }
    }

    /// The frontend-facing payload, with `alias` resolved in the message.
    pub fn payload(&self, alias: &str) -> (p: ErrorPayload)
        ensures
            p.code@ == code_of(*self),
            p.message@ == message_of(*self, alias@),
            opt_view(p.detail) == detail_of(*self),
    {
        ErrorPayload {
            code: self.code().to_owned(),
            message: self.message(alias),
            detail: self.detail(),
        }
    }
}

// ---------------------------------------------------------------------------
// Byte counts for display
// ---------------------------------------------------------------------------

pub open spec fn pow2(k: nat) -> nat
    decreases k,
{
    if k == 0 {
        1
    } else {
        2 * pow2((k - 1) as nat)
    }
}

pub open spec fn pow1024(k: nat) -> nat
    decreases k,
{
    if k == 0 {
        1
    } else {
        1024 * pow1024((k - 1) as nat)
    }
}

/// 2^53: below it every integer is exactly an `f64`.
pub open spec fn f64_exact_bound() -> nat {
    0x20_0000_0000_0000
}

/// How many low bits `n as f64` drops: halvings until `n` fits in 53 bits.
pub open spec fn f64_dropped_bits(n: nat) -> nat
    decreases n,
{
    if n < f64_exact_bound() {
        0
    } else {
        1 + f64_dropped_bits(n / 2)
    }
}

/// `n as f64`: round to the nearest value with 53 significant bits, ties
/// to even.
pub open spec fn f64_value(n: nat) -> nat {
    let p = pow2(f64_dropped_bits(n));
    let q = n / p;
    let r = n % p;
    let up = 2 * r > p || (2 * r == p && q % 2 == 1);
    (if up {
        q + 1
    } else {
        q
    }) * p
}

/// The unit index reached by dividing by 1024 while the value is at least
/// 1024 and a larger unit exists.
pub open spec fn unit_index(f: nat) -> nat {
    if f >= pow1024(4) {
        4
    } else if f >= pow1024(3) {
        3
    } else if f >= pow1024(2) {
        2
    } else if f >= pow1024(1) {
        1
    } else {
        0
    }
}

pub open spec fn unit_name(u: nat) -> Seq<char> {
    if u == 0 {
        "B"@
    } else if u == 1 {
        "KB"@
    } else if u == 2 {
        "MB"@
    } else if u == 3 {
        "GB"@
    } else {
        "TB"@
    }
}

/// `f / d` in tenths, rounded to nearest with ties to even: what `{:.1}`
/// prints for an exactly represented quotient.
pub open spec fn tenths(f: nat, d: nat) -> nat
    recommends
        d > 0,
{
    let q = (f * 10) / d;
    let r = (f * 10) % d;
    if 2 * r > d || (2 * r == d && q % 2 == 1) {
        q + 1
    } else {
        q
    }
}

/// `human_bytes(bytes)`, e.g. `"512 B"` or `"1.4 GB"`.
pub open spec fn human_bytes_of(bytes: nat) -> Seq<char> {
    let f = f64_value(bytes);
    let u = unit_index(f);
    if u == 0 {
        decimal(bytes) + " B"@
    } else {
        let t = tenths(f, pow1024(u));
        decimal(t / 10) + "."@ + decimal(t % 10) + " "@ + unit_name(u)
    }
}

/// `n as f64` for a `u64`, as an integer.
fn f64_of_u64(n: u64) -> (f: u128)
    ensures
        f == f64_value(n as nat),
        f <= 0x4_0000_0000_0000_0000,
        (n as nat) < f64_exact_bound() ==> f == n,
{
    let mut q: u64 = n;
    let mut p: u64 = 1;
    let ghost mut k: nat = 0;
    assert(pow2(0) == 1);
    assert((n as nat) / 1 == n);
    while q >= 0x20_0000_0000_0000
        invariant
            p == pow2(k),
            p >= 1,
            q == (n as nat) / pow2(k),
            f64_dropped_bits(n as nat) == k + f64_dropped_bits(q as nat),
            k > 0 ==> p * 0x10_0000_0000_0000 <= n,
        decreases q,
    {
        proof {
            vstd::arithmetic::div_mod::lemma_div_denominator(n as int, pow2(k) as int, 2);
            assert(pow2(k + 1) == 2 * pow2(k));
            vstd::arithmetic::div_mod::lemma_fundamental_div_mod(n as int, pow2(k) as int);
            vstd::arithmetic::div_mod::lemma_mod_pos_bound(n as int, pow2(k) as int);
            assert(q * p <= n);
            assert(p * 0x20_0000_0000_0000 <= q * p) by (nonlinear_arith)
                requires q >= 0x20_0000_0000_0000, p >= 1;
        }
        q = q / 2;
        p = p * 2;
        proof {
            k = k + 1;
        }
    }
    proof {
        vstd::arithmetic::div_mod::lemma_fundamental_div_mod(n as int, p as int);
        vstd::arithmetic::div_mod::lemma_mod_pos_bound(n as int, p as int);
        assert(q * p <= n);
    }
    let r: u64 = n - q * p;
    assert(r == (n as nat) % (p as nat));
    let up = (r as u128) * 2 > (p as u128) || ((r as u128) * 2 == (p as u128) && q % 2 == 1);
    let qq: u128 = if up {
        q as u128 + 1
    } else {
        q as u128
    };
    proof {
        if k == 0 {
            assert(p == 1);
            assert(r == 0);
        } else {
            assert(p <= 0x1000);
        }
        assert(qq * p <= 0x4_0000_0000_0000_0000) by (nonlinear_arith)
            requires qq <= 0x20_0000_0000_0000, p <= 0x1000 || qq * p <= n + 1, n <= 0xFFFF_FFFF_FFFF_FFFF;
    }
    qq * (p as u128)
}

/// Format a byte count for display, e.g. `1.4 GB`.
pub fn human_bytes(bytes: u64) -> (s: String)
    ensures
        s@ == human_bytes_of(bytes as nat),
{
    let f = f64_of_u64(bytes);
    let mut unit: u32 = 0;
    let mut d: u128 = 1;
    proof {
        reveal_with_fuel(pow1024, 5);
    }
    while unit < 4 && f >= d * 1024
        invariant
            unit <= 4,
            d == pow1024(unit as nat),
            f <= 0x4_0000_0000_0000_0000,
            unit > 0 ==> f >= d,
            pow1024(0) == 1,
            pow1024(1) == 1024,
            pow1024(2) == 1024 * 1024,
            pow1024(3) == 1024 * 1024 * 1024,
            pow1024(4) == 1024 * 1024 * 1024 * 1024,
        decreases 4 - unit,
    {
        d = d * 1024;
        unit = unit + 1;
    }
    assert(unit as nat == unit_index(f as nat));
    if unit == 0 {
        let digits = string_from_chars(decimal_chars(bytes).as_slice());
        return concat2(digits.as_str(), " B");
    }
    let q = (f * 10) / d;
    let r = (f * 10) % d;
    let t: u128 = if 2 * r > d || (2 * r == d && q % 2 == 1) {
        q + 1
    } else {
        q
    };
    assert(t == tenths(f as nat, d as nat));
    assert(t <= 0xFFFF_FFFF_FFFF_FFFF) by {
        assert(d >= 1024);
        assert(q <= f * 10 / 1024) by {
            vstd::arithmetic::div_mod::lemma_div_is_ordered_by_denominator(
                (f * 10) as int,
                1024,
                d as int,
            );
        }
    }
    let whole = string_from_chars(decimal_chars((t / 10) as u64).as_slice());
    let frac = string_from_chars(decimal_chars((t % 10) as u64).as_slice());
    let name = if unit == 1 {
        "KB"
    } else if unit == 2 {
        "MB"
    } else if unit == 3 {
        "GB"
    } else {
        "TB"
    };
    let mut s = concat3(whole.as_str(), ".", frac.as_str());
    s.append(" ");
    s.append(name);
    s
}

} // verus!
