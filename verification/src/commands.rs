//! What the command surface decides before handing off: the shapes it
//! returns, the checks that refuse a request up front, how an oversize
//! snippet is staged as a file, how a picked download folder is resolved,
//! and how a browsed directory is listed. Every refusal is an
//! [`ErrorPayload`], never a raw error.
use vstd::prelude::*;

use crate::error::{code_of, detail_of, message_of, opt_view, ErrorPayload, TransferError};
use crate::paths::{
    chars_eq_str, content_tree_to_path, content_uri_path_of, join_path,
    joined, parent, parent_of,
};
use crate::protocol::{PeerOs, MAX_TEXT_BYTES, PROTOCOL_VERSION};
use crate::registry::Peer;
use crate::text::{
    chars_of, compare_chars, has_prefix, starts_with_str, decimal, decimal_string, lower_ascii_seq, seq_lt, str_byte_len, trim,
    trim_vec, utf8_len,
};

verus! {

/// The payload a command fails with: the error as addressed to "the peer".
pub open spec fn failure_of(err: TransferError, p: ErrorPayload) -> bool {
    &&& p.code@ == code_of(err)
    &&& p.message@ == message_of(err, "the peer"@)
    &&& opt_view(p.detail) == detail_of(err)
}

/// A command's refusal: the error's payload, addressed to "the peer".
pub fn fail(err: TransferError) -> (p: ErrorPayload)
    ensures
        failure_of(err, p),
{
    err.payload("the peer")
}

/// Identity of this device, as shown in the header.
pub struct DeviceInfo {
    pub device_id: String,
    pub alias: String,
    pub os: PeerOs,
    pub client_version: String,
    pub protocol_version: u16,
    /// Transfers are unencrypted; the UI reads this rather than hardcoding a
    /// claim, so the label can never drift from reality.
    pub encrypted: bool,
}

/// This device's identity and protocol capabilities.
pub fn device_info(device_id: String, alias: String, os: PeerOs, client_version: String) -> (d:
    DeviceInfo)
    ensures
        d.device_id == device_id,
        d.alias == alias,
        d.os == os,
        d.client_version == client_version,
        d.protocol_version == PROTOCOL_VERSION,
        !d.encrypted,
{
    DeviceInfo { device_id, alias, os, client_version, protocol_version: PROTOCOL_VERSION, encrypted: false }
}

/// Every send resolves its peer first: one that has just left the network
/// gets a clear refusal rather than a connection attempt to a stale address.
pub fn require_peer(found: Option<Peer>) -> (r: Result<Peer, ErrorPayload>)
    ensures
        match found {
            Some(p) => r == Ok::<Peer, ErrorPayload>(p),
            None => r matches Err(e) && exists|m: String|
                m@ == "peer no longer listed"@ && failure_of(TransferError::PeerUnreachable(m), e),
        },
{
    match found {
        Some(p) => Ok(p),
        None => {
            let m = "peer no longer listed".to_owned();
            let ghost mv = m;
            let e = fail(TransferError::PeerUnreachable(m));
            assert(failure_of(TransferError::PeerUnreachable(mv), e));
            Err(e)
        },
    }
}

/// An empty selection is a caller bug, refused before the peer lookup.
pub fn check_selection(paths: &Vec<String>) -> (r: Result<(), ErrorPayload>)
    ensures
        r is Ok <==> paths@.len() > 0,
        r matches Err(e) ==> exists|p: String, d: String|
            p@.len() == 0 && d@ == "no files selected"@ && failure_of(
                TransferError::ReadFailed { path: p, detail: d },
                e,
            ),
{
    if paths.len() == 0 {
        let p = String::new();
        let d = "no files selected".to_owned();
        let ghost (pv, dv) = (p, d);
        let e = fail(TransferError::ReadFailed { path: p, detail: d });
        assert(failure_of(TransferError::ReadFailed { path: pv, detail: dv }, e));
        return Err(e);
    }
    Ok(())
}

/// Whether a snippet goes as a `.txt` file: above the text limit, counted
/// in bytes as the wire counts it.
pub fn snippet_needs_file(text: &str) -> (b: bool)
    ensures
        b == (utf8_len(text@) > MAX_TEXT_BYTES),
{
    str_byte_len(text) as u64 > MAX_TEXT_BYTES
}

/// The staging name of an oversize snippet, timestamped so two cannot
/// collide: `LocalDrop-snippet-<stamp>.txt`.
pub fn snippet_file_name(stamp: u64) -> (n: String)
    ensures
        n@ == "LocalDrop-snippet-"@ + decimal(stamp as nat) + ".txt"@,
{
    let mut n = "LocalDrop-snippet-".to_owned();
    let s = decimal_string(stamp);
    n.append(s.as_str());
    n.append(".txt");
    n
}

/// Which path a text send took: a snippet, or a converted `.txt` file.
pub struct SendTextResult {
    pub id: String,
    pub converted: bool,
}

// ---------------------------------------------------------------------------
// Download folder
// ---------------------------------------------------------------------------

/// The message for a picked folder no filesystem backs.
pub open spec fn unsupported_folder_message() -> Seq<char> {
    "That folder lives in an app like Drive or Dropbox, which LocalDrop can't write to directly. Pick a folder on this device's storage."@
}

/// A picked folder: a `content://` tree URI is mapped onto the storage it
/// names, or refused when nothing backs it (Drive, Dropbox) rather than
/// stored to fail later; a path is taken as is.
pub open spec fn resolved_folder(path: Seq<char>) -> Option<Seq<char>> {
    if has_prefix(path, "content://"@) {
        content_uri_path_of(path, "tree"@)
    } else {
        Some(path)
    }
}

/// Resolve a picked download folder; see `resolved_folder`. A refusal is
/// `ERR_UNSUPPORTED_FOLDER`, telling the user what to pick instead and
/// carrying the URI as detail.
pub fn resolve_download_dir(path: &str) -> (r: Result<String, ErrorPayload>)
    ensures
        match r {
            Ok(p) => resolved_folder(path@) == Some(p@),
            Err(e) => resolved_folder(path@) is None && e.code@ == "ERR_UNSUPPORTED_FOLDER"@
                && e.message@ == unsupported_folder_message() && opt_view(e.detail) == Some(path@),
        },
{
    let is_uri = starts_with_str(path, "content://");
    if is_uri {
        match content_tree_to_path(path) {
            Some(p) => Ok(p),
            None => Err(
                ErrorPayload {
                    code: "ERR_UNSUPPORTED_FOLDER".to_owned(),
                    message: "That folder lives in an app like Drive or Dropbox, which LocalDrop can't write to directly. Pick a folder on this device's storage.".to_owned(),
                    detail: Some(path.to_owned()),
                },
            ),
        }
    } else {
        Ok(path.to_owned())
    }
}

/// The file written to prove a download folder writable.
pub fn probe_path(dir: &str) -> (p: String)
    ensures
        p@ == joined(dir@, ".localdrop-write-test"@),
{
    join_path(dir, ".localdrop-write-test")
}

// ---------------------------------------------------------------------------
// Background listener
// ---------------------------------------------------------------------------

/// State of the background listener, for the Settings UI.
pub struct BackgroundStatus {
    /// Whether the foreground service should be running.
    pub enabled: bool,
    /// Whether the app is exempt from battery optimisation.
    pub battery_unrestricted: bool,
}

/// The listener's status: `enabled` as chosen, and the exemption as the
/// platform reports it.
pub fn background_status(enabled: bool) -> (s: BackgroundStatus)
    ensures
        s.enabled == enabled,
        s.battery_unrestricted,
{
    BackgroundStatus {
        enabled,
        battery_unrestricted: crate::android::is_ignoring_battery_optimizations(),
    }
}

// ---------------------------------------------------------------------------
// Directory browsing
// ---------------------------------------------------------------------------

/// One row in the in-app file browser.
pub struct DirEntryInfo {
    pub name: String,
    pub path: String,
    pub is_dir: bool,
    pub size: u64,
}

/// A browsed directory: its own path, its parent, and its contents.
pub struct DirListing {
    pub path: String,
    pub parent: Option<String>,
    pub entries: Vec<DirEntryInfo>,
}

/// The directory to list: the one asked for, unless absent or blank (an
/// empty string would read as the working directory), then `root`.
pub open spec fn browse_target_of(path: Option<Seq<char>>, root: Seq<char>) -> Seq<char> {
    match path {
        Some(p) => if trim(p).len() > 0 {
            p
        } else {
            root
        },
        None => root,
    }
}

/// `browse_target_of` computed.
pub fn browse_target(path: Option<String>, root: &str) -> (d: String)
    ensures
        d@ == browse_target_of(opt_view(path), root@),
{
    match path {
        Some(p) => {
            let t = trim_vec(&chars_of(p.as_str()));
            if t.len() > 0 {
                p
            } else {
                root.to_owned()
            }
        },
        None => root.to_owned(),
    }
}

/// Where browsing starts on desktop: the home directory, else `/`.
pub fn browse_root(home: Option<String>) -> (r: String)
    ensures
        r@ == match opt_view(home) {
            Some(h) => h,
            None => "/"@,
        },
{
    match home {
        Some(h) => h,
        None => "/".to_owned(),
    }
}

/// Dotfiles are noise in a send picker.
pub fn listed(name: &str) -> (b: bool)
    ensures
        b == !(name@.len() > 0 && name@[0] == '.'),
{
    let v = chars_of(name);
    !(v.len() > 0 && v[0] == '.')
}

/// The wrapped result of `str::to_lowercase`: full Unicode case mapping.
pub uninterp spec fn unicode_lowercase(s: Seq<char>) -> Seq<char>;

/// Calls `str::to_lowercase`. The result is named by `unicode_lowercase`;
/// for ASCII text the standard library documents it as the ASCII lowercase
/// mapping.
#[verifier::external_body]
fn to_lowercase(s: &str) -> (r: String)
    ensures
        r@ == unicode_lowercase(s@),
        (forall|i: int| 0 <= i < s@.len() ==> (#[trigger] s@[i] as u32) < 128) ==> r@
            == lower_ascii_seq(s@),
{
    s.to_lowercase()
}

/// Listing order: directories first, then by lowercased name.
pub open spec fn listed_before(a: DirEntryInfo, b: DirEntryInfo) -> bool {
    (a.is_dir && !b.is_dir) || (a.is_dir == b.is_dir && seq_lt(
        unicode_lowercase(a.name@),
        unicode_lowercase(b.name@),
    ))
}

/// Where a stable insertion puts `x` in a sorted listing: before the first
/// entry it sorts before, after every entry it ties with.
pub open spec fn slot_for(s: Seq<DirEntryInfo>, x: DirEntryInfo) -> int
    decreases s.len(),
{
    if s.len() == 0 {
        0
    } else if listed_before(x, s[0]) {
        0
    } else {
        1 + slot_for(s.drop_first(), x)
    }
}

/// The entries in listing order, equal entries kept in the order they came
/// (`slice::sort_by` is stable).
pub open spec fn listing_order(s: Seq<DirEntryInfo>) -> Seq<DirEntryInfo>
    decreases s.len(),
{
    if s.len() == 0 {
        s
    } else {
        let sorted = listing_order(s.drop_last());
        sorted.insert(slot_for(sorted, s.last()), s.last())
    }
}

fn listed_before_exec(a: &DirEntryInfo, a_key: &Vec<char>, b: &DirEntryInfo, b_key: &Vec<char>) -> (r:
    bool)
    requires
        a_key@ == unicode_lowercase(a.name@),
        b_key@ == unicode_lowercase(b.name@),
    ensures
        r == listed_before(*a, *b),
{
    if a.is_dir != b.is_dir {
        a.is_dir
    } else {
        compare_chars(a_key, b_key) < 0
    }
}

/// Sort a listing; see `listing_order`.
pub fn sort_listing(entries: Vec<DirEntryInfo>) -> (r: Vec<DirEntryInfo>)
    ensures
        r@ == listing_order(entries@),
{
    let mut out: Vec<DirEntryInfo> = Vec::new();
    let mut keys: Vec<Vec<char>> = Vec::new();
    let mut rest = entries;
    let ghost all = rest@;
    let mut taken: usize = 0;
    let n = rest.len();
    assert(all.take(0) == Seq::<DirEntryInfo>::empty());
    assert(all.skip(0) == all);
    while rest.len() > 0
        invariant
            n == all.len(),
            taken + rest@.len() == n,
            rest@ == all.skip(taken as int),
            out@ == listing_order(all.take(taken as int)),
            keys@.len() == out@.len(),
            forall|k: int| 0 <= k < out@.len() ==> #[trigger] keys@[k]@ == unicode_lowercase(
                out@[k].name@,
            ),
        decreases rest@.len(),
    {
        let x = rest.remove(0);
        assert(x == all[taken as int]);
        let x_lower = to_lowercase(x.name.as_str());
        let x_key = chars_of(x_lower.as_str());
        let ghost sorted = out@;
        let mut j: usize = 0;
        assert(sorted.skip(0) == sorted);
        while j < out.len() && !listed_before_exec(&x, &x_key, &out[j], &keys[j])
            invariant
                0 <= j <= out@.len(),
                out@ == sorted,
                keys@.len() == out@.len(),
                x_key@ == unicode_lowercase(x.name@),
                forall|k: int| 0 <= k < out@.len() ==> #[trigger] keys@[k]@ == unicode_lowercase(
                    out@[k].name@,
                ),
                slot_for(sorted, x) == j + slot_for(sorted.skip(j as int), x),
            decreases out@.len() - j,
        {
            assert(sorted.skip(j as int)[0] == sorted[j as int]);
            assert(sorted.skip(j as int).drop_first() == sorted.skip(j + 1));
            j = j + 1;
        }
        proof {
            if j < out.len() {
                assert(sorted.skip(j as int)[0] == sorted[j as int]);
            }
            assert(slot_for(sorted, x) == j);
            assert(all.take(taken + 1).drop_last() == all.take(taken as int));
            assert(all.take(taken + 1).last() == x);
        }
        let ghost keys_before = keys@;
        out.insert(j, x);
        keys.insert(j, x_key);
        proof {
            assert forall|k: int| 0 <= k < out@.len() implies #[trigger] keys@[k]@
                == unicode_lowercase(out@[k].name@) by {
                if k < j {
                    assert(keys@[k] == keys_before[k]);
                    assert(out@[k] == sorted[k]);
                } else if k > j {
                    assert(keys@[k] == keys_before[k - 1]);
                    assert(out@[k] == sorted[k - 1]);
                }
            }
            assert(all.skip(taken + 1) == all.skip(taken as int).drop_first());
        }
        taken = taken + 1;
    }
    assert(all.take(n as int) == all);
    out
}

/// A directory listing from what was read: hidden entries dropped, a
/// directory's size shown as zero, directories first, then by name
/// without regard to case. `raw` holds `(name, path, is_dir, length)`.
pub fn make_listing(dir: &str, raw: Vec<(String, String, bool, u64)>) -> (l: DirListing)
    ensures
        l.path@ == dir@,
        opt_view(l.parent) == parent_of(dir@),
        l.entries@ == listing_order(kept_entries(raw@)),
{
    let mut kept: Vec<DirEntryInfo> = Vec::new();
    let mut i: usize = 0;
    assert(raw@.take(0) == Seq::<(String, String, bool, u64)>::empty());
    while i < raw.len()
        invariant
            0 <= i <= raw.len(),
            kept@ == kept_entries(raw@.take(i as int)),
        decreases raw.len() - i,
    {
        assert(raw@.take(i + 1).drop_last() == raw@.take(i as int));
        assert(raw@.take(i + 1).last() == raw@[i as int]);
        let (name, path, is_dir, len) = &raw[i];
        if listed(name.as_str()) {
            let e = DirEntryInfo {
                name: name.clone(),
                path: path.clone(),
                is_dir: *is_dir,
                size: if *is_dir {
                    0
                } else {
                    *len
                },
            };
            assert(e == entry_of(raw@[i as int]));
            kept.push(e);
        }
        i = i + 1;
    }
    assert(raw@.take(raw.len() as int) == raw@);
    DirListing { path: dir.to_owned(), parent: parent(dir), entries: sort_listing(kept) }
}

/// The row shown for a read entry `(name, path, is_dir, length)`.
pub open spec fn entry_of(r: (String, String, bool, u64)) -> DirEntryInfo {
    DirEntryInfo {
        name: r.0,
        path: r.1,
        is_dir: r.2,
        size: if r.2 {
            0
        } else {
            r.3
        },
    }
}

/// The rows kept from what was read: everything but dotfiles, in order.
pub open spec fn kept_entries(raw: Seq<(String, String, bool, u64)>) -> Seq<DirEntryInfo>
    decreases raw.len(),
{
    if raw.len() == 0 {
        Seq::empty()
    } else {
        let init = kept_entries(raw.drop_last());
        let n = raw.last().0@;
        if n.len() > 0 && n[0] == '.' {
            init
        } else {
            init.push(entry_of(raw.last()))
        }
    }
}

} // verus!
