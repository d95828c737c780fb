//! The decisions of the transfer engine, apart from the sockets and files
//! they steer: classifying what was picked, naming and labelling what is
//! sent, planning where received entries land, choosing the volume whose
//! free space an offer is checked against, and turning each way a transfer
//! can end into its terminal phase, history outcome and error payload.
//!
//! Each non-directory manifest entry is preceded on the wire by one byte:
//! `ENTRY_DATA` when exactly `size` bytes follow, `ENTRY_SKIP` when the
//! sender could not produce the entry and none do.
use vstd::prelude::*;

use crate::error::{opt_view, TransferError, TransferResult};
use crate::paths::{
    content_document_to_path, content_tree_to_path, content_uri_path_of,
    path_starts_with, path_starts_with_str, percent_decode, percent_decoded,
    sanitize_file_name, sanitized_component, last_piece, utf8_bytes, utf8_lossy, chars_eq_str,
};
use crate::protocol::{
    file_bytes, manifest_bytes, ManifestEntry, OfferHeader, PayloadType, MAX_MANIFEST_ENTRIES,
    MAX_TEXT_BYTES, PROTOCOL_VERSION,
};
use crate::paths::{
    ensure_within, extension, extension_of, file_name, file_name_of, join_path, joined,
    organize_dir, organized_dir, rel_path_of, sanitize_rel_path, within,
};
use crate::protocol::{CompletionTrailer, RejectReason, ACK_ACCEPT, CHUNK_SIZE};
use crate::state::{OfferPayload, TransferPhase, TransferSnapshot};
use crate::history::{Direction, Outcome};
use crate::error::ErrorPayload;
use crate::text::{
    ascii_alphanumeric, chars_of, control_char, decimal, decimal_string, is_ascii_alphanumeric,
    is_control_char, lemma_trim_fixed, split_where, str_byte_len, string_from_chars, trim,
    trim_vec, utf8_len, white_space,
};
use crate::settings::MAX_ALIAS_LEN;

verus! {

/// Prelude byte: exactly `size` bytes of the entry follow.
pub const ENTRY_DATA: u8 = 0x01;

/// Prelude byte: the sender could not produce the entry; no bytes follow.
pub const ENTRY_SKIP: u8 = 0x00;

/// What a send carries: picked items, or a text snippet.
pub enum Payload {
    /// Raw strings from the picker or an OS drop: absolute paths on desktop,
    /// `content://` URIs on Android.
    Files(Vec<String>),
    Text(String),
}

/// Where a manifest entry's bytes come from: a filesystem path, or an
/// Android content URI kept as given.
pub enum Source {
    Path(String),
    Uri(String),
}

impl Clone for Source {
    fn clone(&self) -> (r: Self)
        ensures
            r == *self,
    {
        match self {
            Source::Path(p) => Source::Path(p.clone()),
            Source::Uri(u) => Source::Uri(u.clone()),
        }
    }
}

/// A source as `(is_uri, text)`.
pub open spec fn source_view(s: Source) -> (bool, Seq<char>) {
    match s {
        Source::Path(p) => (false, p@),
        Source::Uri(u) => (true, u@),
    }
}

/// The scheme `url::Url::parse` finds in `raw`, or `None` when `raw` does
/// not parse as a URL.
pub uninterp spec fn url_scheme_of(raw: Seq<char>) -> Option<Seq<char>>;

/// Calls `url::Url::parse` and, on success, `Url::scheme`. Parsing follows
/// the WHATWG URL standard, which the name stands for.
#[verifier::external_body]
fn url_scheme(raw: &str) -> (r: Option<String>)
    ensures
        opt_view(r) == url_scheme_of(raw@),
{
    match url::Url::parse(raw) {
        Ok(u) => Some(u.scheme().to_owned()),
        Err(_) => None,
    }
}

/// How one picker string is classified, given the scheme a URL parse found:
/// a URL with a scheme of more than one character (a one-character scheme
/// is a Windows drive letter) maps onto a filesystem path when its provider
/// is filesystem backed, document segment first, and is otherwise kept as a
/// URI; anything else is an ordinary path.
pub open spec fn classified(raw: Seq<char>, scheme: Option<Seq<char>>) -> (bool, Seq<char>) {
    match scheme {
        Some(sc) => if sc.len() > 1 {
            match content_uri_path_of(raw, "document"@) {
                Some(p) => (false, p),
                None => match content_uri_path_of(raw, "tree"@) {
                    Some(p) => (false, p),
                    None => (true, raw),
                },
            }
        } else {
            (false, raw)
        },
        None => (false, raw),
    }
}

/// A URL with a real scheme is kept as a URI only when neither its document
/// segment nor its tree segment maps onto a filesystem path; a picked
/// folder whose tree URI maps onto a path is that path, and so is a picked
/// file whose document URI does. Anything without such a scheme is a path
/// as given.
pub proof fn law_mappable_uris_become_paths(raw: Seq<char>, scheme: Option<Seq<char>>)
    ensures
        classified(raw, scheme).0 ==> (scheme matches Some(sc) && sc.len() > 1
            && content_uri_path_of(raw, "document"@) is None && content_uri_path_of(raw, "tree"@) is None
            && classified(raw, scheme).1 == raw),
        (scheme matches Some(sc) && sc.len() > 1) ==> match content_uri_path_of(raw, "document"@) {
            Some(p) => classified(raw, scheme) == (false, p),
            None => match content_uri_path_of(raw, "tree"@) {
                Some(p) => classified(raw, scheme) == (false, p),
                None => classified(raw, scheme).0,
            },
        },
        !(scheme matches Some(sc) && sc.len() > 1) ==> classified(raw, scheme) == (false, raw),
{
}

impl Source {
    /// Classify `raw` given the URL scheme found in it; see `classified`.
    pub fn classify(raw: &str, scheme: Option<String>) -> (s: Source)
        ensures
            source_view(s) == classified(raw@, opt_view(scheme)),
    {
        match scheme {
            Some(sc) => {
                if sc.as_str().unicode_len() > 1 {
                    match content_document_to_path(raw) {
                        Some(p) => Source::Path(p),
                        None => match content_tree_to_path(raw) {
                            Some(p) => Source::Path(p),
                            None => Source::Uri(raw.to_owned()),
                        },
                    }
                } else {
                    Source::Path(raw.to_owned())
                }
            },
            None => Source::Path(raw.to_owned()),
        }
    }

    /// Classify one picker string as a path or a content URI, preferring a
    /// real path whenever the URI maps onto one.
    pub fn parse(raw: &str) -> (s: Source)
        ensures
            source_view(s) == classified(raw@, url_scheme_of(raw@)),
    {
        let scheme = url_scheme(raw);
        Source::classify(raw, scheme)
    }

    /// The text shown for this source in messages.
    pub fn display(&self) -> (d: String)
        ensures
            d@ == source_view(*self).1,
    {
        match self {
            Source::Path(p) => p.clone(),
            Source::Uri(u) => u.clone(),
        }
    }
}

/// A fresh transfer id, generated locally: a sender-chosen id could collide
/// with or impersonate another transfer's.
pub fn transfer_id() -> (id: String)
    ensures
        crate::settings::uuid_v4_text(id@),
{
    crate::settings::random_uuid_text()
}

/// One manifest entry plus the source its bytes stream from.
pub struct SourceEntry {
    pub manifest: ManifestEntry,
    pub source: Source,
}

// ---------------------------------------------------------------------------
// Labels and names
// ---------------------------------------------------------------------------

/// The first entry that is not a directory.
pub open spec fn first_file(m: Seq<ManifestEntry>) -> Option<ManifestEntry>
    decreases m.len(),
{
    if m.len() == 0 {
        None
    } else if !m[0].is_dir {
        Some(m[0])
    } else {
        first_file(m.drop_first())
    }
}

/// The text after the last `/`: `rsplit('/').next()`.
pub open spec fn after_last_slash(s: Seq<char>) -> Seq<char> {
    split_where(s, |c: char| c == '/').last()
}

/// A human label for a batch: `Text snippet`, or the first file's name
/// (`Files` when there is none), with ` + N more` for the other items.
pub open spec fn describe_of(o: OfferHeader) -> Seq<char> {
    match o.payload_type {
        PayloadType::Text => "Text snippet"@,
        PayloadType::Files => {
            let first = match first_file(o.manifest@) {
                Some(e) => after_last_slash(e.rel_path@),
                None => "Files"@,
            };
            if o.item_count <= 1 {
                first
            } else {
                first + " + "@ + decimal((o.item_count - 1) as nat) + " more"@
            }
        },
    }
}

/// `after_last_slash` computed.
fn tail_after_slash(s: &str) -> (r: String)
    ensures
        r@ == after_last_slash(s@),
{
    let v = chars_of(s);
    let ghost sep = |c: char| c == '/';
    let mut cur: Vec<char> = Vec::new();
    let ghost mut done: Seq<Seq<char>> = Seq::empty();
    assert(v@.take(0) == Seq::<char>::empty());
    for i in 0..v.len()
        invariant
            v@ == s@,
            sep == (|c: char| c == '/'),
            split_where(v@.take(i as int), sep) == done.push(cur@),
    {
        let c = v[i];
        assert(v@.take(i + 1).drop_last() == v@.take(i as int));
        assert(v@.take(i + 1).last() == c);
        if c == '/' {
            proof {
                done = done.push(cur@);
            }
            cur = Vec::new();
        } else {
            cur.push(c);
        }
    }
    assert(v@.take(v.len() as int) == v@);
    string_from_chars(cur.as_slice())
}

/// A human label for the batch, used in history and notifications.
pub fn describe(offer: &OfferHeader) -> (d: String)
    ensures
        d@ == describe_of(*offer),
{
    match offer.payload_type {
        PayloadType::Text => "Text snippet".to_owned(),
        PayloadType::Files => {
            let mut first: Option<String> = None;
            let mut i: usize = 0;
            assert(offer.manifest@.skip(0) == offer.manifest@);
            while i < offer.manifest.len() && first.is_none()
                invariant
                    0 <= i <= offer.manifest.len(),
                    match first {
                        None => first_file(offer.manifest@) == first_file(
                            offer.manifest@.skip(i as int),
                        ),
                        Some(f) => first_file(offer.manifest@) matches Some(e) && f@
                            == after_last_slash(e.rel_path@),
                    },
                decreases offer.manifest.len() - i,
            {
                let ghost rest = offer.manifest@.skip(i as int);
                assert(rest[0] == offer.manifest@[i as int]);
                if !offer.manifest[i].is_dir {
                    first = Some(tail_after_slash(offer.manifest[i].rel_path.as_str()));
                } else {
                    assert(rest.drop_first() == offer.manifest@.skip(i + 1));
                }
                i = i + 1;
            }
            proof {
                if first is None {
                    assert(offer.manifest@.skip(i as int).len() == 0);
                }
            }
            let first = match first {
                Some(f) => f,
                None => "Files".to_owned(),
            };
            let ghost expected = match first_file(offer.manifest@) {
                Some(e) => after_last_slash(e.rel_path@),
                None => "Files"@,
            };
            assert(first@ == expected);
            if offer.item_count <= 1 {
                first
            } else {
                let mut label = first;
                label.append(" + ");
                let more: usize = offer.item_count - 1;
                assert(more as u64 as nat == (offer.item_count - 1) as nat);
                let n = decimal_string(more as u64);
                label.append(n.as_str());
                label.append(" more");
                label
            }
        },
    }
}

/// Whether a decoded URI tail looks like a filename rather than a provider
/// id: it has a dot, no colon, and its extension is 1 to 8 bytes of ASCII
/// letters and digits.
pub open spec fn looks_like_name(d: Seq<char>) -> bool {
    let ext = split_where(d, |c: char| c == '.').last();
    &&& d.contains('.')
    &&& !d.contains(':')
    &&& ext.len() > 0
    &&& utf8_len(ext) <= 8
    &&& forall|i: int| 0 <= i < ext.len() ==> ascii_alphanumeric(#[trigger] ext[i])
}

/// The extension given to a nameless media-provider item by its kind.
pub open spec fn kind_extension(kind: Seq<char>) -> Seq<char> {
    if kind == "image"@ {
        ".jpg"@
    } else if kind == "video"@ {
        ".mp4"@
    } else if kind == "audio"@ {
        ".m4a"@
    } else {
        Seq::empty()
    }
}

/// The URI's last segment, percent-decoded.
pub open spec fn uri_tail_decoded(uri: Seq<char>) -> Seq<char> {
    utf8_lossy(percent_decoded(utf8_bytes(after_last_slash(uri))))
}

/// Best-effort filename for a content URI that no provider names: the
/// decoded last segment when it looks like a sanitizable filename, else
/// `shared-<now><ext>` with an extension by media kind.
pub open spec fn uri_file_name_of(uri: Seq<char>, now: u64) -> Seq<char> {
    let decoded = uri_tail_decoded(uri);
    let named = if looks_like_name(decoded) {
        sanitized_component(last_piece(decoded))
    } else {
        None
    };
    match named {
        Some(n) => n,
        None => "shared-"@ + decimal(now as nat) + kind_extension(
            split_where(decoded, |c: char| c == ':')[0],
        ),
    }
}

fn contains_char(v: &Vec<char>, c: char) -> (b: bool)
    ensures
        b == v@.contains(c),
{
    let mut i: usize = 0;
    while i < v.len()
        invariant
            0 <= i <= v.len(),
            forall|j: int| 0 <= j < i ==> v@[j] != c,
        decreases v.len() - i,
    {
        if v[i] == c {
            assert(v@[i as int] == c);
            return true;
        }
        i = i + 1;
    }
    false
}

/// The pieces of `v` split at `sep`, with the first and last piece.
fn first_and_last_piece(v: &Vec<char>, sep: char) -> (r: (Vec<char>, Vec<char>))
    ensures
        r.0@ == split_where(v@, |c: char| c == sep)[0],
        r.1@ == split_where(v@, |c: char| c == sep).last(),
{
    let ghost p = |c: char| c == sep;
    let mut first: Vec<char> = Vec::new();
    let mut seen_sep = false;
    let mut cur: Vec<char> = Vec::new();
    let ghost mut done: Seq<Seq<char>> = Seq::empty();
    assert(v@.take(0) == Seq::<char>::empty());
    for i in 0..v.len()
        invariant
            p == (|c: char| c == sep),
            split_where(v@.take(i as int), p) == done.push(cur@),
            seen_sep <==> done.len() > 0,
            seen_sep ==> first@ == done[0],
    {
        let c = v[i];
        assert(v@.take(i + 1).drop_last() == v@.take(i as int));
        assert(v@.take(i + 1).last() == c);
        if c == sep {
            if !seen_sep {
                first = cur.clone();
                assert(first@ == cur@);
                seen_sep = true;
            }
            proof {
                done = done.push(cur@);
            }
            cur = Vec::new();
        } else {
            cur.push(c);
        }
    }
    assert(v@.take(v.len() as int) == v@);
    if !seen_sep {
        first = cur.clone();
    }
    (first, cur)
}

/// Best-effort filename for an Android content URI, which carries no
/// filename of its own: the provider's display name when it gives one,
/// else a name salvaged from the last segment, else a timestamped generic
/// name. `now` is the current time in Unix milliseconds.
pub fn uri_file_name(uri: &str, now: u64) -> (r: String)
    ensures
        r@ == uri_file_name_of(uri@, now),
{
    if let Some(name) = crate::android::display_name(uri) {
        if let Some(sanitized) = sanitize_file_name(name.as_str()) {
            return sanitized;
        }
    }
    let tail = tail_after_slash(uri);
    let decoded = percent_decode(tail.as_str());
    let dv = chars_of(decoded.as_str());
    let (_, ext) = first_and_last_piece(&dv, '.');
    let ext_text = string_from_chars(ext.as_slice());
    let mut all_alnum = true;
    let mut i: usize = 0;
    while i < ext.len()
        invariant
            0 <= i <= ext.len(),
            all_alnum <==> forall|j: int| 0 <= j < i ==> ascii_alphanumeric(#[trigger] ext@[j]),
        decreases ext.len() - i,
    {
        if !is_ascii_alphanumeric(ext[i]) {
            all_alnum = false;
        }
        i = i + 1;
    }
    let looks = contains_char(&dv, '.') && !contains_char(&dv, ':') && ext.len() > 0
        && str_byte_len(ext_text.as_str()) <= 8 && all_alnum;
    assert(decoded@ == uri_tail_decoded(uri@));
    assert(looks == looks_like_name(decoded@));
    if looks {
        if let Some(sanitized) = sanitize_file_name(decoded.as_str()) {
            return sanitized;
        }
    }
    let (kind, _) = first_and_last_piece(&dv, ':');
    let mut name = "shared-".to_owned();
    let stamp = decimal_string(now);
    name.append(stamp.as_str());
    if chars_eq_str(&kind, "image") {
        name.append(".jpg");
    } else if chars_eq_str(&kind, "video") {
        name.append(".mp4");
    } else if chars_eq_str(&kind, "audio") {
        name.append(".m4a");
    }
    assert(name@ == "shared-"@ + decimal(now as nat) + kind_extension(kind@));
    name
}

// ---------------------------------------------------------------------------
// Remote alias
// ---------------------------------------------------------------------------

/// The first `n` items, or all of them when there are fewer.
pub open spec fn at_most<A>(s: Seq<A>, n: nat) -> Seq<A> {
    if s.len() <= n {
        s
    } else {
        s.take(n as int)
    }
}

/// `s` with its control characters removed.
pub open spec fn without_controls(s: Seq<char>) -> Seq<char>
    decreases s.len(),
{
    if s.len() == 0 {
        s
    } else if control_char(s.last()) {
        without_controls(s.drop_last())
    } else {
        without_controls(s.drop_last()).push(s.last())
    }
}

/// A remote alias as shown: control characters stripped, cut to 32
/// characters, trimmed, and the peer's address when nothing is left.
pub open spec fn alias_shown(raw: Seq<char>, peer_ip: Seq<char>) -> Seq<char> {
    let t = trim(at_most(without_controls(raw), MAX_ALIAS_LEN as nat));
    if t.len() == 0 {
        peer_ip
    } else {
        t
    }
}

/// A remote alias is untrusted display data: strip control characters and
/// cap the length so it cannot deface the UI, falling back to the address
/// it came from (`peer_ip`, as text).
pub fn sanitize_alias(raw: &str, peer_ip: &str) -> (r: String)
    ensures
        r@ == alias_shown(raw@, peer_ip@),
{
    let v = chars_of(raw);
    let mut cleaned: Vec<char> = Vec::new();
    let mut i: usize = 0;
    assert(v@.take(0) == Seq::<char>::empty());
    while i < v.len()
        invariant
            0 <= i <= v.len(),
            v@ == raw@,
            cleaned@ == at_most(without_controls(v@.take(i as int)), MAX_ALIAS_LEN as nat),
        decreases v.len() - i,
    {
        let ghost f = without_controls(v@.take(i as int));
        assert(v@.take(i + 1).drop_last() == v@.take(i as int));
        assert(v@.take(i + 1).last() == v@[i as int]);
        let c = v[i];
        if !is_control_char(c) {
            assert(without_controls(v@.take(i + 1)) == f.push(c));
            if cleaned.len() < MAX_ALIAS_LEN {
                cleaned.push(c);
            } else {
                assert(f.push(c).take(MAX_ALIAS_LEN as int) == f.take(MAX_ALIAS_LEN as int));
            }
        } else {
            assert(without_controls(v@.take(i + 1)) == f);
        }
        i = i + 1;
    }
    assert(v@.take(v.len() as int) == v@);
    let t = trim_vec(&cleaned);
    if t.len() == 0 {
        peer_ip.to_owned()
    } else {
        string_from_chars(t.as_slice())
    }
}

/// Only control characters are removed: what is left is the raw alias with
/// exactly its control characters filtered out, in order.
pub proof fn law_only_controls_are_stripped(s: Seq<char>)
    ensures
        without_controls(s) == s.filter(|c: char| !control_char(c)),
    decreases s.len(),
{
    reveal(Seq::filter);
    if s.len() > 0 {
        law_only_controls_are_stripped(s.drop_last());
    }
}

/// An alias that is already fit to show (1 to 32 characters, no control
/// characters, no whitespace at either end) is shown exactly as the peer
/// sent it, spaces inside included.
pub proof fn law_clean_alias_is_shown_as_sent(raw: Seq<char>, peer_ip: Seq<char>)
    requires
        0 < raw.len() <= MAX_ALIAS_LEN,
        forall|i: int| 0 <= i < raw.len() ==> !control_char(#[trigger] raw[i]),
        !white_space(raw[0]),
        !white_space(raw.last()),
    ensures
        alias_shown(raw, peer_ip) == raw,
{
    lemma_no_controls_kept(raw);
    lemma_trim_fixed(raw);
}

/// What is shown is either the peer's address (nothing usable was sent) or
/// 1 to 32 characters, none of them control characters, with no whitespace
/// at either end.
pub proof fn law_shown_alias_is_bounded(raw: Seq<char>, peer_ip: Seq<char>)
    ensures
        alias_shown(raw, peer_ip) == peer_ip || ({
            let a = alias_shown(raw, peer_ip);
            &&& 0 < a.len() <= MAX_ALIAS_LEN
            &&& !white_space(a[0]) && !white_space(a.last())
            &&& forall|i: int| 0 <= i < a.len() ==> !control_char(#[trigger] a[i])
        }),
{
    let f = without_controls(raw);
    lemma_controls_gone(raw);
    let c = at_most(f, MAX_ALIAS_LEN as nat);
    crate::text::lemma_trim_start_skip(c);
    crate::text::lemma_trim_end_take(crate::text::trim_start(c));
    crate::text::lemma_trim_shape(c);
    let t = trim(c);
    if t.len() > 0 {
        let k = crate::text::leading_ws(c);
        let st = crate::text::trim_start(c);
        assert forall|i: int| 0 <= i < t.len() implies !control_char(#[trigger] t[i]) by {
            assert(t[i] == st[i]);
            assert(st[i] == c[i + k]);
            assert(c[i + k] == f[i + k]);
        }
    }
}

proof fn lemma_controls_gone(s: Seq<char>)
    ensures
        without_controls(s).len() <= s.len(),
        forall|i: int| 0 <= i < without_controls(s).len() ==> !control_char(
            #[trigger] without_controls(s)[i],
        ),
    decreases s.len(),
{
    if s.len() > 0 {
        lemma_controls_gone(s.drop_last());
        let w = without_controls(s.drop_last());
        assert forall|i: int| 0 <= i < without_controls(s).len() implies !control_char(
            #[trigger] without_controls(s)[i],
        ) by {
            if i < w.len() {
                assert(without_controls(s)[i] == w[i]);
            }
        }
    }
}

proof fn lemma_no_controls_kept(s: Seq<char>)
    requires
        forall|i: int| 0 <= i < s.len() ==> !control_char(#[trigger] s[i]),
    ensures
        without_controls(s) == s,
    decreases s.len(),
{
    if s.len() > 0 {
        assert forall|i: int| 0 <= i < s.drop_last().len() implies !control_char(
            #[trigger] s.drop_last()[i],
        ) by {
            assert(s.drop_last()[i] == s[i]);
        }
        lemma_no_controls_kept(s.drop_last());
        assert(!control_char(s[s.len() - 1]));
        assert(s.drop_last().push(s.last()) == s);
    }
}

// ---------------------------------------------------------------------------
// Free space
// ---------------------------------------------------------------------------

/// The volume holding `path`: among the mount points `path` starts with,
/// the longest (by bytes), the last of equals winning, as
/// `Iterator::max_by_key` picks. Its `(mount length, available bytes)`.
pub open spec fn best_volume(path: Seq<char>, disks: Seq<(String, u64)>) -> Option<(nat, u64)>
    decreases disks.len(),
{
    if disks.len() == 0 {
        None
    } else {
        let prev = best_volume(path, disks.drop_last());
        let (m, a) = disks.last();
        if path_starts_with(path, m@) {
            match prev {
                Some((k, _)) => if utf8_len(m@) < k {
                    prev
                } else {
                    Some((utf8_len(m@), a))
                },
                None => Some((utf8_len(m@), a)),
            }
        } else {
            prev
        }
    }
}

/// Free space on the volume holding `path`, if any listed volume holds it.
pub open spec fn space_on(path: Seq<char>, disks: Seq<(String, u64)>) -> Option<u64> {
    match best_volume(path, disks) {
        Some((_, a)) => Some(a),
        None => None,
    }
}

/// Free space on the volume holding `path`, given each mounted volume as
/// `(mount point, available bytes)`; `None` when no mount point holds it.
pub fn space_on_disks(path: &str, disks: &Vec<(String, u64)>) -> (r: Option<u64>)
    ensures
        r == space_on(path@, disks@),
{
    let mut best: Option<(usize, u64)> = None;
    let mut i: usize = 0;
    assert(disks@.take(0) == Seq::<(String, u64)>::empty());
    while i < disks.len()
        invariant
            0 <= i <= disks.len(),
            match best {
                Some((k, a)) => best_volume(path@, disks@.take(i as int)) == Some((k as nat, a)),
                None => best_volume(path@, disks@.take(i as int)) is None,
            },
        decreases disks.len() - i,
    {
        assert(disks@.take(i + 1).drop_last() == disks@.take(i as int));
        assert(disks@.take(i + 1).last() == disks@[i as int]);
        let m = &disks[i].0;
        if path_starts_with_str(path, m.as_str()) {
            let k = str_byte_len(m.as_str());
            match best {
                Some((bk, _)) => {
                    if k >= bk {
                        best = Some((k, disks[i].1));
                    }
                },
                None => {
                    best = Some((k, disks[i].1));
                },
            }
        }
        i = i + 1;
    }
    assert(disks@.take(disks.len() as int) == disks@);
    match best {
        Some((_, a)) => Some(a),
        None => None,
    }
}

/// Every mounted volume as `(mount point, available bytes)`.
///
/// Calls `sysinfo::Disks::new_with_refreshed_list` and reads each disk's
/// `mount_point` (converted lossily to text) and `available_space`; an
/// error listing the disks gives an empty list. What is mounted depends on
/// the machine, so nothing is stated of the result.
#[verifier::external_body]
fn mounted_volumes() -> (r: Vec<(String, u64)>) {
    match sysinfo::Disks::new_with_refreshed_list() {
        Ok(disks) => disks
            .iter()
            .map(|d| (d.mount_point().to_string_lossy().into_owned(), d.available_space()))
            .collect(),
        Err(_) => Vec::new(),
    }
}

/// Free space on the volume holding `path`, measured now. `None` when no
/// mounted volume holds it; the caller then permits the transfer rather
/// than blocking on an unknown.
pub fn available_space(path: &str) -> (r: Option<u64>)
    ensures
        exists|disks: Seq<(String, u64)>| r == space_on(path@, disks),
{
    let disks = mounted_volumes();
    space_on_disks(path, &disks)
}

/// The volume chosen for `path` is the longest mount point that holds it:
/// no space is reported exactly when no listed mount point is a prefix of
/// `path`, and otherwise the space reported is that of a mount point that
/// holds `path` and is at least as long (in bytes) as every other one that
/// does, wherever it stands in the list.
pub proof fn law_longest_mount_wins(path: Seq<char>, disks: Seq<(String, u64)>)
    ensures
        space_on(path, disks) is None <==> forall|j: int|
            0 <= j < disks.len() ==> !path_starts_with(path, (#[trigger] disks[j]).0@),
        space_on(path, disks) matches Some(a) ==> exists|k: int|
            0 <= k < disks.len() && (#[trigger] disks[k]).1 == a && path_starts_with(path, disks[k].0@)
                && forall|j: int|
                0 <= j < disks.len() && path_starts_with(path, (#[trigger] disks[j]).0@) ==> utf8_len(
                    disks[j].0@,
                ) <= utf8_len(disks[k].0@),
{
    lemma_best_volume(path, disks);
}

proof fn lemma_best_volume(path: Seq<char>, disks: Seq<(String, u64)>)
    ensures
        best_volume(path, disks) is None <==> forall|j: int|
            0 <= j < disks.len() ==> !path_starts_with(path, (#[trigger] disks[j]).0@),
        best_volume(path, disks) matches Some((n, a)) ==> exists|k: int|
            0 <= k < disks.len() && (#[trigger] disks[k]).1 == a && path_starts_with(path, disks[k].0@)
                && utf8_len(disks[k].0@) == n && forall|j: int|
                0 <= j < disks.len() && path_starts_with(path, (#[trigger] disks[j]).0@) ==> utf8_len(
                    disks[j].0@,
                ) <= n,
    decreases disks.len(),
{
    if disks.len() > 0 {
        let init = disks.drop_last();
        lemma_best_volume(path, init);
        let last = disks.len() - 1;
        assert forall|j: int| 0 <= j < init.len() implies #[trigger] init[j] == disks[j] by {}
        let prev = best_volume(path, init);
        if best_volume(path, disks) is None {
            assert forall|j: int| 0 <= j < disks.len() implies !path_starts_with(
                path,
                (#[trigger] disks[j]).0@,
            ) by {
                if j < last {
                    assert(init[j] == disks[j]);
                }
            }
        } else {
            if path_starts_with(path, disks[last].0@) {
            } else {
                assert(prev is Some);
            }
        }
        if let Some((n, a)) = best_volume(path, disks) {
            let m = disks[last].0;
            if path_starts_with(path, m@) && (prev is None || utf8_len(m@) >= prev->Some_0.0) {
                assert forall|j: int|
                    0 <= j < disks.len() && path_starts_with(path, (#[trigger] disks[j]).0@) implies utf8_len(
                    disks[j].0@,
                ) <= n by {
                    if j < last {
                        assert(init[j] == disks[j]);
                        if prev is None {
                            assert(!path_starts_with(path, init[j].0@));
                        }
                    }
                }
                assert(disks[last].1 == a);
            } else {
                assert(prev == Some((n, a)));
                let k = choose|k: int|
                    0 <= k < init.len() && (#[trigger] init[k]).1 == a && path_starts_with(
                        path,
                        init[k].0@,
                    ) && utf8_len(init[k].0@) == n && forall|j: int|
                        0 <= j < init.len() && path_starts_with(path, (#[trigger] init[j]).0@)
                            ==> utf8_len(init[j].0@) <= n;
                assert(disks[k] == init[k]);
                assert forall|j: int|
                    0 <= j < disks.len() && path_starts_with(path, (#[trigger] disks[j]).0@) implies utf8_len(
                    disks[j].0@,
                ) <= n by {
                    if j < last {
                        assert(init[j] == disks[j]);
                    }
                }
            }
        }
    }
}

// ---------------------------------------------------------------------------
// Building an offer
// ---------------------------------------------------------------------------

/// Whether `e` is the manifest entry `(rel, size, is_dir)`.
pub open spec fn entry_is(e: ManifestEntry, rel: Seq<char>, size: u64, is_dir: bool) -> bool {
    e.rel_path@ == rel && e.size == size && e.is_dir == is_dir
}

/// The number of entries that are files, not directories.
pub open spec fn file_count(m: Seq<ManifestEntry>) -> nat
    decreases m.len(),
{
    if m.len() == 0 {
        0
    } else {
        file_count(m.drop_last()) + if m.last().is_dir {
            0nat
        } else {
            1nat
        }
    }
}

/// The offer for a text snippet: at most 1 MB of UTF-8, one item, no
/// manifest. Anything larger fails locally rather than sending a header the
/// receiver would refuse.
pub open spec fn text_offer_ok(o: OfferHeader, alias: Seq<char>, device_id: Seq<char>, text: Seq<char>) -> bool {
    &&& o.protocol_version == PROTOCOL_VERSION
    &&& o.payload_type == PayloadType::Text
    &&& o.sender_alias@ == alias
    &&& o.sender_device_id@ == device_id
    &&& o.total_size == utf8_len(text)
    &&& o.item_count == 1
    &&& o.manifest@.len() == 0
}

/// The offer header for a text snippet from this device.
pub fn build_text_offer(alias: &str, device_id: &str, text: &str) -> (r: TransferResult<
    (OfferHeader, Vec<SourceEntry>, Vec<String>),
>)
    ensures
        match r {
            Ok((o, entries, skipped)) => utf8_len(text@) <= MAX_TEXT_BYTES && text_offer_ok(
                o,
                alias@,
                device_id@,
                text@,
            ) && entries@.len() == 0 && skipped@.len() == 0,
            Err(e) => utf8_len(text@) > MAX_TEXT_BYTES && e is MalformedPayload,
        },
{
    let bytes = str_byte_len(text);
    if bytes as u64 > MAX_TEXT_BYTES {
        return Err(TransferError::MalformedPayload);
    }
    Ok(
        (
            OfferHeader {
                protocol_version: PROTOCOL_VERSION,
                payload_type: PayloadType::Text,
                sender_alias: alias.to_owned(),
                sender_device_id: device_id.to_owned(),
                total_size: bytes as u64,
                item_count: 1,
                manifest: Vec::new(),
            },
            Vec::new(),
            Vec::new(),
        ),
    )
}

/// How a walked directory entry presents itself.
#[derive(Clone, Copy, PartialEq, Eq, Structural, Debug)]
pub enum WalkKind {
    Symlink,
    Dir,
    File,
}

/// `s` with every `\` turned into `/`.
pub open spec fn forward_slashes(s: Seq<char>) -> Seq<char> {
    s.map_values(|c: char| if c == '\\' { '/' } else { c })
}

/// The wire path of an entry found at `rel` under a dropped folder named
/// `base_name`: nested under that name, separators normalised to `/`.
pub open spec fn walk_rel_path_of(base_name: Seq<char>, rel: Seq<char>) -> Seq<char> {
    forward_slashes(joined(base_name, rel))
}

/// `walk_rel_path_of` computed.
pub fn walk_rel_path(base_name: &str, rel: &str) -> (r: String)
    ensures
        r@ == walk_rel_path_of(base_name@, rel@),
{
    let j = join_path(base_name, rel);
    let v = chars_of(j.as_str());
    let mut out: Vec<char> = Vec::new();
    let mut i: usize = 0;
    while i < v.len()
        invariant
            0 <= i <= v.len(),
            v@ == j@,
            out@ == forward_slashes(v@.take(i as int)),
        decreases v.len() - i,
    {
        let c = if v[i] == '\\' {
            '/'
        } else {
            v[i]
        };
        out.push(c);
        assert(forward_slashes(v@.take(i + 1)) == forward_slashes(v@.take(i as int)).push(c));
        i = i + 1;
    }
    assert(v@.take(v.len() as int) == v@);
    string_from_chars(out.as_slice())
}

/// The name a dropped folder's entries are nested under: its own name, or
/// `folder` when it has none.
pub open spec fn walk_base_name_of(root: Seq<char>) -> Seq<char> {
    match file_name_of(root) {
        Some(n) => n,
        None => "folder"@,
    }
}

/// `walk_base_name_of` computed.
pub fn walk_base_name(root: &str) -> (r: String)
    ensures
        r@ == walk_base_name_of(root@),
{
    match file_name(root) {
        Some(n) => n,
        None => "folder".to_owned(),
    }
}

/// A file offer in the making: the entries found so far, each with its
/// source, and the names of what was skipped (symlinks are never followed).
pub struct OfferDraft {
    entries: Vec<SourceEntry>,
    skipped: Vec<String>,
}

impl OfferDraft {
    /// The manifest so far.
    pub closed spec fn manifest(&self) -> Seq<ManifestEntry> {
        self.entries@.map_values(|e: SourceEntry| e.manifest)
    }

    /// Where each entry's bytes come from, as `(is_uri, text)`.
    pub closed spec fn sources(&self) -> Seq<(bool, Seq<char>)> {
        self.entries@.map_values(|e: SourceEntry| source_view(e.source))
    }

    /// What was skipped so far.
    pub closed spec fn skips(&self) -> Seq<Seq<char>> {
        self.skipped@.map_values(|s: String| s@)
    }

    pub fn new() -> (d: Self)
        ensures
            d.manifest().len() == 0,
            d.sources().len() == 0,
            d.skips().len() == 0,
    {
        OfferDraft { entries: Vec::new(), skipped: Vec::new() }
    }

    /// The number of entries so far.
    pub fn len(&self) -> (n: usize)
        ensures
            n == self.manifest().len(),
    {
        self.entries.len()
    }

    fn push_entry(&mut self, rel_path: String, size: u64, is_dir: bool, source: Source)
        ensures
            final(self).manifest().len() == old(self).manifest().len() + 1,
            final(self).manifest().drop_last() == old(self).manifest(),
            entry_is(final(self).manifest().last(), rel_path@, size, is_dir),
            final(self).sources() == old(self).sources().push(source_view(source)),
            final(self).skips() == old(self).skips(),
    {
        let ghost rp = rel_path@;
        self.entries.push(
            SourceEntry { manifest: ManifestEntry { rel_path, size, is_dir }, source },
        );
        assert(self.manifest().drop_last() == old(self).manifest());
        assert(self.sources() == old(self).sources().push(source_view(source)));
    }

    fn push_skip(&mut self, name: String)
        ensures
            final(self).manifest() == old(self).manifest(),
            final(self).sources() == old(self).sources(),
            final(self).skips() == old(self).skips().push(name@),
    {
        self.skipped.push(name);
        assert(self.skips() == old(self).skips().push(name@));
    }

    /// A content URI: no path to stat, so the size comes from the opened
    /// descriptor (`size`, zero when the provider will not say), and the
    /// name from `uri_file_name` at time `now`.
    pub fn add_uri(&mut self, uri: &str, size: u64, now: u64)
        ensures
            final(self).manifest().drop_last() == old(self).manifest(),
            entry_is(final(self).manifest().last(), uri_file_name_of(uri@, now), size, false),
            final(self).manifest().len() == old(self).manifest().len() + 1,
            final(self).sources() == old(self).sources().push((true, uri@)),
            final(self).skips() == old(self).skips(),
    {
        let name = uri_file_name(uri, now);
        self.push_entry(name, size, false, Source::Uri(uri.to_owned()));
    }

    /// A picked symlink: skipped, recorded by its name.
    pub fn add_root_symlink(&mut self, root: &str)
        ensures
            final(self).manifest() == old(self).manifest(),
            final(self).sources() == old(self).sources(),
            final(self).skips() == old(self).skips().push(
                match file_name_of(root@) {
                    Some(n) => n,
                    None => Seq::empty(),
                },
            ),
    {
        let name = match file_name(root) {
            Some(n) => n,
            None => String::new(),
        };
        self.push_skip(name);
    }

    /// A picked file of `size` bytes, sent under its own name (`file` when
    /// it has none).
    pub fn add_root_file(&mut self, root: &str, size: u64)
        ensures
            final(self).manifest().drop_last() == old(self).manifest(),
            final(self).manifest().len() == old(self).manifest().len() + 1,
            entry_is(
                final(self).manifest().last(),
                match file_name_of(root@) {
                    Some(n) => n,
                    None => "file"@,
                },
                size,
                false,
            ),
            final(self).sources() == old(self).sources().push((false, root@)),
            final(self).skips() == old(self).skips(),
    {
        let name = match file_name(root) {
            Some(n) => n,
            None => "file".to_owned(),
        };
        self.push_entry(name, size, false, Source::Path(root.to_owned()));
    }

    /// One entry met while walking a dropped folder named `base_name`: at
    /// `rel` under it, at `path` on disk. A symlink is skipped and reported;
    /// a directory or a file of `size` bytes is added. Returns whether the
    /// entry counts as content of the folder, and fails once the manifest
    /// grows past its cap, so a runaway tree is not enumerated into memory.
    pub fn walk_entry(&mut self, base_name: &str, rel: &str, path: &str, kind: WalkKind, size: u64) -> (r:
        TransferResult<bool>)
        ensures
            kind == WalkKind::Symlink ==> {
                &&& r == Ok::<bool, TransferError>(false)
                &&& final(self).manifest() == old(self).manifest()
                &&& final(self).sources() == old(self).sources()
                &&& final(self).skips() == old(self).skips().push(walk_rel_path_of(base_name@, rel@))
            },
            kind != WalkKind::Symlink ==> {
                &&& final(self).manifest().drop_last() == old(self).manifest()
                &&& final(self).manifest().len() == old(self).manifest().len() + 1
                &&& entry_is(
                    final(self).manifest().last(),
                    walk_rel_path_of(base_name@, rel@),
                    if kind == WalkKind::Dir {
                        0
                    } else {
                        size
                    },
                    kind == WalkKind::Dir,
                )
                &&& final(self).sources() == old(self).sources().push((false, path@))
                &&& final(self).skips() == old(self).skips()
                &&& match r {
                    Ok(b) => b && final(self).manifest().len() <= MAX_MANIFEST_ENTRIES,
                    Err(e) => e is MalformedPayload && final(self).manifest().len()
                        > MAX_MANIFEST_ENTRIES,
                }
            },
    {
        let rel_path = walk_rel_path(base_name, rel);
        match kind {
            WalkKind::Symlink => {
                self.push_skip(rel_path);
                return Ok(false);
            },
            WalkKind::Dir => {
                self.push_entry(rel_path, 0, true, Source::Path(path.to_owned()));
            },
            WalkKind::File => {
                self.push_entry(rel_path, size, false, Source::Path(path.to_owned()));
            },
        }
        if self.entries.len() > MAX_MANIFEST_ENTRIES {
            return Err(TransferError::MalformedPayload);
        }
        Ok(true)
    }

    /// After walking the folder at `root`: a folder with no content of its
    /// own still arrives, as an empty directory entry under its name.
    pub fn finish_walk(&mut self, base_name: &str, root: &str, saw_child: bool)
        ensures
            saw_child ==> *final(self) == *old(self),
            !saw_child ==> {
                &&& final(self).manifest().drop_last() == old(self).manifest()
                &&& final(self).manifest().len() == old(self).manifest().len() + 1
                &&& entry_is(final(self).manifest().last(), base_name@, 0, true)
                &&& final(self).sources() == old(self).sources().push((false, root@))
                &&& final(self).skips() == old(self).skips()
            },
    {
        if !saw_child {
            self.push_entry(base_name.to_owned(), 0, true, Source::Path(root.to_owned()));
        }
    }

    /// The bytes the files found so far declare, or `None` when the sum
    /// does not fit in a `u64`.
    pub fn declared_bytes(&self) -> (r: Option<u64>)
        ensures
            match r {
                Some(n) => n == file_bytes(self.manifest()),
                None => file_bytes(self.manifest()) > u64::MAX,
            },
    {
        let m = self.manifest_vec();
        manifest_bytes(&m)
    }

    fn manifest_vec(&self) -> (m: Vec<ManifestEntry>)
        ensures
            m@ == self.manifest(),
    {
        let mut m: Vec<ManifestEntry> = Vec::new();
        let mut i: usize = 0;
        while i < self.entries.len()
            invariant
                0 <= i <= self.entries.len(),
                m@ == self.manifest().take(i as int),
            decreases self.entries.len() - i,
        {
            let e = self.entries[i].manifest.clone();
            m.push(e);
            assert(self.manifest().take(i + 1) == self.manifest().take(i as int).push(e));
            i = i + 1;
        }
        assert(self.manifest().take(self.entries.len() as int) == self.manifest());
        m
    }

    /// Close the draft into an offer from `alias` / `device_id`. An empty
    /// manifest (a folder of nothing but symlinks) fails as a read of the
    /// first picked item with "nothing to send"; one past the cap fails as
    /// malformed, as does one whose file sizes add up past `u64::MAX`, so
    /// this device never sends a header a peer would refuse. The total and
    /// the item count cover files only.
    pub fn finish(self, alias: &str, device_id: &str, first_root: Option<&str>) -> (r: TransferResult<
        (OfferHeader, Vec<SourceEntry>, Vec<String>),
    >)
        ensures
            match r {
                Ok((o, entries, skipped)) => {
                    &&& 0 < self.manifest().len() <= MAX_MANIFEST_ENTRIES
                    &&& file_bytes(self.manifest()) <= u64::MAX
                    &&& o.protocol_version == PROTOCOL_VERSION
                    &&& o.payload_type == PayloadType::Files
                    &&& o.sender_alias@ == alias@
                    &&& o.sender_device_id@ == device_id@
                    &&& o.total_size == file_bytes(self.manifest())
                    &&& o.item_count == file_count(self.manifest())
                    &&& o.manifest@ == self.manifest()
                    &&& entries@.map_values(|e: SourceEntry| e.manifest) == self.manifest()
                    &&& entries@.map_values(|e: SourceEntry| source_view(e.source)) == self.sources()
                    &&& skipped@.map_values(|s: String| s@) == self.skips()
                },
                Err(e) => if self.manifest().len() == 0 {
                    e matches TransferError::ReadFailed { path, detail } && path@ == (match first_root {
                        Some(p) => p@,
                        None => Seq::empty(),
                    }) && detail@ == "nothing to send"@
                } else {
                    (self.manifest().len() > MAX_MANIFEST_ENTRIES || file_bytes(self.manifest())
                        > u64::MAX) && e is MalformedPayload
                },
            },
    {
        if self.entries.len() == 0 {
            let path = match first_root {
                Some(p) => p.to_owned(),
                None => String::new(),
            };
            return Err(TransferError::ReadFailed { path, detail: "nothing to send".to_owned() });
        }
        if self.entries.len() > MAX_MANIFEST_ENTRIES {
            return Err(TransferError::MalformedPayload);
        }
        let manifest = self.manifest_vec();
        let total = match manifest_bytes(&manifest) {
            Some(t) => t,
            None => return Err(TransferError::MalformedPayload),
        };
        let mut count: usize = 0;
        let mut i: usize = 0;
        while i < manifest.len()
            invariant
                0 <= i <= manifest.len(),
                count == file_count(manifest@.take(i as int)),
                count <= i,
            decreases manifest.len() - i,
        {
            assert(manifest@.take(i + 1).drop_last() == manifest@.take(i as int));
            if !manifest[i].is_dir {
                count = count + 1;
            }
            i = i + 1;
        }
        assert(manifest@.take(manifest.len() as int) == manifest@);
        let offer = OfferHeader {
            protocol_version: PROTOCOL_VERSION,
            payload_type: PayloadType::Files,
            sender_alias: alias.to_owned(),
            sender_device_id: device_id.to_owned(),
            total_size: total,
            item_count: count,
            manifest,
        };
        Ok((offer, self.entries, self.skipped))
    }
}

/// What this device offers, a conforming peer accepts: a text offer within
/// the limit, and a file offer closed from a draft, both pass the
/// receiver's validation.
pub proof fn law_built_offers_validate(o: OfferHeader, alias: Seq<char>, device_id: Seq<char>, text: Seq<char>)
    ensures
        text_offer_ok(o, alias, device_id, text) && utf8_len(text) <= MAX_TEXT_BYTES ==> crate::protocol::offer_fault(o) is None,
        ({
            &&& o.protocol_version == PROTOCOL_VERSION
            &&& o.payload_type == PayloadType::Files
            &&& 0 < o.manifest@.len() <= MAX_MANIFEST_ENTRIES
            &&& o.total_size == file_bytes(o.manifest@)
        }) ==> crate::protocol::offer_fault(o) is None,
{
}

// ---------------------------------------------------------------------------
// Receiving
// ---------------------------------------------------------------------------

/// Every entry's path sanitizes, and lands inside `root` once joined to it.
pub open spec fn manifest_plannable(root: Seq<char>, m: Seq<ManifestEntry>) -> bool {
    forall|i: int|
        0 <= i < m.len() ==> match rel_path_of(#[trigger] m[i].rel_path@) {
            Some(p) => within(root, joined(root, p)),
            None => false,
        }
}

/// Plan where every entry of an incoming manifest lands, before deciding to
/// accept: each path is rebuilt by `sanitize_rel_path` and the joined
/// result checked by `ensure_within`, so a manifest with one traversal
/// attempt is refused whole and the user is never asked about it. Each
/// entry comes back with its sanitized relative path.
pub fn plan_manifest(root: &str, manifest: &Vec<ManifestEntry>) -> (r: TransferResult<
    Vec<(ManifestEntry, String)>,
>)
    ensures
        match r {
            Ok(plan) => {
                &&& manifest_plannable(root@, manifest@)
                &&& plan@.len() == manifest@.len()
                &&& forall|i: int|
                    0 <= i < plan@.len() ==> (#[trigger] plan@[i]).0 == manifest@[i] && Some(
                        plan@[i].1@,
                    ) == rel_path_of(manifest@[i].rel_path@)
            },
            Err(e) => !manifest_plannable(root@, manifest@) && e is MalformedPayload,
        },
{
    let mut plan: Vec<(ManifestEntry, String)> = Vec::new();
    let mut i: usize = 0;
    while i < manifest.len()
        invariant
            0 <= i <= manifest.len(),
            plan@.len() == i,
            manifest_plannable(root@, manifest@.take(i as int)),
            forall|j: int|
                0 <= j < i ==> (#[trigger] plan@[j]).0 == manifest@[j] && Some(plan@[j].1@)
                    == rel_path_of(manifest@[j].rel_path@),
        decreases manifest.len() - i,
    {
        let entry = &manifest[i];
        let safe = match sanitize_rel_path(entry.rel_path.as_str()) {
            Ok(p) => p,
            Err(e) => {
                assert(manifest@[i as int].rel_path@ == entry.rel_path@);
                return Err(e);
            },
        };
        let target = join_path(root, safe.as_str());
        match ensure_within(root, target.as_str()) {
            Ok(()) => {},
            Err(e) => {
                assert(manifest@[i as int].rel_path@ == entry.rel_path@);
                return Err(e);
            },
        }
        plan.push((entry.clone(), safe));
        assert forall|j: int| 0 <= j < i + 1 implies match rel_path_of(
            #[trigger] manifest@.take(i + 1)[j].rel_path@,
        ) {
            Some(p) => within(root@, joined(root@, p)),
            None => false,
        } by {
            if j < i {
                assert(manifest@.take(i + 1)[j] == manifest@.take(i as int)[j]);
            }
        }
        i = i + 1;
    }
    assert(manifest@.take(manifest.len() as int) == manifest@);
    Ok(plan)
}

/// Whether an offer fits the free space: an unknown capacity permits it.
pub open spec fn space_fits(needed: u64, available: Option<u64>) -> bool {
    match available {
        Some(a) => needed <= a,
        None => true,
    }
}

/// Free space is checked before accepting, not after: an offer larger than
/// what the volume has available is refused with both figures.
pub fn check_space(needed: u64, available: Option<u64>) -> (r: TransferResult<()>)
    ensures
        r is Ok <==> space_fits(needed, available),
        r matches Err(e) ==> available matches Some(a) && e == (TransferError::InsufficientSpace {
            needed,
            available: a,
        }),
{
    match available {
        Some(a) => if needed > a {
            Err(TransferError::InsufficientSpace { needed, available: a })
        } else {
            Ok(())
        },
        None => Ok(()),
    }
}

/// The relative paths of the manifest's files, in order.
pub open spec fn file_paths(m: Seq<ManifestEntry>) -> Seq<Seq<char>>
    decreases m.len(),
{
    if m.len() == 0 {
        Seq::empty()
    } else if m.last().is_dir {
        file_paths(m.drop_last())
    } else {
        file_paths(m.drop_last()).push(m.last().rel_path@)
    }
}

/// The preview shown with an offer: at most five file paths.
pub open spec fn preview_of(m: Seq<ManifestEntry>) -> Seq<Seq<char>> {
    at_most(file_paths(m), 5)
}

/// The paths shown with an offer: directories left out (they are
/// structure, not content), capped at five; the count beside them is exact.
pub fn offer_preview(manifest: &Vec<ManifestEntry>) -> (r: Vec<String>)
    ensures
        r@.map_values(|s: String| s@) == preview_of(manifest@),
{
    let mut r: Vec<String> = Vec::new();
    let mut i: usize = 0;
    assert(manifest@.take(0) == Seq::<ManifestEntry>::empty());
    while i < manifest.len()
        invariant
            0 <= i <= manifest.len(),
            r@.map_values(|s: String| s@) == at_most(file_paths(manifest@.take(i as int)), 5),
        decreases manifest.len() - i,
    {
        let ghost before = r@.map_values(|s: String| s@);
        let ghost f = file_paths(manifest@.take(i as int));
        assert(manifest@.take(i + 1).drop_last() == manifest@.take(i as int));
        assert(manifest@.take(i + 1).last() == manifest@[i as int]);
        if !manifest[i].is_dir {
            assert(file_paths(manifest@.take(i + 1)) == f.push(manifest@[i as int].rel_path@));
            if r.len() < 5 {
                let p = manifest[i].rel_path.clone();
                r.push(p);
                assert(r@.map_values(|s: String| s@) == before.push(p@));
            } else {
                assert(f.push(manifest@[i as int].rel_path@).take(5) == f.take(5));
            }
        }
        i = i + 1;
    }
    assert(manifest@.take(manifest.len() as int) == manifest@);
    r
}

/// The offer as put to the user: who, how much, and a preview.
pub fn offer_payload(id: &str, alias: &str, offer: &OfferHeader) -> (p: OfferPayload)
    ensures
        p.id@ == id@,
        p.peer_alias@ == alias@,
        p.peer_device_id@ == offer.sender_device_id@,
        p.item_count == offer.item_count,
        p.total_bytes == offer.total_size,
        p.is_text == (offer.payload_type == PayloadType::Text),
        p.preview@.map_values(|s: String| s@) == preview_of(offer.manifest@),
{
    OfferPayload {
        id: id.to_owned(),
        peer_alias: alias.to_owned(),
        peer_device_id: offer.sender_device_id.clone(),
        item_count: offer.item_count,
        total_bytes: offer.total_size,
        is_text: offer.payload_type == PayloadType::Text,
        preview: offer_preview(&offer.manifest),
    }
}

/// The snapshot an accepted incoming transfer starts from.
pub fn incoming_snapshot(id: &str, alias: &str, offer: &OfferHeader) -> (s: TransferSnapshot)
    ensures
        s.id@ == id@,
        s.direction == Direction::Incoming,
        s.peer_alias@ == alias@,
        s.peer_device_id@ == offer.sender_device_id@,
        s.phase == TransferPhase::Transferring,
        s.label@ == describe_of(*offer),
        s.current_file@.len() == 0,
        s.index == 0,
        s.count == offer.item_count,
        s.bytes_done == 0,
        s.total_bytes == offer.total_size,
        s.rate_bps == 0,
        s.eta_seconds is None,
        s.is_text == (offer.payload_type == PayloadType::Text),
{
    TransferSnapshot {
        id: id.to_owned(),
        direction: Direction::Incoming,
        peer_alias: alias.to_owned(),
        peer_device_id: offer.sender_device_id.clone(),
        phase: TransferPhase::Transferring,
        label: describe(offer),
        current_file: String::new(),
        index: 0,
        count: offer.item_count,
        bytes_done: 0,
        total_bytes: offer.total_size,
        rate_bps: 0,
        eta_seconds: None,
        is_text: offer.payload_type == PayloadType::Text,
    }
}

/// What the prelude byte before an entry announces.
#[derive(Clone, Copy, PartialEq, Eq, Structural, Debug)]
pub enum Prelude {
    /// Exactly the declared size follows.
    Data,
    /// Nothing follows; the sender could not produce the entry.
    Skip,
}

/// Read a prelude byte. Anything but the two markers means the stream is no
/// longer where it should be, and there is no safe way to resynchronise.
pub fn read_prelude(b: u8) -> (r: TransferResult<Prelude>)
    ensures
        b == ENTRY_DATA ==> r == Ok::<Prelude, TransferError>(Prelude::Data),
        b == ENTRY_SKIP ==> r == Ok::<Prelude, TransferError>(Prelude::Skip),
        b != ENTRY_DATA && b != ENTRY_SKIP ==> (r matches Err(e) && e is MalformedPayload),
{
    if b == ENTRY_SKIP {
        Ok(Prelude::Skip)
    } else if b == ENTRY_DATA {
        Ok(Prelude::Data)
    } else {
        Err(TransferError::MalformedPayload)
    }
}

/// Where a received entry lands: under the download root, in the sender and
/// file-type subfolders the settings ask for (the type folder only for
/// files), at its sanitized relative path.
pub open spec fn entry_target_of(
    root: Seq<char>,
    alias: Seq<char>,
    rel: Seq<char>,
    is_dir: bool,
    by_sender: bool,
    by_type: bool,
) -> Seq<char> {
    let name = match file_name_of(rel) {
        Some(n) => n,
        None => rel,
    };
    joined(organized_dir(root, alias, name, by_sender, by_type && !is_dir), rel)
}

/// The target of one received entry, checked once more against the root:
/// the organizing subfolders are built from the sender's alias, itself
/// remote input.
pub fn entry_target(
    root: &str,
    alias: &str,
    rel: &str,
    is_dir: bool,
    by_sender: bool,
    by_type: bool,
) -> (r: TransferResult<String>)
    ensures
        match r {
            Ok(t) => t@ == entry_target_of(root@, alias@, rel@, is_dir, by_sender, by_type)
                && within(root@, t@),
            Err(e) => !within(root@, entry_target_of(root@, alias@, rel@, is_dir, by_sender, by_type))
                && e is MalformedPayload,
        },
{
    let name = match file_name(rel) {
        Some(n) => n,
        None => rel.to_owned(),
    };
    let base = organize_dir(root, alias, name.as_str(), by_sender, by_type && !is_dir);
    let target = join_path(base.as_str(), rel);
    match ensure_within(root, target.as_str()) {
        Ok(()) => Ok(target),
        Err(e) => Err(e),
    }
}

/// A folder lands where its files do: the target of a directory entry is
/// the target the same path would have as a file filed without the type
/// folder, so the sender folder applies to directories and files alike and
/// only the type folder is left out.
pub proof fn law_directories_follow_their_files(
    root: Seq<char>,
    alias: Seq<char>,
    rel: Seq<char>,
    by_sender: bool,
    by_type: bool,
)
    ensures
        entry_target_of(root, alias, rel, true, by_sender, by_type) == entry_target_of(
            root,
            alias,
            rel,
            false,
            by_sender,
            false,
        ),
{
}

/// Without the type folder, an entry lands at its relative path under the
/// root, or under the sender's folder in the root when organizing by sender,
/// directory or not.
pub proof fn law_sender_folder_holds_every_entry(
    root: Seq<char>,
    alias: Seq<char>,
    rel: Seq<char>,
    is_dir: bool,
)
    ensures
        entry_target_of(root, alias, rel, is_dir, true, false) == joined(
            joined(root, crate::paths::sender_folder(alias)),
            rel,
        ),
        entry_target_of(root, alias, rel, is_dir, false, false) == joined(root, rel),
{
}

/// How many bytes to read or write next: what remains, at most one chunk.
pub fn next_chunk_len(remaining: u64) -> (n: usize)
    ensures
        n as int == if remaining < CHUNK_SIZE as u64 {
            remaining as int
        } else {
            CHUNK_SIZE as int
        },
{
    if remaining < CHUNK_SIZE as u64 {
        remaining as usize
    } else {
        CHUNK_SIZE
    }
}

/// Calls `String::from_utf8`, which the standard library documents to
/// succeed exactly on valid UTF-8, keeping the bytes as the string.
#[verifier::external_body]
fn string_from_utf8(bytes: Vec<u8>) -> (r: Option<String>)
    ensures
        match r {
            Some(s) => vstd::utf8::valid_utf8(bytes@) && s@ == vstd::utf8::decode_utf8(bytes@),
            None => !vstd::utf8::valid_utf8(bytes@),
        },
{
    String::from_utf8(bytes).ok()
}

/// A received snippet as text. The sender declared a text payload, so
/// invalid UTF-8 is a protocol violation, not something to render lossily.
pub fn decode_snippet(bytes: Vec<u8>) -> (r: TransferResult<String>)
    ensures
        match r {
            Ok(s) => vstd::utf8::valid_utf8(bytes@) && s@ == vstd::utf8::decode_utf8(bytes@),
            Err(e) => !vstd::utf8::valid_utf8(bytes@) && e is MalformedPayload,
        },
{
    match string_from_utf8(bytes) {
        Some(s) => Ok(s),
        None => Err(TransferError::MalformedPayload),
    }
}

/// `Vec::dedup`: each run of equal adjacent items kept once.
pub open spec fn dedup_adjacent(s: Seq<Seq<char>>) -> Seq<Seq<char>>
    decreases s.len(),
{
    if s.len() == 0 {
        s
    } else if s.len() >= 2 && s.last() == s[s.len() - 2] {
        dedup_adjacent(s.drop_last())
    } else {
        dedup_adjacent(s.drop_last()).push(s.last())
    }
}

/// The skip list of a finished receive: this side's own skips, then the
/// sender's from its trailer (none when no trailer came), with adjacent
/// repeats removed.
pub fn merge_skipped(local: Vec<String>, remote: Option<Vec<String>>) -> (r: Vec<String>)
    ensures
        r@.map_values(|s: String| s@) == dedup_adjacent(
            local@.map_values(|s: String| s@) + match remote {
                Some(v) => v@.map_values(|s: String| s@),
                None => Seq::empty(),
            },
        ),
{
    let mut all = local;
    match remote {
        Some(v) => {
            let mut j: usize = 0;
            let ghost base = all@.map_values(|s: String| s@);
            while j < v.len()
                invariant
                    0 <= j <= v.len(),
                    all@.map_values(|s: String| s@) == base + v@.map_values(|s: String| s@).take(
                        j as int,
                    ),
                decreases v.len() - j,
            {
                let ghost before = all@.map_values(|s: String| s@);
                let x = v[j].clone();
                all.push(x);
                assert(all@.map_values(|s: String| s@) == before.push(x@));
                assert(v@.map_values(|s: String| s@).take(j + 1) == v@.map_values(
                    |s: String| s@,
                ).take(j as int).push(v@[j as int]@));
                j = j + 1;
            }
            assert(v@.map_values(|s: String| s@).take(v.len() as int) == v@.map_values(
                |s: String| s@,
            ));
        },
        None => {
            assert(all@.map_values(|s: String| s@) + Seq::<Seq<char>>::empty() == all@.map_values(
                |s: String| s@,
            ));
        },
    }
    let ghost joined_all = all@.map_values(|s: String| s@);
    let mut out: Vec<String> = Vec::new();
    let mut i: usize = 0;
    assert(joined_all.take(0) == Seq::<Seq<char>>::empty());
    while i < all.len()
        invariant
            0 <= i <= all.len(),
            joined_all == all@.map_values(|s: String| s@),
            out@.map_values(|s: String| s@) == dedup_adjacent(joined_all.take(i as int)),
        decreases all.len() - i,
    {
        let ghost before = out@.map_values(|s: String| s@);
        assert(joined_all.take(i + 1).drop_last() == joined_all.take(i as int));
        assert(joined_all.take(i + 1).last() == all@[i as int]@);
        let repeat = i > 0 && all[i] == all[i - 1];
        proof {
            if i > 0 {
                assert(joined_all.take(i + 1)[i - 1] == all@[i - 1]@);
            }
        }
        if !repeat {
            let x = all[i].clone();
            out.push(x);
            assert(out@.map_values(|s: String| s@) == before.push(x@));
        }
        i = i + 1;
    }
    assert(joined_all.take(all.len() as int) == joined_all);
    out
}

/// How a failed receive ends: cancellation is the user's choice, not an
/// error, and is labelled as such; anything else failed.
pub fn receive_failure_end(err: &TransferError) -> (r: (TransferPhase, Outcome))
    ensures
        *err is Cancelled ==> r == (TransferPhase::Cancelled, Outcome::Cancelled),
        !(*err is Cancelled) ==> r == (TransferPhase::Failed, Outcome::Failed),
{
    match err {
        TransferError::Cancelled => (TransferPhase::Cancelled, Outcome::Cancelled),
        _ => (TransferPhase::Failed, Outcome::Failed),
    }
}

// ---------------------------------------------------------------------------
// Sending
// ---------------------------------------------------------------------------

/// The snapshot a send shows from the moment it is queued: the row appears
/// before the manifest is even built. A snippet's label is final; a file
/// batch's is a placeholder until the manifest can be counted.
pub fn queued_snapshot(id: &str, peer_alias: &str, peer_device_id: &str, is_text: bool) -> (s:
    TransferSnapshot)
    ensures
        s.id@ == id@,
        s.direction == Direction::Outgoing,
        s.peer_alias@ == peer_alias@,
        s.peer_device_id@ == peer_device_id@,
        s.phase == TransferPhase::Queued,
        s.label@ == (if is_text {
            "Text snippet"@
        } else {
            "Preparing\u{2026}"@
        }),
        s.current_file@.len() == 0,
        s.index == 0,
        s.count == 0,
        s.bytes_done == 0,
        s.total_bytes == 0,
        s.rate_bps == 0,
        s.eta_seconds is None,
        s.is_text == is_text,
{
    TransferSnapshot {
        id: id.to_owned(),
        direction: Direction::Outgoing,
        peer_alias: peer_alias.to_owned(),
        peer_device_id: peer_device_id.to_owned(),
        phase: TransferPhase::Queued,
        label: if is_text {
            "Text snippet".to_owned()
        } else {
            "Preparing\u{2026}".to_owned()
        },
        current_file: String::new(),
        index: 0,
        count: 0,
        bytes_done: 0,
        total_bytes: 0,
        rate_bps: 0,
        eta_seconds: None,
        is_text,
    }
}

/// The terminal phase of a send that failed before streaming began: the
/// row must still leave `Queued`.
pub fn early_failure_phase(err: &TransferError) -> (p: TransferPhase)
    ensures
        p == if *err is Cancelled {
            TransferPhase::Cancelled
        } else {
            TransferPhase::Failed
        },
{
    match err {
        TransferError::Cancelled => TransferPhase::Cancelled,
        _ => TransferPhase::Failed,
    }
}

/// Whether the receiver's answer byte accepts. Anything but the accept
/// byte is treated as a refusal rather than falling into streaming data.
pub fn ack_accepted(b: u8) -> (ok: bool)
    ensures
        ok == (b == ACK_ACCEPT),
{
    b == ACK_ACCEPT
}

/// The refusal a declined offer turns into: the receiver's own message,
/// shown verbatim, or an empty one when its reason frame never came.
pub fn decline_error(reason: Option<RejectReason>) -> (e: TransferError)
    ensures
        e matches TransferError::Rejected(m) && m@ == match reason {
            Some(r) => r.message@,
            None => Seq::empty(),
        },
{
    match reason {
        Some(r) => TransferError::Rejected(r.message),
        None => TransferError::Rejected(String::new()),
    }
}

/// Whether a file can be streamed as declared: it opened, and its length
/// (`None` when it could not be opened or measured) is still exactly the
/// declared size. Otherwise it is skipped through the prelude byte rather
/// than desynchronizing the stream.
pub fn still_as_declared(len: Option<u64>, declared: u64) -> (ok: bool)
    ensures
        ok == (len == Some(declared)),
{
    match len {
        Some(l) => l == declared,
        None => false,
    }
}

/// How a send ended, as the terminal phase, the history outcome and the
/// error shown, decided together so they never disagree: completed,
/// cancelled by the user, refused by the peer, or failed.
pub open spec fn send_end_of(err: Option<TransferError>) -> (TransferPhase, Outcome) {
    match err {
        None => (TransferPhase::Completed, Outcome::Completed),
        Some(TransferError::Cancelled) => (TransferPhase::Cancelled, Outcome::Cancelled),
        Some(TransferError::Rejected(_)) => (TransferPhase::Rejected, Outcome::Rejected),
        Some(_) => (TransferPhase::Failed, Outcome::Failed),
    }
}

/// `send_end_of`, with the error payload addressed to the peer's alias.
pub fn send_outcome(err: Option<&TransferError>, alias: &str) -> (r: (
    TransferPhase,
    Outcome,
    Option<ErrorPayload>,
))
    ensures
        (r.0, r.1) == send_end_of(
            match err {
                Some(e) => Some(*e),
                None => None,
            },
        ),
        match err {
            None => r.2 is None,
            Some(e) => r.2 matches Some(p) && p.code@ == crate::error::code_of(*e) && p.message@
                == crate::error::message_of(*e, alias@) && opt_view(p.detail)
                == crate::error::detail_of(*e),
        },
{
    match err {
        None => (TransferPhase::Completed, Outcome::Completed, None),
        Some(e) => {
            let payload = e.payload(alias);
            match e {
                TransferError::Cancelled => (TransferPhase::Cancelled, Outcome::Cancelled, Some(payload)),
                TransferError::Rejected(_) => (TransferPhase::Rejected, Outcome::Rejected, Some(payload)),
                _ => (TransferPhase::Failed, Outcome::Failed, Some(payload)),
            }
        },
    }
}

/// The trailer closing a completed send: the bytes actually sent and the
/// entries the receiver cannot know were skipped.
pub fn completion_trailer(bytes_sent: u64, skipped: &Vec<String>) -> (t: CompletionTrailer)
    ensures
        t.status@ == "complete"@,
        t.bytes_sent == bytes_sent,
        t.skipped@.map_values(|s: String| s@) == skipped@.map_values(|s: String| s@),
{
    let mut copy: Vec<String> = Vec::new();
    let mut i: usize = 0;
    while i < skipped.len()
        invariant
            0 <= i <= skipped.len(),
            copy@.map_values(|s: String| s@) == skipped@.map_values(|s: String| s@).take(i as int),
        decreases skipped.len() - i,
    {
        let ghost before = copy@.map_values(|s: String| s@);
        let x = skipped[i].clone();
        copy.push(x);
        assert(copy@.map_values(|s: String| s@) == before.push(x@));
        assert(skipped@.map_values(|s: String| s@).take(i + 1) == skipped@.map_values(
            |s: String| s@,
        ).take(i as int).push(skipped@[i as int]@));
        i = i + 1;
    }
    assert(skipped@.map_values(|s: String| s@).take(skipped.len() as int) == skipped@.map_values(
        |s: String| s@,
    ));
    CompletionTrailer { status: "complete".to_owned(), bytes_sent, skipped: copy }
}

/// The refusal sent after a reject byte: the error's code, and its message
/// addressed as "this device", since to the sender the failure is about
/// the receiver.
pub fn reject_reason(err: &TransferError) -> (r: RejectReason)
    ensures
        r.code@ == crate::error::code_of(*err),
        r.message@ == crate::error::message_of(*err, "this device"@),
{
    RejectReason { code: err.code().to_owned(), message: err.message("this device") }
}

// ---------------------------------------------------------------------------
// Receiving: the handshake and each entry's bytes
// ---------------------------------------------------------------------------

/// What the receiver writes in answer to an offer.
pub enum IncomingAction {
    /// Nothing: the connection is closed without a byte written, and no
    /// file or history entry is made.
    Close,
    /// A reject frame carrying this error's code and message; a refusal
    /// (`Rejected`) is also recorded in history as rejected.
    Reject(TransferError),
    /// The accept byte; the payload follows.
    Ack,
}

/// The answer to an offer, decided in order: an offer that failed
/// validation, or whose manifest could not be planned, is closed on without
/// a word; one that does not fit on disk is rejected with the space error;
/// one that the settings auto-accept, or that the user accepted, is
/// acknowledged; anything else (a refusal, or no answer before the
/// timeout, `None`) is rejected as refused.
pub fn incoming_action(
    validated: bool,
    planned: bool,
    space: TransferResult<()>,
    answer: Option<bool>,
    auto_accept: bool,
) -> (a: IncomingAction)
    ensures
        !validated || !planned ==> a is Close,
        validated && planned ==> match space {
            Err(e) => a == IncomingAction::Reject(e),
            Ok(()) => if auto_accept || answer == Some(true) {
                a is Ack
            } else {
                (a matches IncomingAction::Reject(TransferError::Rejected(m)) && m@.len() == 0)
            },
        },
{
    if !validated || !planned {
        return IncomingAction::Close;
    }
    match space {
        Err(e) => IncomingAction::Reject(e),
        Ok(()) => {
            let accepted = auto_accept || match answer {
                Some(yes) => yes,
                None => false,
            };
            if accepted {
                IncomingAction::Ack
            } else {
                IncomingAction::Reject(TransferError::Rejected(String::new()))
            }
        },
    }
}

/// The next step in receiving one non-directory entry of `declared` bytes,
/// `received` of which have arrived after the prelude byte `prelude`.
pub enum EntryStep {
    /// The sender could not produce the entry: nothing follows, nothing is
    /// written, and the entry is reported as skipped.
    Skip,
    /// Neither marker: the stream is lost, the transfer fails as malformed,
    /// and any `.part` file is removed.
    Malformed,
    /// Read at most this many bytes into the entry's `.part` file.
    Read(usize),
    /// Exactly the declared bytes have arrived: the `.part` file is renamed
    /// to its final name.
    Commit,
}

/// What to do next with an entry: skip or refuse it by its prelude, read the
/// next chunk (the rest, at most one chunk), or commit it once exactly the
/// declared size has arrived; never before, and never past it.
pub fn entry_step(prelude: u8, declared: u64, received: u64) -> (s: EntryStep)
    requires
        received <= declared,
    ensures
        prelude == ENTRY_SKIP ==> s is Skip,
        prelude != ENTRY_SKIP && prelude != ENTRY_DATA ==> s is Malformed,
        prelude == ENTRY_DATA ==> if received == declared {
            s is Commit
        } else {
            (s matches EntryStep::Read(n) && n as int == if declared - received < CHUNK_SIZE {
                declared - received
            } else {
                CHUNK_SIZE as int
            })
        },
{
    match read_prelude(prelude) {
        Ok(Prelude::Skip) => EntryStep::Skip,
        Err(_) => EntryStep::Malformed,
        Ok(Prelude::Data) => if received == declared {
            EntryStep::Commit
        } else {
            EntryStep::Read(next_chunk_len(declared - received))
        },
    }
}

/// Count `n` more bytes of an entry; a read of nothing before the declared
/// size arrived means the sender hung up, which fails the transfer (and the
/// `.part` file is removed).
pub fn chunk_received(received: u64, declared: u64, n: usize) -> (r: TransferResult<u64>)
    requires
        received < declared,
        n <= declared - received,
    ensures
        n == 0 ==> (r matches Err(TransferError::ConnectionLost(m)) && m@ == "stream ended early"@),
        n > 0 ==> r == Ok::<u64, TransferError>((received + n) as u64),
{
    if n == 0 {
        Err(TransferError::ConnectionLost("stream ended early".to_owned()))
    } else {
        Ok(received + n as u64)
    }
}

// ---------------------------------------------------------------------------
// Start-up sweep
// ---------------------------------------------------------------------------

/// Whether a file found at start-up is a staging file orphaned by a crash:
/// its extension is exactly `part`.
pub fn is_orphan_part(path: &str) -> (b: bool)
    ensures
        b == (extension_of(path@) == Some("part"@)),
{
    match extension(path) {
        Some(e) => chars_eq_str(&chars_of(e.as_str()), "part"),
        None => false,
    }
}

} // verus!
