//! Settings schema and the repairs applied to every loaded or submitted
//! value, the alias chain, the default download folder, and the device
//! identity.
use vstd::prelude::*;

use crate::paths::{join_path, joined};
use crate::protocol::{DEFAULT_DISCOVERY_PORT, DEFAULT_TRANSFER_PORT};
use crate::text::{
    chars_of, lemma_trim_fixed, lemma_trim_shape, lower_ascii_seq, lower_ascii_vec,
    string_from_chars, trim, trim_vec, white_space,
};
use crate::paths::chars_eq_str;
use crate::error::opt_view;

verus! {

/// Aliases are clamped to this many characters.
pub const MAX_ALIAS_LEN: usize = 32;

/// What to do when an incoming file already exists.
#[derive(Clone, Copy, PartialEq, Eq, Structural, Debug)]
pub enum CollisionPolicy {
    Rename,
    Overwrite,
    Skip,
}

impl Default for CollisionPolicy {
    fn default() -> (p: Self)
        ensures
            p == CollisionPolicy::Rename,
    {
        CollisionPolicy::Rename
    }
}

/// User-configurable settings.
pub struct Settings {
    pub device_alias: String,
    pub download_directory: String,
    /// Off by default, always surfaced in the UI when on.
    pub auto_accept: bool,
    pub auto_copy_snippets: bool,
    pub completion_sound: bool,
    /// A short tone the moment bytes begin moving; off by default.
    pub transfer_start_sound: bool,
    pub launch_minimized: bool,
    pub organize_by_sender: bool,
    pub organize_by_file_type: bool,
    pub collision_policy: CollisionPolicy,
    /// Hold a foreground service so the app stays reachable in the
    /// background. Android only.
    pub background_service: bool,
    pub discovery_port: u16,
    pub transfer_port: u16,
}

impl Clone for Settings {
    fn clone(&self) -> (r: Self)
        ensures
            r == *self,
    {
        Settings {
            device_alias: self.device_alias.clone(),
            download_directory: self.download_directory.clone(),
            auto_accept: self.auto_accept,
            auto_copy_snippets: self.auto_copy_snippets,
            completion_sound: self.completion_sound,
            transfer_start_sound: self.transfer_start_sound,
            launch_minimized: self.launch_minimized,
            organize_by_sender: self.organize_by_sender,
            organize_by_file_type: self.organize_by_file_type,
            collision_policy: self.collision_policy,
            background_service: self.background_service,
            discovery_port: self.discovery_port,
            transfer_port: self.transfer_port,
        }
    }
}

// ---------------------------------------------------------------------------
// Alias
// ---------------------------------------------------------------------------

/// Hostnames that identify nothing: Android reports `localhost` for every
/// device, and reports it successfully.
pub open spec fn useless_hostname(lowered: Seq<char>) -> bool {
    ||| lowered == "localhost"@
    ||| lowered == "localhost.localdomain"@
    ||| lowered == "android"@
    ||| lowered == "unknown"@
}

/// The trimmed name cut to at most 32 characters.
pub open spec fn clamp_alias(t: Seq<char>) -> Seq<char> {
    if t.len() <= MAX_ALIAS_LEN {
        t
    } else {
        t.take(MAX_ALIAS_LEN as int)
    }
}

/// A name fit to show on the radar: trimmed, cut to at most 32 characters
/// and trimmed again (a cut can end on a space), and then neither empty nor
/// one of the meaningless hostnames (compared without regard to ASCII
/// case).
pub open spec fn usable_name(name: Seq<char>) -> Option<Seq<char>> {
    let c = trim(clamp_alias(trim(name)));
    if c.len() == 0 || useless_hostname(lower_ascii_seq(c)) {
        None
    } else {
        Some(c)
    }
}

/// Settings that `Settings::normalize` with `fallback` leaves as they are:
/// a usable alias, a download directory that is not blank (or is the
/// fallback itself), and nonzero ports.
pub open spec fn normalized(s: Settings, fallback: Seq<char>) -> bool {
    &&& usable_name(s.device_alias@) == Some(s.device_alias@)
    &&& (trim(s.download_directory@).len() == 0 ==> s.download_directory@ == fallback)
    &&& s.discovery_port != 0
    &&& s.transfer_port != 0
}

/// The name used when no source yields a usable one.
pub open spec fn fallback_alias() -> Seq<char> {
    "LocalDrop Device"@
}

/// The alias chain: the name the user gave the device, then the hostname,
/// then the OS device name, each only if usable, and the literal last.
pub open spec fn alias_from(
    device: Option<Seq<char>>,
    host: Option<Seq<char>>,
    devicename: Seq<char>,
) -> Seq<char> {
    match usable_opt(device) {
        Some(a) => a,
        None => match usable_opt(host) {
            Some(a) => a,
            None => match usable_name(devicename) {
                Some(a) => a,
                None => fallback_alias(),
            },
        },
    }
}

/// `usable_name` of a name that may be missing.
pub open spec fn usable_opt(name: Option<Seq<char>>) -> Option<Seq<char>> {
    match name {
        Some(n) => usable_name(n),
        None => None,
    }
}

/// `usable_name` computed: `None` for a blank or meaningless name, else the
/// trimmed name clamped to 32 characters, trimmed again.
pub fn usable(name: &str) -> (r: Option<String>)
    ensures
        opt_view(r) == usable_name(name@),
{
    let v = chars_of(name);
    let t = trim_vec(&v);
    let cut = if t.len() <= MAX_ALIAS_LEN {
        t
    } else {
        let mut cut: Vec<char> = Vec::new();
        let mut i: usize = 0;
        while i < MAX_ALIAS_LEN
            invariant
                i <= MAX_ALIAS_LEN < t.len(),
                cut@ == t@.take(i as int),
            decreases MAX_ALIAS_LEN - i,
        {
            cut.push(t[i]);
            i = i + 1;
            assert(cut@ == t@.take(i as int));
        }
        cut
    };
    assert(cut@ == clamp_alias(trim(name@)));
    let c = trim_vec(&cut);
    if c.len() == 0 {
        return None;
    }
    let lowered = lower_ascii_vec(&c);
    if chars_eq_str(&lowered, "localhost") || chars_eq_str(&lowered, "localhost.localdomain")
        || chars_eq_str(&lowered, "android") || chars_eq_str(&lowered, "unknown") {
        return None;
    }
    Some(string_from_chars(c.as_slice()))
}

/// The alias chain over names already gathered; `alias_from` computed.
pub fn alias_from_sources(device: Option<String>, host: Option<String>, devicename: &str) -> (r:
    String)
    ensures
        r@ == alias_from(opt_view(device), opt_view(host), devicename@),
{
    let from_device = match &device {
        Some(d) => usable(d.as_str()),
        None => None,
    };
    if let Some(a) = from_device {
        return a;
    }
    let from_host = match &host {
        Some(h) => usable(h.as_str()),
        None => None,
    };
    if let Some(a) = from_host {
        return a;
    }
    match usable(devicename) {
        Some(a) => a,
        None => {
            let r = "LocalDrop Device".to_owned();
            r
        },
    }
}

/// The machine's hostname as the OS reports it, if it can be read.
///
/// Calls `whoami::fallible::hostname`; what it returns depends on the
/// machine, so nothing is stated of it.
#[verifier::external_body]
fn os_hostname() -> (r: Option<String>) {
    whoami::fallible::hostname().ok()
}

/// The OS device name ("pretty name"), falling back inside `whoami` to the
/// hostname and then to a literal of its own.
///
/// Calls `whoami::devicename`; what it returns depends on the machine, so
/// nothing is stated of it.
#[verifier::external_body]
fn os_devicename() -> (r: String) {
    whoami::devicename()
}

/// The name broadcast to peers, chosen by the alias chain over what this
/// device reports: no user-given device name on desktop, then the hostname,
/// then the device name.
pub fn default_alias() -> (r: String)
    ensures
        exists|h: Option<Seq<char>>, n: Seq<char>| r@ == alias_from(None, h, n),
        0 < r@.len() <= MAX_ALIAS_LEN,
{
    let host = os_hostname();
    let dn = os_devicename();
    let r = alias_from_sources(crate::android::device_name(), host, dn.as_str());
    proof {
        assert(r@ == alias_from(None, opt_view(host), dn@));
        law_alias_is_clamped(None, opt_view(host), dn@);
    }
    r
}

/// Aliases are clamped, never rejected: whatever the sources report, the
/// alias chain yields a name of 1 to 32 characters.
pub proof fn law_alias_is_clamped(device: Option<Seq<char>>, host: Option<Seq<char>>, devicename: Seq<char>)
    ensures
        0 < alias_from(device, host, devicename).len() <= MAX_ALIAS_LEN,
{
    reveal_strlit("LocalDrop Device");
    lemma_usable_name_clamped(devicename);
    if let Some(d) = device {
        lemma_usable_name_clamped(d);
    }
    if let Some(h) = host {
        lemma_usable_name_clamped(h);
    }
}

/// A usable name has 1 to 32 characters.
pub proof fn lemma_usable_name_clamped(name: Seq<char>)
    ensures
        usable_name(name) matches Some(a) ==> 0 < a.len() <= MAX_ALIAS_LEN,
{
    lemma_trim_shape(clamp_alias(trim(name)));
}

/// Clamping is done once: a name that `usable_name` gives back is usable
/// as it stands, so repairing it again changes nothing.
pub proof fn law_usable_name_is_stable(name: Seq<char>)
    ensures
        usable_name(name) matches Some(a) ==> usable_name(a) == Some(a),
{
    let c = trim(clamp_alias(trim(name)));
    lemma_trim_shape(clamp_alias(trim(name)));
    if usable_name(name) is Some {
        lemma_trim_fixed(c);
        assert(clamp_alias(c) == c);
    }
}

/// Whatever the alias chain yields is usable as it stands.
pub proof fn law_alias_is_stable(device: Option<Seq<char>>, host: Option<Seq<char>>, devicename: Seq<char>)
    ensures
        usable_name(alias_from(device, host, devicename)) == Some(alias_from(device, host, devicename)),
{
    reveal_strlit("LocalDrop Device");
    law_usable_name_is_stable(devicename);
    if let Some(d) = device {
        law_usable_name_is_stable(d);
    }
    if let Some(h) = host {
        law_usable_name_is_stable(h);
    }
    let f = fallback_alias();
    assert(!white_space(f[0]) && !white_space(f.last()));
    lemma_trim_fixed(f);
    assert(clamp_alias(f) == f);
    reveal_strlit("localhost");
    reveal_strlit("localhost.localdomain");
    reveal_strlit("android");
    reveal_strlit("unknown");
    assert(lower_ascii_seq(f).len() == 16);
    assert(!useless_hostname(lower_ascii_seq(f)));
}

// ---------------------------------------------------------------------------
// Download folder
// ---------------------------------------------------------------------------

/// The user's Downloads folder, or the closest usable thing: the home
/// directory's `Downloads` when it exists, else home itself, and the
/// temporary directory when there is no home at all.
pub open spec fn downloads_base(home: Option<Seq<char>>, downloads_exists: bool, temp: Seq<char>) -> Seq<char> {
    match home {
        Some(h) => if downloads_exists {
            joined(h, "Downloads"@)
        } else {
            h
        },
        None => temp,
    }
}

/// Where `downloads_exists` is to be checked: `Downloads` under `home`.
pub fn downloads_candidate(home: &str) -> (r: String)
    ensures
        r@ == joined(home@, "Downloads"@),
{
    join_path(home, "Downloads")
}

/// The default download directory on desktop: `LocalDrop` under the
/// Downloads base. `home` is `USERPROFILE` or else `HOME`,
/// `downloads_exists` whether `downloads_candidate(home)` exists, and
/// `temp` the temporary directory.
pub fn default_download_dir(home: Option<String>, downloads_exists: bool, temp: &str) -> (r: String)
    ensures
        r@ == joined(downloads_base(opt_view(home), downloads_exists, temp@), "LocalDrop"@),
{
    let base = match &home {
        Some(h) => if downloads_exists {
            downloads_candidate(h.as_str())
        } else {
            h.clone()
        },
        None => temp.to_owned(),
    };
    join_path(base.as_str(), "LocalDrop")
}

// ---------------------------------------------------------------------------
// Repairs
// ---------------------------------------------------------------------------

impl Settings {
    /// Defaults, with the alias from the alias chain and the given download
    /// directory.
    pub fn defaults(download_directory: String) -> (s: Settings)
        ensures
            s.download_directory == download_directory,
            exists|h: Option<Seq<char>>, n: Seq<char>| s.device_alias@ == alias_from(None, h, n),
            0 < s.device_alias@.len() <= MAX_ALIAS_LEN,
            !s.auto_accept,
            s.auto_copy_snippets,
            s.completion_sound,
            !s.transfer_start_sound,
            !s.launch_minimized,
            !s.organize_by_sender,
            !s.organize_by_file_type,
            s.collision_policy == CollisionPolicy::Rename,
            s.background_service,
            s.discovery_port == DEFAULT_DISCOVERY_PORT,
            s.transfer_port == DEFAULT_TRANSFER_PORT,
    {
        Settings {
            device_alias: default_alias(),
            download_directory,
            auto_accept: false,
            auto_copy_snippets: true,
            completion_sound: true,
            transfer_start_sound: false,
            launch_minimized: false,
            organize_by_sender: false,
            organize_by_file_type: false,
            collision_policy: CollisionPolicy::Rename,
            background_service: true,
            discovery_port: DEFAULT_DISCOVERY_PORT,
            transfer_port: DEFAULT_TRANSFER_PORT,
        }
    }

    /// Clamp every field to a valid value rather than rejecting the whole:
    /// what comes out is `normalized`, so a second call changes nothing.
    /// the alias goes through `usable` (an unusable one is replaced by the
    /// default alias), a blank download directory becomes
    /// `fallback_download_dir`, and a zero port becomes its default. Every
    /// other field is kept.
    pub fn normalize(&mut self, fallback_download_dir: &str)
        ensures
            match usable_name(old(self).device_alias@) {
                Some(a) => final(self).device_alias@ == a,
                None => exists|h: Option<Seq<char>>, n: Seq<char>|
                    final(self).device_alias@ == alias_from(None, h, n),
            },
            final(self).download_directory@ == (if trim(old(self).download_directory@).len() == 0 {
                fallback_download_dir@
            } else {
                old(self).download_directory@
            }),
            final(self).discovery_port == (if old(self).discovery_port == 0 {
                DEFAULT_DISCOVERY_PORT
            } else {
                old(self).discovery_port
            }),
            final(self).transfer_port == (if old(self).transfer_port == 0 {
                DEFAULT_TRANSFER_PORT
            } else {
                old(self).transfer_port
            }),
            0 < final(self).device_alias@.len() <= MAX_ALIAS_LEN,
            normalized(*final(self), fallback_download_dir@),
            normalized(*old(self), fallback_download_dir@) ==> {
                &&& final(self).device_alias@ == old(self).device_alias@
                &&& final(self).download_directory@ == old(self).download_directory@
                &&& final(self).discovery_port == old(self).discovery_port
                &&& final(self).transfer_port == old(self).transfer_port
            },
            final(self).discovery_port != 0,
            final(self).transfer_port != 0,
            final(self).auto_accept == old(self).auto_accept,
            final(self).auto_copy_snippets == old(self).auto_copy_snippets,
            final(self).completion_sound == old(self).completion_sound,
            final(self).transfer_start_sound == old(self).transfer_start_sound,
            final(self).launch_minimized == old(self).launch_minimized,
            final(self).organize_by_sender == old(self).organize_by_sender,
            final(self).organize_by_file_type == old(self).organize_by_file_type,
            final(self).collision_policy == old(self).collision_policy,
            final(self).background_service == old(self).background_service,
    {
        proof {
            lemma_usable_name_clamped(self.device_alias@);
            law_usable_name_is_stable(self.device_alias@);
        }
        self.device_alias = match usable(self.device_alias.as_str()) {
            Some(a) => a,
            None => {
                let d = default_alias();
                proof {
                    let (h, n) = choose|h: Option<Seq<char>>, n: Seq<char>| d@ == alias_from(None, h, n);
                    law_alias_is_stable(None, h, n);
                }
                d
            },
        };
        let dir = chars_of(self.download_directory.as_str());
        let trimmed = trim_vec(&dir);
        if trimmed.len() == 0 {
            self.download_directory = fallback_download_dir.to_owned();
        }
        if self.discovery_port == 0 {
            self.discovery_port = DEFAULT_DISCOVERY_PORT;
        }
        if self.transfer_port == 0 {
            self.transfer_port = DEFAULT_TRANSFER_PORT;
        }
    }

    /// The download directory as a path.
    pub fn download_path(&self) -> (p: String)
        ensures
            p@ == self.download_directory@,
    {
        self.download_directory.clone()
    }
}

// ---------------------------------------------------------------------------
// Identity
// ---------------------------------------------------------------------------

/// Lowercase hexadecimal digits.
pub open spec fn lower_hex(c: char) -> bool {
    ('0' <= c && c <= '9') || ('a' <= c && c <= 'f')
}

/// The hyphenated lowercase text of a version-4, RFC 4122 variant UUID:
/// 36 characters, hyphens at 8, 13, 18 and 23, hex digits elsewhere, `4`
/// as the version digit and one of `8 9 a b` as the variant digit.
pub open spec fn uuid_v4_text(s: Seq<char>) -> bool {
    &&& s.len() == 36
    &&& forall|i: int|
        0 <= i < 36 ==> (if i == 8 || i == 13 || i == 18 || i == 23 {
            #[trigger] s[i] == '-'
        } else {
            lower_hex(s[i])
        })
    &&& s[14] == '4'
    &&& (s[19] == '8' || s[19] == '9' || s[19] == 'a' || s[19] == 'b')
}

/// A fresh random identifier in its hyphenated text form.
///
/// Calls `uuid::Uuid::new_v4` and formats it with `to_string`. The value is
/// random; what is stated is the shape the crate documents for a v4 UUID's
/// hyphenated lowercase text.
#[verifier::external_body]
pub(crate) fn random_uuid_text() -> (r: String)
    ensures
        uuid_v4_text(r@),
{
    uuid::Uuid::new_v4().to_string()
}

/// Stable device identity; persists across restarts.
pub struct Identity {
    pub device_id: String,
}

impl Identity {
    /// A new identity with a random version-4 UUID as its device id.
    pub fn generate() -> (id: Identity)
        ensures
            uuid_v4_text(id.device_id@),
    {
        Identity { device_id: random_uuid_text() }
    }
}

impl Default for Identity {
    /// A fresh identity; see `Identity::generate`.
    fn default() -> (id: Self)
        ensures
            uuid_v4_text(id.device_id@),
    {
        Identity::generate()
    }
}

impl Clone for Identity {
    fn clone(&self) -> (r: Self)
        ensures
            r == *self,
    {
        Identity { device_id: self.device_id.clone() }
    }
}

} // verus!
