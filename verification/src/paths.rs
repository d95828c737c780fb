//! Path sanitization and collision policy: the security boundary for
//! everything a remote peer names.
//!
//! Paths are handled as strings with `/` as the separator, and the helpers
//! below follow the component rules of `std::path::Path` on Unix.
use vstd::prelude::*;

use crate::error::{TransferError, TransferResult};
use crate::settings::CollisionPolicy;
use crate::text::{
    decimal, decimal_chars, lemma_split_concat, lemma_split_join, concat2, join_with, split_where, str_byte_len, chars_of, char_utf8_width, control_char, fit_prefix_len, is_control_char, lemma_fit_prefix,
    has_prefix, lemma_utf8_len_concat, starts_with_str, string_from_chars, to_ascii_upper, upper_ascii_seq, utf8_len,
};

verus! {

/// Per-component byte limit on NTFS and most Unix filesystems.
pub const MAX_COMPONENT_BYTES: usize = 255;

/// Characters illegal in Windows filenames, plus both path separators.
pub open spec fn illegal_char(c: char) -> bool {
    c == '<' || c == '>' || c == ':' || c == '"' || c == '|' || c == '?' || c == '*' || c == '/'
        || c == '\\'
}

fn is_illegal_char(c: char) -> (b: bool)
    ensures
        b == illegal_char(c),
{
    c == '<' || c == '>' || c == ':' || c == '"' || c == '|' || c == '?' || c == '*' || c == '/'
        || c == '\\'
}

/// Either separator, since sender and receiver may disagree about which is
/// native.
pub open spec fn path_sep(c: char) -> bool {
    c == '/' || c == '\\'
}

pub open spec fn slash(c: char) -> bool {
    c == '/'
}

/// Control characters dropped, illegal characters replaced by `_`.
pub open spec fn cleaned_chars(s: Seq<char>) -> Seq<char>
    decreases s.len(),
{
    if s.len() == 0 {
        s
    } else {
        let init = cleaned_chars(s.drop_last());
        if control_char(s.last()) {
            init
        } else if illegal_char(s.last()) {
            init.push('_')
        } else {
            init.push(s.last())
        }
    }
}

/// Trailing dots and spaces removed, as Windows would strip them.
pub open spec fn trim_dots_spaces(s: Seq<char>) -> Seq<char>
    decreases s.len(),
{
    if s.len() > 0 && (s.last() == '.' || s.last() == ' ') {
        trim_dots_spaces(s.drop_last())
    } else {
        s
    }
}

/// Everything before the first `c`: `s.split(c).next()`.
pub open spec fn before_first(s: Seq<char>, c: char) -> Seq<char>
    decreases s.len(),
{
    if s.len() == 0 || s[0] == c {
        Seq::<char>::empty()
    } else {
        seq![s[0]] + before_first(s.drop_first(), c)
    }
}

/// Windows reserved device names.
pub open spec fn reserved_name(u: Seq<char>) -> bool {
    u == "CON"@ || u == "PRN"@ || u == "AUX"@ || u == "NUL"@ || u == "COM1"@ || u == "COM2"@ || u
        == "COM3"@ || u == "COM4"@ || u == "COM5"@ || u == "COM6"@ || u == "COM7"@ || u
        == "COM8"@ || u == "COM9"@ || u == "LPT1"@ || u == "LPT2"@ || u == "LPT3"@ || u
        == "LPT4"@ || u == "LPT5"@ || u == "LPT6"@ || u == "LPT7"@ || u == "LPT8"@ || u
        == "LPT9"@
}

pub open spec fn dot_or_dotdot(s: Seq<char>) -> bool {
    s == "."@ || s == ".."@
}

/// The stem (what precedes the first `.`) names a Windows device, compared
/// without regard to ASCII case: `CON`, `con.txt` and `CoN.log` alike.
pub open spec fn reserved_stem(s: Seq<char>) -> bool {
    reserved_name(upper_ascii_seq(before_first(s, '.')))
}

/// The longest prefix of `s` within 255 UTF-8 bytes, with the trailing dots
/// and spaces that the cut may leave removed again.
pub open spec fn cut_to_limit(s: Seq<char>) -> Seq<char> {
    trim_dots_spaces(s.take(fit_prefix_len(s, MAX_COMPONENT_BYTES as int) as int))
}

/// One untrusted path segment turned into a safe filename, or `None` when
/// nothing survives. A reserved device stem is prefixed with `_`; so is one
/// that only the cut to 255 bytes uncovers (`CON`, many spaces, `x`), and
/// that name is cut again.
pub open spec fn sanitized_component(raw: Seq<char>) -> Option<Seq<char>> {
    if raw.len() == 0 || dot_or_dotdot(raw) {
        None
    } else {
        let c1 = trim_dots_spaces(cleaned_chars(raw));
        if c1.len() == 0 || dot_or_dotdot(c1) {
            None
        } else {
            let c2 = if reserved_stem(c1) {
                seq!['_'] + c1
            } else {
                c1
            };
            if utf8_len(c2) > MAX_COMPONENT_BYTES {
                let c3 = cut_to_limit(c2);
                if c3.len() == 0 {
                    None
                } else if reserved_stem(c3) {
                    Some(cut_to_limit(seq!['_'] + c3))
                } else {
                    Some(c3)
                }
            } else {
                Some(c2)
            }
        }
    }
}

/// What every sanitized name satisfies.
pub open spec fn safe_component(s: Seq<char>) -> bool {
    &&& s.len() > 0
    &&& !reserved_stem(s)
    &&& utf8_len(s) <= MAX_COMPONENT_BYTES
    &&& !dot_or_dotdot(s)
    &&& s.last() != '.'
    &&& s.last() != ' '
    &&& forall|i: int| 0 <= i < s.len() ==> !control_char(#[trigger] s[i]) && !illegal_char(s[i])
}

pub fn chars_eq_str(v: &Vec<char>, s: &str) -> (b: bool)
    ensures
        b == (v@ == s@),
{
    let w = chars_of(s);
    if v.len() != w.len() {
        return false;
    }
    let mut i: usize = 0;
    while i < v.len()
        invariant
            v.len() == w.len(),
            w@ == s@,
            0 <= i <= v.len(),
            forall|j: int| 0 <= j < i ==> v@[j] == w@[j],
        decreases v.len() - i,
    {
        if v[i] != w[i] {
            return false;
        }
        i = i + 1;
    }
    assert(v@ == w@);
    true
}

fn is_dot_or_dotdot(v: &Vec<char>) -> (b: bool)
    ensures
        b == dot_or_dotdot(v@),
{
    chars_eq_str(v, ".") || chars_eq_str(v, "..")
}

fn is_reserved_name(u: &Vec<char>) -> (b: bool)
    ensures
        b == reserved_name(u@),
{
    chars_eq_str(u, "CON") || chars_eq_str(u, "PRN") || chars_eq_str(u, "AUX") || chars_eq_str(
        u,
        "NUL",
    ) || chars_eq_str(u, "COM1") || chars_eq_str(u, "COM2") || chars_eq_str(u, "COM3")
        || chars_eq_str(u, "COM4") || chars_eq_str(u, "COM5") || chars_eq_str(u, "COM6")
        || chars_eq_str(u, "COM7") || chars_eq_str(u, "COM8") || chars_eq_str(u, "COM9")
        || chars_eq_str(u, "LPT1") || chars_eq_str(u, "LPT2") || chars_eq_str(u, "LPT3")
        || chars_eq_str(u, "LPT4") || chars_eq_str(u, "LPT5") || chars_eq_str(u, "LPT6")
        || chars_eq_str(u, "LPT7") || chars_eq_str(u, "LPT8") || chars_eq_str(u, "LPT9")
}

/// Pops trailing dots and spaces.
fn pop_dots_spaces(v: &mut Vec<char>)
    ensures
        final(v)@ == trim_dots_spaces(old(v)@),
{
    while v.len() > 0 && (v[v.len() - 1] == '.' || v[v.len() - 1] == ' ')
        invariant
            trim_dots_spaces(v@) == trim_dots_spaces(old(v)@),
        decreases v.len(),
    {
        let ghost before = v@;
        v.pop();
        assert(v@ == before.drop_last());
    }
}

fn before_first_dot_upper(v: &Vec<char>) -> (u: Vec<char>)
    ensures
        u@ == upper_ascii_seq(before_first(v@, '.')),
{
    let mut u: Vec<char> = Vec::new();
    let mut i: usize = 0;
    assert(v@.skip(0) == v@);
    assert(v@.take(0) == Seq::<char>::empty());
    while i < v.len() && v[i] != '.'
        invariant
            0 <= i <= v.len(),
            before_first(v@, '.') == v@.take(i as int) + before_first(v@.skip(i as int), '.'),
            u@ == upper_ascii_seq(v@.take(i as int)),
        decreases v.len() - i,
    {
        proof {
            assert(v@.skip(i as int).drop_first() == v@.skip(i + 1));
            assert(v@.take(i + 1) == v@.take(i as int).push(v@[i as int]));
            assert(before_first(v@.skip(i as int), '.') == seq![v@[i as int]] + before_first(
                v@.skip(i + 1),
                '.',
            ));
        }
        u.push(to_ascii_upper(v[i]));
        i = i + 1;
    }
    assert(before_first(v@.skip(i as int), '.') == Seq::<char>::empty());
    u
}

/// Number of leading characters of `v` that fit in `budget` UTF-8 bytes.
fn fit_prefix(v: &Vec<char>, budget: usize) -> (k: usize)
    ensures
        k == fit_prefix_len(v@, budget as int),
{
    let mut i: usize = 0;
    let mut left: usize = budget;
    assert(v@.skip(0) == v@);
    while i < v.len() && char_utf8_width(v[i]) <= left
        invariant
            0 <= i <= v.len(),
            left <= budget,
            fit_prefix_len(v@, budget as int) == i + fit_prefix_len(v@.skip(i as int), left as int),
        decreases v.len() - i,
    {
        proof {
            assert(v@.skip(i as int)[0] == v@[i as int]);
            assert(v@.skip(i as int).drop_first() == v@.skip(i + 1));
        }
        left = left - char_utf8_width(v[i]);
        i = i + 1;
    }
    proof {
        if i < v.len() {
            assert(v@.skip(i as int)[0] == v@[i as int]);
        } else {
            assert(v@.skip(i as int).len() == 0);
        }
    }
    i
}

/// `sanitize_component` on characters.
pub fn sanitize_component_chars(raw: &Vec<char>) -> (r: Option<Vec<char>>)
    ensures
        match r {
            Some(v) => sanitized_component(raw@) == Some(v@),
            None => sanitized_component(raw@) is None,
        },
{
    if raw.len() == 0 || is_dot_or_dotdot(raw) {
        return None;
    }
    let mut cleaned: Vec<char> = Vec::new();
    for i in 0..raw.len()
        invariant
            cleaned@ == cleaned_chars(raw@.take(i as int)),
    {
        let c = raw[i];
        assert(raw@.take(i + 1).drop_last() == raw@.take(i as int));
        if !is_control_char(c) {
            if is_illegal_char(c) {
                cleaned.push('_');
            } else {
                cleaned.push(c);
            }
        }
    }
    assert(raw@.take(raw.len() as int) == raw@);
    pop_dots_spaces(&mut cleaned);
    if cleaned.len() == 0 || is_dot_or_dotdot(&cleaned) {
        return None;
    }
    let stem = before_first_dot_upper(&cleaned);
    let mut named: Vec<char> = if is_reserved_name(&stem) {
        underscored(&cleaned)
    } else {
        cleaned
    };
    let k = fit_prefix(&named, MAX_COMPONENT_BYTES);
    proof {
        lemma_fit_prefix(named@, 255);
    }
    if k < named.len() {
        proof {
            // Beyond the fitting prefix the whole name exceeds the limit.
            lemma_utf8_len_concat(named@.take(k + 1), named@.skip(k + 1));
            assert(named@.take(k + 1) + named@.skip(k + 1) == named@);
        }
        cut_vec_to_limit(&mut named);
        if named.len() == 0 {
            return None;
        }
        let stem = before_first_dot_upper(&named);
        if is_reserved_name(&stem) {
            let mut again = underscored(&named);
            cut_vec_to_limit(&mut again);
            return Some(again);
        }
    } else {
        assert(named@.take(named.len() as int) == named@);
    }
    Some(named)
}

/// `v` with `_` in front.
fn underscored(v: &Vec<char>) -> (p: Vec<char>)
    ensures
        p@ == seq!['_'] + v@,
{
    let mut p: Vec<char> = Vec::new();
    p.push('_');
    let mut j: usize = 0;
    while j < v.len()
        invariant
            0 <= j <= v.len(),
            p@ == seq!['_'] + v@.take(j as int),
        decreases v.len() - j,
    {
        p.push(v[j]);
        assert(v@.take(j + 1) == v@.take(j as int).push(v@[j as int]));
        j = j + 1;
    }
    assert(v@.take(v.len() as int) == v@);
    p
}

/// Cut `v` to its longest prefix within 255 UTF-8 bytes, then drop the
/// trailing dots and spaces.
fn cut_vec_to_limit(v: &mut Vec<char>)
    ensures
        final(v)@ == cut_to_limit(old(v)@),
{
    let k = fit_prefix(v, MAX_COMPONENT_BYTES);
    proof {
        lemma_fit_prefix(v@, 255);
    }
    v.truncate(k);
    pop_dots_spaces(v);
}

/// Turn one attacker-supplied path segment into a safe filename, or `None`
/// if nothing survives (e.g. `..`, or nothing but control characters).
pub fn sanitize_component(raw: &str) -> (r: Option<String>)
    ensures
        match r {
            Some(s) => sanitized_component(raw@) == Some(s@),
            None => sanitized_component(raw@) is None,
        },
{
    let v = chars_of(raw);
    match sanitize_component_chars(&v) {
        Some(c) => Some(string_from_chars(c.as_slice())),
        None => None,
    }
}

proof fn lemma_cleaned_chars_safe(s: Seq<char>)
    ensures
        forall|i: int|
            0 <= i < cleaned_chars(s).len() ==> !control_char(#[trigger] cleaned_chars(s)[i])
                && !illegal_char(cleaned_chars(s)[i]),
    decreases s.len(),
{
    if s.len() > 0 {
        lemma_cleaned_chars_safe(s.drop_last());
        let init = cleaned_chars(s.drop_last());
        assert forall|i: int|
            0 <= i < cleaned_chars(s).len() implies !control_char(#[trigger] cleaned_chars(s)[i])
            && !illegal_char(cleaned_chars(s)[i]) by {
            if i < init.len() {
                assert(cleaned_chars(s)[i] == init[i]);
            }
        }
    }
}

proof fn lemma_trim_dots_spaces(s: Seq<char>)
    ensures
        trim_dots_spaces(s).len() <= s.len(),
        trim_dots_spaces(s) == s.take(trim_dots_spaces(s).len() as int),
        trim_dots_spaces(s).len() > 0 ==> trim_dots_spaces(s).last() != '.'
            && trim_dots_spaces(s).last() != ' ',
    decreases s.len(),
{
    if s.len() > 0 && (s.last() == '.' || s.last() == ' ') {
        lemma_trim_dots_spaces(s.drop_last());
        let t = trim_dots_spaces(s.drop_last());
        assert(s.drop_last().take(t.len() as int) == s.take(t.len() as int));
    } else {
        assert(s.take(s.len() as int) == s);
    }
}

proof fn lemma_utf8_len_prefix(s: Seq<char>, k: int)
    requires
        0 <= k <= s.len(),
    ensures
        utf8_len(s.take(k)) <= utf8_len(s),
{
    lemma_utf8_len_concat(s.take(k), s.skip(k));
    assert(s.take(k) + s.skip(k) == s);
}

/// No device name starts with `_`, so no name that does has a reserved stem.
proof fn lemma_underscore_not_reserved(s: Seq<char>)
    requires
        s.len() > 0,
        s[0] == '_',
    ensures
        !reserved_stem(s),
{
    let b = before_first(s, '.');
    assert(b == seq![s[0]] + before_first(s.drop_first(), '.'));
    let u = upper_ascii_seq(b);
    assert(u[0] == '_');
    reveal_strlit("CON");
    reveal_strlit("PRN");
    reveal_strlit("AUX");
    reveal_strlit("NUL");
    reveal_strlit("COM1");
    reveal_strlit("COM2");
    reveal_strlit("COM3");
    reveal_strlit("COM4");
    reveal_strlit("COM5");
    reveal_strlit("COM6");
    reveal_strlit("COM7");
    reveal_strlit("COM8");
    reveal_strlit("COM9");
    reveal_strlit("LPT1");
    reveal_strlit("LPT2");
    reveal_strlit("LPT3");
    reveal_strlit("LPT4");
    reveal_strlit("LPT5");
    reveal_strlit("LPT6");
    reveal_strlit("LPT7");
    reveal_strlit("LPT8");
    reveal_strlit("LPT9");
}

/// Characters that are neither control nor illegal.
pub open spec fn clean_chars(s: Seq<char>) -> bool {
    forall|i: int| 0 <= i < s.len() ==> !control_char(#[trigger] s[i]) && !illegal_char(s[i])
}

/// Cutting to the limit keeps a prefix: clean characters stay clean, the
/// result fits in 255 bytes and does not end in a dot or a space, and a
/// leading `_` survives.
proof fn lemma_cut_to_limit(t: Seq<char>)
    requires
        clean_chars(t),
    ensures
        clean_chars(cut_to_limit(t)),
        utf8_len(cut_to_limit(t)) <= MAX_COMPONENT_BYTES,
        cut_to_limit(t).len() > 0 ==> cut_to_limit(t).last() != '.' && cut_to_limit(t).last()
            != ' ',
        cut_to_limit(t).len() > 0 ==> cut_to_limit(t)[0] == t[0],
        t.len() > 0 && t[0] == '_' ==> cut_to_limit(t).len() > 0,
{
    let k = fit_prefix_len(t, 255);
    lemma_fit_prefix(t, 255);
    let p = t.take(k as int);
    let c = trim_dots_spaces(p);
    lemma_trim_dots_spaces(p);
    lemma_utf8_len_prefix(p, c.len() as int);
    assert forall|i: int| 0 <= i < c.len() implies !control_char(#[trigger] c[i])
        && !illegal_char(c[i]) by {
        assert(c[i] == p[i]);
        assert(p[i] == t[i]);
    }
    if c.len() > 0 {
        assert(c[0] == p[0]);
    }
    if t.len() > 0 && t[0] == '_' {
        assert(crate::text::char_width('_') == 1);
        assert(fit_prefix_len(t, 255) >= 1);
        if c.len() == 0 {
            lemma_trim_dots_spaces_empty(p);
        }
    }
}

/// Trimming dots and spaces empties only a string made of them.
proof fn lemma_trim_dots_spaces_empty(s: Seq<char>)
    requires
        trim_dots_spaces(s).len() == 0,
    ensures
        forall|i: int| 0 <= i < s.len() ==> #[trigger] s[i] == '.' || s[i] == ' ',
    decreases s.len(),
{
    if s.len() > 0 {
        lemma_trim_dots_spaces_empty(s.drop_last());
        assert forall|i: int| 0 <= i < s.len() implies #[trigger] s[i] == '.' || s[i] == ' ' by {
            if i < s.len() - 1 {
                assert(s[i] == s.drop_last()[i]);
            }
        }
    }
}

/// Every name `sanitized_component` produces is non-empty, at most 255
/// bytes, free of control characters, separators and Windows-illegal
/// characters, not `.` or `..`, does not end in a dot or a space, and has
/// no Windows device name as its stem.
pub proof fn lemma_sanitized_component_is_safe(raw: Seq<char>)
    ensures
        sanitized_component(raw) matches Some(s) ==> safe_component(s),
{
    reveal_strlit(".");
    reveal_strlit("..");
    if let Some(out) = sanitized_component(raw) {
        let c0 = cleaned_chars(raw);
        let c1 = trim_dots_spaces(c0);
        lemma_cleaned_chars_safe(raw);
        lemma_trim_dots_spaces(c0);
        assert forall|i: int| 0 <= i < c1.len() implies !control_char(#[trigger] c1[i])
            && !illegal_char(c1[i]) by {
            assert(c1[i] == c0[i]);
        }
        let c2 = if reserved_stem(c1) {
            seq!['_'] + c1
        } else {
            c1
        };
        assert forall|i: int| 0 <= i < c2.len() implies !control_char(#[trigger] c2[i])
            && !illegal_char(c2[i]) by {
            if c2 != c1 && i > 0 {
                assert(c2[i] == c1[i - 1]);
            }
        }
        assert(c2.last() == c1.last());
        if reserved_stem(c1) {
            lemma_underscore_not_reserved(c2);
        }
        if utf8_len(c2) > MAX_COMPONENT_BYTES {
            let c3 = cut_to_limit(c2);
            lemma_cut_to_limit(c2);
            if reserved_stem(c1) {
                lemma_underscore_not_reserved(c3);
            }
            if reserved_stem(c3) {
                let p = seq!['_'] + c3;
                assert forall|i: int| 0 <= i < p.len() implies !control_char(#[trigger] p[i])
                    && !illegal_char(p[i]) by {
                    if i > 0 {
                        assert(p[i] == c3[i - 1]);
                    }
                }
                lemma_cut_to_limit(p);
                lemma_underscore_not_reserved(cut_to_limit(p));
                assert(out == cut_to_limit(p));
            } else {
                assert(out == c3);
            }
        } else {
            assert(out == c2);
        }
    }
}

// ---------------------------------------------------------------------------
// Whole received paths
// ---------------------------------------------------------------------------

/// The safe segments of a split path, in order: each raw piece sanitized,
/// those that reduce to nothing dropped.
pub open spec fn sanitized_segments(segs: Seq<Seq<char>>) -> Seq<Seq<char>>
    decreases segs.len(),
{
    if segs.len() == 0 {
        Seq::<Seq<char>>::empty()
    } else {
        let init = sanitized_segments(segs.drop_last());
        match sanitized_component(segs.last()) {
            Some(x) => init.push(x),
            None => init,
        }
    }
}

/// Longest `rel_path` accepted, in bytes.
pub const MAX_REL_PATH_BYTES: usize = 4096;

/// Deepest nesting accepted.
pub const MAX_REL_PATH_DEPTH: usize = 64;

/// The relative path `sanitize_rel_path` rebuilds from `rel`, or `None` when
/// it rejects `rel` as malformed.
pub open spec fn rel_path_of(rel: Seq<char>) -> Option<Seq<char>> {
    if rel.len() == 0 || utf8_len(rel) > MAX_REL_PATH_BYTES {
        None
    } else {
        let safe = sanitized_segments(split_where(rel, |c: char| path_sep(c)));
        if safe.len() == 0 || safe.len() > MAX_REL_PATH_DEPTH {
            None
        } else {
            Some(join_with(safe, '/'))
        }
    }
}

pub open spec fn views(v: Seq<Vec<char>>) -> Seq<Seq<char>> {
    v.map_values(|x: Vec<char>| x@)
}

/// The pieces joined with `/`.
pub fn join_slash(parts: &Vec<Vec<char>>) -> (r: Vec<char>)
    ensures
        r@ == join_with(views(parts@), '/'),
{
    let mut r: Vec<char> = Vec::new();
    let mut j: usize = 0;
    while j < parts.len()
        invariant
            0 <= j <= parts.len(),
            r@ == join_with(views(parts@).take(j as int), '/'),
        decreases parts.len() - j,
    {
        let ghost before = r@;
        if j > 0 {
            r.push('/');
        }
        let seg = &parts[j];
        let mut k: usize = 0;
        while k < seg.len()
            invariant
                0 <= k <= seg.len(),
                r@ == (if j > 0 {
                    before + seq!['/']
                } else {
                    before
                }) + seg@.take(k as int),
            decreases seg.len() - k,
        {
            r.push(seg[k]);
            assert(seg@.take(k + 1) == seg@.take(k as int).push(seg@[k as int]));
            k = k + 1;
        }
        proof {
            assert(seg@.take(seg.len() as int) == seg@);
            let t = views(parts@).take(j + 1);
            assert(t.drop_last() == views(parts@).take(j as int));
            assert(t.last() == seg@);
            if j == 0 {
                assert(views(parts@).take(0) == Seq::<Seq<char>>::empty());
            }
        }
        j = j + 1;
    }
    assert(views(parts@).take(parts.len() as int) == views(parts@));
    r
}

/// Convert a received `rel_path` into a relative path that cannot
/// escape the download directory.
///
/// Splits on both separators, drops `..`, `.` and empty segments, sanitizes
/// the rest, and rejects a path that is empty, longer than 4096 bytes,
/// deeper than 64 segments, or reduces to nothing.
pub fn sanitize_rel_path(rel: &str) -> (r: TransferResult<String>)
    ensures
        match r {
            Ok(p) => rel_path_of(rel@) == Some(p@),
            Err(e) => rel_path_of(rel@) is None && e is MalformedPayload,
        },
{
    let v = chars_of(rel);
    if v.len() == 0 || str_byte_len(rel) > MAX_REL_PATH_BYTES {
        return Err(TransferError::MalformedPayload);
    }
    let ghost sep = |c: char| path_sep(c);
    let mut out: Vec<Vec<char>> = Vec::new();
    let mut cur: Vec<char> = Vec::new();
    let ghost mut done: Seq<Seq<char>> = Seq::empty();
    assert(v@.take(0) == Seq::<char>::empty());
    for i in 0..v.len()
        invariant
            v@ == rel@,
            sep == (|c: char| path_sep(c)),
            split_where(v@.take(i as int), sep) == done.push(cur@),
            views(out@) == sanitized_segments(done),
    {
        let c = v[i];
        assert(v@.take(i + 1).drop_last() == v@.take(i as int));
        assert(v@.take(i + 1).last() == c);
        if c == '/' || c == '\\' {
            let ghost old_out = views(out@);
            match sanitize_component_chars(&cur) {
                Some(safe) => {
                    let ghost sv = safe@;
                    out.push(safe);
                    assert(views(out@) == old_out.push(sv));
                },
                None => {},
            }
            proof {
                assert(done.push(cur@).drop_last() == done);
                assert(done.push(cur@).last() == cur@);
                assert(views(out@) == sanitized_segments(done.push(cur@)));
                done = done.push(cur@);
            }
            cur = Vec::new();
        } else {
            cur.push(c);
        }
    }
    assert(v@.take(v.len() as int) == v@);
    let ghost old_out = views(out@);
    match sanitize_component_chars(&cur) {
        Some(safe) => {
            let ghost sv = safe@;
            out.push(safe);
            assert(views(out@) == old_out.push(sv));
        },
        None => {},
    }
    proof {
        assert(done.push(cur@).drop_last() == done);
        assert(done.push(cur@).last() == cur@);
        assert(views(out@) == sanitized_segments(done.push(cur@)));
    }
    if out.len() == 0 || out.len() > MAX_REL_PATH_DEPTH {
        return Err(TransferError::MalformedPayload);
    }
    let joined = join_slash(&out);
    Ok(string_from_chars(joined.as_slice()))
}

/// The last piece after either separator: `rsplit(['/', '\\']).next()`.
pub open spec fn last_piece(s: Seq<char>) -> Seq<char> {
    split_where(s, |c: char| path_sep(c)).last()
}

/// Sanitize a single filename, e.g. one a content provider reported. Only
/// the part after the last separator is kept.
pub fn sanitize_file_name(raw: &str) -> (r: Option<String>)
    ensures
        match r {
            Some(s) => sanitized_component(last_piece(raw@)) == Some(s@),
            None => sanitized_component(last_piece(raw@)) is None,
        },
{
    let v = chars_of(raw);
    let ghost sep = |c: char| path_sep(c);
    let mut cur: Vec<char> = Vec::new();
    let ghost mut done: Seq<Seq<char>> = Seq::empty();
    assert(v@.take(0) == Seq::<char>::empty());
    for i in 0..v.len()
        invariant
            v@ == raw@,
            sep == (|c: char| path_sep(c)),
            split_where(v@.take(i as int), sep) == done.push(cur@),
    {
        let c = v[i];
        assert(v@.take(i + 1).drop_last() == v@.take(i as int));
        assert(v@.take(i + 1).last() == c);
        if c == '/' || c == '\\' {
            proof {
                done = done.push(cur@);
            }
            cur = Vec::new();
        } else {
            cur.push(c);
        }
    }
    assert(v@.take(v.len() as int) == v@);
    match sanitize_component_chars(&cur) {
        Some(c) => Some(string_from_chars(c.as_slice())),
        None => None,
    }
}

// ---------------------------------------------------------------------------
// Lexical path model (`std::path` on Unix)
// ---------------------------------------------------------------------------

/// The pieces between `/` separators, empty ones included.
pub open spec fn slash_pieces(s: Seq<char>) -> Seq<Seq<char>> {
    split_where(s, |c: char| slash(c))
}

/// Whether `s` is absolute: it starts at the root.
pub open spec fn is_rooted(s: Seq<char>) -> bool {
    s.len() > 0 && s[0] == '/'
}

/// The pieces that name something: empty pieces (doubled or trailing
/// separators) and `.` dropped, as `Path::components` and the `.`-skipping
/// normalization together do.
pub open spec fn named_pieces(pieces: Seq<Seq<char>>) -> Seq<Seq<char>>
    decreases pieces.len(),
{
    if pieces.len() == 0 {
        pieces
    } else {
        let init = named_pieces(pieces.drop_last());
        if pieces.last().len() == 0 || pieces.last() == "."@ {
            init
        } else {
            init.push(pieces.last())
        }
    }
}

/// `..` removes the previous component (and nothing at the start); other
/// components are kept.
pub open spec fn resolve_parents(c: Seq<Seq<char>>) -> Seq<Seq<char>>
    decreases c.len(),
{
    if c.len() == 0 {
        c
    } else {
        let n = resolve_parents(c.drop_last());
        if c.last() == ".."@ {
            if n.len() > 0 {
                n.drop_last()
            } else {
                n
            }
        } else {
            n.push(c.last())
        }
    }
}

/// The components of `s` after lexical resolution of `.` and `..`.
pub open spec fn normal_components(s: Seq<char>) -> Seq<Seq<char>> {
    resolve_parents(named_pieces(split_where(s, |c: char| slash(c))))
}

pub open spec fn is_prefix_of(a: Seq<Seq<char>>, b: Seq<Seq<char>>) -> bool {
    a.len() <= b.len() && b.take(a.len() as int) == a
}

/// `normalize(candidate).starts_with(normalize(root))`, compared by whole
/// components.
pub open spec fn within(root: Seq<char>, candidate: Seq<char>) -> bool {
    let rc = normal_components(root);
    let cc = normal_components(candidate);
    (!is_rooted(root) && rc.len() == 0) || (is_rooted(root) == is_rooted(candidate)
        && is_prefix_of(rc, cc))
}

/// `Path::join` for a relative or absolute `rel`: an absolute `rel`
/// replaces `base`; otherwise a separator is inserted when `base` is
/// non-empty and does not already end in one.
pub open spec fn joined(base: Seq<char>, rel: Seq<char>) -> Seq<char> {
    if is_rooted(rel) {
        rel
    } else if base.len() > 0 && base.last() != '/' {
        base + seq!['/'] + rel
    } else {
        base + rel
    }
}

fn vec_eq(a: &Vec<char>, b: &Vec<char>) -> (r: bool)
    ensures
        r == (a@ == b@),
{
    if a.len() != b.len() {
        return false;
    }
    let mut i: usize = 0;
    while i < a.len()
        invariant
            a.len() == b.len(),
            0 <= i <= a.len(),
            forall|j: int| 0 <= j < i ==> a@[j] == b@[j],
        decreases a.len() - i,
    {
        if a[i] != b[i] {
            return false;
        }
        i = i + 1;
    }
    assert(a@ == b@);
    true
}

/// Folds one piece into the resolved components.
fn resolve_piece(out: &mut Vec<Vec<char>>, piece: Vec<char>)
    ensures
        views(final(out)@) == (if piece@.len() == 0 || piece@ == "."@ {
            views(old(out)@)
        } else if piece@ == ".."@ {
            if old(out)@.len() > 0 {
                views(old(out)@).drop_last()
            } else {
                views(old(out)@)
            }
        } else {
            views(old(out)@).push(piece@)
        }),
{
    if piece.len() == 0 || chars_eq_str(&piece, ".") {
        return;
    }
    if chars_eq_str(&piece, "..") {
        if out.len() > 0 {
            let ghost before = views(out@);
            out.pop();
            assert(views(out@) == before.drop_last());
        }
        return;
    }
    let ghost before = views(out@);
    let ghost pv = piece@;
    out.push(piece);
    assert(views(out@) == before.push(pv));
}

/// Resolve `.` and `..` lexically, without touching the filesystem.
/// Returns whether the path is rooted, and its components.
fn normalize(path: &str) -> (r: (bool, Vec<Vec<char>>))
    ensures
        r.0 == is_rooted(path@),
        views(r.1@) == normal_components(path@),
{
    let v = chars_of(path);
    let ghost sep = |c: char| slash(c);
    let mut out: Vec<Vec<char>> = Vec::new();
    let mut cur: Vec<char> = Vec::new();
    let ghost mut done: Seq<Seq<char>> = Seq::empty();
    assert(v@.take(0) == Seq::<char>::empty());
    for i in 0..v.len()
        invariant
            v@ == path@,
            sep == (|c: char| slash(c)),
            split_where(v@.take(i as int), sep) == done.push(cur@),
            views(out@) == resolve_parents(named_pieces(done)),
    {
        let c = v[i];
        assert(v@.take(i + 1).drop_last() == v@.take(i as int));
        assert(v@.take(i + 1).last() == c);
        if c == '/' {
            let piece = cur;
            proof {
                let d2 = done.push(piece@);
                assert(d2.drop_last() == done);
                assert(d2.last() == piece@);
                let np = named_pieces(done);
                if !(piece@.len() == 0 || piece@ == "."@) {
                    assert(named_pieces(d2) == np.push(piece@));
                    assert(np.push(piece@).drop_last() == np);
                    assert(np.push(piece@).last() == piece@);
                }
            }
            resolve_piece(&mut out, piece);
            proof {
                done = done.push(piece@);
            }
            cur = Vec::new();
        } else {
            cur.push(c);
        }
    }
    assert(v@.take(v.len() as int) == v@);
    let last = cur;
    proof {
        let d2 = done.push(last@);
        assert(d2.drop_last() == done);
        assert(d2.last() == last@);
        let np = named_pieces(done);
        if !(last@.len() == 0 || last@ == "."@) {
            assert(np.push(last@).drop_last() == np);
            assert(np.push(last@).last() == last@);
        }
    }
    resolve_piece(&mut out, last);
    let rooted = v.len() > 0 && v[0] == '/';
    (rooted, out)
}

/// `Path::components` on Unix, each component as text: `/` for the root
/// of an absolute path, `.` only as the first component of a relative path
/// that starts with one, then the named pieces.
pub open spec fn std_components(s: Seq<char>) -> Seq<Seq<char>> {
    let pieces = slash_pieces(s);
    let head: Seq<Seq<char>> = if is_rooted(s) {
        seq!["/"@]
    } else if pieces[0] == "."@ {
        seq!["."@]
    } else {
        Seq::empty()
    };
    head + named_pieces(pieces)
}

/// `Path::starts_with`: `base`'s components are a prefix of `path`'s.
pub open spec fn path_starts_with(path: Seq<char>, base: Seq<char>) -> bool {
    is_prefix_of(std_components(base), std_components(path))
}

fn std_components_vec(s: &str) -> (r: Vec<Vec<char>>)
    ensures
        views(r@) == std_components(s@),
{
    let v = chars_of(s);
    let pieces = split_slash(&v);
    proof {
        crate::text::lemma_split_nonempty(v@, |c: char| slash(c));
    }
    let mut out: Vec<Vec<char>> = Vec::new();
    if v.len() > 0 && v[0] == '/' {
        out.push(chars_of("/"));
    } else if chars_eq_str(&pieces[0], ".") {
        out.push(chars_of("."));
    }
    let ghost head = views(out@);
    assert(views(pieces@).take(0) == Seq::<Seq<char>>::empty());
    let mut i: usize = 0;
    while i < pieces.len()
        invariant
            0 <= i <= pieces.len(),
            views(out@) == head + named_pieces(views(pieces@).take(i as int)),
        decreases pieces.len() - i,
    {
        let ghost before = views(out@);
        assert(views(pieces@).take(i + 1).drop_last() == views(pieces@).take(i as int));
        assert(views(pieces@).take(i + 1).last() == pieces@[i as int]@);
        if !(pieces[i].len() == 0 || chars_eq_str(&pieces[i], ".")) {
            let p = take_vec(&pieces[i], pieces[i].len());
            assert(pieces@[i as int]@.take(pieces@[i as int]@.len() as int) == pieces@[i as int]@);
            out.push(p);
            assert(views(out@) == before.push(p@));
        }
        i = i + 1;
    }
    assert(views(pieces@).take(pieces.len() as int) == views(pieces@));
    out
}

/// `Path::starts_with` on text paths, compared by whole components.
pub fn path_starts_with_str(path: &str, base: &str) -> (b: bool)
    ensures
        b == path_starts_with(path@, base@),
{
    let pc = std_components_vec(path);
    let bc = std_components_vec(base);
    if bc.len() > pc.len() {
        return false;
    }
    let mut i: usize = 0;
    while i < bc.len()
        invariant
            bc.len() <= pc.len(),
            0 <= i <= bc.len(),
            views(pc@) == std_components(path@),
            views(bc@) == std_components(base@),
            forall|j: int| 0 <= j < i ==> views(pc@)[j] == views(bc@)[j],
        decreases bc.len() - i,
    {
        assert(views(pc@)[i as int] == pc@[i as int]@);
        assert(views(bc@)[i as int] == bc@[i as int]@);
        if !vec_eq(&pc[i], &bc[i]) {
            assert(views(pc@).take(bc.len() as int)[i as int] != views(bc@)[i as int]);
            assert(views(pc@).take(bc.len() as int) != views(bc@));
            assert(!is_prefix_of(views(bc@), views(pc@)));
            return false;
        }
        i = i + 1;
    }
    assert(views(pc@).take(bc.len() as int) == views(bc@));
    true
}

/// The candidate, normalized, must still lie inside the
/// normalized root. Compared by whole components, so `/dl-evil` is not
/// inside `/dl`.
pub fn ensure_within(root: &str, candidate: &str) -> (r: TransferResult<()>)
    ensures
        r is Ok <==> within(root@, candidate@),
        r matches Err(e) ==> e is MalformedPayload,
{
    let (ra, rc) = normalize(root);
    let (ca, cc) = normalize(candidate);
    if !ra && rc.len() == 0 {
        return Ok(());
    }
    if ra != ca || rc.len() > cc.len() {
        proof {
            if is_prefix_of(views(rc@), views(cc@)) {
                assert(views(rc@).len() <= views(cc@).len());
            }
        }
        return Err(TransferError::MalformedPayload);
    }
    let mut i: usize = 0;
    while i < rc.len()
        invariant
            rc.len() <= cc.len(),
            0 <= i <= rc.len(),
            ra == is_rooted(root@),
            ca == is_rooted(candidate@),
            ra == ca,
            ra || rc.len() > 0,
            views(rc@) == normal_components(root@),
            views(cc@) == normal_components(candidate@),
            forall|j: int| 0 <= j < i ==> rc@[j]@ == cc@[j]@,
        decreases rc.len() - i,
    {
        if !vec_eq(&rc[i], &cc[i]) {
            proof {
                let t = views(cc@).take(rc.len() as int);
                assert(t[i as int] == cc@[i as int]@);
                assert(views(rc@)[i as int] == rc@[i as int]@);
                assert(t != views(rc@));
            }
            return Err(TransferError::MalformedPayload);
        }
        i = i + 1;
    }
    assert(views(cc@).take(rc.len() as int) == views(rc@));
    Ok(())
}

/// `base.join(rel)`.
pub fn join_path(base: &str, rel: &str) -> (r: String)
    ensures
        r@ == joined(base@, rel@),
{
    let rv = chars_of(rel);
    if rv.len() > 0 && rv[0] == '/' {
        return rel.to_owned();
    }
    let bv = chars_of(base);
    if bv.len() > 0 && bv[bv.len() - 1] != '/' {
        let mut r = base.to_owned();
        r.append("/");
        proof {
            reveal_strlit("/");
        }
        r.append(rel);
        r
    } else {
        concat2(base, rel)
    }
}

// ---------------------------------------------------------------------------
// A sanitized path joined to any root stays inside that root
// ---------------------------------------------------------------------------

proof fn lemma_named_pieces_concat(a: Seq<Seq<char>>, b: Seq<Seq<char>>)
    ensures
        named_pieces(a + b) == named_pieces(a) + named_pieces(b),
    decreases b.len(),
{
    if b.len() == 0 {
        assert(a + b == a);
        assert(named_pieces(a) + named_pieces(b) == named_pieces(a));
    } else {
        lemma_named_pieces_concat(a, b.drop_last());
        assert((a + b).drop_last() == a + b.drop_last());
        assert((a + b).last() == b.last());
        let na = named_pieces(a);
        let nb = named_pieces(b.drop_last());
        assert((na + nb).push(b.last()) == na + nb.push(b.last()));
    }
}

proof fn lemma_resolve_parents_append(x: Seq<Seq<char>>, s: Seq<Seq<char>>)
    requires
        forall|i: int| 0 <= i < s.len() ==> #[trigger] s[i] != ".."@,
    ensures
        resolve_parents(x + s) == resolve_parents(x) + s,
    decreases s.len(),
{
    if s.len() == 0 {
        assert(x + s == x);
    } else {
        assert forall|i: int| 0 <= i < s.drop_last().len() implies #[trigger] s.drop_last()[i]
            != ".."@ by {
            assert(s.drop_last()[i] == s[i]);
        }
        lemma_resolve_parents_append(x, s.drop_last());
        assert((x + s).drop_last() == x + s.drop_last());
        assert((x + s).last() == s.last());
        assert(s.last() == s[s.len() - 1]);
        assert((resolve_parents(x) + s.drop_last()).push(s.last()) == resolve_parents(x) + s);
    }
}

proof fn lemma_named_pieces_keep(s: Seq<Seq<char>>)
    requires
        forall|i: int| 0 <= i < s.len() ==> #[trigger] s[i].len() > 0 && s[i] != "."@,
    ensures
        named_pieces(s) == s,
    decreases s.len(),
{
    if s.len() > 0 {
        assert forall|i: int| 0 <= i < s.drop_last().len() implies #[trigger] s.drop_last()[i].len()
            > 0 && s.drop_last()[i] != "."@ by {
            assert(s.drop_last()[i] == s[i]);
        }
        lemma_named_pieces_keep(s.drop_last());
        assert(s.last() == s[s.len() - 1]);
        assert(s.drop_last().push(s.last()) == s);
    }
}

proof fn lemma_sanitized_segments_safe(segs: Seq<Seq<char>>)
    ensures
        forall|i: int|
            0 <= i < sanitized_segments(segs).len() ==> safe_component(
                #[trigger] sanitized_segments(segs)[i],
            ),
    decreases segs.len(),
{
    if segs.len() > 0 {
        lemma_sanitized_segments_safe(segs.drop_last());
        lemma_sanitized_component_is_safe(segs.last());
        let init = sanitized_segments(segs.drop_last());
        assert forall|i: int| 0 <= i < sanitized_segments(segs).len() implies safe_component(
            #[trigger] sanitized_segments(segs)[i],
        ) by {
            if i < init.len() {
                assert(sanitized_segments(segs)[i] == init[i]);
            }
        }
    }
}

proof fn lemma_join_with_first(parts: Seq<Seq<char>>, sep: char)
    requires
        parts.len() >= 1,
        parts[0].len() > 0,
    ensures
        join_with(parts, sep).len() > 0,
        join_with(parts, sep)[0] == parts[0][0],
    decreases parts.len(),
{
    if parts.len() > 1 {
        lemma_join_with_first(parts.drop_last(), sep);
        assert(parts.drop_last()[0] == parts[0]);
    }
}

/// The property the whole sanitizer exists for: whatever root the
/// download directory is, a path `sanitize_rel_path` accepts, joined onto
/// it, passes `ensure_within` for that root. Its segments are all safe
/// names, so none is `..`, and it is relative.
pub proof fn law_sanitized_path_stays_within(root: Seq<char>, rel: Seq<char>)
    requires
        rel_path_of(rel) is Some,
    ensures
        within(root, joined(root, rel_path_of(rel)->Some_0)),
        !is_rooted(rel_path_of(rel)->Some_0),
        forall|i: int|
            0 <= i < slash_pieces(rel_path_of(rel)->Some_0).len() ==> safe_component(
                #[trigger] slash_pieces(rel_path_of(rel)->Some_0)[i],
            ),
{
    reveal_strlit(".");
    reveal_strlit("..");
    let sl = |c: char| slash(c);
    let safe = sanitized_segments(split_where(rel, |c: char| path_sep(c)));
    let p = join_with(safe, '/');
    assert(rel_path_of(rel)->Some_0 == p);
    lemma_sanitized_segments_safe(split_where(rel, |c: char| path_sep(c)));
    // No safe segment holds a slash, so splitting the joined path gives
    // back exactly the safe segments.
    assert forall|i: int, j: int| 0 <= i < safe.len() && 0 <= j < safe[i].len() implies !sl(
        #[trigger] safe[i][j],
    ) by {
        assert(safe_component(safe[i]));
        assert(!illegal_char(safe[i][j]));
    }
    lemma_split_join(safe, '/', sl);
    assert(split_where(p, sl) == safe);
    assert(slash_pieces(p) == safe);
    // The path is relative: its first character opens a safe name.
    assert(safe_component(safe[0]));
    lemma_join_with_first(safe, '/');
    assert(!illegal_char(safe[0][0]));
    assert(!is_rooted(p));
    // Named and parent-free.
    assert forall|i: int| 0 <= i < safe.len() implies #[trigger] safe[i].len() > 0 && safe[i]
        != "."@ by {
        assert(safe_component(safe[i]));
    }
    assert forall|i: int| 0 <= i < safe.len() implies #[trigger] safe[i] != ".."@ by {
        assert(safe_component(safe[i]));
    }
    lemma_named_pieces_keep(safe);
    let j = joined(root, p);
    if root.len() == 0 {
        assert(root == Seq::<char>::empty());
        assert(split_where(root, sl) == seq![Seq::<char>::empty()]);
        assert(named_pieces(seq![Seq::<char>::empty()]).len() == 0) by {
            let e = seq![Seq::<char>::empty()];
            assert(e.drop_last() == Seq::<Seq<char>>::empty());
            assert(e.last().len() == 0);
            assert(named_pieces(Seq::<Seq<char>>::empty()) == Seq::<Seq<char>>::empty());
        }
        assert(normal_components(root).len() == 0);
        assert(!is_rooted(root));
    } else {
        let base = if root.last() == '/' {
            root.drop_last()
        } else {
            root
        };
        assert(j == base + seq!['/'] + p) by {
            if root.last() == '/' {
                assert(root == root.drop_last() + seq!['/']);
            }
        }
        lemma_split_concat(base, '/', p, sl);
        let sb = split_where(base, sl);
        assert(split_where(j, sl) == sb + safe);
        lemma_named_pieces_concat(sb, safe);
        lemma_resolve_parents_append(named_pieces(sb), safe);
        let nb = resolve_parents(named_pieces(sb));
        assert(normal_components(j) == nb + safe);
        // The root's own components are those of `base`.
        assert(normal_components(root) == nb) by {
            if root.last() == '/' {
                assert(root == base + seq!['/'] + Seq::<char>::empty());
                lemma_split_concat(base, '/', Seq::<char>::empty(), sl);
                assert(split_where(Seq::<char>::empty(), sl) == seq![Seq::<char>::empty()]);
                lemma_named_pieces_concat(sb, seq![Seq::<char>::empty()]);
                let e = seq![Seq::<char>::empty()];
                assert(e.drop_last() == Seq::<Seq<char>>::empty());
                assert(e.last().len() == 0);
                assert(named_pieces(Seq::<Seq<char>>::empty()) == Seq::<Seq<char>>::empty());
                assert(named_pieces(e) == Seq::<Seq<char>>::empty());
                assert(named_pieces(sb) + Seq::<Seq<char>>::empty() == named_pieces(sb));
            }
        }
        assert((nb + safe).take(nb.len() as int) == nb);
        assert(is_rooted(j) == is_rooted(root)) by {
            if root.last() == '/' && root.len() == 1 {
                assert(base.len() == 0);
                assert(j[0] == '/');
            } else {
                assert(j[0] == root[0]);
            }
        }
    }
}

// ---------------------------------------------------------------------------
// File names, parents and extensions (`std::path` on Unix)
// ---------------------------------------------------------------------------

/// Trailing separators and non-leading `.` pieces removed, never below a
/// lone root or a lone leading `.`: what `Path` ignores at the end.
pub open spec fn trim_back(t: Seq<char>) -> Seq<char>
    decreases t.len(),
{
    if t.len() <= 1 {
        t
    } else if t.last() == '/' {
        trim_back(t.drop_last())
    } else if t.last() == '.' && t[t.len() - 2] == '/' {
        trim_back(t.drop_last())
    } else {
        t
    }
}

/// Index of the last `c` in `u`, or -1.
pub open spec fn last_index_of(u: Seq<char>, c: char) -> int
    decreases u.len(),
{
    if u.len() == 0 {
        -1
    } else if u.last() == c {
        u.len() - 1
    } else {
        last_index_of(u.drop_last(), c)
    }
}

/// The last component of `t` and what precedes it, or `None` when `t` is
/// empty or the root alone.
pub open spec fn split_last_component(t: Seq<char>) -> Option<(Seq<char>, Seq<char>)> {
    let u = trim_back(t);
    if u.len() == 0 || u == seq!['/'] {
        None
    } else if u == seq!['.'] {
        Some((Seq::<char>::empty(), u))
    } else {
        let k = last_index_of(u, '/');
        let prefix = if k < 0 {
            Seq::<char>::empty()
        } else if k == 0 {
            seq!['/']
        } else {
            u.take(k)
        };
        Some((trim_back(prefix), u.skip(k + 1)))
    }
}

/// `Path::file_name`.
pub open spec fn file_name_of(t: Seq<char>) -> Option<Seq<char>> {
    match split_last_component(t) {
        Some((_, c)) => if c == seq!['.'] || c == seq!['.', '.'] {
            None
        } else {
            Some(c)
        },
        None => None,
    }
}

/// `Path::parent`.
pub open spec fn parent_of(t: Seq<char>) -> Option<Seq<char>> {
    match split_last_component(t) {
        Some((p, _)) => Some(p),
        None => None,
    }
}

/// `Path::file_stem` and `Path::extension` of a file name: split at the
/// last dot, unless that dot is the first character.
pub open spec fn stem_and_extension(n: Seq<char>) -> (Seq<char>, Option<Seq<char>>) {
    let i = last_index_of(n, '.');
    if i <= 0 {
        (n, None)
    } else {
        (n.take(i), Some(n.skip(i + 1)))
    }
}

/// `Path::extension`.
pub open spec fn extension_of(t: Seq<char>) -> Option<Seq<char>> {
    match file_name_of(t) {
        Some(n) => stem_and_extension(n).1,
        None => None,
    }
}

fn trim_back_vec(v: &mut Vec<char>)
    ensures
        final(v)@ == trim_back(old(v)@),
{
    while v.len() > 1 && (v[v.len() - 1] == '/' || (v[v.len() - 1] == '.' && v[v.len() - 2]
        == '/'))
        invariant
            trim_back(v@) == trim_back(old(v)@),
        decreases v.len(),
    {
        let ghost before = v@;
        v.pop();
        assert(v@ == before.drop_last());
    }
}

fn last_index(v: &Vec<char>, c: char) -> (k: Option<usize>)
    ensures
        match k {
            Some(i) => last_index_of(v@, c) == i as int && i < v.len(),
            None => last_index_of(v@, c) == -1,
        },
{
    let mut j = v.len();
    assert(v@.take(j as int) == v@);
    while j > 0 && v[j - 1] != c
        invariant
            j <= v.len(),
            last_index_of(v@, c) == last_index_of(v@.take(j as int), c),
        decreases j,
    {
        assert(v@.take(j as int).drop_last() == v@.take(j - 1));
        j = j - 1;
    }
    if j == 0 {
        assert(v@.take(0) == Seq::<char>::empty());
        None
    } else {
        Some(j - 1)
    }
}

fn take_vec(v: &Vec<char>, n: usize) -> (r: Vec<char>)
    requires
        n <= v.len(),
    ensures
        r@ == v@.take(n as int),
{
    let mut r: Vec<char> = Vec::new();
    let mut i: usize = 0;
    while i < n
        invariant
            i <= n <= v.len(),
            r@ == v@.take(i as int),
        decreases n - i,
    {
        r.push(v[i]);
        assert(v@.take(i + 1) == v@.take(i as int).push(v@[i as int]));
        i = i + 1;
    }
    r
}

fn skip_vec(v: &Vec<char>, n: usize) -> (r: Vec<char>)
    requires
        n <= v.len(),
    ensures
        r@ == v@.skip(n as int),
{
    let mut r: Vec<char> = Vec::new();
    let mut i: usize = n;
    while i < v.len()
        invariant
            n <= i <= v.len(),
            r@ == v@.subrange(n as int, i as int),
        decreases v.len() - i,
    {
        r.push(v[i]);
        assert(v@.subrange(n as int, i + 1) == v@.subrange(n as int, i as int).push(v@[i as int]));
        i = i + 1;
    }
    r
}

/// The split of `t` into what precedes its last component and that
/// component.
fn last_component(t: &Vec<char>) -> (r: Option<(Vec<char>, Vec<char>)>)
    ensures
        match r {
            Some((p, c)) => split_last_component(t@) == Some((p@, c@)),
            None => split_last_component(t@) is None,
        },
{
    let mut u = t.clone();
    trim_back_vec(&mut u);
    if u.len() == 0 || (u.len() == 1 && u[0] == '/') {
        proof {
            if u.len() == 1 {
                assert(u@ == seq!['/']);
            }
        }
        return None;
    }
    if u.len() == 1 && u[0] == '.' {
        assert(u@ == seq!['.']);
        return Some((Vec::new(), u));
    }
    proof {
        if u@ == seq!['/'] || u@ == seq!['.'] {
            assert(u@.len() == 1);
        }
    }
    let k = last_index(&u, '/');
    match k {
        None => {
            assert(u@.skip(0) == u@);
            Some((Vec::new(), u))
        },
        Some(i) => {
            let comp = skip_vec(&u, i + 1);
            let mut prefix = if i == 0 {
                let mut p: Vec<char> = Vec::new();
                p.push('/');
                p
            } else {
                take_vec(&u, i)
            };
            trim_back_vec(&mut prefix);
            Some((prefix, comp))
        },
    }
}

fn is_dot_pair(c: &Vec<char>) -> (b: bool)
    ensures
        b == (c@ == seq!['.'] || c@ == seq!['.', '.']),
{
    if c.len() == 1 {
        assert(c@ == seq!['.'] ==> c@[0] == '.');
        assert(c@[0] == '.' ==> c@ == seq!['.']);
        c[0] == '.'
    } else if c.len() == 2 {
        assert(c@ == seq!['.', '.'] ==> c@[0] == '.' && c@[1] == '.');
        assert(c@[0] == '.' && c@[1] == '.' ==> c@ == seq!['.', '.']);
        c[0] == '.' && c[1] == '.'
    } else {
        false
    }
}

fn file_name_vec(t: &Vec<char>) -> (r: Option<Vec<char>>)
    ensures
        match r {
            Some(n) => file_name_of(t@) == Some(n@),
            None => file_name_of(t@) is None,
        },
{
    match last_component(t) {
        Some((_, c)) => if is_dot_pair(&c) {
            None
        } else {
            Some(c)
        },
        None => None,
    }
}

fn stem_ext_vec(n: &Vec<char>) -> (r: (Vec<char>, Option<Vec<char>>))
    ensures
        stem_and_extension(n@).0 == r.0@,
        match r.1 {
            Some(e) => stem_and_extension(n@).1 == Some(e@),
            None => stem_and_extension(n@).1 is None,
        },
{
    match last_index(n, '.') {
        Some(i) if i > 0 => (take_vec(n, i), Some(skip_vec(n, i + 1))),
        _ => (n.clone(), None),
    }
}

/// `Path::file_name` of a path string.
pub fn file_name(path: &str) -> (r: Option<String>)
    ensures
        match r {
            Some(n) => file_name_of(path@) == Some(n@),
            None => file_name_of(path@) is None,
        },
{
    match file_name_vec(&chars_of(path)) {
        Some(n) => Some(string_from_chars(n.as_slice())),
        None => None,
    }
}

/// `Path::parent` of a path string.
pub fn parent(path: &str) -> (r: Option<String>)
    ensures
        match r {
            Some(p) => parent_of(path@) == Some(p@),
            None => parent_of(path@) is None,
        },
{
    match last_component(&chars_of(path)) {
        Some((p, _)) => Some(string_from_chars(p.as_slice())),
        None => None,
    }
}

/// `Path::extension` of a path string.
pub fn extension(path: &str) -> (r: Option<String>)
    ensures
        match r {
            Some(e) => extension_of(path@) == Some(e@),
            None => extension_of(path@) is None,
        },
{
    match file_name_vec(&chars_of(path)) {
        Some(n) => match stem_ext_vec(&n).1 {
            Some(e) => Some(string_from_chars(e.as_slice())),
            None => None,
        },
        None => None,
    }
}

// ---------------------------------------------------------------------------
// Collisions, organization, staging names
// ---------------------------------------------------------------------------

/// Highest counter tried by the rename policy, exclusive.
pub const RENAME_LIMIT: u32 = 10000;

/// Directory, stem and extension suffix of `target` as the rename policy
/// splits it: `report (2).pdf`, not `report.pdf (2)`.
pub open spec fn rename_parts(t: Seq<char>) -> (Seq<char>, Seq<char>, Seq<char>) {
    let dir = match parent_of(t) {
        Some(p) => p,
        None => Seq::<char>::empty(),
    };
    match file_name_of(t) {
        Some(n) => (
            dir,
            stem_and_extension(n).0,
            match stem_and_extension(n).1 {
                Some(e) => seq!['.'] + e,
                None => Seq::<char>::empty(),
            },
        ),
        None => (dir, "file"@, Seq::<char>::empty()),
    }
}

/// The `n`th rename candidate for `t`.
pub open spec fn rename_candidate(t: Seq<char>, n: nat) -> Seq<char> {
    let (dir, stem, ext) = rename_parts(t);
    joined(dir, stem + seq![' ', '('] + decimal(n) + seq![')'] + ext)
}

pub open spec fn taken(existing: Seq<String>, p: Seq<char>) -> bool {
    exists|i: int| 0 <= i < existing.len() && #[trigger] existing[i]@ == p
}

/// The first free candidate numbered `n` or above, below the limit.
pub open spec fn first_free_candidate(t: Seq<char>, existing: Seq<String>, n: nat) -> Option<
    Seq<char>,
>
    decreases RENAME_LIMIT - n,
{
    if n >= RENAME_LIMIT {
        None
    } else if !taken(existing, rename_candidate(t, n)) {
        Some(rename_candidate(t, n))
    } else {
        first_free_candidate(t, existing, n + 1)
    }
}

/// What the collision policy makes of `target` when the paths in
/// `existing` are already present: `None` means skip the entry.
pub open spec fn collision_outcome(
    t: Seq<char>,
    policy: CollisionPolicy,
    existing: Seq<String>,
) -> Option<Seq<char>> {
    if !taken(existing, t) {
        Some(t)
    } else {
        match policy {
            CollisionPolicy::Overwrite => Some(t),
            CollisionPolicy::Skip => None,
            CollisionPolicy::Rename => first_free_candidate(t, existing, 2),
        }
    }
}


proof fn lemma_first_free_is_free(t: Seq<char>, existing: Seq<String>, n: nat)
    ensures
        first_free_candidate(t, existing, n) matches Some(p) ==> !taken(existing, p),
    decreases RENAME_LIMIT - n,
{
    if n < RENAME_LIMIT && taken(existing, rename_candidate(t, n)) {
        lemma_first_free_is_free(t, existing, n + 1);
    }
}

/// An existing file is never clobbered except by the overwrite policy:
/// whatever path the rename or skip policy hands back is not among the
/// existing paths.
pub proof fn law_collision_never_clobbers(t: Seq<char>, policy: CollisionPolicy, existing: Seq<String>)
    requires
        policy != CollisionPolicy::Overwrite,
    ensures
        collision_outcome(t, policy, existing) matches Some(p) ==> !taken(existing, p),
{
    lemma_first_free_is_free(t, existing, 2);
}

fn is_taken(existing: &Vec<String>, p: &str) -> (b: bool)
    ensures
        b == taken(existing@, p@),
{
    let ps = p.to_owned();
    let mut i: usize = 0;
    while i < existing.len()
        invariant
            0 <= i <= existing.len(),
            ps@ == p@,
            forall|j: int| 0 <= j < i ==> existing@[j]@ != p@,
        decreases existing.len() - i,
    {
        if existing[i] == ps {
            proof {
                assert(existing@[i as int]@ == p@);
            }
            return true;
        }
        i = i + 1;
    }
    false
}

fn chars_to_string(v: &Vec<char>) -> (s: String)
    ensures
        s@ == v@,
{
    string_from_chars(v.as_slice())
}

/// Apply the collision policy. `existing` lists the paths already
/// present on disk; `None` means "skip this entry". Renames try
/// `stem (2).ext` upwards and give up after 9,998 taken candidates.
pub fn resolve_collision(target: &str, policy: CollisionPolicy, existing: &Vec<String>) -> (r:
    Option<String>)
    ensures
        match r {
            Some(p) => collision_outcome(target@, policy, existing@) == Some(p@),
            None => collision_outcome(target@, policy, existing@) is None,
        },
{
    if !is_taken(existing, target) {
        return Some(target.to_owned());
    }
    match policy {
        CollisionPolicy::Overwrite => Some(target.to_owned()),
        CollisionPolicy::Skip => None,
        CollisionPolicy::Rename => {
            let t = chars_of(target);
            let dir: Vec<char> = match last_component(&t) {
                Some((p, _)) => p,
                None => Vec::new(),
            };
            let (stem, ext): (Vec<char>, Vec<char>) = match file_name_vec(&t) {
                Some(n) => {
                    let (st, e) = stem_ext_vec(&n);
                    let ext = match e {
                        Some(e) => {
                            let mut x: Vec<char> = Vec::new();
                            x.push('.');
                            let mut k: usize = 0;
                            while k < e.len()
                                invariant
                                    0 <= k <= e.len(),
                                    x@ == seq!['.'] + e@.take(k as int),
                                decreases e.len() - k,
                            {
                                x.push(e[k]);
                                assert(e@.take(k + 1) == e@.take(k as int).push(e@[k as int]));
                                k = k + 1;
                            }
                            assert(e@.take(e.len() as int) == e@);
                            x
                        },
                        None => Vec::new(),
                    };
                    (st, ext)
                },
                None => (chars_of("file"), Vec::new()),
            };
            assert(rename_parts(target@) == (dir@, stem@, ext@));
            let dir_s = chars_to_string(&dir);
            let mut n: u32 = 2;
            while n < RENAME_LIMIT
                invariant
                    2 <= n <= RENAME_LIMIT,
                    taken(existing@, target@),
                    policy == CollisionPolicy::Rename,
                    rename_parts(target@) == (dir_s@, stem@, ext@),
                    first_free_candidate(target@, existing@, 2) == first_free_candidate(
                        target@,
                        existing@,
                        n as nat,
                    ),
                decreases RENAME_LIMIT - n,
            {
                let mut name = stem.clone();
                name.push(' ');
                name.push('(');
                let digits = decimal_chars(n as u64);
                let mut k: usize = 0;
                let ghost base = name@;
                while k < digits.len()
                    invariant
                        0 <= k <= digits.len(),
                        name@ == base + digits@.take(k as int),
                    decreases digits.len() - k,
                {
                    name.push(digits[k]);
                    assert(digits@.take(k + 1) == digits@.take(k as int).push(digits@[k as int]));
                    k = k + 1;
                }
                assert(digits@.take(digits.len() as int) == digits@);
                name.push(')');
                let ghost base2 = name@;
                let mut k2: usize = 0;
                while k2 < ext.len()
                    invariant
                        0 <= k2 <= ext.len(),
                        name@ == base2 + ext@.take(k2 as int),
                    decreases ext.len() - k2,
                {
                    name.push(ext[k2]);
                    assert(ext@.take(k2 + 1) == ext@.take(k2 as int).push(ext@[k2 as int]));
                    k2 = k2 + 1;
                }
                assert(ext@.take(ext.len() as int) == ext@);
                assert(name@ == stem@ + seq![' ', '('] + decimal(n as nat) + seq![')'] + ext@);
                let candidate = join_path(dir_s.as_str(), chars_to_string(&name).as_str());
                assert(candidate@ == rename_candidate(target@, n as nat));
                if !is_taken(existing, candidate.as_str()) {
                    return Some(candidate);
                }
                n = n + 1;
            }
            None
        },
    }
}

/// The wrapped result of `str::to_uppercase`: full Unicode case mapping.
pub uninterp spec fn unicode_uppercase(s: Seq<char>) -> Seq<char>;

/// `str::to_uppercase`. The result is named by `unicode_uppercase`; for a
/// string of ASCII characters the standard library documents it as the
/// ASCII uppercase mapping.
#[verifier::external_body]
fn to_uppercase(s: &str) -> (r: String)
    ensures
        r@ == unicode_uppercase(s@),
        (forall|i: int| 0 <= i < s@.len() ==> (#[trigger] s@[i] as u32) < 128) ==> r@
            == upper_ascii_seq(s@),
{
    s.to_uppercase()
}

/// The folder an entry is filed under when organizing by file type.
pub open spec fn type_folder(file_name: Seq<char>) -> Seq<char> {
    match extension_of(file_name) {
        Some(e) => if unicode_uppercase(e).len() > 0 {
            unicode_uppercase(e)
        } else {
            "OTHER"@
        },
        None => "OTHER"@,
    }
}

/// The folder an entry is filed under when organizing by sender.
pub open spec fn sender_folder(alias: Seq<char>) -> Seq<char> {
    match sanitized_component(alias) {
        Some(s) => s,
        None => "Unknown"@,
    }
}

pub open spec fn organized_dir(
    root: Seq<char>,
    alias: Seq<char>,
    file_name: Seq<char>,
    by_sender: bool,
    by_type: bool,
) -> Seq<char> {
    let d1 = if by_sender {
        joined(root, sender_folder(alias))
    } else {
        root
    };
    if by_type {
        joined(d1, type_folder(file_name))
    } else {
        d1
    }
}

/// Optional subfoldering by sender (outside) and/or file type
/// (inside), e.g. `root/Galaxy S24/PNG`.
pub fn organize_dir(
    root: &str,
    sender_alias: &str,
    file_name: &str,
    by_sender: bool,
    by_type: bool,
) -> (d: String)
    ensures
        d@ == organized_dir(root@, sender_alias@, file_name@, by_sender, by_type),
{
    let mut dir = root.to_owned();
    if by_sender {
        let safe = match sanitize_component(sender_alias) {
            Some(s) => s,
            None => "Unknown".to_owned(),
        };
        dir = join_path(dir.as_str(), safe.as_str());
    }
    if by_type {
        let ext = match extension(file_name) {
            Some(e) => {
                let up = to_uppercase(e.as_str());
                if up.as_str().is_empty() {
                    "OTHER".to_owned()
                } else {
                    up
                }
            },
            None => "OTHER".to_owned(),
        };
        dir = join_path(dir.as_str(), ext.as_str());
    }
    dir
}

/// `target.with_file_name(name)`.
pub open spec fn with_file_name(t: Seq<char>, name: Seq<char>) -> Seq<char> {
    match file_name_of(t) {
        Some(_) => joined(parent_of(t)->Some_0, name),
        None => joined(t, name),
    }
}

/// The `.part` staging path: `.part` appended to the whole file name, so
/// `report.pdf` stages as `report.pdf.part`.
pub open spec fn part_path_of(t: Seq<char>) -> Seq<char> {
    let name = match file_name_of(t) {
        Some(n) => n,
        None => Seq::<char>::empty(),
    };
    with_file_name(t, name + ".part"@)
}


proof fn lemma_last_index_concat(a: Seq<char>, b: Seq<char>, c: char)
    requires
        !b.contains(c),
    ensures
        last_index_of(a + b, c) == last_index_of(a, c),
    decreases b.len(),
{
    if b.len() == 0 {
        assert(a + b == a);
    } else {
        assert((a + b).drop_last() == a + b.drop_last());
        assert((a + b).last() == b.last());
        assert(b.contains(b.last()) || b.last() != c);
        if b.drop_last().contains(c) {
            let j = choose|j: int| 0 <= j < b.drop_last().len() && b.drop_last()[j] == c;
            assert(b[j] == c);
        }
        lemma_last_index_concat(a, b.drop_last(), c);
    }
}

proof fn lemma_last_index_bounds(u: Seq<char>, c: char)
    ensures
        -1 <= last_index_of(u, c) < u.len(),
        last_index_of(u, c) >= 0 ==> u[last_index_of(u, c)] == c,
        forall|j: int| last_index_of(u, c) < j < u.len() ==> u[j] != c,
    decreases u.len(),
{
    if u.len() > 0 && u.last() != c {
        lemma_last_index_bounds(u.drop_last(), c);
        assert forall|j: int| last_index_of(u, c) < j < u.len() implies u[j] != c by {
            if j < u.len() - 1 {
                assert(u[j] == u.drop_last()[j]);
            }
        }
    }
}

proof fn lemma_trim_back_end(t: Seq<char>)
    ensures
        trim_back(t).len() > 1 ==> trim_back(t).last() != '/',
    decreases t.len(),
{
    if t.len() > 1 && (t.last() == '/' || (t.last() == '.' && t[t.len() - 2] == '/')) {
        lemma_trim_back_end(t.drop_last());
    }
}

/// A file name is non-empty and holds no separator.
proof fn lemma_file_name_shape(t: Seq<char>)
    requires
        file_name_of(t) is Some,
    ensures
        file_name_of(t)->Some_0.len() > 0,
        !file_name_of(t)->Some_0.contains('/'),
        parent_of(t) is Some,
{
    let u = trim_back(t);
    lemma_trim_back_end(t);
    lemma_last_index_bounds(u, '/');
    let k = last_index_of(u, '/');
    if u != seq!['.'] {
        let n = u.skip(k + 1);
        assert(n == file_name_of(t)->Some_0);
        if u.len() == 1 {
            assert(u[0] != '/') by {
                if u[0] == '/' {
                    assert(u == seq!['/']);
                }
            }
        }
        assert(k < u.len() - 1);
        assert(n.len() > 0);
        if n.contains('/') {
            let j = choose|j: int| 0 <= j < n.len() && n[j] == '/';
            assert(u[k + 1 + j] == '/');
        }
    }
}

/// Staging files are always swept: the `.part` path of any target that
/// names a file has the extension `part`, exactly what the start-up sweep
/// removes.
pub proof fn law_part_files_are_swept(t: Seq<char>)
    requires
        file_name_of(t) is Some,
    ensures
        extension_of(part_path_of(t)) == Some("part"@),
{
    reveal_strlit(".part");
    reveal_strlit("part");
    lemma_file_name_shape(t);
    let n = file_name_of(t)->Some_0;
    let p = parent_of(t)->Some_0;
    let m = n + ".part"@;
    assert(!".part"@.contains('/'));
    assert(!m.contains('/')) by {
        if m.contains('/') {
            let j = choose|j: int| 0 <= j < m.len() && m[j] == '/';
            if j < n.len() {
                assert(n[j] == '/');
            } else {
                assert(".part"@[j - n.len()] == '/');
            }
        }
    }
    assert(m[0] == n[0]);
    assert(!is_rooted(m));
    let x = part_path_of(t);
    assert(x == joined(p, m));
    assert(x.len() > 1);
    assert(x.last() == 't');
    assert(trim_back(x) == x);
    lemma_last_index_bounds(x, '/');
    if p.len() > 0 && p.last() != '/' {
        assert(x == (p + seq!['/']) + m);
        lemma_last_index_concat(p + seq!['/'], m, '/');
        assert(last_index_of(p + seq!['/'], '/') == p.len());
        assert(x.skip(p.len() + 1int) == m);
    } else if p.len() > 0 {
        assert(x == p + m);
        lemma_last_index_concat(p, m, '/');
        assert(last_index_of(p, '/') == p.len() - 1);
        assert(x.skip(p.len() as int) == m);
    } else {
        assert(x == m);
        lemma_last_index_concat(Seq::<char>::empty(), m, '/');
        assert(Seq::<char>::empty() + m == m);
        assert(x.skip(0) == m);
    }
    assert(x != seq!['/'] && x != seq!['.']);
    assert(split_last_component(x) matches Some((_, c)) && c == m);
    assert(m != seq!['.'] && m != seq!['.', '.']);
    assert(file_name_of(x) == Some(m));
    assert(m == (n + seq!['.']) + "part"@);
    assert(!"part"@.contains('.'));
    lemma_last_index_concat(n + seq!['.'], "part"@, '.');
    assert(last_index_of(n + seq!['.'], '.') == n.len());
    assert(m.skip(n.len() + 1int) == "part"@);
}

/// The `.part` staging name for an in-flight file.
pub fn part_path(target: &str) -> (p: String)
    ensures
        p@ == part_path_of(target@),
{
    let t = chars_of(target);
    match last_component(&t) {
        Some((dir, c)) if !is_dot_pair(&c) => {
            let name = concat2(chars_to_string(&c).as_str(), ".part");
            join_path(chars_to_string(&dir).as_str(), name.as_str())
        },
        _ => {
            proof {
                reveal_strlit(".part");
            }
            let name = ".part";
            assert(file_name_of(target@) is None);
            assert(Seq::<char>::empty() + ".part"@ == ".part"@);
            join_path(target, name)
        },
    }
}

/// The path used for filesystem calls. Only Windows needs an extended-length
/// prefix, so elsewhere the path is used unchanged.
pub fn extended(path: &str) -> (p: String)
    ensures
        p@ == path@,
{
    path.to_owned()
}

/// The Windows extended-length form of `path`, which lifts the 260-character
/// limit: unchanged when it already carries the `\\?\` prefix or is not
/// absolute (`absolute` is `Path::is_absolute` on Windows), `\\?\UNC`
/// followed by the path less one leading backslash for a UNC share, and
/// `\\?\` in front otherwise.
pub open spec fn windows_extended(path: Seq<char>, absolute: bool) -> Seq<char> {
    if has_prefix(path, "\\\\?\\"@) || !absolute {
        path
    } else if has_prefix(path, "\\\\"@) {
        "\\\\?\\UNC"@ + path.skip(1)
    } else {
        "\\\\?\\"@ + path
    }
}

/// `extended` as Windows builds it; see `windows_extended`.
pub fn extended_windows(path: &str, absolute: bool) -> (p: String)
    ensures
        p@ == windows_extended(path@, absolute),
{
    if starts_with_str(path, "\\\\?\\") || !absolute {
        return path.to_owned();
    }
    if starts_with_str(path, "\\\\") {
        proof {
            reveal_strlit("\\\\");
        }
        let v = chars_of(path);
        let rest = chars_to_string(&skip_vec(&v, 1));
        concat2("\\\\?\\UNC", rest.as_str())
    } else {
        concat2("\\\\?\\", path)
    }
}

// ---------------------------------------------------------------------------
// Android SAF content URIs
// ---------------------------------------------------------------------------

/// The wrapped result of `String::from_utf8_lossy`: invalid sequences
/// become U+FFFD.
pub uninterp spec fn utf8_lossy(b: Seq<u8>) -> Seq<char>;

/// `String::from_utf8_lossy(bytes).into_owned()`. The standard library
/// documents that valid UTF-8 is decoded unchanged; what replacement
/// characters stand in for invalid input is left to the name.
#[verifier::external_body]
fn from_utf8_lossy(bytes: &[u8]) -> (s: String)
    ensures
        s@ == utf8_lossy(bytes@),
        vstd::utf8::valid_utf8(bytes@) ==> s@ == vstd::utf8::decode_utf8(bytes@),
{
    String::from_utf8_lossy(bytes).into_owned()
}

pub open spec fn hex_digit(b: u8) -> Option<u8> {
    if 0x30 <= b && b <= 0x39 {
        Some((b - 0x30) as u8)
    } else if 0x61 <= b && b <= 0x66 {
        Some((b - 0x61 + 10) as u8)
    } else if 0x41 <= b && b <= 0x46 {
        Some((b - 0x41 + 10) as u8)
    } else {
        None
    }
}

/// The byte that two hex digits spell, high digit first; `None` unless both
/// bytes are hex digits.
pub open spec fn hex_pair(b1: u8, b2: u8) -> Option<u8> {
    match (hex_digit(b1), hex_digit(b2)) {
        (Some(h), Some(l)) => Some((16 * h + l) as u8),
        _ => None,
    }
}

/// `%XX` escapes decoded; anything else, including a `%` not followed by
/// two hex digits or at the very end, copied as is.
pub open spec fn percent_decoded(b: Seq<u8>) -> Seq<u8>
    decreases b.len(),
{
    if b.len() == 0 {
        b
    } else if b[0] == 0x25 && 2 < b.len() && hex_pair(b[1], b[2]) is Some {
        seq![hex_pair(b[1], b[2])->Some_0] + percent_decoded(b.skip(3))
    } else {
        seq![b[0]] + percent_decoded(b.drop_first())
    }
}

fn hex_digit_of(b: u8) -> (r: Option<u8>)
    ensures
        r == hex_digit(b),
{
    if 0x30 <= b && b <= 0x39 {
        Some(b - 0x30)
    } else if 0x61 <= b && b <= 0x66 {
        Some(b - 0x61 + 10)
    } else if 0x41 <= b && b <= 0x46 {
        Some(b - 0x41 + 10)
    } else {
        None
    }
}

fn hex_pair_of(b1: u8, b2: u8) -> (r: Option<u8>)
    ensures
        r == hex_pair(b1, b2),
{
    match (hex_digit_of(b1), hex_digit_of(b2)) {
        (Some(h), Some(l)) => Some(16 * h + l),
        _ => None,
    }
}

fn percent_decode_bytes(b: &[u8]) -> (out: Vec<u8>)
    ensures
        out@ == percent_decoded(b@),
{
    let mut out: Vec<u8> = Vec::new();
    let mut i: usize = 0;
    assert(b@.skip(0) == b@);
    while i < b.len()
        invariant
            0 <= i <= b.len(),
            out@ + percent_decoded(b@.skip(i as int)) == percent_decoded(b@),
        decreases b.len() - i,
    {
        let ghost rest = b@.skip(i as int);
        if b[i] == 0x25 && b.len() - i > 2 {
            match hex_pair_of(b[i + 1], b[i + 2]) {
                Some(v) => {
                    proof {
                        assert(rest[0] == b@[i as int]);
                        assert(rest[1] == b@[i + 1]);
                        assert(rest[2] == b@[i + 2]);
                        assert(rest.skip(3) == b@.skip(i + 3));
                        assert(out@.push(v) + percent_decoded(b@.skip(i + 3)) == out@ + (seq![v]
                            + percent_decoded(rest.skip(3))));
                    }
                    out.push(v);
                    i = i + 3;
                    continue;
                },
                None => {},
            }
        }
        proof {
            assert(rest[0] == b@[i as int]);
            if rest[0] == 0x25 && 2 < rest.len() {
                assert(rest[1] == b@[i + 1]);
                assert(rest[2] == b@[i + 2]);
            }
            assert(rest.drop_first() == b@.skip(i + 1));
            assert(out@.push(b@[i as int]) + percent_decoded(b@.skip(i + 1)) == out@ + (seq![
                b@[i as int],
            ] + percent_decoded(rest.drop_first())));
        }
        out.push(b[i]);
        i = i + 1;
    }
    assert(b@.skip(b.len() as int) == Seq::<u8>::empty());
    out
}

/// The UTF-8 bytes of `s`.
pub open spec fn utf8_bytes(s: Seq<char>) -> Seq<u8> {
    vstd::utf8::encode_utf8(s)
}

/// Minimal percent-decoding of `s`, then a lossy UTF-8 decode.
pub fn percent_decode(s: &str) -> (r: String)
    ensures
        r@ == utf8_lossy(percent_decoded(utf8_bytes(s@))),
{
    let decoded = percent_decode_bytes(s.as_bytes());
    from_utf8_lossy(decoded.as_slice())
}

/// The first index of `c` in `s`, or -1.
pub open spec fn first_index_of(s: Seq<char>, c: char) -> int
    decreases s.len(),
{
    if s.len() == 0 {
        -1
    } else if s[0] == c {
        0
    } else if first_index_of(s.drop_first(), c) < 0 {
        -1
    } else {
        1 + first_index_of(s.drop_first(), c)
    }
}

fn first_index(v: &Vec<char>, c: char) -> (k: Option<usize>)
    ensures
        match k {
            Some(i) => first_index_of(v@, c) == i as int && i < v.len(),
            None => first_index_of(v@, c) == -1,
        },
{
    let mut i: usize = 0;
    assert(v@.skip(0) == v@);
    while i < v.len()
        invariant
            0 <= i <= v.len(),
            first_index_of(v@, c) == (if first_index_of(v@.skip(i as int), c) < 0 {
                -1
            } else {
                i + first_index_of(v@.skip(i as int), c)
            }),
        decreases v.len() - i,
    {
        assert(v@.skip(i as int)[0] == v@[i as int]);
        if v[i] == c {
            return Some(i);
        }
        assert(v@.skip(i as int).drop_first() == v@.skip(i + 1));
        i = i + 1;
    }
    None
}

/// The volume path a decoded `<volume>:<relative path>` pair names:
/// `primary` is the emulated storage, any other volume is mounted under its
/// id, and the relative part is rebuilt by `sanitize_rel_path`.
pub open spec fn saf_volume_path_of(decoded: Seq<char>) -> Option<Seq<char>> {
    let k = first_index_of(decoded, ':');
    if k < 0 {
        None
    } else {
        let volume = decoded.take(k);
        let relative = decoded.skip(k + 1);
        let root = if volume == "primary"@ {
            "/storage/emulated/0"@
        } else {
            joined("/storage"@, volume)
        };
        if relative.len() == 0 {
            Some(root)
        } else {
            match rel_path_of(relative) {
                Some(p) => Some(joined(root, p)),
                None => None,
            }
        }
    }
}

/// Map a decoded `<volume>:<relative path>` pair onto a filesystem path.
pub fn saf_volume_path(decoded: &str) -> (r: Option<String>)
    ensures
        match r {
            Some(p) => saf_volume_path_of(decoded@) == Some(p@),
            None => saf_volume_path_of(decoded@) is None,
        },
{
    let d = chars_of(decoded);
    let k = match first_index(&d, ':') {
        Some(k) => k,
        None => return None,
    };
    let volume = take_vec(&d, k);
    let relative = skip_vec(&d, k + 1);
    let root = if chars_eq_str(&volume, "primary") {
        "/storage/emulated/0".to_owned()
    } else {
        join_path("/storage", chars_to_string(&volume).as_str())
    };
    if relative.len() == 0 {
        return Some(root);
    }
    match sanitize_rel_path(chars_to_string(&relative).as_str()) {
        Ok(safe) => Some(join_path(root.as_str(), safe.as_str())),
        Err(_) => None,
    }
}

/// The piece right after the first piece equal to `marker`:
/// `split('/').skip_while(|s| s != marker).nth(1)`.
pub open spec fn piece_after(pieces: Seq<Seq<char>>, marker: Seq<char>) -> Option<Seq<char>>
    decreases pieces.len(),
{
    if pieces.len() == 0 {
        None
    } else if pieces[0] == marker {
        if pieces.len() >= 2 {
            Some(pieces[1])
        } else {
            None
        }
    } else {
        piece_after(pieces.drop_first(), marker)
    }
}

/// The only content provider that maps onto real files.
pub open spec fn external_storage_authority() -> Seq<char> {
    "com.android.externalstorage.documents"@
}

/// The still-encoded `<volume>:<path>` segment after `marker` in a
/// `content://` URI of the external-storage provider.
pub open spec fn saf_encoded_segment(uri: Seq<char>, marker: Seq<char>) -> Option<Seq<char>> {
    if uri.len() < 10 || uri.take(10) != "content://"@ {
        None
    } else {
        let rest = uri.skip(10);
        let k = first_index_of(rest, '/');
        if k < 0 {
            None
        } else if rest.take(k) != external_storage_authority() {
            None
        } else {
            piece_after(slash_pieces(rest.skip(k + 1)), marker)
        }
    }
}

/// A `content://` URI mapped onto a path, when the provider is filesystem
/// backed.
pub open spec fn content_uri_path_of(uri: Seq<char>, marker: Seq<char>) -> Option<Seq<char>> {
    match saf_encoded_segment(uri, marker) {
        Some(e) => saf_volume_path_of(utf8_lossy(percent_decoded(utf8_bytes(e)))),
        None => None,
    }
}

/// The pieces of `v` between `/` separators.
fn split_slash(v: &Vec<char>) -> (r: Vec<Vec<char>>)
    ensures
        views(r@) == slash_pieces(v@),
{
    let ghost sep = |c: char| slash(c);
    let mut out: Vec<Vec<char>> = Vec::new();
    let mut cur: Vec<char> = Vec::new();
    assert(v@.take(0) == Seq::<char>::empty());
    for i in 0..v.len()
        invariant
            sep == (|c: char| slash(c)),
            split_where(v@.take(i as int), sep) == views(out@).push(cur@),
    {
        let c = v[i];
        assert(v@.take(i + 1).drop_last() == v@.take(i as int));
        assert(v@.take(i + 1).last() == c);
        if c == '/' {
            let ghost before = views(out@);
            let piece = cur;
            let ghost pv = piece@;
            out.push(piece);
            assert(views(out@) == before.push(pv));
            cur = Vec::new();
        } else {
            cur.push(c);
        }
    }
    assert(v@.take(v.len() as int) == v@);
    let ghost before = views(out@);
    let ghost cv = cur@;
    out.push(cur);
    assert(views(out@) == before.push(cv));
    out
}

fn saf_encoded(uri: &str, marker: &str) -> (r: Option<String>)
    ensures
        match r {
            Some(e) => saf_encoded_segment(uri@, marker@) == Some(e@),
            None => saf_encoded_segment(uri@, marker@) is None,
        },
{
    let u = chars_of(uri);
    if u.len() < 10 || !chars_eq_str(&take_vec(&u, 10), "content://") {
        return None;
    }
    let rest = skip_vec(&u, 10);
    let k = match first_index(&rest, '/') {
        Some(k) => k,
        None => return None,
    };
    if !chars_eq_str(&take_vec(&rest, k), "com.android.externalstorage.documents") {
        return None;
    }
    let pieces = split_slash(&skip_vec(&rest, k + 1));
    assert(saf_encoded_segment(uri@, marker@) == piece_after(views(pieces@), marker@));
    let m = chars_of(marker);
    let mut i: usize = 0;
    assert(views(pieces@).skip(0) == views(pieces@));
    while i < pieces.len()
        invariant
            0 <= i <= pieces.len(),
            m@ == marker@,
            saf_encoded_segment(uri@, marker@) == piece_after(views(pieces@), marker@),
            piece_after(views(pieces@), marker@) == piece_after(
                views(pieces@).skip(i as int),
                marker@,
            ),
        decreases pieces.len() - i,
    {
        let ghost tail = views(pieces@).skip(i as int);
        assert(tail[0] == pieces@[i as int]@);
        if vec_eq(&pieces[i], &m) {
            if i + 1 < pieces.len() {
                assert(tail[1] == pieces@[i + 1]@);
                return Some(chars_to_string(&pieces[i + 1]));
            }
            return None;
        }
        assert(tail.drop_first() == views(pieces@).skip(i + 1));
        i = i + 1;
    }
    None
}

fn content_uri_to_path(uri: &str, marker: &str) -> (r: Option<String>)
    ensures
        match r {
            Some(p) => content_uri_path_of(uri@, marker@) == Some(p@),
            None => content_uri_path_of(uri@, marker@) is None,
        },
{
    let encoded = match saf_encoded(uri, marker) {
        Some(e) => e,
        None => return None,
    };
    let decoded = percent_decode(encoded.as_str());
    saf_volume_path(decoded.as_str())
}

/// Convert an Android SAF *tree* URI into a filesystem path, when one
/// exists; `None` for providers not backed by a filesystem.
pub fn content_tree_to_path(uri: &str) -> (r: Option<String>)
    ensures
        match r {
            Some(p) => content_uri_path_of(uri@, "tree"@) == Some(p@),
            None => content_uri_path_of(uri@, "tree"@) is None,
        },
{
    content_uri_to_path(uri, "tree")
}

/// The same mapping for a *document* URI, a single picked file.
pub fn content_document_to_path(uri: &str) -> (r: Option<String>)
    ensures
        match r {
            Some(p) => content_uri_path_of(uri@, "document"@) == Some(p@),
            None => content_uri_path_of(uri@, "document"@) is None,
        },
{
    content_uri_to_path(uri, "document")
}

} // verus!
