//! Character-level building blocks shared by the rest of the crate: the
//! Unicode character classes the backend relies on, UTF-8 byte lengths,
//! trimming, splitting and joining, ordering, and decimal rendering.
//!
//! Everything here is stated over `Seq<char>`, the view of `str` and `String`.
use vstd::prelude::*;

verus! {

// ---------------------------------------------------------------------------
// Character classes
// ---------------------------------------------------------------------------

/// Unicode general category `Cc`: U+0000–U+001F and U+007F–U+009F.
pub open spec fn control_char(c: char) -> bool {
    (c as u32) <= 0x1F || (0x7F <= (c as u32) && (c as u32) <= 0x9F)
}

/// `char::is_control`.
pub fn is_control_char(c: char) -> (b: bool)
    ensures
        b == control_char(c),
{
    let u = c as u32;
    u <= 0x1F || (0x7F <= u && u <= 0x9F)
}

/// The Unicode `White_Space` property, the set `str::trim` removes.
pub open spec fn white_space(c: char) -> bool {
    let u = c as u32;
    (0x09 <= u && u <= 0x0D) || u == 0x20 || u == 0x85 || u == 0xA0 || u == 0x1680 || (0x2000
        <= u && u <= 0x200A) || u == 0x2028 || u == 0x2029 || u == 0x202F || u == 0x205F || u
        == 0x3000
}

/// `char::is_whitespace`.
pub fn is_white_space(c: char) -> (b: bool)
    ensures
        b == white_space(c),
{
    let u = c as u32;
    (0x09 <= u && u <= 0x0D) || u == 0x20 || u == 0x85 || u == 0xA0 || u == 0x1680 || (0x2000
        <= u && u <= 0x200A) || u == 0x2028 || u == 0x2029 || u == 0x202F || u == 0x205F || u
        == 0x3000
}

/// ASCII letters and digits.
pub open spec fn ascii_alphanumeric(c: char) -> bool {
    ('0' <= c && c <= '9') || ('a' <= c && c <= 'z') || ('A' <= c && c <= 'Z')
}

/// `char::is_ascii_alphanumeric`.
pub fn is_ascii_alphanumeric(c: char) -> (b: bool)
    ensures
        b == ascii_alphanumeric(c),
{
    ('0' <= c && c <= '9') || ('a' <= c && c <= 'z') || ('A' <= c && c <= 'Z')
}

/// `char::to_ascii_uppercase`: only `a`–`z` change.
pub open spec fn upper_ascii(c: char) -> char {
    if 'a' <= c && c <= 'z' {
        ((c as u32) - 32) as char
    } else {
        c
    }
}

/// `char::to_ascii_lowercase`: only `A`–`Z` change.
pub open spec fn lower_ascii(c: char) -> char {
    if 'A' <= c && c <= 'Z' {
        ((c as u32) + 32) as char
    } else {
        c
    }
}

pub fn to_ascii_upper(c: char) -> (r: char)
    ensures
        r == upper_ascii(c),
{
    if 'a' <= c && c <= 'z' {
        ((c as u32) - 32) as u8 as char
    } else {
        c
    }
}

pub fn to_ascii_lower(c: char) -> (r: char)
    ensures
        r == lower_ascii(c),
{
    if 'A' <= c && c <= 'Z' {
        ((c as u32) + 32) as u8 as char
    } else {
        c
    }
}

/// `str::to_ascii_uppercase` on a character sequence.
pub open spec fn upper_ascii_seq(s: Seq<char>) -> Seq<char> {
    s.map_values(|c: char| upper_ascii(c))
}

/// `str::to_ascii_lowercase` on a character sequence.
pub open spec fn lower_ascii_seq(s: Seq<char>) -> Seq<char> {
    s.map_values(|c: char| lower_ascii(c))
}

pub fn upper_ascii_vec(v: &Vec<char>) -> (r: Vec<char>)
    ensures
        r@ == upper_ascii_seq(v@),
{
    let mut r: Vec<char> = Vec::new();
    for i in 0..v.len()
        invariant
            r@ == upper_ascii_seq(v@.take(i as int)),
    {
        r.push(to_ascii_upper(v[i]));
        assert(v@.take(i + 1) == v@.take(i as int).push(v@[i as int]));
    }
    assert(v@.take(v.len() as int) == v@);
    r
}

pub fn lower_ascii_vec(v: &Vec<char>) -> (r: Vec<char>)
    ensures
        r@ == lower_ascii_seq(v@),
{
    let mut r: Vec<char> = Vec::new();
    for i in 0..v.len()
        invariant
            r@ == lower_ascii_seq(v@.take(i as int)),
    {
        r.push(to_ascii_lower(v[i]));
        assert(v@.take(i + 1) == v@.take(i as int).push(v@[i as int]));
    }
    assert(v@.take(v.len() as int) == v@);
    r
}

// ---------------------------------------------------------------------------
// UTF-8 lengths
// ---------------------------------------------------------------------------

/// Bytes in the UTF-8 encoding of `c`.
pub open spec fn char_width(c: char) -> nat {
    let u = c as u32;
    if u <= 0x7F {
        1
    } else if u <= 0x7FF {
        2
    } else if u <= 0xFFFF {
        3
    } else {
        4
    }
}

/// Bytes in the UTF-8 encoding of `s`: what `str::len` reports.
pub open spec fn utf8_len(s: Seq<char>) -> nat
    decreases s.len(),
{
    if s.len() == 0 {
        0
    } else {
        char_width(s[0]) + utf8_len(s.drop_first())
    }
}

pub fn char_utf8_width(c: char) -> (w: usize)
    ensures
        w == char_width(c),
        1 <= w <= 4,
{
    let u = c as u32;
    if u <= 0x7F {
        1
    } else if u <= 0x7FF {
        2
    } else if u <= 0xFFFF {
        3
    } else {
        4
    }
}

pub proof fn lemma_utf8_len_concat(a: Seq<char>, b: Seq<char>)
    ensures
        utf8_len(a + b) == utf8_len(a) + utf8_len(b),
    decreases a.len(),
{
    if a.len() == 0 {
        assert(a + b == b);
    } else {
        lemma_utf8_len_concat(a.drop_first(), b);
        assert((a + b).drop_first() == a.drop_first() + b);
    }
}

/// The vstd encoding of a scalar has `char_width` bytes.
pub proof fn lemma_encode_scalar_len(c: char)
    ensures
        vstd::utf8::encode_scalar(c as u32).len() == char_width(c),
{
    vstd::utf8::char_is_scalar(c);
}

/// `utf8_len` agrees with the length of vstd's UTF-8 encoding, so it is
/// what `str::len` returns.
pub proof fn lemma_utf8_len_is_encoding_len(s: Seq<char>)
    ensures
        utf8_len(s) == vstd::utf8::encode_utf8(s).len(),
    decreases s.len(),
{
    if s.len() > 0 {
        lemma_encode_scalar_len(s[0]);
        lemma_utf8_len_is_encoding_len(s.drop_first());
    }
}

/// Byte length of a string slice, as `str::len` computes it.
pub fn str_byte_len(s: &str) -> (n: usize)
    ensures
        n == utf8_len(s@),
{
    proof {
        lemma_utf8_len_is_encoding_len(s@);
    }
    s.as_bytes().len()
}

/// The longest prefix of `s` whose UTF-8 encoding fits in `budget` bytes:
/// truncation at the last character boundary at or below `budget`.
pub open spec fn fit_prefix_len(s: Seq<char>, budget: int) -> nat
    decreases s.len(),
{
    if s.len() == 0 || char_width(s[0]) > budget {
        0
    } else {
        1 + fit_prefix_len(s.drop_first(), budget - char_width(s[0]))
    }
}

pub proof fn lemma_fit_prefix(s: Seq<char>, budget: int)
    requires
        budget >= 0,
    ensures
        fit_prefix_len(s, budget) <= s.len(),
        utf8_len(s.take(fit_prefix_len(s, budget) as int)) <= budget,
        fit_prefix_len(s, budget) < s.len() ==> utf8_len(
            s.take(fit_prefix_len(s, budget) + 1 as int),
        ) > budget,
        utf8_len(s) <= budget ==> fit_prefix_len(s, budget) == s.len(),
    decreases s.len(),
{
    if s.len() == 0 {
        assert(s.take(0) == Seq::<char>::empty());
    } else if char_width(s[0]) > budget {
        assert(s.take(0) == Seq::<char>::empty());
        assert(s.take(1).drop_first() == Seq::<char>::empty());
        assert(s.take(1)[0] == s[0]);
        assert(utf8_len(Seq::<char>::empty()) == 0);
        assert(utf8_len(s.take(1)) == char_width(s[0]) + utf8_len(s.take(1).drop_first()));
        if utf8_len(s) <= budget {
            assert(utf8_len(s) >= char_width(s[0]));
        }
    } else {
        let rest = s.drop_first();
        let b2 = budget - char_width(s[0]);
        lemma_fit_prefix(rest, b2);
        let k = fit_prefix_len(rest, b2);
        assert(s.take(k + 1 as int).drop_first() == rest.take(k as int));
        if k < rest.len() {
            assert(s.take(k + 2 as int).drop_first() == rest.take(k + 1 as int));
        }
    }
}

// ---------------------------------------------------------------------------
// Trimming
// ---------------------------------------------------------------------------

/// Leading `White_Space` removed.
pub open spec fn trim_start(s: Seq<char>) -> Seq<char>
    decreases s.len(),
{
    if s.len() > 0 && white_space(s[0]) {
        trim_start(s.drop_first())
    } else {
        s
    }
}

/// Trailing `White_Space` removed.
pub open spec fn trim_end(s: Seq<char>) -> Seq<char>
    decreases s.len(),
{
    if s.len() > 0 && white_space(s.last()) {
        trim_end(s.drop_last())
    } else {
        s
    }
}

/// `str::trim`.
pub open spec fn trim(s: Seq<char>) -> Seq<char> {
    trim_end(trim_start(s))
}

/// The number of leading `White_Space` characters.
pub open spec fn leading_ws(s: Seq<char>) -> nat
    decreases s.len(),
{
    if s.len() > 0 && white_space(s[0]) {
        1 + leading_ws(s.drop_first())
    } else {
        0
    }
}

pub proof fn lemma_trim_start_skip(s: Seq<char>)
    ensures
        leading_ws(s) <= s.len(),
        trim_start(s) == s.skip(leading_ws(s) as int),
        forall|i: int| 0 <= i < leading_ws(s) ==> white_space(#[trigger] s[i]),
        leading_ws(s) < s.len() ==> !white_space(s[leading_ws(s) as int]),
    decreases s.len(),
{
    if s.len() > 0 && white_space(s[0]) {
        lemma_trim_start_skip(s.drop_first());
        assert(s.drop_first().skip(leading_ws(s.drop_first()) as int) == s.skip(
            leading_ws(s) as int,
        ));
        assert forall|i: int| 0 <= i < leading_ws(s) implies white_space(#[trigger] s[i]) by {
            if i > 0 {
                assert(s[i] == s.drop_first()[i - 1]);
            }
        }
    } else {
        assert(s.skip(0) == s);
    }
}

pub open spec fn trailing_ws(s: Seq<char>) -> nat
    decreases s.len(),
{
    if s.len() > 0 && white_space(s.last()) {
        1 + trailing_ws(s.drop_last())
    } else {
        0
    }
}

pub proof fn lemma_trim_end_take(s: Seq<char>)
    ensures
        trailing_ws(s) <= s.len(),
        trim_end(s) == s.take(s.len() - trailing_ws(s)),
        forall|i: int|
            s.len() - trailing_ws(s) <= i < s.len() ==> white_space(#[trigger] s[i]),
        trailing_ws(s) < s.len() ==> !white_space(s[s.len() - trailing_ws(s) - 1]),
    decreases s.len(),
{
    if s.len() > 0 && white_space(s.last()) {
        lemma_trim_end_take(s.drop_last());
        assert(s.drop_last().take(s.drop_last().len() - trailing_ws(s.drop_last())) == s.take(
            s.len() - trailing_ws(s),
        ));
        assert forall|i: int|
            s.len() - trailing_ws(s) <= i < s.len() implies white_space(#[trigger] s[i]) by {
            if i < s.len() - 1 {
                assert(s[i] == s.drop_last()[i]);
            }
        }
    } else {
        assert(s.take(s.len() as int) == s);
    }
}

/// Trimming never lengthens, and what it leaves is empty or starts and
/// ends with a non-whitespace character.
pub proof fn lemma_trim_shape(s: Seq<char>)
    ensures
        trim(s).len() <= s.len(),
        trim(s).len() == 0 || (!white_space(trim(s)[0]) && !white_space(trim(s).last())),
        s.len() > 0 && !white_space(s[0]) ==> trim(s).len() > 0 && trim(s)[0] == s[0],
{
    lemma_trim_start_skip(s);
    let t = trim_start(s);
    lemma_trim_end_take(t);
    let r = trim_end(t);
    if r.len() > 0 {
        assert(r[0] == t[0]);
        assert(r.last() == t[r.len() - 1]);
    }
    if s.len() > 0 && !white_space(s[0]) {
        assert(leading_ws(s) == 0);
        assert(t == s);
        if trailing_ws(t) == t.len() {
            assert(white_space(t[0]));
        }
    }
}

/// A sequence that is empty, or starts and ends with a non-whitespace
/// character, is its own trim.
pub proof fn lemma_trim_fixed(s: Seq<char>)
    requires
        s.len() == 0 || (!white_space(s[0]) && !white_space(s.last())),
    ensures
        trim(s) == s,
{
    assert(trim_start(s) == s);
    assert(trim_end(s) == s);
}

/// `str::trim` on a character vector.
pub fn trim_vec(v: &Vec<char>) -> (r: Vec<char>)
    ensures
        r@ == trim(v@),
{
    proof {
        lemma_trim_start_skip(v@);
    }
    let n = v.len();
    let mut start: usize = 0;
    while start < n && is_white_space(v[start])
        invariant
            n == v.len(),
            start <= n,
            start <= leading_ws(v@),
            leading_ws(v@) <= v@.len(),
            forall|i: int| 0 <= i < leading_ws(v@) ==> white_space(#[trigger] v@[i]),
            leading_ws(v@) < v@.len() ==> !white_space(v@[leading_ws(v@) as int]),
        decreases n - start,
    {
        start = start + 1;
    }
    assert(start == leading_ws(v@));
    let ghost mid = v@.skip(start as int);
    proof {
        lemma_trim_end_take(mid);
    }
    let mut end: usize = n;
    while end > start && is_white_space(v[end - 1])
        invariant
            n == v.len(),
            start <= end <= n,
            mid == v@.skip(start as int),
            end - start >= mid.len() - trailing_ws(mid),
            trailing_ws(mid) <= mid.len(),
            forall|i: int|
                mid.len() - trailing_ws(mid) <= i < mid.len() ==> white_space(#[trigger] mid[i]),
            trailing_ws(mid) < mid.len() ==> !white_space(mid[mid.len() - trailing_ws(mid) - 1]),
        decreases end,
    {
        assert(mid[end - 1 - start] == v@[end - 1]);
        end = end - 1;
    }
    assert(end - start == mid.len() - trailing_ws(mid)) by {
        if end - start > mid.len() - trailing_ws(mid) {
            assert(mid[end - 1 - start] == v@[end - 1]);
        }
    }
    let mut r: Vec<char> = Vec::new();
    let mut i = start;
    while i < end
        invariant
            n == v.len(),
            start <= i <= end <= n,
            r@ == v@.subrange(start as int, i as int),
        decreases end - i,
    {
        r.push(v[i]);
        assert(v@.subrange(start as int, i + 1) == v@.subrange(start as int, i as int).push(
            v@[i as int],
        ));
        i = i + 1;
    }
    assert(r@ == mid.take(mid.len() - trailing_ws(mid)));
    r
}

// ---------------------------------------------------------------------------
// Splitting and joining
// ---------------------------------------------------------------------------

/// `str::split` with a predicate: every piece between separators, empty
/// pieces included, so there is always one more piece than separators.
pub open spec fn split_where(s: Seq<char>, sep: spec_fn(char) -> bool) -> Seq<Seq<char>>
    decreases s.len(),
{
    if s.len() == 0 {
        seq![Seq::<char>::empty()]
    } else {
        let init = split_where(s.drop_last(), sep);
        if sep(s.last()) {
            init.push(Seq::<char>::empty())
        } else {
            init.update(init.len() - 1, init.last().push(s.last()))
        }
    }
}

pub proof fn lemma_split_nonempty(s: Seq<char>, sep: spec_fn(char) -> bool)
    ensures
        split_where(s, sep).len() >= 1,
    decreases s.len(),
{
    if s.len() > 0 {
        lemma_split_nonempty(s.drop_last(), sep);
    }
}

/// Splitting at a separator splits the pieces: the heart of every
/// "joining can't escape" argument about paths.
pub proof fn lemma_split_concat(a: Seq<char>, x: char, b: Seq<char>, sep: spec_fn(char) -> bool)
    requires
        sep(x),
    ensures
        split_where(a + seq![x] + b, sep) == split_where(a, sep) + split_where(b, sep),
    decreases b.len(),
{
    if b.len() == 0 {
        assert(a + seq![x] + b == (a + seq![x]));
        assert((a + seq![x]).drop_last() == a);
        lemma_split_nonempty(a, sep);
    } else {
        lemma_split_concat(a, x, b.drop_last(), sep);
        let s = a + seq![x] + b;
        assert(s.drop_last() == a + seq![x] + b.drop_last());
        assert(s.last() == b.last());
        lemma_split_nonempty(b.drop_last(), sep);
        lemma_split_nonempty(a, sep);
        let sa = split_where(a, sep);
        let sb0 = split_where(b.drop_last(), sep);
        if sep(b.last()) {
            assert((sa + sb0).push(Seq::<char>::empty()) == sa + sb0.push(Seq::<char>::empty()));
        } else {
            assert((sa + sb0).update(
                (sa + sb0).len() - 1,
                (sa + sb0).last().push(b.last()),
            ) == sa + sb0.update(sb0.len() - 1, sb0.last().push(b.last())));
        }
    }
}

/// A string holding no separator is a single piece.
pub proof fn lemma_split_no_sep(s: Seq<char>, sep: spec_fn(char) -> bool)
    requires
        forall|i: int| 0 <= i < s.len() ==> !sep(#[trigger] s[i]),
    ensures
        split_where(s, sep) == seq![s],
    decreases s.len(),
{
    if s.len() > 0 {
        assert forall|i: int| 0 <= i < s.drop_last().len() implies !sep(
            #[trigger] s.drop_last()[i],
        ) by {
            assert(s.drop_last()[i] == s[i]);
        }
        lemma_split_no_sep(s.drop_last(), sep);
        assert(!sep(s[s.len() - 1]));
        assert(s.drop_last().push(s.last()) == s);
        let init = split_where(s.drop_last(), sep);
        assert(!sep(s.last()));
        assert(init.update(init.len() - 1, init.last().push(s.last())) == seq![s]);
    } else {
        assert(s == Seq::<char>::empty());
    }
}

/// Pieces glued back together with `sep` between them.
pub open spec fn join_with(parts: Seq<Seq<char>>, sep: char) -> Seq<char>
    decreases parts.len(),
{
    if parts.len() == 0 {
        Seq::<char>::empty()
    } else if parts.len() == 1 {
        parts[0]
    } else {
        join_with(parts.drop_last(), sep) + seq![sep] + parts.last()
    }
}

/// Splitting undoes joining when no piece contains a separator.
pub proof fn lemma_split_join(parts: Seq<Seq<char>>, sep: char, p: spec_fn(char) -> bool)
    requires
        parts.len() >= 1,
        p(sep),
        forall|i: int, j: int|
            0 <= i < parts.len() && 0 <= j < parts[i].len() ==> !p(#[trigger] parts[i][j]),
    ensures
        split_where(join_with(parts, sep), p) == parts,
    decreases parts.len(),
{
    if parts.len() == 1 {
        assert forall|j: int| 0 <= j < parts[0].len() implies !p(#[trigger] parts[0][j]) by {
            assert(!p(parts[0][j]));
        }
        lemma_split_no_sep(parts[0], p);
    } else {
        let init = parts.drop_last();
        assert forall|i: int, j: int|
            0 <= i < init.len() && 0 <= j < init[i].len() implies !p(#[trigger] init[i][j]) by {
            assert(init[i] == parts[i]);
        }
        lemma_split_join(init, sep, p);
        assert forall|j: int| 0 <= j < parts.last().len() implies !p(
            #[trigger] parts.last()[j],
        ) by {
            assert(!p(parts[parts.len() - 1][j]));
        }
        lemma_split_no_sep(parts.last(), p);
        lemma_split_concat(join_with(init, sep), sep, parts.last(), p);
        assert(init.push(parts.last()) == parts);
        assert(init + seq![parts.last()] == parts);
    }
}

// ---------------------------------------------------------------------------
// Ordering
// ---------------------------------------------------------------------------

/// Code-point lexicographic order, which is the byte order `str::cmp`
/// uses: UTF-8 preserves code-point order.
pub open spec fn seq_lt(a: Seq<char>, b: Seq<char>) -> bool
    decreases a.len(),
{
    if a.len() == 0 {
        b.len() > 0
    } else if b.len() == 0 {
        false
    } else if a[0] != b[0] {
        (a[0] as u32) < (b[0] as u32)
    } else {
        seq_lt(a.drop_first(), b.drop_first())
    }
}

pub proof fn lemma_seq_lt_irreflexive(a: Seq<char>)
    ensures
        !seq_lt(a, a),
    decreases a.len(),
{
    if a.len() > 0 {
        lemma_seq_lt_irreflexive(a.drop_first());
    }
}

pub proof fn lemma_seq_lt_total(a: Seq<char>, b: Seq<char>)
    ensures
        a == b || seq_lt(a, b) || seq_lt(b, a),
        !(seq_lt(a, b) && seq_lt(b, a)),
    decreases a.len(),
{
    if a.len() > 0 && b.len() > 0 {
        if a[0] == b[0] {
            lemma_seq_lt_total(a.drop_first(), b.drop_first());
            if a.drop_first() == b.drop_first() {
                assert(a == seq![a[0]] + a.drop_first());
                assert(b == seq![b[0]] + b.drop_first());
            }
        } else {
            vstd::utf8::char_u32_cast(a[0], a[0] as u32);
            vstd::utf8::char_u32_cast(b[0], b[0] as u32);
        }
    } else if a.len() == 0 && b.len() == 0 {
        assert(a == b);
    }
}

pub proof fn lemma_seq_lt_transitive(a: Seq<char>, b: Seq<char>, c: Seq<char>)
    requires
        seq_lt(a, b),
        seq_lt(b, c),
    ensures
        seq_lt(a, c),
    decreases a.len(),
{
    if a.len() > 0 && b.len() > 0 && c.len() > 0 && a[0] == b[0] && b[0] == c[0] {
        lemma_seq_lt_transitive(a.drop_first(), b.drop_first(), c.drop_first());
    } else if a.len() > 0 && b.len() > 0 && c.len() > 0 {
        if a[0] != c[0] {
        } else {
            vstd::utf8::char_u32_cast(a[0], a[0] as u32);
            vstd::utf8::char_u32_cast(b[0], b[0] as u32);
        }
    }
}

/// Three-way comparison of two character vectors: -1, 0 or 1.
pub fn compare_chars(a: &Vec<char>, b: &Vec<char>) -> (r: i8)
    ensures
        r == 0 <==> a@ == b@,
        r < 0 <==> seq_lt(a@, b@),
        r > 0 <==> seq_lt(b@, a@),
        -1 <= r <= 1,
{
    proof {
        lemma_seq_lt_total(a@, b@);
        lemma_seq_lt_irreflexive(a@);
    }
    let mut i: usize = 0;
    while i < a.len() && i < b.len()
        invariant
            i <= a.len(),
            i <= b.len(),
            a@.take(i as int) == b@.take(i as int),
        decreases a.len() - i,
    {
        if a[i] != b[i] {
            proof {
                lemma_seq_lt_common_prefix(a@, b@, i as int);
                assert(a@.skip(i as int)[0] == a@[i as int]);
                assert(b@.skip(i as int)[0] == b@[i as int]);
                vstd::utf8::char_u32_cast(a@[i as int], a@[i as int] as u32);
                vstd::utf8::char_u32_cast(b@[i as int], b@[i as int] as u32);
            }
            if (a[i] as u32) < (b[i] as u32) {
                return -1;
            } else {
                return 1;
            }
        }
        assert(a@.take(i + 1) == a@.take(i as int).push(a@[i as int]));
        assert(b@.take(i + 1) == b@.take(i as int).push(b@[i as int]));
        i = i + 1;
    }
    proof {
        lemma_seq_lt_common_prefix(a@, b@, i as int);
    }
    if a.len() == b.len() {
        assert(a@ == a@.take(i as int));
        assert(b@ == b@.take(i as int));
        0
    } else if a.len() < b.len() {
        -1
    } else {
        1
    }
}

/// After a shared prefix of length `i`, order is decided by what follows.
pub proof fn lemma_seq_lt_common_prefix(a: Seq<char>, b: Seq<char>, i: int)
    requires
        0 <= i <= a.len(),
        i <= b.len(),
        a.take(i) == b.take(i),
    ensures
        seq_lt(a, b) == seq_lt(a.skip(i), b.skip(i)),
        seq_lt(b, a) == seq_lt(b.skip(i), a.skip(i)),
    decreases i,
{
    if i > 0 {
        assert(a[0] == a.take(i)[0]);
        assert(b[0] == b.take(i)[0]);
        assert(a.drop_first().take(i - 1) == a.take(i).drop_first());
        assert(b.drop_first().take(i - 1) == b.take(i).drop_first());
        lemma_seq_lt_common_prefix(a.drop_first(), b.drop_first(), i - 1);
        assert(a.drop_first().skip(i - 1) == a.skip(i));
        assert(b.drop_first().skip(i - 1) == b.skip(i));
    } else {
        assert(a.skip(0) == a);
        assert(b.skip(0) == b);
    }
}

// ---------------------------------------------------------------------------
// Strings
// ---------------------------------------------------------------------------

/// The characters of `s`, in order.
pub fn chars_of(s: &str) -> (v: Vec<char>)
    ensures
        v@ == s@,
{
    let mut v: Vec<char> = Vec::new();
    for c in it: s.chars()
        invariant
            v@ == it.seq().take(it.index() as int),
            it.seq() == s@,
    {
        v.push(c);
    }
    v
}

/// Calls `String::from_iter` on the characters, which the standard
/// library documents as the string of those characters in order.
#[verifier::external_body]
pub(crate) fn string_from_chars(v: &[char]) -> (s: String)
    ensures
        s@ == v@,
{
    String::from_iter(v)
}

/// A fresh `String` holding `s`.
pub fn owned(s: &str) -> (r: String)
    ensures
        r@ == s@,
{
    s.to_owned()
}

/// `a` followed by `b`.
pub fn concat2(a: &str, b: &str) -> (r: String)
    ensures
        r@ == a@ + b@,
{
    let mut r = a.to_owned();
    r.append(b);
    r
}

/// Appends the characters of `s` to `v`.
pub fn push_str_chars(v: &mut Vec<char>, s: &str)
    ensures
        final(v)@ == old(v)@ + s@,
{
    let cs = chars_of(s);
    let mut i: usize = 0;
    while i < cs.len()
        invariant
            0 <= i <= cs.len(),
            cs@ == s@,
            v@ == old(v)@ + cs@.take(i as int),
        decreases cs.len() - i,
    {
        v.push(cs[i]);
        assert(cs@.take(i + 1) == cs@.take(i as int).push(cs@[i as int]));
        i = i + 1;
    }
    assert(cs@.take(cs.len() as int) == cs@);
}

// ---------------------------------------------------------------------------
// Decimal rendering
// ---------------------------------------------------------------------------

pub open spec fn digit_char(d: nat) -> char {
    (('0' as u32) + d) as char
}

/// The decimal representation of `n`, as `u64::to_string` writes it.
pub open spec fn decimal(n: nat) -> Seq<char>
    decreases n,
{
    if n < 10 {
        seq![digit_char(n)]
    } else {
        decimal(n / 10).push(digit_char(n % 10))
    }
}

pub fn decimal_chars(n: u64) -> (v: Vec<char>)
    ensures
        v@ == decimal(n as nat),
{
    let mut digits: Vec<char> = Vec::new();
    let mut m = n;
    // Digits collected least-significant first, then reversed.
    let ghost mut stack: Seq<nat> = seq![];
    while m >= 10
        invariant
            decimal(n as nat) == decimal(m as nat) + rev_digits(digits@),
        decreases m,
    {
        let d = (m % 10) as u32;
        let c = (('0' as u32) + d) as u8 as char;
        proof {
            assert(decimal(m as nat) == decimal((m / 10) as nat).push(digit_char((m % 10) as nat)));
            assert(c == digit_char((m % 10) as nat));
            assert(rev_digits(digits@.push(c)) == seq![c] + rev_digits(digits@)) by {
                lemma_rev_push(digits@, c);
            }
            assert(decimal((m / 10) as nat).push(c) + rev_digits(digits@) == decimal(
                (m / 10) as nat,
            ) + (seq![c] + rev_digits(digits@)));
        }
        digits.push(c);
        m = m / 10;
    }
    let last = (('0' as u32) + (m as u32)) as u8 as char;
    assert(decimal(m as nat) == seq![last]);
    let mut out: Vec<char> = Vec::new();
    out.push(last);
    assert(digits@.take(digits.len() as int) == digits@);
    assert(out@ == seq![last]);
    let mut i = digits.len();
    while i > 0
        invariant
            i <= digits.len(),
            out@ + rev_digits(digits@.take(i as int)) == decimal(n as nat),
        decreases i,
    {
        proof {
            assert(digits@.take(i as int) == digits@.take(i - 1).push(digits@[i - 1]));
            lemma_rev_push(digits@.take(i - 1), digits@[i - 1]);
        }
        out.push(digits[i - 1]);
        i = i - 1;
    }
    assert(digits@.take(0) == Seq::<char>::empty());
    out
}

pub open spec fn rev_digits(s: Seq<char>) -> Seq<char>
    decreases s.len(),
{
    if s.len() == 0 {
        s
    } else {
        rev_digits(s.drop_first()).push(s[0])
    }
}

pub proof fn lemma_rev_push(s: Seq<char>, c: char)
    ensures
        rev_digits(s.push(c)) == seq![c] + rev_digits(s),
    decreases s.len(),
{
    if s.len() == 0 {
        assert(s.push(c).drop_first() == s);
    } else {
        lemma_rev_push(s.drop_first(), c);
        assert(s.push(c).drop_first() == s.drop_first().push(c));
    }
}

/// `n.to_string()`.
pub fn decimal_string(n: u64) -> (s: String)
    ensures
        s@ == decimal(n as nat),
{
    let v = decimal_chars(n);
    string_from_chars(v.as_slice())
}

/// Whether `s` begins with `p`.
pub open spec fn has_prefix(s: Seq<char>, p: Seq<char>) -> bool {
    s.len() >= p.len() && s.take(p.len() as int) == p
}

/// `str::starts_with` for a string prefix.
pub fn starts_with_str(s: &str, p: &str) -> (b: bool)
    ensures
        b == has_prefix(s@, p@),
{
    let v = chars_of(s);
    let w = chars_of(p);
    if v.len() < w.len() {
        return false;
    }
    let mut i: usize = 0;
    while i < w.len()
        invariant
            0 <= i <= w.len() <= v.len(),
            v@ == s@,
            w@ == p@,
            v@.take(i as int) == w@.take(i as int),
        decreases w.len() - i,
    {
        if v[i] != w[i] {
            assert(v@.take(w.len() as int)[i as int] != w@[i as int]);
            return false;
        }
        assert(v@.take(i + 1) == v@.take(i as int).push(v@[i as int]));
        assert(w@.take(i + 1) == w@.take(i as int).push(w@[i as int]));
        i = i + 1;
    }
    assert(w@.take(w.len() as int) == w@);
    true
}

} // verus!
