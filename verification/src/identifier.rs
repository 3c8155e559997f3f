//! Node identifier normalisation: the one rule every parser uses to turn source text into a
//! stable, renderer-safe node id.
use std::borrow::Cow;

use unicode_segmentation::UnicodeSegmentation;
use vstd::prelude::*;
use vstd::string::{StrSliceExecFns, StringSliceAdditionalSpecFns};
use vstd::utf8::encode_utf8;

use crate::text::{
    char_is_alphanumeric, chars_of, is_ascii_alnum, string_from_chars, trim, trim_window,
    unicode_alphanumeric, window_vec,
};

verus! {

/// A character that an identifier keeps verbatim: ASCII letters and digits and `_ - . /`.
pub open spec fn is_keep_char(c: char) -> bool {
    is_ascii_alnum(c) || c == '_' || c == '-' || c == '.' || c == '/'
}

/// A character a grapheme may consist of to survive the fallback: ASCII letters, digits, `_`, `-`.
pub open spec fn is_fallback_char(c: char) -> bool {
    is_ascii_alnum(c) || c == '_' || c == '-'
}

/// Whether `t` is wrapped in one kind of quote (`"`, `'` or a backtick) at both ends.
pub open spec fn is_quote_wrapped(t: Seq<char>) -> bool {
    t.len() > 0 && ((t[0] == '"' && t.last() == '"') || (t[0] == '\'' && t.last() == '\'') || (
    t[0] == '`' && t.last() == '`'))
}

/// The identifier body of trimmed text `t`, and whether it was quoted.
pub open spec fn unquote(t: Seq<char>) -> (Seq<char>, bool) {
    if is_quote_wrapped(t) && t.len() >= 2 {
        (t.subrange(1, t.len() - 1), true)
    } else {
        (t, false)
    }
}

/// The character-by-character rebuild, scanning `c` from index `i` with output `out` so far.
///
/// Kept characters are copied; whitespace becomes `_` once something has been kept; `:` `;` `,`
/// end the id once something has been kept; any other character becomes `_` in a quoted id and
/// ends an unquoted id once something has been kept.
pub open spec fn rebuild_from(c: Seq<char>, i: int, quoted: bool, out: Seq<char>) -> Seq<char>
    decreases c.len() - i,
{
    if i < 0 || i >= c.len() {
        out
    } else {
        let ch = c[i];
        if is_keep_char(ch) {
            rebuild_from(c, i + 1, quoted, out.push(ch))
        } else if crate::text::is_ws(ch) {
            rebuild_from(
                c,
                i + 1,
                quoted,
                if out.len() > 0 {
                    out.push('_')
                } else {
                    out
                },
            )
        } else if ch == ':' || ch == ';' || ch == ',' {
            if out.len() > 0 {
                out
            } else {
                rebuild_from(c, i + 1, quoted, out)
            }
        } else if quoted {
            rebuild_from(c, i + 1, quoted, out.push('_'))
        } else if out.len() > 0 {
            out
        } else {
            rebuild_from(c, i + 1, quoted, out)
        }
    }
}

/// `s` without trailing underscores.
pub open spec fn trim_us_end(s: Seq<char>) -> Seq<char>
    decreases s.len(),
{
    if s.len() > 0 && s.last() == '_' {
        trim_us_end(s.drop_last())
    } else {
        s
    }
}

/// `s` without leading underscores.
pub open spec fn trim_us_start(s: Seq<char>) -> Seq<char>
    decreases s.len(),
{
    if s.len() > 0 && s[0] == '_' {
        trim_us_start(s.drop_first())
    } else {
        s
    }
}

/// The extended grapheme clusters of `s`, in order (what `UnicodeSegmentation::graphemes(s, true)`
/// yields).
pub uninterp spec fn extended_graphemes(s: Seq<char>) -> Seq<Seq<char>>;

/// One grapheme of the fallback id: itself when made only of fallback characters, else `_`.
pub open spec fn fallback_piece(g: Seq<char>) -> Seq<char> {
    if forall|k: int| 0 <= k < g.len() ==> is_fallback_char(#[trigger] g[k]) {
        g
    } else {
        seq!['_']
    }
}

pub open spec fn join_pieces(gs: Seq<Seq<char>>) -> Seq<char>
    decreases gs.len(),
{
    if gs.len() == 0 {
        Seq::empty()
    } else {
        join_pieces(gs.drop_last()) + fallback_piece(gs.last())
    }
}

pub open spec fn fnv_offset() -> u64 {
    0xcbf29ce484222325u64
}

pub open spec fn fnv_prime() -> u64 {
    0x100000001b3u64
}

/// 64-bit FNV-1a over `b[i..]`, continuing from hash `h`.
pub open spec fn fnv_from(b: Seq<u8>, i: int, h: u64) -> u64
    decreases b.len() - i,
{
    if i < 0 || i >= b.len() {
        h
    } else {
        fnv_from(b, i + 1, (h ^ (b[i] as u64)).wrapping_mul(fnv_prime()))
    }
}

/// 64-bit FNV-1a of `b`.
pub open spec fn fnv1a(b: Seq<u8>) -> u64 {
    fnv_from(b, 0, fnv_offset())
}

pub open spec fn hex_digit(d: nat) -> char {
    if d < 10 {
        ((d + 48) as u32) as char
    } else {
        ((d + 87) as u32) as char
    }
}

/// Lowercase hexadecimal digits of `v` without leading zeros (`format!("{:x}", v)`).
pub open spec fn hex_digits(v: nat) -> Seq<char>
    decreases v,
{
    if v < 16 {
        seq![hex_digit(v)]
    } else {
        hex_digits(v / 16).push(hex_digit(v % 16))
    }
}

/// `id_` followed by the hexadecimal FNV-1a hash of the UTF-8 bytes of `c`.
pub open spec fn hashed_id(c: Seq<char>) -> Seq<char> {
    seq!['i', 'd', '_'] + hex_digits(fnv1a(encode_utf8(c)) as nat)
}

/// The normalised form of the identifier body `c` (`quoted` when it was written in quotes).
///
/// Text made only of kept characters and not ending in `_` is its own id. Otherwise the rebuilt id
/// loses its trailing underscores; if nothing is left, the grapheme fallback is used (underscores
/// trimmed at both ends); if that is empty too, the id is `id_<fnv1a hash>` — always when
/// `hash_always`, and otherwise only when `c` holds some alphanumeric character.
pub open spec fn normalize_body(c: Seq<char>, quoted: bool, hash_always: bool) -> Seq<char> {
    if c.len() == 0 {
        Seq::empty()
    } else if c.last() != '_' && forall|k: int| 0 <= k < c.len() ==> is_keep_char(#[trigger] c[k]) {
        c
    } else {
        let r1 = trim_us_end(rebuild_from(c, 0, quoted, Seq::empty()));
        let r2 = if r1.len() == 0 {
            trim_us_start(trim_us_end(join_pieces(extended_graphemes(c))))
        } else {
            r1
        };
        if r2.len() == 0 && (hash_always || exists|k: int|
            0 <= k < c.len() && unicode_alphanumeric(#[trigger] c[k])) {
            hashed_id(c)
        } else {
            r2
        }
    }
}

/// The normalised identifier of raw source text: trimmed, unquoted, then [`normalize_body`].
pub open spec fn spec_normalize_identifier(raw: Seq<char>, hash_always: bool) -> Seq<char> {
    let u = unquote(trim(raw));
    normalize_body(u.0, u.1, hash_always)
}

/// `UnicodeSegmentation::graphemes(s, true)`, each cluster copied into a `String`. The clusters
/// are named by [`extended_graphemes`]; nothing else is claimed of the segmentation.
#[verifier::external_body]
fn grapheme_clusters(s: &str) -> (r: Vec<String>)
    ensures
        r@.len() == extended_graphemes(s@).len(),
        forall|i: int| 0 <= i < r@.len() ==> #[trigger] r@[i]@ == extended_graphemes(s@)[i],
{
    s.graphemes(true).map(|g| g.to_string()).collect()
}

/// 64-bit FNV-1a hash of `bytes`.
pub fn fnv1a_hash(bytes: &[u8]) -> (h: u64)
    ensures
        h == fnv1a(bytes@),
{
    let mut hash: u64 = 0xcbf29ce484222325;
    let mut i: usize = 0;
    while i < bytes.len()
        invariant
            i <= bytes@.len(),
            fnv_from(bytes@, i as int, hash) == fnv1a(bytes@),
        decreases bytes@.len() - i,
    {
        hash = (hash ^ (bytes[i] as u64)).wrapping_mul(0x100000001b3);
        i = i + 1;
    }
    hash
}

fn hex_digit_exec(d: u64) -> (c: char)
    requires
        d < 16,
    ensures
        c == hex_digit(d as nat),
{
    let table: [char; 16] = [
        '0',
        '1',
        '2',
        '3',
        '4',
        '5',
        '6',
        '7',
        '8',
        '9',
        'a',
        'b',
        'c',
        'd',
        'e',
        'f',
    ];
    let c = table[d as usize];
    assert(c == hex_digit(d as nat)) by {
        assert(table@[d as int] == c);
    }
    c
}

/// Lowercase hexadecimal digits of `v` (`format!("{:x}", v)`).
pub fn hex_lower(v: u64) -> (r: Vec<char>)
    ensures
        r@ == hex_digits(v as nat),
    decreases v,
{
    if v < 16 {
        let mut r: Vec<char> = Vec::new();
        r.push(hex_digit_exec(v));
        assert(r@ =~= seq![hex_digit(v as nat)]);
        r
    } else {
        let mut r = hex_lower(v / 16);
        r.push(hex_digit_exec(v % 16));
        r
    }
}

fn all_keep(s: &Vec<char>, lo: usize, hi: usize) -> (r: bool)
    requires
        lo <= hi <= s@.len(),
    ensures
        r == forall|k: int| 0 <= k < hi - lo ==> is_keep_char(#[trigger] s@.subrange(lo as int, hi as int)[k]),
{
    let mut i = lo;
    while i < hi
        invariant
            lo <= i <= hi <= s@.len(),
            forall|k: int| lo <= k < i ==> is_keep_char(#[trigger] s@[k]),
        decreases hi - i,
    {
        let c = s[i];
        if !((c >= '0' && c <= '9') || (c >= 'A' && c <= 'Z') || (c >= 'a' && c <= 'z') || c == '_'
            || c == '-' || c == '.' || c == '/') {
            assert(s@.subrange(lo as int, hi as int)[i - lo] == c);
            return false;
        }
        i = i + 1;
    }
    assert forall|k: int| 0 <= k < hi - lo implies is_keep_char(
        #[trigger] s@.subrange(lo as int, hi as int)[k],
    ) by {
        assert(s@.subrange(lo as int, hi as int)[k] == s@[lo + k]);
    }
    true
}

fn rebuild(s: &Vec<char>, lo: usize, hi: usize, quoted: bool) -> (r: Vec<char>)
    requires
        lo <= hi <= s@.len(),
    ensures
        r@ == rebuild_from(s@.subrange(lo as int, hi as int), 0, quoted, Seq::empty()),
{
    let ghost c = s@.subrange(lo as int, hi as int);
    let mut out: Vec<char> = Vec::new();
    let mut i = lo;
    while i < hi
        invariant
            lo <= i <= hi <= s@.len(),
            c == s@.subrange(lo as int, hi as int),
            rebuild_from(c, i - lo, quoted, out@) == rebuild_from(c, 0, quoted, Seq::empty()),
        decreases hi - i,
    {
        let ch = s[i];
        assert(c[i - lo] == ch);
        if (ch >= '0' && ch <= '9') || (ch >= 'A' && ch <= 'Z') || (ch >= 'a' && ch <= 'z') || ch
            == '_' || ch == '-' || ch == '.' || ch == '/' {
            out.push(ch);
        } else if crate::text::char_is_whitespace(ch) {
            if out.len() > 0 {
                out.push('_');
            }
        } else if ch == ':' || ch == ';' || ch == ',' {
            if out.len() > 0 {
                return out;
            }
        } else if quoted {
            out.push('_');
        } else if out.len() > 0 {
            return out;
        }
        i = i + 1;
    }
    out
}

pub(crate) fn trim_underscores_end(v: &Vec<char>) -> (r: Vec<char>)
    ensures
        r@ == trim_us_end(v@),
{
    let mut j = v.len();
    assert(v@.subrange(0, v@.len() as int) =~= v@);
    while j > 0 && v[j - 1] == '_'
        invariant
            j <= v@.len(),
            trim_us_end(v@.subrange(0, j as int)) == trim_us_end(v@),
        decreases j,
    {
        assert(v@.subrange(0, j as int).drop_last() =~= v@.subrange(0, j - 1));
        j = j - 1;
    }
    assert(v@.subrange(0, v@.len() as int) =~= v@);
    window_vec(v, 0, j)
}

pub(crate) fn trim_underscores_start(v: &Vec<char>) -> (r: Vec<char>)
    ensures
        r@ == trim_us_start(v@),
{
    let n = v.len();
    let mut i: usize = 0;
    assert(v@.subrange(0, n as int) =~= v@);
    while i < n && v[i] == '_'
        invariant
            i <= n == v@.len(),
            trim_us_start(v@.subrange(i as int, n as int)) == trim_us_start(v@),
        decreases n - i,
    {
        assert(v@.subrange(i as int, n as int).drop_first() =~= v@.subrange(i + 1, n as int));
        i = i + 1;
    }
    window_vec(v, i, n)
}

pub(crate) fn fallback_from_graphemes(body: &str) -> (r: Vec<char>)
    ensures
        r@ == join_pieces(extended_graphemes(body@)),
{
    let gs = grapheme_clusters(body);
    let ghost spec_gs = extended_graphemes(body@);
    let mut out: Vec<char> = Vec::new();
    let mut i: usize = 0;
    while i < gs.len()
        invariant
            i <= gs@.len() == spec_gs.len(),
            spec_gs == extended_graphemes(body@),
            forall|k: int| 0 <= k < gs@.len() ==> #[trigger] gs@[k]@ == spec_gs[k],
            out@ == join_pieces(spec_gs.subrange(0, i as int)),
        decreases gs@.len() - i,
    {
        let g = chars_of(gs[i].as_str());
        assert(g@ == spec_gs[i as int]);
        let mut all_ok = true;
        let mut k: usize = 0;
        while k < g.len()
            invariant
                k <= g@.len(),
                all_ok == forall|m: int| 0 <= m < k ==> is_fallback_char(#[trigger] g@[m]),
            decreases g@.len() - k,
        {
            let c = g[k];
            if !((c >= '0' && c <= '9') || (c >= 'A' && c <= 'Z') || (c >= 'a' && c <= 'z') || c
                == '_' || c == '-') {
                all_ok = false;
            }
            k = k + 1;
        }
        let ghost before = out@;
        if all_ok {
            let mut k2: usize = 0;
            while k2 < g.len()
                invariant
                    k2 <= g@.len(),
                    out@ == before + g@.subrange(0, k2 as int),
                decreases g@.len() - k2,
            {
                out.push(g[k2]);
                k2 = k2 + 1;
                assert(out@ =~= before + g@.subrange(0, k2 as int));
            }
            assert(g@.subrange(0, g@.len() as int) =~= g@);
        } else {
            out.push('_');
            assert(out@ =~= before + seq!['_']);
        }
        assert(spec_gs.subrange(0, i + 1).drop_last() =~= spec_gs.subrange(0, i as int));
        assert(spec_gs.subrange(0, i + 1).last() == spec_gs[i as int]);
        i = i + 1;
    }
    assert(spec_gs.subrange(0, gs@.len() as int) =~= spec_gs);
    out
}

/// The normalised id of the window `[lo, hi)` of `raw` (its characters are `s`).
fn normalize_window(raw: &str, s: &Vec<char>, lo: usize, hi: usize, quoted: bool, hash_always: bool) -> (r: Vec<char>)
    requires
        s@ == raw@,
        lo < hi <= s@.len(),
        !(s@[hi - 1] != '_' && forall|k: int| lo <= k < hi ==> is_keep_char(#[trigger] s@[k])),
    ensures
        r@ == normalize_body(s@.subrange(lo as int, hi as int), quoted, hash_always),
{
    let ghost c = s@.subrange(lo as int, hi as int);
    assert(c.last() == s@[hi - 1]);
    assert(!(c.last() != '_' && forall|k: int| 0 <= k < c.len() ==> is_keep_char(#[trigger] c[k])))
        by {
        if c.last() != '_' && forall|k: int| 0 <= k < c.len() ==> is_keep_char(#[trigger] c[k]) {
            assert forall|k: int| lo <= k < hi implies is_keep_char(#[trigger] s@[k]) by {
                assert(c[k - lo] == s@[k]);
            }
        }
    }
    let rebuilt = rebuild(s, lo, hi, quoted);
    let r1 = trim_underscores_end(&rebuilt);
    let body = raw.substring_char(lo, hi);
    let r2 = if r1.len() == 0 {
        let joined = fallback_from_graphemes(body);
        let t = trim_underscores_end(&joined);
        trim_underscores_start(&t)
    } else {
        r1
    };
    if r2.len() != 0 {
        return r2;
    }
    let mut any_alnum = false;
    if !hash_always {
        let mut i = lo;
        while i < hi
            invariant
                lo <= i <= hi <= s@.len(),
                c == s@.subrange(lo as int, hi as int),
                any_alnum == exists|k: int| 0 <= k < i - lo && unicode_alphanumeric(#[trigger] c[k]),
            decreases hi - i,
        {
            let ghost prev = any_alnum;
            assert(c[i - lo] == s@[i as int]);
            if char_is_alphanumeric(s[i]) {
                any_alnum = true;
            }
            assert(any_alnum == exists|k: int| 0 <= k < i + 1 - lo && unicode_alphanumeric(#[trigger] c[k])) by {
                if prev {
                    let w = choose|k: int| 0 <= k < i - lo && unicode_alphanumeric(#[trigger] c[k]);
                    assert(0 <= w < i + 1 - lo && unicode_alphanumeric(c[w]));
                }
            }
            i = i + 1;
        }
    }
    if hash_always || any_alnum {
        let bytes = body.as_bytes();
        let h = fnv1a_hash(bytes);
        let digits = hex_lower(h);
        let mut out: Vec<char> = vec!['i', 'd', '_'];
        let ghost prefix = out@;
        let mut k: usize = 0;
        while k < digits.len()
            invariant
                k <= digits@.len(),
                out@ == prefix + digits@.subrange(0, k as int),
            decreases digits@.len() - k,
        {
            out.push(digits[k]);
            k = k + 1;
            assert(out@ =~= prefix + digits@.subrange(0, k as int));
        }
        assert(digits@.subrange(0, digits@.len() as int) =~= digits@);
        assert(prefix =~= seq!['i', 'd', '_']);
        out
    } else {
        r2
    }
}

/// Trim `raw` and strip one pair of wrapping quotes: the window `[lo, hi)` of its characters that
/// holds the identifier body, and whether it was quoted.
fn unquote_window(s: &Vec<char>) -> (r: (usize, usize, bool))
    ensures
        r.0 <= r.1 <= s@.len(),
        s@.subrange(r.0 as int, r.1 as int) == unquote(trim(s@)).0,
        r.2 == unquote(trim(s@)).1,
{
    let n = s.len();
    assert(s@.subrange(0, n as int) =~= s@);
    let (a, b) = trim_window(s, 0, n);
    let ghost t = s@.subrange(a as int, b as int);
    if b > a {
        assert(t[0] == s@[a as int] && t.last() == s@[b - 1]);
    }
    let wrapped = b > a && ((s[a] == '"' && s[b - 1] == '"') || (s[a] == '\'' && s[b - 1] == '\'')
        || (s[a] == '`' && s[b - 1] == '`'));
    if wrapped && b - a >= 2 {
        assert(t.subrange(1, t.len() - 1) =~= s@.subrange(a + 1, b - 1));
        (a + 1, b - 1, true)
    } else {
        (a, b, false)
    }
}

/// Normalize a Mermaid identifier: trim it, strip one pair of wrapping quotes, and replace
/// characters that are unsafe in an id — borrowing from `raw` when the body is already its own id.
///
/// The id is its body when the body is made only of ASCII letters, digits and `_ - . /` and does
/// not end in `_`. Otherwise it is rebuilt (see [`normalize_body`]); a body with no usable
/// character becomes `id_<fnv1a hash>` when it holds some alphanumeric character, and is empty
/// otherwise.
pub fn normalize_identifier_cow(raw: &str) -> (r: Cow<'_, str>)
    ensures
        r@ == spec_normalize_identifier(raw@, false),
        (r matches Cow::Borrowed(_)) == kept_as_is(unquote(trim(raw@)).0),
{
    let s = chars_of(raw);
    let (lo, hi, quoted) = unquote_window(&s);
    let ghost c = s@.subrange(lo as int, hi as int);
    if lo == hi {
        return Cow::Borrowed(raw.substring_char(lo, hi));
    }
    assert(c.last() == s@[hi - 1]);
    if s[hi - 1] != '_' && all_keep(&s, lo, hi) {
        return Cow::Borrowed(raw.substring_char(lo, hi));
    }
    assert(!(s@[hi - 1] != '_' && forall|k: int| lo <= k < hi ==> is_keep_char(#[trigger] s@[k])))
        by {
        if s@[hi - 1] != '_' && forall|k: int| lo <= k < hi ==> is_keep_char(#[trigger] s@[k]) {
            assert forall|k: int| 0 <= k < hi - lo implies is_keep_char(#[trigger] c[k]) by {
                assert(c[k] == s@[lo + k]);
            }
        }
    }
    let v = normalize_window(raw, &s, lo, hi, quoted, false);
    Cow::Owned(string_from_chars(&v))
}

/// Whether the identifier body `c` is its own id, so that no new text is made for it: it is empty,
/// or made only of ASCII letters, digits and `_ - . /` without a trailing `_`.
pub open spec fn kept_as_is(c: Seq<char>) -> bool {
    c.len() == 0 || (c.last() != '_' && forall|k: int| 0 <= k < c.len() ==> is_keep_char(#[trigger] c[k]))
}

/// Normalize an identifier to an owned `String` (see [`normalize_identifier_cow`]).
pub fn normalize_identifier(raw: &str) -> (r: String)
    ensures
        r@ == spec_normalize_identifier(raw@, false),
{
    let s = chars_of(raw);
    let (lo, hi, quoted) = unquote_window(&s);
    normalize_chars_window(raw, &s, lo, hi, quoted, false)
}

/// The DOT parser's variant: a body with no usable character always becomes `id_<fnv1a hash>`.
pub fn normalize_dot_identifier(raw: &str) -> (r: String)
    ensures
        r@ == spec_normalize_identifier(raw@, true),
{
    let s = chars_of(raw);
    let (lo, hi, quoted) = unquote_window(&s);
    normalize_chars_window(raw, &s, lo, hi, quoted, true)
}

fn normalize_chars_window(raw: &str, s: &Vec<char>, lo: usize, hi: usize, quoted: bool, hash_always: bool) -> (r: String)
    requires
        s@ == raw@,
        lo <= hi <= s@.len(),
    ensures
        r@ == normalize_body(s@.subrange(lo as int, hi as int), quoted, hash_always),
{
    let ghost c = s@.subrange(lo as int, hi as int);
    if lo == hi {
        return string_from_chars(&Vec::new());
    }
    assert(c.last() == s@[hi - 1]);
    if s[hi - 1] != '_' && all_keep(s, lo, hi) {
        return string_from_chars(&window_vec(s, lo, hi));
    }
    assert(!(s@[hi - 1] != '_' && forall|k: int| lo <= k < hi ==> is_keep_char(#[trigger] s@[k])))
        by {
        if s@[hi - 1] != '_' && forall|k: int| lo <= k < hi ==> is_keep_char(#[trigger] s@[k]) {
            assert forall|k: int| 0 <= k < hi - lo implies is_keep_char(#[trigger] c[k]) by {
                assert(c[k] == s@[lo + k]);
            }
        }
    }
    let v = normalize_window(raw, s, lo, hi, quoted, hash_always);
    string_from_chars(&v)
}

// ---------------------------------------------------------------------------------------------
// Laws.
/// Every character of `s` is one an identifier keeps verbatim.
pub open spec fn keeps_all(s: Seq<char>) -> bool {
    forall|k: int| 0 <= k < s.len() ==> is_keep_char(#[trigger] s[k])
}

/// An id that normalises to itself: empty, or made of kept characters and not ending in `_`.
pub open spec fn is_plain_id(s: Seq<char>) -> bool {
    s.len() == 0 || (s.last() != '_' && keeps_all(s))
}

proof fn lemma_rebuild_keeps(c: Seq<char>, i: int, quoted: bool, out: Seq<char>)
    requires
        keeps_all(out),
    ensures
        keeps_all(rebuild_from(c, i, quoted, out)),
    decreases c.len() - i,
{
    if 0 <= i < c.len() {
        let ch = c[i];
        if is_keep_char(ch) {
            assert(keeps_all(out.push(ch))) by {
                assert forall|k: int| 0 <= k < out.len() + 1 implies is_keep_char(#[trigger] out.push(ch)[k]) by {
                    if k < out.len() {
                        assert(out.push(ch)[k] == out[k]);
                    }
                }
            }
            lemma_rebuild_keeps(c, i + 1, quoted, out.push(ch));
        } else {
            assert(keeps_all(out.push('_'))) by {
                assert forall|k: int| 0 <= k < out.len() + 1 implies is_keep_char(#[trigger] out.push('_')[k]) by {
                    if k < out.len() {
                        assert(out.push('_')[k] == out[k]);
                    }
                }
            }
            lemma_rebuild_keeps(c, i + 1, quoted, out);
            lemma_rebuild_keeps(c, i + 1, quoted, out.push('_'));
        }
    }
}

proof fn lemma_trim_us_end(x: Seq<char>)
    ensures
        trim_us_end(x).len() <= x.len(),
        forall|k: int| 0 <= k < trim_us_end(x).len() ==> #[trigger] trim_us_end(x)[k] == x[k],
        trim_us_end(x).len() > 0 ==> trim_us_end(x).last() != '_',
    decreases x.len(),
{
    if x.len() > 0 && x.last() == '_' {
        lemma_trim_us_end(x.drop_last());
        assert forall|k: int| 0 <= k < trim_us_end(x).len() implies #[trigger] trim_us_end(x)[k] == x[k] by {
            assert(trim_us_end(x)[k] == x.drop_last()[k]);
        }
    }
}

proof fn lemma_trim_us_start(x: Seq<char>)
    ensures
        trim_us_start(x).len() <= x.len(),
        forall|k: int|
            0 <= k < trim_us_start(x).len() ==> #[trigger] trim_us_start(x)[k] == x[k + x.len()
                - trim_us_start(x).len()],
    decreases x.len(),
{
    if x.len() > 0 && x[0] == '_' {
        lemma_trim_us_start(x.drop_first());
        assert forall|k: int| 0 <= k < trim_us_start(x).len() implies #[trigger] trim_us_start(x)[k]
            == x[k + x.len() - trim_us_start(x).len()] by {
            assert(trim_us_start(x)[k] == x.drop_first()[k + x.drop_first().len() - trim_us_start(x).len()]);
        }
    }
}

proof fn lemma_join_keeps(gs: Seq<Seq<char>>)
    ensures
        keeps_all(join_pieces(gs)),
    decreases gs.len(),
{
    if gs.len() > 0 {
        lemma_join_keeps(gs.drop_last());
        let a = join_pieces(gs.drop_last());
        let b = fallback_piece(gs.last());
        assert(keeps_all(b));
        assert forall|k: int| 0 <= k < (a + b).len() implies is_keep_char(#[trigger] (a + b)[k]) by {
            if k < a.len() {
                assert((a + b)[k] == a[k]);
            } else {
                assert((a + b)[k] == b[k - a.len()]);
            }
        }
    }
}

proof fn lemma_hex_digits(v: nat)
    ensures
        hex_digits(v).len() > 0,
        keeps_all(hex_digits(v)),
        hex_digits(v).last() != '_',
    decreases v,
{
    if v >= 16 {
        lemma_hex_digits(v / 16);
        let a = hex_digits(v / 16);
        let d = hex_digit(v % 16);
        assert(is_keep_char(d));
        assert forall|k: int| 0 <= k < a.push(d).len() implies is_keep_char(#[trigger] a.push(d)[k]) by {
            if k < a.len() {
                assert(a.push(d)[k] == a[k]);
            }
        }
    }
}

proof fn lemma_body_is_plain(c: Seq<char>, quoted: bool, hash_always: bool)
    ensures
        is_plain_id(normalize_body(c, quoted, hash_always)),
{
    if c.len() > 0 && !(c.last() != '_' && keeps_all(c)) {
        let r0 = rebuild_from(c, 0, quoted, Seq::empty());
        lemma_rebuild_keeps(c, 0, quoted, Seq::empty());
        let r1 = trim_us_end(r0);
        lemma_trim_us_end(r0);
        if r1.len() == 0 {
            let j = join_pieces(extended_graphemes(c));
            lemma_join_keeps(extended_graphemes(c));
            let e = trim_us_end(j);
            lemma_trim_us_end(j);
            let r2 = trim_us_start(e);
            lemma_trim_us_start(e);
            if r2.len() > 0 {
                assert(r2.last() == e.last());
                assert forall|k: int| 0 <= k < r2.len() implies is_keep_char(#[trigger] r2[k]) by {
                    assert(r2[k] == e[k + e.len() - r2.len()]);
                    assert(e[k + e.len() - r2.len()] == j[k + e.len() - r2.len()]);
                }
            } else {
                let h = hashed_id(c);
                lemma_hex_digits(fnv1a(encode_utf8(c)) as nat);
                let hx = hex_digits(fnv1a(encode_utf8(c)) as nat);
                assert forall|k: int| 0 <= k < h.len() implies is_keep_char(#[trigger] h[k]) by {
                    if k >= 3 {
                        assert(h[k] == hx[k - 3]);
                    }
                }
                assert(h.last() == hx.last());
            }
        } else {
            assert forall|k: int| 0 <= k < r1.len() implies is_keep_char(#[trigger] r1[k]) by {
                assert(r1[k] == r0[k]);
            }
        }
    }
}

/// An identifier made only of ASCII letters and digits and `_ - . /`, and not ending in `_`, is its
/// own normalised form: node ids written that way are used verbatim.
pub proof fn law_plain_identifier_is_unchanged(raw: Seq<char>, hash_always: bool)
    requires
        raw.len() > 0,
        raw.last() != '_',
        keeps_all(raw),
    ensures
        spec_normalize_identifier(raw, hash_always) == raw,
{
    assert(!crate::text::is_ws(raw[0]));
    assert(!crate::text::is_ws(raw.last()));
    assert(raw.skip(0) =~= raw);
    assert(raw.take(raw.len() as int) =~= raw);
    assert(trim(raw) == raw);
    assert(!is_quote_wrapped(raw));
}

/// Normalising an identifier twice gives what normalising it once gave: a normalised id is its own
/// normal form, so the id of a node never changes when it is named again.
pub proof fn law_normalization_is_idempotent(raw: Seq<char>, hash_always: bool)
    ensures
        spec_normalize_identifier(spec_normalize_identifier(raw, hash_always), hash_always)
            == spec_normalize_identifier(raw, hash_always),
{
    let u = unquote(trim(raw));
    lemma_body_is_plain(u.0, u.1, hash_always);
    let out = spec_normalize_identifier(raw, hash_always);
    if out.len() > 0 {
        law_plain_identifier_is_unchanged(out, hash_always);
    } else {
        assert(trim(out) =~= out);
    }
}

/// A normalised identifier uses only ASCII letters and digits and `_ - . /`, and never ends in
/// `_`: every id the parsers produce is safe to use verbatim in renderer output.
pub proof fn law_normalized_id_is_plain(raw: Seq<char>, hash_always: bool)
    ensures
        is_plain_id(spec_normalize_identifier(raw, hash_always)),
{
    let u = unquote(trim(raw));
    lemma_body_is_plain(u.0, u.1, hash_always);
}

/// An identifier whose body holds a letter or digit never normalises to the empty id.
pub proof fn law_alphanumeric_id_is_not_empty(raw: Seq<char>, hash_always: bool)
    requires
        exists|k: int|
            0 <= k < unquote(trim(raw)).0.len() && unicode_alphanumeric(#[trigger] unquote(trim(raw)).0[k]),
    ensures
        spec_normalize_identifier(raw, hash_always).len() > 0,
{
    let c = unquote(trim(raw)).0;
    assert(c.len() > 0);
    assert(hashed_id(c).len() >= 3);
}

} // verus!
