//! Character-level text model shared by every parser module.
//!
//! Text is handled as a sequence of `char`s. Exec helpers take a `&Vec<char>` with a half-open
//! window `[lo, hi)` so that no substring has to be copied, and state their results over
//! `s@.subrange(lo, hi)`.
use vstd::prelude::*;

verus! {

broadcast use vstd::string::axiom_spec_iter;

/// Whether `c` has the Unicode `White_Space` property (what `char::is_whitespace` reports).
pub uninterp spec fn unicode_white_space(c: char) -> bool;

/// Whether `c` is alphabetic or numeric in the Unicode sense (what `char::is_alphanumeric`
/// reports).
pub uninterp spec fn unicode_alphanumeric(c: char) -> bool;

/// The ASCII rows of the Unicode `White_Space` table: TAB, LF, VT, FF, CR and SPACE.
pub open spec fn ascii_white_space(c: char) -> bool {
    c == ' ' || ('\t' <= c && c <= '\r')
}

pub open spec fn is_ascii_digit(c: char) -> bool {
    '0' <= c && c <= '9'
}

pub open spec fn is_ascii_upper(c: char) -> bool {
    'A' <= c && c <= 'Z'
}

pub open spec fn is_ascii_lower(c: char) -> bool {
    'a' <= c && c <= 'z'
}

pub open spec fn is_ascii_alnum(c: char) -> bool {
    is_ascii_digit(c) || is_ascii_upper(c) || is_ascii_lower(c)
}

/// `char::is_whitespace`: the Unicode `White_Space` property, whose ASCII rows the Unicode tables
/// fix (see [`is_ws`]) and whose other rows are named by [`unicode_white_space`].
#[verifier::external_body]
pub(crate) fn char_is_whitespace(c: char) -> (r: bool)
    ensures
        (c as u32) < 128 ==> r == ascii_white_space(c),
        (c as u32) >= 128 ==> r == unicode_white_space(c),
{
    c.is_whitespace()
}

/// `char::is_alphanumeric`. The result is named by [`unicode_alphanumeric`]; for ASCII input the
/// Unicode `Alphabetic` and `Numeric` classes are exactly the letters and digits.
#[verifier::external_body]
pub(crate) fn char_is_alphanumeric(c: char) -> (r: bool)
    ensures
        r == unicode_alphanumeric(c),
        (c as u32) < 128 ==> (r <==> is_ascii_alnum(c)),
{
    c.is_alphanumeric()
}

/// Collect a character vector into a `String` (`FromIterator<&char> for String`).
#[verifier::external_body]
pub(crate) fn string_from_chars(v: &Vec<char>) -> (s: String)
    ensures
        s@ == v@,
{
    v.iter().collect()
}

/// Copy the characters of `s` into a vector.
pub fn chars_of(s: &str) -> (v: Vec<char>)
    ensures
        v@ == s@,
{
    let mut v: Vec<char> = Vec::new();
    for c in it: s.chars()
        invariant
            v@ == it.seq().take(it.index() as int),
            it.seq() == s@,
    {
        v.push(c);
    }
    v
}

/// Copy the window `[lo, hi)` of `s` into a new `String`.
pub fn string_of_window(s: &Vec<char>, lo: usize, hi: usize) -> (r: String)
    requires
        lo <= hi <= s@.len(),
    ensures
        r@ == s@.subrange(lo as int, hi as int),
{
    let mut v: Vec<char> = Vec::new();
    let mut i = lo;
    while i < hi
        invariant
            lo <= i <= hi <= s@.len(),
            v@ == s@.subrange(lo as int, i as int),
        decreases hi - i,
    {
        v.push(s[i]);
        i = i + 1;
        assert(v@ =~= s@.subrange(lo as int, i as int));
    }
    string_from_chars(&v)
}

/// Copy the window `[lo, hi)` of `s` into a new vector.
pub fn window_vec(s: &Vec<char>, lo: usize, hi: usize) -> (r: Vec<char>)
    requires
        lo <= hi <= s@.len(),
    ensures
        r@ == s@.subrange(lo as int, hi as int),
{
    let mut v: Vec<char> = Vec::new();
    let mut i = lo;
    while i < hi
        invariant
            lo <= i <= hi <= s@.len(),
            v@ == s@.subrange(lo as int, i as int),
        decreases hi - i,
    {
        v.push(s[i]);
        i = i + 1;
        assert(v@ =~= s@.subrange(lo as int, i as int));
    }
    v
}

/// `char::is_whitespace` as a predicate (see [`char_is_whitespace`]).
pub open spec fn is_ws(c: char) -> bool {
    if (c as u32) < 128 {
        ascii_white_space(c)
    } else {
        unicode_white_space(c)
    }
}

/// Number of leading whitespace characters of `s`.
pub open spec fn ws_run(s: Seq<char>) -> nat
    decreases s.len(),
{
    if s.len() > 0 && is_ws(s[0]) {
        1 + ws_run(s.drop_first())
    } else {
        0
    }
}

/// Number of trailing whitespace characters of `s`.
pub open spec fn ws_run_back(s: Seq<char>) -> nat
    decreases s.len(),
{
    if s.len() > 0 && is_ws(s.last()) {
        1 + ws_run_back(s.drop_last())
    } else {
        0
    }
}

pub proof fn lemma_ws_run_bound(s: Seq<char>)
    ensures
        ws_run(s) <= s.len(),
        ws_run_back(s) <= s.len(),
    decreases s.len(),
{
    if s.len() > 0 {
        lemma_ws_run_bound(s.drop_first());
        lemma_ws_run_bound(s.drop_last());
    }
}

/// `str::trim_start`.
pub open spec fn trim_start(s: Seq<char>) -> Seq<char> {
    s.skip(ws_run(s) as int)
}

/// `str::trim_end`.
pub open spec fn trim_end(s: Seq<char>) -> Seq<char> {
    s.take(s.len() - ws_run_back(s))
}

/// `str::trim`.
pub open spec fn trim(s: Seq<char>) -> Seq<char> {
    trim_end(trim_start(s))
}

/// Index of the first character of `s[lo..hi]` that is not whitespace (or `hi`).
pub fn skip_ws(s: &Vec<char>, lo: usize, hi: usize) -> (r: usize)
    requires
        lo <= hi <= s@.len(),
    ensures
        lo <= r <= hi,
        r == lo + ws_run(s@.subrange(lo as int, hi as int)),
{
    let mut i = lo;
    while i < hi
        invariant
            lo <= i <= hi <= s@.len(),
            lo + ws_run(s@.subrange(lo as int, hi as int)) == i + ws_run(
                s@.subrange(i as int, hi as int),
            ),
        decreases hi - i,
    {
        if !char_is_whitespace(s[i]) {
            return i;
        }
        assert(s@.subrange(i as int, hi as int).drop_first() =~= s@.subrange(
            i + 1,
            hi as int,
        ));
        i = i + 1;
    }
    i
}

/// One past the last character of `s[lo..hi]` that is not whitespace (or `lo`).
pub fn skip_ws_back(s: &Vec<char>, lo: usize, hi: usize) -> (r: usize)
    requires
        lo <= hi <= s@.len(),
    ensures
        lo <= r <= hi,
        r == hi - ws_run_back(s@.subrange(lo as int, hi as int)),
{
    let mut j = hi;
    while j > lo
        invariant
            lo <= j <= hi <= s@.len(),
            hi - ws_run_back(s@.subrange(lo as int, hi as int)) == j - ws_run_back(
                s@.subrange(lo as int, j as int),
            ),
        decreases j - lo,
    {
        if !char_is_whitespace(s[j - 1]) {
            return j;
        }
        assert(s@.subrange(lo as int, j as int).drop_last() =~= s@.subrange(
            lo as int,
            j - 1,
        ));
        j = j - 1;
    }
    j
}

/// Whether `p` occurs in `s` at index `i`.
pub open spec fn occurs_at(s: Seq<char>, i: int, p: Seq<char>) -> bool {
    0 <= i && i + p.len() <= s.len() && s.subrange(i, i + p.len()) == p
}

/// Whether `s` starts with `p`.
pub open spec fn starts_with(s: Seq<char>, p: Seq<char>) -> bool {
    occurs_at(s, 0, p)
}

/// Whether `s` ends with `p`.
pub open spec fn ends_with(s: Seq<char>, p: Seq<char>) -> bool {
    p.len() <= s.len() && occurs_at(s, s.len() - p.len(), p)
}

/// Whether `p` occurs at window index `i` of `s[lo..hi]`.
pub fn matches_at(s: &Vec<char>, lo: usize, hi: usize, i: usize, p: &Vec<char>) -> (r: bool)
    requires
        lo <= hi <= s@.len(),
    ensures
        r == occurs_at(s@.subrange(lo as int, hi as int), i as int, p@),
{
    if i > hi - lo || p.len() > hi - lo - i {
        return false;
    }
    let mut k: usize = 0;
    while k < p.len()
        invariant
            lo <= hi <= s@.len(),
            i + p@.len() <= hi - lo,
            0 <= k <= p@.len(),
            forall|m: int| 0 <= m < k ==> s@[lo + i + m] == p@[m],
        decreases p@.len() - k,
    {
        if s[lo + i + k] != p[k] {
            assert(s@.subrange(lo as int, hi as int).subrange(i as int, i + p@.len())[k as int]
                != p@[k as int]);
            return false;
        }
        k = k + 1;
    }
    assert(s@.subrange(lo as int, hi as int).subrange(i as int, i + p@.len()) =~= p@);
    true
}

/// Whether the window `s[lo..hi]` contains the character `c`.
pub fn window_contains(s: &Vec<char>, lo: usize, hi: usize, c: char) -> (r: bool)
    requires
        lo <= hi <= s@.len(),
    ensures
        r == s@.subrange(lo as int, hi as int).contains(c),
{
    let mut i = lo;
    while i < hi
        invariant
            lo <= i <= hi <= s@.len(),
            forall|j: int| lo <= j < i ==> s@[j] != c,
        decreases hi - i,
    {
        if s[i] == c {
            assert(s@.subrange(lo as int, hi as int)[i - lo] == c);
            return true;
        }
        i = i + 1;
    }
    assert forall|j: int| 0 <= j < hi - lo implies s@.subrange(lo as int, hi as int)[j] != c by {
        assert(s@.subrange(lo as int, hi as int)[j] == s@[lo + j]);
    }
    false
}

/// Code point of `c` after ASCII-only lowercasing (`char::to_ascii_lowercase`).
pub open spec fn lower_code(c: char) -> u32 {
    if is_ascii_upper(c) {
        ((c as u32) + 32) as u32
    } else {
        c as u32
    }
}

/// `u8::eq_ignore_ascii_case` lifted to characters.
pub open spec fn eq_ci(a: char, b: char) -> bool {
    lower_code(a) == lower_code(b)
}

pub fn char_eq_ci(a: char, b: char) -> (r: bool)
    ensures
        r == eq_ci(a, b),
{
    let la = if 'A' <= a && a <= 'Z' { (a as u32) + 32 } else { a as u32 };
    let lb = if 'A' <= b && b <= 'Z' { (b as u32) + 32 } else { b as u32 };
    la == lb
}

/// Whether `p` occurs at index `i` of `s`, ignoring ASCII case.
pub open spec fn occurs_at_ci(s: Seq<char>, i: int, p: Seq<char>) -> bool {
    0 <= i && i + p.len() <= s.len() && forall|m: int| 0 <= m < p.len() ==> eq_ci(s[i + m], p[m])
}

pub fn matches_at_ci(s: &Vec<char>, lo: usize, hi: usize, i: usize, p: &Vec<char>) -> (r: bool)
    requires
        lo <= hi <= s@.len(),
    ensures
        r == occurs_at_ci(s@.subrange(lo as int, hi as int), i as int, p@),
{
    if i > hi - lo || p.len() > hi - lo - i {
        return false;
    }
    let mut k: usize = 0;
    while k < p.len()
        invariant
            lo <= hi <= s@.len(),
            i + p@.len() <= hi - lo,
            0 <= k <= p@.len(),
            forall|m: int| 0 <= m < k ==> eq_ci(s@[lo + i + m], p@[m]),
        decreases p@.len() - k,
    {
        if !char_eq_ci(s[lo + i + k], p[k]) {
            assert(s@.subrange(lo as int, hi as int)[i + k] == s@[lo + i + k]);
            return false;
        }
        k = k + 1;
    }
    assert forall|m: int| 0 <= m < p@.len() implies eq_ci(
        s@.subrange(lo as int, hi as int)[i + m],
        p@[m],
    ) by {
        assert(s@.subrange(lo as int, hi as int)[i + m] == s@[lo + i + m]);
    }
    true
}

/// Index of the first `c` in `s`, or `s.len()` when there is none.
pub open spec fn idx_of(s: Seq<char>, c: char) -> nat
    decreases s.len(),
{
    if s.len() == 0 {
        0
    } else if s[0] == c {
        0
    } else {
        1 + idx_of(s.drop_first(), c)
    }
}

/// Index of the last `c` in `s`, or `-1` when there is none.
pub open spec fn ridx_of(s: Seq<char>, c: char) -> int
    decreases s.len(),
{
    if s.len() == 0 {
        -1
    } else if s.last() == c {
        s.len() - 1
    } else {
        ridx_of(s.drop_last(), c)
    }
}

pub proof fn lemma_idx_of(s: Seq<char>, c: char)
    ensures
        idx_of(s, c) <= s.len(),
        idx_of(s, c) < s.len() ==> s[idx_of(s, c) as int] == c,
        forall|j: int| 0 <= j < idx_of(s, c) ==> s[j] != c,
        -1 <= ridx_of(s, c) < s.len(),
        ridx_of(s, c) >= 0 ==> s[ridx_of(s, c)] == c,
        forall|j: int| ridx_of(s, c) < j < s.len() ==> s[j] != c,
    decreases s.len(),
{
    if s.len() > 0 {
        lemma_idx_of(s.drop_first(), c);
        lemma_idx_of(s.drop_last(), c);
        if s[0] != c {
            assert forall|j: int| 0 <= j < idx_of(s, c) implies s[j] != c by {
                if j > 0 {
                    assert(s[j] == s.drop_first()[j - 1]);
                }
            }
        }
        if s.last() != c {
            assert forall|j: int| ridx_of(s, c) < j < s.len() implies s[j] != c by {
                if j < s.len() - 1 {
                    assert(s[j] == s.drop_last()[j]);
                }
            }
        }
    }
}

/// `lo +` the index of the first `c` in `s[lo..hi]` (`hi` when there is none).
pub fn index_of_char(s: &Vec<char>, lo: usize, hi: usize, c: char) -> (r: usize)
    requires
        lo <= hi <= s@.len(),
    ensures
        lo <= r <= hi,
        r == lo + idx_of(s@.subrange(lo as int, hi as int), c),
{
    let mut i = lo;
    while i < hi
        invariant
            lo <= i <= hi <= s@.len(),
            lo + idx_of(s@.subrange(lo as int, hi as int), c) == i + idx_of(
                s@.subrange(i as int, hi as int),
                c,
            ),
        decreases hi - i,
    {
        if s[i] == c {
            return i;
        }
        assert(s@.subrange(i as int, hi as int).drop_first() =~= s@.subrange(i + 1, hi as int));
        i = i + 1;
    }
    i
}

/// `lo +` the index of the last `c` in `s[lo..hi]`, if there is one.
pub fn last_index_of_char(s: &Vec<char>, lo: usize, hi: usize, c: char) -> (r: Option<usize>)
    requires
        lo <= hi <= s@.len(),
    ensures
        r matches Some(k) ==> lo <= k < hi && k == lo + ridx_of(
            s@.subrange(lo as int, hi as int),
            c,
        ),
        r is None ==> ridx_of(s@.subrange(lo as int, hi as int), c) == -1,
{
    let mut j = hi;
    while j > lo
        invariant
            lo <= j <= hi <= s@.len(),
            ridx_of(s@.subrange(lo as int, hi as int), c) == ridx_of(
                s@.subrange(lo as int, j as int),
                c,
            ),
        decreases j - lo,
    {
        if s[j - 1] == c {
            return Some(j - 1);
        }
        assert(s@.subrange(lo as int, j as int).drop_last() =~= s@.subrange(lo as int, j - 1));
        j = j - 1;
    }
    None
}

/// The window of `s[lo..hi]` that `str::trim_start` keeps: `[r, hi)`.
pub fn trim_start_window(s: &Vec<char>, lo: usize, hi: usize) -> (r: usize)
    requires
        lo <= hi <= s@.len(),
    ensures
        lo <= r <= hi,
        s@.subrange(r as int, hi as int) == trim_start(s@.subrange(lo as int, hi as int)),
{
    let r = skip_ws(s, lo, hi);
    assert(s@.subrange(r as int, hi as int) =~= s@.subrange(lo as int, hi as int).skip(r - lo));
    r
}

/// The window of `s[lo..hi]` that `str::trim_end` keeps: `[lo, r)`.
pub fn trim_end_window(s: &Vec<char>, lo: usize, hi: usize) -> (r: usize)
    requires
        lo <= hi <= s@.len(),
    ensures
        lo <= r <= hi,
        s@.subrange(lo as int, r as int) == trim_end(s@.subrange(lo as int, hi as int)),
{
    let r = skip_ws_back(s, lo, hi);
    assert(s@.subrange(lo as int, r as int) =~= s@.subrange(lo as int, hi as int).take(r - lo));
    r
}

/// The window of `s[lo..hi]` that `str::trim` keeps: `[a, b)`.
pub fn trim_window(s: &Vec<char>, lo: usize, hi: usize) -> (r: (usize, usize))
    requires
        lo <= hi <= s@.len(),
    ensures
        lo <= r.0 <= r.1 <= hi,
        s@.subrange(r.0 as int, r.1 as int) == trim(s@.subrange(lo as int, hi as int)),
{
    let a = trim_start_window(s, lo, hi);
    let b = trim_end_window(s, a, hi);
    (a, b)
}

pub proof fn lemma_sub_skip(s: Seq<char>, lo: int, hi: int, k: int)
    requires
        0 <= lo <= hi <= s.len(),
        0 <= k <= hi - lo,
    ensures
        s.subrange(lo, hi).skip(k) == s.subrange(lo + k, hi),
{
    assert(s.subrange(lo, hi).skip(k) =~= s.subrange(lo + k, hi));
}

/// ASCII-only lowercase of one character (`char::to_ascii_lowercase`).
pub open spec fn ascii_lower_char(c: char) -> char {
    if is_ascii_upper(c) {
        ((c as u32) + 32) as char
    } else {
        c
    }
}

pub fn to_ascii_lower_char(c: char) -> (r: char)
    ensures
        r == ascii_lower_char(c),
{
    if 'A' <= c && c <= 'Z' {
        let v: u8 = (c as u8) + 32;
        let r = v as char;
        assert(r as u32 == (c as u32) + 32);
        r
    } else {
        c
    }
}

/// `str::to_ascii_lowercase` of the window `s[lo..hi]`.
pub fn ascii_lower_window(s: &Vec<char>, lo: usize, hi: usize) -> (r: Vec<char>)
    requires
        lo <= hi <= s@.len(),
    ensures
        r@ == s@.subrange(lo as int, hi as int).map_values(|c: char| ascii_lower_char(c)),
{
    let mut v: Vec<char> = Vec::new();
    let mut i = lo;
    while i < hi
        invariant
            lo <= i <= hi <= s@.len(),
            v@ == s@.subrange(lo as int, i as int).map_values(|c: char| ascii_lower_char(c)),
        decreases hi - i,
    {
        v.push(to_ascii_lower_char(s[i]));
        i = i + 1;
        assert(v@ =~= s@.subrange(lo as int, i as int).map_values(|c: char| ascii_lower_char(c)));
    }
    v
}

/// The full Unicode lowercase mapping of `s` (what `str::to_lowercase` returns).
pub uninterp spec fn unicode_lowercase(s: Seq<char>) -> Seq<char>;

/// `str::to_lowercase`. The result is named by [`unicode_lowercase`]; on ASCII text the Unicode
/// lowercase mapping is the ASCII one (letters `A`–`Z` become `a`–`z`, nothing else changes), and
/// the contract says so.
#[verifier::external_body]
pub(crate) fn str_to_lowercase(s: &str) -> (r: String)
    ensures
        r@ == unicode_lowercase(s@),
        (forall|i: int| 0 <= i < s@.len() ==> (#[trigger] s@[i] as u32) < 0x80) ==> r@ == s@.map_values(
            |c: char| ascii_lower_char(c),
        ),
{
    s.to_lowercase()
}

/// Append the characters of `t` to `v`.
pub fn push_str(v: &mut Vec<char>, t: &str)
    ensures
        final(v)@ == old(v)@ + t@,
{
    let tc = chars_of(t);
    let ghost before = v@;
    let mut i: usize = 0;
    while i < tc.len()
        invariant
            i <= tc@.len(),
            tc@ == t@,
            v@ == before + tc@.subrange(0, i as int),
        decreases tc@.len() - i,
    {
        v.push(tc[i]);
        i = i + 1;
        assert(v@ =~= before + tc@.subrange(0, i as int));
    }
    assert(tc@.subrange(0, tc@.len() as int) =~= tc@);
}

/// Append the window `s[lo..hi]` to `v`.
pub fn push_window(v: &mut Vec<char>, s: &Vec<char>, lo: usize, hi: usize)
    requires
        lo <= hi <= s@.len(),
    ensures
        final(v)@ == old(v)@ + s@.subrange(lo as int, hi as int),
{
    let ghost before = v@;
    let mut i = lo;
    while i < hi
        invariant
            lo <= i <= hi <= s@.len(),
            v@ == before + s@.subrange(lo as int, i as int),
        decreases hi - i,
    {
        v.push(s[i]);
        i = i + 1;
        assert(v@ =~= before + s@.subrange(lo as int, i as int));
    }
}

/// A `String` holding the text of `t` (`str::to_string`).
pub fn owned(t: &str) -> (r: String)
    ensures
        r@ == t@,
{
    let v = chars_of(t);
    string_from_chars(&v)
}

/// Whether `p` occurs somewhere in `s`.
pub open spec fn contains_seq(s: Seq<char>, p: Seq<char>) -> bool {
    exists|i: int| occurs_at(s, i, p)
}

/// The first index `>= i` at which `p` occurs in `s`.
pub open spec fn first_occ_from(s: Seq<char>, p: Seq<char>, i: int) -> Option<int>
    decreases s.len() + 1 - i,
{
    if i < 0 || i + p.len() > s.len() {
        None
    } else if occurs_at(s, i, p) {
        Some(i)
    } else {
        first_occ_from(s, p, i + 1)
    }
}

pub proof fn lemma_first_occ(s: Seq<char>, p: Seq<char>, i: int)
    requires
        0 <= i,
    ensures
        first_occ_from(s, p, i) matches Some(k) ==> i <= k && occurs_at(s, k, p),
        first_occ_from(s, p, i) is None ==> forall|k: int| i <= k ==> !occurs_at(s, k, p),
    decreases s.len() + 1 - i,
{
    if i + p.len() <= s.len() {
        lemma_first_occ(s, p, i + 1);
    }
}

/// `first_occ_from(s, p, from)` computed over the vector `s`.
pub fn find_seq_from(s: &Vec<char>, p: &Vec<char>, from: usize) -> (r: Option<usize>)
    requires
        from <= s@.len(),
    ensures
        r matches Some(k) ==> first_occ_from(s@, p@, from as int) == Some(k as int),
        r is None ==> first_occ_from(s@, p@, from as int) is None,
{
    let n = s.len();
    assert(s@.subrange(0, n as int) =~= s@);
    if p.len() == 0 {
        assert(s@.subrange(from as int, from as int) =~= p@);
        return Some(from);
    }
    let mut i = from;
    while i <= n && p.len() <= n - i
        invariant
            from <= i,
            n == s@.len(),
            s@.subrange(0, n as int) == s@,
            p@.len() > 0,
            first_occ_from(s@, p@, i as int) == first_occ_from(s@, p@, from as int),
        decreases n + 1 - i,
    {
        if matches_at(s, 0, n, i, p) {
            return Some(i);
        }
        i = i + 1;
    }
    None
}

/// Whether the text `p` occurs in `s`.
pub fn contains_str(s: &Vec<char>, p: &str) -> (r: bool)
    ensures
        r == contains_seq(s@, p@),
{
    let pc = chars_of(p);
    let r = find_seq_from(s, &pc, 0);
    proof {
        lemma_first_occ(s@, p@, 0);
    }
    r.is_some()
}

/// The decimal digit `d` (below 10).
pub open spec fn dec_digit(d: nat) -> char {
    ((d + 48) as u32) as char
}

/// Decimal digits of `v` without leading zeros (`format!("{}", v)`).
pub open spec fn dec_digits(v: nat) -> Seq<char>
    decreases v,
{
    if v < 10 {
        seq![dec_digit(v)]
    } else {
        dec_digits(v / 10).push(dec_digit(v % 10))
    }
}

/// Append the decimal digits of `v` to `out`.
pub fn push_decimal(out: &mut Vec<char>, v: usize)
    ensures
        final(out)@ == old(out)@ + dec_digits(v as nat),
    decreases v,
{
    if v >= 10 {
        push_decimal(out, v / 10);
    }
    let d: u8 = (v % 10) as u8;
    let c = (d + 48) as char;
    assert(c == dec_digit((v % 10) as nat));
    out.push(c);
}

/// Whether one of the strings of `v` equals `x`.
pub fn strings_contain(v: &Vec<String>, x: &String) -> (r: bool)
    ensures
        r == exists|k: int| 0 <= k < v@.len() && (#[trigger] v@[k])@ == x@,
{
    let mut i: usize = 0;
    while i < v.len()
        invariant
            i <= v@.len(),
            forall|k: int| 0 <= k < i ==> v@[k]@ != x@,
        decreases v@.len() - i,
    {
        if v[i] == *x {
            return true;
        }
        i = i + 1;
    }
    false
}

/// `Line <n>: ` followed by `text`.
pub fn line_message(n: usize, text: &str) -> (r: Vec<char>)
    ensures
        r@ == "Line "@ + dec_digits(n as nat) + ": "@ + text@,
{
    let mut m: Vec<char> = Vec::new();
    push_str(&mut m, "Line ");
    push_decimal(&mut m, n);
    push_str(&mut m, ": ");
    push_str(&mut m, text);
    m
}

} // verus!
