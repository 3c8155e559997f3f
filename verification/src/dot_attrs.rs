//! DOT attribute lists (`[key=value, …]`) and the values the parser reads from them.
use vstd::prelude::*;

use crate::dot_scan::{bracket_pair, spec_bracket_pair};
use crate::text::{
    char_is_whitespace, chars_of, eq_ci, is_ws, push_window, ridx_of, trim, trim_window,
    window_vec,
};

verus! {

// ---------------------------------------------------------------------------------------------
// Endpoint and attribute list.
/// A fragment split into its endpoint and its attribute list: the text before its first
/// structural `[`, and the text up to the last structural `]` after it.
pub open spec fn spec_split_endpoint(frag: Seq<char>) -> (Seq<char>, Option<Seq<char>>) {
    let t = trim(frag);
    match spec_bracket_pair(t, '[', ']') {
        None => (t, None),
        Some((a, b)) => (trim(t.take(a)), Some(trim(t.subrange(a + 1, b)))),
    }
}

/// [`spec_split_endpoint`] of `s[lo..hi]`, as windows.
pub fn split_endpoint_and_attrs(s: &Vec<char>, lo: usize, hi: usize) -> (r: (
    usize,
    usize,
    Option<(usize, usize)>,
))
    requires
        lo <= hi <= s@.len(),
    ensures
        lo <= r.0 <= r.1 <= hi,
        r.2 matches Some((a, b)) ==> lo <= a <= b <= hi,
        spec_split_endpoint(s@.subrange(lo as int, hi as int)) == (
            s@.subrange(r.0 as int, r.1 as int),
            match r.2 {
                Some((a, b)) => Some(s@.subrange(a as int, b as int)),
                None => None,
            },
        ),
{
    let (ta, tb) = trim_window(s, lo, hi);
    let t = window_vec(s, ta, tb);
    match bracket_pair(&t, '[', ']') {
        None => (ta, tb, None),
        Some((a, b)) => {
            let (ea, eb) = trim_window(s, ta, ta + a);
            let (aa, ab) = trim_window(s, ta + a + 1, ta + b);
            assert(t@.take(a as int) =~= s@.subrange(ta as int, ta + a));
            assert(t@.subrange(a + 1, b as int) =~= s@.subrange(ta + a + 1, ta + b));
            (ea, eb, Some((aa, ab)))
        },
    }
}

// ---------------------------------------------------------------------------------------------
// Attribute pairs.
/// A character that separates attributes: whitespace, `[`, `]` or `,`.
pub open spec fn attr_gap(c: char) -> bool {
    is_ws(c) || c == '[' || c == ']' || c == ','
}

/// The first index `>= i` of `s` that ends a key: `=` or an attribute separator.
pub open spec fn key_end_from(s: Seq<char>, i: int) -> int
    decreases s.len() - i,
{
    if i < 0 || i >= s.len() {
        s.len() as int
    } else if s[i] == '=' || attr_gap(s[i]) {
        i
    } else {
        key_end_from(s, i + 1)
    }
}

/// The first index `>= i` of `s` that is not whitespace.
pub open spec fn skip_ws_from(s: Seq<char>, i: int) -> int
    decreases s.len() - i,
{
    if 0 <= i < s.len() && is_ws(s[i]) {
        skip_ws_from(s, i + 1)
    } else {
        i
    }
}

/// The index of the `"` closing a quoted value whose body starts at `i`, skipping `\`-escaped
/// characters.
pub open spec fn quote_close_from(s: Seq<char>, i: int, esc: bool) -> Option<int>
    decreases s.len() - i,
{
    if i < 0 || i >= s.len() {
        None
    } else if esc {
        quote_close_from(s, i + 1, false)
    } else if s[i] == '\\' {
        quote_close_from(s, i + 1, true)
    } else if s[i] == '"' {
        Some(i)
    } else {
        quote_close_from(s, i + 1, false)
    }
}

/// Where an unquoted value starting at `i` ends: at whitespace, `,` or `]` outside `<…>`.
pub open spec fn bare_value_end(s: Seq<char>, i: int, depth: nat) -> int
    decreases s.len() - i,
{
    if i < 0 || i >= s.len() {
        s.len() as int
    } else {
        let c = s[i];
        let d = if c == '<' {
            depth + 1
        } else if c == '>' && depth > 0 {
            (depth - 1) as nat
        } else {
            depth
        };
        if d == 0 && (is_ws(c) || c == ',' || c == ']') {
            i
        } else {
            bare_value_end(s, i + 1, d)
        }
    }
}

/// The value that starts at index `vs` and the index after it. A quoted value keeps its quotes;
/// an unterminated one runs to the end and gains a closing quote.
pub open spec fn value_at(s: Seq<char>, vs: int) -> (Seq<char>, int) {
    if s[vs] == '"' {
        match quote_close_from(s, vs + 1, false) {
            Some(ci) => (s.subrange(vs, ci + 1), ci + 1),
            None => (s.subrange(vs, s.len() as int).push('"'), s.len() as int),
        }
    } else {
        let ve = bare_value_end(s, vs, 0);
        (s.subrange(vs, ve), ve)
    }
}

pub proof fn lemma_key_end(s: Seq<char>, i: int)
    requires
        0 <= i <= s.len(),
    ensures
        i <= key_end_from(s, i) <= s.len(),
    decreases s.len() - i,
{
    if i < s.len() && !(s[i] == '=' || attr_gap(s[i])) {
        lemma_key_end(s, i + 1);
    }
}

pub proof fn lemma_skip_ws(s: Seq<char>, i: int)
    requires
        0 <= i <= s.len(),
    ensures
        i <= skip_ws_from(s, i) <= s.len(),
    decreases s.len() - i,
{
    if i < s.len() && is_ws(s[i]) {
        lemma_skip_ws(s, i + 1);
    }
}

pub proof fn lemma_quote_close(s: Seq<char>, i: int, esc: bool)
    ensures
        quote_close_from(s, i, esc) matches Some(c) ==> i <= c < s.len() && s[c] == '"',
    decreases s.len() - i,
{
    if 0 <= i < s.len() {
        lemma_quote_close(s, i + 1, false);
        lemma_quote_close(s, i + 1, true);
    }
}

pub proof fn lemma_bare_end(s: Seq<char>, i: int, depth: nat)
    requires
        0 <= i <= s.len(),
    ensures
        i <= bare_value_end(s, i, depth) <= s.len(),
    decreases s.len() - i,
{
    if i < s.len() {
        let c = s[i];
        let d = if c == '<' {
            depth + 1
        } else if c == '>' && depth > 0 {
            (depth - 1) as nat
        } else {
            depth
        };
        lemma_bare_end(s, i + 1, d);
    }
}

/// The `(key, value)` pairs of the attribute list `s` from index `i` on. A key runs up to `=` or
/// a separator; a key without `=` has the empty value.
pub open spec fn attr_pairs_from(s: Seq<char>, i: int) -> Seq<(Seq<char>, Seq<char>)>
    decreases s.len() - i,
{
    if i < 0 || i >= s.len() {
        Seq::empty()
    } else if attr_gap(s[i]) {
        attr_pairs_from(s, i + 1)
    } else {
        proof {
            lemma_key_end(s, i + 1);
            lemma_skip_ws(s, key_end_from(s, i + 1));
        }
        let ke = key_end_from(s, i + 1);
        let j = skip_ws_from(s, ke);
        let has_eq = j < s.len() && s[j] == '=';
        let vs = if has_eq {
            skip_ws_from(s, j + 1)
        } else {
            j
        };
        proof {
            if has_eq {
                lemma_skip_ws(s, j + 1);
            }
            if has_eq && vs < s.len() {
                lemma_quote_close(s, vs + 1, false);
                lemma_bare_end(s, vs, 0);
            }
        }
        let (val, next) = if has_eq && vs < s.len() {
            value_at(s, vs)
        } else {
            (Seq::empty(), vs)
        };
        seq![(s.subrange(i, ke), val)] + attr_pairs_from(s, next)
    }
}

/// Whether two texts are equal ignoring ASCII case.
pub open spec fn same_ci(a: Seq<char>, b: Seq<char>) -> bool {
    a.len() == b.len() && forall|k: int| 0 <= k < a.len() ==> eq_ci(#[trigger] a[k], b[k])
}

/// The value of the first pair from index `k` on whose key is `key`, ignoring ASCII case.
pub open spec fn first_attr(pairs: Seq<(Seq<char>, Seq<char>)>, key: Seq<char>, k: int) -> Option<
    Seq<char>,
>
    decreases pairs.len() - k,
{
    if k < 0 || k >= pairs.len() {
        None
    } else if same_ci(pairs[k].0, key) {
        Some(pairs[k].1)
    } else {
        first_attr(pairs, key, k + 1)
    }
}

/// The raw value of attribute `key` in the list `s`.
pub open spec fn spec_attr(s: Seq<char>, key: Seq<char>) -> Option<Seq<char>> {
    first_attr(attr_pairs_from(s, 0), key, 0)
}

proof fn lemma_first_attr_cons(
    p: (Seq<char>, Seq<char>),
    rest: Seq<(Seq<char>, Seq<char>)>,
    key: Seq<char>,
)
    ensures
        first_attr(seq![p] + rest, key, 0) == if same_ci(p.0, key) {
            Some(p.1)
        } else {
            first_attr(rest, key, 0)
        },
{
    let all = seq![p] + rest;
    assert(all[0] == p);
    if !same_ci(p.0, key) {
        lemma_first_attr_shift(p, rest, key, 0);
    }
}

proof fn lemma_first_attr_shift(
    p: (Seq<char>, Seq<char>),
    rest: Seq<(Seq<char>, Seq<char>)>,
    key: Seq<char>,
    k: int,
)
    requires
        0 <= k,
    ensures
        first_attr(seq![p] + rest, key, k + 1) == first_attr(rest, key, k),
    decreases rest.len() - k,
{
    let all = seq![p] + rest;
    if k < rest.len() {
        assert(all[k + 1] == rest[k]);
        lemma_first_attr_shift(p, rest, key, k + 1);
    }
}

fn same_ci_exec(s: &Vec<char>, a: usize, b: usize, key: &Vec<char>) -> (r: bool)
    requires
        a <= b <= s@.len(),
    ensures
        r == same_ci(s@.subrange(a as int, b as int), key@),
{
    if b - a != key.len() {
        return false;
    }
    let mut k: usize = 0;
    while k < key.len()
        invariant
            k <= key@.len() == b - a,
            a <= b <= s@.len(),
            forall|m: int| 0 <= m < k ==> eq_ci(s@[a + m], key@[m]),
        decreases key@.len() - k,
    {
        if !crate::text::char_eq_ci(s[a + k], key[k]) {
            assert(!eq_ci(s@.subrange(a as int, b as int)[k as int], key@[k as int]));
            return false;
        }
        k = k + 1;
    }
    assert forall|m: int| 0 <= m < key@.len() implies eq_ci(
        #[trigger] s@.subrange(a as int, b as int)[m],
        key@[m],
    ) by {
        assert(s@.subrange(a as int, b as int)[m] == s@[a + m]);
    }
    true
}

/// The raw value of attribute `key` (ASCII case ignored) in the list `s` (see
/// [`attr_pairs_from`]).
pub fn extract_dot_attribute_raw(s: &Vec<char>, key: &str) -> (r: Option<Vec<char>>)
    ensures
        r matches Some(v) ==> spec_attr(s@, key@) == Some(v@),
        r is None ==> spec_attr(s@, key@) is None,
{
    let kc = chars_of(key);
    let n = s.len();
    let mut i: usize = 0;
    while i < n
        invariant
            i <= n == s@.len(),
            kc@ == key@,
            first_attr(attr_pairs_from(s@, i as int), key@, 0) == spec_attr(s@, key@),
        decreases n - i,
    {
        let c = s[i];
        if char_is_whitespace(c) || c == '[' || c == ']' || c == ',' {
            i = i + 1;
        } else {
            let mut ke = i + 1;
            while ke < n && !(s[ke] == '=' || char_is_whitespace(s[ke]) || s[ke] == '[' || s[ke]
                == ']' || s[ke] == ',')
                invariant
                    i < ke <= n == s@.len(),
                    key_end_from(s@, ke as int) == key_end_from(s@, i + 1),
                decreases n - ke,
            {
                ke = ke + 1;
            }
            let mut j = ke;
            while j < n && char_is_whitespace(s[j])
                invariant
                    ke <= j <= n == s@.len(),
                    skip_ws_from(s@, j as int) == skip_ws_from(s@, ke as int),
                decreases n - j,
            {
                j = j + 1;
            }
            let has_eq = j < n && s[j] == '=';
            let mut vs = j;
            if has_eq {
                vs = j + 1;
                while vs < n && char_is_whitespace(s[vs])
                    invariant
                        j < vs <= n == s@.len(),
                        skip_ws_from(s@, vs as int) == skip_ws_from(s@, j + 1),
                    decreases n - vs,
                {
                    vs = vs + 1;
                }
            }
            let mut val: Vec<char> = Vec::new();
            let mut next = vs;
            if has_eq && vs < n {
                if s[vs] == '"' {
                    let mut k = vs + 1;
                    let mut esc = false;
                    let mut close: Option<usize> = None;
                    while k < n && close.is_none()
                        invariant
                            vs < k <= n == s@.len(),
                            close is None ==> quote_close_from(s@, k as int, esc)
                                == quote_close_from(s@, vs + 1, false),
                            close matches Some(ci) ==> quote_close_from(s@, vs + 1, false)
                                == Some(ci as int) && vs < ci < n,
                        decreases n - k,
                    {
                        if esc {
                            esc = false;
                        } else if s[k] == '\\' {
                            esc = true;
                        } else if s[k] == '"' {
                            close = Some(k);
                        }
                        k = k + 1;
                    }
                    match close {
                        Some(ci) => {
                            push_window(&mut val, s, vs, ci + 1);
                            next = ci + 1;
                        },
                        None => {
                            push_window(&mut val, s, vs, n);
                            val.push('"');
                            next = n;
                        },
                    }
                } else {
                    let mut k = vs;
                    let mut depth: usize = 0;
                    let mut end: Option<usize> = None;
                    while k < n && end.is_none()
                        invariant
                            vs <= k <= n == s@.len(),
                            depth <= k,
                            end is None ==> bare_value_end(s@, k as int, depth as nat)
                                == bare_value_end(s@, vs as int, 0),
                            end matches Some(e) ==> bare_value_end(s@, vs as int, 0) == e as int
                                && vs <= e < n,
                        decreases n - k, if end is None {
                            1int
                        } else {
                            0int
                        },
                    {
                        let c = s[k];
                        if c == '<' {
                            depth = depth + 1;
                        } else if c == '>' && depth > 0 {
                            depth = depth - 1;
                        }
                        if depth == 0 && (char_is_whitespace(c) || c == ',' || c == ']') {
                            end = Some(k);
                        } else {
                            k = k + 1;
                        }
                    }
                    let ve = match end {
                        Some(e) => e,
                        None => n,
                    };
                    push_window(&mut val, s, vs, ve);
                    next = ve;
                }
            }
            proof {
                assert(val@ =~= (if has_eq && vs < n {
                    value_at(s@, vs as int)
                } else {
                    (Seq::empty(), vs as int)
                }).0);
                lemma_first_attr_cons(
                    (s@.subrange(i as int, ke as int), val@),
                    attr_pairs_from(s@, next as int),
                    key@,
                );
            }
            if same_ci_exec(s, i, ke, &kc) {
                return Some(val);
            }
            i = next;
        }
    }
    None
}

// ---------------------------------------------------------------------------------------------
// Quotes, escapes, tags.
pub open spec fn is_quote_char(c: char) -> bool {
    c == '"' || c == '\''
}

/// The first index `>= i` of `s` that is not a quote character.
pub open spec fn first_nonquote(s: Seq<char>, i: int) -> int
    decreases s.len() - i,
{
    if 0 <= i < s.len() && is_quote_char(s[i]) {
        first_nonquote(s, i + 1)
    } else {
        i
    }
}

/// One past the last index `< j` of `s` that is not a quote character (0 when there is none).
pub open spec fn last_nonquote_end(s: Seq<char>, j: int) -> int
    decreases j,
{
    if 0 < j <= s.len() && is_quote_char(s[j - 1]) {
        last_nonquote_end(s, j - 1)
    } else {
        j
    }
}

/// `trim_matches(['"', '\''])`: `s` without its leading and trailing runs of quotes.
pub open spec fn trim_quotes(s: Seq<char>) -> Seq<char> {
    let a = first_nonquote(s, 0);
    let b = last_nonquote_end(s, s.len() as int);
    if a >= b {
        Seq::empty()
    } else {
        s.subrange(a, b)
    }
}

/// The window of [`trim_quotes`] of `s[lo..hi]`.
pub fn trim_quotes_window(s: &Vec<char>, lo: usize, hi: usize) -> (r: (usize, usize))
    requires
        lo <= hi <= s@.len(),
    ensures
        lo <= r.0 <= r.1 <= hi,
        s@.subrange(r.0 as int, r.1 as int) == trim_quotes(s@.subrange(lo as int, hi as int)),
{
    let ghost w = s@.subrange(lo as int, hi as int);
    let mut a = lo;
    while a < hi && (s[a] == '"' || s[a] == '\'')
        invariant
            lo <= a <= hi <= s@.len(),
            w == s@.subrange(lo as int, hi as int),
            first_nonquote(w, a - lo) == first_nonquote(w, 0),
        decreases hi - a,
    {
        a = a + 1;
    }
    let mut b = hi;
    while b > lo && (s[b - 1] == '"' || s[b - 1] == '\'')
        invariant
            lo <= b <= hi <= s@.len(),
            w == s@.subrange(lo as int, hi as int),
            last_nonquote_end(w, b - lo) == last_nonquote_end(w, w.len() as int),
        decreases b - lo,
    {
        b = b - 1;
    }
    if a >= b {
        assert(s@.subrange(a as int, a as int) =~= Seq::<char>::empty());
        (a, a)
    } else {
        assert(s@.subrange(a as int, b as int) =~= w.subrange(a - lo, b - lo));
        (a, b)
    }
}

/// A value with surrounding whitespace and quotes removed.
pub open spec fn clean_value(v: Seq<char>) -> Seq<char> {
    trim(trim_quotes(trim(v)))
}

pub fn clean_value_window(s: &Vec<char>, lo: usize, hi: usize) -> (r: (usize, usize))
    requires
        lo <= hi <= s@.len(),
    ensures
        lo <= r.0 <= r.1 <= hi,
        s@.subrange(r.0 as int, r.1 as int) == clean_value(s@.subrange(lo as int, hi as int)),
{
    let (a, b) = trim_window(s, lo, hi);
    let (c, d) = trim_quotes_window(s, a, b);
    trim_window(s, c, d)
}

/// The character a `\` escape stands for.
pub open spec fn unescape(c: char) -> char {
    if c == 'n' {
        '\n'
    } else if c == 'r' {
        '\r'
    } else if c == 't' {
        '\t'
    } else {
        c
    }
}

/// `s` from index `i` on with `\n`, `\r`, `\t` decoded and every other `\x` read as `x`; a lone
/// trailing backslash is kept. `esc` is whether a backslash was just read.
pub open spec fn decode_from(s: Seq<char>, i: int, esc: bool) -> Seq<char>
    decreases s.len() - i,
{
    if i < 0 || i >= s.len() {
        if esc {
            seq!['\\']
        } else {
            Seq::empty()
        }
    } else if esc {
        seq![unescape(s[i])] + decode_from(s, i + 1, false)
    } else if s[i] == '\\' {
        decode_from(s, i + 1, true)
    } else {
        seq![s[i]] + decode_from(s, i + 1, false)
    }
}

/// [`decode_from`] of `s[lo..hi]`.
pub fn decode_escapes(s: &Vec<char>, lo: usize, hi: usize) -> (r: Vec<char>)
    requires
        lo <= hi <= s@.len(),
    ensures
        r@ == decode_from(s@.subrange(lo as int, hi as int), 0, false),
{
    let ghost w = s@.subrange(lo as int, hi as int);
    let mut out: Vec<char> = Vec::new();
    let mut esc = false;
    let mut i = lo;
    while i < hi
        invariant
            lo <= i <= hi <= s@.len(),
            w == s@.subrange(lo as int, hi as int),
            out@ + decode_from(w, i - lo, esc) == decode_from(w, 0, false),
        decreases hi - i,
    {
        let c = s[i];
        assert(w[i - lo] == c);
        let ghost before = out@;
        let ghost e0 = esc;
        if esc {
            let d = if c == 'n' {
                '\n'
            } else if c == 'r' {
                '\r'
            } else if c == 't' {
                '\t'
            } else {
                c
            };
            out.push(d);
            esc = false;
        } else if c == '\\' {
            esc = true;
        } else {
            out.push(c);
        }
        assert(out@ + decode_from(w, i + 1 - lo, esc) =~= before + decode_from(w, i - lo, e0));
        i = i + 1;
    }
    if esc {
        out.push('\\');
    }
    assert(out@ =~= out@ + decode_from(w, hi - lo, false)) by {
        if !esc {
        }
    }
    out
}

/// The text of `s` from index `i` on outside `<…>` tags.
pub open spec fn untag_from(s: Seq<char>, i: int, in_tag: bool) -> Seq<char>
    decreases s.len() - i,
{
    if i < 0 || i >= s.len() {
        Seq::empty()
    } else if s[i] == '<' {
        untag_from(s, i + 1, true)
    } else if s[i] == '>' {
        untag_from(s, i + 1, false)
    } else if !in_tag {
        seq![s[i]] + untag_from(s, i + 1, in_tag)
    } else {
        untag_from(s, i + 1, in_tag)
    }
}

/// The text of `s[lo..hi]` outside `<…>` tags, trimmed.
pub fn strip_html_tags(s: &Vec<char>, lo: usize, hi: usize) -> (r: Vec<char>)
    requires
        lo <= hi <= s@.len(),
    ensures
        r@ == trim(untag_from(s@.subrange(lo as int, hi as int), 0, false)),
{
    let ghost w = s@.subrange(lo as int, hi as int);
    let mut out: Vec<char> = Vec::new();
    let mut in_tag = false;
    let mut i = lo;
    while i < hi
        invariant
            lo <= i <= hi <= s@.len(),
            w == s@.subrange(lo as int, hi as int),
            out@ + untag_from(w, i - lo, in_tag) == untag_from(w, 0, false),
        decreases hi - i,
    {
        let c = s[i];
        assert(w[i - lo] == c);
        let ghost before = out@;
        let ghost t0 = in_tag;
        if c == '<' {
            in_tag = true;
        } else if c == '>' {
            in_tag = false;
        } else if !in_tag {
            out.push(c);
        }
        assert(out@ + untag_from(w, i + 1 - lo, in_tag) =~= before + untag_from(w, i - lo, t0));
        i = i + 1;
    }
    assert(out@ + untag_from(w, hi - lo, in_tag) =~= out@);
    let n = out.len();
    let (a, b) = trim_window(&out, 0, n);
    assert(out@.subrange(0, n as int) =~= out@);
    window_vec(&out, a, b)
}

// ---------------------------------------------------------------------------------------------
// Labels.
/// The text of a label value: a quoted string (escapes decoded, up to its unescaped closing
/// quote), an HTML label (tags removed, up to its last `>`), or bare text (surrounding `"`s
/// dropped, escapes decoded); `None` when that is empty or the quote or tag is unclosed.
pub open spec fn spec_label_value(value: Seq<char>) -> Option<Seq<char>> {
    let v = trim(value);
    if v.len() > 0 && v[0] == '"' {
        let q = v.drop_first();
        match quote_close_from(q, 0, false) {
            None => None,
            Some(end) => {
                let text = decode_from(trim(q.take(end)), 0, false);
                if text.len() > 0 {
                    Some(text)
                } else {
                    None
                }
            },
        }
    } else if v.len() > 0 && v[0] == '<' {
        let e = ridx_of(v, '>');
        if e < 0 {
            None
        } else {
            let text = trim(untag_from(v.take(e + 1), 0, false));
            if text.len() > 0 {
                Some(text)
            } else {
                None
            }
        }
    } else {
        let text = decode_from(crate::ir::trim_char(v, '"'), 0, false);
        if text.len() > 0 {
            Some(text)
        } else {
            None
        }
    }
}

/// [`spec_label_value`] of `s[lo..hi]`.
pub fn parse_dot_label_value(s: &Vec<char>, lo: usize, hi: usize) -> (r: Option<Vec<char>>)
    requires
        lo <= hi <= s@.len(),
    ensures
        r matches Some(t) ==> spec_label_value(s@.subrange(lo as int, hi as int)) == Some(t@),
        r is None ==> spec_label_value(s@.subrange(lo as int, hi as int)) is None,
{
    let (a, b) = trim_window(s, lo, hi);
    let ghost v = s@.subrange(a as int, b as int);
    if a < b && s[a] == '"' {
        assert(v.drop_first() =~= s@.subrange(a + 1, b as int));
        let ghost q = s@.subrange(a + 1, b as int);
        let mut k = a + 1;
        let mut esc = false;
        let mut close: Option<usize> = None;
        while k < b && close.is_none()
            invariant
                a < k <= b <= s@.len(),
                q == s@.subrange(a + 1, b as int),
                close is None ==> quote_close_from(q, k - a - 1, esc) == quote_close_from(q, 0, false),
                close matches Some(ci) ==> quote_close_from(q, 0, false) == Some(ci - a - 1) && a < ci
                    < b,
            decreases b - k,
        {
            assert(q[k - a - 1] == s@[k as int]);
            if esc {
                esc = false;
            } else if s[k] == '\\' {
                esc = true;
            } else if s[k] == '"' {
                close = Some(k);
            }
            k = k + 1;
        }
        let ci = match close {
            Some(ci) => ci,
            None => return None,
        };
        let (ta, tb) = trim_window(s, a + 1, ci);
        assert(q.take(ci - a - 1) =~= s@.subrange(a + 1, ci as int));
        let text = decode_escapes(s, ta, tb);
        if text.len() > 0 {
            Some(text)
        } else {
            None
        }
    } else if a < b && s[a] == '<' {
        let e = match crate::text::last_index_of_char(s, a, b, '>') {
            Some(e) => e,
            None => return None,
        };
        assert(v.take(e - a + 1) =~= s@.subrange(a as int, e + 1));
        let text = strip_html_tags(s, a, e + 1);
        if text.len() > 0 {
            Some(text)
        } else {
            None
        }
    } else {
        let (ca, cb) = crate::ir::trim_char_window(s, a, b, '"');
        let text = decode_escapes(s, ca, cb);
        if text.len() > 0 {
            Some(text)
        } else {
            None
        }
    }
}

/// The text of the `label` attribute of the list `s`.
pub open spec fn spec_dot_label(s: Seq<char>) -> Option<Seq<char>> {
    match spec_attr(s, "label"@) {
        Some(v) => spec_label_value(v),
        None => None,
    }
}

pub fn parse_dot_label(s: &Vec<char>) -> (r: Option<Vec<char>>)
    ensures
        r matches Some(t) ==> spec_dot_label(s@) == Some(t@),
        r is None ==> spec_dot_label(s@) is None,
{
    match extract_dot_attribute_raw(s, "label") {
        Some(v) => {
            let n = v.len();
            assert(v@.subrange(0, n as int) =~= v@);
            parse_dot_label_value(&v, 0, n)
        },
        None => None,
    }
}

} // verus!
