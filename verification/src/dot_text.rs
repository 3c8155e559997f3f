//! DOT body preparation: the body between the outer braces, edge-group expansion, brace padding,
//! and structural splitting into statements.
use vstd::prelude::*;

use crate::dot_scan::{
    ScanExec, first_struct_from, last_struct_from, scan_state, scan_step, structural,
};
use crate::text::{
    ends_with, idx_of, index_of_char, occurs_at, push_str, push_window, trim, trim_end,
    trim_end_window, trim_window, window_vec,
};

verus! {

proof fn lemma_scan_next(s: Seq<char>, i: int)
    requires
        0 <= i < s.len(),
    ensures
        scan_state(s, i + 1) == scan_step(scan_state(s, i), s[i]),
{
}

// ---------------------------------------------------------------------------------------------
// The body.
/// The body of a DOT graph `s`: between its first structural `{` and the last structural `}`
/// after it (the end of the text when there is none); all of `s` when it has no structural `{`.
pub open spec fn spec_extract_body(s: Seq<char>) -> (int, int) {
    match first_struct_from(s, '{', 0) {
        None => (0, s.len() as int),
        Some(a) => match last_struct_from(s, '}', a + 1, None) {
            None => (a + 1, s.len() as int),
            Some(b) => (a + 1, b),
        },
    }
}

/// The window of [`spec_extract_body`] of `s`.
pub fn extract_body(s: &Vec<char>) -> (r: (usize, usize))
    ensures
        r.0 <= r.1 <= s@.len(),
        (r.0 as int, r.1 as int) == spec_extract_body(s@),
{
    let n = s.len();
    let mut st = ScanExec::new();
    let mut i: usize = 0;
    let mut first: Option<usize> = None;
    while i < n && first.is_none()
        invariant
            i <= n == s@.len(),
            st.matches(scan_state(s@, i as int)),
            st.depth <= i,
            first is None ==> first_struct_from(s@, '{', i as int) == first_struct_from(s@, '{', 0),
            first matches Some(a) ==> first_struct_from(s@, '{', 0) == Some(a as int) && a + 1 == i,
        decreases n - i,
    {
        if st.quote.is_none() && st.depth == 0 && s[i] == '{' {
            first = Some(i);
        }
        proof {
            lemma_scan_next(s@, i as int);
        }
        st.step(s[i]);
        i = i + 1;
    }
    let a = match first {
        Some(a) => a,
        None => return (0, n),
    };
    let mut last: Option<usize> = None;
    while i < n
        invariant
            a < i <= n == s@.len(),
            st.matches(scan_state(s@, i as int)),
            st.depth <= i,
            last_struct_from(s@, '}', i as int, match last {
                Some(x) => Some(x as int),
                None => None,
            }) == last_struct_from(s@, '}', a + 1, None),
            last matches Some(x) ==> a < x < i,
        decreases n - i,
    {
        if st.quote.is_none() && st.depth == 0 && s[i] == '}' {
            last = Some(i);
        }
        proof {
            lemma_scan_next(s@, i as int);
        }
        st.step(s[i]);
        i = i + 1;
    }
    match last {
        Some(b) => (a + 1, b),
        None => (a + 1, n),
    }
}

// ---------------------------------------------------------------------------------------------
// Brace padding.
/// `s` from index `i` on with every brace outside a quoted string padded as `;{;` / `;};`;
/// `q` is the open quote and `esc` whether a `\` was just read inside it.
pub open spec fn pad_braces_from(s: Seq<char>, i: int, q: Option<char>, esc: bool) -> Seq<char>
    decreases s.len() - i,
{
    if i < 0 || i >= s.len() {
        Seq::empty()
    } else {
        let c = s[i];
        match q {
            Some(aq) => seq![c] + if esc {
                pad_braces_from(s, i + 1, q, false)
            } else if c == '\\' {
                pad_braces_from(s, i + 1, q, true)
            } else if c == aq {
                pad_braces_from(s, i + 1, None, false)
            } else {
                pad_braces_from(s, i + 1, q, false)
            },
            None => if c == '"' || c == '\'' {
                seq![c] + pad_braces_from(s, i + 1, Some(c), false)
            } else if c == '{' || c == '}' {
                seq![';', c, ';'] + pad_braces_from(s, i + 1, None, false)
            } else {
                seq![c] + pad_braces_from(s, i + 1, None, false)
            },
        }
    }
}

/// [`pad_braces_from`] of all of `s`: statements inside and around braces become separable.
pub fn normalize_dot_body(s: &Vec<char>) -> (r: Vec<char>)
    ensures
        r@ == pad_braces_from(s@, 0, None, false),
{
    let n = s.len();
    let mut out: Vec<char> = Vec::new();
    let mut q: Option<char> = None;
    let mut esc = false;
    let mut i: usize = 0;
    while i < n
        invariant
            i <= n == s@.len(),
            out@ + pad_braces_from(s@, i as int, q, esc) == pad_braces_from(s@, 0, None, false),
        decreases n - i,
    {
        let c = s[i];
        let ghost before = out@;
        let ghost (q0, e0) = (q, esc);
        match q {
            Some(aq) => {
                out.push(c);
                if esc {
                    esc = false;
                } else if c == '\\' {
                    esc = true;
                } else if c == aq {
                    q = None;
                    esc = false;
                } else {
                    esc = false;
                }
            },
            None => {
                if c == '"' || c == '\'' {
                    out.push(c);
                    q = Some(c);
                    esc = false;
                } else if c == '{' || c == '}' {
                    out.push(';');
                    out.push(c);
                    out.push(';');
                    esc = false;
                } else {
                    out.push(c);
                    esc = false;
                }
            },
        }
        proof {
            assert(out@ + pad_braces_from(s@, i + 1, q, esc) =~= before + pad_braces_from(
                s@,
                i as int,
                q0,
                e0,
            ));
        }
        i = i + 1;
    }
    out
}

/// Whether `s[lo..hi]` holds a brace.
pub fn has_brace(s: &Vec<char>, lo: usize, hi: usize) -> (r: bool)
    requires
        lo <= hi <= s@.len(),
    ensures
        r == (s@.subrange(lo as int, hi as int).contains('{') || s@.subrange(
            lo as int,
            hi as int,
        ).contains('}')),
{
    crate::text::window_contains(s, lo, hi, '{') || crate::text::window_contains(s, lo, hi, '}')
}

// ---------------------------------------------------------------------------------------------
// Structural splitting.
/// The non-empty trimmed pieces of `s` between structural occurrences of `sep`, scanning from
/// index `i` with the current piece starting at `start`; occurrences are taken left to right
/// without overlap.
pub open spec fn split_struct_from(s: Seq<char>, sep: Seq<char>, i: int, start: int) -> Seq<
    Seq<char>,
>
    decreases s.len() - i,
{
    if sep.len() == 0 || i < 0 || start < 0 || start > i || i >= s.len() {
        if 0 <= start < s.len() && trim(s.subrange(start, s.len() as int)).len() > 0 {
            seq![trim(s.subrange(start, s.len() as int))]
        } else {
            Seq::empty()
        }
    } else if structural(s, i) && occurs_at(s, i, sep) {
        let piece = trim(s.subrange(start, i));
        let rest = split_struct_from(s, sep, i + sep.len(), i + sep.len());
        if piece.len() > 0 {
            seq![piece] + rest
        } else {
            rest
        }
    } else {
        split_struct_from(s, sep, i + 1, start)
    }
}

/// The windows of the pieces of `s` split on structural `sep` (see [`split_struct_from`]).
pub fn split_dot_by(s: &Vec<char>, sep: &Vec<char>) -> (r: Vec<(usize, usize)>)
    requires
        sep@.len() > 0,
    ensures
        forall|k: int| 0 <= k < r@.len() ==> (#[trigger] r@[k]).0 <= r@[k].1 <= s@.len(),
        r@.map_values(|p: (usize, usize)| s@.subrange(p.0 as int, p.1 as int)) == split_struct_from(
            s@,
            sep@,
            0,
            0,
        ),
{
    let n = s.len();
    let m = sep.len();
    let mut out: Vec<(usize, usize)> = Vec::new();
    let ghost mut done: Seq<Seq<char>> = Seq::empty();
    let mut st = ScanExec::new();
    let mut i: usize = 0;
    let mut start: usize = 0;
    while i < n
        invariant
            start <= i <= n == s@.len(),
            m == sep@.len() > 0,
            st.matches(scan_state(s@, i as int)),
            st.depth <= i,
            forall|k: int| 0 <= k < out@.len() ==> (#[trigger] out@[k]).0 <= out@[k].1 <= n,
            out@.map_values(|p: (usize, usize)| s@.subrange(p.0 as int, p.1 as int)) == done,
            done + split_struct_from(s@, sep@, i as int, start as int) == split_struct_from(
                s@,
                sep@,
                0,
                0,
            ),
        decreases n - i,
    {
        if st.quote.is_none() && st.depth == 0 && crate::text::matches_at(s, 0, n, i, sep) {
            assert(s@.subrange(0, n as int) =~= s@);
            let (a, b) = trim_window(s, start, i);
            let ghost piece = s@.subrange(a as int, b as int);
            if a < b {
                out.push((a, b));
                proof {
                    let nd = done.push(piece);
                    assert(out@.map_values(|p: (usize, usize)| s@.subrange(p.0 as int, p.1 as int))
                        =~= nd);
                    assert(nd + split_struct_from(s@, sep@, i + m, i + m) =~= done
                        + split_struct_from(s@, sep@, i as int, start as int));
                    done = nd;
                }
            }
            // Step the scanner over the separator.
            let mut k: usize = 0;
            while k < m
                invariant
                    k <= m == sep@.len(),
                    i + m <= n == s@.len(),
                    st.matches(scan_state(s@, i + k)),
                    st.depth <= i + k,
                decreases m - k,
            {
                proof {
                    lemma_scan_next(s@, i + k);
                }
                st.step(s[i + k]);
                k = k + 1;
            }
            i = i + m;
            start = i;
        } else {
            proof {
                assert(s@.subrange(0, n as int) =~= s@);
                lemma_scan_next(s@, i as int);
            }
            st.step(s[i]);
            i = i + 1;
        }
    }
    if start < n {
        let (a, b) = trim_window(s, start, n);
        if a < b {
            out.push((a, b));
            proof {
                let nd = done.push(s@.subrange(a as int, b as int));
                assert(out@.map_values(|p: (usize, usize)| s@.subrange(p.0 as int, p.1 as int))
                    =~= nd);
                assert(nd =~= done + split_struct_from(s@, sep@, i as int, start as int));
                done = nd;
            }
        } else {
            assert(done + split_struct_from(s@, sep@, i as int, start as int) =~= done);
        }
    } else {
        assert(done + split_struct_from(s@, sep@, i as int, start as int) =~= done);
    }
    out
}

// ---------------------------------------------------------------------------------------------
// Edge groups.
/// `char::is_ascii_whitespace`: space, tab, line feed, form feed, carriage return.
pub open spec fn is_ascii_ws(c: char) -> bool {
    c == ' ' || c == '\t' || c == '\n' || c == '\x0C' || c == '\r'
}

/// The tokens of `s` separated by ASCII whitespace outside quotes, each trimmed, empty ones
/// dropped; scanning from index `i` with the current token starting at `start` and `q` the open
/// quote.
pub open spec fn ws_tokens_from(s: Seq<char>, i: int, start: int, q: Option<char>) -> Seq<Seq<char>>
    decreases s.len() - i,
{
    if i < 0 || start < 0 || start > i || i >= s.len() {
        if 0 <= start < s.len() && trim(s.subrange(start, s.len() as int)).len() > 0 {
            seq![trim(s.subrange(start, s.len() as int))]
        } else {
            Seq::empty()
        }
    } else {
        match q {
            Some(qc) => ws_tokens_from(
                s,
                i + 1,
                start,
                if s[i] == qc {
                    None
                } else {
                    q
                },
            ),
            None => if s[i] == '"' || s[i] == '\'' {
                ws_tokens_from(s, i + 1, start, Some(s[i]))
            } else if is_ascii_ws(s[i]) {
                let piece = trim(s.subrange(start, i));
                if piece.len() > 0 {
                    seq![piece] + ws_tokens_from(s, i + 1, i + 1, None)
                } else {
                    ws_tokens_from(s, i + 1, i + 1, None)
                }
            } else {
                ws_tokens_from(s, i + 1, start, None)
            },
        }
    }
}

/// The windows of [`ws_tokens_from`]`(s, 0, 0, None)`.
pub fn split_whitespace_respecting_quotes(s: &Vec<char>) -> (r: Vec<(usize, usize)>)
    ensures
        forall|k: int| 0 <= k < r@.len() ==> (#[trigger] r@[k]).0 <= r@[k].1 <= s@.len(),
        r@.map_values(|p: (usize, usize)| s@.subrange(p.0 as int, p.1 as int)) == ws_tokens_from(
            s@,
            0,
            0,
            None,
        ),
{
    let n = s.len();
    let mut out: Vec<(usize, usize)> = Vec::new();
    let ghost mut done: Seq<Seq<char>> = Seq::empty();
    let mut q: Option<char> = None;
    let mut i: usize = 0;
    let mut start: usize = 0;
    while i < n
        invariant
            start <= i <= n == s@.len(),
            forall|k: int| 0 <= k < out@.len() ==> (#[trigger] out@[k]).0 <= out@[k].1 <= n,
            out@.map_values(|p: (usize, usize)| s@.subrange(p.0 as int, p.1 as int)) == done,
            done + ws_tokens_from(s@, i as int, start as int, q) == ws_tokens_from(s@, 0, 0, None),
        decreases n - i,
    {
        let c = s[i];
        match q {
            Some(qc) => {
                if c == qc {
                    q = None;
                }
            },
            None => {
                if c == '"' || c == '\'' {
                    q = Some(c);
                } else if c == ' ' || c == '\t' || c == '\n' || c == '\x0C' || c == '\r' {
                    let (a, b) = trim_window(s, start, i);
                    if a < b {
                        out.push((a, b));
                        proof {
                            let nd = done.push(s@.subrange(a as int, b as int));
                            assert(out@.map_values(
                                |p: (usize, usize)| s@.subrange(p.0 as int, p.1 as int),
                            ) =~= nd);
                            assert(nd + ws_tokens_from(s@, i + 1, i + 1, None) =~= done
                                + ws_tokens_from(s@, i as int, start as int, q));
                            done = nd;
                        }
                    }
                    start = i + 1;
                }
            },
        }
        i = i + 1;
    }
    if start < n {
        let (a, b) = trim_window(s, start, n);
        if a < b {
            out.push((a, b));
            proof {
                let nd = done.push(s@.subrange(a as int, b as int));
                assert(out@.map_values(|p: (usize, usize)| s@.subrange(p.0 as int, p.1 as int))
                    =~= nd);
                assert(nd =~= done + ws_tokens_from(s@, i as int, start as int, q));
                done = nd;
            }
        } else {
            assert(done + ws_tokens_from(s@, i as int, start as int, q) =~= done);
        }
    } else {
        assert(done + ws_tokens_from(s@, i as int, start as int, q) =~= done);
    }
    out
}

/// Whether index `i` of `r` ends a statement or an edge operator (so the group's source starts
/// after it): `;`, a line break, a brace, or the second character of `->` / `--`.
pub open spec fn group_cut_at(r: Seq<char>, i: int) -> bool {
    r[i] == ';' || r[i] == '\n' || r[i] == '{' || r[i] == '}' || (i > 0 && r[i - 1] == '-' && (
    r[i] == '>' || r[i] == '-'))
}

/// One past the last cut in `r` (0 when there is none).
pub open spec fn last_cut_end(r: Seq<char>) -> int
    decreases r.len(),
{
    if r.len() == 0 {
        0
    } else if group_cut_at(r, r.len() - 1) {
        r.len() as int
    } else {
        last_cut_end(r.drop_last())
    }
}

/// `source op m` for each member `m`, joined with `; `.
pub open spec fn join_group(source: Seq<char>, op: Seq<char>, ms: Seq<Seq<char>>) -> Seq<char>
    decreases ms.len(),
{
    if ms.len() == 0 {
        Seq::empty()
    } else if ms.len() == 1 {
        source + seq![' '] + op + seq![' '] + ms[0]
    } else {
        join_group(source, op, ms.drop_last()) + seq![';', ' '] + source + seq![' '] + op + seq![' ']
            + ms.last()
    }
}

/// `s` from index `p` on with every edge group `source -> { a b c }` rewritten as
/// `source -> a; source -> b; source -> c` (the source being the text after the last cut before
/// the operator). A brace not preceded by `->` or `--` is copied as is; an unclosed group ends
/// the rewriting.
pub open spec fn expand_from(s: Seq<char>, p: int) -> Seq<char>
    decreases s.len() - p,
{
    if p < 0 || p > s.len() {
        Seq::empty()
    } else {
        let rest = s.subrange(p, s.len() as int);
        let k = idx_of(rest, '{');
        if k >= rest.len() {
            rest
        } else {
            let bs = p + k;
            let before = s.subrange(p, bs);
            let tb = trim_end(before);
            if !(ends_with(tb, "->"@) || ends_with(tb, "--"@)) {
                s.subrange(p, bs + 1) + expand_from(s, bs + 1)
            } else {
                let e = idx_of(s.subrange(bs + 1, s.len() as int), '}');
                if e >= s.len() - bs - 1 {
                    rest
                } else {
                    let be = bs + 1 + e;
                    let oe = tb.len() as int;
                    let op = tb.subrange(oe - 2, oe);
                    let li = last_cut_end(before.take(oe - 2));
                    let source = trim(before.subrange(li, oe - 2));
                    let members = ws_tokens_from(trim(s.subrange(bs + 1, be)), 0, 0, None);
                    before.take(li) + (if members.len() == 0 {
                        source
                    } else {
                        join_group(source, op, members)
                    }) + expand_from(s, be + 1)
                }
            }
        }
    }
}

fn last_cut_end_exec(s: &Vec<char>, lo: usize, hi: usize) -> (r: usize)
    requires
        lo <= hi <= s@.len(),
    ensures
        lo <= r <= hi,
        r - lo == last_cut_end(s@.subrange(lo as int, hi as int)),
{
    let mut j = hi;
    while j > lo
        invariant
            lo <= j <= hi <= s@.len(),
            last_cut_end(s@.subrange(lo as int, j as int)) == last_cut_end(
                s@.subrange(lo as int, hi as int),
            ),
        decreases j - lo,
    {
        let ghost r = s@.subrange(lo as int, j as int);
        let i = j - 1;
        let c = s[i];
        assert(r[i - lo] == c);
        if i > lo {
            assert(r[i - lo - 1] == s@[i - 1]);
        }
        if c == ';' || c == '\n' || c == '{' || c == '}' || (i > lo && s[i - 1] == '-' && (c == '>'
            || c == '-')) {
            assert(group_cut_at(r, r.len() - 1));
            return j;
        }
        assert(!group_cut_at(r, r.len() - 1));
        assert(r.drop_last() =~= s@.subrange(lo as int, j - 1));
        j = j - 1;
    }
    assert(s@.subrange(lo as int, lo as int) =~= Seq::<char>::empty());
    lo
}

/// Append [`join_group`] of the members (windows of `w`) to `out`.
fn push_group(
    out: &mut Vec<char>,
    s: &Vec<char>,
    sa: usize,
    sb: usize,
    oa: usize,
    ob: usize,
    w: &Vec<char>,
    members: &Vec<(usize, usize)>,
)
    requires
        sa <= sb <= s@.len(),
        ob == oa + 2,
        ob <= s@.len(),
        forall|k: int|
            0 <= k < members@.len() ==> (#[trigger] members@[k]).0 <= members@[k].1 <= w@.len(),
    ensures
        final(out)@ == old(out)@ + join_group(
            s@.subrange(sa as int, sb as int),
            s@.subrange(oa as int, oa + 2),
            members@.map_values(|p: (usize, usize)| w@.subrange(p.0 as int, p.1 as int)),
        ),
{
    let ghost base = old(out)@;
    let ghost src = s@.subrange(sa as int, sb as int);
    let ghost op = s@.subrange(oa as int, oa + 2);
    let ghost ms = members@.map_values(|p: (usize, usize)| w@.subrange(p.0 as int, p.1 as int));
    let mut m: usize = 0;
    while m < members.len()
        invariant
            m <= members@.len(),
            sa <= sb <= s@.len(),
            ob == oa + 2,
            ob <= s@.len(),
            forall|k: int|
                0 <= k < members@.len() ==> (#[trigger] members@[k]).0 <= members@[k].1 <= w@.len(),
            ms == members@.map_values(|p: (usize, usize)| w@.subrange(p.0 as int, p.1 as int)),
            src == s@.subrange(sa as int, sb as int),
            op == s@.subrange(oa as int, oa + 2),
            out@ == base + join_group(src, op, ms.take(m as int)),
        decreases members@.len() - m,
    {
        let ghost before = out@;
        let (a, b) = members[m];
        let mut piece: Vec<char> = Vec::new();
        if m > 0 {
            piece.push(';');
            piece.push(' ');
        }
        push_window(&mut piece, s, sa, sb);
        piece.push(' ');
        push_window(&mut piece, s, oa, ob);
        piece.push(' ');
        push_window(&mut piece, w, a, b);
        proof {
            assert(ms[m as int] == w@.subrange(a as int, b as int));
            if m > 0 {
                assert(piece@ =~= seq![';', ' '] + src + seq![' '] + op + seq![' '] + ms[m as int]);
            } else {
                assert(piece@ =~= src + seq![' '] + op + seq![' '] + ms[m as int]);
            }
        }
        let pl = piece.len();
        push_window(out, &piece, 0, pl);
        proof {
            assert(piece@.subrange(0, pl as int) =~= piece@);
            let t = ms.take(m + 1);
            assert(t.drop_last() =~= ms.take(m as int));
            assert(t.last() == ms[m as int]);
            if m == 0 {
                assert(t[0] == ms[0]);
                assert(join_group(src, op, t) == src + seq![' '] + op + seq![' '] + t[0]);
                assert(join_group(src, op, ms.take(0)) =~= Seq::<char>::empty());
                assert(out@ =~= base + join_group(src, op, t));
            } else {
                assert(join_group(src, op, t) == join_group(src, op, t.drop_last()) + seq![';', ' ']
                    + src + seq![' '] + op + seq![' '] + t.last());
                assert(out@ =~= base + join_group(src, op, t));
            }
        }
        m = m + 1;
    }
    assert(ms.take(members@.len() as int) =~= ms);
}

proof fn lemma_expand_plain(s: Seq<char>, p: int, bs: int, te: int)
    requires
        0 <= p <= bs < s.len(),
        s[bs] == '{',
        idx_of(s.subrange(p, s.len() as int), '{') == bs - p,
        s.subrange(p, te) == trim_end(s.subrange(p, bs)),
        !(ends_with(s.subrange(p, te), "->"@) || ends_with(s.subrange(p, te), "--"@)),
    ensures
        expand_from(s, p) == s.subrange(p, bs + 1) + expand_from(s, bs + 1),
{
}

proof fn lemma_expand_unclosed(s: Seq<char>, p: int, bs: int, te: int)
    requires
        0 <= p <= bs < s.len(),
        idx_of(s.subrange(p, s.len() as int), '{') == bs - p,
        s.subrange(p, te) == trim_end(s.subrange(p, bs)),
        ends_with(s.subrange(p, te), "->"@) || ends_with(s.subrange(p, te), "--"@),
        idx_of(s.subrange(bs + 1, s.len() as int), '}') >= s.len() - bs - 1,
    ensures
        expand_from(s, p) == s.subrange(p, s.len() as int),
{
}

proof fn lemma_expand_group(
    s: Seq<char>,
    p: int,
    bs: int,
    te: int,
    be: int,
    li: int,
    sa: int,
    sb: int,
    ia: int,
    ib: int,
)
    requires
        0 <= p <= bs < be < s.len(),
        p + 2 <= te <= bs,
        idx_of(s.subrange(p, s.len() as int), '{') == bs - p,
        s.subrange(p, te) == trim_end(s.subrange(p, bs)),
        ends_with(s.subrange(p, te), "->"@) || ends_with(s.subrange(p, te), "--"@),
        be == bs + 1 + idx_of(s.subrange(bs + 1, s.len() as int), '}'),
        p <= li <= te - 2,
        li - p == last_cut_end(s.subrange(p, te - 2)),
        s.subrange(sa, sb) == trim(s.subrange(li, te - 2)),
        s.subrange(ia, ib) == trim(s.subrange(bs + 1, be)),
    ensures
        expand_from(s, p) == s.subrange(p, li) + (if ws_tokens_from(s.subrange(ia, ib), 0, 0, None).len()
            == 0 {
            s.subrange(sa, sb)
        } else {
            join_group(
                s.subrange(sa, sb),
                s.subrange(te - 2, te),
                ws_tokens_from(s.subrange(ia, ib), 0, 0, None),
            )
        }) + expand_from(s, be + 1),
{
    let before = s.subrange(p, bs);
    let tb = trim_end(before);
    assert(tb.len() == te - p);
    assert(before.take(te - 2 - p) =~= s.subrange(p, te - 2));
    assert(before.take(li - p) =~= s.subrange(p, li));
    assert(before.subrange(li - p, te - 2 - p) =~= s.subrange(li, te - 2));
    assert(tb.subrange(tb.len() - 2, tb.len() as int) =~= s.subrange(te - 2, te));
}

/// [`expand_from`]`(s, 0)`: every edge group rewritten as one edge statement per member.
pub fn expand_edge_groups(s: &Vec<char>) -> (r: Vec<char>)
    ensures
        r@ == expand_from(s@, 0),
{
    let n = s.len();
    let mut out: Vec<char> = Vec::new();
    let mut p: usize = 0;
    loop
        invariant
            p <= n == s@.len(),
            out@ + expand_from(s@, p as int) == expand_from(s@, 0),
        decreases n - p,
    {
        proof {
            reveal_strlit("->");
            reveal_strlit("--");
        }
        let bs = index_of_char(s, p, n, '{');
        if bs >= n {
            let ghost base = out@;
            push_window(&mut out, s, p, n);
            assert(expand_from(s@, p as int) == s@.subrange(p as int, n as int));
            return out;
        }
        proof {
            crate::text::lemma_idx_of(s@.subrange(p as int, n as int), '{');
        }
        let te = trim_end_window(s, p, bs);
        let ghost tb = s@.subrange(p as int, te as int);
        let is_group = te - p >= 2 && s[te - 2] == '-' && (s[te - 1] == '>' || s[te - 1] == '-');
        assert(is_group == (ends_with(tb, "->"@) || ends_with(tb, "--"@))) by {
            if tb.len() >= 2 {
                let t2 = tb.subrange(tb.len() - 2, tb.len() as int);
                assert(t2[0] == s@[te - 2]);
                assert(t2[1] == s@[te - 1]);
                if is_group {
                    if s@[te - 1] == '>' {
                        assert(t2 =~= "->"@);
                    } else {
                        assert(t2 =~= "--"@);
                    }
                }
            }
        }
        if !is_group {
            proof {
                lemma_expand_plain(s@, p as int, bs as int, te as int);
            }
            let ghost base = out@;
            push_window(&mut out, s, p, bs + 1);
            assert(out@ + expand_from(s@, bs + 1) =~= base + expand_from(s@, p as int));
            p = bs + 1;
        } else {
            let e = index_of_char(s, bs + 1, n, '}');
            if e >= n {
                proof {
                    lemma_expand_unclosed(s@, p as int, bs as int, te as int);
                }
                push_window(&mut out, s, p, n);
                return out;
            }
            let li = last_cut_end_exec(s, p, te - 2);
            let (sa, sb) = trim_window(s, li, te - 2);
            let (ia, ib) = trim_window(s, bs + 1, e);
            proof {
                lemma_expand_group(
                    s@,
                    p as int,
                    bs as int,
                    te as int,
                    e as int,
                    li as int,
                    sa as int,
                    sb as int,
                    ia as int,
                    ib as int,
                );
            }
            let ghost base = out@;
            push_window(&mut out, s, p, li);
            let inner = window_vec(s, ia, ib);
            let members = split_whitespace_respecting_quotes(&inner);
            if members.len() == 0 {
                push_window(&mut out, s, sa, sb);
            } else {
                push_group(&mut out, s, sa, sb, te - 2, te, &inner, &members);
            }
            assert(out@ + expand_from(s@, e + 1) =~= base + expand_from(s@, p as int));
            p = e + 1;
        }
    }
}

} // verus!
