//! Recognising a Graphviz DOT document, and the comment and directive stripping it needs.
use vstd::prelude::*;

use crate::text::{
    char_eq_ci, char_is_alphanumeric, char_is_whitespace, chars_of, ends_with, idx_of,
    index_of_char, is_ws, last_index_of_char, lemma_idx_of, lemma_sub_skip, lemma_ws_run_bound,
    matches_at_ci, occurs_at_ci, ridx_of, starts_with, trim, trim_end, trim_end_window,
    trim_start, trim_start_window, trim_window, unicode_alphanumeric, window_contains,
};

verus! {

/// Whether only whitespace stands between index `i` and the start of its line.
pub open spec fn ws_back_to_line_start(s: Seq<char>, i: int) -> bool
    decreases i,
{
    if i <= 0 || i > s.len() {
        true
    } else if s[i - 1] == '\n' {
        true
    } else if !is_ws(s[i - 1]) {
        false
    } else {
        ws_back_to_line_start(s, i - 1)
    }
}

/// The DOT comment stripper, as a scan over `s` from index `i`.
///
/// The scan state is: the open quote character (`quote`), whether the previous quoted character was
/// a backslash (`escaped`), whether a `/* */` or a line comment is open, and the depth of `< >` HTML
/// label brackets (`html`). Comments do not start inside quotes or HTML labels; `#` starts a line
/// comment only as the first non-blank character of its line; a line comment keeps its newline and
/// a block comment keeps the newlines it spans.
pub open spec fn strip_comments_from(
    s: Seq<char>,
    i: int,
    quote: Option<char>,
    escaped: bool,
    multi: bool,
    single: bool,
    html: nat,
    out: Seq<char>,
) -> Seq<char>
    decreases s.len() - i,
{
    if i < 0 || i >= s.len() {
        out
    } else {
        let c = s[i];
        if multi {
            if c == '*' && i + 1 < s.len() && s[i + 1] == '/' {
                strip_comments_from(s, i + 2, quote, escaped, false, single, html, out)
            } else {
                strip_comments_from(
                    s,
                    i + 1,
                    quote,
                    escaped,
                    multi,
                    single,
                    html,
                    if c == '\n' {
                        out.push('\n')
                    } else {
                        out
                    },
                )
            }
        } else if single {
            if c == '\n' {
                strip_comments_from(s, i + 1, quote, escaped, multi, false, html, out.push('\n'))
            } else {
                strip_comments_from(s, i + 1, quote, escaped, multi, single, html, out)
            }
        } else if quote is Some {
            let q = quote->0;
            if escaped {
                strip_comments_from(s, i + 1, quote, false, multi, single, html, out.push(c))
            } else if c == '\\' {
                strip_comments_from(s, i + 1, quote, true, multi, single, html, out.push(c))
            } else if c == q {
                strip_comments_from(s, i + 1, None, escaped, multi, single, html, out.push(c))
            } else {
                strip_comments_from(s, i + 1, quote, escaped, multi, single, html, out.push(c))
            }
        } else if html == 0 && c == '/' && i + 1 < s.len() && s[i + 1] == '/' {
            strip_comments_from(s, i + 2, quote, escaped, multi, true, html, out)
        } else if html == 0 && c == '/' && i + 1 < s.len() && s[i + 1] == '*' {
            strip_comments_from(s, i + 2, quote, escaped, true, single, html, out)
        } else if html == 0 && c == '#' && ws_back_to_line_start(s, i) {
            strip_comments_from(s, i + 1, quote, escaped, multi, true, html, out)
        } else if c == '"' || c == '\'' {
            strip_comments_from(s, i + 1, Some(c), escaped, multi, single, html, out.push(c))
        } else if c == '<' {
            strip_comments_from(s, i + 1, quote, escaped, multi, single, html + 1, out.push(c))
        } else if c == '>' {
            strip_comments_from(
                s,
                i + 1,
                quote,
                escaped,
                multi,
                single,
                if html > 0 {
                    (html - 1) as nat
                } else {
                    0
                },
                out.push(c),
            )
        } else {
            strip_comments_from(s, i + 1, quote, escaped, multi, single, html, out.push(c))
        }
    }
}

/// `s` with its DOT comments (`//`, `/* */` and line-leading `#`) removed.
pub open spec fn strip_comments(s: Seq<char>) -> Seq<char> {
    strip_comments_from(s, 0, None, false, false, false, 0, Seq::empty())
}

fn ws_back_to_line_start_exec(s: &Vec<char>, i: usize) -> (r: bool)
    requires
        i <= s@.len(),
    ensures
        r == ws_back_to_line_start(s@, i as int),
{
    let mut j = i;
    while j > 0
        invariant
            j <= i <= s@.len(),
            ws_back_to_line_start(s@, j as int) == ws_back_to_line_start(s@, i as int),
        decreases j,
    {
        if s[j - 1] == '\n' {
            return true;
        }
        if !char_is_whitespace(s[j - 1]) {
            return false;
        }
        j = j - 1;
    }
    true
}

/// Remove DOT comments from `s`.
pub fn strip_all_comments(s: &Vec<char>) -> (out: Vec<char>)
    ensures
        out@ == strip_comments(s@),
{
    let mut out: Vec<char> = Vec::new();
    let mut quote: Option<char> = None;
    let mut escaped = false;
    let mut multi = false;
    let mut single = false;
    let mut html: usize = 0;
    let n = s.len();
    let mut i: usize = 0;
    while i < n
        invariant
            n == s@.len(),
            i <= n,
            html <= i,
            strip_comments_from(s@, i as int, quote, escaped, multi, single, html as nat, out@)
                == strip_comments(s@),
        decreases n - i,
    {
        let c = s[i];
        if multi {
            if c == '*' && i + 1 < n && s[i + 1] == '/' {
                multi = false;
                i = i + 2;
            } else {
                if c == '\n' {
                    out.push('\n');
                }
                i = i + 1;
            }
            continue;
        }
        if single {
            if c == '\n' {
                single = false;
                out.push('\n');
            }
            i = i + 1;
            continue;
        }
        if let Some(q) = quote {
            out.push(c);
            if escaped {
                escaped = false;
            } else if c == '\\' {
                escaped = true;
            } else if c == q {
                quote = None;
            }
            i = i + 1;
            continue;
        }
        if html == 0 {
            if c == '/' && i + 1 < n {
                if s[i + 1] == '/' {
                    single = true;
                    i = i + 2;
                    continue;
                } else if s[i + 1] == '*' {
                    multi = true;
                    i = i + 2;
                    continue;
                }
            }
            if c == '#' && ws_back_to_line_start_exec(s, i) {
                single = true;
                i = i + 1;
                continue;
            }
        }
        if c == '"' || c == '\'' {
            quote = Some(c);
        } else if c == '<' {
            html = html + 1;
        } else if c == '>' {
            if html > 0 {
                html = html - 1;
            }
        }
        out.push(c);
        i = i + 1;
    }
    out
}

} // verus!

verus! {

pub open spec fn percent_pair() -> Seq<char> {
    seq!['%', '%']
}

/// A line that Mermaid reads as a directive or comment: it opens or closes with `%%`.
pub open spec fn is_directive_line(t: Seq<char>) -> bool {
    starts_with(t, percent_pair()) || ends_with(t, percent_pair())
}

pub open spec fn strip_leading_loop(rest: Seq<char>) -> Seq<char>
    decreases rest.len(),
{
    if rest.len() == 0 {
        rest
    } else {
        let cut = idx_of(rest, '\n');
        let line = trim(rest.take(cut as int));
        if !is_directive_line(line) {
            rest
        } else if cut >= rest.len() {
            Seq::empty()
        } else {
            proof {
                lemma_ws_run_bound(rest.skip(cut + 1int));
            }
            strip_leading_loop(trim_start(rest.skip(cut + 1int)))
        }
    }
}

/// `input` with its leading Mermaid `%%` lines (and the blank space around them) dropped.
pub open spec fn strip_leading_directives(input: Seq<char>) -> Seq<char> {
    strip_leading_loop(trim_start(input))
}

pub open spec fn strip_trailing_loop(rest: Seq<char>) -> Seq<char>
    decreases rest.len(),
{
    let nl = ridx_of(rest, '\n');
    let line = trim(rest.skip(nl + 1));
    if !is_directive_line(line) {
        rest
    } else if nl < 0 {
        Seq::empty()
    } else {
        proof {
            lemma_idx_of(rest, '\n');
            lemma_ws_run_bound(rest.take(nl));
        }
        strip_trailing_loop(trim_end(rest.take(nl)))
    }
}

/// `input` with its trailing Mermaid `%%` lines (and the blank space around them) dropped.
pub open spec fn strip_trailing_directives(input: Seq<char>) -> Seq<char> {
    strip_trailing_loop(trim_end(input))
}

fn is_directive_window(s: &Vec<char>, lo: usize, hi: usize) -> (r: bool)
    requires
        lo <= hi <= s@.len(),
    ensures
        r == is_directive_line(trim(s@.subrange(lo as int, hi as int))),
{
    let (a, b) = trim_window(s, lo, hi);
    let t = Ghost(s@.subrange(a as int, b as int));
    if b - a >= 2 && s[a] == '%' && s[a + 1] == '%' {
        assert(t@.subrange(0, 2) =~= percent_pair());
        return true;
    }
    if b - a >= 2 && s[b - 2] == '%' && s[b - 1] == '%' {
        assert(t@.subrange(t@.len() - 2, t@.len() as int) =~= percent_pair());
        return true;
    }
    assert(!starts_with(t@, percent_pair())) by {
        if starts_with(t@, percent_pair()) {
            assert(t@.subrange(0, 2)[0] == t@[0]);
            assert(t@.subrange(0, 2)[1] == t@[1]);
        }
    }
    assert(!ends_with(t@, percent_pair())) by {
        if ends_with(t@, percent_pair()) {
            assert(t@.subrange(t@.len() - 2, t@.len() as int)[0] == t@[t@.len() - 2]);
            assert(t@.subrange(t@.len() - 2, t@.len() as int)[1] == t@[t@.len() - 1]);
        }
    }
    false
}

/// Drop the leading Mermaid `%%` lines of `s[lo..hi]`; the result is the window `[r, hi)`.
pub fn strip_leading_mermaid_directives(s: &Vec<char>, lo: usize, hi: usize) -> (r: usize)
    requires
        lo <= hi <= s@.len(),
    ensures
        lo <= r <= hi,
        s@.subrange(r as int, hi as int) == strip_leading_directives(
            s@.subrange(lo as int, hi as int),
        ),
{
    let mut a = trim_start_window(s, lo, hi);
    loop
        invariant
            lo <= a <= hi <= s@.len(),
            strip_leading_loop(s@.subrange(a as int, hi as int)) == strip_leading_directives(
                s@.subrange(lo as int, hi as int),
            ),
        decreases hi - a,
    {
        let ghost rest = s@.subrange(a as int, hi as int);
        if a == hi {
            return a;
        }
        let cut = index_of_char(s, a, hi, '\n');
        assert(rest.take(cut - a) =~= s@.subrange(a as int, cut as int));
        if !is_directive_window(s, a, cut) {
            return a;
        }
        if cut == hi {
            assert(s@.subrange(hi as int, hi as int) =~= Seq::<char>::empty());
            return hi;
        }
        assert(rest.skip(cut - a + 1) =~= s@.subrange(cut + 1, hi as int));
        a = trim_start_window(s, cut + 1, hi);
    }
}

/// Drop the trailing Mermaid `%%` lines of `s[lo..hi]`; the result is the window `[lo, r)`.
pub fn strip_trailing_mermaid_directives(s: &Vec<char>, lo: usize, hi: usize) -> (r: usize)
    requires
        lo <= hi <= s@.len(),
    ensures
        lo <= r <= hi,
        s@.subrange(lo as int, r as int) == strip_trailing_directives(
            s@.subrange(lo as int, hi as int),
        ),
{
    let mut b = trim_end_window(s, lo, hi);
    loop
        invariant
            lo <= b <= hi <= s@.len(),
            strip_trailing_loop(s@.subrange(lo as int, b as int)) == strip_trailing_directives(
                s@.subrange(lo as int, hi as int),
            ),
        decreases b - lo,
    {
        let ghost rest = s@.subrange(lo as int, b as int);
        let nl = last_index_of_char(s, lo, b, '\n');
        let line_start = match nl {
            Some(k) => k + 1,
            None => lo,
        };
        assert(rest.skip(ridx_of(rest, '\n') + 1) =~= s@.subrange(line_start as int, b as int));
        if !is_directive_window(s, line_start, b) {
            return b;
        }
        match nl {
            None => {
                assert(s@.subrange(lo as int, lo as int) =~= Seq::<char>::empty());
                return lo;
            },
            Some(k) => {
                assert(rest.take(k - lo) =~= s@.subrange(lo as int, k as int));
                b = trim_end_window(s, lo, k);
            },
        }
    }
}

} // verus!

verus! {

pub open spec fn kw_strict() -> Seq<char> {
    seq!['s', 't', 'r', 'i', 'c', 't']
}

pub open spec fn kw_digraph() -> Seq<char> {
    seq!['d', 'i', 'g', 'r', 'a', 'p', 'h']
}

pub open spec fn kw_graph() -> Seq<char> {
    seq!['g', 'r', 'a', 'p', 'h']
}

/// A case-insensitive DOT keyword at the front of `t`, followed by a token boundary (the end of
/// the text or a character that is neither alphanumeric nor `_`); the text after the keyword.
pub open spec fn strip_keyword(t: Seq<char>, kw: Seq<char>) -> Option<Seq<char>> {
    if occurs_at_ci(t, 0, kw) && (t.len() == kw.len() || !(unicode_alphanumeric(t[kw.len() as int])
        || t[kw.len() as int] == '_')) {
        Some(t.skip(kw.len() as int))
    } else {
        None
    }
}

/// One past the closing quote of a double-quoted DOT string whose body starts at `i`.
pub open spec fn quoted_end_from(t: Seq<char>, i: int, escaped: bool) -> Option<int>
    decreases t.len() - i,
{
    if i < 0 || i >= t.len() {
        None
    } else if escaped {
        quoted_end_from(t, i + 1, false)
    } else if t[i] == '\\' {
        quoted_end_from(t, i + 1, true)
    } else if t[i] == '"' {
        Some(i + 1)
    } else {
        quoted_end_from(t, i + 1, false)
    }
}

pub proof fn lemma_quoted_end(t: Seq<char>, i: int, escaped: bool)
    ensures
        quoted_end_from(t, i, escaped) matches Some(e) ==> i < e <= t.len(),
    decreases t.len() - i,
{
    if 0 <= i < t.len() {
        lemma_quoted_end(t, i + 1, false);
        lemma_quoted_end(t, i + 1, true);
    }
}

/// The text after one leading double-quoted DOT string (with `\"` escapes).
pub open spec fn skip_quoted(t: Seq<char>) -> Option<Seq<char>> {
    if t.len() > 0 && t[0] == '"' {
        match quoted_end_from(t, 1, false) {
            Some(e) => Some(t.skip(e)),
            None => None,
        }
    } else {
        None
    }
}

/// After a quoted ID, DOT allows `+ "more"` concatenations; every operand must be quoted.
pub open spec fn concat_tail(rem: Seq<char>) -> Option<Seq<char>>
    decreases rem.len(),
{
    let r = trim_start(rem);
    if r.len() > 0 && r[0] == '+' {
        let next = trim_start(r.skip(1));
        proof {
            lemma_ws_run_bound(rem);
            lemma_ws_run_bound(r.skip(1));
            lemma_quoted_end(next, 1, false);
        }
        match skip_quoted(next) {
            Some(n) => concat_tail(n),
            None => None,
        }
    } else {
        Some(rem)
    }
}

/// One past the `>` that closes an HTML ID whose `<` nesting depth is `depth` at index `i`.
pub open spec fn html_end_from(t: Seq<char>, i: int, depth: nat) -> Option<int>
    decreases t.len() - i,
{
    if i < 0 || i >= t.len() {
        None
    } else if t[i] == '<' {
        html_end_from(t, i + 1, depth + 1)
    } else if t[i] == '>' {
        if depth <= 1 {
            Some(i + 1)
        } else {
            html_end_from(t, i + 1, (depth - 1) as nat)
        }
    } else {
        html_end_from(t, i + 1, depth)
    }
}

/// A character of a plain DOT identifier or numeral.
pub open spec fn is_dot_id_char(c: char) -> bool {
    unicode_alphanumeric(c) || c == '_' || c == '.' || c == '-'
}

pub open spec fn id_end_from(t: Seq<char>, i: int) -> int
    decreases t.len() - i,
{
    if i < 0 || i >= t.len() {
        t.len() as int
    } else if is_dot_id_char(t[i]) {
        id_end_from(t, i + 1)
    } else {
        i
    }
}

/// The text after an optional DOT `ID` at the front of `t`: a plain identifier or numeral, a
/// quoted string (possibly `+`-concatenated), or a balanced `< >` HTML string. `None` when a quoted
/// or HTML ID never closes.
pub open spec fn skip_dot_id(t: Seq<char>) -> Option<Seq<char>> {
    if t.len() > 0 && t[0] == '"' {
        match skip_quoted(t) {
            Some(r) => concat_tail(r),
            None => None,
        }
    } else if t.len() > 0 && t[0] == '<' {
        match html_end_from(t, 1, 1) {
            Some(e) => Some(t.skip(e)),
            None => None,
        }
    } else {
        Some(t.skip(id_end_from(t, 0)))
    }
}

/// The header class of comment-stripped DOT text: `Some(true)` for `[strict] digraph [ID] {`,
/// `Some(false)` for `[strict] graph [ID] {`, `None` when the text does not open that way.
pub open spec fn dot_header_kind(t: Seq<char>) -> Option<bool> {
    let c0 = trim_start(t);
    let c1: Option<Seq<char>> = match strip_keyword(c0, kw_strict()) {
        Some(rest) => if rest.len() > 0 && is_ws(rest[0]) {
            Some(trim_start(rest))
        } else {
            None
        },
        None => Some(c0),
    };
    match c1 {
        None => None,
        Some(c) => {
            let head: Option<(bool, Seq<char>)> = match strip_keyword(c, kw_digraph()) {
                Some(rest) => Some((true, rest)),
                None => match strip_keyword(c, kw_graph()) {
                    Some(rest) => Some((false, rest)),
                    None => None,
                },
            };
            match head {
                None => None,
                Some((directed, rest)) => match skip_dot_id(trim_start(rest)) {
                    None => None,
                    Some(after) => if starts_with(trim_start(after), seq!['{']) {
                        Some(directed)
                    } else {
                        None
                    },
                },
            }
        },
    }
}

/// Whether `p` occurs somewhere in `s`, ignoring ASCII case.
pub open spec fn contains_ci(s: Seq<char>, p: Seq<char>) -> bool {
    exists|i: int| occurs_at_ci(s, i, p)
}

/// Whether `input` is a Graphviz DOT document: it has both braces and the word `graph`, its
/// comment-stripped text opens with a DOT header once leading Mermaid directive lines are
/// skipped, and it ends on the body's closing `}` (before or after dropping trailing Mermaid
/// directive lines).
pub open spec fn spec_looks_like_dot(input: Seq<char>) -> bool {
    &&& input.contains('{')
    &&& input.contains('}')
    &&& contains_ci(input, kw_graph())
    &&& {
        let cleaned = strip_comments(input);
        &&& dot_header_kind(strip_leading_directives(cleaned)) is Some
        &&& {
            let t = trim_end(cleaned);
            ends_with(t, seq!['}']) || ends_with(strip_trailing_directives(t), seq!['}'])
        }
    }
}

} // verus!

verus! {

fn strip_dot_keyword(s: &Vec<char>, lo: usize, hi: usize, kw: &Vec<char>) -> (r: Option<usize>)
    requires
        lo <= hi <= s@.len(),
    ensures
        strip_keyword(s@.subrange(lo as int, hi as int), kw@) matches Some(rest) ==> (
        r matches Some(k) && lo + kw@.len() == k && k <= hi && s@.subrange(k as int, hi as int)
            == rest),
        strip_keyword(s@.subrange(lo as int, hi as int), kw@) is None ==> r is None,
{
    let ghost t = s@.subrange(lo as int, hi as int);
    if !matches_at_ci(s, lo, hi, 0, kw) {
        return None;
    }
    let k = lo + kw.len();
    if k < hi {
        let c = s[k];
        assert(t[kw@.len() as int] == c);
        if char_is_alphanumeric(c) || c == '_' {
            return None;
        }
    }
    proof {
        lemma_sub_skip(s@, lo as int, hi as int, kw@.len() as int);
    }
    Some(k)
}

fn skip_quoted_exec(s: &Vec<char>, lo: usize, hi: usize) -> (r: Option<usize>)
    requires
        lo <= hi <= s@.len(),
    ensures
        r matches Some(k) ==> lo < k <= hi && skip_quoted(s@.subrange(lo as int, hi as int))
            == Some(s@.subrange(k as int, hi as int)),
        r is None ==> skip_quoted(s@.subrange(lo as int, hi as int)) is None,
{
    let ghost t = s@.subrange(lo as int, hi as int);
    if lo >= hi || s[lo] != '"' {
        return None;
    }
    let mut i = lo + 1;
    let mut escaped = false;
    while i < hi
        invariant
            lo < i <= hi <= s@.len(),
            t == s@.subrange(lo as int, hi as int),
            t.len() > 0 && t[0] == '"',
            quoted_end_from(t, i - lo, escaped) == quoted_end_from(t, 1, false),
        decreases hi - i,
    {
        let c = s[i];
        assert(t[i - lo] == c);
        if escaped {
            escaped = false;
        } else if c == '\\' {
            escaped = true;
        } else if c == '"' {
            proof {
                lemma_sub_skip(s@, lo as int, hi as int, i + 1 - lo);
            }
            return Some(i + 1);
        }
        i = i + 1;
    }
    None
}

fn concat_tail_exec(s: &Vec<char>, start: usize, hi: usize) -> (r: Option<usize>)
    requires
        start <= hi <= s@.len(),
    ensures
        r matches Some(k) ==> start <= k <= hi && concat_tail(s@.subrange(start as int, hi as int))
            == Some(s@.subrange(k as int, hi as int)),
        r is None ==> concat_tail(s@.subrange(start as int, hi as int)) is None,
{
    let mut rem = start;
    loop
        invariant
            start <= rem <= hi <= s@.len(),
            concat_tail(s@.subrange(rem as int, hi as int)) == concat_tail(
                s@.subrange(start as int, hi as int),
            ),
        decreases hi - rem,
    {
        let ghost rs = s@.subrange(rem as int, hi as int);
        let a = trim_start_window(s, rem, hi);
        if a < hi && s[a] == '+' {
            assert(trim_start(rs)[0] == s@[a as int]);
            let b = trim_start_window(s, a + 1, hi);
            proof {
                lemma_sub_skip(s@, a as int, hi as int, 1);
            }
            match skip_quoted_exec(s, b, hi) {
                Some(n) => {
                    rem = n;
                },
                None => {
                    return None;
                },
            }
        } else {
            return Some(rem);
        }
    }
}

fn html_end_exec(s: &Vec<char>, lo: usize, hi: usize) -> (r: Option<usize>)
    requires
        lo < hi <= s@.len(),
    ensures
        r matches Some(k) ==> lo < k <= hi && html_end_from(s@.subrange(lo as int, hi as int), 1, 1)
            == Some(k - lo),
        r is None ==> html_end_from(s@.subrange(lo as int, hi as int), 1, 1) is None,
{
    let ghost t = s@.subrange(lo as int, hi as int);
    let mut depth: usize = 1;
    let mut i = lo + 1;
    while i < hi
        invariant
            lo < i <= hi <= s@.len(),
            t == s@.subrange(lo as int, hi as int),
            1 <= depth <= i - lo,
            html_end_from(t, i - lo, depth as nat) == html_end_from(t, 1, 1),
        decreases hi - i,
    {
        let c = s[i];
        assert(t[i - lo] == c);
        if c == '<' {
            depth = depth + 1;
        } else if c == '>' {
            if depth <= 1 {
                return Some(i + 1);
            }
            depth = depth - 1;
        }
        i = i + 1;
    }
    None
}

fn id_end_exec(s: &Vec<char>, lo: usize, hi: usize) -> (r: usize)
    requires
        lo <= hi <= s@.len(),
    ensures
        lo <= r <= hi,
        r - lo == id_end_from(s@.subrange(lo as int, hi as int), 0),
{
    let ghost t = s@.subrange(lo as int, hi as int);
    let mut i = lo;
    while i < hi
        invariant
            lo <= i <= hi <= s@.len(),
            t == s@.subrange(lo as int, hi as int),
            id_end_from(t, i - lo) == id_end_from(t, 0),
        decreases hi - i,
    {
        let c = s[i];
        assert(t[i - lo] == c);
        if !(char_is_alphanumeric(c) || c == '_' || c == '.' || c == '-') {
            return i;
        }
        i = i + 1;
    }
    i
}

fn skip_dot_id_exec(s: &Vec<char>, lo: usize, hi: usize) -> (r: Option<usize>)
    requires
        lo <= hi <= s@.len(),
    ensures
        r matches Some(k) ==> lo <= k <= hi && skip_dot_id(s@.subrange(lo as int, hi as int))
            == Some(s@.subrange(k as int, hi as int)),
        r is None ==> skip_dot_id(s@.subrange(lo as int, hi as int)) is None,
{
    let ghost t = s@.subrange(lo as int, hi as int);
    if lo < hi && s[lo] == '"' {
        assert(t[0] == s@[lo as int]);
        match skip_quoted_exec(s, lo, hi) {
            Some(k) => concat_tail_exec(s, k, hi),
            None => None,
        }
    } else if lo < hi && s[lo] == '<' {
        assert(t[0] == s@[lo as int]);
        match html_end_exec(s, lo, hi) {
            Some(k) => {
                proof {
                    lemma_sub_skip(s@, lo as int, hi as int, k - lo);
                }
                Some(k)
            },
            None => None,
        }
    } else {
        if lo < hi {
            assert(t[0] == s@[lo as int]);
        }
        let e = id_end_exec(s, lo, hi);
        proof {
            lemma_sub_skip(s@, lo as int, hi as int, e - lo);
        }
        Some(e)
    }
}

/// Classify the DOT header of the comment-stripped window `s[lo..hi]`.
pub(crate) fn dot_header_kind_exec(s: &Vec<char>, lo: usize, hi: usize) -> (r: Option<bool>)
    requires
        lo <= hi <= s@.len(),
    ensures
        r == dot_header_kind(s@.subrange(lo as int, hi as int)),
{
    let strict_kw: Vec<char> = vec!['s', 't', 'r', 'i', 'c', 't'];
    let digraph_kw: Vec<char> = vec!['d', 'i', 'g', 'r', 'a', 'p', 'h'];
    let graph_kw: Vec<char> = vec!['g', 'r', 'a', 'p', 'h'];
    assert(strict_kw@ =~= kw_strict());
    assert(digraph_kw@ =~= kw_digraph());
    assert(graph_kw@ =~= kw_graph());
    let c0 = trim_start_window(s, lo, hi);
    let c1 = match strip_dot_keyword(s, c0, hi, &strict_kw) {
        Some(k) => {
            if k < hi && char_is_whitespace(s[k]) {
                assert(s@.subrange(k as int, hi as int)[0] == s@[k as int]);
                trim_start_window(s, k, hi)
            } else {
                return None;
            }
        },
        None => c0,
    };
    let (directed, rest) = match strip_dot_keyword(s, c1, hi, &digraph_kw) {
        Some(k) => (true, k),
        None => match strip_dot_keyword(s, c1, hi, &graph_kw) {
            Some(k) => (false, k),
            None => {
                return None;
            },
        },
    };
    let id_start = trim_start_window(s, rest, hi);
    let after = match skip_dot_id_exec(s, id_start, hi) {
        Some(k) => k,
        None => {
            return None;
        },
    };
    let b = trim_start_window(s, after, hi);
    let ghost tb = s@.subrange(b as int, hi as int);
    if b < hi && s[b] == '{' {
        assert(tb.subrange(0, 1) =~= seq!['{']);
        Some(directed)
    } else {
        assert(!starts_with(tb, seq!['{'])) by {
            if starts_with(tb, seq!['{']) {
                assert(tb.subrange(0, 1)[0] == tb[0]);
            }
        }
        None
    }
}

fn contains_graph_ci(s: &Vec<char>) -> (r: bool)
    ensures
        r == contains_ci(s@, kw_graph()),
{
    let kw: Vec<char> = vec!['g', 'r', 'a', 'p', 'h'];
    assert(kw@ =~= kw_graph());
    let n = s.len();
    assert(s@.subrange(0, n as int) =~= s@);
    let mut i: usize = 0;
    while n >= 5 && i <= n - 5
        invariant
            n == s@.len(),
            i <= n,
            s@.subrange(0, n as int) == s@,
            kw@ == kw_graph(),
            forall|j: int| 0 <= j < i ==> !occurs_at_ci(s@, j, kw_graph()),
        decreases n - i,
    {
        if matches_at_ci(s, 0, n, i, &kw) {
            return true;
        }
        i = i + 1;
    }
    assert forall|j: int| !occurs_at_ci(s@, j, kw_graph()) by {
        if j >= i {
            assert(n < 5 || j + 5 > n);
        }
    }
    false
}

/// Whether `input` is a Graphviz DOT document rather than Mermaid text.
///
/// DOT is brace-delimited and its header always contains `graph`, so text without both braces or
/// without that word is rejected at once. Otherwise the header must read
/// `[strict] (graph | digraph) [ID] {` once comments and leading Mermaid directive lines are
/// skipped, and the text must end on the body's `}` — which is what tells a DOT `graph` from a
/// Mermaid `graph` whose first node happens to be brace-shaped. Trailing Mermaid directive lines
/// do not count against that ending.
pub fn looks_like_dot(input: &str) -> (r: bool)
    ensures
        r == spec_looks_like_dot(input@),
{
    let s = chars_of(input);
    let n = s.len();
    assert(s@.subrange(0, n as int) =~= s@);
    if !window_contains(&s, 0, n, '{') || !window_contains(&s, 0, n, '}') {
        return false;
    }
    if !contains_graph_ci(&s) {
        return false;
    }
    let cleaned = strip_all_comments(&s);
    let m = cleaned.len();
    assert(cleaned@.subrange(0, m as int) =~= cleaned@);
    let lead = strip_leading_mermaid_directives(&cleaned, 0, m);
    if dot_header_kind_exec(&cleaned, lead, m).is_none() {
        return false;
    }
    let t = trim_end_window(&cleaned, 0, m);
    let ghost tt = cleaned@.subrange(0, t as int);
    if t > 0 && cleaned[t - 1] == '}' {
        assert(tt.subrange(tt.len() - 1, tt.len() as int) =~= seq!['}']);
        return true;
    }
    assert(!ends_with(tt, seq!['}'])) by {
        if ends_with(tt, seq!['}']) {
            assert(tt.subrange(tt.len() - 1, tt.len() as int)[0] == tt[tt.len() - 1]);
        }
    }
    let t2 = strip_trailing_mermaid_directives(&cleaned, 0, t);
    let ghost u = cleaned@.subrange(0, t2 as int);
    if t2 > 0 && cleaned[t2 - 1] == '}' {
        assert(u.subrange(u.len() - 1, u.len() as int) =~= seq!['}']);
        true
    } else {
        assert(!ends_with(u, seq!['}'])) by {
            if ends_with(u, seq!['}']) {
                assert(u.subrange(u.len() - 1, u.len() as int)[0] == u[u.len() - 1]);
            }
        }
        false
    }
}

// ---------------------------------------------------------------------------------------------
// Laws.
/// How many line breaks `t` holds.
pub open spec fn newlines(t: Seq<char>) -> nat
    decreases t.len(),
{
    if t.len() == 0 {
        0
    } else {
        newlines(t.drop_last()) + if t.last() == '\n' {
            1nat
        } else {
            0nat
        }
    }
}

proof fn lemma_newlines_front(t: Seq<char>)
    requires
        t.len() > 0,
    ensures
        newlines(t) == newlines(t.drop_first()) + if t[0] == '\n' {
            1nat
        } else {
            0nat
        },
    decreases t.len(),
{
    if t.len() > 1 {
        lemma_newlines_front(t.drop_last());
        assert(t.drop_last().drop_first() =~= t.drop_first().drop_last());
        assert(t.drop_last()[0] == t[0]);
        assert(t.drop_first().last() == t.last());
        assert(newlines(t.drop_first()) == newlines(t.drop_first().drop_last()) + if t.drop_first().last() == '\n' {
            1nat
        } else {
            0nat
        });
    } else {
        assert(t.drop_first().len() == 0);
        assert(t.drop_last().len() == 0);
        assert(t.last() == t[0]);
        assert(newlines(t.drop_first()) == 0);
        assert(newlines(t.drop_last()) == 0);
    }
}

proof fn lemma_strip_newlines(
    s: Seq<char>,
    i: int,
    quote: Option<char>,
    escaped: bool,
    multi: bool,
    single: bool,
    html: nat,
    out: Seq<char>,
)
    requires
        0 <= i <= s.len(),
    ensures
        newlines(strip_comments_from(s, i, quote, escaped, multi, single, html, out)) == newlines(out)
            + newlines(s.subrange(i, s.len() as int)),
    decreases s.len() - i,
{
    if i < s.len() {
        let c = s[i];
        let rest = s.subrange(i, s.len() as int);
        lemma_newlines_front(rest);
        assert(rest.drop_first() =~= s.subrange(i + 1, s.len() as int));
        assert(rest[0] == c);
        assert(out.push(c).drop_last() =~= out);
        assert(out.push('\n').drop_last() =~= out);
        if i + 1 < s.len() {
            let rest1 = s.subrange(i + 1, s.len() as int);
            lemma_newlines_front(rest1);
            assert(rest1.drop_first() =~= s.subrange(i + 2, s.len() as int));
            assert(rest1[0] == s[i + 1]);
        }
        if multi {
            if c == '*' && i + 1 < s.len() && s[i + 1] == '/' {
                lemma_strip_newlines(s, i + 2, quote, escaped, false, single, html, out);
            } else {
                lemma_strip_newlines(s, i + 1, quote, escaped, multi, single, html, if c == '\n' {
                    out.push('\n')
                } else {
                    out
                });
            }
        } else if single {
            if c == '\n' {
                lemma_strip_newlines(s, i + 1, quote, escaped, multi, false, html, out.push('\n'));
            } else {
                lemma_strip_newlines(s, i + 1, quote, escaped, multi, single, html, out);
            }
        } else if quote is Some {
            let q = quote->0;
            if escaped {
                lemma_strip_newlines(s, i + 1, quote, false, multi, single, html, out.push(c));
            } else if c == '\\' {
                lemma_strip_newlines(s, i + 1, quote, true, multi, single, html, out.push(c));
            } else if c == q {
                lemma_strip_newlines(s, i + 1, None, escaped, multi, single, html, out.push(c));
            } else {
                lemma_strip_newlines(s, i + 1, quote, escaped, multi, single, html, out.push(c));
            }
        } else if html == 0 && c == '/' && i + 1 < s.len() && s[i + 1] == '/' {
            lemma_strip_newlines(s, i + 2, quote, escaped, multi, true, html, out);
        } else if html == 0 && c == '/' && i + 1 < s.len() && s[i + 1] == '*' {
            lemma_strip_newlines(s, i + 2, quote, escaped, true, single, html, out);
        } else if html == 0 && c == '#' && ws_back_to_line_start(s, i) {
            lemma_strip_newlines(s, i + 1, quote, escaped, multi, true, html, out);
        } else if c == '"' || c == '\'' {
            lemma_strip_newlines(s, i + 1, Some(c), escaped, multi, single, html, out.push(c));
        } else if c == '<' {
            lemma_strip_newlines(s, i + 1, quote, escaped, multi, single, html + 1, out.push(c));
        } else if c == '>' {
            lemma_strip_newlines(s, i + 1, quote, escaped, multi, single, if html > 0 {
                (html - 1) as nat
            } else {
                0
            }, out.push(c));
        } else {
            lemma_strip_newlines(s, i + 1, quote, escaped, multi, single, html, out.push(c));
        }
    } else {
        assert(s.subrange(i, s.len() as int).len() == 0);
    }
}

/// Removing comments keeps every line break, so each line of the stripped text is the line of
/// the same number in the source.
pub proof fn law_comment_stripping_keeps_line_breaks(s: Seq<char>)
    ensures
        newlines(strip_comments(s)) == newlines(s),
{
    lemma_strip_newlines(s, 0, None, false, false, false, 0, Seq::empty());
    assert(s.subrange(0, s.len() as int) =~= s);
}

proof fn lemma_strip_plain(s: Seq<char>, i: int, quote: Option<char>, escaped: bool, html: nat, out: Seq<char>)
    requires
        0 <= i <= s.len(),
        forall|k: int| 0 <= k < s.len() ==> #[trigger] s[k] != '/' && s[k] != '#',
    ensures
        strip_comments_from(s, i, quote, escaped, false, false, html, out) == out + s.subrange(i, s.len() as int),
    decreases s.len() - i,
{
    if i < s.len() {
        let c = s[i];
        assert(out.push(c) + s.subrange(i + 1, s.len() as int) =~= out + s.subrange(i, s.len() as int));
        if quote is Some {
            let q = quote->0;
            if escaped {
                lemma_strip_plain(s, i + 1, quote, false, html, out.push(c));
            } else if c == '\\' {
                lemma_strip_plain(s, i + 1, quote, true, html, out.push(c));
            } else if c == q {
                lemma_strip_plain(s, i + 1, None, escaped, html, out.push(c));
            } else {
                lemma_strip_plain(s, i + 1, quote, escaped, html, out.push(c));
            }
        } else if c == '"' || c == '\'' {
            lemma_strip_plain(s, i + 1, Some(c), escaped, html, out.push(c));
        } else if c == '<' {
            lemma_strip_plain(s, i + 1, quote, escaped, html + 1, out.push(c));
        } else if c == '>' {
            lemma_strip_plain(s, i + 1, quote, escaped, if html > 0 {
                (html - 1) as nat
            } else {
                0
            }, out.push(c));
        } else {
            lemma_strip_plain(s, i + 1, quote, escaped, html, out.push(c));
        }
    } else {
        assert(out + s.subrange(i, s.len() as int) =~= out);
    }
}

/// Text with no `/` and no `#` holds no comment, and comment stripping leaves it as it is.
pub proof fn law_text_without_comment_markers_is_kept(s: Seq<char>)
    requires
        forall|k: int| 0 <= k < s.len() ==> #[trigger] s[k] != '/' && s[k] != '#',
    ensures
        strip_comments(s) == s,
{
    lemma_strip_plain(s, 0, None, false, 0, Seq::empty());
    assert(Seq::<char>::empty() + s.subrange(0, s.len() as int) =~= s);
}

} // verus!
