//! The format complement of a document: what a parse drops but an exact re-emission needs — the
//! line-ending style, the trailing newline, and where the whitespace, comments, directives and
//! quoted literals are.
use vstd::prelude::*;

use crate::text::{char_is_whitespace, chars_of, index_of_char, is_ws, starts_with, ends_with, string_of_window, trim, trim_window};

verus! {

/// The line endings a document uses.
#[derive(Debug, Clone, Copy, PartialEq, Eq, Structural)]
pub enum MermaidLineEndingStyle {
    /// No line ending at all.
    Absent,
    Lf,
    Crlf,
    Mixed,
}

/// What a whitespace run is doing.
#[derive(Debug, Clone, Copy, PartialEq, Eq, Structural)]
pub enum MermaidWhitespaceKind {
    Indent,
    InterToken,
    Trailing,
    BlankLine,
}

/// The quote a literal is written with.
#[derive(Debug, Clone, Copy, PartialEq, Eq, Structural)]
pub enum MermaidQuoteStyle {
    Single,
    Double,
    Backtick,
}

/// A half-open range of UTF-8 byte offsets into the source.
#[derive(Debug, Clone, Copy, PartialEq, Eq, Structural)]
pub struct MermaidTextRange {
    pub start_byte: usize,
    pub end_byte: usize,
}

/// A source position: 1-based line and column (in characters) and the byte offset.
#[derive(Debug, Clone, Copy, PartialEq, Eq, Structural)]
pub struct SourcePosition {
    pub line: usize,
    pub col: usize,
    pub byte: usize,
}

/// The positions of the first and the last character of a piece of source.
#[derive(Debug, Clone, Copy, PartialEq, Eq, Structural)]
pub struct SourceSpan {
    pub start: SourcePosition,
    pub end: SourcePosition,
}

#[derive(Debug, Clone, PartialEq, Eq)]
pub struct MermaidWhitespaceSpan {
    pub kind: MermaidWhitespaceKind,
    pub span: SourceSpan,
    pub text_range: MermaidTextRange,
    pub text: String,
}

#[derive(Debug, Clone, PartialEq, Eq)]
pub struct MermaidCommentSpan {
    pub span: SourceSpan,
    pub text_range: MermaidTextRange,
    pub text: String,
}

#[derive(Debug, Clone, PartialEq, Eq)]
pub struct MermaidDirectiveSpan {
    pub span: SourceSpan,
    pub text_range: MermaidTextRange,
    pub text: String,
}

#[derive(Debug, Clone, PartialEq, Eq)]
pub struct MermaidQuotedSpan {
    pub style: MermaidQuoteStyle,
    pub span: SourceSpan,
    pub text_range: MermaidTextRange,
    pub text: String,
}

#[derive(Debug, Clone, PartialEq, Eq)]
pub struct MermaidFormatComplement {
    pub line_ending: MermaidLineEndingStyle,
    pub trailing_newline: bool,
    pub whitespace: Vec<MermaidWhitespaceSpan>,
    pub comments: Vec<MermaidCommentSpan>,
    pub directives: Vec<MermaidDirectiveSpan>,
    pub quoted_literals: Vec<MermaidQuotedSpan>,
}

impl MermaidFormatComplement {
    /// Whether the complement records nothing: no line ending, no trailing newline, no span.
    pub open spec fn records_nothing(&self) -> bool {
        &&& self.line_ending == MermaidLineEndingStyle::Absent
        &&& !self.trailing_newline
        &&& self.whitespace@.len() == 0
        &&& self.comments@.len() == 0
        &&& self.directives@.len() == 0
        &&& self.quoted_literals@.len() == 0
    }
}

impl Default for MermaidFormatComplement {
    /// The complement that records nothing.
    fn default() -> (r: Self)
        ensures
            r.records_nothing(),
    {
        MermaidFormatComplement {
            line_ending: MermaidLineEndingStyle::Absent,
            trailing_newline: false,
            whitespace: Vec::new(),
            comments: Vec::new(),
            directives: Vec::new(),
            quoted_literals: Vec::new(),
        }
    }
}

// ---------------------------------------------------------------------------------------------
// What the complement states.
/// Whether some `\n` of `s` follows a `\r`.
pub open spec fn has_crlf(s: Seq<char>) -> bool {
    exists|i: int| 0 < i < s.len() && #[trigger] s[i] == '\n' && s[i - 1] == '\r'
}

/// Whether some `\n` of `s` does not follow a `\r`.
pub open spec fn has_lone_lf(s: Seq<char>) -> bool {
    exists|i: int| 0 <= i < s.len() && #[trigger] s[i] == '\n' && !(i > 0 && s[i - 1] == '\r')
}

/// The line-ending style of `s`.
pub open spec fn line_ending_of(s: Seq<char>) -> MermaidLineEndingStyle {
    if has_crlf(s) && has_lone_lf(s) {
        MermaidLineEndingStyle::Mixed
    } else if has_crlf(s) {
        MermaidLineEndingStyle::Crlf
    } else if has_lone_lf(s) {
        MermaidLineEndingStyle::Lf
    } else {
        MermaidLineEndingStyle::Absent
    }
}

/// Whether `t` occurs in `s`.
pub open spec fn is_piece_of(t: Seq<char>, r: MermaidTextRange, s: Seq<char>) -> bool {
    exists|a: int|
        0 <= a && a + t.len() <= s.len() && #[trigger] s.subrange(a, a + t.len()) == t && r.start_byte
            == byte_offset(s, a) && r.end_byte == byte_offset(s, a + t.len())
}

/// The number of UTF-8 bytes of `t`.
pub open spec fn utf8_bytes_of(t: Seq<char>) -> nat
    decreases t.len(),
{
    if t.len() == 0 {
        0
    } else {
        utf8_bytes_of(t.drop_last()) + utf8_width(t.last())
    }
}

/// The byte offset of character `i` of `s` (capped at the largest `usize`).
pub open spec fn byte_offset(s: Seq<char>, i: int) -> int {
    let b = utf8_bytes_of(s.take(i));
    if b > usize::MAX {
        usize::MAX as int
    } else {
        b as int
    }
}

/// A whitespace span is a non-empty piece of the source whose characters fit its kind: spaces and
/// tabs for indentation and trailing runs, whitespace between tokens, and whitespace or line
/// breaks for a blank line.
pub open spec fn whitespace_ok(w: MermaidWhitespaceSpan, s: Seq<char>) -> bool {
    &&& w.text@.len() > 0
    &&& is_piece_of(w.text@, w.text_range, s)
    &&& match w.kind {
        MermaidWhitespaceKind::Indent | MermaidWhitespaceKind::Trailing => forall|i: int|
            0 <= i < w.text@.len() ==> #[trigger] w.text@[i] == ' ' || w.text@[i] == '\t',
        MermaidWhitespaceKind::InterToken => forall|i: int|
            0 <= i < w.text@.len() ==> is_ws(#[trigger] w.text@[i]),
        MermaidWhitespaceKind::BlankLine => forall|i: int|
            0 <= i < w.text@.len() ==> is_ws(#[trigger] w.text@[i]) || w.text@[i] == '\r' || w.text@[i] == '\n',
    }
}

/// A comment span is a piece of the source that starts with `%%` once trimmed.
pub open spec fn comment_ok(c: MermaidCommentSpan, s: Seq<char>) -> bool {
    &&& is_piece_of(c.text@, c.text_range, s)
    &&& starts_with(trim(c.text@), "%%"@)
}

/// A directive span is a piece of the source that reads `%%{…}%%` once trimmed.
pub open spec fn directive_ok(d: MermaidDirectiveSpan, s: Seq<char>) -> bool {
    &&& is_piece_of(d.text@, d.text_range, s)
    &&& starts_with(trim(d.text@), "%%{"@)
    &&& ends_with(trim(d.text@), "}%%"@)
}

/// The character a quote style is written with.
pub open spec fn quote_char(q: MermaidQuoteStyle) -> char {
    match q {
        MermaidQuoteStyle::Single => '\'',
        MermaidQuoteStyle::Double => '"',
        MermaidQuoteStyle::Backtick => '`',
    }
}

/// A quoted span is a piece of the source that opens and closes with its quote.
pub open spec fn quoted_ok(q: MermaidQuotedSpan, s: Seq<char>) -> bool {
    &&& is_piece_of(q.text@, q.text_range, s)
    &&& q.text@.len() >= 2
    &&& q.text@[0] == quote_char(q.style)
    &&& q.text@.last() == quote_char(q.style)
}

// ---------------------------------------------------------------------------------------------
// Positions.
/// The width of a character in UTF-8.
pub open spec fn utf8_width(c: char) -> nat {
    if (c as u32) < 0x80 {
        1
    } else if (c as u32) < 0x800 {
        2
    } else if (c as u32) < 0x10000 {
        3
    } else {
        4
    }
}

fn char_width(c: char) -> (r: usize)
    ensures
        r == utf8_width(c),
{
    let v = c as u32;
    if v < 0x80 {
        1
    } else if v < 0x800 {
        2
    } else if v < 0x10000 {
        3
    } else {
        4
    }
}

/// For every character index `0..=n`: its line, the index its line starts at, and its byte
/// offset.
struct Positions {
    line_of: Vec<usize>,
    start_of: Vec<usize>,
    byte_of: Vec<usize>,
}

impl Positions {
    spec fn ok(&self, n: nat) -> bool {
        &&& self.line_of@.len() == n + 1
        &&& self.start_of@.len() == n + 1
        &&& self.byte_of@.len() == n + 1
        &&& forall|i: int| 0 <= i < self.start_of@.len() ==> #[trigger] self.start_of@[i] <= i
    }

    /// The positions of the characters of `s`, with their byte offsets.
    spec fn ok_for(&self, s: Seq<char>) -> bool {
        &&& self.ok(s.len())
        &&& forall|i: int| 0 <= i <= s.len() ==> #[trigger] self.byte_of@[i] == byte_offset(s, i)
    }
}

fn positions(s: &Vec<char>) -> (p: Positions)
    ensures
        p.ok_for(s@),
{
    let n = s.len();
    let mut p = Positions { line_of: Vec::new(), start_of: Vec::new(), byte_of: Vec::new() };
    let mut line: usize = 1;
    let mut start: usize = 0;
    let mut byte: usize = 0;
    let mut i: usize = 0;
    assert(s@.take(0) =~= Seq::<char>::empty());
    while i < n
        invariant
            i <= n == s@.len(),
            start <= i,
            p.line_of@.len() == i,
            p.start_of@.len() == i,
            p.byte_of@.len() == i,
            forall|k: int| 0 <= k < i ==> #[trigger] p.start_of@[k] <= k,
            forall|k: int| 0 <= k < i ==> #[trigger] p.byte_of@[k] == byte_offset(s@, k),
            byte == byte_offset(s@, i as int),
        decreases n - i,
    {
        p.line_of.push(line);
        p.start_of.push(start);
        p.byte_of.push(byte);
        proof {
            assert(s@.take(i + 1).drop_last() =~= s@.take(i as int));
            assert(s@.take(i + 1).last() == s@[i as int]);
        }
        byte = byte.saturating_add(char_width(s[i]));
        if s[i] == '\n' {
            line = line.saturating_add(1);
            start = i + 1;
        }
        i = i + 1;
    }
    p.line_of.push(line);
    p.start_of.push(start);
    p.byte_of.push(byte);
    p
}

/// The position of character `i`: its line, its column counted from the start of its line
/// (saturating), and its byte offset.
spec fn position_of(p: Positions, i: int) -> SourcePosition {
    let d = i - p.start_of@[i];
    SourcePosition {
        line: p.line_of@[i],
        col: if d + 1 > usize::MAX {
            usize::MAX
        } else {
            (d + 1) as usize
        },
        byte: p.byte_of@[i],
    }
}

fn position_at(p: &Positions, i: usize) -> (r: SourcePosition)
    requires
        i < p.line_of@.len(),
        p.ok((p.line_of@.len() - 1) as nat),
    ensures
        r == position_of(*p, i as int),
{
    let start = p.start_of[i];
    assert(p.start_of@[i as int] <= i);
    SourcePosition { line: p.line_of[i], col: (i - start).saturating_add(1), byte: p.byte_of[i] }
}

/// The span of the characters `a..e` of the source: the positions of the first and the last.
fn span_of(p: &Positions, a: usize, e: usize) -> (r: SourceSpan)
    requires
        a < e < p.line_of@.len(),
        p.ok((p.line_of@.len() - 1) as nat),
    ensures
        r == (SourceSpan { start: position_of(*p, a as int), end: position_of(*p, e - 1) }),
{
    SourceSpan { start: position_at(p, a), end: position_at(p, e - 1) }
}

/// The byte range of the characters `a..e`.
fn range_of(p: &Positions, a: usize, e: usize) -> (r: MermaidTextRange)
    requires
        a < e < p.line_of@.len(),
        p.ok((p.line_of@.len() - 1) as nat),
    ensures
        r == (MermaidTextRange { start_byte: p.byte_of@[a as int], end_byte: p.byte_of@[e as int] }),
{
    MermaidTextRange { start_byte: p.byte_of[a], end_byte: p.byte_of[e] }
}

// ---------------------------------------------------------------------------------------------
// Collecting.
fn push_whitespace(
    out: &mut Vec<MermaidWhitespaceSpan>,
    s: &Vec<char>,
    p: &Positions,
    kind: MermaidWhitespaceKind,
    a: usize,
    e: usize,
)
    requires
        a < e <= s@.len(),
        p.ok_for(s@),
        forall|k: int| 0 <= k < old(out)@.len() ==> whitespace_ok(#[trigger] old(out)@[k], s@),
        match kind {
            MermaidWhitespaceKind::Indent | MermaidWhitespaceKind::Trailing => forall|i: int|
                a <= i < e ==> #[trigger] s@[i] == ' ' || s@[i] == '\t',
            MermaidWhitespaceKind::InterToken => forall|i: int| a <= i < e ==> is_ws(#[trigger] s@[i]),
            MermaidWhitespaceKind::BlankLine => forall|i: int|
                a <= i < e ==> is_ws(#[trigger] s@[i]) || s@[i] == '\r' || s@[i] == '\n',
        },
    ensures
        forall|k: int| 0 <= k < final(out)@.len() ==> whitespace_ok(#[trigger] final(out)@[k], s@),
        final(out)@.len() == old(out)@.len() + 1,
        forall|k: int| 0 <= k < old(out)@.len() ==> #[trigger] final(out)@[k] == old(out)@[k],
        ({
            let w = final(out)@.last();
            &&& w.kind == kind
            &&& w.text@ == s@.subrange(a as int, e as int)
            &&& w.span == (SourceSpan { start: position_of(*p, a as int), end: position_of(*p, e - 1) })
            &&& w.text_range == (MermaidTextRange { start_byte: p.byte_of@[a as int], end_byte: p.byte_of@[e as int] })
        }),
{
    let text = string_of_window(s, a, e);
    let w = MermaidWhitespaceSpan { kind, span: span_of(p, a, e), text_range: range_of(p, a, e), text };
    proof {
        assert(s@.subrange(a as int, a + w.text@.len()) == w.text@);
        assert(forall|i: int| 0 <= i < w.text@.len() ==> w.text@[i] == #[trigger] s@[a + i]);
    }
    let ghost before = out@;
    out.push(w);
    proof {
        assert forall|k: int| 0 <= k < out@.len() implies whitespace_ok(#[trigger] out@[k], s@) by {
            if k < before.len() {
                assert(out@[k] == before[k]);
            }
        }
    }
}

/// The whitespace runs of `s[..e]` from index `i` on that a non-whitespace character ends, as
/// windows, given the start `run` of the run in progress.
pub open spec fn inter_runs(s: Seq<char>, i: int, e: int, run: Option<int>) -> Seq<(int, int)>
    decreases e - i,
{
    if i < 0 || i >= e || i >= s.len() {
        seq![]
    } else if is_ws(s[i]) {
        inter_runs(s, i + 1, e, if run is None {
            Some(i)
        } else {
            run
        })
    } else {
        match run {
            Some(r) => seq![(r, i)] + inter_runs(s, i + 1, e, None),
            None => inter_runs(s, i + 1, e, None),
        }
    }
}

/// The whitespace runs strictly between tokens of the content `s[a..e]`.
fn collect_inter_token(
    out: &mut Vec<MermaidWhitespaceSpan>,
    s: &Vec<char>,
    p: &Positions,
    a: usize,
    e: usize,
)
    requires
        a <= e <= s@.len(),
        p.ok_for(s@),
        forall|k: int| 0 <= k < old(out)@.len() ==> whitespace_ok(#[trigger] old(out)@[k], s@),
    ensures
        forall|k: int| 0 <= k < final(out)@.len() ==> whitespace_ok(#[trigger] final(out)@[k], s@),
        final(out)@.len() == old(out)@.len() + inter_runs(s@, a as int, e as int, None).len(),
        forall|k: int| 0 <= k < old(out)@.len() ==> #[trigger] final(out)@[k] == old(out)@[k],
        forall|k: int| 0 <= k < inter_runs(s@, a as int, e as int, None).len() ==> {
            let w = #[trigger] final(out)@[old(out)@.len() + k];
            let (x, y) = inter_runs(s@, a as int, e as int, None)[k];
            w.kind == MermaidWhitespaceKind::InterToken && w.text@ == s@.subrange(x, y)
        },
{
    let mut run: Option<usize> = None;
    let mut i = a;
    let ghost n0 = out@.len();
    let ghost mut done: Seq<(int, int)> = seq![];
    while i < e
        invariant
            a <= i <= e <= s@.len(),
            p.ok_for(s@),
            run matches Some(r) ==> a <= r < i && forall|j: int| r <= j < i ==> is_ws(#[trigger] s@[j]),
            forall|k: int| 0 <= k < out@.len() ==> whitespace_ok(#[trigger] out@[k], s@),
            n0 == old(out)@.len(),
            out@.len() == n0 + done.len(),
            forall|k: int| 0 <= k < n0 ==> #[trigger] out@[k] == old(out)@[k],
            done + inter_runs(s@, i as int, e as int, match run {
                Some(r) => Some(r as int),
                None => None,
            }) == inter_runs(s@, a as int, e as int, None),
            forall|k: int| 0 <= k < done.len() ==> {
                let w = #[trigger] out@[n0 + k];
                let (x, y) = done[k];
                w.kind == MermaidWhitespaceKind::InterToken && w.text@ == s@.subrange(x, y)
            },
        decreases e - i,
    {
        if char_is_whitespace(s[i]) {
            if run.is_none() {
                run = Some(i);
            }
        } else if let Some(r) = run {
            let ghost before = out@;
            push_whitespace(out, s, p, MermaidWhitespaceKind::InterToken, r, i);
            proof {
                assert(seq![(r as int, i as int)] + inter_runs(s@, i + 1, e as int, None) == inter_runs(
                    s@,
                    i as int,
                    e as int,
                    Some(r as int),
                ));
                assert((done + seq![(r as int, i as int)]) + inter_runs(s@, i + 1, e as int, None) =~= done + (seq![
                    (r as int, i as int),
                ] + inter_runs(s@, i + 1, e as int, None)));
                assert forall|k: int| 0 <= k < done.len() + 1 implies {
                    let w = #[trigger] out@[n0 + k];
                    let (x, y) = (done + seq![(r as int, i as int)])[k];
                    w.kind == MermaidWhitespaceKind::InterToken && w.text@ == s@.subrange(x, y)
                } by {
                    if k < done.len() {
                        assert(out@[n0 + k] == before[n0 + k]);
                    }
                }
                done = done + seq![(r as int, i as int)];
            }
            run = None;
        }
        i = i + 1;
    }
    proof {
        assert(done =~= inter_runs(s@, a as int, e as int, None));
    }
}

/// Whether every character of `s[a..e]` is whitespace.
fn all_whitespace(s: &Vec<char>, a: usize, e: usize) -> (r: bool)
    requires
        a <= e <= s@.len(),
    ensures
        r == forall|i: int| a <= i < e ==> is_ws(#[trigger] s@[i]),
        a == e ==> r,
{
    let mut i = a;
    while i < e
        invariant
            a <= i <= e <= s@.len(),
            forall|j: int| a <= j < i ==> is_ws(#[trigger] s@[j]),
        decreases e - i,
    {
        if !char_is_whitespace(s[i]) {
            return false;
        }
        i = i + 1;
    }
    true
}

/// Whether `c` opens a quoted literal.
pub open spec fn opens_quote(c: char) -> bool {
    c == '"' || c == '\'' || c == '`'
}

/// The first index from `c` on that opens a quoted literal, or the length of `s`.
pub open spec fn next_quote(s: Seq<char>, c: int) -> int
    decreases s.len() - c,
{
    if c < 0 || c >= s.len() {
        s.len() as int
    } else if opens_quote(s[c]) {
        c
    } else {
        next_quote(s, c + 1)
    }
}

/// Just past the `q` that closes a literal whose text continues at `c`: a backslash skips the
/// character after it unless `q` is a backtick; none when the text runs to the end.
pub open spec fn quote_end(s: Seq<char>, q: char, c: int) -> Option<int>
    decreases s.len() - c,
{
    if c < 0 || c >= s.len() {
        None
    } else if s[c] == q {
        Some(c + 1)
    } else if q != '`' && s[c] == '\\' {
        if s.len() - c >= 2 {
            quote_end(s, q, c + 2)
        } else {
            None
        }
    } else {
        quote_end(s, q, c + 1)
    }
}

/// The windows of the quoted literals of `s` from index `cursor` on, until one is left open.
pub open spec fn quoted_from(s: Seq<char>, cursor: int) -> Seq<(int, int)>
    decreases s.len() - cursor,
{
    if cursor < 0 || cursor >= s.len() {
        seq![]
    } else {
        let start = next_quote(s, cursor);
        if start < 0 || start >= s.len() {
            seq![]
        } else {
            match quote_end(s, s[start], start + 1) {
                Some(e) => if cursor < e <= s.len() {
                    seq![(start, e)] + quoted_from(s, e)
                } else {
                    seq![]
                },
                None => seq![],
            }
        }
    }
}

/// The quoted literals of `s`, scanning left to right: a `"…"` or `'…'` literal honours `\`
/// escapes, a backtick literal does not; the scan stops at the first literal left open.
fn collect_quoted(out: &mut Vec<MermaidQuotedSpan>, s: &Vec<char>, p: &Positions)
    requires
        p.ok_for(s@),
        old(out)@.len() == 0,
    ensures
        forall|k: int| 0 <= k < final(out)@.len() ==> quoted_ok(#[trigger] final(out)@[k], s@),
        final(out)@.len() == quoted_from(s@, 0).len(),
        forall|k: int| 0 <= k < final(out)@.len() ==> (#[trigger] final(out)@[k]).text@ == s@.subrange(
            quoted_from(s@, 0)[k].0,
            quoted_from(s@, 0)[k].1,
        ),
{
    let n = s.len();
    let mut cursor: usize = 0;
    let ghost mut done: Seq<(int, int)> = seq![];
    loop
        invariant_except_break
            cursor <= n,
            done + quoted_from(s@, cursor as int) == quoted_from(s@, 0),
        invariant
            n == s@.len(),
            p.ok_for(s@),
            forall|k: int| 0 <= k < out@.len() ==> quoted_ok(#[trigger] out@[k], s@),
            out@.len() == done.len(),
            forall|k: int| 0 <= k < out@.len() ==> (#[trigger] out@[k]).text@ == s@.subrange(done[k].0, done[k].1),
        ensures
            done == quoted_from(s@, 0),
        decreases n - cursor,
    {
        if cursor >= n {
            proof {
                assert(done =~= quoted_from(s@, 0));
            }
            break;
        }
        let mut start = cursor;
        while start < n && s[start] != '"' && s[start] != '\'' && s[start] != '`'
            invariant
                cursor <= start <= n == s@.len(),
                next_quote(s@, start as int) == next_quote(s@, cursor as int),
            decreases n - start,
        {
            start = start + 1;
        }
        if start >= n {
            proof {
                assert(done =~= quoted_from(s@, 0));
            }
            break;
        }
        let q = s[start];
        let style = if q == '"' {
            MermaidQuoteStyle::Double
        } else if q == '\'' {
            MermaidQuoteStyle::Single
        } else {
            MermaidQuoteStyle::Backtick
        };
        let mut c = start + 1;
        let mut end: Option<usize> = None;
        while c < n
            invariant_except_break
                end is None,
                quote_end(s@, q, c as int) == quote_end(s@, q, start + 1),
            invariant
                start < c <= n == s@.len(),
                q == s@[start as int],
                end matches Some(x) ==> start + 2 <= x <= n && s@[x - 1] == q,
            ensures
                quote_end(s@, q, start + 1) == match end {
                    Some(x) => Some(x as int),
                    None => None,
                },
                end matches Some(x) ==> start + 2 <= x <= n && s@[x - 1] == q,
            decreases n - c,
        {
            if s[c] == q {
                end = Some(c + 1);
                break;
            }
            if q != '`' && s[c] == '\\' {
                // The escaped character is skipped with its backslash.
                c = if n - c >= 2 {
                    c + 2
                } else {
                    n
                };
            } else {
                c = c + 1;
            }
        }
        let e = match end {
            Some(x) => x,
            None => {
                proof {
                    assert(done =~= quoted_from(s@, 0));
                }
                break;
            },
        };
        let text = string_of_window(s, start, e);
        let lit = MermaidQuotedSpan { style, span: span_of(p, start, e), text_range: range_of(p, start, e), text };
        proof {
            assert(s@.subrange(start as int, start + lit.text@.len()) == lit.text@);
            assert(lit.text@[0] == s@[start as int]);
            assert(lit.text@.last() == s@[e - 1]);
        }
        let ghost before = out@;
        out.push(lit);
        proof {
            assert forall|k: int| 0 <= k < out@.len() implies quoted_ok(#[trigger] out@[k], s@) by {
                if k < before.len() {
                    assert(out@[k] == before[k]);
                }
            }
            assert(quoted_from(s@, cursor as int) == seq![(start as int, e as int)] + quoted_from(s@, e as int));
            assert((done + seq![(start as int, e as int)]) + quoted_from(s@, e as int) =~= done + (seq![
                (start as int, e as int),
            ] + quoted_from(s@, e as int)));
            let nd = done + seq![(start as int, e as int)];
            assert forall|k: int| 0 <= k < out@.len() implies (#[trigger] out@[k]).text@ == s@.subrange(nd[k].0, nd[k].1) by {
                if k < before.len() {
                    assert(out@[k] == before[k]);
                }
            }
            done = nd;
        }
        cursor = e;
    }
}

/// Where the line of `s` that starts at `i` ends, its line break included.
pub open spec fn line_stop(s: Seq<char>, i: int) -> int {
    let nl = i + crate::text::idx_of(s.subrange(i, s.len() as int), '\n');
    if nl < s.len() {
        nl + 1
    } else {
        s.len() as int
    }
}

/// How many line-break characters (`\r`, `\n`) end `t`.
pub open spec fn break_run(t: Seq<char>) -> nat
    decreases t.len(),
{
    if t.len() > 0 && (t.last() == '\r' || t.last() == '\n') {
        1 + break_run(t.drop_last())
    } else {
        0
    }
}

/// The line of `s` that starts at `i`, without its line-break characters.
pub open spec fn line_text(s: Seq<char>, i: int) -> Seq<char> {
    let t = s.subrange(i, line_stop(s, i));
    t.take(t.len() - break_run(t))
}

/// Whether the line text `t` is a `%%{…}%%` directive.
pub open spec fn directive_line(t: Seq<char>) -> bool {
    let l = trim(t);
    &&& !(forall|j: int| 0 <= j < t.len() ==> is_ws(#[trigger] t[j]))
    &&& crate::text::occurs_at(l, 0, "%%{"@)
    &&& l.len() >= 3 && l[l.len() - 3] == '}' && l[l.len() - 2] == '%' && l[l.len() - 1] == '%'
}

/// Whether the line text `t` is a `%%` comment that is no directive.
pub open spec fn comment_line(t: Seq<char>) -> bool {
    &&& !(forall|j: int| 0 <= j < t.len() ==> is_ws(#[trigger] t[j]))
    &&& !directive_line(t)
    &&& crate::text::occurs_at(trim(t), 0, "%%"@)
}

/// The texts of the lines of `s` from index `i` on that `keep` selects, in order.
pub open spec fn lines_where(s: Seq<char>, i: int, keep: spec_fn(Seq<char>) -> bool) -> Seq<Seq<char>>
    decreases s.len() - i,
{
    if i < 0 || i >= s.len() {
        seq![]
    } else {
        let here = if keep(line_text(s, i)) {
            seq![line_text(s, i)]
        } else {
            seq![]
        };
        if line_stop(s, i) <= i {
            here
        } else {
            here + lines_where(s, line_stop(s, i), keep)
        }
    }
}

/// Capture the format complement of `input`: its line-ending style, whether it ends with a
/// newline, the indentation, inter-token, trailing and blank-line whitespace of every line, its
/// `%%` comment and `%%{…}%%` directive lines, and its quoted literals. Positions are 1-based lines
/// and columns; ranges are UTF-8 byte offsets.
#[verifier::rlimit(100)]
pub fn capture_format_complement(input: &str) -> (r: MermaidFormatComplement)
    ensures
        r.line_ending == line_ending_of(input@),
        r.trailing_newline == (input@.len() > 0 && input@.last() == '\n'),
        forall|k: int| 0 <= k < r.whitespace@.len() ==> whitespace_ok(#[trigger] r.whitespace@[k], input@),
        forall|k: int| 0 <= k < r.comments@.len() ==> comment_ok(#[trigger] r.comments@[k], input@),
        forall|k: int| 0 <= k < r.directives@.len() ==> directive_ok(#[trigger] r.directives@[k], input@),
        forall|k: int| 0 <= k < r.quoted_literals@.len() ==> quoted_ok(#[trigger] r.quoted_literals@[k], input@),
        r.quoted_literals@.len() == quoted_from(input@, 0).len(),
        forall|k: int| 0 <= k < r.quoted_literals@.len() ==> (#[trigger] r.quoted_literals@[k]).text@
            == input@.subrange(quoted_from(input@, 0)[k].0, quoted_from(input@, 0)[k].1),
        r.comments@.map_values(|c: MermaidCommentSpan| c.text@) == lines_where(input@, 0, |t: Seq<char>| comment_line(t)),
        r.directives@.map_values(|d: MermaidDirectiveSpan| d.text@) == lines_where(
            input@,
            0,
            |t: Seq<char>| directive_line(t),
        ),
{
    let s = chars_of(input);
    let n = s.len();
    let p = positions(&s);
    let line_ending = line_ending_style(&s);
    let mut whitespace: Vec<MermaidWhitespaceSpan> = Vec::new();
    let mut comments: Vec<MermaidCommentSpan> = Vec::new();
    let mut directives: Vec<MermaidDirectiveSpan> = Vec::new();
    let mut i: usize = 0;
    let ghost ck = |t: Seq<char>| comment_line(t);
    let ghost dk = |t: Seq<char>| directive_line(t);
    let ghost mut cs: Seq<Seq<char>> = seq![];
    let ghost mut ds: Seq<Seq<char>> = seq![];
    while i < n
        invariant
            i <= n == s@.len(),
            s@ == input@,
            p.ok_for(s@),
            ck == (|t: Seq<char>| comment_line(t)),
            dk == (|t: Seq<char>| directive_line(t)),
            cs + lines_where(s@, i as int, ck) == lines_where(s@, 0, ck),
            ds + lines_where(s@, i as int, dk) == lines_where(s@, 0, dk),
            comments@.map_values(|c: MermaidCommentSpan| c.text@) == cs,
            directives@.map_values(|d: MermaidDirectiveSpan| d.text@) == ds,
            forall|k: int| 0 <= k < whitespace@.len() ==> whitespace_ok(#[trigger] whitespace@[k], s@),
            forall|k: int| 0 <= k < comments@.len() ==> comment_ok(#[trigger] comments@[k], s@),
            forall|k: int| 0 <= k < directives@.len() ==> directive_ok(#[trigger] directives@[k], s@),
        decreases n - i,
    {
        let nl = index_of_char(&s, i, n, '\n');
        let le = if nl < n {
            nl + 1
        } else {
            n
        };
        // The line without its line-break characters.
        let mut be = le;
        proof {
            assert(le == line_stop(s@, i as int));
        }
        while be > i && (s[be - 1] == '\r' || s[be - 1] == '\n')
            invariant
                i <= be <= le <= n == s@.len(),
                forall|j: int| be <= j < le ==> #[trigger] s@[j] == '\r' || s@[j] == '\n',
                break_run(s@.subrange(i as int, le as int)) == (le - be) + break_run(s@.subrange(i as int, be as int)),
            decreases be - i,
        {
            proof {
                assert(s@.subrange(i as int, be as int).drop_last() =~= s@.subrange(i as int, be - 1));
            }
            be = be - 1;
        }
        let ghost lt = line_text(s@, i as int);
        proof {
            assert(lt =~= s@.subrange(i as int, be as int));
        }
        let mut lead = i;
        while lead < be && (s[lead] == ' ' || s[lead] == '\t')
            invariant
                i <= lead <= be <= n == s@.len(),
                forall|j: int| i <= j < lead ==> #[trigger] s@[j] == ' ' || s@[j] == '\t',
            decreases be - lead,
        {
            lead = lead + 1;
        }
        if lead > i {
            push_whitespace(&mut whitespace, &s, &p, MermaidWhitespaceKind::Indent, i, lead);
        }
        let mut trail = be;
        while trail > i && (s[trail - 1] == ' ' || s[trail - 1] == '\t')
            invariant
                i <= trail <= be <= n == s@.len(),
                forall|j: int| trail <= j < be ==> #[trigger] s@[j] == ' ' || s@[j] == '\t',
            decreases trail - i,
        {
            trail = trail - 1;
        }
        if trail > lead {
            collect_inter_token(&mut whitespace, &s, &p, lead, trail);
        }
        if trail < be {
            push_whitespace(&mut whitespace, &s, &p, MermaidWhitespaceKind::Trailing, trail, be);
        }
        let (ta, tb) = trim_window(&s, i, be);
        let ghost cs0 = cs;
        let ghost ds0 = ds;
        let ghost c_before = comments@;
        let ghost d_before = directives@;
        proof {
            assert((forall|j: int| 0 <= j < lt.len() ==> is_ws(#[trigger] lt[j])) == (forall|j: int|
                i <= j < be ==> is_ws(#[trigger] s@[j]))) by {
                if forall|j: int| i <= j < be ==> is_ws(#[trigger] s@[j]) {
                    assert forall|j: int| 0 <= j < lt.len() implies is_ws(#[trigger] lt[j]) by {
                        assert(lt[j] == s@[i + j]);
                    }
                }
                if forall|j: int| 0 <= j < lt.len() ==> is_ws(#[trigger] lt[j]) {
                    assert forall|j: int| i <= j < be implies is_ws(#[trigger] s@[j]) by {
                        assert(lt[j - i] == s@[j]);
                    }
                }
            }
            let l = trim(lt);
            assert(l == s@.subrange(ta as int, tb as int));
            if l.len() >= 3 {
                assert(l[l.len() - 3] == s@[tb - 3]);
                assert(l[l.len() - 2] == s@[tb - 2]);
                assert(l[l.len() - 1] == s@[tb - 1]);
            }
            reveal_strlit("%%{");
            reveal_strlit("%%");
        }
        if all_whitespace(&s, i, be) {
            let blank_end = if be > i {
                be
            } else {
                le
            };
            if i < blank_end {
                push_whitespace(&mut whitespace, &s, &p, MermaidWhitespaceKind::BlankLine, i, blank_end);
            }
        } else if crate::text::matches_at(&s, ta, tb, 0, &chars_of("%%{")) && tb - ta >= 3 && s[tb - 3] == '}' && s[tb - 2] == '%' && s[tb - 1] == '%' {
            let text = string_of_window(&s, i, be);
            let d = MermaidDirectiveSpan { span: span_of(&p, i, be), text_range: range_of(&p, i, be), text };
            proof {
                assert(s@.subrange(i as int, i + d.text@.len()) == d.text@);
                let t = trim(d.text@);
                assert(t == s@.subrange(ta as int, tb as int));
                assert(t.subrange(t.len() - 3, t.len() as int) =~= "}%%"@) by {
                    reveal_strlit("}%%");
                }
            }
            let ghost before = directives@;
            directives.push(d);
            proof {
                assert forall|k: int| 0 <= k < directives@.len() implies directive_ok(#[trigger] directives@[k], s@) by {
                    if k < before.len() {
                        assert(directives@[k] == before[k]);
                    }
                }
                assert(directives@.map_values(|d: MermaidDirectiveSpan| d.text@) =~= before.map_values(
                    |d: MermaidDirectiveSpan| d.text@,
                ).push(lt));
                ds = ds + seq![lt];
            }
        } else if crate::text::matches_at(&s, ta, tb, 0, &chars_of("%%")) {
            let text = string_of_window(&s, i, be);
            let c = MermaidCommentSpan { span: span_of(&p, i, be), text_range: range_of(&p, i, be), text };
            proof {
                assert(s@.subrange(i as int, i + c.text@.len()) == c.text@);
            }
            let ghost before = comments@;
            comments.push(c);
            proof {
                assert forall|k: int| 0 <= k < comments@.len() implies comment_ok(#[trigger] comments@[k], s@) by {
                    if k < before.len() {
                        assert(comments@[k] == before[k]);
                    }
                }
                assert(comments@.map_values(|c: MermaidCommentSpan| c.text@) =~= before.map_values(
                    |c: MermaidCommentSpan| c.text@,
                ).push(lt));
                cs = cs + seq![lt];
            }
        }
        proof {
            let here_c: Seq<Seq<char>> = if ck(lt) { seq![lt] } else { seq![] };
            let here_d: Seq<Seq<char>> = if dk(lt) { seq![lt] } else { seq![] };
            assert(cs == cs0 + here_c);
            assert(ds == ds0 + here_d);
            assert(lines_where(s@, i as int, ck) == here_c + lines_where(s@, le as int, ck));
            assert(lines_where(s@, i as int, dk) == here_d + lines_where(s@, le as int, dk));
            assert(cs0 + (here_c + lines_where(s@, le as int, ck)) =~= cs + lines_where(s@, le as int, ck));
            assert(ds0 + (here_d + lines_where(s@, le as int, dk)) =~= ds + lines_where(s@, le as int, dk));
        }
        i = le;
    }
    let mut quoted_literals: Vec<MermaidQuotedSpan> = Vec::new();
    collect_quoted(&mut quoted_literals, &s, &p);
    let trailing_newline = n > 0 && s[n - 1] == '\n';
    MermaidFormatComplement { line_ending, trailing_newline, whitespace, comments, directives, quoted_literals }
}

/// [`line_ending_of`] computed over `s`.
fn line_ending_style(s: &Vec<char>) -> (r: MermaidLineEndingStyle)
    ensures
        r == line_ending_of(s@),
{
    let n = s.len();
    let mut crlf = false;
    let mut lf = false;
    let mut i: usize = 0;
    while i < n
        invariant
            i <= n == s@.len(),
            crlf == exists|k: int| 0 < k < i && #[trigger] s@[k] == '\n' && s@[k - 1] == '\r',
            lf == exists|k: int| 0 <= k < i && #[trigger] s@[k] == '\n' && !(k > 0 && s@[k - 1] == '\r'),
        decreases n - i,
    {
        if s[i] == '\n' {
            if i > 0 && s[i - 1] == '\r' {
                crlf = true;
            } else {
                lf = true;
            }
        }
        i = i + 1;
    }
    if crlf && lf {
        MermaidLineEndingStyle::Mixed
    } else if crlf {
        MermaidLineEndingStyle::Crlf
    } else if lf {
        MermaidLineEndingStyle::Lf
    } else {
        MermaidLineEndingStyle::Absent
    }
}

} // verus!
