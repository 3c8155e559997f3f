//! The lexical layer of the flowchart parser: node tokens, edge operators, pipe labels, headers,
//! directions and statement splitting.
use vstd::prelude::*;

use crate::identifier::{
    extended_graphemes, fallback_from_graphemes, is_keep_char, join_pieces,
    trim_underscores_end, trim_underscores_start, trim_us_end, trim_us_start,
};
use crate::ir::{clean_label_window, spec_clean_label, trim_char, ArrowType, GraphDirection, NodeShape};
use crate::text::{
    ascii_lower_char, char_is_whitespace, chars_of, ends_with, find_seq_from, first_occ_from,
    idx_of, index_of_char, is_ws, lemma_first_occ, occurs_at, starts_with, string_of_window, trim,
    trim_window, window_vec,
};

verus! {

// ---------------------------------------------------------------------------------------------
// Identifiers.
/// Text with surrounding whitespace and quote runs removed (what an identifier and a label are
/// read from).
pub open spec fn clean_text(raw: Seq<char>) -> Seq<char> {
    trim(trim_char(trim_char(trim_char(trim(raw), '"'), '\''), '`'))
}

/// The leading run of kept characters of `c` from index `i` on, after skipping anything else
/// before the first kept character; `out` is what was kept so far.
pub open spec fn flow_rebuild_from(c: Seq<char>, i: int, out: Seq<char>) -> Seq<char>
    decreases c.len() - i,
{
    if i < 0 || i >= c.len() {
        out
    } else if is_keep_char(c[i]) {
        flow_rebuild_from(c, i + 1, out.push(c[i]))
    } else if out.len() > 0 {
        out
    } else {
        flow_rebuild_from(c, i + 1, out)
    }
}

/// The flowchart id of raw token text: the first run of kept characters (ASCII letters and
/// digits, `_ - . /`) of the cleaned text; when there is none, its graphemes with every grapheme
/// that is not all ASCII letters, digits, `_` and `-` replaced by `_`, underscores trimmed.
pub open spec fn spec_flow_identifier(raw: Seq<char>) -> Seq<char> {
    let c = clean_text(raw);
    if c.len() == 0 {
        Seq::empty()
    } else {
        let r = flow_rebuild_from(c, 0, Seq::empty());
        if r.len() > 0 {
            r
        } else {
            trim_us_start(trim_us_end(join_pieces(extended_graphemes(c))))
        }
    }
}

pub fn is_keep_char_exec(c: char) -> (r: bool)
    ensures
        r == is_keep_char(c),
{
    (c >= '0' && c <= '9') || (c >= 'A' && c <= 'Z') || (c >= 'a' && c <= 'z') || c == '_' || c
        == '-' || c == '.' || c == '/'
}

/// The cleaned text of the window `s[lo..hi]`, as a window (empty when nothing is left).
pub fn clean_text_window(s: &Vec<char>, lo: usize, hi: usize) -> (r: (usize, usize))
    requires
        lo <= hi <= s@.len(),
    ensures
        lo <= r.0 <= r.1 <= hi,
        s@.subrange(r.0 as int, r.1 as int) == clean_text(s@.subrange(lo as int, hi as int)),
{
    match clean_label_window(s, lo, hi) {
        Some((a, b)) => (a, b),
        None => {
            assert(s@.subrange(lo as int, lo as int) =~= Seq::<char>::empty());
            (lo, lo)
        },
    }
}

/// [`spec_flow_identifier`] of the window `s[lo..hi]`.
pub fn flow_identifier_window(s: &Vec<char>, lo: usize, hi: usize) -> (r: Vec<char>)
    requires
        lo <= hi <= s@.len(),
    ensures
        r@ == spec_flow_identifier(s@.subrange(lo as int, hi as int)),
{
    let (a, b) = clean_text_window(s, lo, hi);
    let ghost c = s@.subrange(a as int, b as int);
    if a == b {
        return Vec::new();
    }
    let mut out: Vec<char> = Vec::new();
    let mut i = a;
    let mut done = false;
    while i < b && !done
        invariant
            a <= i <= b <= s@.len(),
            c == s@.subrange(a as int, b as int),
            done ==> out@.len() > 0 && flow_rebuild_from(c, 0, Seq::empty()) == out@,
            !done ==> flow_rebuild_from(c, i - a, out@) == flow_rebuild_from(c, 0, Seq::empty()),
        decreases b - i, if done {
            0int
        } else {
            1int
        },
    {
        let ch = s[i];
        assert(c[i - a] == ch);
        if is_keep_char_exec(ch) {
            out.push(ch);
            i = i + 1;
        } else if out.len() > 0 {
            done = true;
        } else {
            i = i + 1;
        }
    }
    if out.len() > 0 {
        return out;
    }
    let body = string_of_window(s, a, b);
    let fb = fallback_from_graphemes(body.as_str());
    let t = trim_underscores_end(&fb);
    trim_underscores_start(&t)
}

// ---------------------------------------------------------------------------------------------
// Node tokens.
/// A node token: its id, its label and its shape.
pub struct TokenView {
    pub id: Seq<char>,
    pub label: Option<Seq<char>>,
    pub shape: NodeShape,
}

/// `t` up to its first `:::` (the class shorthand), or all of `t`.
pub open spec fn before_class_marker(t: Seq<char>) -> Seq<char> {
    match first_occ_from(t, ":::"@, 0) {
        Some(k) => t.take(k),
        None => t,
    }
}

/// A token whose id is read from `id_raw` (or, when that gives nothing, from `label_raw`).
pub open spec fn token_from(id_raw: Seq<char>, label_raw: Seq<char>, shape: NodeShape) -> Option<
    TokenView,
> {
    let id0 = spec_flow_identifier(id_raw);
    let id = if id0.len() == 0 {
        spec_flow_identifier(label_raw)
    } else {
        id0
    };
    if id.len() == 0 {
        None
    } else {
        Some(TokenView { id, label: spec_clean_label(label_raw), shape })
    }
}

/// `id((label))`.
pub open spec fn double_circle_token(core: Seq<char>) -> Option<TokenView> {
    match first_occ_from(core, "(("@, 0) {
        None => None,
        Some(st) => if !ends_with(core, "))"@) {
            None
        } else {
            token_from(
                trim(core.take(st)),
                trim(core.subrange(st + 2, core.len() - 2)),
                NodeShape::DoubleCircle,
            )
        },
    }
}

/// `id<open>label<close>`, the shape given by the bracket pair.
pub open spec fn wrapped_token(core: Seq<char>, open: char, close: char, shape: NodeShape) -> Option<
    TokenView,
> {
    let st = idx_of(core, open);
    if st >= core.len() || core.len() == 0 || core.last() != close {
        None
    } else {
        token_from(trim(core.take(st as int)), trim(core.subrange(st as int + 1, core.len() - 1)), shape)
    }
}

/// A bare id; its label is the cleaned text when that differs from the id.
pub open spec fn plain_token(core: Seq<char>) -> Option<TokenView> {
    let id = spec_flow_identifier(core);
    if id.len() == 0 {
        None
    } else {
        Some(
            TokenView {
                id,
                label: match spec_clean_label(core) {
                    Some(l) => if l == id {
                        None
                    } else {
                        Some(l)
                    },
                    None => None,
                },
                shape: NodeShape::Rect,
            },
        )
    }
}

/// The node a token of text `raw` names: `[*]` is the state start/end marker; otherwise the
/// text before any `:::` is read as `id((label))`, `id[label]`, `id(label)`, `id{label}` or a
/// bare id, in that order.
pub open spec fn spec_node_token(raw: Seq<char>) -> Option<TokenView> {
    let t = trim(raw);
    if t.len() == 0 {
        None
    } else if t == "[*]"@ {
        Some(TokenView { id: "__state_start_end"@, label: Some("*"@), shape: NodeShape::Circle })
    } else {
        let core = trim(before_class_marker(t));
        if core.len() == 0 {
            None
        } else if double_circle_token(core) is Some {
            double_circle_token(core)
        } else if wrapped_token(core, '[', ']', NodeShape::Rect) is Some {
            wrapped_token(core, '[', ']', NodeShape::Rect)
        } else if wrapped_token(core, '(', ')', NodeShape::Rounded) is Some {
            wrapped_token(core, '(', ')', NodeShape::Rounded)
        } else if wrapped_token(core, '{', '}', NodeShape::Diamond) is Some {
            wrapped_token(core, '{', '}', NodeShape::Diamond)
        } else {
            plain_token(core)
        }
    }
}

/// A node token's shape is the one its brackets draw: `id((label))` a double circle, `id[label]` a
/// rectangle, `id(label)` a rounded box, `id{label}` a diamond, and a bare id a rectangle; no shape
/// is given by brackets other than its own.
pub proof fn law_token_shape_follows_brackets(raw: Seq<char>)
    ensures
        spec_node_token(raw) matches Some(v) ==> {
            let t = trim(raw);
            let core = trim(before_class_marker(t));
            &&& t == "[*]"@ ==> v.shape == NodeShape::Circle
            &&& t != "[*]"@ ==> {
                &&& v.shape == NodeShape::DoubleCircle ==> ends_with(core, "))"@)
                &&& v.shape == NodeShape::Rounded ==> core.len() > 0 && core.last() == ')'
                &&& v.shape == NodeShape::Diamond ==> core.len() > 0 && core.last() == '}'
                &&& v.shape == NodeShape::Rect || v.shape == NodeShape::Rounded || v.shape == NodeShape::Diamond
                    || v.shape == NodeShape::DoubleCircle
                &&& core.len() > 0 && core.last() == ']' && wrapped_token(core, '[', ']', NodeShape::Rect) is Some
                    ==> v.shape == NodeShape::Rect
                &&& core.len() > 0 && core.last() == '}' && wrapped_token(core, '{', '}', NodeShape::Rect) is Some
                    ==> v.shape == NodeShape::Diamond
                &&& core.len() > 0 && core.last() == ')' && double_circle_token(core) is None && wrapped_token(
                    core,
                    '(',
                    ')',
                    NodeShape::Rect,
                ) is Some ==> v.shape == NodeShape::Rounded
            }
        },
{
    let t = trim(raw);
    let core = trim(before_class_marker(t));
    reveal_strlit("))");
    if core.len() > 0 {
        if core.last() != ')' {
            assert(!ends_with(core, "))"@)) by {
                if ends_with(core, "))"@) {
                    assert(core.subrange(core.len() - 2, core.len() as int)[1] == core.last());
                }
            }
        }
    }
}

/// A parsed node token.
pub struct NodeToken {
    pub id: String,
    pub label: Option<String>,
    pub shape: NodeShape,
}

impl NodeToken {
    pub open spec fn view_parts(&self) -> TokenView {
        TokenView {
            id: self.id@,
            label: match self.label {
                Some(l) => Some(l@),
                None => None,
            },
            shape: self.shape,
        }
    }
}

fn label_of_window(s: &Vec<char>, lo: usize, hi: usize) -> (r: Option<String>)
    requires
        lo <= hi <= s@.len(),
    ensures
        r matches Some(l) ==> spec_clean_label(s@.subrange(lo as int, hi as int)) == Some(l@),
        r is None ==> spec_clean_label(s@.subrange(lo as int, hi as int)) is None,
{
    match clean_label_window(s, lo, hi) {
        Some((a, b)) => Some(string_of_window(s, a, b)),
        None => None,
    }
}

fn token_from_exec(s: &Vec<char>, ia: usize, ib: usize, la: usize, lb: usize, shape: NodeShape) -> (r:
    Option<NodeToken>)
    requires
        ia <= ib <= s@.len(),
        la <= lb <= s@.len(),
    ensures
        r matches Some(t) ==> token_from(
            s@.subrange(ia as int, ib as int),
            s@.subrange(la as int, lb as int),
            shape,
        ) == Some(t.view_parts()),
        r is None ==> token_from(
            s@.subrange(ia as int, ib as int),
            s@.subrange(la as int, lb as int),
            shape,
        ) is None,
{
    let mut id = flow_identifier_window(s, ia, ib);
    if id.len() == 0 {
        id = flow_identifier_window(s, la, lb);
    }
    if id.len() == 0 {
        return None;
    }
    let label = label_of_window(s, la, lb);
    let t = NodeToken { id: crate::text::string_from_chars(&id), label, shape };
    assert(t.view_parts() == (TokenView {
        id: id@,
        label: spec_clean_label(s@.subrange(la as int, lb as int)),
        shape,
    }));
    Some(t)
}

fn double_circle_exec(s: &Vec<char>, lo: usize, hi: usize) -> (r: Option<NodeToken>)
    requires
        lo <= hi <= s@.len(),
    ensures
        r matches Some(t) ==> double_circle_token(s@.subrange(lo as int, hi as int)) == Some(
            t.view_parts(),
        ),
        r is None ==> double_circle_token(s@.subrange(lo as int, hi as int)) is None,
{
    let ghost core = s@.subrange(lo as int, hi as int);
    let w = window_vec(s, lo, hi);
    let pat = chars_of("((");
    proof {
        reveal_strlit("((");
        reveal_strlit("))");
    }
    let st = match find_seq_from(&w, &pat, 0) {
        Some(st) => st,
        None => return None,
    };
    proof {
        lemma_first_occ(core, "(("@, 0);
    }
    let n = hi - lo;
    let ends = n >= 2 && s[hi - 2] == ')' && s[hi - 1] == ')';
    assert(ends == ends_with(core, "))"@)) by {
        if n >= 2 {
            let tail = core.subrange(core.len() - 2, core.len() as int);
            assert(tail[0] == s@[hi - 2]);
            assert(tail[1] == s@[hi - 1]);
            if ends {
                assert(tail =~= "))"@);
            }
        }
    }
    if !ends {
        return None;
    }
    // The `((` cannot overlap the closing `))`.
    assert(st + 2 <= n - 2) by {
        assert(occurs_at(core, st as int, "(("@));
        assert(core.subrange(st as int, st + 2) == "(("@);
        assert(core.subrange(st as int, st + 2)[0] == core[st as int]);
        assert(core.subrange(st as int, st + 2)[1] == core[st + 1]);
        assert("(("@[0] == '(' && "(("@[1] == '(');
        assert(core[st as int] == '(');
        assert(core[st + 1] == '(');
        assert(core[n - 2] == ')');
        assert(core[n - 1] == ')');
    }
    let (ia, ib) = trim_window(s, lo, lo + st);
    let (la, lb) = trim_window(s, lo + st + 2, hi - 2);
    assert(s@.subrange(lo as int, lo + st) =~= core.take(st as int));
    assert(s@.subrange(lo + st + 2, hi - 2) =~= core.subrange(st + 2, core.len() - 2));
    token_from_exec(s, ia, ib, la, lb, NodeShape::DoubleCircle)
}

pub fn wrapped_exec(s: &Vec<char>, lo: usize, hi: usize, open: char, close: char, shape: NodeShape) -> (r:
    Option<NodeToken>)
    requires
        lo <= hi <= s@.len(),
        open != close,
    ensures
        r matches Some(t) ==> wrapped_token(s@.subrange(lo as int, hi as int), open, close, shape)
            == Some(t.view_parts()),
        r is None ==> wrapped_token(s@.subrange(lo as int, hi as int), open, close, shape) is None,
{
    let ghost core = s@.subrange(lo as int, hi as int);
    let st = index_of_char(s, lo, hi, open);
    if st >= hi || hi == lo || s[hi - 1] != close {
        return None;
    }
    proof {
        crate::text::lemma_idx_of(core, open);
    }
    assert(st + 1 <= hi - 1) by {
        assert(core[st - lo] == open);
        assert(core[hi - 1 - lo] == close);
    }
    let (ia, ib) = trim_window(s, lo, st);
    let (la, lb) = trim_window(s, st + 1, hi - 1);
    assert(s@.subrange(lo as int, st as int) =~= core.take(st - lo));
    assert(s@.subrange(st + 1, hi - 1) =~= core.subrange(st - lo + 1, core.len() - 1));
    token_from_exec(s, ia, ib, la, lb, shape)
}

fn plain_exec(s: &Vec<char>, lo: usize, hi: usize) -> (r: Option<NodeToken>)
    requires
        lo <= hi <= s@.len(),
    ensures
        r matches Some(t) ==> plain_token(s@.subrange(lo as int, hi as int)) == Some(t.view_parts()),
        r is None ==> plain_token(s@.subrange(lo as int, hi as int)) is None,
{
    let id = flow_identifier_window(s, lo, hi);
    if id.len() == 0 {
        return None;
    }
    let label = match label_of_window(s, lo, hi) {
        Some(l) => {
            let lc = chars_of(l.as_str());
            if crate::detect::chars_eq_str(&id, l.as_str()) {
                None
            } else {
                Some(l)
            }
        },
        None => None,
    };
    let t = NodeToken { id: crate::text::string_from_chars(&id), label, shape: NodeShape::Rect };
    Some(t)
}

/// [`spec_node_token`] of the window `s[lo..hi]`.
#[verifier::rlimit(40)]
pub fn parse_node_token(s: &Vec<char>, lo: usize, hi: usize) -> (r: Option<NodeToken>)
    requires
        lo <= hi <= s@.len(),
    ensures
        r matches Some(t) ==> spec_node_token(s@.subrange(lo as int, hi as int)) == Some(
            t.view_parts(),
        ),
        r is None ==> spec_node_token(s@.subrange(lo as int, hi as int)) is None,
{
    let (a, b) = trim_window(s, lo, hi);
    let ghost t = s@.subrange(a as int, b as int);
    if a == b {
        return None;
    }
    proof {
        reveal_strlit("[*]");
        reveal_strlit(":::");
    }
    if b - a == 3 && s[a] == '[' && s[a + 1] == '*' && s[a + 2] == ']' {
        assert(t =~= "[*]"@);
        let tok = NodeToken {
            id: crate::text::owned("__state_start_end"),
            label: Some(crate::text::owned("*")),
            shape: NodeShape::Circle,
        };
        return Some(tok);
    }
    assert(t != "[*]"@) by {
        if t =~= "[*]"@ {
            assert(t[0] == s@[a as int]);
            assert(t[1] == s@[a + 1]);
            assert(t[2] == s@[a + 2]);
        }
    }
    let w = window_vec(s, a, b);
    let marker = chars_of(":::");
    let found = find_seq_from(&w, &marker, 0);
    proof {
        lemma_first_occ(t, ":::"@, 0);
    }
    let e = match found {
        Some(k) => a + k,
        None => b,
    };
    assert(s@.subrange(a as int, e as int) =~= before_class_marker(t));
    let (ca, cb) = trim_window(s, a, e);
    if ca == cb {
        return None;
    }
    if let Some(tok) = double_circle_exec(s, ca, cb) {
        return Some(tok);
    }
    if let Some(tok) = wrapped_exec(s, ca, cb, '[', ']', NodeShape::Rect) {
        return Some(tok);
    }
    if let Some(tok) = wrapped_exec(s, ca, cb, '(', ')', NodeShape::Rounded) {
        return Some(tok);
    }
    if let Some(tok) = wrapped_exec(s, ca, cb, '{', '}', NodeShape::Diamond) {
        return Some(tok);
    }
    plain_exec(s, ca, cb)
}

// ---------------------------------------------------------------------------------------------
// Edge operators.
/// The operator tables of the diagram kinds that draw edges between node tokens.
#[derive(Clone, Copy, PartialEq, Eq, Structural)]
pub enum OperatorSet {
    Flow,
    Sequence,
    Class,
    Packet,
    Er,
}

/// The operators of a table, in the order they are tried: the spelling, the arrow, and whether
/// the edge runs from the right-hand side to the left (a head written on the left).
pub open spec fn ops_of(t: OperatorSet) -> Seq<(Seq<char>, ArrowType, bool)> {
    match t {
        OperatorSet::Flow => seq![
            ("-.->"@, ArrowType::DottedArrow, false),
            ("==>"@, ArrowType::ThickArrow, false),
            ("-->"@, ArrowType::Arrow, false),
            ("---"@, ArrowType::Line, false),
            ("--o"@, ArrowType::Circle, false),
            ("--x"@, ArrowType::Cross, false),
        ],
        OperatorSet::Sequence => seq![
            ("-->>"@, ArrowType::DottedArrow, false),
            ("->>"@, ArrowType::Arrow, false),
            ("-->"@, ArrowType::DottedArrow, false),
            ("->"@, ArrowType::Arrow, false),
            ("--x"@, ArrowType::Cross, false),
            ("-x"@, ArrowType::Cross, false),
        ],
        OperatorSet::Class => seq![
            ("<|--"@, ArrowType::Arrow, false),
            ("--|>"@, ArrowType::Arrow, false),
            ("..>"@, ArrowType::DottedArrow, false),
            ("<.."@, ArrowType::DottedArrow, true),
            ("-->"@, ArrowType::Arrow, false),
            ("--"@, ArrowType::Line, false),
            ("<--"@, ArrowType::Arrow, true),
            ("()--"@, ArrowType::Lollipop, false),
            ("--()"@, ArrowType::LollipopReverse, false),
            ("().."@, ArrowType::Lollipop, false),
            ("..()"@, ArrowType::LollipopReverse, false),
            (".."@, ArrowType::DottedLine, false),
        ],
        OperatorSet::Packet => seq![
            ("-->"@, ArrowType::Arrow, false),
            ("->"@, ArrowType::Arrow, false),
            ("--"@, ArrowType::Line, false),
            ("=="@, ArrowType::ThickArrow, false),
        ],
        OperatorSet::Er => seq![
            ("||--o{"@, ArrowType::Arrow, false),
            ("||--|{"@, ArrowType::Arrow, false),
            ("}|--||"@, ArrowType::Arrow, false),
            ("}o--||"@, ArrowType::Arrow, false),
            ("|o--o|"@, ArrowType::Arrow, false),
            ("}|..|{"@, ArrowType::DottedArrow, false),
            ("||..||"@, ArrowType::DottedArrow, false),
            ("||--||"@, ArrowType::Line, false),
            ("o|--|{"@, ArrowType::Arrow, false),
            ("}|--|{"@, ArrowType::Arrow, false),
            ("|o--||"@, ArrowType::Arrow, false),
            ("}o--o{"@, ArrowType::Arrow, false),
            ("--"@, ArrowType::Line, false),
            (".."@, ArrowType::DottedArrow, false),
        ],
    }
}

/// The operator chosen for `s` from table `t`, scanning from entry `i` with the best
/// `(position, entry)` so far: the earliest first occurrence wins, and at the same position the
/// longer operator (the earlier entry on a tie).
pub open spec fn op_scan(t: OperatorSet, s: Seq<char>, i: int, best: Option<(int, int)>) -> Option<(int, int)>
    decreases ops_of(t).len() - i,
{
    if i < 0 || i >= ops_of(t).len() {
        best
    } else {
        match first_occ_from(s, ops_of(t)[i].0, 0) {
            None => op_scan(t, s, i + 1, best),
            Some(idx) => {
                let keep = match best {
                    Some((bi, bo)) => idx > bi || (idx == bi && ops_of(t)[i].0.len()
                        <= ops_of(t)[bo].0.len()),
                    None => false,
                };
                op_scan(
                    t,
                    s,
                    i + 1,
                    if keep {
                        best
                    } else {
                        Some((idx, i))
                    },
                )
            },
        }
    }
}

/// The arrow a flowchart link draws, read off how its operator is spelled: a `=` makes it thick
/// and a `.` dotted; otherwise its head decides: `o` a circle, `x` a cross, `>` an arrow, and no
/// head a plain line.
pub open spec fn flow_arrow_of(op: Seq<char>) -> ArrowType {
    if op.contains('=') {
        ArrowType::ThickArrow
    } else if op.contains('.') {
        ArrowType::DottedArrow
    } else if op.len() > 0 && op.last() == 'o' {
        ArrowType::Circle
    } else if op.len() > 0 && op.last() == 'x' {
        ArrowType::Cross
    } else if op.len() > 0 && op.last() == '>' {
        ArrowType::Arrow
    } else {
        ArrowType::Line
    }
}

/// The arrow a sequence message draws, read off how its operator is spelled: an `x` head is a
/// cross; otherwise a dashed (`--`) line is a reply, drawn dotted, and a solid (`-`) one an arrow.
pub open spec fn sequence_arrow_of(op: Seq<char>) -> ArrowType {
    if op.len() > 0 && op.last() == 'x' {
        ArrowType::Cross
    } else if op.len() >= 2 && op[0] == '-' && op[1] == '-' {
        ArrowType::DottedArrow
    } else {
        ArrowType::Arrow
    }
}

/// The arrow a class relation draws, read off how its operator is spelled: a `()` end is a
/// lollipop (at the source when written first); otherwise a head (`<`, `>`, `|>`) makes an arrow,
/// dotted when the line is `.`; and a headless line is plain, or dotted when written with `.`.
pub open spec fn class_arrow_of(op: Seq<char>) -> ArrowType {
    if op.len() >= 2 && op[0] == '(' && op[1] == ')' {
        ArrowType::Lollipop
    } else if op.len() >= 2 && op[op.len() - 2] == '(' && op[op.len() - 1] == ')' {
        ArrowType::LollipopReverse
    } else if op.contains('<') || op.contains('>') {
        if op.contains('.') {
            ArrowType::DottedArrow
        } else {
            ArrowType::Arrow
        }
    } else if op.contains('.') {
        ArrowType::DottedLine
    } else {
        ArrowType::Line
    }
}

/// The arrow a packet link draws, read off its spelling: `=` thick, a `>` head an arrow, else a
/// plain line.
pub open spec fn packet_arrow_of(op: Seq<char>) -> ArrowType {
    if op.contains('=') {
        ArrowType::ThickArrow
    } else if op.len() > 0 && op.last() == '>' {
        ArrowType::Arrow
    } else {
        ArrowType::Line
    }
}

/// The arrow an entity relationship draws, read off its spelling: a non-identifying (`..`) one is
/// dotted; an identifying one is a plain line when it has no cardinality or is exactly-one (`||`)
/// at both ends, and an arrow otherwise.
pub open spec fn er_arrow_of(op: Seq<char>) -> ArrowType {
    if op.contains('.') {
        ArrowType::DottedArrow
    } else if op == seq!['-', '-'] || (op.len() >= 4 && op[0] == '|' && op[1] == '|' && op[op.len() - 2] == '|'
        && op[op.len() - 1] == '|') {
        ArrowType::Line
    } else {
        ArrowType::Arrow
    }
}

/// The arrow an operator of table `t` draws, read off its spelling.
pub open spec fn arrow_by_spelling(t: OperatorSet, op: Seq<char>) -> ArrowType {
    match t {
        OperatorSet::Flow => flow_arrow_of(op),
        OperatorSet::Sequence => sequence_arrow_of(op),
        OperatorSet::Class => class_arrow_of(op),
        OperatorSet::Packet => packet_arrow_of(op),
        OperatorSet::Er => er_arrow_of(op),
    }
}

proof fn lemma_class_table()
    ensures
        forall|k: int|
            0 <= k < ops_of(OperatorSet::Class).len() ==> #[trigger] ops_of(OperatorSet::Class)[k].1 == class_arrow_of(
                ops_of(OperatorSet::Class)[k].0,
            ),
{
    reveal_strlit("<|--");
    reveal_strlit("--|>");
    reveal_strlit("..>");
    reveal_strlit("<..");
    reveal_strlit("-->");
    reveal_strlit("--");
    reveal_strlit("<--");
    reveal_strlit("()--");
    reveal_strlit("--()");
    reveal_strlit("()..");
    reveal_strlit("..()");
    reveal_strlit("..");
    let t = ops_of(OperatorSet::Class);
    assert(t[0].0[0] == '<');
    assert(t[1].0[3] == '>');
    assert(t[2].0[2] == '>' && t[2].0[0] == '.');
    assert(t[3].0[0] == '<' && t[3].0[1] == '.');
    assert(t[4].0[2] == '>');
    assert(t[6].0[0] == '<');
    assert(t[11].0[0] == '.');
    assert forall|k: int| (k == 0 || k == 1 || k == 4 || k == 5 || k == 6) implies !(#[trigger] t[k].0).contains('.') by {
        assert forall|j: int| 0 <= j < t[k].0.len() implies t[k].0[j] != '.' by {}
    }
    assert forall|k: int| (k == 5 || k == 11) implies !(#[trigger] t[k].0).contains('<') && !t[k].0.contains('>') by {
        assert forall|j: int| 0 <= j < t[k].0.len() implies t[k].0[j] != '<' && t[k].0[j] != '>' by {}
    }
}

proof fn lemma_packet_table()
    ensures
        forall|k: int|
            0 <= k < ops_of(OperatorSet::Packet).len() ==> #[trigger] ops_of(OperatorSet::Packet)[k].1 == packet_arrow_of(
                ops_of(OperatorSet::Packet)[k].0,
            ),
{
    reveal_strlit("-->");
    reveal_strlit("->");
    reveal_strlit("--");
    reveal_strlit("==");
    let t = ops_of(OperatorSet::Packet);
    assert(t[3].0[0] == '=');
    assert forall|k: int| 0 <= k < 3 implies !(#[trigger] t[k].0).contains('=') by {
        assert forall|j: int| 0 <= j < t[k].0.len() implies t[k].0[j] != '=' by {}
    }
}

proof fn lemma_er_table()
    ensures
        forall|k: int|
            0 <= k < ops_of(OperatorSet::Er).len() ==> #[trigger] ops_of(OperatorSet::Er)[k].1 == er_arrow_of(
                ops_of(OperatorSet::Er)[k].0,
            ),
{
    reveal_strlit("||--o{");
    reveal_strlit("||--|{");
    reveal_strlit("}|--||");
    reveal_strlit("}o--||");
    reveal_strlit("|o--o|");
    reveal_strlit("}|..|{");
    reveal_strlit("||..||");
    reveal_strlit("||--||");
    reveal_strlit("o|--|{");
    reveal_strlit("}|--|{");
    reveal_strlit("|o--||");
    reveal_strlit("}o--o{");
    reveal_strlit("--");
    reveal_strlit("..");
    let t = ops_of(OperatorSet::Er);
    assert(t[5].0[2] == '.');
    assert(t[6].0[2] == '.');
    assert(t[13].0[0] == '.');
    assert forall|k: int| (0 <= k < 13 && k != 5 && k != 6) implies !(#[trigger] t[k].0).contains('.') by {
        assert forall|j: int| 0 <= j < t[k].0.len() implies t[k].0[j] != '.' by {}
    }
    assert(t[12].0 =~= seq!['-', '-']);
    assert forall|k: int| (0 <= k < 12 && k != 5 && k != 6) implies (#[trigger] t[k].0) != seq!['-', '-'] by {
        assert(t[k].0.len() == 6);
    }
}

proof fn lemma_flow_table()
    ensures
        forall|k: int|
            0 <= k < ops_of(OperatorSet::Flow).len() ==> #[trigger] ops_of(OperatorSet::Flow)[k].1 == flow_arrow_of(
                ops_of(OperatorSet::Flow)[k].0,
            ),
{
    reveal_strlit("-.->");
    reveal_strlit("==>");
    reveal_strlit("-->");
    reveal_strlit("---");
    reveal_strlit("--o");
    reveal_strlit("--x");
    let t = ops_of(OperatorSet::Flow);
    assert(t[0].0[1] == '.');
    assert(!t[0].0.contains('=')) by {
        assert forall|j: int| 0 <= j < t[0].0.len() implies t[0].0[j] != '=' by {}
    }
    assert(t[1].0[0] == '=');
    assert forall|k: int| 2 <= k < 6 implies !(#[trigger] t[k].0).contains('=') && !t[k].0.contains('.') by {
        assert forall|j: int| 0 <= j < t[k].0.len() implies t[k].0[j] != '=' && t[k].0[j] != '.' by {}
    }
}

proof fn lemma_sequence_table()
    ensures
        forall|k: int|
            0 <= k < ops_of(OperatorSet::Sequence).len() ==> #[trigger] ops_of(OperatorSet::Sequence)[k].1
                == sequence_arrow_of(ops_of(OperatorSet::Sequence)[k].0),
{
    reveal_strlit("-->>");
    reveal_strlit("->>");
    reveal_strlit("-->");
    reveal_strlit("->");
    reveal_strlit("--x");
    reveal_strlit("-x");
}

proof fn lemma_op_scan_occurs(t: OperatorSet, s: Seq<char>, i: int, best: Option<(int, int)>)
    requires
        best matches Some((bi, bo)) ==> 0 <= bo < ops_of(t).len() && occurs_at(s, bi, ops_of(t)[bo].0),
    ensures
        op_scan(t, s, i, best) matches Some((bi, bo)) ==> 0 <= bo < ops_of(t).len() && occurs_at(
            s,
            bi,
            ops_of(t)[bo].0,
        ),
    decreases ops_of(t).len() - i,
{
    if 0 <= i < ops_of(t).len() {
        lemma_first_occ(s, ops_of(t)[i].0, 0);
        match first_occ_from(s, ops_of(t)[i].0, 0) {
            None => lemma_op_scan_occurs(t, s, i + 1, best),
            Some(idx) => {
                let keep = match best {
                    Some((bi, bo)) => idx > bi || (idx == bi && ops_of(t)[i].0.len() <= ops_of(t)[bo].0.len()),
                    None => false,
                };
                lemma_op_scan_occurs(t, s, i + 1, if keep {
                    best
                } else {
                    Some((idx, i))
                });
            },
        }
    }
}

/// The operator of table `t` as it is written in the statement `w` (empty when there is none).
pub open spec fn written_op(t: OperatorSet, w: Seq<char>) -> Seq<char> {
    match op_scan(t, w, 0, None) {
        Some((i, k)) => w.subrange(i, i + ops_of(t)[k].0.len()),
        None => Seq::empty(),
    }
}

/// In any flowchart statement, the link operator found is written there, and the arrow it gives
/// is the one its spelling names: `==>` thick, `-.->` dotted, `-->` an arrow, `---` a line, `--o`
/// a circle, `--x` a cross.
pub proof fn law_flow_arrow_follows_operator(w: Seq<char>)
    ensures
        op_scan(OperatorSet::Flow, w, 0, None) matches Some((i, k)) ==> {
            let len = ops_of(OperatorSet::Flow)[k].0.len();
            &&& 0 <= i && i + len <= w.len()
            &&& ops_of(OperatorSet::Flow)[k].1 == flow_arrow_of(w.subrange(i, i + len))
        },
{
    lemma_op_scan_occurs(OperatorSet::Flow, w, 0, None);
    lemma_flow_table();
}

/// In any sequence statement, the message operator found is written there, and the arrow it gives
/// is the one its spelling names: `-->>` and `-->` replies drawn dotted, `->>` and `->` arrows,
/// `--x` and `-x` crosses.
pub proof fn law_sequence_arrow_follows_operator(w: Seq<char>)
    ensures
        op_scan(OperatorSet::Sequence, w, 0, None) matches Some((i, k)) ==> {
            let len = ops_of(OperatorSet::Sequence)[k].0.len();
            &&& 0 <= i && i + len <= w.len()
            &&& ops_of(OperatorSet::Sequence)[k].1 == sequence_arrow_of(w.subrange(i, i + len))
        },
{
    lemma_op_scan_occurs(OperatorSet::Sequence, w, 0, None);
    lemma_sequence_table();
}

/// In any statement of any diagram kind, the operator found is written there, and the arrow it
/// gives is the one its spelling names (see [`arrow_by_spelling`]).
pub proof fn law_arrow_follows_operator(t: OperatorSet, w: Seq<char>)
    ensures
        op_scan(t, w, 0, None) matches Some((i, k)) ==> {
            let len = ops_of(t)[k].0.len();
            &&& 0 <= i && i + len <= w.len()
            &&& ops_of(t)[k].1 == arrow_by_spelling(t, w.subrange(i, i + len))
        },
{
    lemma_op_scan_occurs(t, w, 0, None);
    match t {
        OperatorSet::Flow => lemma_flow_table(),
        OperatorSet::Sequence => lemma_sequence_table(),
        OperatorSet::Class => lemma_class_table(),
        OperatorSet::Packet => lemma_packet_table(),
        OperatorSet::Er => lemma_er_table(),
    }
}

fn op_count(t: OperatorSet) -> (r: usize)
    ensures
        r == ops_of(t).len(),
{
    match t {
        OperatorSet::Flow => 6,
        OperatorSet::Sequence => 6,
        OperatorSet::Class => 12,
        OperatorSet::Packet => 4,
        OperatorSet::Er => 14,
    }
}

fn op_entry(t: OperatorSet, i: usize) -> (r: (&'static str, ArrowType, bool))
    requires
        i < ops_of(t).len(),
    ensures
        r.0@ == ops_of(t)[i as int].0,
        r.1 == ops_of(t)[i as int].1,
        r.2 == ops_of(t)[i as int].2,
{
    proof {
        reveal_strlit("-.->");
        reveal_strlit("==>");
        reveal_strlit("-->");
        reveal_strlit("---");
        reveal_strlit("--o");
        reveal_strlit("--x");
        reveal_strlit("-->>");
        reveal_strlit("->>");
        reveal_strlit("->");
        reveal_strlit("-x");
        reveal_strlit("<|--");
        reveal_strlit("--|>");
        reveal_strlit("..>");
        reveal_strlit("<..");
        reveal_strlit("--");
        reveal_strlit("==");
        reveal_strlit("||--o{");
        reveal_strlit("||--|{");
        reveal_strlit("}|--||");
        reveal_strlit("}o--||");
        reveal_strlit("|o--o|");
        reveal_strlit("}|..|{");
        reveal_strlit("||..||");
        reveal_strlit("||--||");
        reveal_strlit("o|--|{");
        reveal_strlit("}|--|{");
        reveal_strlit("|o--||");
        reveal_strlit("}o--o{");
        reveal_strlit("..");
        reveal_strlit("<--");
        reveal_strlit("()--");
        reveal_strlit("--()");
        reveal_strlit("()..");
        reveal_strlit("..()");
    }
    match t {
        OperatorSet::Flow => {
            let table: [(&'static str, ArrowType, bool); 6] = [
                ("-.->", ArrowType::DottedArrow, false),
                ("==>", ArrowType::ThickArrow, false),
                ("-->", ArrowType::Arrow, false),
                ("---", ArrowType::Line, false),
                ("--o", ArrowType::Circle, false),
                ("--x", ArrowType::Cross, false),
            ];
            table[i]
        },
        OperatorSet::Sequence => {
            let table: [(&'static str, ArrowType, bool); 6] = [
                ("-->>", ArrowType::DottedArrow, false),
                ("->>", ArrowType::Arrow, false),
                ("-->", ArrowType::DottedArrow, false),
                ("->", ArrowType::Arrow, false),
                ("--x", ArrowType::Cross, false),
                ("-x", ArrowType::Cross, false),
            ];
            table[i]
        },
        OperatorSet::Class => {
            let table: [(&'static str, ArrowType, bool); 12] = [
                ("<|--", ArrowType::Arrow, false),
                ("--|>", ArrowType::Arrow, false),
                ("..>", ArrowType::DottedArrow, false),
                ("<..", ArrowType::DottedArrow, true),
                ("-->", ArrowType::Arrow, false),
                ("--", ArrowType::Line, false),
                ("<--", ArrowType::Arrow, true),
                ("()--", ArrowType::Lollipop, false),
                ("--()", ArrowType::LollipopReverse, false),
                ("()..", ArrowType::Lollipop, false),
                ("..()", ArrowType::LollipopReverse, false),
                ("..", ArrowType::DottedLine, false),
            ];
            table[i]
        },
        OperatorSet::Packet => {
            let table: [(&'static str, ArrowType, bool); 4] = [
                ("-->", ArrowType::Arrow, false),
                ("->", ArrowType::Arrow, false),
                ("--", ArrowType::Line, false),
                ("==", ArrowType::ThickArrow, false),
            ];
            table[i]
        },
        OperatorSet::Er => {
            let table: [(&'static str, ArrowType, bool); 14] = [
                ("||--o{", ArrowType::Arrow, false),
                ("||--|{", ArrowType::Arrow, false),
                ("}|--||", ArrowType::Arrow, false),
                ("}o--||", ArrowType::Arrow, false),
                ("|o--o|", ArrowType::Arrow, false),
                ("}|..|{", ArrowType::DottedArrow, false),
                ("||..||", ArrowType::DottedArrow, false),
                ("||--||", ArrowType::Line, false),
                ("o|--|{", ArrowType::Arrow, false),
                ("}|--|{", ArrowType::Arrow, false),
                ("|o--||", ArrowType::Arrow, false),
                ("}o--o{", ArrowType::Arrow, false),
                ("--", ArrowType::Line, false),
                ("..", ArrowType::DottedArrow, false),
            ];
            table[i]
        },
    }
}

/// The operator of table `t` in the statement `w`: its position, its length and its arrow (see
/// [`op_scan`]).
pub fn find_operator(w: &Vec<char>, t: OperatorSet) -> (r: Option<(usize, usize, ArrowType, bool)>)
    ensures
        r matches Some((idx, len, arrow, swap)) ==> op_scan(t, w@, 0, None) matches Some((bi, bo))
            && bi == idx && 0 <= bo < ops_of(t).len() && len == ops_of(t)[bo].0.len() && arrow
            == ops_of(t)[bo].1 && swap == ops_of(t)[bo].2 && idx + len <= w@.len(),
        r is None ==> op_scan(t, w@, 0, None) is None,
        r matches Some((idx, len, arrow, swap)) ==> arrow == arrow_by_spelling(t, w@.subrange(idx as int, idx + len)),
{
    proof {
        law_arrow_follows_operator(t, w@);
    }
    let count = op_count(t);
    let mut best: Option<(usize, usize, usize, ArrowType, bool)> = None;
    let mut i: usize = 0;
    while i < count
        invariant
            i <= count == ops_of(t).len(),
            op_scan(t, w@, i as int, match best {
                Some((bi, _, bo, _, _)) => Some((bi as int, bo as int)),
                None => None,
            }) == op_scan(t, w@, 0, None),
            best matches Some((bi, bl, bo, ba, bs)) ==> bo < i && bl == ops_of(t)[bo as int].0.len()
                && ba == ops_of(t)[bo as int].1 && bs == ops_of(t)[bo as int].2 && bi + bl <= w@.len(),
        decreases count - i,
    {
        let (op, arrow, swap) = op_entry(t, i);
        let pc = chars_of(op);
        let found = find_seq_from(w, &pc, 0);
        proof {
            lemma_first_occ(w@, pc@, 0);
        }
        if let Some(idx) = found {
            let keep = match best {
                Some((bi, bl, _, _, _)) => idx > bi || (idx == bi && pc.len() <= bl),
                None => false,
            };
            if !keep {
                best = Some((idx, pc.len(), i, arrow, swap));
            }
        }
        i = i + 1;
    }
    match best {
        Some((bi, bl, _, ba, bs)) => Some((bi, bl, ba, bs)),
        None => None,
    }
}

// ---------------------------------------------------------------------------------------------
// Pipe labels.
/// The `|label|` that may open the right-hand side of an edge, and what follows it.
pub open spec fn spec_pipe_label(rhs: Seq<char>) -> (Option<Seq<char>>, Seq<char>) {
    let t = trim(rhs);
    if t.len() > 0 && t[0] == '|' {
        let after = t.drop_first();
        let k = idx_of(after, '|');
        if k < after.len() {
            (spec_clean_label(after.take(k as int)), trim(after.skip(k as int + 1)))
        } else {
            (None, t)
        }
    } else {
        (None, t)
    }
}

/// [`spec_pipe_label`] of the window `s[lo..hi]`; the remainder is returned as a window.
pub fn extract_pipe_label(s: &Vec<char>, lo: usize, hi: usize) -> (r: (Option<String>, usize, usize))
    requires
        lo <= hi <= s@.len(),
    ensures
        lo <= r.1 <= r.2 <= hi,
        spec_pipe_label(s@.subrange(lo as int, hi as int)) == (
            match r.0 {
                Some(l) => Some(l@),
                None => None,
            },
            s@.subrange(r.1 as int, r.2 as int),
        ),
{
    let (a, b) = trim_window(s, lo, hi);
    let ghost t = s@.subrange(a as int, b as int);
    if a == b || s[a] != '|' {
        return (None, a, b);
    }
    let k = index_of_char(s, a + 1, b, '|');
    assert(t.drop_first() =~= s@.subrange(a + 1, b as int));
    if k >= b {
        return (None, a, b);
    }
    proof {
        crate::text::lemma_idx_of(s@.subrange(a + 1, b as int), '|');
    }
    let label = label_of_window(s, a + 1, k);
    assert(t.drop_first().take(k - a - 1) =~= s@.subrange(a + 1, k as int));
    let (ra, rb) = trim_window(s, k + 1, b);
    assert(t.drop_first().skip(k - a - 1 + 1) =~= s@.subrange(k + 1, b as int));
    (label, ra, rb)
}

// ---------------------------------------------------------------------------------------------
// Headers, directions, statements.
/// A flowchart header: `flowchart…`, `graph` or `graph …`, ignoring ASCII case.
pub open spec fn spec_flowchart_header(line: Seq<char>) -> bool {
    crate::text::occurs_at_ci(line, 0, "flowchart"@) || (line.len() == 5
        && crate::text::occurs_at_ci(line, 0, "graph"@)) || crate::text::occurs_at_ci(
        line,
        0,
        "graph "@,
    )
}

pub fn is_flowchart_header(s: &Vec<char>, lo: usize, hi: usize) -> (r: bool)
    requires
        lo <= hi <= s@.len(),
    ensures
        r == spec_flowchart_header(s@.subrange(lo as int, hi as int)),
{
    crate::text::matches_at_ci(s, lo, hi, 0, &chars_of("flowchart")) || (hi - lo == 5
        && crate::text::matches_at_ci(s, lo, hi, 0, &chars_of("graph")))
        || crate::text::matches_at_ci(s, lo, hi, 0, &chars_of("graph "))
}

/// The direction a token names: `LR`, `RL`, `TB`, `TD` or `BT`.
pub open spec fn direction_of(tok: Seq<char>) -> Option<GraphDirection> {
    if tok == "LR"@ {
        Some(GraphDirection::LR)
    } else if tok == "RL"@ {
        Some(GraphDirection::RL)
    } else if tok == "TB"@ {
        Some(GraphDirection::TB)
    } else if tok == "TD"@ {
        Some(GraphDirection::TD)
    } else if tok == "BT"@ {
        Some(GraphDirection::BT)
    } else {
        None
    }
}

/// The two-letter name of a direction.
pub open spec fn direction_name(d: GraphDirection) -> Seq<char> {
    match d {
        GraphDirection::TB => seq!['T', 'B'],
        GraphDirection::TD => seq!['T', 'D'],
        GraphDirection::LR => seq!['L', 'R'],
        GraphDirection::RL => seq!['R', 'L'],
        GraphDirection::BT => seq!['B', 'T'],
    }
}

/// A direction token names exactly the direction whose name it is: `LR` left to right, `RL` right
/// to left, `TB` and `TD` top down, `BT` bottom up.
pub proof fn law_direction_token_names_its_direction(tok: Seq<char>, d: GraphDirection)
    ensures
        direction_of(tok) == Some(d) <==> tok == direction_name(d),
{
    reveal_strlit("LR");
    reveal_strlit("RL");
    reveal_strlit("TB");
    reveal_strlit("TD");
    reveal_strlit("BT");
    assert("LR"@ =~= seq!['L', 'R']);
    assert("RL"@ =~= seq!['R', 'L']);
    assert("TB"@ =~= seq!['T', 'B']);
    assert("TD"@ =~= seq!['T', 'D']);
    assert("BT"@ =~= seq!['B', 'T']);
    if tok == direction_name(d) {
        assert(tok[0] == direction_name(d)[0] && tok[1] == direction_name(d)[1]);
    }
}

/// The direction named by the first whitespace-separated token of `s` that names one, scanning
/// from index `i`; `st` is the start of the token being read, or `-1` between tokens.
pub open spec fn direction_scan(s: Seq<char>, i: int, st: int) -> Option<GraphDirection>
    decreases s.len() - i,
{
    if i < 0 || i >= s.len() {
        if 0 <= st <= s.len() {
            direction_of(s.subrange(st, s.len() as int))
        } else {
            None
        }
    } else if is_ws(s[i]) {
        if 0 <= st <= i && direction_of(s.subrange(st, i)) is Some {
            direction_of(s.subrange(st, i))
        } else {
            direction_scan(s, i + 1, -1)
        }
    } else {
        direction_scan(
            s,
            i + 1,
            if st >= 0 {
                st
            } else {
                i
            },
        )
    }
}

fn direction_of_window(s: &Vec<char>, a: usize, b: usize) -> (r: Option<GraphDirection>)
    requires
        a <= b <= s@.len(),
    ensures
        r == direction_of(s@.subrange(a as int, b as int)),
{
    let w = window_vec(s, a, b);
    if crate::detect::chars_eq_str(&w, "LR") {
        Some(GraphDirection::LR)
    } else if crate::detect::chars_eq_str(&w, "RL") {
        Some(GraphDirection::RL)
    } else if crate::detect::chars_eq_str(&w, "TB") {
        Some(GraphDirection::TB)
    } else if crate::detect::chars_eq_str(&w, "TD") {
        Some(GraphDirection::TD)
    } else if crate::detect::chars_eq_str(&w, "BT") {
        Some(GraphDirection::BT)
    } else {
        None
    }
}

/// The direction a flowchart header `s[lo..hi]` names (see [`direction_scan`]).
pub fn parse_graph_direction(s: &Vec<char>, lo: usize, hi: usize) -> (r: Option<GraphDirection>)
    requires
        lo <= hi <= s@.len(),
    ensures
        r == direction_scan(s@.subrange(lo as int, hi as int), 0, -1),
{
    let ghost h = s@.subrange(lo as int, hi as int);
    let mut i = lo;
    let mut st: Option<usize> = None;
    while i < hi
        invariant
            lo <= i <= hi <= s@.len(),
            h == s@.subrange(lo as int, hi as int),
            st matches Some(x) ==> lo <= x <= i,
            direction_scan(h, i - lo, match st {
                Some(x) => x - lo,
                None => -1,
            }) == direction_scan(h, 0, -1),
        decreases hi - i,
    {
        assert(h[i - lo] == s@[i as int]);
        if char_is_whitespace(s[i]) {
            if let Some(x) = st {
                assert(h.subrange(x - lo, i - lo) =~= s@.subrange(x as int, i as int));
                let d = direction_of_window(s, x, i);
                if d.is_some() {
                    return d;
                }
            }
            st = None;
        } else if st.is_none() {
            st = Some(i);
        }
        i = i + 1;
    }
    match st {
        Some(x) => {
            assert(h.subrange(x - lo, h.len() as int) =~= s@.subrange(x as int, hi as int));
            direction_of_window(s, x, hi)
        },
        None => None,
    }
}

/// A statement a flowchart consumes without drawing anything: `style …`, `classDef …`,
/// `linkStyle …`, `direction …`, or a subgraph's `end`.
pub open spec fn spec_non_graph_statement(line: Seq<char>) -> bool {
    starts_with(line, "style "@) || starts_with(line, "classDef "@) || starts_with(
        line,
        "linkStyle "@,
    ) || starts_with(line, "direction "@) || line == "end"@
}

pub fn is_non_graph_statement(s: &Vec<char>, lo: usize, hi: usize) -> (r: bool)
    requires
        lo <= hi <= s@.len(),
    ensures
        r == spec_non_graph_statement(s@.subrange(lo as int, hi as int)),
{
    let ghost line = s@.subrange(lo as int, hi as int);
    let w = window_vec(s, lo, hi);
    let n = w.len();
    assert(w@.subrange(0, n as int) =~= w@);
    crate::text::matches_at(&w, 0, n, 0, &chars_of("style "))
        || crate::text::matches_at(&w, 0, n, 0, &chars_of("classDef "))
        || crate::text::matches_at(&w, 0, n, 0, &chars_of("linkStyle "))
        || crate::text::matches_at(&w, 0, n, 0, &chars_of("direction "))
        || crate::detect::chars_eq_str(&w, "end")
}

/// The `;`-separated statements of the line that starts at index `i` of `s` (trimmed, empty
/// ones dropped).
pub open spec fn statements_from(s: Seq<char>, i: int) -> Seq<Seq<char>>
    decreases s.len() - i,
{
    if i < 0 || i > s.len() {
        Seq::empty()
    } else {
        let k = i + idx_of(s.subrange(i, s.len() as int), ';');
        let part = trim(s.subrange(i, k));
        let rest = if k >= s.len() {
            Seq::empty()
        } else {
            statements_from(s, k + 1)
        };
        if part.len() > 0 {
            seq![part] + rest
        } else {
            rest
        }
    }
}

/// The windows of the `;`-separated statements of `s[lo..hi]` (see [`statements_from`]).
pub fn split_statements(s: &Vec<char>, lo: usize, hi: usize) -> (r: Vec<(usize, usize)>)
    requires
        lo <= hi <= s@.len(),
    ensures
        forall|k: int| 0 <= k < r@.len() ==> lo <= (#[trigger] r@[k]).0 <= r@[k].1 <= hi,
        r@.map_values(|p: (usize, usize)| s@.subrange(p.0 as int, p.1 as int)) == statements_from(
            s@.subrange(lo as int, hi as int),
            0,
        ),
{
    let ghost line = s@.subrange(lo as int, hi as int);
    let mut out: Vec<(usize, usize)> = Vec::new();
    let ghost mut done: Seq<Seq<char>> = Seq::empty();
    let mut i = lo;
    loop
        invariant_except_break
            done + statements_from(line, i - lo) == statements_from(line, 0),
        invariant
            lo <= i <= hi <= s@.len(),
            line == s@.subrange(lo as int, hi as int),
            forall|k: int| 0 <= k < out@.len() ==> lo <= (#[trigger] out@[k]).0 <= out@[k].1 <= hi,
            out@.map_values(|p: (usize, usize)| s@.subrange(p.0 as int, p.1 as int)) == done,
        ensures
            done == statements_from(line, 0),
        decreases hi - i,
    {
        let k = index_of_char(s, i, hi, ';');
        let (a, b) = trim_window(s, i, k);
        assert(line.subrange(i - lo, line.len() as int) =~= s@.subrange(i as int, hi as int));
        assert(line.subrange(i - lo, k - lo) =~= s@.subrange(i as int, k as int));
        let ghost part = s@.subrange(a as int, b as int);
        if a < b {
            out.push((a, b));
            proof {
                let nd = done.push(part);
                assert(out@.map_values(|p: (usize, usize)| s@.subrange(p.0 as int, p.1 as int))
                    =~= nd);
                if k >= hi {
                    assert(nd =~= done + statements_from(line, i - lo));
                } else {
                    assert(nd + statements_from(line, k + 1 - lo) =~= done + statements_from(
                        line,
                        i - lo,
                    ));
                }
                done = nd;
            }
        }
        if k >= hi {
            break;
        }
        i = k + 1;
    }
    out
}

} // verus!
