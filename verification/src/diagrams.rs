//! The line-oriented parsers of the diagram kinds other than flowcharts: each line is a node
//! declaration, an edge between node tokens, or a kind-specific statement, and every line that is
//! none of these is reported.
use vstd::prelude::*;

use crate::builder::IrBuilder;
use crate::detect::DiagramType;
use crate::flow_tokens::{
    OperatorSet, extract_pipe_label, find_operator, op_scan, ops_of, parse_graph_direction, parse_node_token,
    spec_node_token, spec_pipe_label, split_statements, statements_from,
};
use crate::flowchart::{
    grows, is_comment_window, lemma_grows_refl, lemma_grows_trans, lemma_intern_step_pub, line_end, line_width,
};
use crate::identifier::{normalize_identifier, spec_normalize_identifier};
use crate::ir::{ArrowType, IrNodeId, NodeShape, Span, clean_label_window, trim_char, trim_char_window};
use crate::text::{
    char_is_whitespace, chars_of, find_seq_from, first_occ_from, idx_of, index_of_char, is_ws, line_message, push_str,
    push_window, starts_with, string_from_chars, string_of_window, trim, trim_window, window_vec,
};

verus! {

// ---------------------------------------------------------------------------------------------
// Builder steps.
/// Intern the node `id` with the optional label `label` and `shape`.
pub(crate) fn intern(b: &mut IrBuilder, id: &str, label: Option<&str>, shape: NodeShape, span: Span) -> (r:
    Option<IrNodeId>)
    requires
        old(b).wf(),
    ensures
        grows(*old(b), *final(b)),
        final(b).ir.edges@ == old(b).ir.edges@,
        final(b).ir.direction == old(b).ir.direction,
        r matches Some(k) ==> k.0 < final(b).ir.nodes@.len() && final(b).ir.nodes@[k.0 as int].id@
            == trim(id@),
        (r is None) == (trim(id@).len() == 0),
        r matches Some(k) ==> crate::builder::intern_post(
            old(b).ir,
            final(b).ir,
            trim(id@),
            crate::builder::opt_text(label),
            shape,
            span,
            k,
        ),
{
    let ghost b0 = *b;
    let r = b.intern_node(id, label, shape, span);
    proof {
        if let Some(k) = r {
            lemma_intern_step_pub(b0, *b, trim(id@), crate::builder::opt_text(label), shape, span, k);
        } else {
            assert forall|i: int| 0 <= i < b0.warnings@.len() implies #[trigger] b.warnings@[i]
                == b0.warnings@[i] by {
                assert(b.warnings@.drop_last()[i] == b.warnings@[i]);
            }
        }
    }
    r
}

/// Append the edge `from -> to` with the optional label `label`.
pub(crate) fn link(b: &mut IrBuilder, from: IrNodeId, to: IrNodeId, arrow: ArrowType, label: Option<&str>, span: Span)
    requires
        old(b).wf(),
        from.0 < old(b).ir.nodes@.len(),
        to.0 < old(b).ir.nodes@.len(),
    ensures
        grows(*old(b), *final(b)),
        final(b).ir.nodes@ == old(b).ir.nodes@,
        final(b).ir.direction == old(b).ir.direction,
        final(b).ir.edges@.len() == old(b).ir.edges@.len() + 1,
        crate::builder::labels_extend(old(b).ir, final(b).ir),
        final(b).ir.edges@.last().from == crate::ir::IrEndpoint::Node(from),
        final(b).ir.edges@.last().to == crate::ir::IrEndpoint::Node(to),
        final(b).ir.edges@.last().arrow == arrow,
{
    b.push_edge(from, to, arrow, label, span);
    proof {
        assert forall|k: int| 0 <= k < old(b).ir.edges@.len() implies #[trigger] b.ir.edges@[k]
            == old(b).ir.edges@[k] by {
            assert(b.ir.edges@.drop_last()[k] == b.ir.edges@[k]);
        }
    }
}

/// Append the warning `Line <n>: <text><s[a..e]>`.
pub(crate) fn warn_line(b: &mut IrBuilder, line_number: usize, text: &str, s: &Vec<char>, a: usize, e: usize)
    requires
        old(b).wf(),
        a <= e <= s@.len(),
    ensures
        grows(*old(b), *final(b)),
        final(b).ir == old(b).ir,
        final(b).warnings@.len() == old(b).warnings@.len() + 1,
{
    let mut m = line_message(line_number, text);
    push_window(&mut m, s, a, e);
    warn_text(b, m);
}

/// Append the warning `text`.
pub(crate) fn warn_text(b: &mut IrBuilder, text: Vec<char>)
    requires
        old(b).wf(),
    ensures
        grows(*old(b), *final(b)),
        final(b).ir == old(b).ir,
        final(b).warnings@.len() == old(b).warnings@.len() + 1,
{
    b.add_warning(string_from_chars(&text));
    proof {
        assert forall|i: int| 0 <= i < old(b).warnings@.len() implies #[trigger] b.warnings@[i]
            == old(b).warnings@[i] by {
            assert(b.warnings@.drop_last()[i] == b.warnings@[i]);
        }
    }
}

// ---------------------------------------------------------------------------------------------
// Windows.
/// Whether `s[a..e]` starts with `p`.
pub(crate) fn begins(s: &Vec<char>, a: usize, e: usize, p: &str) -> (r: bool)
    requires
        a <= e <= s@.len(),
    ensures
        r == starts_with(s@.subrange(a as int, e as int), p@),
{
    crate::text::matches_at(s, a, e, 0, &chars_of(p))
}

/// The index just past the prefix `p` of `s[a..e]`, when it starts with `p`.
pub(crate) fn after(s: &Vec<char>, a: usize, e: usize, p: &str) -> (r: Option<usize>)
    requires
        a <= e <= s@.len(),
    ensures
        (r is Some) == starts_with(s@.subrange(a as int, e as int), p@),
        r matches Some(x) ==> x == a + p@.len() && x <= e,
{
    let pc = chars_of(p);
    if crate::text::matches_at(s, a, e, 0, &pc) {
        Some(a + pc.len())
    } else {
        None
    }
}

/// Whether `s[a..e]` is `p`.
pub(crate) fn is_word(s: &Vec<char>, a: usize, e: usize, p: &str) -> (r: bool)
    requires
        a <= e <= s@.len(),
    ensures
        r == (s@.subrange(a as int, e as int) == p@),
{
    let pc = chars_of(p);
    let r = e - a == pc.len() && crate::text::matches_at(s, a, e, 0, &pc);
    proof {
        let w = s@.subrange(a as int, e as int);
        if e - a == pc@.len() {
            assert(w.subrange(0, pc@.len() as int) =~= w);
        }
    }
    r
}

/// The end of `s[a..e]` without its trailing run of `c`.
pub(crate) fn strip_end_char(s: &Vec<char>, a: usize, e: usize, c: char) -> (r: usize)
    requires
        a <= e <= s@.len(),
    ensures
        a <= r <= e,
        forall|i: int| r <= i < e ==> s@[i] == c,
        r == a || s@[r - 1] != c,
{
    let mut k = e;
    while k > a && s[k - 1] == c
        invariant
            a <= k <= e <= s@.len(),
            forall|i: int| k <= i < e ==> s@[i] == c,
        decreases k - a,
    {
        k = k - 1;
    }
    k
}

/// The first `sep` in `s[a..e]`: where it starts and where it ends, as indices of `s`.
pub(crate) fn find_in(s: &Vec<char>, a: usize, e: usize, sep: &str) -> (r: Option<(usize, usize)>)
    requires
        a <= e <= s@.len(),
    ensures
        r matches Some((k, m)) ==> a <= k <= m <= e && m == k + sep@.len() && first_occ_from(
            s@.subrange(a as int, e as int),
            sep@,
            0,
        ) == Some(k - a),
        r is None ==> first_occ_from(s@.subrange(a as int, e as int), sep@, 0) is None,
{
    let w = window_vec(s, a, e);
    let p = chars_of(sep);
    match find_seq_from(&w, &p, 0) {
        Some(k) => {
            proof {
                crate::text::lemma_first_occ(w@, p@, 0);
            }
            Some((a + k, a + k + p.len()))
        },
        None => None,
    }
}

/// Where the whitespace run of `t` starting at `i` ends.
pub open spec fn ws_end(t: Seq<char>, i: int) -> int
    decreases t.len() - i,
{
    if 0 <= i < t.len() && is_ws(t[i]) {
        ws_end(t, i + 1)
    } else {
        i
    }
}

/// The whitespace run at `i` ends within `t`, at or after `i`.
pub proof fn lemma_ws_end(t: Seq<char>, i: int)
    requires
        0 <= i <= t.len(),
    ensures
        i <= ws_end(t, i) <= t.len(),
    decreases t.len() - i,
{
    if i < t.len() && is_ws(t[i]) {
        lemma_ws_end(t, i + 1);
    }
}

/// Where the word of `t` starting at `i` ends (at the next whitespace).
pub open spec fn word_end(t: Seq<char>, i: int) -> int
    decreases t.len() - i,
{
    if 0 <= i < t.len() && !is_ws(t[i]) {
        word_end(t, i + 1)
    } else {
        i
    }
}

/// The first whitespace-separated word of `t` (empty when there is none).
pub open spec fn first_word(t: Seq<char>) -> Seq<char> {
    t.subrange(ws_end(t, 0), word_end(t, ws_end(t, 0)))
}

/// The first whitespace-separated token of `s[a..e]` (empty when there is none).
pub(crate) fn first_token(s: &Vec<char>, a: usize, e: usize) -> (r: (usize, usize))
    requires
        a <= e <= s@.len(),
    ensures
        a <= r.0 <= r.1 <= e,
        r.0 == a + ws_end(s@.subrange(a as int, e as int), 0),
        r.1 == a + word_end(s@.subrange(a as int, e as int), ws_end(s@.subrange(a as int, e as int), 0)),
        s@.subrange(r.0 as int, r.1 as int) == first_word(s@.subrange(a as int, e as int)),
{
    let ghost t = s@.subrange(a as int, e as int);
    let mut i = a;
    while i < e && char_is_whitespace(s[i])
        invariant
            a <= i <= e <= s@.len(),
            t == s@.subrange(a as int, e as int),
            ws_end(t, i - a) == ws_end(t, 0),
        decreases e - i,
    {
        assert(t[i - a] == s@[i as int]);
        i = i + 1;
    }
    if i < e {
        assert(t[i - a] == s@[i as int]);
    }
    assert(ws_end(t, i - a) == i - a);
    let mut j = i;
    while j < e && !char_is_whitespace(s[j])
        invariant
            a <= i <= j <= e <= s@.len(),
            t == s@.subrange(a as int, e as int),
            word_end(t, j - a) == word_end(t, i - a),
        decreases e - j,
    {
        assert(t[j - a] == s@[j as int]);
        j = j + 1;
    }
    if j < e {
        assert(t[j - a] == s@[j as int]);
    }
    assert(word_end(t, j - a) == j - a);
    assert(s@.subrange(i as int, j as int) =~= t.subrange(i - a, j - a));
    (i, j)
}

/// The cleaned label of `s[a..e]` (see [`crate::ir::spec_clean_label`]).
pub(crate) fn clean_window(s: &Vec<char>, a: usize, e: usize) -> (r: Option<String>)
    requires
        a <= e <= s@.len(),
    ensures
        r matches Some(t) ==> crate::ir::spec_clean_label(s@.subrange(a as int, e as int)) == Some(t@),
        r is None ==> crate::ir::spec_clean_label(s@.subrange(a as int, e as int)) is None,
{
    match clean_label_window(s, a, e) {
        Some((x, y)) => Some(string_of_window(s, x, y)),
        None => None,
    }
}

/// The normalised identifier of `s[a..e]`.
pub(crate) fn identifier_of(s: &Vec<char>, a: usize, e: usize) -> (r: String)
    requires
        a <= e <= s@.len(),
    ensures
        r@ == spec_normalize_identifier(s@.subrange(a as int, e as int), false),
{
    let raw = string_of_window(s, a, e);
    normalize_identifier(raw.as_str())
}

fn opt_str(o: &Option<String>) -> (r: Option<&str>)
    ensures
        crate::builder::opt_text(r) == match o {
            Some(x) => Some(x@),
            None => None::<Seq<char>>,
        },
{
    match o {
        Some(x) => Some(x.as_str()),
        None => None,
    }
}

/// The name before the first `:` of `s[a..e]`, trimmed and stripped of surrounding quotes, when
/// it is not empty.
pub open spec fn colon_name(t: Seq<char>) -> Option<Seq<char>> {
    let k = idx_of(t, ':');
    if k >= t.len() {
        None
    } else {
        let n = trim(trim_char(trim_char(trim(t.subrange(0, k as int)), '"'), '\''));
        if n.len() == 0 {
            None
        } else {
            Some(n)
        }
    }
}

pub(crate) fn name_before_colon(s: &Vec<char>, a: usize, e: usize) -> (r: Option<(usize, usize)>)
    requires
        a <= e <= s@.len(),
    ensures
        r matches Some((x, y)) ==> a <= x < y <= e && colon_name(s@.subrange(a as int, e as int)) == Some(
            s@.subrange(x as int, y as int),
        ),
        r is None ==> colon_name(s@.subrange(a as int, e as int)) is None,
{
    let c = index_of_char(s, a, e, ':');
    proof {
        crate::text::lemma_idx_of(s@.subrange(a as int, e as int), ':');
        assert(s@.subrange(a as int, c as int) =~= s@.subrange(a as int, e as int).subrange(0, c - a));
    }
    if c >= e {
        return None;
    }
    let (x1, y1) = trim_window(s, a, c);
    let (x2, y2) = trim_char_window(s, x1, y1, '"');
    let (x3, y3) = trim_char_window(s, x2, y2, '\'');
    let (x4, y4) = trim_window(s, x3, y3);
    if x4 == y4 {
        None
    } else {
        Some((x4, y4))
    }
}

// ---------------------------------------------------------------------------------------------
// Node tokens and edges between them.
/// Whether `t` is an edge `left <op> [|label|] right` with the operators of `set`: an operator
/// splits it into two non-empty sides that read as node tokens with non-empty ids.
pub open spec fn token_edge_stmt(set: OperatorSet, t: Seq<char>) -> bool {
    match op_scan(set, t, 0, None) {
        None => false,
        Some((idx, bo)) => {
            let len = ops_of(set)[bo].0.len();
            let lt = trim(t.subrange(0, idx));
            let rt = trim(t.subrange(idx + len, t.len() as int));
            lt.len() > 0 && rt.len() > 0 && match (spec_node_token(lt), spec_node_token(spec_pipe_label(rt).1)) {
                (Some(l), Some(r)) => trim(l.id).len() > 0 && trim(r.id).len() > 0,
                _ => false,
            }
        },
    }
}

/// How many of the statements `stmts` are edges with the operators of `set`.
pub open spec fn token_edge_count(set: OperatorSet, stmts: Seq<Seq<char>>) -> nat
    decreases stmts.len(),
{
    if stmts.len() == 0 {
        0
    } else {
        token_edge_count(set, stmts.drop_last()) + if token_edge_stmt(set, stmts.last()) {
            1nat
        } else {
            0nat
        }
    }
}

/// How many edges the `;`-separated statements of the line `l` hold, with the operators of `set`.
pub open spec fn line_token_edges(set: OperatorSet, l: Seq<char>) -> nat {
    token_edge_count(set, statements_from(l, 0))
}

/// Lower `s[a..e]` as `left <op> [|label|] right` with the operators of `set`. Returns whether
/// both endpoints parsed and were interned, in which case one edge was appended.
pub(crate) fn lower_token_edge(b: &mut IrBuilder, s: &Vec<char>, a: usize, e: usize, set: OperatorSet, span: Span) -> (r:
    bool)
    requires
        old(b).wf(),
        a <= e <= s@.len(),
    ensures
        grows(*old(b), *final(b)),
        final(b).ir.direction == old(b).ir.direction,
        r ==> final(b).ir.edges@.len() == old(b).ir.edges@.len() + 1,
        !r ==> final(b).ir.edges@ == old(b).ir.edges@,
        r == token_edge_stmt(set, s@.subrange(a as int, e as int)),
{
    proof {
        lemma_grows_refl(*b);
    }
    let ghost t = s@.subrange(a as int, e as int);
    let w = window_vec(s, a, e);
    let (idx, len, arrow, swap) = match find_operator(&w, set) {
        Some(x) => x,
        None => return false,
    };
    assert(s@.subrange(a as int, a + idx) =~= t.subrange(0, idx as int));
    assert(s@.subrange(a + idx + len, e as int) =~= t.subrange(idx + len, t.len() as int));
    let (la, lb) = trim_window(s, a, a + idx);
    let (ra, rb) = trim_window(s, a + idx + len, e);
    if la == lb || ra == rb {
        return false;
    }
    let (label, pa, pb) = extract_pipe_label(s, ra, rb);
    let left = match parse_node_token(s, la, lb) {
        Some(t) => t,
        None => return false,
    };
    let right = match parse_node_token(s, pa, pb) {
        Some(t) => t,
        None => return false,
    };
    // A head written on the left (`A <-- B`) is an edge from the right-hand side.
    let (source, target) = if swap {
        (right, left)
    } else {
        (left, right)
    };
    let ghost b0 = *b;
    let from = intern(b, source.id.as_str(), opt_str(&source.label), source.shape, span);
    let ghost b1 = *b;
    let to = intern(b, target.id.as_str(), opt_str(&target.label), target.shape, span);
    proof {
        lemma_grows_trans(b0, b1, *b);
    }
    match (from, to) {
        (Some(f), Some(t)) => {
            let ghost b2 = *b;
            link(b, f, t, arrow, opt_str(&label), span);
            proof {
                lemma_grows_trans(b0, b2, *b);
            }
            true
        },
        _ => false,
    }
}

/// Lower the `;`-separated statements of `s[a..e]` as edges with the operators of `set` or as
/// node tokens. Returns whether any of them was one.
pub(crate) fn lower_token_statements(
    b: &mut IrBuilder,
    s: &Vec<char>,
    a: usize,
    e: usize,
    set: OperatorSet,
    span: Span,
) -> (r: bool)
    requires
        old(b).wf(),
        a <= e <= s@.len(),
    ensures
        grows(*old(b), *final(b)),
        final(b).ir.direction == old(b).ir.direction,
        final(b).ir.edges@.len() == old(b).ir.edges@.len() + line_token_edges(set, s@.subrange(a as int, e as int)),
{
    let ghost b0 = *b;
    proof {
        lemma_grows_refl(*b);
    }
    let parts = split_statements(s, a, e);
    let ghost stmts = statements_from(s@.subrange(a as int, e as int), 0);
    let mut parsed = false;
    let mut p: usize = 0;
    while p < parts.len()
        invariant
            p <= parts@.len() == stmts.len(),
            forall|k: int| 0 <= k < parts@.len() ==> a <= (#[trigger] parts@[k]).0 <= parts@[k].1 <= e,
            forall|k: int|
                0 <= k < parts@.len() ==> s@.subrange((#[trigger] parts@[k]).0 as int, parts@[k].1 as int) == stmts[k],
            e <= s@.len(),
            grows(b0, *b),
            b.ir.direction == b0.ir.direction,
            b.ir.edges@.len() == b0.ir.edges@.len() + token_edge_count(set, stmts.take(p as int)),
        decreases parts@.len() - p,
    {
        let (pa, pb) = parts[p];
        let ghost bp = *b;
        assert(stmts.take(p + 1).drop_last() =~= stmts.take(p as int));
        assert(stmts.take(p + 1).last() == stmts[p as int]);
        if lower_token_edge(b, s, pa, pb, set, span) {
            parsed = true;
        } else if let Some(tok) = parse_node_token(s, pa, pb) {
            let ghost bq = *b;
            let _ = intern(b, tok.id.as_str(), opt_str(&tok.label), tok.shape, span);
            proof {
                lemma_grows_trans(bp, bq, *b);
            }
            parsed = true;
        }
        proof {
            lemma_grows_trans(b0, bp, *b);
        }
        p = p + 1;
    }
    assert(stmts.take(p as int) =~= stmts);
    parsed
}

// ---------------------------------------------------------------------------------------------
// Declarations.
/// `id as label` (sequence participants) or `label as id` (states), or a bare id: the id's
/// window and the label's, each trimmed.
fn split_as(s: &Vec<char>, a: usize, e: usize, label_first: bool) -> (r: ((usize, usize), Option<(usize, usize)>))
    requires
        a <= e <= s@.len(),
    ensures
        a <= r.0.0 <= r.0.1 <= e,
        r.1 matches Some((x, y)) ==> a <= x <= y <= e,
        s@.subrange(r.0.0 as int, r.0.1 as int) == decl_id_part(s@.subrange(a as int, e as int), label_first),
{
    match find_in(s, a, e, " as ") {
        Some((k, m)) => {
            let ghost t = s@.subrange(a as int, e as int);
            proof {
                assert(s@.subrange(a as int, k as int) =~= t.take(k - a));
                assert(s@.subrange(m as int, e as int) =~= t.subrange(k - a + " as "@.len(), t.len() as int));
            }
            let left = trim_window(s, a, k);
            let right = trim_window(s, m, e);
            if label_first {
                (right, Some(left))
            } else {
                (left, Some(right))
            }
        },
        None => (trim_window(s, a, e), None),
    }
}

/// The id part of a declaration `t`: the side of its first ` as ` that holds the id (the right one
/// when the label comes first), trimmed, or all of `t` trimmed.
pub open spec fn decl_id_part(t: Seq<char>, label_first: bool) -> Seq<char> {
    match first_occ_from(t, " as "@, 0) {
        Some(k) => if label_first {
            trim(t.subrange(k + " as "@.len(), t.len() as int))
        } else {
            trim(t.take(k))
        },
        None => trim(t),
    }
}

/// The normalised id that the declaration `s[a..e]` names.
pub open spec fn decl_id(t: Seq<char>, label_first: bool) -> Seq<char> {
    spec_normalize_identifier(decl_id_part(trim(t), label_first), false)
}

/// Register a participant (`id` or `id as label`) or a state (`id` or `label as id`) declared by
/// `s[a..e]`, with `shape`. Returns whether it named a usable id.
fn register_declaration(
    b: &mut IrBuilder,
    s: &Vec<char>,
    a: usize,
    e: usize,
    label_first: bool,
    shape: NodeShape,
    span: Span,
) -> (r: bool)
    requires
        old(b).wf(),
        a <= e <= s@.len(),
    ensures
        grows(*old(b), *final(b)),
        final(b).ir.direction == old(b).ir.direction,
        final(b).ir.edges@ == old(b).ir.edges@,
        r == (trim(s@.subrange(a as int, e as int)).len() > 0 && decl_id(s@.subrange(a as int, e as int), label_first).len() > 0),
        !r ==> *final(b) == *old(b),
        r && trim(decl_id(s@.subrange(a as int, e as int), label_first)).len() > 0 ==> final(b).ir.has_node(
            trim(decl_id(s@.subrange(a as int, e as int), label_first)),
        ),
{
    proof {
        lemma_grows_refl(*b);
    }
    let (ta, tb) = trim_window(s, a, e);
    if ta == tb {
        return false;
    }
    let ((ia, ib), raw_label) = split_as(s, ta, tb, label_first);
    let id = identifier_of(s, ia, ib);
    if id.as_str().is_empty() {
        return false;
    }
    let label = match raw_label {
        Some((x, y)) => match clean_window(s, x, y) {
            Some(l) => Some(l),
            None => clean_window(s, ia, ib),
        },
        None => clean_window(s, ia, ib),
    };
    let k = intern(b, id.as_str(), opt_str(&label), shape, span);
    proof {
        if let Some(k) = k {
            assert(b.ir.nodes@[k.0 as int].id@ == trim(id@));
        }
    }
    true
}

/// The target side of a message's right-hand text `rt`: the text before its first `:`, trimmed.
pub open spec fn message_target(rt: Seq<char>) -> Seq<char> {
    let k = idx_of(rt, ':');
    if k < rt.len() {
        trim(rt.subrange(0, k as int))
    } else {
        rt
    }
}

/// Whether `t` is a sequence message `from <op> to[: label]`: a sequence operator splits it into
/// two non-empty sides whose normalised ids (the target's taken before any `:`) are not blank.
pub open spec fn seq_message(t: Seq<char>) -> bool {
    match op_scan(OperatorSet::Sequence, t, 0, None) {
        None => false,
        Some((idx, bo)) => {
            let len = ops_of(OperatorSet::Sequence)[bo].0.len();
            let lt = trim(t.subrange(0, idx));
            let rt = trim(t.subrange(idx + len, t.len() as int));
            &&& lt.len() > 0
            &&& rt.len() > 0
            &&& trim(spec_normalize_identifier(lt, false)).len() > 0
            &&& trim(spec_normalize_identifier(message_target(rt), false)).len() > 0
        },
    }
}

/// `from <op> to[: label]` with the sequence operators. Returns whether it was one.
fn lower_sequence_message(b: &mut IrBuilder, s: &Vec<char>, a: usize, e: usize, span: Span) -> (r: bool)
    requires
        old(b).wf(),
        a <= e <= s@.len(),
    ensures
        grows(*old(b), *final(b)),
        final(b).ir.direction == old(b).ir.direction,
        r == seq_message(s@.subrange(a as int, e as int)),
        r ==> final(b).ir.edges@.len() == old(b).ir.edges@.len() + 1,
        !r ==> final(b).ir.edges@ == old(b).ir.edges@,
        r ==> final(b).ir.edges@.last().arrow == crate::flow_tokens::sequence_arrow_of(
            crate::flow_tokens::written_op(OperatorSet::Sequence, s@.subrange(a as int, e as int)),
        ),
{
    proof {
        lemma_grows_refl(*b);
    }
    let ghost t = s@.subrange(a as int, e as int);
    let w = window_vec(s, a, e);
    let (idx, len, arrow, _) = match find_operator(&w, OperatorSet::Sequence) {
        Some(x) => x,
        None => return false,
    };
    assert(s@.subrange(a as int, a + idx) =~= t.subrange(0, idx as int));
    assert(s@.subrange(a + idx + len, e as int) =~= t.subrange(idx + len, t.len() as int));
    let (la, lb) = trim_window(s, a, a + idx);
    let (ra, rb) = trim_window(s, a + idx + len, e);
    if la == lb || ra == rb {
        return false;
    }
    let c = index_of_char(s, ra, rb, ':');
    proof {
        let rt = s@.subrange(ra as int, rb as int);
        crate::text::lemma_idx_of(rt, ':');
        assert(s@.subrange(ra as int, c as int) =~= rt.subrange(0, c - ra));
    }
    let ((ta, tb), label) = if c < rb {
        (trim_window(s, ra, c), clean_window(s, c + 1, rb))
    } else {
        ((ra, rb), None)
    };
    let from_id = identifier_of(s, la, lb);
    let to_id = identifier_of(s, ta, tb);
    if from_id.as_str().is_empty() || to_id.as_str().is_empty() {
        return false;
    }
    let ghost b0 = *b;
    let from = intern(b, from_id.as_str(), opt_str(&clean_window(s, la, lb)), NodeShape::Rect, span);
    let ghost b1 = *b;
    let to = intern(b, to_id.as_str(), opt_str(&clean_window(s, ta, tb)), NodeShape::Rect, span);
    proof {
        lemma_grows_trans(b0, b1, *b);
    }
    match (from, to) {
        (Some(f), Some(t)) => {
            let ghost b2 = *b;
            link(b, f, t, arrow, opt_str(&label), span);
            proof {
                lemma_grows_trans(b0, b2, *b);
            }
            true
        },
        _ => false,
    }
}

/// Whether `t` is a relation `left -> right` between requirements: around its first `->`, the
/// first word on each side normalises to an id that is not blank.
pub open spec fn requirement_relation(t: Seq<char>) -> bool {
    match first_occ_from(t, "->"@, 0) {
        None => false,
        Some(k) => {
            &&& trim(spec_normalize_identifier(first_word(t.subrange(0, k)), false)).len() > 0
            &&& trim(spec_normalize_identifier(first_word(t.subrange(k + 2, t.len() as int)), false)).len() > 0
        },
    }
}

/// `left -> right` between requirements: the first word on each side, normalised, labelled with
/// itself. Returns whether both sides named a node.
fn lower_requirement_relation(b: &mut IrBuilder, s: &Vec<char>, a: usize, e: usize, span: Span) -> (r: bool)
    requires
        old(b).wf(),
        a <= e <= s@.len(),
    ensures
        grows(*old(b), *final(b)),
        final(b).ir.direction == old(b).ir.direction,
        r == requirement_relation(s@.subrange(a as int, e as int)),
        r ==> final(b).ir.edges@.len() == old(b).ir.edges@.len() + 1,
        !r ==> final(b).ir.edges@ == old(b).ir.edges@,
{
    proof {
        reveal_strlit("->");
    }
    let ghost t = s@.subrange(a as int, e as int);
    proof {
        lemma_grows_refl(*b);
    }
    let (k, m) = match find_in(s, a, e, "->") {
        Some(x) => x,
        None => return false,
    };
    proof {
        crate::text::lemma_first_occ(t, "->"@, 0);
        assert(s@.subrange(a as int, k as int) =~= t.subrange(0, k - a));
        assert(s@.subrange(m as int, e as int) =~= t.subrange(k - a + 2, t.len() as int));
    }
    let (la, lb) = first_token(s, a, k);
    let (ra, rb) = first_token(s, m, e);
    let left_id = identifier_of(s, la, lb);
    let right_id = identifier_of(s, ra, rb);
    if left_id.as_str().is_empty() || right_id.as_str().is_empty() {
        return false;
    }
    let ghost b0 = *b;
    let from = intern(b, left_id.as_str(), Some(left_id.as_str()), NodeShape::Rect, span);
    let ghost b1 = *b;
    let to = intern(b, right_id.as_str(), Some(right_id.as_str()), NodeShape::Rect, span);
    proof {
        lemma_grows_trans(b0, b1, *b);
    }
    match (from, to) {
        (Some(f), Some(t)) => {
            let ghost b2 = *b;
            link(b, f, t, ArrowType::Arrow, None, span);
            proof {
                lemma_grows_trans(b0, b2, *b);
            }
            true
        },
        _ => false,
    }
}

/// The indentation of the line `l`: one for each leading space, two for each leading tab.
pub open spec fn indent_width(l: Seq<char>) -> nat
    decreases l.len(),
{
    if l.len() == 0 {
        0
    } else if l[0] == ' ' {
        1 + indent_width(l.drop_first())
    } else if l[0] == '\t' {
        2 + indent_width(l.drop_first())
    } else {
        0
    }
}

/// The indentation width of the line `s[a..e]`: a space counts one, a tab two (saturating at the
/// largest `usize`).
fn leading_indent_width(s: &Vec<char>, a: usize, e: usize) -> (r: usize)
    requires
        a <= e <= s@.len(),
    ensures
        r == (if indent_width(s@.subrange(a as int, e as int)) > usize::MAX {
            usize::MAX as nat
        } else {
            indent_width(s@.subrange(a as int, e as int))
        }),
{
    let ghost whole = indent_width(s@.subrange(a as int, e as int));
    let ghost mut pre: nat = 0;
    let mut width: usize = 0;
    let mut i = a;
    while i < e
        invariant_except_break
            pre + indent_width(s@.subrange(i as int, e as int)) == whole,
        invariant
            a <= i <= e <= s@.len(),
            whole == indent_width(s@.subrange(a as int, e as int)),
            width == (if pre > usize::MAX {
                usize::MAX as nat
            } else {
                pre
            }),
        ensures
            pre == whole,
        decreases e - i,
    {
        proof {
            assert(s@.subrange(i as int, e as int).drop_first() =~= s@.subrange(i + 1, e as int));
        }
        if s[i] == ' ' {
            width = width.saturating_add(1);
            proof {
                pre = pre + 1;
            }
        } else if s[i] == '\t' {
            width = width.saturating_add(2);
            proof {
                pre = pre + 2;
            }
        } else {
            break;
        }
        i = i + 1;
    }
    width
}

// ---------------------------------------------------------------------------------------------
// The per-document state.
/// What the line parsers remember between lines.
pub struct LineState {
    /// The previous journey step or timeline event.
    pub previous: Option<IrNodeId>,
    /// The entity whose `{ … }` block is open.
    pub entity: Option<IrNodeId>,
    /// The current gantt section.
    pub section: Vec<char>,
    /// Whether a requirement's `{ … }` block is open.
    pub in_block: bool,
    /// The mindmap nodes on the path to the current line, with their indentation.
    pub ancestry: Vec<(usize, IrNodeId)>,
    /// The git graph branches and their heads.
    pub branches: Vec<(String, IrNodeId)>,
    /// The checked-out branch.
    pub branch: String,
    /// How many commits were given a generated id.
    pub commits: usize,
}

impl LineState {
    /// Every node the state names exists in `b`.
    pub open spec fn ok(&self, b: IrBuilder) -> bool {
        let n = b.ir.nodes@.len();
        &&& self.previous matches Some(k) ==> k.0 < n
        &&& self.entity matches Some(k) ==> k.0 < n
        &&& forall|i: int| 0 <= i < self.ancestry@.len() ==> (#[trigger] self.ancestry@[i]).1.0 < n
        &&& forall|i: int| 0 <= i < self.branches@.len() ==> (#[trigger] self.branches@[i]).1.0 < n
    }
}

pub proof fn lemma_state_grows(st: &LineState, b0: IrBuilder, b1: IrBuilder)
    requires
        st.ok(b0),
        grows(b0, b1),
    ensures
        st.ok(b1),
{
}

/// The diagram kinds parsed line by line here.
pub open spec fn has_line_parser(t: DiagramType) -> bool {
    ||| t == DiagramType::Sequence
    ||| t == DiagramType::Class
    ||| t == DiagramType::State
    ||| t == DiagramType::Requirement
    ||| t == DiagramType::Mindmap
    ||| t == DiagramType::Journey
    ||| t == DiagramType::Timeline
    ||| t == DiagramType::PacketBeta
    ||| t == DiagramType::Gantt
    ||| t == DiagramType::Pie
    ||| t == DiagramType::QuadrantChart
    ||| t == DiagramType::Er
    ||| t == DiagramType::GitGraph
}

/// `direction <dir>`: the diagram's direction, when the line names one.
pub(crate) fn apply_direction(b: &mut IrBuilder, s: &Vec<char>, ta: usize, tb: usize)
    requires
        old(b).wf(),
        ta <= tb <= s@.len(),
    ensures
        grows(*old(b), *final(b)),
        final(b).ir.nodes@ == old(b).ir.nodes@,
        final(b).ir.edges@ == old(b).ir.edges@,
        final(b).warnings@ == old(b).warnings@,
        final(b).ir == match crate::flow_tokens::direction_scan(s@.subrange(ta as int, tb as int), 0, -1) {
            Some(d) => crate::ir::MermaidDiagramIr { direction: d, ..old(b).ir },
            None => old(b).ir,
        },
{
    if let Some(d) = parse_graph_direction(s, ta, tb) {
        b.set_direction(d);
    }
    proof {
        assert(grows(*old(b), *b));
    }
}

/// A `direction …` or `title …` line, which is a setting and never content.
fn is_setting_line(s: &Vec<char>, ta: usize, tb: usize) -> (r: bool)
    requires
        ta <= tb <= s@.len(),
    ensures
        r == (starts_with(s@.subrange(ta as int, tb as int), "direction "@) || starts_with(
            s@.subrange(ta as int, tb as int),
            "title "@,
        )),
{
    begins(s, ta, tb, "direction ") || begins(s, ta, tb, "title ")
}

// ---------------------------------------------------------------------------------------------
// One line of each kind.
/// How many edges the sequence line `l` adds: one for a message, none for the header and the
/// participant and actor declarations.
pub open spec fn seq_line_edges(l: Seq<char>) -> nat {
    if starts_with(l, "sequenceDiagram"@) || starts_with(l, "participant "@) || starts_with(l, "actor "@) {
        0
    } else if seq_message(l) {
        1
    } else {
        0
    }
}

/// The sum of `f` over the trimmed lines of `s` from index `i` on that are neither blank nor
/// comments.
pub open spec fn line_sum(s: Seq<char>, i: int, f: spec_fn(Seq<char>) -> nat) -> nat
    decreases s.len() - i,
{
    if i < 0 || i > s.len() {
        0
    } else {
        let nl = line_end(s, i);
        let l = trim(s.subrange(i, nl));
        (if l.len() > 0 && !starts_with(l, "%%"@) {
            f(l)
        } else {
            0nat
        }) + if nl >= s.len() {
            0nat
        } else {
            line_sum(s, nl + 1, f)
        }
    }
}

/// One line's share of [`line_sum`].
pub open spec fn line_share_ok(s: Seq<char>, i: int, nl: int, l: Seq<char>, f: spec_fn(Seq<char>) -> nat) -> bool {
    &&& i <= nl <= s.len()
    &&& line_sum(s, i, f) == (if l.len() > 0 && !starts_with(l, "%%"@) {
        f(l)
    } else {
        0nat
    }) + if nl >= s.len() {
        0nat
    } else {
        line_sum(s, nl + 1, f)
    }
}

proof fn lemma_line_sum_step(s: Seq<char>, i: int, f: spec_fn(Seq<char>) -> nat)
    requires
        0 <= i <= s.len(),
    ensures
        line_share_ok(s, i, line_end(s, i), trim(s.subrange(i, line_end(s, i))), f),
{
    crate::text::lemma_idx_of(s.subrange(i, s.len() as int), '\n');
}

/// The edges a sequence line adds, as a function.
pub open spec fn seq_line_fn() -> spec_fn(Seq<char>) -> nat {
    |l: Seq<char>| seq_line_edges(l)
}

/// How many edges the sequence document `s` holds: one per message line.
pub open spec fn sequence_edges(s: Seq<char>) -> nat {
    line_sum(s, 0, seq_line_fn())
}

fn sequence_line(b: &mut IrBuilder, s: &Vec<char>, ta: usize, tb: usize, line_number: usize, span: Span)
    requires
        old(b).wf(),
        ta <= tb <= s@.len(),
    ensures
        grows(*old(b), *final(b)),
        final(b).ir.edges@.len() == old(b).ir.edges@.len() + seq_line_edges(s@.subrange(ta as int, tb as int)),
{
    let ghost b0 = *b;
    proof {
        lemma_grows_refl(*b);
    }
    if begins(s, ta, tb, "sequenceDiagram") {
        return;
    }
    if let Some(x) = after(s, ta, tb, "participant ") {
        if !register_declaration(b, s, x, tb, false, NodeShape::Rect, span) {
            let ghost b1 = *b;
            warn_line(b, line_number, "unable to parse participant declaration: ", s, ta, tb);
            proof {
                lemma_grows_trans(b0, b1, *b);
            }
        }
        return;
    }
    if let Some(x) = after(s, ta, tb, "actor ") {
        if !register_declaration(b, s, x, tb, false, NodeShape::Rect, span) {
            let ghost b1 = *b;
            warn_line(b, line_number, "unable to parse actor declaration: ", s, ta, tb);
            proof {
                lemma_grows_trans(b0, b1, *b);
            }
        }
        return;
    }
    if lower_sequence_message(b, s, ta, tb, span) {
        return;
    }
    let ghost b1 = *b;
    warn_line(b, line_number, "unsupported sequence syntax: ", s, ta, tb);
    proof {
        lemma_grows_trans(b0, b1, *b);
    }
}

/// How many edges the class line `l` adds: its relations, unless it is the header, a setting
/// or a `class` declaration.
pub open spec fn class_line_edges(l: Seq<char>) -> nat {
    if starts_with(l, "classDiagram"@) || starts_with(l, "direction "@) || starts_with(l, "style "@)
        || starts_with(l, "classDef "@) || starts_with(l, "linkStyle "@) || starts_with(l, "class "@) {
        0
    } else {
        line_token_edges(OperatorSet::Class, l)
    }
}

/// The edges a class line adds, as a function.
pub open spec fn class_line_fn() -> spec_fn(Seq<char>) -> nat {
    |l: Seq<char>| class_line_edges(l)
}

/// How many edges the class document `s` holds.
pub open spec fn class_edges(s: Seq<char>) -> nat {
    line_sum(s, 0, class_line_fn())
}

fn class_line(b: &mut IrBuilder, s: &Vec<char>, ta: usize, tb: usize, line_number: usize, span: Span)
    requires
        old(b).wf(),
        ta <= tb <= s@.len(),
    ensures
        grows(*old(b), *final(b)),
        final(b).ir.edges@.len() == old(b).ir.edges@.len() + class_line_edges(s@.subrange(ta as int, tb as int)),
{
    let ghost b0 = *b;
    proof {
        lemma_grows_refl(*b);
    }
    if begins(s, ta, tb, "classDiagram") {
        return;
    }
    if begins(s, ta, tb, "direction ") {
        apply_direction(b, s, ta, tb);
        return;
    }
    if begins(s, ta, tb, "style ") || begins(s, ta, tb, "classDef ") || begins(s, ta, tb, "linkStyle ") {
        return;
    }
    if tb > ta && s[tb - 1] != '{' {
        if let Some(x) = after(s, ta, tb, "class ") {
            // A declaration `class Name`.
            let (na, nb) = trim_window(s, x, tb);
            if let Some(tok) = parse_node_token(s, na, nb) {
                let _ = intern(b, tok.id.as_str(), opt_str(&tok.label), tok.shape, span);
            }
            return;
        }
    }
    if begins(s, ta, tb, "class ") && tb > ta && s[tb - 1] == '{' {
        // Every leading `class` goes, then the trailing braces.
        let mut x = ta;
        loop
            invariant
                ta <= x <= tb <= s@.len(),
            decreases tb - x,
        {
            match after(s, x, tb, "class") {
                Some(y) => {
                    proof {
                        reveal_strlit("class");
                    }
                    x = y;
                },
                None => break,
            }
        }
        let (x1, y1) = trim_window(s, x, tb);
        let y2 = strip_end_char(s, x1, y1, '{');
        let (na, nb) = trim_window(s, x1, y2);
        if let Some(tok) = parse_node_token(s, na, nb) {
            let _ = intern(b, tok.id.as_str(), opt_str(&tok.label), tok.shape, span);
        }
        return;
    }
    let parsed = lower_token_statements(b, s, ta, tb, OperatorSet::Class, span);
    if !parsed && !begins(s, ta, tb, "}") {
        let ghost b1 = *b;
        warn_line(b, line_number, "unsupported class syntax: ", s, ta, tb);
        proof {
            lemma_grows_trans(b0, b1, *b);
        }
    }
}

/// Whether the state line `l` adds nothing whatever: the header, a direction, `[*]`, `{` or `}`.
pub open spec fn state_setting(l: Seq<char>) -> bool {
    starts_with(l, "stateDiagram"@) || starts_with(l, "direction "@) || l == "[*]"@ || l == "{"@ || l == "}"@
}

/// The edges a state line adds at least: its transitions, unless it is a setting or may be a
/// `class` assignment or a `state` declaration.
pub open spec fn state_line_fn_lo() -> spec_fn(Seq<char>) -> nat {
    |l: Seq<char>| if state_setting(l) || starts_with(l, "class "@) || starts_with(l, "state "@) {
        0nat
    } else {
        line_token_edges(OperatorSet::Flow, l)
    }
}

/// The edges a state line adds at most: its transitions, unless it is a setting.
pub open spec fn state_line_fn_hi() -> spec_fn(Seq<char>) -> nat {
    |l: Seq<char>| if state_setting(l) {
        0nat
    } else {
        line_token_edges(OperatorSet::Flow, l)
    }
}

fn state_line(b: &mut IrBuilder, s: &Vec<char>, ta: usize, tb: usize, line_number: usize, span: Span)
    requires
        old(b).wf(),
        ta <= tb <= s@.len(),
    ensures
        grows(*old(b), *final(b)),
        old(b).ir.edges@.len() + (state_line_fn_lo())(s@.subrange(ta as int, tb as int)) <= final(b).ir.edges@.len(),
        final(b).ir.edges@.len() <= old(b).ir.edges@.len() + (state_line_fn_hi())(s@.subrange(ta as int, tb as int)),
{
    let ghost b0 = *b;
    proof {
        lemma_grows_refl(*b);
    }
    if begins(s, ta, tb, "stateDiagram") {
        return;
    }
    if begins(s, ta, tb, "direction ") {
        if let Some(d) = parse_graph_direction(s, ta, tb) {
            b.set_direction(d);
            proof {
                assert(grows(b0, *b));
            }
        }
        return;
    }
    if is_word(s, ta, tb, "[*]") || is_word(s, ta, tb, "{") || is_word(s, ta, tb, "}") {
        return;
    }
    if crate::directives::lower_class_assignment(b, s, ta, tb, span) {
        return;
    }
    if let Some(z) = after(s, ta, tb, "state ") {
        let (x, y) = trim_window(s, z, tb);
        let y2 = strip_end_char(s, x, y, '{');
        if register_declaration(b, s, x, y2, true, NodeShape::Rounded, span) {
            return;
        }
    }
    let ghost b1 = *b;
    let parsed = lower_token_statements(b, s, ta, tb, OperatorSet::Flow, span);
    proof {
        lemma_grows_trans(b0, b1, *b);
    }
    if !parsed {
        let ghost b2 = *b;
        warn_line(b, line_number, "unsupported state syntax: ", s, ta, tb);
        proof {
            lemma_grows_trans(b0, b2, *b);
        }
    }
}

/// Whether the requirement line `l` may be something other than a relation: the header, a
/// requirement declaration, a block brace or a field of a block.
pub open spec fn requirement_not_relation(l: Seq<char>) -> bool {
    l == "requirementDiagram"@ || starts_with(l, "requirement "@) || starts_with(l, "{"@) || starts_with(l, "}"@)
        || starts_with(l, "id:"@) || starts_with(l, "text:"@) || starts_with(l, "risk:"@) || starts_with(
        l,
        "verifymethod:"@,
    )
}

/// The edges a requirement line adds at least: one for a relation that can be nothing else.
pub open spec fn requirement_line_fn_lo() -> spec_fn(Seq<char>) -> nat {
    |l: Seq<char>| if !requirement_not_relation(l) && requirement_relation(l) {
        1nat
    } else {
        0nat
    }
}

/// The edges a requirement line adds at most: one for a relation.
pub open spec fn requirement_line_fn_hi() -> spec_fn(Seq<char>) -> nat {
    |l: Seq<char>| if requirement_relation(l) {
        1nat
    } else {
        0nat
    }
}

fn requirement_line(
    b: &mut IrBuilder,
    st: &mut LineState,
    s: &Vec<char>,
    ta: usize,
    tb: usize,
    line_number: usize,
    span: Span,
)
    requires
        old(b).wf(),
        old(st).ok(*old(b)),
        ta <= tb <= s@.len(),
    ensures
        grows(*old(b), *final(b)),
        final(st).ok(*final(b)),
        old(b).ir.edges@.len() + (requirement_line_fn_lo())(s@.subrange(ta as int, tb as int)) <= final(b).ir.edges@.len(),
        final(b).ir.edges@.len() <= old(b).ir.edges@.len() + (requirement_line_fn_hi())(s@.subrange(ta as int, tb as int)),
{
    let ghost b0 = *b;
    proof {
        lemma_grows_refl(*b);
    }
    if is_word(s, ta, tb, "requirementDiagram") {
        return;
    }
    if let Some(x) = after(s, ta, tb, "requirement ") {
        let y = strip_end_char(s, x, tb, '{');
        let (na, nb) = trim_window(s, x, y);
        if let Some(tok) = parse_node_token(s, na, nb) {
            let _ = intern(b, tok.id.as_str(), opt_str(&tok.label), NodeShape::Rect, span);
            st.in_block = tb > ta && s[tb - 1] == '{';
            proof {
                lemma_state_grows(st, b0, *b);
            }
            return;
        }
    }
    if begins(s, ta, tb, "{") {
        st.in_block = true;
        return;
    }
    if begins(s, ta, tb, "}") {
        st.in_block = false;
        return;
    }
    if st.in_block && (begins(s, ta, tb, "id:") || begins(s, ta, tb, "text:") || begins(
        s,
        ta,
        tb,
        "risk:",
    ) || begins(s, ta, tb, "verifymethod:")) {
        return;
    }
    if lower_requirement_relation(b, s, ta, tb, span) {
        proof {
            lemma_state_grows(st, b0, *b);
        }
        return;
    }
    let ghost b1 = *b;
    warn_line(b, line_number, "unsupported requirement syntax: ", s, ta, tb);
    proof {
        lemma_grows_trans(b0, b1, *b);
        lemma_state_grows(st, b0, *b);
    }
}

/// The node a mindmap line names: the id of its node token, unless the line is the header or a
/// setting, or has no token or an empty id.
pub open spec fn mindmap_node_fn() -> spec_fn(Seq<char>) -> Option<Seq<char>> {
    |l: Seq<char>| if l == "mindmap"@ || starts_with(l, "direction "@) || starts_with(l, "title "@) {
        None
    } else {
        match spec_node_token(l) {
            Some(tok) => if trim(tok.id).len() > 0 {
                Some(trim(tok.id))
            } else {
                None
            },
            None => None,
        }
    }
}

/// The depth of a mindmap line, as the parser measures it.
pub open spec fn mindmap_depth(raw: Seq<char>) -> nat {
    if indent_width(raw) > usize::MAX {
        usize::MAX as nat
    } else {
        indent_width(raw)
    }
}

/// Whether the mindmap ancestry `anc` is strictly deeper at each step.
pub open spec fn ascending(anc: Seq<(usize, IrNodeId)>) -> bool {
    forall|i: int, j: int| 0 <= i < j < anc.len() ==> (#[trigger] anc[i]).0 < (#[trigger] anc[j]).0
}

/// The depth of the outermost node of the mindmap ancestry `anc`, when there is one.
pub open spec fn root_depth(anc: Seq<(usize, IrNodeId)>) -> Option<nat> {
    if anc.len() > 0 {
        Some(anc[0].0 as nat)
    } else {
        None
    }
}

/// Whether a mindmap node at depth `d` hangs below the current root, whose depth is `root`: it does
/// when it is deeper than the root; otherwise it starts a new root.
pub open spec fn below_root(root: Option<nat>, d: nat) -> bool {
    root matches Some(r) && r < d
}

/// A mindmap node line `s[ta..tb]`, whose whole line is `s[la..le]`: a node, linked from the
/// nearest shallower node above it.
fn mindmap_line(
    b: &mut IrBuilder,
    st: &mut LineState,
    s: &Vec<char>,
    la: usize,
    le: usize,
    ta: usize,
    tb: usize,
    line_number: usize,
    span: Span,
)
    requires
        old(b).wf(),
        old(st).ok(*old(b)),
        ascending(old(st).ancestry@),
        la <= ta <= tb <= s@.len(),
        la <= le <= s@.len(),
    ensures
        grows(*old(b), *final(b)),
        final(st).ok(*final(b)),
        ascending(final(st).ancestry@),
        final(st).previous == old(st).previous,
        ({
            let d = mindmap_depth(s@.subrange(la as int, le as int));
            let root = root_depth(old(st).ancestry@);
            mindmap_node_fn()(s@.subrange(ta as int, tb as int)) matches Some(k) ==> {
                &&& final(b).ir.has_node(k)
                &&& final(b).ir.edges@.len() == old(b).ir.edges@.len() + if below_root(root, d) {
                    1nat
                } else {
                    0nat
                }
                &&& root_depth(final(st).ancestry@) == if below_root(root, d) {
                    root
                } else {
                    Some(d)
                }
            }
        }),
        mindmap_node_fn()(s@.subrange(ta as int, tb as int)) is None ==> final(b).ir.edges@ == old(b).ir.edges@
            && final(st).ancestry@ == old(st).ancestry@,
{
    let ghost b0 = *b;
    let ghost anc0 = st.ancestry@;
    let ghost l = s@.subrange(ta as int, tb as int);
    proof {
        lemma_grows_refl(*b);
    }
    if is_word(s, ta, tb, "mindmap") || is_setting_line(s, ta, tb) {
        return;
    }
    let depth = leading_indent_width(s, la, le);
    let tok = match parse_node_token(s, ta, tb) {
        Some(t) => t,
        None => {
            warn_line(b, line_number, "unsupported mindmap syntax: ", s, ta, tb);
            proof {
                lemma_state_grows(st, b0, *b);
            }
            return;
        },
    };
    let node = match intern(b, tok.id.as_str(), opt_str(&tok.label), tok.shape, span) {
        Some(k) => k,
        None => {
            proof {
                lemma_state_grows(st, b0, *b);
            }
            return;
        },
    };
    let ghost b1 = *b;
    proof {
        lemma_state_grows(st, b0, b1);
        assert(mindmap_node_fn()(l) == Some(trim(tok.id@)));
        assert(b1.ir.nodes@[node.0 as int].id@ == trim(tok.id@));
    }
    while st.ancestry.len() > 0 && st.ancestry[st.ancestry.len() - 1].0 >= depth
        invariant
            st.ok(*b),
            st.ancestry@.len() <= anc0.len(),
            st.ancestry@ == anc0.subrange(0, st.ancestry@.len() as int),
            forall|j: int| st.ancestry@.len() <= j < anc0.len() ==> (#[trigger] anc0[j]).0 >= depth,
            st.previous == old(st).previous,
        decreases st.ancestry@.len(),
    {
        let ghost anc = st.ancestry@;
        let _ = st.ancestry.pop();
        proof {
            assert forall|i: int| 0 <= i < st.ancestry@.len() implies (#[trigger] st.ancestry@[i]).1.0
                < b.ir.nodes@.len() by {
                assert(st.ancestry@[i] == anc[i]);
            }
            assert(st.ancestry@ =~= anc0.subrange(0, st.ancestry@.len() as int));
        }
    }
    let ghost popped = st.ancestry@;
    proof {
        if popped.len() > 0 {
            assert(popped[popped.len() - 1] == anc0[popped.len() - 1]);
            if popped.len() > 1 {
                assert(anc0[0].0 < anc0[popped.len() - 1].0);
            }
            assert(popped[0] == anc0[0]);
        } else if anc0.len() > 0 {
            assert(anc0[0].0 >= depth);
        }
    }
    if st.ancestry.len() > 0 {
        let parent = st.ancestry[st.ancestry.len() - 1].1;
        link(b, parent, node, ArrowType::Line, None, span);
        proof {
            lemma_state_grows(st, b1, *b);
        }
    }
    proof {
        lemma_grows_trans(b0, b1, *b);
        assert(b1.ir.nodes@[node.0 as int].id@ == b.ir.nodes@[node.0 as int].id@);
    }
    st.ancestry.push((depth, node));
    proof {
        assert forall|i: int| 0 <= i < st.ancestry@.len() implies (#[trigger] st.ancestry@[i]).1.0
            < b.ir.nodes@.len() by {
            if i < popped.len() {
                assert(st.ancestry@[i] == popped[i]);
            }
        }
        assert forall|i: int, j: int| 0 <= i < j < st.ancestry@.len() implies (#[trigger] st.ancestry@[i]).0
            < (#[trigger] st.ancestry@[j]).0 by {
            assert(st.ancestry@[i] == anc0[i]);
            if j < popped.len() {
                assert(st.ancestry@[j] == anc0[j]);
            } else if popped.len() > 0 {
                assert(popped[popped.len() - 1] == anc0[popped.len() - 1]);
                if i < popped.len() - 1 {
                    assert(anc0[i].0 < anc0[popped.len() - 1].0);
                }
            }
        }
        if popped.len() > 0 {
            assert(st.ancestry@[0] == popped[0]);
        }
    }
}

/// A journey step or timeline event `name: …`: a node labelled with its name, linked from the
/// previous one.
/// Whether `l` is a journey (`journey`) or timeline header, title or section line.
pub open spec fn chain_setting(journey: bool, l: Seq<char>) -> bool {
    l == (if journey {
        "journey"@
    } else {
        "timeline"@
    }) || starts_with(l, "title "@) || starts_with(l, "section "@)
}

/// The node a journey step line names, as a function of the line.
pub open spec fn journey_node_fn() -> spec_fn(Seq<char>) -> Option<Seq<char>> {
    |l: Seq<char>| if chain_setting(true, l) {
        None
    } else {
        named_node(l)
    }
}

/// The node a timeline event line names, as a function of the line.
pub open spec fn timeline_node_fn() -> spec_fn(Seq<char>) -> Option<Seq<char>> {
    |l: Seq<char>| if chain_setting(false, l) {
        None
    } else {
        named_node(l)
    }
}

fn chain_line(
    b: &mut IrBuilder,
    st: &mut LineState,
    s: &Vec<char>,
    ta: usize,
    tb: usize,
    line_number: usize,
    span: Span,
    journey: bool,
)
    requires
        old(b).wf(),
        old(st).ok(*old(b)),
        ta <= tb <= s@.len(),
    ensures
        grows(*old(b), *final(b)),
        final(st).ok(*final(b)),
        (if journey {
            journey_node_fn()
        } else {
            timeline_node_fn()
        })(s@.subrange(ta as int, tb as int)) matches Some(k) ==> final(b).ir.has_node(k) && final(st).previous
            is Some && final(b).ir.edges@.len() == old(b).ir.edges@.len() + if old(st).previous is Some {
            1nat
        } else {
            0nat
        },
        (if journey {
            journey_node_fn()
        } else {
            timeline_node_fn()
        })(s@.subrange(ta as int, tb as int)) is None ==> final(b).ir.edges@ == old(b).ir.edges@
            && final(st).previous == old(st).previous,
{
    let ghost b0 = *b;
    proof {
        lemma_grows_refl(*b);
    }
    let header = if journey {
        "journey"
    } else {
        "timeline"
    };
    if is_word(s, ta, tb, header) || begins(s, ta, tb, "title ") || begins(s, ta, tb, "section ") {
        return;
    }
    let (na, nb) = match name_before_colon(s, ta, tb) {
        Some(x) => x,
        None => {
            if journey {
                warn_line(b, line_number, "unsupported journey syntax: ", s, ta, tb);
            } else {
                warn_line(b, line_number, "unsupported timeline syntax: ", s, ta, tb);
            }
            proof {
                lemma_state_grows(st, b0, *b);
            }
            return;
        },
    };
    let id = identifier_of(s, na, nb);
    if id.as_str().is_empty() {
        if journey {
            warn_line(b, line_number, "journey step identifier could not be derived: ", s, ta, tb);
        } else {
            warn_line(b, line_number, "timeline event identifier could not be derived: ", s, ta, tb);
        }
        proof {
            lemma_state_grows(st, b0, *b);
        }
        return;
    }
    let name = string_of_window(s, na, nb);
    let shape = if journey {
        NodeShape::Rounded
    } else {
        NodeShape::Rect
    };
    let current = intern(b, id.as_str(), Some(name.as_str()), shape, span);
    let ghost b1 = *b;
    proof {
        lemma_state_grows(st, b0, b1);
        if let Some(k) = current {
            assert(b1.ir.nodes@[k.0 as int].id@ == trim(id@));
        }
    }
    if let (Some(prev), Some(cur)) = (st.previous, current) {
        link(b, prev, cur, ArrowType::Line, None, span);
        proof {
            lemma_grows_trans(b0, b1, *b);
            lemma_state_grows(st, b1, *b);
            lemma_has_node_grows(b1, *b, trim(id@));
        }
    }
    if current.is_some() {
        st.previous = current;
    }
}

/// How many edges the packet line `l` adds: its connections, unless it is the header or a
/// setting.
pub open spec fn packet_line_edges(l: Seq<char>) -> nat {
    if starts_with(l, "packet-beta"@) || starts_with(l, "direction "@) || starts_with(l, "title "@) {
        0
    } else {
        line_token_edges(OperatorSet::Packet, l)
    }
}

/// The edges a packet line adds, as a function.
pub open spec fn packet_line_fn() -> spec_fn(Seq<char>) -> nat {
    |l: Seq<char>| packet_line_edges(l)
}

/// How many edges the packet document `s` holds.
pub open spec fn packet_edges(s: Seq<char>) -> nat {
    line_sum(s, 0, packet_line_fn())
}

fn packet_line(b: &mut IrBuilder, s: &Vec<char>, ta: usize, tb: usize, line_number: usize, span: Span)
    requires
        old(b).wf(),
        ta <= tb <= s@.len(),
    ensures
        grows(*old(b), *final(b)),
        final(b).ir.edges@.len() == old(b).ir.edges@.len() + packet_line_edges(s@.subrange(ta as int, tb as int)),
{
    let ghost b0 = *b;
    proof {
        lemma_grows_refl(*b);
    }
    if begins(s, ta, tb, "packet-beta") || is_setting_line(s, ta, tb) {
        return;
    }
    let parsed = lower_token_statements(b, s, ta, tb, OperatorSet::Packet, span);
    if !parsed {
        let ghost b1 = *b;
        warn_line(b, line_number, "unsupported packet syntax: ", s, ta, tb);
        proof {
            lemma_grows_trans(b0, b1, *b);
        }
    }
}

/// Whether `l` is a Gantt chart setting or section header.
pub open spec fn gantt_setting(l: Seq<char>) -> bool {
    l == "gantt"@ || starts_with(l, "title "@) || starts_with(l, "dateFormat "@) || starts_with(
        l,
        "axisFormat "@,
    ) || starts_with(l, "tickInterval "@) || starts_with(l, "excludes "@) || starts_with(l, "section "@)
}

/// The node a Gantt task line names, as a function of the line.
pub open spec fn task_node_fn() -> spec_fn(Seq<char>) -> Option<Seq<char>> {
    |l: Seq<char>| if gantt_setting(l) {
        None
    } else {
        named_node(l)
    }
}

fn gantt_line(
    b: &mut IrBuilder,
    st: &mut LineState,
    s: &Vec<char>,
    ta: usize,
    tb: usize,
    line_number: usize,
    span: Span,
)
    requires
        old(b).wf(),
        old(st).ok(*old(b)),
        ta <= tb <= s@.len(),
    ensures
        grows(*old(b), *final(b)),
        final(st).ok(*final(b)),
        final(b).ir.edges@ == old(b).ir.edges@,
        (task_node_fn())(s@.subrange(ta as int, tb as int)) matches Some(k) ==> final(b).ir.has_node(k),
{
    let ghost b0 = *b;
    proof {
        lemma_grows_refl(*b);
    }
    if is_word(s, ta, tb, "gantt") || begins(s, ta, tb, "title ") {
        return;
    }
    if begins(s, ta, tb, "dateFormat ") || begins(s, ta, tb, "axisFormat ") || begins(
        s,
        ta,
        tb,
        "tickInterval ",
    ) || begins(s, ta, tb, "excludes ") {
        return;
    }
    if let Some(x) = after(s, ta, tb, "section ") {
        let (sa, sb) = trim_window(s, x, tb);
        st.section = window_vec(s, sa, sb);
        return;
    }
    let (na, nb) = match name_before_colon(s, ta, tb) {
        Some(x) => x,
        None => {
            warn_line(b, line_number, "unsupported gantt syntax: ", s, ta, tb);
            proof {
                lemma_state_grows(st, b0, *b);
            }
            return;
        },
    };
    let id = identifier_of(s, na, nb);
    if id.as_str().is_empty() {
        warn_line(b, line_number, "task identifier could not be derived: ", s, ta, tb);
        proof {
            lemma_state_grows(st, b0, *b);
        }
        return;
    }
    let mut label: Vec<char> = Vec::new();
    if st.section.len() > 0 {
        push_window(&mut label, &st.section, 0, st.section.len());
        push_str(&mut label, ": ");
    }
    push_window(&mut label, s, na, nb);
    let text = string_from_chars(&label);
    let r = intern(b, id.as_str(), Some(text.as_str()), NodeShape::Rect, span);
    proof {
        lemma_state_grows(st, b0, *b);
        if let Some(k) = r {
            assert(b.ir.nodes@[k.0 as int].id@ == trim(id@));
        }
    }
}

/// The node id a line names through its `name: …` form: the normalised name before the first
/// `:`, unless it is blank.
pub open spec fn named_node(l: Seq<char>) -> Option<Seq<char>> {
    match colon_name(l) {
        None => None,
        Some(n) => {
            let id = spec_normalize_identifier(n, false);
            if trim(id).len() > 0 {
                Some(trim(id))
            } else {
                None
            }
        },
    }
}

/// Whether `l` is a pie chart setting (header, title, `showData`).
pub open spec fn pie_setting(l: Seq<char>) -> bool {
    starts_with(l, "pie"@) || starts_with(l, "title "@) || starts_with(l, "showData"@)
}

/// Whether `l` is a quadrant chart setting (header, axes, quadrant names, title).
pub open spec fn quadrant_setting(l: Seq<char>) -> bool {
    l == "quadrantChart"@ || starts_with(l, "x-axis "@) || starts_with(l, "y-axis "@) || starts_with(
        l,
        "quadrant-"@,
    ) || starts_with(l, "title "@)
}

/// The node a pie slice line names, as a function of the line.
pub open spec fn pie_node_fn() -> spec_fn(Seq<char>) -> Option<Seq<char>> {
    |l: Seq<char>| if pie_setting(l) {
        None
    } else {
        named_node(l)
    }
}

/// The node a quadrant point line names, as a function of the line.
pub open spec fn quadrant_node_fn() -> spec_fn(Seq<char>) -> Option<Seq<char>> {
    |l: Seq<char>| if quadrant_setting(l) {
        None
    } else {
        named_node(l)
    }
}

/// A pie slice or quadrant point `name: …`: a circle labelled with its name.
fn point_line(b: &mut IrBuilder, s: &Vec<char>, ta: usize, tb: usize, line_number: usize, span: Span, pie: bool)
    requires
        old(b).wf(),
        ta <= tb <= s@.len(),
    ensures
        grows(*old(b), *final(b)),
        final(b).ir.edges@ == old(b).ir.edges@,
        (if pie {
            pie_node_fn()
        } else {
            quadrant_node_fn()
        })(s@.subrange(ta as int, tb as int)) matches Some(k) ==> final(b).ir.has_node(k),
{
    proof {
        lemma_grows_refl(*b);
    }
    if pie {
        if begins(s, ta, tb, "pie") || begins(s, ta, tb, "title ") || begins(s, ta, tb, "showData") {
            return;
        }
    } else if is_word(s, ta, tb, "quadrantChart") || begins(s, ta, tb, "x-axis ") || begins(
        s,
        ta,
        tb,
        "y-axis ",
    ) || begins(s, ta, tb, "quadrant-") || begins(s, ta, tb, "title ") {
        return;
    }
    let (na, nb) = match name_before_colon(s, ta, tb) {
        Some(x) => x,
        None => {
            if pie {
                warn_line(b, line_number, "unsupported pie syntax: ", s, ta, tb);
            } else {
                warn_line(b, line_number, "unsupported quadrant syntax: ", s, ta, tb);
            }
            return;
        },
    };
    let id = identifier_of(s, na, nb);
    if id.as_str().is_empty() {
        if pie {
            warn_line(b, line_number, "pie slice identifier could not be derived: ", s, ta, tb);
        } else {
            warn_line(b, line_number, "quadrant point identifier could not be derived: ", s, ta, tb);
        }
        return;
    }
    let name = string_of_window(s, na, nb);
    let r = intern(b, id.as_str(), Some(name.as_str()), NodeShape::Circle, span);
    proof {
        if let Some(k) = r {
            assert(b.ir.nodes@[k.0 as int].id@ == trim(id@));
        }
    }
}

// ---------------------------------------------------------------------------------------------
// The document.
/// The node ids `g` finds in the trimmed lines of `s` from index `i` on that are neither blank nor
/// comments, in order.
pub open spec fn line_ids(s: Seq<char>, i: int, g: spec_fn(Seq<char>) -> Option<Seq<char>>) -> Seq<Seq<char>>
    decreases s.len() - i,
{
    if i < 0 || i > s.len() {
        seq![]
    } else {
        let nl = line_end(s, i);
        let l = trim(s.subrange(i, nl));
        let here = if l.len() > 0 && !starts_with(l, "%%"@) {
            match g(l) {
                Some(k) => seq![k],
                None => seq![],
            }
        } else {
            seq![]
        };
        here + if nl >= s.len() {
            seq![]
        } else {
            line_ids(s, nl + 1, g)
        }
    }
}

proof fn lemma_line_ids_step(s: Seq<char>, i: int, g: spec_fn(Seq<char>) -> Option<Seq<char>>)
    requires
        0 <= i <= s.len(),
    ensures
        ({
            let nl = line_end(s, i);
            let l = trim(s.subrange(i, nl));
            line_ids(s, i, g) == (if l.len() > 0 && !starts_with(l, "%%"@) {
                match g(l) {
                    Some(k) => seq![k],
                    None => seq![],
                }
            } else {
                seq![]
            }) + if nl >= s.len() {
                seq![]
            } else {
                line_ids(s, nl + 1, g)
            }
        }),
{
    crate::text::lemma_idx_of(s.subrange(i, s.len() as int), '\n');
}

/// How many edges the mindmap lines of `s` from index `i` on add while the outermost node lies at
/// depth `root`: a node line deeper than that hangs below the nodes above it by one edge, and any
/// other node line starts a new outermost node and adds none.
pub open spec fn mindmap_edges(s: Seq<char>, i: int, root: Option<nat>) -> nat
    decreases s.len() - i,
{
    if i < 0 || i > s.len() {
        0
    } else {
        let nl = line_end(s, i);
        let l = trim(s.subrange(i, nl));
        let d = mindmap_depth(s.subrange(i, nl));
        let node = l.len() > 0 && !starts_with(l, "%%"@) && mindmap_node_fn()(l) is Some;
        let here: nat = if node && below_root(root, d) {
            1
        } else {
            0
        };
        let next = if node && !below_root(root, d) {
            Some(d)
        } else {
            root
        };
        here + if nl >= s.len() {
            0
        } else {
            mindmap_edges(s, nl + 1, next)
        }
    }
}

proof fn lemma_mindmap_edges_step(s: Seq<char>, i: int, root: Option<nat>)
    requires
        0 <= i <= s.len(),
    ensures
        ({
            let nl = line_end(s, i);
            let l = trim(s.subrange(i, nl));
            let d = mindmap_depth(s.subrange(i, nl));
            let node = l.len() > 0 && !starts_with(l, "%%"@) && mindmap_node_fn()(l) is Some;
            mindmap_edges(s, i, root) == (if node && below_root(root, d) {
                1nat
            } else {
                0nat
            }) + if nl >= s.len() {
                0nat
            } else {
                mindmap_edges(s, nl + 1, if node && !below_root(root, d) {
                    Some(d)
                } else {
                    root
                })
            }
        }),
{
    crate::text::lemma_idx_of(s.subrange(i, s.len() as int), '\n');
}

/// No line names a node.
pub open spec fn no_node_fn() -> spec_fn(Seq<char>) -> Option<Seq<char>> {
    |l: Seq<char>| None::<Seq<char>>
}

/// The node a line of a diagram of kind `t` names: pie slices, quadrant points, Gantt tasks,
/// journey steps and timeline events by their `name: …` form, and mindmap nodes by their token.
pub open spec fn named_node_fn(t: DiagramType) -> spec_fn(Seq<char>) -> Option<Seq<char>> {
    if t == DiagramType::Pie {
        pie_node_fn()
    } else if t == DiagramType::QuadrantChart {
        quadrant_node_fn()
    } else if t == DiagramType::Gantt {
        task_node_fn()
    } else if t == DiagramType::Journey {
        journey_node_fn()
    } else if t == DiagramType::Timeline {
        timeline_node_fn()
    } else if t == DiagramType::Mindmap {
        mindmap_node_fn()
    } else {
        no_node_fn()
    }
}

/// The node ids the lines of a document of kind `t` name (see [`named_node_fn`]).
pub open spec fn named_nodes(t: DiagramType, s: Seq<char>) -> Seq<Seq<char>> {
    line_ids(s, 0, named_node_fn(t))
}

/// Whether a diagram of kind `t` links each of its steps to the previous one: journeys and
/// timelines.
pub open spec fn chained(t: DiagramType) -> bool {
    t == DiagramType::Journey || t == DiagramType::Timeline
}

/// How many links a chain of `n` steps has.
pub open spec fn chain_links(n: nat) -> nat {
    if n > 0 {
        (n - 1) as nat
    } else {
        0
    }
}

/// Whether a diagram of kind `t` never has edges: pie and quadrant charts and Gantt charts.
pub open spec fn edgeless(t: DiagramType) -> bool {
    t == DiagramType::Pie || t == DiagramType::QuadrantChart || t == DiagramType::Gantt
}

proof fn lemma_has_node_grows(b1: IrBuilder, b2: IrBuilder, key: Seq<char>)
    requires
        grows(b1, b2),
        b1.ir.has_node(key),
    ensures
        b2.ir.has_node(key),
{
    let j = choose|j: int| 0 <= j < b1.ir.nodes@.len() && #[trigger] b1.ir.nodes@[j].id@ == key;
    assert(b2.ir.nodes@[j].id@ == b1.ir.nodes@[j].id@);
}

/// Parse the lines of `s` as a diagram of kind `t`: blank lines and `%%` comments are skipped,
/// and every other line is lowered by the parser of that kind.
#[verifier::rlimit(50)]
pub fn parse_diagram_lines(s: &Vec<char>, b: &mut IrBuilder, t: DiagramType)
    requires
        old(b).wf(),
        has_line_parser(t),
    ensures
        grows(*old(b), *final(b)),
        t == DiagramType::Sequence ==> final(b).ir.edges@.len() == old(b).ir.edges@.len() + sequence_edges(s@),
        t == DiagramType::Class ==> final(b).ir.edges@.len() == old(b).ir.edges@.len() + class_edges(s@),
        t == DiagramType::State ==> old(b).ir.edges@.len() + line_sum(s@, 0, state_line_fn_lo())
            <= final(b).ir.edges@.len() <= old(b).ir.edges@.len() + line_sum(s@, 0, state_line_fn_hi()),
        t == DiagramType::PacketBeta ==> final(b).ir.edges@.len() == old(b).ir.edges@.len() + packet_edges(s@),
        t == DiagramType::Er ==> old(b).ir.edges@.len() + line_sum(s@, 0, crate::er::er_line_fn_lo())
            <= final(b).ir.edges@.len() <= old(b).ir.edges@.len() + line_sum(s@, 0, crate::er::er_line_fn_hi()),
        t == DiagramType::Requirement ==> old(b).ir.edges@.len() + line_sum(s@, 0, requirement_line_fn_lo())
            <= final(b).ir.edges@.len() <= old(b).ir.edges@.len() + line_sum(s@, 0, requirement_line_fn_hi()),
        edgeless(t) ==> final(b).ir.edges@.len() == old(b).ir.edges@.len(),
        forall|k: int| 0 <= k < named_nodes(t, s@).len() ==> final(b).ir.has_node(#[trigger] named_nodes(t, s@)[k]),
        chained(t) ==> final(b).ir.edges@.len() == old(b).ir.edges@.len() + chain_links(named_nodes(t, s@).len()),
        t == DiagramType::Mindmap ==> final(b).ir.edges@.len() == old(b).ir.edges@.len() + mindmap_edges(s@, 0, None),
{
    let ghost b0 = *b;
    proof {
        lemma_grows_refl(*b);
    }
    let mut st = LineState {
        previous: None,
        entity: None,
        section: Vec::new(),
        in_block: false,
        ancestry: Vec::new(),
        branches: Vec::new(),
        branch: crate::text::owned("main"),
        commits: 0,
    };
    let ghost f_lo = if t == DiagramType::Sequence {
        seq_line_fn()
    } else if t == DiagramType::Class {
        class_line_fn()
    } else if t == DiagramType::PacketBeta {
        packet_line_fn()
    } else if t == DiagramType::Er {
        crate::er::er_line_fn_lo()
    } else if t == DiagramType::Requirement {
        requirement_line_fn_lo()
    } else {
        state_line_fn_lo()
    };
    let ghost f_hi = if t == DiagramType::Sequence {
        seq_line_fn()
    } else if t == DiagramType::Class {
        class_line_fn()
    } else if t == DiagramType::PacketBeta {
        packet_line_fn()
    } else if t == DiagramType::Er {
        crate::er::er_line_fn_hi()
    } else if t == DiagramType::Requirement {
        requirement_line_fn_hi()
    } else {
        state_line_fn_hi()
    };
    let ghost counted = t == DiagramType::Sequence || t == DiagramType::Class || t == DiagramType::State
        || t == DiagramType::PacketBeta || t == DiagramType::Er || t == DiagramType::Requirement;
    let ghost g = named_node_fn(t);
    let n = s.len();
    let mut line_number: usize = 1;
    let mut i: usize = 0;
    let ghost mut lo: nat = 0;
    let ghost mut hi: nat = 0;
    let ghost mut done: Seq<Seq<char>> = seq![];
    let ghost mut me: nat = 0;
    loop
        invariant_except_break
            t == DiagramType::Mindmap ==> me + mindmap_edges(s@, i as int, root_depth(st.ancestry@))
                == mindmap_edges(s@, 0, None),
            lo + line_sum(s@, i as int, f_lo) == line_sum(s@, 0, f_lo),
            hi + line_sum(s@, i as int, f_hi) == line_sum(s@, 0, f_hi),
            done + line_ids(s@, i as int, g) == line_ids(s@, 0, g),
        invariant
            g == named_node_fn(t),
            t == DiagramType::Mindmap ==> ascending(st.ancestry@) && b.ir.edges@.len() == b0.ir.edges@.len() + me,
            forall|k: int| 0 <= k < done.len() ==> b.ir.has_node(#[trigger] done[k]),
            edgeless(t) ==> b.ir.edges@.len() == b0.ir.edges@.len(),
            chained(t) ==> (st.previous is Some) == (done.len() > 0) && b.ir.edges@.len() == b0.ir.edges@.len()
                + chain_links(done.len()),
            i <= n == s@.len(),
            grows(b0, *b),
            st.ok(*b),
            has_line_parser(t),
            counted ==> b0.ir.edges@.len() + lo <= b.ir.edges@.len() <= b0.ir.edges@.len() + hi,
            counted == (t == DiagramType::Sequence || t == DiagramType::Class || t == DiagramType::State
                || t == DiagramType::PacketBeta || t == DiagramType::Er || t == DiagramType::Requirement),
            t == DiagramType::Requirement ==> f_lo == requirement_line_fn_lo() && f_hi == requirement_line_fn_hi(),
            t == DiagramType::Er ==> f_lo == crate::er::er_line_fn_lo() && f_hi == crate::er::er_line_fn_hi(),
            t == DiagramType::PacketBeta ==> f_lo == packet_line_fn() && f_hi == packet_line_fn(),
            t == DiagramType::Sequence ==> f_lo == seq_line_fn() && f_hi == seq_line_fn(),
            t == DiagramType::Class ==> f_lo == class_line_fn() && f_hi == class_line_fn(),
            t == DiagramType::State ==> f_lo == state_line_fn_lo() && f_hi == state_line_fn_hi(),
        ensures
            grows(b0, *b),
            counted ==> b0.ir.edges@.len() + line_sum(s@, 0, f_lo) <= b.ir.edges@.len() <= b0.ir.edges@.len()
                + line_sum(s@, 0, f_hi),
            edgeless(t) ==> b.ir.edges@.len() == b0.ir.edges@.len(),
            forall|k: int| 0 <= k < line_ids(s@, 0, g).len() ==> b.ir.has_node(#[trigger] line_ids(s@, 0, g)[k]),
            chained(t) ==> b.ir.edges@.len() == b0.ir.edges@.len() + chain_links(line_ids(s@, 0, g).len()),
            t == DiagramType::Mindmap ==> b.ir.edges@.len() == b0.ir.edges@.len() + mindmap_edges(s@, 0, None),
        decreases n - i,
    {
        let nl = index_of_char(s, i, n, '\n');
        let (ta, tb) = trim_window(s, i, nl);
        let ghost l = s@.subrange(ta as int, tb as int);
        proof {
            assert(nl == line_end(s@, i as int));
            assert(l == trim(s@.subrange(i as int, nl as int)));
            lemma_line_sum_step(s@, i as int, f_lo);
            lemma_line_sum_step(s@, i as int, f_hi);
            lemma_line_ids_step(s@, i as int, g);
            lemma_mindmap_edges_step(s@, i as int, root_depth(st.ancestry@));
        }
        let ghost bl = *b;
        let ghost root0 = root_depth(st.ancestry@);
        let ghost e0 = b.ir.edges@.len();
        if ta < tb && !is_comment_window(s, ta, tb) {
            let span = Span::at_line(line_number, line_width(s, i, nl));
            let ghost b1 = *b;
            match t {
                DiagramType::Sequence => sequence_line(b, s, ta, tb, line_number, span),
                DiagramType::Class => class_line(b, s, ta, tb, line_number, span),
                DiagramType::State => state_line(b, s, ta, tb, line_number, span),
                DiagramType::Requirement => requirement_line(b, &mut st, s, ta, tb, line_number, span),
                DiagramType::Mindmap => mindmap_line(b, &mut st, s, i, nl, ta, tb, line_number, span),
                DiagramType::Journey => chain_line(b, &mut st, s, ta, tb, line_number, span, true),
                DiagramType::Timeline => chain_line(b, &mut st, s, ta, tb, line_number, span, false),
                DiagramType::PacketBeta => packet_line(b, s, ta, tb, line_number, span),
                DiagramType::Gantt => gantt_line(b, &mut st, s, ta, tb, line_number, span),
                DiagramType::Pie => point_line(b, s, ta, tb, line_number, span, true),
                DiagramType::QuadrantChart => point_line(b, s, ta, tb, line_number, span, false),
                DiagramType::Er => crate::er::er_line(b, &mut st, s, ta, tb, line_number, span),
                _ => crate::gitgraph::gitgraph_line(b, &mut st, s, ta, tb, line_number, span),
            }
            proof {
                lemma_grows_trans(b0, b1, *b);
                if st.ok(b1) {
                    lemma_state_grows(&st, b1, *b);
                }
                if t == DiagramType::Sequence {
                    assert(f_lo(l) == seq_line_edges(l) && f_hi(l) == seq_line_edges(l));
                } else if t == DiagramType::Class {
                    assert(f_lo(l) == class_line_edges(l) && f_hi(l) == class_line_edges(l));
                } else if t == DiagramType::State {
                    assert(f_lo(l) == (state_line_fn_lo())(l) && f_hi(l) == (state_line_fn_hi())(l));
                } else if t == DiagramType::PacketBeta {
                    assert(f_lo(l) == packet_line_edges(l) && f_hi(l) == packet_line_edges(l));
                } else if t == DiagramType::Er {
                    assert(f_lo(l) == (crate::er::er_line_fn_lo())(l) && f_hi(l) == (crate::er::er_line_fn_hi())(l));
                } else if t == DiagramType::Requirement {
                    assert(f_lo(l) == (requirement_line_fn_lo())(l) && f_hi(l) == (requirement_line_fn_hi())(l));
                }
                if counted {
                    assert(e0 + f_lo(l) <= b.ir.edges@.len() <= e0 + f_hi(l));
                }
            }
        }
        proof {
            assert forall|k: int| 0 <= k < done.len() implies b.ir.has_node(#[trigger] done[k]) by {
                lemma_has_node_grows(bl, *b, done[k]);
            }
            if ta < tb && !starts_with(l, "%%"@) {
                lo = lo + f_lo(l);
                hi = hi + f_hi(l);
                if t == DiagramType::Pie {
                    assert(g(l) == (pie_node_fn())(l));
                } else if t == DiagramType::QuadrantChart {
                    assert(g(l) == (quadrant_node_fn())(l));
                } else if t == DiagramType::Gantt {
                    assert(g(l) == (task_node_fn())(l));
                } else if t == DiagramType::Journey {
                    assert(g(l) == (journey_node_fn())(l));
                } else if t == DiagramType::Timeline {
                    assert(g(l) == (timeline_node_fn())(l));
                } else if t == DiagramType::Mindmap {
                    assert(g(l) == (mindmap_node_fn())(l));
                    if (mindmap_node_fn())(l) is Some && below_root(root0, mindmap_depth(s@.subrange(i as int, nl as int))) {
                        me = me + 1;
                    }
                } else {
                    assert(g(l) is None);
                }
                if let Some(key) = g(l) {
                    done = done.push(key);
                }
            }
        }
        if nl >= n {
            break;
        }
        i = nl + 1;
        if line_number < usize::MAX {
            line_number = line_number + 1;
        }
    }
}

} // verus!
