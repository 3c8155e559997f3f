//! The flowchart parser: headers, node and edge statements, and `subgraph … end` blocks.
//!
//! An edge endpoint that names a subgraph attaches to the subgraph's first member instead of
//! creating a node of that name, whichever order the edge and the subgraph were written in: the
//! document is scanned for subgraph first members before it is lowered.
use vstd::prelude::*;

use crate::builder::{IrBuilder, intern_post};
use crate::detect::ParserConfig;
use crate::flow_tokens::{
    spec_flowchart_header, spec_non_graph_statement, NodeToken, OperatorSet, extract_pipe_label, find_operator, flow_identifier_window, is_flowchart_header,
    is_non_graph_statement, op_scan, ops_of, parse_graph_direction, parse_node_token, spec_flow_identifier,
    spec_node_token, spec_pipe_label, split_statements, statements_from, wrapped_token,
};
use crate::ir::{ArrowType, IrNodeId, NodeShape, Span, spec_clean_label};
use crate::text::{
    chars_of, idx_of, index_of_char, push_decimal, push_str, push_window, starts_with, string_from_chars,
    trim, trim_window, window_vec,
};

verus! {

/// `new` extends `old`: still well formed, same diagram type and forward map, and the nodes,
/// edges and warnings of `old` are a prefix of those of `new` (node ids unchanged).
pub open spec fn grows(old: IrBuilder, new: IrBuilder) -> bool {
    &&& new.wf()
    &&& new.ir.diagram_type == old.ir.diagram_type
    &&& old.ir.clusters@.len() <= new.ir.clusters@.len()
    &&& old.ir.subgraphs@.len() <= new.ir.subgraphs@.len()
    &&& old.ir.nodes@.len() <= new.ir.nodes@.len()
    &&& forall|i: int| 0 <= i < old.ir.nodes@.len() ==> (#[trigger] new.ir.nodes@[i]).id@ == old.ir.nodes@[i].id@
    &&& old.ir.edges@.len() <= new.ir.edges@.len()
    &&& forall|i: int| 0 <= i < old.ir.edges@.len() ==> #[trigger] new.ir.edges@[i] == old.ir.edges@[i]
    &&& old.warnings@.len() <= new.warnings@.len()
    &&& forall|i: int| 0 <= i < old.warnings@.len() ==> #[trigger] new.warnings@[i] == old.warnings@[i]
}

pub proof fn lemma_grows_refl(b: IrBuilder)
    requires
        b.wf(),
    ensures
        grows(b, b),
{
}

pub proof fn lemma_grows_trans(a: IrBuilder, b: IrBuilder, c: IrBuilder)
    requires
        grows(a, b),
        grows(b, c),
    ensures
        grows(a, c),
{
    assert forall|i: int| 0 <= i < a.ir.nodes@.len() implies (#[trigger] c.ir.nodes@[i]).id@
        == a.ir.nodes@[i].id@ by {
        assert(c.ir.nodes@[i].id@ == b.ir.nodes@[i].id@);
    }
    assert forall|i: int| 0 <= i < a.ir.edges@.len() implies #[trigger] c.ir.edges@[i]
        == a.ir.edges@[i] by {
        assert(c.ir.edges@[i] == b.ir.edges@[i]);
    }
    assert forall|i: int| 0 <= i < a.warnings@.len() implies #[trigger] c.warnings@[i]
        == a.warnings@[i] by {
        assert(c.warnings@[i] == b.warnings@[i]);
    }
}

/// A builder step that changed at most the nodes and labels (as interning does) and appended at
/// most one warning.
pub open spec fn node_step(old: IrBuilder, new: IrBuilder) -> bool {
    &&& new.wf()
    &&& new.ir.diagram_type == old.ir.diagram_type
    &&& new.ir.direction == old.ir.direction
    &&& new.forward_members@ == old.forward_members@
    &&& new.ir.edges@ == old.ir.edges@
    &&& old.ir.clusters@.len() <= new.ir.clusters@.len()
    &&& old.ir.subgraphs@.len() <= new.ir.subgraphs@.len()
    &&& old.ir.nodes@.len() <= new.ir.nodes@.len()
    &&& forall|i: int| 0 <= i < old.ir.nodes@.len() ==> (#[trigger] new.ir.nodes@[i]).id@ == old.ir.nodes@[i].id@
    &&& (new.warnings@ == old.warnings@ || (new.warnings@.len() == old.warnings@.len() + 1
        && new.warnings@.drop_last() == old.warnings@))
}

proof fn lemma_step_grows(old: IrBuilder, new: IrBuilder)
    requires
        node_step(old, new),
    ensures
        grows(old, new),
{
    if new.warnings@ != old.warnings@ {
        assert forall|i: int| 0 <= i < old.warnings@.len() implies #[trigger] new.warnings@[i]
            == old.warnings@[i] by {
            assert(new.warnings@.drop_last()[i] == new.warnings@[i]);
        }
    }
}

proof fn lemma_intern_step(
    old: IrBuilder,
    new: IrBuilder,
    key: Seq<char>,
    label: Option<Seq<char>>,
    shape: NodeShape,
    span: Span,
    k: IrNodeId,
)
    requires
        old.wf(),
        new.wf(),
        intern_post(old.ir, new.ir, key, label, shape, span, k),
        new.forward_members@ == old.forward_members@,
        new.warnings@ == old.warnings@,
    ensures
        node_step(old, new),
{
    if old.ir.has_node(key) {
        assert forall|i: int| 0 <= i < old.ir.nodes@.len() implies (
        #[trigger] new.ir.nodes@[i]).id@ == old.ir.nodes@[i].id@ by {
            if i != k.0 {
                assert(new.ir.nodes@[i] == old.ir.nodes@[i]);
            }
        }
    } else {
        assert forall|i: int| 0 <= i < old.ir.nodes@.len() implies (
        #[trigger] new.ir.nodes@[i]).id@ == old.ir.nodes@[i].id@ by {
            assert(new.ir.nodes@[i] == old.ir.nodes@[i]);
        }
    }
}

/// Interning grows the builder.
pub proof fn lemma_intern_step_pub(
    old: IrBuilder,
    new: IrBuilder,
    key: Seq<char>,
    label: Option<Seq<char>>,
    shape: NodeShape,
    span: Span,
    k: IrNodeId,
)
    requires
        old.wf(),
        new.wf(),
        intern_post(old.ir, new.ir, key, label, shape, span, k),
        new.forward_members@ == old.forward_members@,
        new.warnings@ == old.warnings@,
    ensures
        grows(old, new),
        new.ir.edges@ == old.ir.edges@,
        new.ir.direction == old.ir.direction,
{
    lemma_intern_step(old, new, key, label, shape, span, k);
    lemma_step_grows(old, new);
}

/// One open `subgraph` block: its cluster and subgraph, or nothing when it was flattened into
/// its parent for being nested too deep.
pub type OpenGroup = Option<(usize, usize)>;

/// Add `node` to every open group.
fn add_to_open_groups(builder: &mut IrBuilder, open: &Vec<OpenGroup>, node: IrNodeId)
    requires
        old(builder).wf(),
        node.0 < old(builder).ir.nodes@.len(),
    ensures
        grows(*old(builder), *final(builder)),
        final(builder).ir.nodes@ == old(builder).ir.nodes@,
        final(builder).ir.edges@ == old(builder).ir.edges@,
        final(builder).warnings@ == old(builder).warnings@,
        final(builder).ir.direction == old(builder).ir.direction,
        forall|k: int| 0 <= k < open@.len() ==> (#[trigger] open@[k] matches Some((c, g)) ==> (c
            < final(builder).ir.clusters@.len() ==> final(builder).ir.clusters@[c as int].members@.contains(node))
            && (g < final(builder).ir.subgraphs@.len() ==> final(builder).ir.subgraphs@[g as int].members@.contains(
            node,
        ))),
{
    let mut i: usize = 0;
    while i < open.len()
        invariant
            i <= open@.len(),
            forall|k: int| 0 <= k < i ==> (#[trigger] open@[k] matches Some((c, g)) ==> (c
                < builder.ir.clusters@.len() ==> builder.ir.clusters@[c as int].members@.contains(node))
                && (g < builder.ir.subgraphs@.len() ==> builder.ir.subgraphs@[g as int].members@.contains(node))),
            builder.wf(),
            node.0 < builder.ir.nodes@.len(),
            builder.ir.nodes@ == old(builder).ir.nodes@,
            builder.ir.edges@ == old(builder).ir.edges@,
            builder.warnings@ == old(builder).warnings@,
            builder.ir.diagram_type == old(builder).ir.diagram_type,
            builder.ir.direction == old(builder).ir.direction,
            builder.forward_members@ == old(builder).forward_members@,
            builder.ir.clusters@.len() == old(builder).ir.clusters@.len(),
            builder.ir.subgraphs@.len() == old(builder).ir.subgraphs@.len(),
        decreases open@.len() - i,
    {
        if let Some((c, g)) = open[i] {
            let ghost b0 = *builder;
            builder.add_node_to_cluster(c, node);
            let ghost b1 = *builder;
            builder.add_node_to_subgraph(g, node);
            proof {
                if c < b0.ir.clusters@.len() && !b0.ir.clusters@[c as int].members@.contains(node) {
                    assert(b1.ir.clusters@[c as int].members@[b0.ir.clusters@[c as int].members@.len() as int] == node);
                }
                if g < b1.ir.subgraphs@.len() && !b1.ir.subgraphs@[g as int].members@.contains(node) {
                    assert(builder.ir.subgraphs@[g as int].members@[b1.ir.subgraphs@[g as int].members@.len() as int]
                        == node);
                }
                assert forall|k: int| 0 <= k <= i implies (#[trigger] open@[k] matches Some((ck, gk)) ==> (ck
                    < builder.ir.clusters@.len() ==> builder.ir.clusters@[ck as int].members@.contains(node))
                    && (gk < builder.ir.subgraphs@.len() ==> builder.ir.subgraphs@[gk as int].members@.contains(
                    node,
                ))) by {
                    if let Some((ck, gk)) = open@[k] {
                        if ck != c && ck < builder.ir.clusters@.len() {
                            assert(b1.ir.clusters@[ck as int] == b0.ir.clusters@[ck as int]);
                        }
                        if gk != g && gk < builder.ir.subgraphs@.len() {
                            assert(builder.ir.subgraphs@[gk as int] == b1.ir.subgraphs@[gk as int]);
                            assert(b1.ir.subgraphs@[gk as int] == b0.ir.subgraphs@[gk as int]);
                        }
                        if gk == g {
                            assert(b1.ir.subgraphs@ == b0.ir.subgraphs@);
                        }
                    }
                }
            }
        }
        i = i + 1;
    }
}

/// Intern the node a token names (or the subgraph member it resolves to) and add it to the open
/// groups.
fn intern_endpoint(builder: &mut IrBuilder, open: &Vec<OpenGroup>, tok: &NodeToken, span: Span) -> (r:
    Option<IrNodeId>)
    requires
        old(builder).wf(),
    ensures
        grows(*old(builder), *final(builder)),
        final(builder).ir.edges@ == old(builder).ir.edges@,
        final(builder).ir.direction == old(builder).ir.direction,
        r matches Some(k) ==> k.0 < final(builder).ir.nodes@.len(),
        trim(tok.id@).len() > 0 ==> r is Some,
{
    let ghost b0 = *builder;
    let resolved = builder.resolve_subgraph_endpoint(tok.id.as_str(), span);
    proof {
        let key = trim(tok.id@);
        if b0.spec_subgraph_member(key) is None {
            if let Some(t) = b0.spec_forward_target(key) {
                if let Some(k) = resolved {
                    lemma_intern_step(b0, *builder, trim(t), None, NodeShape::Rect, span, k);
                }
            }
        }
        assert(node_step(b0, *builder));
    }
    let ghost b1 = *builder;
    let r = match resolved {
        Some(k) => Some(k),
        None => {
            let label = match &tok.label {
                Some(l) => Some(l.as_str()),
                None => None,
            };
            let x = builder.intern_node(tok.id.as_str(), label, tok.shape, span);
            proof {
                if let Some(k) = x {
                    lemma_intern_step(b1, *builder, trim(tok.id@), crate::builder::opt_text(label), tok.shape, span, k);
                }
                assert(node_step(b1, *builder));
                lemma_step_grows(b0, b1);
                lemma_step_grows(b1, *builder);
                lemma_grows_trans(b0, b1, *builder);
            }
            x
        },
    };
    proof {
        if resolved is Some {
            lemma_step_grows(b0, *builder);
        }
    }
    if let Some(k) = r {
        let ghost b1 = *builder;
        add_to_open_groups(builder, open, k);
        proof {
            lemma_grows_trans(b0, b1, *builder);
        }
    }
    r
}

/// Whether the statement `t` is an edge `left <op> [|label|] right`: a flow operator splits it
/// into two non-empty sides that read as node tokens with non-empty ids.
pub open spec fn flow_edge_stmt(t: Seq<char>) -> bool {
    match op_scan(OperatorSet::Flow, t, 0, None) {
        None => false,
        Some((idx, bo)) => {
            let len = ops_of(OperatorSet::Flow)[bo].0.len();
            let lt = trim(t.subrange(0, idx));
            let rt = trim(t.subrange(idx + len, t.len() as int));
            lt.len() > 0 && rt.len() > 0 && match (spec_node_token(lt), spec_node_token(spec_pipe_label(rt).1)) {
                (Some(l), Some(r)) => trim(l.id).len() > 0 && trim(r.id).len() > 0,
                _ => false,
            }
        },
    }
}

/// Lower an edge statement `s[a..b]`: `left <op> [|label|] right`. Returns whether it was one
/// (see [`flow_edge_stmt`]), in which case exactly one edge was appended.
fn lower_edge_statement(
    builder: &mut IrBuilder,
    s: &Vec<char>,
    a: usize,
    b: usize,
    open: &Vec<OpenGroup>,
    span: Span,
) -> (r: bool)
    requires
        old(builder).wf(),
        a <= b <= s@.len(),
    ensures
        grows(*old(builder), *final(builder)),
        final(builder).ir.direction == old(builder).ir.direction,
        r ==> final(builder).ir.edges@.len() == old(builder).ir.edges@.len() + 1,
        !r ==> final(builder).ir.edges@ == old(builder).ir.edges@,
        r == flow_edge_stmt(s@.subrange(a as int, b as int)),
        r ==> final(builder).ir.edges@.last().arrow == crate::flow_tokens::flow_arrow_of(
            crate::flow_tokens::written_op(OperatorSet::Flow, s@.subrange(a as int, b as int)),
        ),
{
    let ghost t = s@.subrange(a as int, b as int);
    let w = window_vec(s, a, b);
    let (idx, len, arrow, _) = match find_operator(&w, OperatorSet::Flow) {
        Some(x) => x,
        None => return false,
    };
    assert(s@.subrange(a as int, a + idx) =~= t.subrange(0, idx as int));
    assert(s@.subrange(a + idx + len, b as int) =~= t.subrange(idx + len, t.len() as int));
    let (la, lb) = trim_window(s, a, a + idx);
    let (ra, rb) = trim_window(s, a + idx + len, b);
    if la == lb || ra == rb {
        return false;
    }
    let (label, pa, pb) = extract_pipe_label(s, ra, rb);
    let left = match parse_node_token(s, la, lb) {
        Some(t) => t,
        None => return false,
    };
    let right = match parse_node_token(s, pa, pb) {
        Some(t) => t,
        None => return false,
    };
    if !has_visible_char(left.id.as_str()) || !has_visible_char(right.id.as_str()) {
        return false;
    }
    let ghost b0 = *builder;
    let from = intern_endpoint(builder, open, &left, span);
    let ghost b1 = *builder;
    let to = intern_endpoint(builder, open, &right, span);
    let ghost b2 = *builder;
    proof {
        lemma_grows_trans(b0, b1, b2);
    }
    match (from, to) {
        (Some(f), Some(t)) => {
            let l = match &label {
                Some(x) => Some(x.as_str()),
                None => None,
            };
            assert(f.0 < builder.ir.nodes@.len());
            builder.push_edge(f, t, arrow, l, span);
            proof {
                assert(grows(b2, *builder)) by {
                    assert forall|i: int| 0 <= i < b2.ir.edges@.len() implies #[trigger] builder.ir.edges@[i]
                        == b2.ir.edges@[i] by {
                        assert(builder.ir.edges@.drop_last()[i] == builder.ir.edges@[i]);
                    }
                }
                lemma_grows_trans(b0, b2, *builder);
            }
            true
        },
        _ => false,
    }
}

/// Whether `t` has a character that is not whitespace (its trimmed form is not empty).
fn has_visible_char(t: &str) -> (r: bool)
    ensures
        r == (trim(t@).len() > 0),
{
    let v = chars_of(t);
    let n = v.len();
    assert(v@.subrange(0, n as int) =~= v@);
    let (x, y) = trim_window(&v, 0, n);
    x < y
}

/// Lower a node statement `s[a..b]`. Returns whether it named a node.
fn lower_node_statement(
    builder: &mut IrBuilder,
    s: &Vec<char>,
    a: usize,
    b: usize,
    open: &Vec<OpenGroup>,
    span: Span,
) -> (r: bool)
    requires
        old(builder).wf(),
        a <= b <= s@.len(),
    ensures
        grows(*old(builder), *final(builder)),
        final(builder).ir.direction == old(builder).ir.direction,
        final(builder).ir.edges@ == old(builder).ir.edges@,
        r == (crate::flow_tokens::spec_node_token(s@.subrange(a as int, b as int)) is Some),
{
    match parse_node_token(s, a, b) {
        Some(tok) => {
            let _ = intern_endpoint(builder, open, &tok, span);
            true
        },
        None => {
            proof {
                lemma_grows_refl(*builder);
            }
            false
        },
    }
}

// ---------------------------------------------------------------------------------------------
// Subgraph headers.
/// What follows the `subgraph` keyword of a statement, trimmed, if the statement is a subgraph
/// header.
pub open spec fn subgraph_rest(stmt: Seq<char>) -> Option<Seq<char>> {
    if stmt == "subgraph"@ {
        Some(Seq::empty())
    } else if starts_with(stmt, "subgraph "@) {
        Some(trim(stmt.skip(9)))
    } else {
        None
    }
}

/// The id and title of a subgraph header's rest: `id[title]`, or an id whose title is the whole
/// cleaned text (the id itself when that is empty). The id is empty for an anonymous subgraph.
pub open spec fn spec_subgraph_header(rest: Seq<char>) -> (Seq<char>, Seq<char>) {
    match wrapped_token(rest, '[', ']', NodeShape::Rect) {
        Some(t) => (
            t.id,
            match t.label {
                Some(l) => l,
                None => t.id,
            },
        ),
        None => {
            let id = spec_flow_identifier(rest);
            (
                id,
                match spec_clean_label(rest) {
                    Some(l) => l,
                    None => id,
                },
            )
        },
    }
}

pub(crate) fn subgraph_rest_window(s: &Vec<char>, a: usize, b: usize) -> (r: Option<(usize, usize)>)
    requires
        a <= b <= s@.len(),
    ensures
        r matches Some((x, y)) ==> a <= x <= y <= b && subgraph_rest(s@.subrange(a as int, b as int))
            == Some(s@.subrange(x as int, y as int)),
        r is None ==> subgraph_rest(s@.subrange(a as int, b as int)) is None,
{
    let w = window_vec(s, a, b);
    if crate::detect::chars_eq_str(&w, "subgraph") {
        assert(s@.subrange(a as int, a as int) =~= Seq::<char>::empty());
        return Some((a, a));
    }
    let n = w.len();
    assert(w@.subrange(0, n as int) =~= w@);
    proof {
        reveal_strlit("subgraph ");
    }
    if crate::text::matches_at(&w, 0, n, 0, &chars_of("subgraph ")) {
        let (x, y) = trim_window(s, a + 9, b);
        assert(s@.subrange(a as int, b as int).skip(9) =~= s@.subrange(a + 9, b as int));
        Some((x, y))
    } else {
        None
    }
}

fn subgraph_header(s: &Vec<char>, a: usize, b: usize) -> (r: (Vec<char>, Vec<char>))
    requires
        a <= b <= s@.len(),
    ensures
        spec_subgraph_header(s@.subrange(a as int, b as int)) == (r.0@, r.1@),
{
    match crate::flow_tokens::wrapped_exec(s, a, b, '[', ']', NodeShape::Rect) {
        Some(t) => {
            let id = chars_of(t.id.as_str());
            let title = match &t.label {
                Some(l) => chars_of(l.as_str()),
                None => chars_of(t.id.as_str()),
            };
            (id, title)
        },
        None => {
            let id = flow_identifier_window(s, a, b);
            let title = match crate::ir::clean_label_window(s, a, b) {
                Some((x, y)) => window_vec(s, x, y),
                None => {
                    let mut c: Vec<char> = Vec::new();
                    let mut k: usize = 0;
                    while k < id.len()
                        invariant
                            k <= id@.len(),
                            c@ == id@.subrange(0, k as int),
                        decreases id@.len() - k,
                    {
                        c.push(id[k]);
                        k = k + 1;
                        assert(c@ =~= id@.subrange(0, k as int));
                    }
                    assert(id@.subrange(0, id@.len() as int) =~= id@);
                    c
                },
            };
            (id, title)
        },
    }
}

// ---------------------------------------------------------------------------------------------
// Subgraph blocks.
/// Every open group names an existing cluster and subgraph.
pub open spec fn open_ok(open: Seq<OpenGroup>, b: IrBuilder) -> bool {
    forall|k: int|
        0 <= k < open.len() ==> (#[trigger] open[k] matches Some((c, g)) ==> c
            < b.ir.clusters@.len() && g < b.ir.subgraphs@.len())
}

/// The subgraph of the innermost group among the first `k` of `open` that is not flattened.
pub open spec fn innermost_from(open: Seq<OpenGroup>, k: int) -> Option<usize>
    decreases k,
{
    if k <= 0 || k > open.len() {
        None
    } else {
        match open[k - 1] {
            Some((_, g)) => Some(g),
            None => innermost_from(open, k - 1),
        }
    }
}

/// The subgraph of the innermost open group that is not flattened.
fn innermost_subgraph(open: &Vec<OpenGroup>) -> (r: Option<usize>)
    ensures
        r == innermost_from(open@, open@.len() as int),
        r matches Some(g) ==> exists|k: int|
            0 <= k < open@.len() && (#[trigger] open@[k] matches Some((_, x)) && x == g),
{
    let mut k = open.len();
    while k > 0
        invariant
            k <= open@.len(),
            innermost_from(open@, k as int) == innermost_from(open@, open@.len() as int),
        decreases k,
    {
        if let Some((_, g)) = open[k - 1] {
            assert(open@[k - 1] matches Some((_, x)) && x == g);
            return Some(g);
        }
        k = k - 1;
    }
    None
}

/// `text` followed by the decimal digits of `v`, as characters.
fn numbered(text: &str, v: usize) -> (r: Vec<char>)
    ensures
        r@ == text@ + crate::text::dec_digits(v as nat),
{
    let mut out: Vec<char> = Vec::new();
    push_str(&mut out, text);
    push_decimal(&mut out, v);
    out
}

fn copy_chars(v: &Vec<char>) -> (r: Vec<char>)
    ensures
        r@ == v@,
{
    let n = v.len();
    assert(v@.subrange(0, n as int) =~= v@);
    window_vec(v, 0, n)
}

/// Open a `subgraph` block with public id `id` (`subGraph<ordinal>` when empty) and title
/// `title` (the id when empty): its cluster and subgraph are registered under
/// `<id>@title:<title>`, the subgraph nested in the innermost open one. Past `max_depth` open
/// blocks the block is flattened into its parent, with a warning.
fn open_subgraph(
    builder: &mut IrBuilder,
    open: &mut Vec<OpenGroup>,
    id: Vec<char>,
    title: Vec<char>,
    ordinal: usize,
    max_depth: usize,
    line_number: usize,
    span: Span,
)
    requires
        old(builder).wf(),
        open_ok(old(open)@, *old(builder)),
    ensures
        grows(*old(builder), *final(builder)),
        final(builder).ir.direction == old(builder).ir.direction,
        final(builder).ir.edges@ == old(builder).ir.edges@,
        final(builder).ir.nodes@ == old(builder).ir.nodes@,
        final(open)@.len() == old(open)@.len() + 1,
        final(open)@.drop_last() == old(open)@,
        open_ok(final(open)@, *final(builder)),
{
    let ghost b0 = *builder;
    if open.len() >= max_depth {
        let mut msg = numbered("Line ", line_number);
        push_str(&mut msg, ": subgraph nesting deeper than ");
        push_decimal(&mut msg, max_depth);
        push_str(&mut msg, " levels was flattened into the enclosing subgraph");
        builder.add_warning(string_from_chars(&msg));
        open.push(None);
        proof {
            assert(grows(b0, *builder)) by {
                assert forall|i: int| 0 <= i < b0.warnings@.len() implies #[trigger] builder.warnings@[i]
                    == b0.warnings@[i] by {
                    assert(builder.warnings@.drop_last()[i] == builder.warnings@[i]);
                }
            }
            assert(open@.drop_last() =~= old(open)@);
            assert forall|k: int| 0 <= k < open@.len() implies (#[trigger] open@[k] matches Some((c, g))
                ==> c < builder.ir.clusters@.len() && g < builder.ir.subgraphs@.len()) by {
                if k < old(open)@.len() {
                    assert(open@[k] == old(open)@[k]);
                }
            }
        }
        return;
    }
    let id = if id.len() == 0 {
        numbered("subGraph", ordinal)
    } else {
        id
    };
    let title = if title.len() == 0 {
        copy_chars(&id)
    } else {
        title
    };
    let mut key = copy_chars(&id);
    push_str(&mut key, "@title:");
    push_window(&mut key, &title, 0, title.len());
    let ks = string_from_chars(&key);
    let ids = string_from_chars(&id);
    let ts = string_from_chars(&title);
    let mut entry: OpenGroup = None;
    match builder.ensure_cluster(ks.as_str(), Some(ts.as_str()), span) {
        Some(ci) => {
            let ghost b1 = *builder;
            let parent = innermost_subgraph(open);
            proof {
                if let Some(g) = parent {
                    let k = choose|k: int|
                        0 <= k < open@.len() && (#[trigger] open@[k] matches Some((_, x)) && x == g);
                    assert(open@[k] matches Some((c, x)) && x < b0.ir.subgraphs@.len());
                }
            }
            match builder.ensure_subgraph(
                ks.as_str(),
                ids.as_str(),
                Some(ts.as_str()),
                span,
                parent,
                Some(ci),
            ) {
                Some(gi) => {
                    entry = Some((ci, gi));
                },
                None => {},
            }
        },
        None => {},
    }
    let ghost ob = open@;
    open.push(entry);
    proof {
        assert(grows(b0, *builder));
        assert(open@.drop_last() =~= ob);
        assert forall|k: int| 0 <= k < open@.len() implies (#[trigger] open@[k] matches Some((c, g))
            ==> c < builder.ir.clusters@.len() && g < builder.ir.subgraphs@.len()) by {
            if k < ob.len() {
                assert(open@[k] == ob[k]);
            }
        }
    }
}

// ---------------------------------------------------------------------------------------------
// The forward-reference scan.
/// The id of the node token `t`, when it is one.
pub open spec fn token_id(t: Seq<char>) -> Option<Seq<char>> {
    match spec_node_token(t) {
        Some(k) => Some(k.id),
        None => None,
    }
}

/// The id the first endpoint of the statement `w` names: the left side of an edge statement
/// whose two sides are node tokens, or else the node of a node statement.
pub open spec fn spec_first_id(w: Seq<char>) -> Option<Seq<char>> {
    match op_scan(OperatorSet::Flow, w, 0, None) {
        Some((bi, bo)) => {
            let len = ops_of(OperatorSet::Flow)[bo].0.len();
            let l = trim(w.take(bi));
            let rt = trim(w.subrange(bi + len, w.len() as int));
            if l.len() > 0 && rt.len() > 0 && spec_node_token(l) is Some && spec_node_token(spec_pipe_label(rt).1) is Some {
                token_id(l)
            } else {
                token_id(w)
            }
        },
        None => token_id(w),
    }
}

/// The id the first endpoint of the statement `s[a..b]` names: the left side of an edge
/// statement, or the node of a node statement.
fn statement_first_id(s: &Vec<char>, a: usize, b: usize) -> (r: Option<String>)
    requires
        a <= b <= s@.len(),
    ensures
        r matches Some(x) ==> spec_first_id(s@.subrange(a as int, b as int)) == Some(x@),
        r is None ==> spec_first_id(s@.subrange(a as int, b as int)) is None,
{
    let w = window_vec(s, a, b);
    if let Some((idx, len, _, _)) = find_operator(&w, OperatorSet::Flow) {
        proof {
            assert(s@.subrange(a as int, a + idx) =~= w@.take(idx as int));
            assert(s@.subrange(a + idx + len, b as int) =~= w@.subrange(idx + len, w@.len() as int));
        }
        let (la, lb) = trim_window(s, a, a + idx);
        let (ra, rb) = trim_window(s, a + idx + len, b);
        if la < lb && ra < rb {
            let (_, pa, pb) = extract_pipe_label(s, ra, rb);
            if let Some(l) = parse_node_token(s, la, lb) {
                if parse_node_token(s, pa, pb).is_some() {
                    return Some(l.id);
                }
            }
        }
    }
    match parse_node_token(s, a, b) {
        Some(t) => Some(t.id),
        None => None,
    }
}

pub(crate) fn is_comment_window(s: &Vec<char>, a: usize, b: usize) -> (r: bool)
    requires
        a <= b <= s@.len(),
    ensures
        r == starts_with(s@.subrange(a as int, b as int), "%%"@),
{
    proof {
        reveal_strlit("%%");
    }
    let r = b - a >= 2 && s[a] == '%' && s[a + 1] == '%';
    assert(r == starts_with(s@.subrange(a as int, b as int), "%%"@)) by {
        let t = s@.subrange(a as int, b as int);
        if b - a >= 2 {
            assert(t.subrange(0, 2)[0] == s@[a as int]);
            assert(t.subrange(0, 2)[1] == s@[a + 1]);
            if r {
                assert(t.subrange(0, 2) =~= "%%"@);
            }
        }
    }
    r
}

pub(crate) fn is_end_window(s: &Vec<char>, a: usize, b: usize) -> (r: bool)
    requires
        a <= b <= s@.len(),
    ensures
        r == (s@.subrange(a as int, b as int) == "end"@),
{
    let w = window_vec(s, a, b);
    crate::detect::chars_eq_str(&w, "end")
}

/// For each subgraph of the document that has a member, the node an endpoint naming it
/// resolves to: its first member, followed through any subgraph that member names in turn.
pub fn scan_forward_members(s: &Vec<char>) -> (r: Vec<(String, String)>) {
    let n = s.len();
    let mut ids: Vec<Vec<char>> = Vec::new();
    let mut firsts: Vec<Option<String>> = Vec::new();
    let mut stack: Vec<usize> = Vec::new();
    let mut i: usize = 0;
    loop
        invariant
            i <= n == s@.len(),
            ids@.len() == firsts@.len(),
            forall|k: int| 0 <= k < stack@.len() ==> #[trigger] stack@[k] < ids@.len(),
        decreases n - i,
    {
        let nl = index_of_char(s, i, n, '\n');
        let (ta, tb) = trim_window(s, i, nl);
        if ta < tb && !is_comment_window(s, ta, tb) && !is_flowchart_header(s, ta, tb) {
            if let Some((ra, rb)) = subgraph_rest_window(s, ta, tb) {
                let (id, _title) = subgraph_header(s, ra, rb);
                let id = if id.len() == 0 {
                    numbered("subGraph", ids.len())
                } else {
                    id
                };
                ids.push(id);
                firsts.push(None);
                stack.push(ids.len() - 1);
            } else if is_end_window(s, ta, tb) {
                let _ = stack.pop();
            } else if !is_non_graph_statement(s, ta, tb) {
                let parts = split_statements(s, ta, tb);
                let mut p: usize = 0;
                while p < parts.len()
                    invariant
                        p <= parts@.len(),
                        ids@.len() == firsts@.len(),
                        forall|k: int| 0 <= k < stack@.len() ==> #[trigger] stack@[k] < ids@.len(),
                        forall|k: int|
                            0 <= k < parts@.len() ==> (#[trigger] parts@[k]).0 <= parts@[k].1
                                <= s@.len(),
                    decreases parts@.len() - p,
                {
                    let (a, b) = parts[p];
                    if let Some(fid) = statement_first_id(s, a, b) {
                        let mut k: usize = 0;
                        while k < stack.len()
                            invariant
                                k <= stack@.len(),
                                ids@.len() == firsts@.len(),
                                forall|m: int|
                                    0 <= m < stack@.len() ==> #[trigger] stack@[m] < ids@.len(),
                            decreases stack@.len() - k,
                        {
                            let e = stack[k];
                            if firsts[e].is_none() {
                                firsts.set(e, Some(fid.clone()));
                            }
                            k = k + 1;
                        }
                    }
                    p = p + 1;
                }
            }
        }
        if nl >= n {
            break;
        }
        i = nl + 1;
    }
    let mut out: Vec<(String, String)> = Vec::new();
    let mut j: usize = 0;
    while j < ids.len()
        invariant
            j <= ids@.len() == firsts@.len(),
        decreases ids@.len() - j,
    {
        if let Some(f) = &firsts[j] {
            let mut target = f.clone();
            let mut steps: usize = 0;
            while steps < ids.len()
                invariant
                    steps <= ids@.len() == firsts@.len(),
                decreases ids@.len() - steps,
            {
                let tc = chars_of(target.as_str());
                let mut next: Option<String> = None;
                let mut k: usize = 0;
                while k < ids.len()
                    invariant
                        k <= ids@.len() == firsts@.len(),
                    decreases ids@.len() - k,
                {
                    if crate::detect::chars_eq_str(&ids[k], target.as_str()) {
                        if let Some(g) = &firsts[k] {
                            if *g != target {
                                next = Some(g.clone());
                            }
                        }
                        break;
                    }
                    k = k + 1;
                }
                match next {
                    Some(g) => {
                        target = g;
                    },
                    None => {
                        break;
                    },
                }
                steps = steps + 1;
            }
            out.push((string_from_chars(&ids[j]), target));
        }
        j = j + 1;
    }
    out
}

// ---------------------------------------------------------------------------------------------
// The document.
/// The width, in characters, of the line `s[i..nl]` without a trailing carriage return.
pub(crate) fn line_width(s: &Vec<char>, i: usize, nl: usize) -> (r: usize)
    requires
        i <= nl <= s@.len(),
    ensures
        r <= nl - i,
        r == if nl > i && s@[nl - 1] == '\r' {
            nl - 1 - i
        } else {
            nl - i
        },
{
    if nl > i && s[nl - 1] == '\r' {
        nl - 1 - i
    } else {
        nl - i
    }
}

/// Lower the statements of one line `s[ta..tb]`; warns when none of them parsed.
/// How many of the statements `stmts` are edges.
pub open spec fn edge_stmt_count(stmts: Seq<Seq<char>>) -> nat
    decreases stmts.len(),
{
    if stmts.len() == 0 {
        0
    } else {
        edge_stmt_count(stmts.drop_last()) + if flow_edge_stmt(stmts.last()) {
            1nat
        } else {
            0nat
        }
    }
}

/// How many edges the line `l` holds: its `;`-separated statements that are edges.
pub open spec fn line_edges(l: Seq<char>) -> nat {
    edge_stmt_count(statements_from(l, 0))
}

fn lower_statements(
    builder: &mut IrBuilder,
    s: &Vec<char>,
    ta: usize,
    tb: usize,
    open: &Vec<OpenGroup>,
    line_number: usize,
    span: Span,
)
    requires
        old(builder).wf(),
        ta <= tb <= s@.len(),
        open_ok(open@, *old(builder)),
    ensures
        grows(*old(builder), *final(builder)),
        final(builder).ir.direction == old(builder).ir.direction,
        open_ok(open@, *final(builder)),
        final(builder).ir.edges@.len() == old(builder).ir.edges@.len() + line_edges(
            s@.subrange(ta as int, tb as int),
        ),
{
    let parts = split_statements(s, ta, tb);
    let ghost stmts = statements_from(s@.subrange(ta as int, tb as int), 0);
    let mut parsed = false;
    let mut p: usize = 0;
    let ghost b0 = *builder;
    while p < parts.len()
        invariant
            p <= parts@.len() == stmts.len(),
            grows(b0, *builder),
            builder.ir.direction == b0.ir.direction,
            forall|k: int|
                0 <= k < parts@.len() ==> (#[trigger] parts@[k]).0 <= parts@[k].1 <= s@.len(),
            forall|k: int|
                0 <= k < parts@.len() ==> s@.subrange((#[trigger] parts@[k]).0 as int, parts@[k].1 as int) == stmts[k],
            builder.ir.edges@.len() == b0.ir.edges@.len() + edge_stmt_count(stmts.take(p as int)),
        decreases parts@.len() - p,
    {
        let (a, b) = parts[p];
        let ghost b1 = *builder;
        assert(stmts.take(p + 1).drop_last() =~= stmts.take(p as int));
        assert(stmts.take(p + 1).last() == stmts[p as int]);
        if lower_edge_statement(builder, s, a, b, open, span) {
            parsed = true;
        } else {
            let ghost b2 = *builder;
            if lower_node_statement(builder, s, a, b, open, span) {
                parsed = true;
            }
            proof {
                lemma_grows_trans(b1, b2, *builder);
            }
        }
        proof {
            lemma_grows_trans(b0, b1, *builder);
        }
        p = p + 1;
    }
    assert(stmts.take(p as int) =~= stmts);
    if !parsed {
        let mut msg = numbered("Line ", line_number);
        push_str(&mut msg, ": unsupported flowchart syntax: ");
        push_window(&mut msg, s, ta, tb);
        let ghost b3 = *builder;
        builder.add_warning(string_from_chars(&msg));
        proof {
            assert(grows(b3, *builder)) by {
                assert forall|i: int| 0 <= i < b3.warnings@.len() implies #[trigger] builder.warnings@[i]
                    == b3.warnings@[i] by {
                    assert(builder.warnings@.drop_last()[i] == builder.warnings@[i]);
                }
            }
            lemma_grows_trans(b0, b3, *builder);
        }
    }
}

/// Whether the trimmed line `l` is read as statements whatever its directives turn out to be: it
/// is not blank, a comment, a header, a `class` or `click` directive, a subgraph header, `end`,
/// or a statement that draws nothing.
pub open spec fn plain_line(l: Seq<char>) -> bool {
    &&& l.len() > 0
    &&& !starts_with(l, "%%"@)
    &&& !spec_flowchart_header(l)
    &&& !starts_with(l, "class "@)
    &&& !starts_with(l, "click "@)
    &&& subgraph_rest(l) is None
    &&& l != "end"@
    &&& !spec_non_graph_statement(l)
}

/// Where the line of `s` that starts at `i` ends (its `\n`, or the end of `s`).
pub open spec fn line_end(s: Seq<char>, i: int) -> int {
    i + idx_of(s.subrange(i, s.len() as int), '\n')
}

/// The edges held by the plain lines of `s` from index `i` on: parsing adds at least these.
pub open spec fn plain_edges_from(s: Seq<char>, i: int) -> nat
    decreases s.len() - i,
{
    if i < 0 || i > s.len() {
        0
    } else {
        let nl = line_end(s, i);
        let l = trim(s.subrange(i, nl));
        (if plain_line(l) {
            line_edges(l)
        } else {
            0nat
        }) + if nl >= s.len() {
            0nat
        } else {
            plain_edges_from(s, nl + 1)
        }
    }
}

/// The edges held by all lines of `s` from index `i` on: parsing adds at most these.
pub open spec fn all_edges_from(s: Seq<char>, i: int) -> nat
    decreases s.len() - i,
{
    if i < 0 || i > s.len() {
        0
    } else {
        let nl = line_end(s, i);
        line_edges(trim(s.subrange(i, nl))) + if nl >= s.len() {
            0nat
        } else {
            all_edges_from(s, nl + 1)
        }
    }
}

/// One line's share of [`plain_edges_from`] and [`all_edges_from`].
pub open spec fn line_share_ok(s: Seq<char>, i: int, nl: int, l: Seq<char>) -> bool {
    &&& i <= nl <= s.len()
    &&& plain_edges_from(s, i) == (if plain_line(l) {
        line_edges(l)
    } else {
        0nat
    }) + if nl >= s.len() {
        0nat
    } else {
        plain_edges_from(s, nl + 1)
    }
    &&& all_edges_from(s, i) == line_edges(l) + if nl >= s.len() {
        0nat
    } else {
        all_edges_from(s, nl + 1)
    }
}

proof fn lemma_line_step(s: Seq<char>, i: int)
    requires
        0 <= i <= s.len(),
    ensures
        line_share_ok(s, i, line_end(s, i), trim(s.subrange(i, line_end(s, i)))),
{
    crate::text::lemma_idx_of(s.subrange(i, s.len() as int), '\n');
}

/// Parse the flowchart document `s` into `builder`: headers set the direction, `subgraph … end`
/// blocks become clusters and subgraphs, and every other line is split on `;` into edge and node
/// statements; a line of which nothing parsed is reported.
#[verifier::rlimit(40)]
pub fn parse_flowchart(s: &Vec<char>, builder: &mut IrBuilder, config: &ParserConfig)
    requires
        old(builder).wf(),
    ensures
        final(builder).wf(),
        final(builder).ir.diagram_type == old(builder).ir.diagram_type,
        old(builder).warnings@.len() <= final(builder).warnings@.len(),
        forall|i: int|
            0 <= i < old(builder).warnings@.len() ==> #[trigger] final(builder).warnings@[i]
                == old(builder).warnings@[i],
        old(builder).ir.edges@.len() + plain_edges_from(s@, 0) <= final(builder).ir.edges@.len(),
        final(builder).ir.edges@.len() <= old(builder).ir.edges@.len() + all_edges_from(s@, 0),
{
    let forward = scan_forward_members(s);
    builder.set_forward_members(forward);
    let ghost b0 = *builder;
    let n = s.len();
    let mut open: Vec<OpenGroup> = Vec::new();
    let mut headers: usize = 0;
    let mut line_number: usize = 1;
    let mut i: usize = 0;
    let ghost mut lo: nat = 0;
    let ghost mut hi: nat = 0;
    loop
        invariant_except_break
            lo + plain_edges_from(s@, i as int) == plain_edges_from(s@, 0),
            hi + all_edges_from(s@, i as int) == all_edges_from(s@, 0),
            b0.ir.edges@.len() + lo <= builder.ir.edges@.len() <= b0.ir.edges@.len() + hi,
        invariant
            i <= n == s@.len(),
            grows(b0, *builder),
            open_ok(open@, *builder),
        ensures
            grows(b0, *builder),
            b0.ir.edges@.len() + plain_edges_from(s@, 0) <= builder.ir.edges@.len(),
            builder.ir.edges@.len() <= b0.ir.edges@.len() + all_edges_from(s@, 0),
        decreases n - i,
    {
        let nl = index_of_char(s, i, n, '\n');
        let (ta, tb) = trim_window(s, i, nl);
        let ghost l = s@.subrange(ta as int, tb as int);
        assert(nl == line_end(s@, i as int));
        assert(l == trim(s@.subrange(i as int, nl as int)));
        let span = Span::at_line(line_number, line_width(s, i, nl));
        let ghost b1 = *builder;
        let ghost mut lowered = false;
        if ta < tb && !is_comment_window(s, ta, tb) {
            if is_flowchart_header(s, ta, tb) {
                if let Some(d) = parse_graph_direction(s, ta, tb) {
                    builder.set_direction(d);
                }
            } else if crate::directives::lower_class_assignment(builder, s, ta, tb, span) {
            } else if crate::directives::lower_click_directive(builder, s, ta, tb, line_number, span) {
            } else if let Some((ra, rb)) = subgraph_rest_window(s, ta, tb) {
                let (id, title) = subgraph_header(s, ra, rb);
                open_subgraph(
                    builder,
                    &mut open,
                    id,
                    title,
                    headers,
                    config.max_nesting_depth,
                    line_number,
                    span,
                );
                if headers < usize::MAX {
                    headers = headers + 1;
                }
            } else if is_end_window(s, ta, tb) {
                let ghost ob = open@;
                let _ = open.pop();
                proof {
                    assert forall|k: int| 0 <= k < open@.len() implies (#[trigger] open@[k] matches Some((c, g))
                        ==> c < builder.ir.clusters@.len() && g < builder.ir.subgraphs@.len()) by {
                        assert(open@[k] == ob[k]);
                    }
                }
            } else if !is_non_graph_statement(s, ta, tb) {
                lower_statements(builder, s, ta, tb, &open, line_number, span);
                proof {
                    lowered = true;
                }
            }
        }
        proof {
            lemma_grows_trans(b0, b1, *builder);
            assert(plain_line(l) ==> lowered);
            assert(lowered ==> builder.ir.edges@.len() == b1.ir.edges@.len() + line_edges(l));
            assert(!lowered ==> builder.ir.edges@.len() == b1.ir.edges@.len());
            lemma_line_step(s@, i as int);
            lo = lo + if plain_line(l) {
                line_edges(l)
            } else {
                0nat
            };
            hi = hi + line_edges(l);
        }
        if nl >= n {
            break;
        }
        i = nl + 1;
        if line_number < usize::MAX {
            line_number = line_number + 1;
        }
    }
}

} // verus!
