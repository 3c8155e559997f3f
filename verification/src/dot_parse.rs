//! The DOT parser: statements of the graph body become nodes, edges, clusters, subgraphs,
//! constraints, styles and graph settings.
use vstd::prelude::*;

use crate::builder::{IrBuilder, intern_post};
use crate::detect::{DetectionMethod, DiagramType};
use crate::dot_attrs::{
    clean_value_window, extract_dot_attribute_raw, parse_dot_label, split_endpoint_and_attrs,
};
use crate::dot_detect::{
    dot_header_kind_exec, strip_all_comments, strip_leading_mermaid_directives,
    strip_trailing_mermaid_directives,
};
use crate::dot_scan::{contains_directed_edge_operator, edge_op_from, find_edge_operator};
use crate::dot_stmt::{
    DotMinLen, DotRankValue, parse_dot_graph_attribute_key, parse_dot_label_statement,
    parse_dot_minlen, parse_dot_named_attribute, parse_dot_rank_attribute, parse_dot_rankdir,
    parse_dot_rankdir_value,
};
use crate::dot_style::{
    DotEdgeStyle, DotNodeColors, dot_arrow_type, parse_dot_edge_style, parse_dot_shape,
    parse_dot_shape_value, parse_subgraph_start,
};
use crate::dot_text::{expand_edge_groups, extract_body, has_brace, normalize_dot_body, split_dot_by, split_struct_from};
use crate::flowchart::{grows, lemma_grows_refl, lemma_grows_trans};
use crate::identifier::normalize_dot_identifier;
use crate::ir::{spec_clean_label, ArrowType, EdgeRoutingHint, GraphDirection, IrConstraint, IrNodeId, IrStyleTarget, NodeShape, ParseResult, Span};
use crate::text::{
    chars_of, index_of_char, line_message, owned, push_decimal, push_str, push_window, string_from_chars,
    string_of_window, strings_contain, trim, trim_window, window_vec,
};

verus! {

/// A parsed node reference: its normalised id, its label and its shape, if named.
pub struct DotNode {
    pub id: String,
    pub label: Option<Vec<char>>,
    pub shape: Option<NodeShape>,
}

impl DotNode {
    /// The node reference as plain values: its id, label and shape.
    pub open spec fn view_parts(&self) -> (Seq<char>, Option<Seq<char>>, Option<NodeShape>) {
        (
            self.id@,
            match self.label {
                Some(l) => Some(l@),
                None => None,
            },
            self.shape,
        )
    }
}

/// The node reference `f`: none for a blank fragment or a lone brace, or when the id before any
/// `:port` normalises to nothing; else that id, with the label and shape of the attribute list.
pub open spec fn spec_dot_fragment(f: Seq<char>) -> Option<(Seq<char>, Option<Seq<char>>, Option<NodeShape>)> {
    let t = trim(f);
    if t.len() == 0 || (t.len() == 1 && (t[0] == '{' || t[0] == '}')) {
        None
    } else {
        let (ep, attrs) = crate::dot_attrs::spec_split_endpoint(t);
        let id = crate::identifier::spec_normalize_identifier(ep.take(crate::text::idx_of(ep, ':') as int), true);
        if id.len() == 0 {
            None
        } else {
            match attrs {
                Some(w) => Some((id, crate::dot_attrs::spec_dot_label(w), crate::dot_style::spec_node_shape(w))),
                None => Some((id, None, None)),
            }
        }
    }
}

/// A node reference `s[lo..hi]`: the id before any `:port`, normalised, with the label and shape
/// of its attribute list.
pub fn parse_dot_node_fragment(s: &Vec<char>, lo: usize, hi: usize) -> (r: Option<DotNode>)
    requires
        lo <= hi <= s@.len(),
    ensures
        r matches Some(n) ==> n.id@.len() > 0 && spec_dot_fragment(s@.subrange(lo as int, hi as int)) == Some(
            n.view_parts(),
        ),
        r is None ==> spec_dot_fragment(s@.subrange(lo as int, hi as int)) is None,
{
    let (a, b) = trim_window(s, lo, hi);
    if a == b || (b - a == 1 && (s[a] == '{' || s[a] == '}')) {
        return None;
    }
    let (ea, eb, attrs) = split_endpoint_and_attrs(s, a, b);
    let colon = index_of_char(s, ea, eb, ':');
    proof {
        assert(s@.subrange(ea as int, colon as int) =~= s@.subrange(ea as int, eb as int).take(
            crate::text::idx_of(s@.subrange(ea as int, eb as int), ':') as int,
        ));
    }
    let raw = string_of_window(s, ea, colon);
    let id = normalize_dot_identifier(raw.as_str());
    if id.as_str().is_empty() {
        return None;
    }
    let (label, shape) = match attrs {
        Some((aa, ab)) => {
            let w = window_vec(s, aa, ab);
            (parse_dot_label(&w), parse_dot_shape(&w))
        },
        None => (None, None),
    };
    proof {
        assert(id@.len() > 0);
    }
    Some(DotNode { id, label, shape })
}

/// `node [...]` / `edge [...]` defaults in force.
pub struct DotDefaults {
    pub node_shape: Option<NodeShape>,
    pub edge_style: Option<DotEdgeStyle>,
    pub node_colors: DotNodeColors,
    pub edge_visuals: DotNodeColors,
}

fn copy_colors(c: &DotNodeColors) -> (r: DotNodeColors)
    ensures
        r.view_parts() == c.view_parts(),
{
    c.resolved_over(&DotNodeColors::empty())
}

impl DotDefaults {
    pub fn new() -> (r: DotDefaults)
        ensures
            r.node_shape is None,
            r.edge_style is None,
            r.node_colors.view_parts() == crate::dot_style::no_colors(),
            r.edge_visuals.view_parts() == crate::dot_style::no_colors(),
    {
        DotDefaults {
            node_shape: None,
            edge_style: None,
            node_colors: DotNodeColors::empty(),
            edge_visuals: DotNodeColors::empty(),
        }
    }

    pub fn copy(&self) -> (r: DotDefaults)
        ensures
            r.node_shape == self.node_shape,
            r.edge_style == self.edge_style,
            r.node_colors.view_parts() == self.node_colors.view_parts(),
            r.edge_visuals.view_parts() == self.edge_visuals.view_parts(),
    {
        DotDefaults {
            node_shape: self.node_shape,
            edge_style: self.edge_style,
            node_colors: copy_colors(&self.node_colors),
            edge_visuals: copy_colors(&self.edge_visuals),
        }
    }
}

/// What one `{` opened, so that its `}` undoes exactly that.
pub struct DotBraceScope {
    pub pushed_cluster: bool,
    pub pushed_subgraph: bool,
    /// The node ids of a `rank=same` group, once `rank=same` was seen in it.
    pub same_rank: Option<Vec<String>>,
    /// The defaults in force when the brace opened.
    pub saved_defaults: DotDefaults,
}

/// The parser's open groups, innermost last, and the scopes of open braces.
pub struct DotGroups {
    pub clusters: Vec<usize>,
    pub subgraphs: Vec<usize>,
    pub scopes: Vec<DotBraceScope>,
    pub defaults: DotDefaults,
    /// Whether a `subgraph` statement has just opened its scope, so that the `{` that follows it
    /// belongs to that scope and opens none of its own.
    pub brace_pending: bool,
}

impl DotGroups {
    /// Every open group names an existing cluster or subgraph.
    pub open spec fn ok(&self, b: IrBuilder) -> bool {
        &&& forall|k: int| 0 <= k < self.clusters@.len() ==> #[trigger] self.clusters@[k] < b.ir.clusters@.len()
        &&& forall|k: int| 0 <= k < self.subgraphs@.len() ==> #[trigger] self.subgraphs@[k] < b.ir.subgraphs@.len()
    }
}

proof fn lemma_groups_grow(g: &DotGroups, b0: IrBuilder, b1: IrBuilder)
    requires
        g.ok(b0),
        grows(b0, b1),
    ensures
        g.ok(b1),
{
}

/// Append `text` to `b`'s warnings, keeping everything else.
fn warn(b: &mut IrBuilder, text: Vec<char>)
    requires
        old(b).wf(),
    ensures
        grows(*old(b), *final(b)),
        final(b).ir == old(b).ir,
        final(b).warnings@.len() == old(b).warnings@.len() + 1,
{
    let ghost b0 = *b;
    b.add_warning(string_from_chars(&text));
    proof {
        assert forall|i: int| 0 <= i < b0.warnings@.len() implies #[trigger] b.warnings@[i]
            == b0.warnings@[i] by {
            assert(b.warnings@.drop_last()[i] == b.warnings@[i]);
        }
    }
}

/// Add `node` to every open cluster and subgraph.
fn add_node_to_active_groups(b: &mut IrBuilder, g: &DotGroups, node: IrNodeId)
    requires
        old(b).wf(),
        node.0 < old(b).ir.nodes@.len(),
    ensures
        grows(*old(b), *final(b)),
        final(b).ir.nodes@ == old(b).ir.nodes@,
        final(b).ir.edges@ == old(b).ir.edges@,
        final(b).ir.clusters@.len() == old(b).ir.clusters@.len(),
        final(b).ir.subgraphs@.len() == old(b).ir.subgraphs@.len(),
        final(b).ir.direction == old(b).ir.direction,
        final(b).ir.constraints@ == old(b).ir.constraints@,
        forall|k: int| 0 <= k < g.clusters@.len() && #[trigger] g.clusters@[k] < final(b).ir.clusters@.len()
            ==> final(b).ir.clusters@[g.clusters@[k] as int].members@.contains(node),
        forall|k: int| 0 <= k < g.subgraphs@.len() && #[trigger] g.subgraphs@[k] < final(b).ir.subgraphs@.len()
            ==> final(b).ir.subgraphs@[g.subgraphs@[k] as int].members@.contains(node),
{
    let mut i: usize = 0;
    while i < g.clusters.len()
        invariant
            i <= g.clusters@.len(),
            forall|k: int| 0 <= k < i && #[trigger] g.clusters@[k] < b.ir.clusters@.len()
                ==> b.ir.clusters@[g.clusters@[k] as int].members@.contains(node),
            b.wf(),
            node.0 < b.ir.nodes@.len(),
            b.ir.nodes@ == old(b).ir.nodes@,
            b.ir.edges@ == old(b).ir.edges@,
            b.warnings@ == old(b).warnings@,
            b.ir.diagram_type == old(b).ir.diagram_type,
            b.ir.direction == old(b).ir.direction,
            b.ir.constraints@ == old(b).ir.constraints@,
            b.ir.clusters@.len() == old(b).ir.clusters@.len(),
            b.ir.subgraphs@.len() == old(b).ir.subgraphs@.len(),
        decreases g.clusters@.len() - i,
    {
        let ghost bi = *b;
        b.add_node_to_cluster(g.clusters[i], node);
        proof {
            let ci = g.clusters@[i as int] as int;
            if ci < bi.ir.clusters@.len() {
                if !bi.ir.clusters@[ci].members@.contains(node) {
                    assert(b.ir.clusters@[ci].members@[bi.ir.clusters@[ci].members@.len() as int] == node);
                }
            }
            assert forall|k: int| 0 <= k <= i && #[trigger] g.clusters@[k] < b.ir.clusters@.len()
                implies b.ir.clusters@[g.clusters@[k] as int].members@.contains(node) by {
                let ck = g.clusters@[k] as int;
                if ck != ci {
                    assert(b.ir.clusters@[ck] == bi.ir.clusters@[ck]);
                }
            }
        }
        i = i + 1;
    }
    let mut j: usize = 0;
    let ghost bc = *b;
    while j < g.subgraphs.len()
        invariant
            j <= g.subgraphs@.len(),
            b.ir.clusters@ == bc.ir.clusters@,
            forall|k: int| 0 <= k < g.clusters@.len() && #[trigger] g.clusters@[k] < bc.ir.clusters@.len()
                ==> bc.ir.clusters@[g.clusters@[k] as int].members@.contains(node),
            forall|k: int| 0 <= k < j && #[trigger] g.subgraphs@[k] < b.ir.subgraphs@.len()
                ==> b.ir.subgraphs@[g.subgraphs@[k] as int].members@.contains(node),
            b.wf(),
            node.0 < b.ir.nodes@.len(),
            b.ir.nodes@ == old(b).ir.nodes@,
            b.ir.edges@ == old(b).ir.edges@,
            b.warnings@ == old(b).warnings@,
            b.ir.diagram_type == old(b).ir.diagram_type,
            b.ir.direction == old(b).ir.direction,
            b.ir.constraints@ == old(b).ir.constraints@,
            b.ir.clusters@.len() == old(b).ir.clusters@.len(),
            b.ir.subgraphs@.len() == old(b).ir.subgraphs@.len(),
        decreases g.subgraphs@.len() - j,
    {
        let ghost bj = *b;
        b.add_node_to_subgraph(g.subgraphs[j], node);
        proof {
            let si = g.subgraphs@[j as int] as int;
            if si < bj.ir.subgraphs@.len() {
                if !bj.ir.subgraphs@[si].members@.contains(node) {
                    assert(b.ir.subgraphs@[si].members@[bj.ir.subgraphs@[si].members@.len() as int] == node);
                }
            }
            assert forall|k: int| 0 <= k <= j && #[trigger] g.subgraphs@[k] < b.ir.subgraphs@.len()
                implies b.ir.subgraphs@[g.subgraphs@[k] as int].members@.contains(node) by {
                let sk = g.subgraphs@[k] as int;
                if sk != si {
                    assert(b.ir.subgraphs@[sk] == bj.ir.subgraphs@[sk]);
                }
            }
        }
        j = j + 1;
    }
}

/// Intern the node a fragment names, with `shape` when it names none.
fn intern_dot_node(b: &mut IrBuilder, n: &DotNode, default_shape: Option<NodeShape>, span: Span) -> (r:
    Option<IrNodeId>)
    requires
        old(b).wf(),
        n.id@.len() > 0,
    ensures
        grows(*old(b), *final(b)),
        final(b).ir.edges@ == old(b).ir.edges@,
        final(b).ir.direction == old(b).ir.direction,
        (r is None) == (trim(n.id@).len() == 0),
        r matches Some(k) ==> k.0 < final(b).ir.nodes@.len() && final(b).ir.nodes@[k.0 as int].id@ == trim(n.id@),
        final(b).ir.constraints@ == old(b).ir.constraints@,
{
    let shape = match n.shape {
        Some(sh) => sh,
        None => match default_shape {
            Some(sh) => sh,
            None => NodeShape::Rect,
        },
    };
    let label_text = match &n.label {
        Some(l) => Some(string_from_chars(l)),
        None => None,
    };
    let label = match &label_text {
        Some(l) => Some(l.as_str()),
        None => None,
    };
    let ghost b0 = *b;
    let r = b.intern_node(n.id.as_str(), label, shape, span);
    proof {
        if let Some(k) = r {
            crate::flowchart::lemma_intern_step_pub(b0, *b, trim(n.id@), crate::builder::opt_text(label), shape, span, k);
        } else {
            assert(b.warnings@.drop_last() == b0.warnings@);
            assert forall|i: int| 0 <= i < b0.warnings@.len() implies #[trigger] b.warnings@[i]
                == b0.warnings@[i] by {
                assert(b.warnings@.drop_last()[i] == b.warnings@[i]);
            }
        }
    }
    r
}

/// Whether `t` is an edge statement: it holds an edge operator (`->`, or else `--`) outside
/// quotes and brackets, and splitting at that operator gives at least two parts.
pub open spec fn is_edge_statement(t: Seq<char>) -> bool {
    match edge_op_from(t, 0) {
        Some(arrow) => split_struct_from(t, if arrow {
            seq!['-', '>']
        } else {
            seq!['-', '-']
        }, 0, 0).len() >= 2,
        None => false,
    }
}

/// The operator an edge statement `t` is split at: `->` when its first edge operator is one, else
/// `--`.
pub open spec fn edge_op_of(t: Seq<char>) -> Seq<char> {
    if edge_op_from(t, 0) == Some(true) {
        seq!['-', '>']
    } else {
        seq!['-', '-']
    }
}

/// The parts of the edge statement `t`, split at its operator.
pub open spec fn edge_parts(t: Seq<char>) -> Seq<Seq<char>> {
    split_struct_from(t, edge_op_of(t), 0, 0)
}

/// The shared attribute list of the edge statement `t`: the one after its last endpoint.
pub open spec fn edge_shared_attrs(t: Seq<char>) -> Option<Seq<char>> {
    crate::dot_attrs::spec_split_endpoint(edge_parts(t).last()).1
}

/// The endpoints of hop `k` of the edge statement `t`: part `k`, and part `k + 1` (the last one
/// without its attribute list).
pub open spec fn hop_ends(t: Seq<char>, k: int) -> (Seq<char>, Seq<char>) {
    let parts = edge_parts(t);
    (parts[k], if k + 1 == parts.len() - 1 {
        crate::dot_attrs::spec_split_endpoint(parts[k + 1]).0
    } else {
        parts[k + 1]
    })
}

/// The node ids hop `k` of `t` joins, when both ends are node references whose ids trim to
/// something.
pub open spec fn hop_edge(t: Seq<char>, k: int) -> Option<(Seq<char>, Seq<char>)> {
    let (x, y) = hop_ends(t, k);
    match (spec_dot_fragment(x), spec_dot_fragment(y)) {
        (Some(f), Some(g)) => if trim(f.0).len() > 0 && trim(g.0).len() > 0 {
            Some((trim(f.0), trim(g.0)))
        } else {
            None
        },
        _ => None,
    }
}

/// The edges of the hops of `t` from hop `k` on, as the node ids they join.
pub open spec fn hop_edges_from(t: Seq<char>, k: int) -> Seq<(Seq<char>, Seq<char>)>
    decreases edge_parts(t).len() - k,
{
    if k < 0 || k + 1 >= edge_parts(t).len() {
        seq![]
    } else {
        (match hop_edge(t, k) {
            Some(e) => seq![e],
            None => seq![],
        }) + hop_edges_from(t, k + 1)
    }
}

/// The node ids hop `k` of `t` names, as written (before trimming), when it makes an edge.
pub open spec fn hop_raw(t: Seq<char>, k: int) -> Option<(Seq<char>, Seq<char>)> {
    let (x, y) = hop_ends(t, k);
    match (spec_dot_fragment(x), spec_dot_fragment(y)) {
        (Some(f), Some(g)) => if trim(f.0).len() > 0 && trim(g.0).len() > 0 {
            Some((f.0, g.0))
        } else {
            None
        },
        _ => None,
    }
}

/// The ids, as written, of the hops of `t` from hop `k` on that make edges.
pub open spec fn hop_raws_from(t: Seq<char>, k: int) -> Seq<(Seq<char>, Seq<char>)>
    decreases edge_parts(t).len() - k,
{
    if k < 0 || k + 1 >= edge_parts(t).len() {
        seq![]
    } else {
        (match hop_raw(t, k) {
            Some(e) => seq![e],
            None => seq![],
        }) + hop_raws_from(t, k + 1)
    }
}

/// The rank count that the shared attribute list of the edge statement `t` asks each hop to span
/// (`minlen` of two or more).
pub open spec fn edge_min_ranks(t: Seq<char>) -> Option<nat> {
    match edge_shared_attrs(t) {
        Some(a) => match crate::dot_stmt::spec_minlen(a) {
            Some(crate::dot_stmt::MinLenView::Ranks(n)) => Some(n),
            _ => None,
        },
        None => None,
    }
}

/// The `MinLength` constraints of `n` ranks, on the line of `span`, between the ids of each pair
/// of `rs`.
pub open spec fn minlen_set(rs: Seq<(Seq<char>, Seq<char>)>, n: usize, span: Span) -> Set<crate::builder::ConstraintView> {
    Set::new(
        |v: crate::builder::ConstraintView|
            exists|j: int| 0 <= j < rs.len() && v == crate::builder::ConstraintView::MinLength(#[trigger] rs[j].0, rs[j].1, n, span),
    )
}

/// The constraints the edge statement `t` on the line of `span` asks for: one `MinLength` per
/// hop between nodes, when its attributes ask each hop to span two or more ranks.
pub open spec fn hop_minlens(t: Seq<char>, span: Span) -> Set<crate::builder::ConstraintView> {
    match edge_min_ranks(t) {
        Some(n) => minlen_set(hop_raws_from(t, 0), n as usize, span),
        None => Set::empty(),
    }
}

/// The arrow of the edges of `t` in a graph that is `directed` or not, with `default_style` in
/// force: the shared attribute list's style, or else the default.
pub open spec fn edge_arrow(t: Seq<char>, directed: bool, default_style: Option<DotEdgeStyle>) -> ArrowType {
    let style = match edge_shared_attrs(t) {
        Some(a) => match crate::dot_style::spec_edge_style(a) {
            Some(st) => Some(st),
            None => default_style,
        },
        None => default_style,
    };
    crate::dot_style::spec_dot_arrow(edge_op_from(t, 0) == Some(true) || directed, style)
}

/// Every edge that `b1` has beyond those of `b0` joins two nodes (no end is unresolved).
pub open spec fn new_edges_join_nodes(b0: IrBuilder, b1: IrBuilder) -> bool {
    forall|k: int|
        b0.ir.edges@.len() <= k < b1.ir.edges@.len() ==> (#[trigger] b1.ir.edges@[k]).from is Node
            && b1.ir.edges@[k].to is Node
}

proof fn lemma_join_nodes_trans(b0: IrBuilder, b1: IrBuilder, b2: IrBuilder)
    requires
        grows(b0, b1),
        grows(b1, b2),
        new_edges_join_nodes(b0, b1),
        new_edges_join_nodes(b1, b2),
    ensures
        new_edges_join_nodes(b0, b2),
{
    assert forall|k: int| b0.ir.edges@.len() <= k < b2.ir.edges@.len() implies (#[trigger] b2.ir.edges@[k]).from is Node
        && b2.ir.edges@[k].to is Node by {
        if k < b1.ir.edges@.len() {
            assert(b2.ir.edges@[k] == b1.ir.edges@[k]);
        }
    }
}

/// Whether `e` joins the nodes with ids `ends`, with `arrow`.
pub open spec fn edge_joins(ir: crate::ir::MermaidDiagramIr, e: crate::ir::IrEdge, ends: (Seq<char>, Seq<char>), arrow: ArrowType) -> bool {
    &&& e.from matches crate::ir::IrEndpoint::Node(x) && x.0 < ir.nodes@.len() && ir.nodes@[x.0 as int].id@ == ends.0
    &&& e.to matches crate::ir::IrEndpoint::Node(y) && y.0 < ir.nodes@.len() && ir.nodes@[y.0 as int].id@ == ends.1
    &&& e.arrow == arrow
}

proof fn lemma_joins_grow(b1: IrBuilder, b2: IrBuilder, e: crate::ir::IrEdge, ends: (Seq<char>, Seq<char>), arrow: ArrowType)
    requires
        grows(b1, b2),
        edge_joins(b1.ir, e, ends, arrow),
    ensures
        edge_joins(b2.ir, e, ends, arrow),
{
    if let crate::ir::IrEndpoint::Node(x) = e.from {
        assert(b2.ir.nodes@[x.0 as int].id@ == b1.ir.nodes@[x.0 as int].id@);
    }
    if let crate::ir::IrEndpoint::Node(y) = e.to {
        assert(b2.ir.nodes@[y.0 as int].id@ == b1.ir.nodes@[y.0 as int].id@);
    }
}

/// Lower an edge statement `s[lo..hi]` (`a -> b -> c [attrs]`): one edge per hop, with the
/// shared attribute list's label, style, colours and `minlen`. Returns whether the statement
/// had an edge operator and at least two parts; when it had not, nothing changes.
#[verifier::rlimit(100)]
fn lower_dot_edge_statement(
    b: &mut IrBuilder,
    s: &Vec<char>,
    lo: usize,
    hi: usize,
    directed: bool,
    g: &DotGroups,
    line_number: usize,
    span: Span,
) -> (r: bool)
    requires
        old(b).wf(),
        lo <= hi <= s@.len(),
        g.ok(*old(b)),
    ensures
        grows(*old(b), *final(b)),
        final(b).ir.direction == old(b).ir.direction,
        g.ok(*final(b)),
        r == is_edge_statement(s@.subrange(lo as int, hi as int)),
        !r ==> *final(b) == *old(b),
        r ==> final(b).ir.edges@.len() == old(b).ir.edges@.len() + hop_edges_from(s@.subrange(lo as int, hi as int), 0).len(),
        r ==> forall|j: int| 0 <= j < hop_edges_from(s@.subrange(lo as int, hi as int), 0).len() ==> edge_joins(
            final(b).ir,
            #[trigger] final(b).ir.edges@[old(b).ir.edges@.len() + j],
            hop_edges_from(s@.subrange(lo as int, hi as int), 0)[j],
            edge_arrow(s@.subrange(lo as int, hi as int), directed, g.defaults.edge_style),
        ),
        new_edges_join_nodes(*old(b), *final(b)),
        r ==> constraint_views(final(b).ir).to_set() == constraint_views(old(b).ir).to_set().union(
            hop_minlens(s@.subrange(lo as int, hi as int), span),
        ),
        r ==> (edge_min_ranks(s@.subrange(lo as int, hi as int)) matches Some(n) ==> forall|j: int|
            0 <= j < hop_raws_from(s@.subrange(lo as int, hi as int), 0).len() ==> constraint_views(final(b).ir).contains(
                crate::builder::ConstraintView::MinLength(
                    #[trigger] hop_raws_from(s@.subrange(lo as int, hi as int), 0)[j].0,
                    hop_raws_from(s@.subrange(lo as int, hi as int), 0)[j].1,
                    n as usize,
                    span,
                ),
            )),
{
    let w = window_vec(s, lo, hi);
    let arrow_op = match find_edge_operator(&w) {
        Some(x) => x,
        None => {
            proof {
                lemma_grows_refl(*b);
            }
            return false;
        },
    };
    let op: Vec<char> = if arrow_op {
        vec!['-', '>']
    } else {
        vec!['-', '-']
    };
    assert(op@ =~= if arrow_op {
        seq!['-', '>']
    } else {
        seq!['-', '-']
    });
    let parts = split_dot_by(&w, &op);
    assert(parts@.len() == split_struct_from(w@, op@, 0, 0).len());
    if parts.len() < 2 {
        proof {
            lemma_grows_refl(*b);
        }
        return false;
    }
    let last = parts.len() - 1;
    let (la, lb) = parts[last];
    let (fa, fb, shared) = split_endpoint_and_attrs(&w, la, lb);
    let shared_w: Option<Vec<char>> = match shared {
        Some((x, y)) => Some(window_vec(&w, x, y)),
        None => None,
    };
    let edge_label: Option<Vec<char>> = match &shared_w {
        Some(a) => parse_dot_label(a),
        None => None,
    };
    let min_len: Option<DotMinLen> = match &shared_w {
        Some(a) => parse_dot_minlen(a),
        None => None,
    };
    let style = match &shared_w {
        Some(a) => match parse_dot_edge_style(a) {
            Some(st) => Some(st),
            None => g.defaults.edge_style,
        },
        None => g.defaults.edge_style,
    };
    let arrow = dot_arrow_type(arrow_op || directed, style);
    let visuals = match &shared_w {
        Some(a) => DotNodeColors::parse(a),
        None => DotNodeColors::empty(),
    };
    let edge_css = visuals.resolved_over(&g.defaults.edge_visuals).to_edge_css();
    let label_text = match &edge_label {
        Some(l) => Some(string_from_chars(l)),
        None => None,
    };
    let ghost b0 = *b;
    let ghost t = w@;
    let ghost hops = hop_edges_from(t, 0);
    let ghost raws = hop_raws_from(t, 0);
    let ghost mut done: Seq<(Seq<char>, Seq<char>)> = seq![];
    let ghost mut rdone: Seq<(Seq<char>, Seq<char>)> = seq![];
    proof {
        assert(edge_op_of(t) == op@);
        assert(parts@.len() == edge_parts(t).len());
        assert(w@.subrange(la as int, lb as int) == edge_parts(t)[last as int]);
        assert(arrow == edge_arrow(t, directed, g.defaults.edge_style));
        assert(edge_min_ranks(t) == match min_len {
            Some(DotMinLen::Ranks(n)) => Some(n as nat),
            _ => None::<nat>,
        });
    }
    proof {
        if let Some(DotMinLen::Ranks(n)) = min_len {
            assert(minlen_set(rdone, n, span) =~= Set::empty());
        }
        assert(constraint_views(b.ir).to_set().union(Set::empty()) =~= constraint_views(b.ir).to_set());
        assert(constraint_views(b.ir).to_set().union(match min_len {
            Some(DotMinLen::Ranks(n)) => minlen_set(rdone, n, span),
            _ => Set::empty(),
        }) =~= constraint_views(b0.ir).to_set());
    }
    let mut i: usize = 0;
    while i < last
        invariant
            i <= last < parts@.len(),
            last == parts@.len() - 1,
            grows(b0, *b),
            b.ir.direction == b0.ir.direction,
            g.ok(*b),
            forall|k: int| 0 <= k < parts@.len() ==> (#[trigger] parts@[k]).0 <= parts@[k].1 <= w@.len(),
            fa <= fb <= w@.len(),
            t == w@,
            parts@.map_values(|p: (usize, usize)| w@.subrange(p.0 as int, p.1 as int)) == edge_parts(t),
            w@.subrange(fa as int, fb as int) == crate::dot_attrs::spec_split_endpoint(edge_parts(t)[last as int]).0,
            arrow == edge_arrow(t, directed, g.defaults.edge_style),
            done + hop_edges_from(t, i as int) == hops,
            b.ir.edges@.len() == b0.ir.edges@.len() + done.len(),
            forall|j: int| 0 <= j < done.len() ==> edge_joins(b.ir, #[trigger] b.ir.edges@[b0.ir.edges@.len() + j], done[j], arrow),
            rdone + hop_raws_from(t, i as int) == raws,
            edge_min_ranks(t) == match min_len {
                Some(DotMinLen::Ranks(n)) => Some(n as nat),
                _ => None::<nat>,
            },
            min_len matches Some(DotMinLen::Ranks(n)) ==> forall|j: int| 0 <= j < rdone.len() ==> constraint_views(b.ir).contains(
                crate::builder::ConstraintView::MinLength(#[trigger] rdone[j].0, rdone[j].1, n, span),
            ),
            constraint_views(b.ir).to_set() == constraint_views(b0.ir).to_set().union(match min_len {
                Some(DotMinLen::Ranks(n)) => minlen_set(rdone, n, span),
                _ => Set::empty(),
            }),
        decreases last - i,
    {
        let (xa, xb) = parts[i];
        let (ya, yb) = if i + 1 == last {
            (fa, fb)
        } else {
            parts[i + 1]
        };
        let ghost bi = *b;
        let ghost exp: Set<crate::builder::ConstraintView> = match min_len {
            Some(DotMinLen::Ranks(n)) => match hop_raw(t, i as int) {
                Some(e) => set![crate::builder::ConstraintView::MinLength(e.0, e.1, n, span)],
                None => Set::empty(),
            },
            _ => Set::empty(),
        };
        proof {
            assert(w@.subrange(xa as int, xb as int) == edge_parts(t)[i as int]);
            if i + 1 < last {
                assert(w@.subrange(ya as int, yb as int) == edge_parts(t)[i + 1]);
            }
            assert((w@.subrange(xa as int, xb as int), w@.subrange(ya as int, yb as int)) == hop_ends(t, i as int));
        }
        let from_node = parse_dot_node_fragment(&w, xa, xb);
        let to_node = parse_dot_node_fragment(&w, ya, yb);
        match (from_node, to_node) {
            (None, _) => {
                let mut m = line_message(line_number, "invalid DOT edge source: ");
                let (ta, tb) = trim_window(&w, xa, xb);
                push_window(&mut m, &w, ta, tb);
                warn(b, m);
                proof {
                    assert(keeps_constraints(bi, *b));
                    assert(constraint_views(b.ir) == constraint_views(bi.ir));
                    assert(exp =~= Set::<crate::builder::ConstraintView>::empty());
                    assert(constraint_views(b.ir).to_set() =~= constraint_views(bi.ir).to_set().union(exp));
                }
            },
            (Some(_), None) => {
                let mut m = line_message(line_number, "invalid DOT edge target: ");
                let (ta, tb) = trim_window(&w, ya, yb);
                push_window(&mut m, &w, ta, tb);
                warn(b, m);
                proof {
                    assert(keeps_constraints(bi, *b));
                    assert(constraint_views(b.ir) == constraint_views(bi.ir));
                    assert(exp =~= Set::<crate::builder::ConstraintView>::empty());
                    assert(constraint_views(b.ir).to_set() =~= constraint_views(bi.ir).to_set().union(exp));
                }
            },
            (Some(fnode), Some(tnode)) => {
                let from = intern_dot_node(b, &fnode, g.defaults.node_shape, span);
                let ghost b1 = *b;
                let to = intern_dot_node(b, &tnode, g.defaults.node_shape, span);
                let ghost b2 = *b;
                proof {
                    lemma_grows_trans(bi, b1, b2);
                }
                if let (Some(f), Some(t)) = (from, to) {
                    let edge_index = b.edge_count();
                    let l = match &label_text {
                        Some(x) => Some(x.as_str()),
                        None => None,
                    };
                    b.push_edge(f, t, arrow, l, span);
                    let ghost b3 = *b;
                    proof {
                        assert(grows(b2, b3)) by {
                            assert forall|k: int| 0 <= k < b2.ir.edges@.len() implies #[trigger] b3.ir.edges@[k]
                                == b2.ir.edges@[k] by {
                                assert(b3.ir.edges@.drop_last()[k] == b3.ir.edges@[k]);
                            }
                        }
                    }
                    if let Some(css) = &edge_css {
                        b.push_style_ref(IrStyleTarget::Link(edge_index), string_from_chars(css), span);
                    }
                    let ghost b4 = *b;
                    add_node_to_active_groups(b, g, f);
                    let ghost b5 = *b;
                    add_node_to_active_groups(b, g, t);
                    let ghost b6 = *b;
                    proof {
                        assert(grows(b3, b4));
                        lemma_grows_trans(b4, b5, b6);
                        lemma_grows_trans(b3, b4, b6);
                    }
                    match &min_len {
                        Some(DotMinLen::Ranks(n)) => {
                            b.add_constraint(
                                IrConstraint::MinLength {
                                    from_id: fnode.id.clone(),
                                    to_id: tnode.id.clone(),
                                    min_len: *n,
                                    span,
                                },
                            );
                            proof {
                                assert(grows(b6, *b));
                                let o = constraint_views(b6.ir);
                                let f = constraint_views(b.ir);
                                let cv = crate::builder::ConstraintView::MinLength(fnode.id@, tnode.id@, *n, span);
                                if !o.contains(cv) {
                                    assert(f[o.len() as int] == cv);
                                }
                                assert(f.contains(cv));
                                assert forall|x: crate::builder::ConstraintView| o.contains(x) implies f.contains(x) by {
                                    let j = choose|j: int| 0 <= j < o.len() && o[j] == x;
                                    if !o.contains(cv) {
                                        assert(f[j] == o[j]);
                                    }
                                }
                                assert forall|x: crate::builder::ConstraintView| f.contains(x) implies o.contains(x)
                                    || x == cv by {
                                    let j = choose|j: int| 0 <= j < f.len() && f[j] == x;
                                    if !o.contains(cv) && j < o.len() {
                                        assert(f[j] == o[j]);
                                    }
                                }
                                assert(f.to_set() =~= o.to_set().insert(cv));
                                assert(keeps_constraints(b6, *b));
                            }
                        },
                        Some(DotMinLen::SameRankUnsupported) => {
                            let mut m = line_message(
                                line_number,
                                "DOT minlen=0 asks for both endpoints on one rank, which this engine cannot express for an edge; use { rank=same; ",
                            );
                            push_str(&mut m, fnode.id.as_str());
                            push_str(&mut m, "; ");
                            push_str(&mut m, tnode.id.as_str());
                            push_str(&mut m, "; } instead");
                            warn(b, m);
                        },
                        Some(DotMinLen::Invalid(text)) => {
                            let mut m = line_message(line_number, "DOT minlen=");
                            push_window(&mut m, text, 0, text.len());
                            push_str(&mut m, " is not a non-negative integer and was ignored");
                            warn(b, m);
                        },
                        None => {
                            proof {
                                lemma_grows_refl(*b);
                            }
                        },
                    }
                    proof {
                        lemma_grows_trans(b2, b3, b6);
                        lemma_grows_trans(b2, b6, *b);
                        lemma_grows_trans(bi, b2, *b);
                        assert(b6.ir.constraints@ == bi.ir.constraints@);
                        assert(keeps_constraints(bi, *b));
                        if let Some(DotMinLen::Ranks(n)) = min_len {
                            assert(exp =~= set![crate::builder::ConstraintView::MinLength(fnode.id@, tnode.id@, n, span)]);
                            assert(constraint_views(b.ir).to_set() =~= constraint_views(bi.ir).to_set().union(exp));
                        } else {
                            assert(constraint_views(b.ir) == constraint_views(bi.ir));
                            assert(constraint_views(b.ir).to_set() =~= constraint_views(bi.ir).to_set().union(exp));
                        }
                        assert(fnode.id@ == (spec_dot_fragment(w@.subrange(xa as int, xb as int))->0).0);
                        assert(tnode.id@ == (spec_dot_fragment(w@.subrange(ya as int, yb as int))->0).0);
                        if let Some(DotMinLen::Ranks(n)) = min_len {
                            assert(constraint_views(b.ir).contains(
                                crate::builder::ConstraintView::MinLength(fnode.id@, tnode.id@, n, span),
                            ));
                        }
                    }
                } else {
                    proof {
                        lemma_grows_trans(bi, b2, *b);
                        assert(keeps_constraints(bi, *b));
                        assert(constraint_views(b.ir) == constraint_views(bi.ir));
                        assert(exp =~= Set::<crate::builder::ConstraintView>::empty());
                        assert(constraint_views(b.ir).to_set() =~= constraint_views(bi.ir).to_set().union(exp));
                    }
                }
            },
        }
        proof {
            lemma_grows_trans(b0, bi, *b);
            let here: Seq<(Seq<char>, Seq<char>)> = match hop_edge(t, i as int) {
                Some(e) => seq![e],
                None => seq![],
            };
            assert(hop_edges_from(t, i as int) == here + hop_edges_from(t, i + 1));
            assert forall|j: int| 0 <= j < done.len() implies edge_joins(b.ir, #[trigger] b.ir.edges@[b0.ir.edges@.len() + j], done[j], arrow) by {
                assert(b.ir.edges@[b0.ir.edges@.len() + j] == bi.ir.edges@[b0.ir.edges@.len() + j]);
                lemma_joins_grow(bi, *b, bi.ir.edges@[b0.ir.edges@.len() + j], done[j], arrow);
            }
            assert(done + here + hop_edges_from(t, i + 1) =~= done + (here + hop_edges_from(t, i + 1)));
            done = done + here;
            let rhere: Seq<(Seq<char>, Seq<char>)> = match hop_raw(t, i as int) {
                Some(e) => seq![e],
                None => seq![],
            };
            assert(hop_raws_from(t, i as int) == rhere + hop_raws_from(t, i + 1));
            assert(keeps_constraints(bi, *b));
            if let Some(DotMinLen::Ranks(n)) = min_len {
                assert forall|j: int| 0 <= j < rdone.len() + rhere.len() implies constraint_views(b.ir).contains(
                    crate::builder::ConstraintView::MinLength(#[trigger] (rdone + rhere)[j].0, (rdone + rhere)[j].1, n, span),
                ) by {
                    if j < rdone.len() {
                        assert(constraint_views(bi.ir).contains(
                            crate::builder::ConstraintView::MinLength(rdone[j].0, rdone[j].1, n, span),
                        ));
                    }
                }
            }
            assert(rdone + rhere + hop_raws_from(t, i + 1) =~= rdone + (rhere + hop_raws_from(t, i + 1)));
            if let Some(DotMinLen::Ranks(n)) = min_len {
                assert(minlen_set(rdone + rhere, n, span) =~= minlen_set(rdone, n, span).union(exp)) by {
                    assert forall|v: crate::builder::ConstraintView| #[trigger] minlen_set(rdone + rhere, n, span).contains(v)
                        implies minlen_set(rdone, n, span).union(exp).contains(v) by {
                        let j = choose|j: int| 0 <= j < (rdone + rhere).len() && v == crate::builder::ConstraintView::MinLength(
                            #[trigger] (rdone + rhere)[j].0,
                            (rdone + rhere)[j].1,
                            n,
                            span,
                        );
                        if j < rdone.len() {
                            assert(v == crate::builder::ConstraintView::MinLength(rdone[j].0, rdone[j].1, n, span));
                        }
                    }
                    assert forall|v: crate::builder::ConstraintView| minlen_set(rdone, n, span).union(exp).contains(v)
                        implies #[trigger] minlen_set(rdone + rhere, n, span).contains(v) by {
                        if minlen_set(rdone, n, span).contains(v) {
                            let j = choose|j: int| 0 <= j < rdone.len() && v == crate::builder::ConstraintView::MinLength(
                                #[trigger] rdone[j].0,
                                rdone[j].1,
                                n,
                                span,
                            );
                            assert((rdone + rhere)[j] == rdone[j]);
                        } else {
                            assert((rdone + rhere)[rdone.len() as int] == rhere[0]);
                        }
                    }
                }
                assert(constraint_views(b.ir).to_set() =~= constraint_views(b0.ir).to_set().union(
                    minlen_set(rdone + rhere, n, span),
                ));
            } else {
                assert(constraint_views(b.ir).to_set() =~= constraint_views(b0.ir).to_set().union(Set::empty()));
            }
            rdone = rdone + rhere;
        }
        i = i + 1;
    }
    proof {
        assert(done == hops);
        assert(rdone == raws);
        assert(w@ =~= s@.subrange(lo as int, hi as int));
        if let Some(DotMinLen::Ranks(n)) = min_len {
            assert(hop_minlens(t, span) == minlen_set(raws, n, span));
        } else {
            assert(hop_minlens(t, span) == Set::<crate::builder::ConstraintView>::empty());
        }
        assert(w@ =~= s@.subrange(lo as int, hi as int));
        assert forall|k: int| b0.ir.edges@.len() <= k < b.ir.edges@.len() implies (#[trigger] b.ir.edges@[k]).from is Node
            && b.ir.edges@[k].to is Node by {
            let j = k - b0.ir.edges@.len();
            assert(edge_joins(b.ir, b.ir.edges@[b0.ir.edges@.len() + j], done[j], arrow));
        }
    }
    true
}

/// Lower a node statement `s[lo..hi]`: the node, its membership of the open groups and the CSS
/// of its colours. Returns whether it named a node.
fn lower_dot_node_statement(
    b: &mut IrBuilder,
    s: &Vec<char>,
    lo: usize,
    hi: usize,
    g: &DotGroups,
    span: Span,
) -> (r: bool)
    requires
        old(b).wf(),
        lo <= hi <= s@.len(),
        g.ok(*old(b)),
    ensures
        grows(*old(b), *final(b)),
        final(b).ir.direction == old(b).ir.direction,
        g.ok(*final(b)),
        r == (spec_dot_fragment(s@.subrange(lo as int, hi as int)) is Some),
        !r ==> *final(b) == *old(b),
        spec_dot_fragment(s@.subrange(lo as int, hi as int)) matches Some((id, _, _)) ==> final(b).ir.edges@
            == old(b).ir.edges@ && (trim(id).len() > 0 ==> final(b).ir.has_node(trim(id))),
        new_edges_join_nodes(*old(b), *final(b)),
{
    let node = match parse_dot_node_fragment(s, lo, hi) {
        Some(n) => n,
        None => {
            proof {
                lemma_grows_refl(*b);
            }
            return false;
        },
    };
    let ghost b0 = *b;
    let id = intern_dot_node(b, &node, g.defaults.node_shape, span);
    if let Some(k) = id {
        let ghost b1 = *b;
        add_node_to_active_groups(b, g, k);
        let ghost b2 = *b;
        let (ta, tb) = trim_window(s, lo, hi);
        let (_, _, attrs) = split_endpoint_and_attrs(s, ta, tb);
        let colors = match attrs {
            Some((x, y)) => DotNodeColors::parse(&window_vec(s, x, y)),
            None => DotNodeColors::empty(),
        };
        if let Some(css) = colors.resolved_over(&g.defaults.node_colors).to_css() {
            b.push_style_ref(IrStyleTarget::Node(k), string_from_chars(&css), span);
        }
        proof {
            assert(grows(b2, *b));
            lemma_grows_trans(b0, b1, b2);
            lemma_grows_trans(b0, b2, *b);
            assert(b.ir.nodes@[k.0 as int].id@ == b1.ir.nodes@[k.0 as int].id@);
        }
    }
    true
}

/// Close the innermost brace scope: restore its defaults, leave the groups it opened, and record
/// its `rank=same` constraint when it names at least two nodes. An unmatched `}` does nothing.
fn close_dot_brace_scope(b: &mut IrBuilder, g: &mut DotGroups, span: Span)
    requires
        old(b).wf(),
        old(g).ok(*old(b)),
    ensures
        grows(*old(b), *final(b)),
        final(b).ir.direction == old(b).ir.direction,
        final(g).ok(*final(b)),
        final(b).ir.nodes@ == old(b).ir.nodes@,
        final(b).ir.edges@ == old(b).ir.edges@,
        final(b).warnings@ == old(b).warnings@,
        final(g).brace_pending == old(g).brace_pending,
        old(g).scopes@.len() == 0 ==> *final(b) == *old(b) && final(g).clusters@ == old(g).clusters@
            && final(g).subgraphs@ == old(g).subgraphs@ && final(g).scopes@ == old(g).scopes@
            && final(g).defaults == old(g).defaults,
        old(g).scopes@.len() > 0 ==> {
            let sc = old(g).scopes@.last();
            &&& final(g).scopes@ == old(g).scopes@.drop_last()
            &&& final(g).defaults == sc.saved_defaults
            &&& final(g).clusters@ == if sc.pushed_cluster && old(g).clusters@.len() > 0 {
                old(g).clusters@.drop_last()
            } else {
                old(g).clusters@
            }
            &&& final(g).subgraphs@ == if sc.pushed_subgraph && old(g).subgraphs@.len() > 0 {
                old(g).subgraphs@.drop_last()
            } else {
                old(g).subgraphs@
            }
            &&& match sc.same_rank {
                Some(ids) => if ids@.len() >= 2 {
                    constraint_views(final(b).ir).to_set() == constraint_views(old(b).ir).to_set().insert(
                        crate::builder::ConstraintView::SameRank(string_views(ids@), span),
                    )
                } else {
                    final(b).ir.constraints@ == old(b).ir.constraints@
                },
                None => final(b).ir.constraints@ == old(b).ir.constraints@,
            }
        },
{
    let ghost b0 = *b;
    let scope = match g.scopes.pop() {
        Some(sc) => sc,
        None => {
            proof {
                lemma_grows_refl(*b);
            }
            return;
        },
    };
    g.defaults = scope.saved_defaults;
    if scope.pushed_cluster {
        let _ = g.clusters.pop();
    }
    if scope.pushed_subgraph {
        let _ = g.subgraphs.pop();
    }
    proof {
        assert forall|k: int| 0 <= k < g.clusters@.len() implies #[trigger] g.clusters@[k] < b.ir.clusters@.len() by {
            assert(g.clusters@[k] == old(g).clusters@[k]);
        }
        assert forall|k: int| 0 <= k < g.subgraphs@.len() implies #[trigger] g.subgraphs@[k] < b.ir.subgraphs@.len() by {
            assert(g.subgraphs@[k] == old(g).subgraphs@[k]);
        }
    }
    if let Some(ids) = scope.same_rank {
        if ids.len() >= 2 {
            let ghost bc = *b;
            let ghost c = IrConstraint::SameRank { node_ids: ids, span };
            b.add_constraint(IrConstraint::SameRank { node_ids: ids, span });
            proof {
                let o = constraint_views(bc.ir);
                let f = constraint_views(b.ir);
                assert(c.view_parts() == crate::builder::ConstraintView::SameRank(string_views(ids@), span));
                if !o.contains(c.view_parts()) {
                    assert(f[o.len() as int] == c.view_parts());
                }
                assert forall|x| o.to_set().contains(x) implies f.to_set().contains(x) by {
                    let j = choose|j: int| 0 <= j < o.len() && o[j] == x;
                    if !o.contains(c.view_parts()) {
                        assert(f[j] == o[j]);
                    }
                }
                assert forall|x| f.to_set().contains(x) implies o.to_set().insert(c.view_parts()).contains(x) by {
                    let j = choose|j: int| 0 <= j < f.len() && f[j] == x;
                    if !o.contains(c.view_parts()) && j < o.len() {
                        assert(f[j] == o[j]);
                    }
                }
                assert(f.to_set() =~= o.to_set().insert(c.view_parts()));
            }
        }
    }
    proof {
        assert(grows(b0, *b));
    }
}

/// A fresh brace scope that opened no group, collects no `rank=same` group, and saves the
/// defaults in force.
fn new_scope(g: &DotGroups) -> (r: DotBraceScope)
    ensures
        !r.pushed_cluster,
        !r.pushed_subgraph,
        r.same_rank is None,
        r.saved_defaults.node_shape == g.defaults.node_shape,
        r.saved_defaults.edge_style == g.defaults.edge_style,
        r.saved_defaults.node_colors.view_parts() == g.defaults.node_colors.view_parts(),
        r.saved_defaults.edge_visuals.view_parts() == g.defaults.edge_visuals.view_parts(),
{
    DotBraceScope {
        pushed_cluster: false,
        pushed_subgraph: false,
        same_rank: None,
        saved_defaults: g.defaults.copy(),
    }
}

/// Every constraint of `b1` is still one of `b2`.
pub open spec fn keeps_constraints(b1: IrBuilder, b2: IrBuilder) -> bool {
    forall|x: crate::builder::ConstraintView| constraint_views(b1.ir).contains(x) ==> constraint_views(b2.ir).contains(x)
}

/// The constraints of `ir` as plain values.
pub open spec fn constraint_views(ir: crate::ir::MermaidDiagramIr) -> Seq<crate::builder::ConstraintView> {
    ir.constraints@.map_values(|x: IrConstraint| x.view_parts())
}

/// The strings of `v` as character sequences.
pub open spec fn string_views(v: Seq<String>) -> Seq<Seq<char>> {
    v.map_values(|x: String| x@)
}

/// How recording the node `id` changes a scope's `rank=same` group: a scope without one keeps
/// none, and a group gains `id` last unless it already holds it.
pub open spec fn same_rank_after(o: Option<Vec<String>>, f: Option<Vec<String>>, id: Seq<char>) -> bool {
    match o {
        None => f is None,
        Some(m) => f matches Some(n) && string_views(n@) == if string_views(m@).contains(id) {
            string_views(m@)
        } else {
            string_views(m@).push(id)
        },
    }
}

/// Record the node of a statement in every open `rank=same` group.
fn note_same_rank_member(g: &mut DotGroups, id: &String)
    ensures
        final(g).clusters@ == old(g).clusters@,
        final(g).subgraphs@ == old(g).subgraphs@,
        final(g).scopes@.len() == old(g).scopes@.len(),
        forall|i: int| 0 <= i < old(g).scopes@.len() ==> {
            let o = #[trigger] old(g).scopes@[i];
            let f = final(g).scopes@[i];
            &&& f.pushed_cluster == o.pushed_cluster
            &&& f.pushed_subgraph == o.pushed_subgraph
            &&& f.saved_defaults == o.saved_defaults
            &&& same_rank_after(o.same_rank, f.same_rank, id@)
        },
{
    let mut i: usize = 0;
    while i < g.scopes.len()
        invariant
            i <= g.scopes@.len(),
            g.clusters@ == old(g).clusters@,
            g.subgraphs@ == old(g).subgraphs@,
            g.scopes@.len() == old(g).scopes@.len(),
            forall|j: int| 0 <= j < old(g).scopes@.len() ==> {
                let o = #[trigger] old(g).scopes@[j];
                let f = g.scopes@[j];
                &&& f.pushed_cluster == o.pushed_cluster
                &&& f.pushed_subgraph == o.pushed_subgraph
                &&& f.saved_defaults == o.saved_defaults
                &&& if j < i {
                    same_rank_after(o.same_rank, f.same_rank, id@)
                } else {
                    f.same_rank == o.same_rank
                }
            },
        decreases g.scopes@.len() - i,
    {
        let ghost g0 = g.scopes@;
        let ghost o = old(g).scopes@[i as int];
        let add = match &g.scopes[i].same_rank {
            Some(members) => !strings_contain(members, id),
            None => false,
        };
        proof {
            if let Some(m) = o.same_rank {
                if !add {
                    let k = choose|k: int| 0 <= k < m@.len() && (#[trigger] m@[k])@ == id@;
                    assert(string_views(m@)[k] == id@);
                }
            }
        }
        if add {
            let ghost m0 = match o.same_rank {
                Some(m) => m@,
                None => seq![],
            };
            let mut members: Vec<String> = match &g.scopes[i].same_rank {
                Some(m) => {
                    let mut c: Vec<String> = Vec::new();
                    let mut k: usize = 0;
                    while k < m.len()
                        invariant
                            k <= m@.len(),
                            c@.len() == k,
                            forall|t: int| 0 <= t < k ==> (#[trigger] c@[t])@ == m@[t]@,
                        decreases m@.len() - k,
                    {
                        c.push(m[k].clone());
                        k = k + 1;
                    }
                    c
                },
                None => Vec::new(),
            };
            proof {
                assert(string_views(members@) =~= string_views(m0));
                assert(!string_views(m0).contains(id@)) by {
                    if string_views(m0).contains(id@) {
                        let k = choose|k: int| 0 <= k < string_views(m0).len() && string_views(m0)[k] == id@;
                        assert(m0[k]@ == id@);
                    }
                }
            }
            let ghost before = members@;
            members.push(id.clone());
            proof {
                assert(string_views(members@) =~= string_views(before).push(id@));
            }
            let ghost gs = g.scopes@;
            g.scopes[i].same_rank = Some(members);
            proof {
                assert forall|j: int| 0 <= j < old(g).scopes@.len() && j != i implies g.scopes@[j] == gs[j] by {}
            }
        }
        i = i + 1;
    }
}

/// Whether the statement `t` starts with `kw` followed by a space, `[` or a tab, ignoring ASCII
/// case.
pub open spec fn defaults_kw(t: Seq<char>, kw: Seq<char>) -> bool {
    &&& crate::text::occurs_at_ci(t, 0, kw)
    &&& t.len() > kw.len()
    &&& (t[kw.len() as int] == ' ' || t[kw.len() as int] == '[' || t[kw.len() as int] == '\t')
}

/// Whether the statement `s[lo..hi]` starts with `kw` followed by a space, `[` or a tab,
/// ignoring ASCII case.
fn starts_defaults_kw(s: &Vec<char>, lo: usize, hi: usize, kw: &str) -> (r: bool)
    requires
        lo <= hi <= s@.len(),
    ensures
        r == (crate::text::occurs_at_ci(s@.subrange(lo as int, hi as int), 0, kw@) && hi - lo > kw@.len() && ({
            let c = s@[lo + kw@.len()];
            c == ' ' || c == '[' || c == '\t'
        })),
        r == defaults_kw(s@.subrange(lo as int, hi as int), kw@),
{
    let k = chars_of(kw);
    if !crate::text::matches_at_ci(s, lo, hi, 0, &k) || hi - lo <= k.len() {
        return false;
    }
    let c = s[lo + k.len()];
    c == ' ' || c == '[' || c == '\t'
}

/// The routing a `splines` value asks for (ASCII case ignored): `ortho`, `polyline`, `line` and
/// `false` route orthogonally, `curved`, `spline` and `true` with curves; anything else is not
/// recognised.
pub open spec fn splines_hint(v: Seq<char>) -> Option<EdgeRoutingHint> {
    let l = v.map_values(|c: char| crate::text::ascii_lower_char(c));
    if l == "ortho"@ || l == "polyline"@ || l == "line"@ || l == "false"@ {
        Some(EdgeRoutingHint::Orthogonal)
    } else if l == "curved"@ || l == "spline"@ || l == "true"@ {
        Some(EdgeRoutingHint::Curved)
    } else {
        None
    }
}

fn splines_routing(v: &Vec<char>) -> (r: Option<EdgeRoutingHint>)
    ensures
        r == splines_hint(v@),
{
    let lower = crate::text::ascii_lower_window(v, 0, v.len());
    assert(v@.subrange(0, v@.len() as int) =~= v@);
    let is = |t: &str| -> (b: bool)
        ensures
            b == (lower@ == t@),
        {
            let r = crate::detect::chars_eq_str(&lower, t);
            r
        };
    if is("ortho") || is("polyline") || is("line") || is("false") {
        Some(EdgeRoutingHint::Orthogonal)
    } else if is("curved") || is("spline") || is("true") {
        Some(EdgeRoutingHint::Curved)
    } else {
        None
    }
}

/// A bare `label=…` statement: the title of the innermost cluster (and of its subgraph), or of
/// the whole graph at top level.
fn apply_dot_label_statement(b: &mut IrBuilder, g: &DotGroups, text: &Vec<char>, span: Span)
    requires
        old(b).wf(),
        g.ok(*old(b)),
    ensures
        grows(*old(b), *final(b)),
        g.ok(*final(b)),
        final(b).ir.nodes@ == old(b).ir.nodes@,
        final(b).ir.edges@ == old(b).ir.edges@,
        final(b).warnings@ == old(b).warnings@,
        g.clusters@.len() == 0 ==> (final(b).ir.title matches Some(t) && t@ == text@),
        g.clusters@.len() > 0 ==> (spec_clean_label(text@) matches Some(t) ==> crate::builder::label_has_text(
            final(b).ir,
            final(b).ir.clusters@[g.clusters@.last() as int].title,
            t,
        ) && (g.subgraphs@.len() > 0 ==> crate::builder::label_has_text(
            final(b).ir,
            final(b).ir.subgraphs@[g.subgraphs@.last() as int].title,
            t,
        ))),
{
    let ghost b0 = *b;
    let t = string_from_chars(text);
    if g.clusters.len() > 0 {
        let ci = g.clusters[g.clusters.len() - 1];
        b.set_cluster_title(ci, t.as_str(), span);
        let ghost b1 = *b;
        proof {
            assert(grows(b0, b1));
        }
        if g.subgraphs.len() > 0 {
            let si = g.subgraphs[g.subgraphs.len() - 1];
            b.set_subgraph_title(si, t.as_str(), span);
            proof {
                assert(grows(b1, *b));
                lemma_grows_trans(b0, b1, *b);
                if let Some(tt) = spec_clean_label(text@) {
                    let l = b1.ir.clusters@[ci as int].title->0;
                    assert(b.ir.labels@[l.0 as int] == b1.ir.labels@[l.0 as int]);
                }
            }
        }
    } else {
        b.set_title(t);
        proof {
            assert(grows(b0, *b));
        }
    }
}

/// A `rankdir=…` statement: the new direction, or a warning naming the value it did not know.
fn apply_dot_rankdir(b: &mut IrBuilder, w: &Vec<char>, rd: Result<GraphDirection, (usize, usize)>, line_number: usize)
    requires
        old(b).wf(),
        rd matches Err((x, y)) ==> x <= y <= w@.len(),
    ensures
        grows(*old(b), *final(b)),
        final(b).ir.edges@ == old(b).ir.edges@,
        rd matches Ok(d) ==> final(b).ir.direction == d,
{
    match rd {
        Ok(d) => {
            b.set_direction(d);
            proof {
                assert(grows(*old(b), *b));
            }
        },
        Err((x, y)) => {
            let mut m = line_message(line_number, "DOT rankdir=");
            push_window(&mut m, w, x, y);
            push_str(&mut m, " is not recognized and was ignored; expected TB, BT, LR, or RL");
            warn(b, m);
        },
    }
}

/// A `rank=…` statement: `rank=same` marks the innermost brace scope; anything else is reported.
fn apply_dot_rank_value(b: &mut IrBuilder, g: &mut DotGroups, rv: DotRankValue, line_number: usize)
    requires
        old(b).wf(),
        old(g).ok(*old(b)),
    ensures
        grows(*old(b), *final(b)),
        final(g).ok(*final(b)),
        final(g).clusters@ == old(g).clusters@,
        final(g).subgraphs@ == old(g).subgraphs@,
        final(g).scopes@.len() == old(g).scopes@.len(),
        final(b).ir == old(b).ir,
        (rv is Same && old(g).scopes@.len() > 0) ==> {
            let last = old(g).scopes@.len() - 1;
            &&& final(b).warnings@ == old(b).warnings@
            &&& final(g).scopes@ == old(g).scopes@.update(
                last,
                DotBraceScope { same_rank: final(g).scopes@[last].same_rank, ..old(g).scopes@[last] },
            )
            &&& final(g).scopes@[last].same_rank matches Some(m) && m@.len() == 0
        },
        !(rv is Same && old(g).scopes@.len() > 0) ==> final(b).warnings@.len() == old(b).warnings@.len() + 1
            && final(g).scopes@ == old(g).scopes@,
{
    match rv {
        DotRankValue::Same => {
            if g.scopes.len() > 0 {
                let last = g.scopes.len() - 1;
                g.scopes[last].same_rank = Some(Vec::new());
                proof {
                    lemma_grows_refl(*b);
                    assert(g.scopes@ =~= old(g).scopes@.update(
                        last as int,
                        DotBraceScope { same_rank: g.scopes@[last as int].same_rank, ..old(g).scopes@[last as int] },
                    ));
                }
            } else {
                let m = line_message(
                    line_number,
                    "rank=same outside a group has no effect; wrap the nodes in braces, as in { rank=same; a; b; }",
                );
                warn(b, m);
            }
        },
        DotRankValue::Unsupported(name) => {
            let mut m = line_message(line_number, "DOT rank=");
            push_window(&mut m, &name, 0, name.len());
            push_str(&mut m, " is not supported and was ignored; only rank=same constrains layout");
            warn(b, m);
        },
    }
}

/// Whether some open brace scope collects a `rank=same` group.
fn any_same_rank(g: &DotGroups) -> (r: bool)
    ensures
        r == exists|k: int| 0 <= k < g.scopes@.len() && (#[trigger] g.scopes@[k]).same_rank is Some,
{
    let mut q: usize = 0;
    while q < g.scopes.len()
        invariant
            q <= g.scopes@.len(),
            forall|k: int| 0 <= k < q ==> (#[trigger] g.scopes@[k]).same_rank is None,
        decreases g.scopes@.len() - q,
    {
        if g.scopes[q].same_rank.is_some() {
            return true;
        }
        q = q + 1;
    }
    false
}

/// `subgraph <name> {`: ensure its cluster and subgraph, nested under the innermost open
/// subgraph, and open a brace scope that leaves them on `}`.
fn open_dot_subgraph(b: &mut IrBuilder, g: &mut DotGroups, key: &String, title: &Option<String>, span: Span)
    requires
        old(b).wf(),
        old(g).ok(*old(b)),
    ensures
        grows(*old(b), *final(b)),
        final(g).ok(*final(b)),
        final(g).scopes@.len() == old(g).scopes@.len() + 1,
        final(b).ir.edges@ == old(b).ir.edges@,
{
    let ghost b0 = *b;
    let mut scope = new_scope(g);
    let t = match title {
        Some(x) => Some(x.as_str()),
        None => None,
    };
    if let Some(ci) = b.ensure_cluster(key.as_str(), t, span) {
        let ghost b1 = *b;
        let parent = if g.subgraphs.len() > 0 {
            Some(g.subgraphs[g.subgraphs.len() - 1])
        } else {
            None
        };
        let si = b.ensure_subgraph(key.as_str(), key.as_str(), t, span, parent, Some(ci));
        proof {
            assert(grows(b0, b1));
            assert(grows(b1, *b));
            lemma_grows_trans(b0, b1, *b);
        }
        let ghost gc = g.clusters@;
        let ghost gs = g.subgraphs@;
        g.clusters.push(ci);
        scope.pushed_cluster = true;
        if let Some(x) = si {
            g.subgraphs.push(x);
            scope.pushed_subgraph = true;
        }
        proof {
            assert forall|j: int| 0 <= j < g.clusters@.len() implies #[trigger] g.clusters@[j]
                < b.ir.clusters@.len() by {
                if j < g.clusters@.len() - 1 {
                    assert(g.clusters@[j] == gc[j]);
                }
            }
            assert forall|j: int| 0 <= j < g.subgraphs@.len() implies #[trigger] g.subgraphs@[j]
                < b.ir.subgraphs@.len() by {
                if j < gs.len() {
                    assert(g.subgraphs@[j] == gs[j]);
                }
            }
        }
    } else {
        proof {
            assert(grows(b0, *b));
        }
    }
    g.scopes.push(scope);
    g.brace_pending = true;
}

/// `graph [...]`, `node [...]` or `edge [...]`: graph settings, or the defaults in force for
/// what follows in the current scope.
fn apply_dot_defaults_statement(
    b: &mut IrBuilder,
    g: &mut DotGroups,
    stmt: &Vec<char>,
    is_graph: bool,
    is_node: bool,
    is_edge: bool,
    line_number: usize,
)
    requires
        old(b).wf(),
        old(g).ok(*old(b)),
    ensures
        grows(*old(b), *final(b)),
        final(g).ok(*final(b)),
        final(g).clusters@ == old(g).clusters@,
        final(g).subgraphs@ == old(g).subgraphs@,
        final(g).scopes@ == old(g).scopes@,
        final(b).ir.nodes@ == old(b).ir.nodes@,
        final(b).ir.edges@ == old(b).ir.edges@,
        !is_graph ==> *final(b) == *old(b),
        is_graph ==> (crate::dot_attrs::spec_attr(stmt@, "rankdir"@) matches Some(v) ==> match crate::dot_stmt::spec_rankdir_value(v) {
            Some(d) => final(b).ir.direction == d,
            None => final(b).warnings@.len() == old(b).warnings@.len() + 1,
        }),
        final(g).defaults.node_shape == if is_node && crate::dot_style::spec_node_shape(stmt@) is Some {
            crate::dot_style::spec_node_shape(stmt@)
        } else {
            old(g).defaults.node_shape
        },
        final(g).defaults.edge_style == if !is_node && is_edge && crate::dot_style::spec_edge_style(stmt@) is Some {
            crate::dot_style::spec_edge_style(stmt@)
        } else {
            old(g).defaults.edge_style
        },
{
    let ghost b0 = *b;
    if is_graph {
        if let Some(v) = extract_dot_attribute_raw(stmt, "rankdir") {
            let vn = v.len();
            assert(v@.subrange(0, vn as int) =~= v@);
            match parse_dot_rankdir_value(&v, 0, vn) {
                Some(d) => {
                    b.set_direction(d);
                },
                None => {
                    let (x, y) = trim_window(&v, 0, vn);
                    let (x2, y2) = crate::ir::trim_char_window(&v, x, y, '"');
                    let mut m = line_message(line_number, "DOT rankdir=");
                    push_window(&mut m, &v, x2, y2);
                    push_str(&mut m, " is not recognized and was ignored; expected TB, BT, LR, or RL");
                    warn(b, m);
                },
            }
        }
        let ghost b1 = *b;
        proof {
            assert(grows(b0, b1));
        }
        if g.clusters.len() == 0 {
            if let Some(v) = extract_dot_attribute_raw(stmt, "bgcolor") {
                let vn = v.len();
                let (x, y) = clean_value_window(&v, 0, vn);
                if x < y {
                    b.insert_theme_variable(owned("background"), string_of_window(&v, x, y));
                }
            }
        }
        proof {
            assert(grows(b1, *b));
            lemma_grows_trans(b0, b1, *b);
        }
    } else {
        proof {
            lemma_grows_refl(*b);
        }
    }
    if is_node {
        if let Some(v) = extract_dot_attribute_raw(stmt, "shape") {
            if let Some(shape) = parse_dot_shape_value(&v) {
                g.defaults.node_shape = Some(shape);
            }
        }
        let colors = DotNodeColors::parse(stmt);
        if !colors.is_empty() {
            g.defaults.node_colors = colors.resolved_over(&g.defaults.node_colors);
        }
    } else if is_edge {
        if let Some(st) = parse_dot_edge_style(stmt) {
            g.defaults.edge_style = Some(st);
        }
        let visuals = DotNodeColors::parse(stmt);
        if !visuals.is_empty() {
            g.defaults.edge_visuals = visuals.resolved_over(&g.defaults.edge_visuals);
        }
    }
}

/// The bare graph settings `bgcolor`, `nodesep`, `ranksep`, `splines` and any other
/// `key=value`. Returns whether the statement was one of them.
fn apply_dot_graph_setting(
    b: &mut IrBuilder,
    g: &DotGroups,
    w: &Vec<char>,
    sa: usize,
    sb: usize,
    line_number: usize,
) -> (r: bool)
    requires
        old(b).wf(),
        sa <= sb <= w@.len(),
    ensures
        grows(*old(b), *final(b)),
        !r ==> *final(b) == *old(b),
        final(b).ir.edges@ == old(b).ir.edges@,
        ({
            let t = w@.subrange(sa as int, sb as int);
            let bg = crate::dot_stmt::spec_named_attribute(t, "bgcolor"@);
            let ns = crate::dot_stmt::spec_named_attribute(t, "nodesep"@);
            let rs = crate::dot_stmt::spec_named_attribute(t, "ranksep"@);
            let sp = crate::dot_stmt::spec_named_attribute(t, "splines"@);
            &&& r == (bg is Some || ns is Some || rs is Some || sp is Some
                || crate::dot_stmt::spec_graph_attribute_key(t) is Some)
            &&& bg is None ==> (ns matches Some(v) ==> (final(b).ir.node_spacing_request matches Some(q)
                && q.value@ == v && q.line == line_number))
            &&& bg is None && ns is None ==> (rs matches Some(v) ==> (final(b).ir.rank_spacing_request matches Some(q)
                && q.value@ == v && q.line == line_number))
            &&& bg is None && ns is None && rs is None ==> (sp matches Some(v) ==> match splines_hint(v) {
                Some(h) => final(b).ir.edge_routing == Some(h),
                None => final(b).warnings@.len() == old(b).warnings@.len() + 1,
            })
            &&& bg is None && ns is None && rs is None && sp is None && r ==> final(b).ir == old(b).ir
                && final(b).warnings@.len() == old(b).warnings@.len() + 1
        }),
{
    if let Some((x, y)) = parse_dot_named_attribute(w, sa, sb, "bgcolor") {
        if g.clusters.len() == 0 {
            b.insert_theme_variable(owned("background"), string_of_window(w, x, y));
            proof {
                assert(grows(*old(b), *b));
            }
        } else {
            let m = line_message(
                line_number,
                "DOT bgcolor inside a subgraph sets that cluster's fill, which is not supported; it was ignored rather than applied to the whole diagram",
            );
            warn(b, m);
        }
        return true;
    }
    if let Some((x, y)) = parse_dot_named_attribute(w, sa, sb, "nodesep") {
        b.set_spacing_request(false, string_of_window(w, x, y), line_number);
        proof {
            assert(grows(*old(b), *b));
        }
        return true;
    }
    if let Some((x, y)) = parse_dot_named_attribute(w, sa, sb, "ranksep") {
        b.set_spacing_request(true, string_of_window(w, x, y), line_number);
        proof {
            assert(grows(*old(b), *b));
        }
        return true;
    }
    if let Some((x, y)) = parse_dot_named_attribute(w, sa, sb, "splines") {
        let v = window_vec(w, x, y);
        if let Some(hint) = splines_routing(&v) {
            b.set_edge_routing(hint);
            proof {
                assert(grows(*old(b), *b));
            }
        } else {
            let mut m = line_message(line_number, "DOT splines=");
            push_window(&mut m, w, x, y);
            push_str(
                &mut m,
                " is not recognized and was ignored; expected ortho, polyline, line, curved, spline, true, or false",
            );
            warn(b, m);
        }
        return true;
    }
    if let Some((x, y)) = parse_dot_graph_attribute_key(w, sa, sb) {
        let mut m = line_message(line_number, "DOT graph attribute '");
        push_window(&mut m, w, x, y);
        push_str(&mut m, "' is not supported and was ignored");
        warn(b, m);
        return true;
    }
    proof {
        lemma_grows_refl(*b);
    }
    false
}

/// Whether the statement `t` is a bare graph setting: `bgcolor`, `nodesep`, `ranksep`, `splines`
/// or any other `key=value`.
pub open spec fn graph_setting(t: Seq<char>) -> bool {
    ||| crate::dot_stmt::spec_named_attribute(t, "bgcolor"@) is Some
    ||| crate::dot_stmt::spec_named_attribute(t, "nodesep"@) is Some
    ||| crate::dot_stmt::spec_named_attribute(t, "ranksep"@) is Some
    ||| crate::dot_stmt::spec_named_attribute(t, "splines"@) is Some
    ||| crate::dot_stmt::spec_graph_attribute_key(t) is Some
}

/// Whether the statement `t` is a setting, a group opening or a defaults statement, which is
/// taken as such before it could be read as an edge or a node.
pub open spec fn dot_setting_stmt(t: Seq<char>) -> bool {
    ||| crate::dot_stmt::spec_label_statement(t) is Some
    ||| crate::dot_stmt::spec_rankdir_statement(t) is Some
    ||| crate::dot_stmt::spec_rank_statement(t) is Some
    ||| crate::dot_style::spec_subgraph_start(t, 0) is Some
    ||| ((defaults_kw(t, "graph"@) || defaults_kw(t, "node"@) || defaults_kw(t, "edge"@)) && edge_op_from(t, 0) is None)
    ||| graph_setting(t)
}

/// Whether an edge of arrow `a` points from its first end to its second.
pub open spec fn arrow_points(a: ArrowType) -> bool {
    a == ArrowType::Arrow || a == ArrowType::ThickArrow || a == ArrowType::DottedArrow
}

/// Whether `e` joins the nodes with ids `v.0` and `v.1`, pointing exactly when `v.2` holds.
pub open spec fn edge_is(ir: crate::ir::MermaidDiagramIr, e: crate::ir::IrEdge, v: (Seq<char>, Seq<char>, bool)) -> bool {
    &&& e.from matches crate::ir::IrEndpoint::Node(x) && x.0 < ir.nodes@.len() && ir.nodes@[x.0 as int].id@ == v.0
    &&& e.to matches crate::ir::IrEndpoint::Node(y) && y.0 < ir.nodes@.len() && ir.nodes@[y.0 as int].id@ == v.1
    &&& arrow_points(e.arrow) == v.2
}

/// The edges from index `base` on of `b.ir` are `vs`, in order.
pub open spec fn edges_are(b: IrBuilder, base: int, vs: Seq<(Seq<char>, Seq<char>, bool)>) -> bool {
    &&& b.ir.edges@.len() == base + vs.len()
    &&& forall|j: int| 0 <= j < vs.len() ==> edge_is(b.ir, #[trigger] b.ir.edges@[base + j], vs[j])
}

proof fn lemma_edges_extend(
    b1: IrBuilder,
    b2: IrBuilder,
    base: int,
    xs: Seq<(Seq<char>, Seq<char>, bool)>,
    ys: Seq<(Seq<char>, Seq<char>, bool)>,
)
    requires
        0 <= base,
        grows(b1, b2),
        edges_are(b1, base, xs),
        edges_are(b2, b1.ir.edges@.len() as int, ys),
    ensures
        edges_are(b2, base, xs + ys),
{
    assert forall|j: int| 0 <= j < (xs + ys).len() implies edge_is(b2.ir, #[trigger] b2.ir.edges@[base + j], (xs
        + ys)[j]) by {
        if j < xs.len() {
            let e = b1.ir.edges@[base + j];
            assert(edge_is(b1.ir, e, xs[j]));
            assert(b2.ir.edges@[base + j] == e);
            if let crate::ir::IrEndpoint::Node(x) = e.from {
                assert(b2.ir.nodes@[x.0 as int].id@ == b1.ir.nodes@[x.0 as int].id@);
            }
            if let crate::ir::IrEndpoint::Node(y) = e.to {
                assert(b2.ir.nodes@[y.0 as int].id@ == b1.ir.nodes@[y.0 as int].id@);
            }
        } else {
            assert(b2.ir.edges@[b1.ir.edges@.len() + (j - xs.len())] == b2.ir.edges@[base + j]);
        }
    }
}

proof fn lemma_arrow_points()
    ensures
        forall|x: bool, st: Option<DotEdgeStyle>| #[trigger] arrow_points(crate::dot_style::spec_dot_arrow(x, st)) == x,
{
}

/// The edges the statement `t` (its braces already handled) adds in a graph that is `directed`
/// or not: one per hop whose ends are both nodes, pointing when the graph is directed or the
/// statement's operator is `->`, when it is an edge statement and no setting.
pub open spec fn plain_edges(t: Seq<char>, directed: bool) -> Seq<(Seq<char>, Seq<char>, bool)> {
    if dot_setting_stmt(t) {
        seq![]
    } else if is_edge_statement(t) {
        hop_edges_from(t, 0).map_values(
            |e: (Seq<char>, Seq<char>)| (e.0, e.1, edge_op_from(t, 0) == Some(true) || directed),
        )
    } else {
        seq![]
    }
}

/// How many `}` the statement `t` starts with.
pub open spec fn leading_closes(t: Seq<char>) -> nat
    decreases t.len(),
{
    if t.len() > 0 && t[0] == '}' {
        1 + leading_closes(t.drop_first())
    } else {
        0
    }
}

/// The edges the `;`-separated statement `t` adds: its leading `}` close scopes, a leading `{`
/// opens one, and the rest is a plain statement.
pub open spec fn stmt_edges(t: Seq<char>, directed: bool) -> Seq<(Seq<char>, Seq<char>, bool)> {
    let u = trim(t.skip(leading_closes(t) as int));
    if u.len() == 0 || u == seq!['{'] {
        seq![]
    } else if u[0] == '{' {
        let v = crate::text::trim_start(u.skip(1));
        if v.len() == 0 {
            seq![]
        } else {
            plain_edges(v, directed)
        }
    } else {
        plain_edges(u, directed)
    }
}

/// The edges the first `k` statements of `ps` add.
pub open spec fn stmts_edges(ps: Seq<Seq<char>>, k: int, directed: bool) -> Seq<(Seq<char>, Seq<char>, bool)>
    decreases k,
{
    if k <= 0 || k > ps.len() {
        seq![]
    } else {
        stmts_edges(ps, k - 1, directed) + stmt_edges(ps[k - 1], directed)
    }
}

/// The edges the DOT body `s` adds from the line at `i` on, in order: each non-blank line,
/// trimmed, is split into statements at `;`.
pub open spec fn dot_edges(s: Seq<char>, i: int, directed: bool) -> Seq<(Seq<char>, Seq<char>, bool)>
    decreases s.len() - i,
{
    if i < 0 || i > s.len() {
        seq![]
    } else {
        let nl = crate::flowchart::line_end(s, i);
        let l = trim(s.subrange(i, nl));
        let ps = split_struct_from(l, seq![';'], 0, 0);
        (if l.len() > 0 {
            stmts_edges(ps, ps.len() as int, directed)
        } else {
            seq![]
        }) + if nl >= s.len() {
            seq![]
        } else {
            dot_edges(s, nl + 1, directed)
        }
    }
}

/// The DOT document `input` without the Mermaid directive lines around it and without comments.
pub open spec fn dot_cleaned(input: Seq<char>) -> Seq<char> {
    crate::dot_detect::strip_comments(
        crate::dot_detect::strip_leading_directives(crate::dot_detect::strip_trailing_directives(input)),
    )
}

/// Whether the DOT document `input` is directed: its header says `digraph`, or, without a
/// header, its body holds a `->`.
pub open spec fn dot_directed(input: Seq<char>) -> bool {
    let cleaned = dot_cleaned(input);
    let (ba, bb) = crate::dot_text::spec_extract_body(cleaned);
    match crate::dot_detect::dot_header_kind(cleaned) {
        Some(d) => d,
        None => crate::dot_scan::directed_op_from(cleaned.subrange(ba, bb), 0),
    }
}

/// The edges of the DOT document `input`, in order.
pub open spec fn dot_document_edges(input: Seq<char>) -> Seq<(Seq<char>, Seq<char>, bool)> {
    dot_edges(dot_body_text(input), 0, dot_directed(input))
}

/// The edges of `ir` are those of the DOT document `input`, in order.
pub open spec fn dot_edges_ok(input: Seq<char>, ir: crate::ir::MermaidDiagramIr) -> bool {
    &&& ir.edges@.len() == dot_document_edges(input).len()
    &&& forall|k: int| 0 <= k < ir.edges@.len() ==> edge_is(ir, #[trigger] ir.edges@[k], dot_document_edges(input)[k])
}

/// The graph body of the DOT document `input` as it is lowered: the document without the Mermaid
/// directive lines around it and without comments, between its outer braces, with edge groups
/// expanded and braces set apart when it has any.
pub open spec fn dot_body_text(input: Seq<char>) -> Seq<char> {
    let kept = crate::dot_detect::strip_leading_directives(crate::dot_detect::strip_trailing_directives(input));
    let cleaned = crate::dot_detect::strip_comments(kept);
    let (ba, bb) = crate::dot_text::spec_extract_body(cleaned);
    let body = cleaned.subrange(ba, bb);
    if body.contains('{') || body.contains('}') {
        crate::dot_text::pad_braces_from(crate::dot_text::expand_from(body, 0), 0, None, false)
    } else {
        body
    }
}

proof fn lemma_subgraph_start_any_line(t: Seq<char>, l1: nat, l2: nat)
    ensures
        (crate::dot_style::spec_subgraph_start(t, l1) is Some) == (crate::dot_style::spec_subgraph_start(t, l2) is Some),
{
    reveal_strlit("cluster_anon_line_");
}

/// Lower the statement `w[sa..sb]`, with its leading braces already handled.
fn lower_dot_plain_statement(
    b: &mut IrBuilder,
    w: &Vec<char>,
    sa: usize,
    sb: usize,
    directed: bool,
    g: &mut DotGroups,
    line_number: usize,
    span: Span,
)
    requires
        old(b).wf(),
        sa <= sb <= w@.len(),
        old(g).ok(*old(b)),
    ensures
        grows(*old(b), *final(b)),
        final(g).ok(*final(b)),
        ({
            let t = w@.subrange(sa as int, sb as int);
            let label = crate::dot_stmt::spec_label_statement(t);
            let rankdir = crate::dot_stmt::spec_rankdir_statement(t);
            let rank = crate::dot_stmt::spec_rank_statement(t);
            &&& label matches Some(x) ==> final(b).ir.nodes@ == old(b).ir.nodes@ && final(b).ir.edges@
                == old(b).ir.edges@ && (old(g).clusters@.len() == 0 ==> (final(b).ir.title matches Some(tt)
                && tt@ == x))
            &&& label is None ==> (rankdir matches Some(Ok(d)) ==> final(b).ir.direction == d)
            &&& label is None && rankdir is None && rank == Some(crate::dot_stmt::RankValue::Same)
                && old(g).scopes@.len() > 0 ==> (final(g).scopes@.last().same_rank matches Some(m) && m@.len() == 0)
        }),
        new_edges_join_nodes(*old(b), *final(b)),
        edges_are(*final(b), old(b).ir.edges@.len() as int, plain_edges(w@.subrange(sa as int, sb as int), directed)),
{
    let ghost b0 = *b;
    proof {
        lemma_subgraph_start_any_line(w@.subrange(sa as int, sb as int), line_number as nat, 0);
    }
    if let Some(text) = parse_dot_label_statement(w, sa, sb) {
        apply_dot_label_statement(b, g, &text, span);
        return;
    }
    if let Some(rd) = parse_dot_rankdir(w, sa, sb) {
        apply_dot_rankdir(b, w, rd, line_number);
        proof {
            lemma_groups_grow(g, b0, *b);
        }
        return;
    }
    if let Some(rv) = parse_dot_rank_attribute(w, sa, sb) {
        apply_dot_rank_value(b, g, rv, line_number);
        return;
    }
    if any_same_rank(g) {
        if let Some(node) = parse_dot_node_fragment(w, sa, sb) {
            note_same_rank_member(g, &node.id);
        }
    }
    if let Some((key, title)) = parse_subgraph_start(w, sa, sb, line_number) {
        open_dot_subgraph(b, g, &key, &title, span);
        return;
    }
    let is_graph_defaults = starts_defaults_kw(w, sa, sb, "graph");
    let is_node_defaults = starts_defaults_kw(w, sa, sb, "node");
    let is_edge_defaults = starts_defaults_kw(w, sa, sb, "edge");
    let stmt = window_vec(w, sa, sb);
    if (is_graph_defaults || is_node_defaults || is_edge_defaults) && find_edge_operator(&stmt).is_none() {
        apply_dot_defaults_statement(b, g, &stmt, is_graph_defaults, is_node_defaults, is_edge_defaults, line_number);
        return;
    }
    if apply_dot_graph_setting(b, g, w, sa, sb, line_number) {
        proof {
            lemma_groups_grow(g, b0, *b);
        }
        return;
    }
    let ghost be = *b;
    if lower_dot_edge_statement(b, w, sa, sb, directed, g, line_number, span) {
        proof {
            let t = w@.subrange(sa as int, sb as int);
            lemma_arrow_points();
            assert forall|j: int| 0 <= j < plain_edges(t, directed).len() implies edge_is(
                b.ir,
                #[trigger] b.ir.edges@[be.ir.edges@.len() + j],
                plain_edges(t, directed)[j],
            ) by {
                assert(edge_joins(
                    b.ir,
                    b.ir.edges@[be.ir.edges@.len() + j],
                    hop_edges_from(t, 0)[j],
                    edge_arrow(t, directed, g.defaults.edge_style),
                ));
            }
        }
        return;
    }
    let ghost b1 = *b;
    if lower_dot_node_statement(b, w, sa, sb, g, span) {
        proof {
            lemma_grows_trans(b0, b1, *b);
        }
        return;
    }
    let ghost b2 = *b;
    let mut m = line_message(line_number, "unsupported DOT statement: ");
    push_window(&mut m, w, sa, sb);
    let m2 = window_vec(&m, 0, m.len());
    warn(b, m);
    let ghost b3 = *b;
    warn(b, m2);
    proof {
        lemma_grows_trans(b2, b3, *b);
        lemma_grows_trans(b1, b2, *b);
        lemma_grows_trans(b0, b1, *b);
        lemma_groups_grow(g, b0, *b);
    }
}

/// Lower one `;`-separated statement `w[pa..pb]` of line `line_number`: each leading `}` closes a
/// brace scope, a leading `{` opens one, and the rest is a statement.
fn lower_dot_statement(
    b: &mut IrBuilder,
    w: &Vec<char>,
    pa: usize,
    pb: usize,
    directed: bool,
    g: &mut DotGroups,
    line_number: usize,
    span: Span,
)
    requires
        old(b).wf(),
        pa <= pb <= w@.len(),
        old(g).ok(*old(b)),
    ensures
        grows(*old(b), *final(b)),
        final(g).ok(*final(b)),
        (forall|i: int| pa <= i < pb ==> w@[i] == '}') ==> final(b).ir.nodes@ == old(b).ir.nodes@
            && final(b).ir.edges@ == old(b).ir.edges@ && final(g).scopes@.len() == if old(g).scopes@.len() >= pb
            - pa {
            old(g).scopes@.len() - (pb - pa)
        } else {
            0
        },
        pa < pb && w@[pa as int] != '}' && trim(w@.subrange(pa as int, pb as int)) == seq!['{'] ==> *final(b)
            == *old(b) && final(g).scopes@.len() == old(g).scopes@.len() + if old(g).brace_pending {
            0nat
        } else {
            1nat
        } && !final(g).brace_pending,
        new_edges_join_nodes(*old(b), *final(b)),
        edges_are(*final(b), old(b).ir.edges@.len() as int, stmt_edges(w@.subrange(pa as int, pb as int), directed)),
{
    let ghost b0 = *b;
    proof {
        lemma_grows_refl(*b);
    }
    let mut k = pa;
    while k < pb && w[k] == '}'
        invariant
            pa <= k <= pb <= w@.len(),
            grows(b0, *b),
            g.ok(*b),
            b.ir.nodes@ == b0.ir.nodes@,
            b.ir.edges@ == b0.ir.edges@,
            new_edges_join_nodes(b0, *b),
            k - pa + leading_closes(w@.subrange(k as int, pb as int)) == leading_closes(w@.subrange(pa as int, pb as int)),
            k == pa ==> *b == b0 && g.scopes@ == old(g).scopes@,
            g.brace_pending == old(g).brace_pending,
            forall|i: int| pa <= i < k ==> w@[i] == '}',
            g.scopes@.len() == if old(g).scopes@.len() >= k - pa {
                old(g).scopes@.len() - (k - pa)
            } else {
                0
            },
        decreases pb - k,
    {
        let ghost bk = *b;
        proof {
            assert(w@.subrange(k as int, pb as int).drop_first() =~= w@.subrange(k + 1, pb as int));
        }
        close_dot_brace_scope(b, g, span);
        proof {
            lemma_grows_trans(b0, bk, *b);
        }
        k = k + 1;
    }
    let (sa0, sb) = trim_window(w, k, pb);
    let ghost u = w@.subrange(sa0 as int, sb as int);
    proof {
        if k < pb {
            assert(w@.subrange(k as int, pb as int)[0] == w@[k as int]);
        }
        assert(leading_closes(w@.subrange(k as int, pb as int)) == 0);
        assert(w@.subrange(pa as int, pb as int).skip(k - pa) =~= w@.subrange(k as int, pb as int));
        assert(u == trim(w@.subrange(pa as int, pb as int).skip(leading_closes(w@.subrange(pa as int, pb as int)) as int)));
        if sa0 < sb {
            assert(u[0] == w@[sa0 as int]);
            if sb - sa0 == 1 && w@[sa0 as int] == '{' {
                assert(u =~= seq!['{']);
            }
        }
        if forall|i: int| pa <= i < pb ==> w@[i] == '}' {
            assert(k == pb);
        }
        if pa < pb && w@[pa as int] != '}' {
            if k > pa {
                assert(w@[pa as int] == '}');
            }
            assert(k == pa);
            if trim(w@.subrange(pa as int, pb as int)) == seq!['{'] {
                assert(w@.subrange(sa0 as int, sb as int) == seq!['{']);
                assert(w@.subrange(sa0 as int, sb as int).len() == 1);
                assert(w@.subrange(sa0 as int, sb as int)[0] == w@[sa0 as int]);
            }
        }
    }
    if sa0 == sb {
        return;
    }
    if sb - sa0 == 1 && w[sa0] == '{' {
        if g.brace_pending {
            g.brace_pending = false;
        } else {
            let sc = new_scope(g);
            g.scopes.push(sc);
        }
        return;
    }
    let sa = if w[sa0] == '{' {
        if g.brace_pending {
            g.brace_pending = false;
        } else {
            let sc = new_scope(g);
            g.scopes.push(sc);
        }
        let x = crate::text::skip_ws(w, sa0 + 1, sb);
        proof {
            assert(w@.subrange(sa0 + 1, sb as int) =~= u.skip(1));
            assert(w@.subrange(x as int, sb as int) =~= crate::text::trim_start(u.skip(1)));
        }
        x
    } else {
        g.brace_pending = false;
        sa0
    };
    if sa >= sb {
        return;
    }
    let ghost b1 = *b;
    lower_dot_plain_statement(b, w, sa, sb, directed, g, line_number, span);
    proof {
        lemma_grows_trans(b0, b1, *b);
        lemma_join_nodes_trans(b0, b1, *b);
    }
}

/// Lower every line of the DOT body `body`.
fn lower_dot_body(b: &mut IrBuilder, body: &Vec<char>, directed: bool)
    requires
        old(b).wf(),
    ensures
        grows(*old(b), *final(b)),
        new_edges_join_nodes(*old(b), *final(b)),
        edges_are(*final(b), old(b).ir.edges@.len() as int, dot_edges(body@, 0, directed)),
{
    let ghost b0 = *b;
    proof {
        lemma_grows_refl(*b);
    }
    let ghost mut done: Seq<(Seq<char>, Seq<char>, bool)> = seq![];
    let mut g = DotGroups {
        clusters: Vec::new(),
        subgraphs: Vec::new(),
        scopes: Vec::new(),
        defaults: DotDefaults::new(),
        brace_pending: false,
    };
    let semi: Vec<char> = vec![';'];
    assert(semi@.len() == 1);
    let n = body.len();
    let mut line_number: usize = 1;
    let mut i: usize = 0;
    assert(semi@ =~= seq![';']);
    loop
        invariant_except_break
            done + dot_edges(body@, i as int, directed) == dot_edges(body@, 0, directed),
        invariant
            i <= n == body@.len(),
            grows(b0, *b),
            new_edges_join_nodes(b0, *b),
            g.ok(*b),
            semi@ == seq![';'],
            edges_are(*b, b0.ir.edges@.len() as int, done),
        ensures
            edges_are(*b, b0.ir.edges@.len() as int, dot_edges(body@, 0, directed)),
        decreases n - i,
    {
        let nl = index_of_char(body, i, n, '\n');
        let (ta, tb) = trim_window(body, i, nl);
        let ghost l = body@.subrange(ta as int, tb as int);
        let ghost ps = split_struct_from(l, seq![';'], 0, 0);
        let ghost e0 = b.ir.edges@.len();
        let ghost done0 = done;
        proof {
            assert(nl == crate::flowchart::line_end(body@, i as int));
        }
        if ta < tb {
            let span = Span::at_line(line_number, crate::flowchart::line_width(body, i, nl));
            let line = window_vec(body, ta, tb);
            let parts = split_dot_by(&line, &semi);
            let mut p: usize = 0;
            proof {
                assert(line@ == l);
                assert(parts@.len() == ps.len());
            }
            while p < parts.len()
                invariant
                    p <= parts@.len() == ps.len(),
                    forall|k: int| 0 <= k < parts@.len() ==> (#[trigger] parts@[k]).0 <= parts@[k].1 <= line@.len(),
                    parts@.map_values(|q: (usize, usize)| line@.subrange(q.0 as int, q.1 as int)) == ps,
                    grows(b0, *b),
                    new_edges_join_nodes(b0, *b),
                    g.ok(*b),
                    edges_are(*b, b0.ir.edges@.len() as int, done0 + stmts_edges(ps, p as int, directed)),
                decreases parts@.len() - p,
            {
                let (pa, pb) = parts[p];
                proof {
                    assert(line@.subrange(pa as int, pb as int) == ps[p as int]);
                }
                let ghost bp = *b;
                lower_dot_statement(b, &line, pa, pb, directed, &mut g, line_number, span);
                proof {
                    lemma_grows_trans(b0, bp, *b);
                    lemma_join_nodes_trans(b0, bp, *b);
                    lemma_edges_extend(
                        bp,
                        *b,
                        b0.ir.edges@.len() as int,
                        done0 + stmts_edges(ps, p as int, directed),
                        stmt_edges(ps[p as int], directed),
                    );
                    assert(done0 + stmts_edges(ps, p + 1, directed) =~= done0 + stmts_edges(ps, p as int, directed)
                        + stmt_edges(ps[p as int], directed));
                }
                p = p + 1;
            }
        }
        proof {
            if ta < tb {
                done = done + stmts_edges(ps, ps.len() as int, directed);
            } else {
                assert(done + seq![] =~= done);
            }
            assert(done0 + dot_edges(body@, i as int, directed) =~= done + if nl >= n {
                seq![]
            } else {
                dot_edges(body@, nl + 1, directed)
            });
        }
        if nl >= n {
            break;
        }
        i = nl + 1;
        if line_number < usize::MAX {
            line_number = line_number + 1;
        }
    }
}

/// The warning of a DOT document that yields no node and no edge.
pub open spec fn empty_dot_warning() -> Seq<char> {
    "DOT input contained no parseable nodes or edges"@
}

/// Parse a Graphviz DOT document into a flowchart diagram. Mermaid `%%` directive lines around
/// the graph and DOT comments are ignored; the graph is directed when its header says `digraph`,
/// or, without a header, when its body holds a `->`.
pub fn parse_dot(input: &str) -> (r: ParseResult)
    ensures
        r.ir.wf(),
        r.format_complement.records_nothing(),
        r.ir.diagram_type == DiagramType::Flowchart,
        r.confidence_hundredths == 95,
        r.detection_method == DetectionMethod::DotFormat,
        r.ir.nodes@.len() == 0 && r.ir.edges@.len() == 0 ==> r.warnings@.len() > 0
            && r.warnings@.last()@ == empty_dot_warning(),
        dot_edges_ok(input@, r.ir),
        forall|k: int| 0 <= k < r.ir.edges@.len() ==> ((#[trigger] r.ir.edges@[k]).from matches
            crate::ir::IrEndpoint::Node(f) && f.0 < r.ir.nodes@.len()) && (r.ir.edges@[k].to matches
            crate::ir::IrEndpoint::Node(t) && t.0 < r.ir.nodes@.len()),
{
    let mut b = IrBuilder::new(DiagramType::Flowchart);
    let src = chars_of(input);
    // Init directives apply to a DOT document too; they are read from the text as written.
    crate::init::parse_init_directives(&src, &mut b);
    let n = src.len();
    proof {
        assert(src@.subrange(0, n as int) =~= src@);
    }
    let end = strip_trailing_mermaid_directives(&src, 0, n);
    let start = strip_leading_mermaid_directives(&src, 0, end);
    let kept = window_vec(&src, start, end);
    proof {
        assert(kept@ == crate::dot_detect::strip_leading_directives(crate::dot_detect::strip_trailing_directives(input@)));
    }
    let cleaned = strip_all_comments(&kept);
    let cn = cleaned.len();
    let (ba, bb) = extract_body(&cleaned);
    let directed = match dot_header_kind_exec(&cleaned, 0, cn) {
        Some(d) => d,
        None => contains_directed_edge_operator(&cleaned, ba, bb),
    };
    let body = if has_brace(&cleaned, ba, bb) {
        let expanded = expand_edge_groups(&window_vec(&cleaned, ba, bb));
        normalize_dot_body(&expanded)
    } else {
        window_vec(&cleaned, ba, bb)
    };
    proof {
        assert(body@ == dot_body_text(input@));
        assert(cleaned@.subrange(0, cn as int) =~= cleaned@);
        assert(directed == dot_directed(input@));
    }
    let ghost e0 = b.ir.edges@.len();
    lower_dot_body(&mut b, &body, directed);
    if b.node_count() == 0 && b.edge_count() == 0 {
        b.add_warning(owned("DOT input contained no parseable nodes or edges"));
    }
    proof {
        assert forall|k: int| 0 <= k < b.ir.edges@.len() implies edge_is(
            b.ir,
            #[trigger] b.ir.edges@[k],
            dot_document_edges(input@)[k],
        ) by {
            assert(b.ir.edges@[e0 + k] == b.ir.edges@[k]);
        }
    }
    b.finish(95, DetectionMethod::DotFormat)
}

} // verus!
