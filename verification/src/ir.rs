//! The diagram IR every parser produces, and the builder that keeps it well formed.
//!
//! The builder interns nodes by id (one node per id, first label wins, a plain rectangle is
//! upgraded by a later explicit shape) and labels by text (one label per text), and only ever
//! refers to nodes and labels that exist.
use vstd::prelude::*;

use crate::detect::{DetectionMethod, DiagramType};
use crate::format::MermaidFormatComplement;
use crate::text::{chars_of, owned, string_of_window, trim, trim_window};

verus! {

/// Where a construct came from: its 1-based line and the line's width in characters.
#[derive(Debug, Clone, Copy, PartialEq, Eq, Structural)]
pub struct Span {
    pub line: usize,
    pub columns: usize,
}

impl Default for Span {
    /// The span of line 0, zero columns wide: no position in the source.
    fn default() -> (r: Span)
        ensures
            r.line == 0,
            r.columns == 0,
    {
        Span { line: 0, columns: 0 }
    }
}

impl Span {
    pub fn at_line(line: usize, columns: usize) -> (r: Span)
        ensures
            r.line == line,
            r.columns == columns,
    {
        Span { line, columns }
    }
}

#[derive(Debug, Clone, Copy, PartialEq, Eq, Structural)]
pub enum NodeShape {
    Rect,
    Rounded,
    Diamond,
    Circle,
    DoubleCircle,
    Hexagon,
    Trapezoid,
    InvTrapezoid,
    Parallelogram,
    Triangle,
    Pentagon,
    Star,
    Cylinder,
    Note,
    Subroutine,
}

#[derive(Debug, Clone, Copy, PartialEq, Eq, Structural)]
pub enum ArrowType {
    Line,
    Arrow,
    ThickArrow,
    ThickLine,
    DottedArrow,
    DottedLine,
    Circle,
    Cross,
    /// A lollipop (provided interface) at the source end.
    Lollipop,
    /// A lollipop at the target end.
    LollipopReverse,
}

#[derive(Debug, Clone, Copy, PartialEq, Eq, Structural)]
pub enum GraphDirection {
    TB,
    TD,
    LR,
    RL,
    BT,
}

/// How edges are to be routed.
#[derive(Debug, Clone, Copy, PartialEq, Eq, Structural)]
pub enum EdgeRoutingHint {
    /// Straight segments with right-angle bends.
    Orthogonal,
    /// Smooth curves.
    Curved,
}

/// How strictly a document is parsed.
#[derive(Debug, Clone, Copy, PartialEq, Eq, Structural)]
pub enum MermaidParseMode {
    Strict,
    Compat,
    Recover,
}

/// The name of a parse mode.
pub open spec fn parse_mode_name(m: MermaidParseMode) -> Seq<char> {
    match m {
        MermaidParseMode::Strict => "strict"@,
        MermaidParseMode::Compat => "compat"@,
        MermaidParseMode::Recover => "recover"@,
    }
}

impl MermaidParseMode {
    /// The name of the parse mode (see [`parse_mode_name`]).
    pub fn as_str(self) -> (r: &'static str)
        ensures
            r@ == parse_mode_name(self),
    {
        match self {
            MermaidParseMode::Strict => "strict",
            MermaidParseMode::Compat => "compat",
            MermaidParseMode::Recover => "recover",
        }
    }
}

#[derive(Debug, Clone, Copy, PartialEq, Eq, Structural)]
pub struct IrNodeId(pub usize);

#[derive(Debug, Clone, Copy, PartialEq, Eq, Structural)]
pub struct IrLabelId(pub usize);

#[derive(Debug, Clone, Copy, PartialEq, Eq, Structural)]
pub enum IrEndpoint {
    Node(IrNodeId),
    Unresolved,
}

/// The key marker of an entity attribute.
#[derive(Debug, Clone, Copy, PartialEq, Eq, Structural)]
pub enum IrAttributeKey {
    Unmarked,
    Pk,
    Fk,
    Uk,
}

/// One attribute of an entity: `type name [key] [comment]`.
#[derive(Debug, Clone, PartialEq, Eq)]
pub struct IrEntityAttribute {
    pub data_type: String,
    pub name: String,
    pub key: IrAttributeKey,
    pub comment: Option<String>,
}

#[derive(Debug, Clone, PartialEq, Eq)]
pub struct IrNode {
    pub id: String,
    pub label: Option<IrLabelId>,
    pub shape: NodeShape,
    /// Class names assigned to the node, in first-assigned order, each once.
    pub classes: Vec<String>,
    /// The attributes of an entity, in the order they were written.
    pub members: Vec<IrEntityAttribute>,
    pub span: Span,
    pub implicit: bool,
}

#[derive(Debug, Clone, Copy, PartialEq, Eq, Structural)]
pub struct IrEdge {
    pub from: IrEndpoint,
    pub to: IrEndpoint,
    pub arrow: ArrowType,
    pub label: Option<IrLabelId>,
    pub span: Span,
}

#[derive(Debug, Clone, PartialEq, Eq)]
pub struct IrLabel {
    pub text: String,
    pub span: Span,
}

#[derive(Debug, Clone, PartialEq, Eq)]
pub struct IrCluster {
    pub title: Option<IrLabelId>,
    pub members: Vec<IrNodeId>,
    /// The subgraph that mirrors this cluster, if any.
    pub subgraph: Option<usize>,
    pub span: Span,
}

#[derive(Debug, Clone, PartialEq, Eq)]
pub struct IrSubgraph {
    /// The public id the source gave the subgraph.
    pub key: String,
    pub title: Option<IrLabelId>,
    pub parent: Option<usize>,
    pub children: Vec<usize>,
    pub members: Vec<IrNodeId>,
    pub cluster: Option<usize>,
    pub span: Span,
}

/// A layout constraint for the solver.
#[derive(Debug, Clone, PartialEq, Eq)]
pub enum IrConstraint {
    /// The named nodes share one rank.
    SameRank { node_ids: Vec<String>, span: Span },
    /// The edge between the named nodes spans at least `min_len` ranks.
    MinLength { from_id: String, to_id: String, min_len: usize, span: Span },
}

#[derive(Debug, Clone, Copy, PartialEq, Eq, Structural)]
pub enum IrStyleTarget {
    Node(IrNodeId),
    Link(usize),
}

/// A CSS declaration attached to a node or an edge.
#[derive(Debug, Clone, PartialEq, Eq)]
pub struct IrStyleRef {
    pub target: IrStyleTarget,
    pub style: String,
    pub span: Span,
}

/// The parsed diagram.
#[derive(Debug, Clone, PartialEq, Eq)]
pub struct MermaidDiagramIr {
    pub diagram_type: DiagramType,
    pub direction: GraphDirection,
    pub parse_mode: MermaidParseMode,
    pub nodes: Vec<IrNode>,
    pub edges: Vec<IrEdge>,
    pub labels: Vec<IrLabel>,
    pub clusters: Vec<IrCluster>,
    pub subgraphs: Vec<IrSubgraph>,
    pub constraints: Vec<IrConstraint>,
    pub style_refs: Vec<IrStyleRef>,
    pub title: Option<String>,
    /// Theme variables set by the source, in the order first set (a later value replaces an
    /// earlier one for the same key).
    pub theme_variables: Vec<(String, String)>,
    /// How the source asked for edges to be routed (a DOT `splines` value).
    pub edge_routing: Option<EdgeRoutingHint>,
    /// The source's minimum in-rank gap request, as written (a DOT `nodesep`, in inches).
    pub node_spacing_request: Option<SpacingRequest>,
    /// The source's minimum rank gap request, as written (a DOT `ranksep`, in inches).
    pub rank_spacing_request: Option<SpacingRequest>,
    /// The theme an init directive chose.
    pub init_theme: Option<String>,
    /// The flowchart direction an init directive chose.
    pub init_flowchart_direction: Option<GraphDirection>,
    /// What init directives got wrong, in order.
    pub init_issues: Vec<IrInitIssue>,
}

/// A spacing value as the source wrote it, and the line it was written on.
#[derive(Debug, Clone, PartialEq, Eq)]
pub struct SpacingRequest {
    pub value: String,
    pub line: usize,
}

/// A problem with an init directive: an error (the directive was unusable) or a warning (part of
/// it was ignored).
#[derive(Debug, Clone, PartialEq, Eq)]
pub struct IrInitIssue {
    pub message: String,
    pub span: Span,
    pub is_error: bool,
}

/// Every member of `ms` names one of `n` nodes.
pub open spec fn members_ok(ms: Seq<IrNodeId>, n: nat) -> bool {
    forall|k: int| 0 <= k < ms.len() ==> (#[trigger] ms[k]).0 < n
}

/// A label reference names one of `n` labels.
pub open spec fn label_ok(l: Option<IrLabelId>, n: nat) -> bool {
    l matches Some(x) ==> x.0 < n
}

/// An edge endpoint names one of `n` nodes.
pub open spec fn endpoint_ok(e: IrEndpoint, n: nat) -> bool {
    e matches IrEndpoint::Node(k) ==> k.0 < n
}

/// An index reference is one of `n`.
pub open spec fn index_ok(x: Option<usize>, n: nat) -> bool {
    x matches Some(k) ==> k < n
}

impl MermaidDiagramIr {
    /// Whether some node has the id `key`.
    pub open spec fn has_label(&self, text: Seq<char>) -> bool {
        exists|j: int| 0 <= j < self.labels@.len() && #[trigger] self.labels@[j].text@ == text
    }

    pub open spec fn has_node(&self, key: Seq<char>) -> bool {
        exists|j: int| 0 <= j < self.nodes@.len() && #[trigger] self.nodes@[j].id@ == key
    }

    /// Well-formedness: node ids are distinct and non-empty, label texts are distinct, and every
    /// reference (edge endpoints, labels, group members, parents) names something that exists.
    pub open spec fn wf(&self) -> bool {
        let nn = self.nodes@.len();
        let nl = self.labels@.len();
        &&& forall|i: int, j: int|
            0 <= i < j < nn ==> #[trigger] self.nodes@[i].id@ != #[trigger] self.nodes@[j].id@
        &&& forall|i: int|
            0 <= i < nn ==> (#[trigger] self.nodes@[i]).id@.len() > 0 && label_ok(
                self.nodes@[i].label,
                nl,
            )
        &&& forall|i: int|
            0 <= i < self.edges@.len() ==> endpoint_ok((#[trigger] self.edges@[i]).from, nn)
                && endpoint_ok(self.edges@[i].to, nn) && label_ok(self.edges@[i].label, nl)
        &&& forall|i: int, j: int|
            0 <= i < j < nl ==> #[trigger] self.labels@[i].text@ != #[trigger] self.labels@[j].text@
        &&& forall|i: int|
            0 <= i < self.clusters@.len() ==> label_ok((#[trigger] self.clusters@[i]).title, nl)
                && members_ok(self.clusters@[i].members@, nn) && index_ok(
                self.clusters@[i].subgraph,
                self.subgraphs@.len(),
            )
        &&& forall|i: int|
            0 <= i < self.subgraphs@.len() ==> label_ok((#[trigger] self.subgraphs@[i]).title, nl)
                && members_ok(self.subgraphs@[i].members@, nn) && index_ok(
                self.subgraphs@[i].parent,
                self.subgraphs@.len(),
            ) && index_ok(self.subgraphs@[i].cluster, self.clusters@.len())
        &&& forall|i: int, j: int|
            0 <= i < j < self.constraints@.len() ==> (#[trigger] self.constraints@[i]).view_parts()
                != (#[trigger] self.constraints@[j]).view_parts()
    }

    /// A diagram of type `t` with nothing in it yet, laid out top to bottom.
    pub open spec fn is_fresh(&self, t: DiagramType) -> bool {
        &&& self.wf()
        &&& self.diagram_type == t
        &&& self.direction == GraphDirection::TB
        &&& self.parse_mode == MermaidParseMode::Compat
        &&& self.nodes@.len() == 0
        &&& self.edges@.len() == 0
        &&& self.labels@.len() == 0
        &&& self.clusters@.len() == 0
        &&& self.subgraphs@.len() == 0
        &&& self.constraints@.len() == 0
        &&& self.style_refs@.len() == 0
        &&& self.title is None
        &&& self.theme_variables@.len() == 0
        &&& self.edge_routing is None
        &&& self.node_spacing_request is None
        &&& self.rank_spacing_request is None
        &&& self.init_theme is None
        &&& self.init_flowchart_direction is None
        &&& self.init_issues@.len() == 0
    }

    /// Whether an init directive of the diagram was unusable (recorded as an error).
    pub open spec fn spec_has_errors(&self) -> bool {
        exists|i: int| 0 <= i < self.init_issues@.len() && (#[trigger] self.init_issues@[i]).is_error
    }

    /// Whether the diagram records an error (see [`Self::spec_has_errors`]).
    pub fn has_errors(&self) -> (r: bool)
        ensures
            r == self.spec_has_errors(),
    {
        let mut i: usize = 0;
        while i < self.init_issues.len()
            invariant
                i <= self.init_issues@.len(),
                forall|k: int| 0 <= k < i ==> !(#[trigger] self.init_issues@[k]).is_error,
            decreases self.init_issues@.len() - i,
        {
            if self.init_issues[i].is_error {
                return true;
            }
            i = i + 1;
        }
        false
    }

    /// An empty diagram of the given type.
    pub fn empty(diagram_type: DiagramType) -> (r: MermaidDiagramIr)
        ensures
            r.is_fresh(diagram_type),
    {
        MermaidDiagramIr {
            diagram_type,
            direction: GraphDirection::TB,
            parse_mode: MermaidParseMode::Compat,
            nodes: Vec::new(),
            edges: Vec::new(),
            labels: Vec::new(),
            clusters: Vec::new(),
            subgraphs: Vec::new(),
            constraints: Vec::new(),
            style_refs: Vec::new(),
            title: None,
            theme_variables: Vec::new(),
            edge_routing: None,
            node_spacing_request: None,
            rank_spacing_request: None,
            init_theme: None,
            init_flowchart_direction: None,
            init_issues: Vec::new(),
        }
    }
}

/// The label text an edge or group title keeps: trimmed, with surrounding `"`, `'` and backtick
/// runs removed, trimmed again; `None` when nothing is left.
pub open spec fn spec_clean_label(raw: Seq<char>) -> Option<Seq<char>> {
    let c = trim(trim_char(trim_char(trim_char(trim(raw), '"'), '\''), '`'));
    if c.len() == 0 {
        None
    } else {
        Some(c)
    }
}

/// Number of leading `c`s of `s`.
pub open spec fn lead_run(s: Seq<char>, c: char) -> nat
    decreases s.len(),
{
    if s.len() > 0 && s[0] == c {
        1 + lead_run(s.drop_first(), c)
    } else {
        0
    }
}

/// Number of trailing `c`s of `s`.
pub open spec fn trail_run(s: Seq<char>, c: char) -> nat
    decreases s.len(),
{
    if s.len() > 0 && s.last() == c {
        1 + trail_run(s.drop_last(), c)
    } else {
        0
    }
}

/// `str::trim_matches(c)`: `s` without its leading and trailing runs of `c`.
pub open spec fn trim_char(s: Seq<char>, c: char) -> Seq<char> {
    let a = lead_run(s, c);
    if a >= s.len() {
        Seq::empty()
    } else {
        s.subrange(a as int, s.len() - trail_run(s, c))
    }
}

proof fn lemma_trail_run_bound(s: Seq<char>, c: char)
    ensures
        trail_run(s, c) <= s.len(),
    decreases s.len(),
{
    if s.len() > 0 && s.last() == c {
        lemma_trail_run_bound(s.drop_last(), c);
    }
}

proof fn lemma_lead_trail(s: Seq<char>, c: char)
    requires
        lead_run(s, c) < s.len(),
    ensures
        lead_run(s, c) + trail_run(s, c) < s.len(),
    decreases s.len(),
{
    if s.len() > 0 && s.last() == c {
        let t = s.drop_last();
        assert(s.drop_first().drop_last() =~= t.drop_first());
        if lead_run(s, c) == t.len() {
            // Every character of `t` is `c` and so is the last one.
            lemma_all_c(s, c);
        } else {
            lemma_lead_drop_last(s, c);
            lemma_lead_trail(t, c);
        }
    }
}

proof fn lemma_lead_run_bound(s: Seq<char>, c: char)
    ensures
        lead_run(s, c) <= s.len(),
    decreases s.len(),
{
    if s.len() > 0 && s[0] == c {
        lemma_lead_run_bound(s.drop_first(), c);
    }
}

proof fn lemma_lead_run_prefix(s: Seq<char>, c: char, k: int)
    requires
        0 <= k < lead_run(s, c),
    ensures
        s[k] == c,
    decreases s.len(),
{
    assert(s.len() > 0 && s[0] == c);
    lemma_lead_run_bound(s, c);
    if k > 0 {
        lemma_lead_run_prefix(s.drop_first(), c, k - 1);
        assert(s.drop_first()[k - 1] == s[k]);
    }
}

proof fn lemma_all_c(s: Seq<char>, c: char)
    requires
        s.len() > 0,
        s.last() == c,
        lead_run(s, c) == s.len() - 1,
    ensures
        lead_run(s, c) == s.len(),
    decreases s.len(),
{
    if s.len() > 1 {
        lemma_lead_run_prefix(s, c, 0);
        assert(s.drop_first().last() == c);
        lemma_all_c(s.drop_first(), c);
    }
}

proof fn lemma_lead_drop_last(s: Seq<char>, c: char)
    requires
        s.len() > 0,
        lead_run(s, c) < s.len() - 1,
    ensures
        lead_run(s.drop_last(), c) == lead_run(s, c),
    decreases s.len(),
{
    if s.len() > 1 && s[0] == c {
        assert(s.drop_first().drop_last() =~= s.drop_last().drop_first());
        lemma_lead_drop_last(s.drop_first(), c);
    }
}

/// The window of `s[lo..hi]` that `trim_matches(c)` keeps.
pub fn trim_char_window(s: &Vec<char>, lo: usize, hi: usize, c: char) -> (r: (usize, usize))
    requires
        lo <= hi <= s@.len(),
    ensures
        lo <= r.0 <= r.1 <= hi,
        s@.subrange(r.0 as int, r.1 as int) == trim_char(s@.subrange(lo as int, hi as int), c),
{
    let ghost w = s@.subrange(lo as int, hi as int);
    let mut a = lo;
    while a < hi && s[a] == c
        invariant
            lo <= a <= hi <= s@.len(),
            w == s@.subrange(lo as int, hi as int),
            lead_run(w, c) == (a - lo) + lead_run(s@.subrange(a as int, hi as int), c),
        decreases hi - a,
    {
        assert(s@.subrange(a as int, hi as int).drop_first() =~= s@.subrange(a + 1, hi as int));
        a = a + 1;
    }
    if a >= hi {
        return (hi, hi);
    }
    let mut b = hi;
    while b > a && s[b - 1] == c
        invariant
            lo <= a < hi,
            a <= b <= hi <= s@.len(),
            w == s@.subrange(lo as int, hi as int),
            lead_run(w, c) == a - lo,
            trail_run(w, c) == (hi - b) + trail_run(s@.subrange(lo as int, b as int), c),
        decreases b - a,
    {
        assert(s@.subrange(lo as int, b as int).drop_last() =~= s@.subrange(lo as int, b - 1));
        b = b - 1;
    }
    proof {
        lemma_trail_run_bound(s@.subrange(lo as int, b as int), c);
        if b == a {
            // Then every character of the window is `c`.
            lemma_lead_trail(w, c);
        }
        assert(s@.subrange(a as int, b as int) =~= w.subrange(a - lo, w.len() - trail_run(w, c)));
    }
    if b == a {
        proof {
            lemma_lead_trail(w, c);
        }
    }
    (a, b)
}

/// [`spec_clean_label`] of the window `s[lo..hi]`, as a window.
pub fn clean_label_window(s: &Vec<char>, lo: usize, hi: usize) -> (r: Option<(usize, usize)>)
    requires
        lo <= hi <= s@.len(),
    ensures
        r matches Some((a, b)) ==> lo <= a <= b <= hi && spec_clean_label(
            s@.subrange(lo as int, hi as int),
        ) == Some(s@.subrange(a as int, b as int)),
        r is None ==> spec_clean_label(s@.subrange(lo as int, hi as int)) is None,
{
    let (a1, b1) = trim_window(s, lo, hi);
    let (a2, b2) = trim_char_window(s, a1, b1, '"');
    let (a3, b3) = trim_char_window(s, a2, b2, '\'');
    let (a4, b4) = trim_char_window(s, a3, b3, '`');
    let (a5, b5) = trim_window(s, a4, b4);
    if a5 == b5 {
        None
    } else {
        Some((a5, b5))
    }
}

/// [`spec_clean_label`] of `raw`.
pub fn clean_label(raw: &str) -> (r: Option<String>)
    ensures
        r matches Some(t) ==> spec_clean_label(raw@) == Some(t@),
        r is None ==> spec_clean_label(raw@) is None,
{
    let s = chars_of(raw);
    let n = s.len();
    assert(s@.subrange(0, n as int) =~= s@);
    match clean_label_window(&s, 0, n) {
        Some((a, b)) => Some(string_of_window(&s, a, b)),
        None => None,
    }
}

/// What a parse produced: the diagram, warnings, and how its type was detected (confidence in
/// hundredths).
#[derive(Debug, Clone, PartialEq, Eq)]
pub struct ParseResult {
    pub ir: MermaidDiagramIr,
    pub warnings: Vec<String>,
    pub confidence_hundredths: u32,
    pub detection_method: DetectionMethod,
    /// The source's formatting trivia; the parse entry points leave it empty, and a caller that
    /// needs it fills it with [`crate::format::capture_format_complement`].
    pub format_complement: MermaidFormatComplement,
}

impl ParseResult {
    pub fn parse_mode(&self) -> (r: MermaidParseMode)
        ensures
            r == self.ir.parse_mode,
    {
        self.ir.parse_mode
    }
}

} // verus!
