//! Comparing two diagrams field by field, with label texts left out of the comparison.
use vstd::prelude::*;

use crate::ir::{
    IrCluster, IrConstraint, IrEdge, IrEntityAttribute, IrInitIssue, IrLabel, IrNode, IrNodeId,
    IrStyleRef, IrSubgraph, MermaidDiagramIr, SpacingRequest,
};

verus! {

/// Two string lists hold the same texts in the same order.
pub open spec fn same_strs(a: Seq<String>, b: Seq<String>) -> bool {
    a.len() == b.len() && forall|i: int| 0 <= i < a.len() ==> #[trigger] a[i]@ == b[i]@
}

/// Two optional strings are both absent or hold the same text.
pub open spec fn same_opt_str(a: Option<String>, b: Option<String>) -> bool {
    match (a, b) {
        (None, None) => true,
        (Some(x), Some(y)) => x@ == y@,
        _ => false,
    }
}

/// Two optional spacing requests are both absent or the same value on the same line.
pub open spec fn same_spacing(a: Option<SpacingRequest>, b: Option<SpacingRequest>) -> bool {
    match (a, b) {
        (None, None) => true,
        (Some(x), Some(y)) => x.value@ == y.value@ && x.line == y.line,
        _ => false,
    }
}

pub open spec fn same_attr(a: IrEntityAttribute, b: IrEntityAttribute) -> bool {
    &&& a.data_type@ == b.data_type@
    &&& a.name@ == b.name@
    &&& a.key == b.key
    &&& same_opt_str(a.comment, b.comment)
}

pub open spec fn same_node(a: IrNode, b: IrNode) -> bool {
    &&& a.id@ == b.id@
    &&& a.label == b.label
    &&& a.shape == b.shape
    &&& same_strs(a.classes@, b.classes@)
    &&& a.members@.len() == b.members@.len()
    &&& forall|i: int| 0 <= i < a.members@.len() ==> same_attr(#[trigger] a.members@[i], b.members@[i])
    &&& a.span == b.span
    &&& a.implicit == b.implicit
}

pub open spec fn same_cluster(a: IrCluster, b: IrCluster) -> bool {
    a.title == b.title && a.members@ == b.members@ && a.subgraph == b.subgraph && a.span == b.span
}

pub open spec fn same_subgraph(a: IrSubgraph, b: IrSubgraph) -> bool {
    &&& a.key@ == b.key@
    &&& a.title == b.title
    &&& a.parent == b.parent
    &&& a.children@ == b.children@
    &&& a.members@ == b.members@
    &&& a.cluster == b.cluster
    &&& a.span == b.span
}

pub open spec fn same_constraint(a: IrConstraint, b: IrConstraint) -> bool {
    match (a, b) {
        (IrConstraint::SameRank { node_ids: x, span: s }, IrConstraint::SameRank { node_ids: y, span: t }) =>
            same_strs(x@, y@) && s == t,
        (
            IrConstraint::MinLength { from_id: f1, to_id: t1, min_len: m1, span: s1 },
            IrConstraint::MinLength { from_id: f2, to_id: t2, min_len: m2, span: s2 },
        ) => f1@ == f2@ && t1@ == t2@ && m1 == m2 && s1 == s2,
        _ => false,
    }
}

pub open spec fn same_style(a: IrStyleRef, b: IrStyleRef) -> bool {
    a.target == b.target && a.style@ == b.style@ && a.span == b.span
}

pub open spec fn same_issue(a: IrInitIssue, b: IrInitIssue) -> bool {
    a.message@ == b.message@ && a.span == b.span && a.is_error == b.is_error
}

pub open spec fn same_pair(a: (String, String), b: (String, String)) -> bool {
    a.0@ == b.0@ && a.1@ == b.1@
}

/// Two diagrams are the same except, possibly, for the texts of their labels: same label count
/// and label spans, and every other field equal.
pub open spec fn same_but_label_texts(a: MermaidDiagramIr, b: MermaidDiagramIr) -> bool {
    &&& a.diagram_type == b.diagram_type
    &&& a.direction == b.direction
    &&& a.parse_mode == b.parse_mode
    &&& a.nodes@.len() == b.nodes@.len()
    &&& forall|i: int| 0 <= i < a.nodes@.len() ==> same_node(#[trigger] a.nodes@[i], b.nodes@[i])
    &&& a.edges@ == b.edges@
    &&& a.labels@.len() == b.labels@.len()
    &&& forall|i: int| 0 <= i < a.labels@.len() ==> (#[trigger] a.labels@[i]).span == b.labels@[i].span
    &&& a.clusters@.len() == b.clusters@.len()
    &&& forall|i: int| 0 <= i < a.clusters@.len() ==> same_cluster(#[trigger] a.clusters@[i], b.clusters@[i])
    &&& a.subgraphs@.len() == b.subgraphs@.len()
    &&& forall|i: int|
        0 <= i < a.subgraphs@.len() ==> same_subgraph(#[trigger] a.subgraphs@[i], b.subgraphs@[i])
    &&& a.constraints@.len() == b.constraints@.len()
    &&& forall|i: int|
        0 <= i < a.constraints@.len() ==> same_constraint(#[trigger] a.constraints@[i], b.constraints@[i])
    &&& a.style_refs@.len() == b.style_refs@.len()
    &&& forall|i: int| 0 <= i < a.style_refs@.len() ==> same_style(#[trigger] a.style_refs@[i], b.style_refs@[i])
    &&& same_opt_str(a.title, b.title)
    &&& a.theme_variables@.len() == b.theme_variables@.len()
    &&& forall|i: int|
        0 <= i < a.theme_variables@.len() ==> same_pair(#[trigger] a.theme_variables@[i], b.theme_variables@[i])
    &&& a.edge_routing == b.edge_routing
    &&& same_spacing(a.node_spacing_request, b.node_spacing_request)
    &&& same_spacing(a.rank_spacing_request, b.rank_spacing_request)
    &&& same_opt_str(a.init_theme, b.init_theme)
    &&& a.init_flowchart_direction == b.init_flowchart_direction
    &&& a.init_issues@.len() == b.init_issues@.len()
    &&& forall|i: int| 0 <= i < a.init_issues@.len() ==> same_issue(#[trigger] a.init_issues@[i], b.init_issues@[i])
}

pub fn strs_same(a: &Vec<String>, b: &Vec<String>) -> (r: bool)
    ensures
        r == same_strs(a@, b@),
{
    if a.len() != b.len() {
        return false;
    }
    let mut i: usize = 0;
    while i < a.len()
        invariant
            a@.len() == b@.len(),
            i <= a@.len(),
            forall|k: int| 0 <= k < i ==> #[trigger] a@[k]@ == b@[k]@,
        decreases a@.len() - i,
    {
        if !(a[i] == b[i]) {
            return false;
        }
        i = i + 1;
    }
    true
}

pub fn opt_str_same(a: &Option<String>, b: &Option<String>) -> (r: bool)
    ensures
        r == same_opt_str(*a, *b),
{
    match (a, b) {
        (None, None) => true,
        (Some(x), Some(y)) => *x == *y,
        _ => false,
    }
}

fn spacing_same(a: &Option<SpacingRequest>, b: &Option<SpacingRequest>) -> (r: bool)
    ensures
        r == same_spacing(*a, *b),
{
    match (a, b) {
        (None, None) => true,
        (Some(x), Some(y)) => x.value == y.value && x.line == y.line,
        _ => false,
    }
}

fn attrs_same(a: &Vec<IrEntityAttribute>, b: &Vec<IrEntityAttribute>) -> (r: bool)
    ensures
        r == (a@.len() == b@.len() && forall|i: int| 0 <= i < a@.len() ==> same_attr(#[trigger] a@[i], b@[i])),
{
    if a.len() != b.len() {
        return false;
    }
    let mut i: usize = 0;
    while i < a.len()
        invariant
            a@.len() == b@.len(),
            i <= a@.len(),
            forall|k: int| 0 <= k < i ==> same_attr(#[trigger] a@[k], b@[k]),
        decreases a@.len() - i,
    {
        let x = &a[i];
        let y = &b[i];
        if !(x.data_type == y.data_type && x.name == y.name && x.key == y.key && opt_str_same(
            &x.comment,
            &y.comment,
        )) {
            return false;
        }
        i = i + 1;
    }
    true
}

pub(crate) fn node_same(a: &IrNode, b: &IrNode) -> (r: bool)
    ensures
        r == same_node(*a, *b),
{
    let labels_equal = match (a.label, b.label) {
        (None, None) => true,
        (Some(x), Some(y)) => x == y,
        _ => false,
    };
    a.id == b.id && labels_equal && a.shape == b.shape && strs_same(&a.classes, &b.classes)
        && attrs_same(&a.members, &b.members) && a.span == b.span && a.implicit == b.implicit
}

fn nodes_same(a: &Vec<IrNode>, b: &Vec<IrNode>) -> (r: bool)
    ensures
        r == (a@.len() == b@.len() && forall|i: int| 0 <= i < a@.len() ==> same_node(#[trigger] a@[i], b@[i])),
{
    if a.len() != b.len() {
        return false;
    }
    let mut i: usize = 0;
    while i < a.len()
        invariant
            a@.len() == b@.len(),
            i <= a@.len(),
            forall|k: int| 0 <= k < i ==> same_node(#[trigger] a@[k], b@[k]),
        decreases a@.len() - i,
    {
        if !node_same(&a[i], &b[i]) {
            return false;
        }
        i = i + 1;
    }
    true
}

fn edges_same(a: &Vec<IrEdge>, b: &Vec<IrEdge>) -> (r: bool)
    ensures
        r == (a@ == b@),
{
    if a.len() != b.len() {
        return false;
    }
    let mut i: usize = 0;
    while i < a.len()
        invariant
            a@.len() == b@.len(),
            i <= a@.len(),
            forall|k: int| 0 <= k < i ==> #[trigger] a@[k] == b@[k],
        decreases a@.len() - i,
    {
        if !(a[i] == b[i]) {
            return false;
        }
        i = i + 1;
    }
    assert(a@ =~= b@);
    true
}

fn ids_same(a: &Vec<IrNodeId>, b: &Vec<IrNodeId>) -> (r: bool)
    ensures
        r == (a@ == b@),
{
    if a.len() != b.len() {
        return false;
    }
    let mut i: usize = 0;
    while i < a.len()
        invariant
            a@.len() == b@.len(),
            i <= a@.len(),
            forall|k: int| 0 <= k < i ==> #[trigger] a@[k] == b@[k],
        decreases a@.len() - i,
    {
        if !(a[i] == b[i]) {
            return false;
        }
        i = i + 1;
    }
    assert(a@ =~= b@);
    true
}

fn usizes_same(a: &Vec<usize>, b: &Vec<usize>) -> (r: bool)
    ensures
        r == (a@ == b@),
{
    if a.len() != b.len() {
        return false;
    }
    let mut i: usize = 0;
    while i < a.len()
        invariant
            a@.len() == b@.len(),
            i <= a@.len(),
            forall|k: int| 0 <= k < i ==> #[trigger] a@[k] == b@[k],
        decreases a@.len() - i,
    {
        if a[i] != b[i] {
            return false;
        }
        i = i + 1;
    }
    assert(a@ =~= b@);
    true
}

fn label_spans_same(a: &Vec<IrLabel>, b: &Vec<IrLabel>) -> (r: bool)
    ensures
        r == (a@.len() == b@.len() && forall|i: int| 0 <= i < a@.len() ==> (#[trigger] a@[i]).span == b@[i].span),
{
    if a.len() != b.len() {
        return false;
    }
    let mut i: usize = 0;
    while i < a.len()
        invariant
            a@.len() == b@.len(),
            i <= a@.len(),
            forall|k: int| 0 <= k < i ==> (#[trigger] a@[k]).span == b@[k].span,
        decreases a@.len() - i,
    {
        if !(a[i].span == b[i].span) {
            return false;
        }
        i = i + 1;
    }
    true
}

fn opt_usize_same(a: Option<usize>, b: Option<usize>) -> (r: bool)
    ensures
        r == (a == b),
{
    match (a, b) {
        (None, None) => true,
        (Some(x), Some(y)) => x == y,
        _ => false,
    }
}

fn clusters_same(a: &Vec<IrCluster>, b: &Vec<IrCluster>) -> (r: bool)
    ensures
        r == (a@.len() == b@.len() && forall|i: int| 0 <= i < a@.len() ==> same_cluster(#[trigger] a@[i], b@[i])),
{
    if a.len() != b.len() {
        return false;
    }
    let mut i: usize = 0;
    while i < a.len()
        invariant
            a@.len() == b@.len(),
            i <= a@.len(),
            forall|k: int| 0 <= k < i ==> same_cluster(#[trigger] a@[k], b@[k]),
        decreases a@.len() - i,
    {
        let x = &a[i];
        let y = &b[i];
        let titles = match (x.title, y.title) {
            (None, None) => true,
            (Some(p), Some(q)) => p == q,
            _ => false,
        };
        if !(titles && ids_same(&x.members, &y.members) && opt_usize_same(x.subgraph, y.subgraph)
            && x.span == y.span) {
            return false;
        }
        i = i + 1;
    }
    true
}

fn subgraphs_same(a: &Vec<IrSubgraph>, b: &Vec<IrSubgraph>) -> (r: bool)
    ensures
        r == (a@.len() == b@.len() && forall|i: int| 0 <= i < a@.len() ==> same_subgraph(#[trigger] a@[i], b@[i])),
{
    if a.len() != b.len() {
        return false;
    }
    let mut i: usize = 0;
    while i < a.len()
        invariant
            a@.len() == b@.len(),
            i <= a@.len(),
            forall|k: int| 0 <= k < i ==> same_subgraph(#[trigger] a@[k], b@[k]),
        decreases a@.len() - i,
    {
        let x = &a[i];
        let y = &b[i];
        let titles = match (x.title, y.title) {
            (None, None) => true,
            (Some(p), Some(q)) => p == q,
            _ => false,
        };
        if !(x.key == y.key && titles && opt_usize_same(x.parent, y.parent) && usizes_same(
            &x.children,
            &y.children,
        ) && ids_same(&x.members, &y.members) && opt_usize_same(x.cluster, y.cluster) && x.span
            == y.span) {
            return false;
        }
        i = i + 1;
    }
    true
}

fn constraint_same(a: &IrConstraint, b: &IrConstraint) -> (r: bool)
    ensures
        r == same_constraint(*a, *b),
{
    match (a, b) {
        (IrConstraint::SameRank { node_ids: x, span: s }, IrConstraint::SameRank { node_ids: y, span: t }) =>
            strs_same(x, y) && *s == *t,
        (
            IrConstraint::MinLength { from_id: f1, to_id: t1, min_len: m1, span: s1 },
            IrConstraint::MinLength { from_id: f2, to_id: t2, min_len: m2, span: s2 },
        ) => *f1 == *f2 && *t1 == *t2 && *m1 == *m2 && *s1 == *s2,
        _ => false,
    }
}

fn constraints_same(a: &Vec<IrConstraint>, b: &Vec<IrConstraint>) -> (r: bool)
    ensures
        r == (a@.len() == b@.len() && forall|i: int| 0 <= i < a@.len() ==> same_constraint(#[trigger] a@[i], b@[i])),
{
    if a.len() != b.len() {
        return false;
    }
    let mut i: usize = 0;
    while i < a.len()
        invariant
            a@.len() == b@.len(),
            i <= a@.len(),
            forall|k: int| 0 <= k < i ==> same_constraint(#[trigger] a@[k], b@[k]),
        decreases a@.len() - i,
    {
        if !constraint_same(&a[i], &b[i]) {
            return false;
        }
        i = i + 1;
    }
    true
}

fn styles_same(a: &Vec<IrStyleRef>, b: &Vec<IrStyleRef>) -> (r: bool)
    ensures
        r == (a@.len() == b@.len() && forall|i: int| 0 <= i < a@.len() ==> same_style(#[trigger] a@[i], b@[i])),
{
    if a.len() != b.len() {
        return false;
    }
    let mut i: usize = 0;
    while i < a.len()
        invariant
            a@.len() == b@.len(),
            i <= a@.len(),
            forall|k: int| 0 <= k < i ==> same_style(#[trigger] a@[k], b@[k]),
        decreases a@.len() - i,
    {
        if !(a[i].target == b[i].target && a[i].style == b[i].style && a[i].span == b[i].span) {
            return false;
        }
        i = i + 1;
    }
    true
}

fn pairs_same(a: &Vec<(String, String)>, b: &Vec<(String, String)>) -> (r: bool)
    ensures
        r == (a@.len() == b@.len() && forall|i: int| 0 <= i < a@.len() ==> same_pair(#[trigger] a@[i], b@[i])),
{
    if a.len() != b.len() {
        return false;
    }
    let mut i: usize = 0;
    while i < a.len()
        invariant
            a@.len() == b@.len(),
            i <= a@.len(),
            forall|k: int| 0 <= k < i ==> same_pair(#[trigger] a@[k], b@[k]),
        decreases a@.len() - i,
    {
        if !(a[i].0 == b[i].0 && a[i].1 == b[i].1) {
            return false;
        }
        i = i + 1;
    }
    true
}

fn issues_same(a: &Vec<IrInitIssue>, b: &Vec<IrInitIssue>) -> (r: bool)
    ensures
        r == (a@.len() == b@.len() && forall|i: int| 0 <= i < a@.len() ==> same_issue(#[trigger] a@[i], b@[i])),
{
    if a.len() != b.len() {
        return false;
    }
    let mut i: usize = 0;
    while i < a.len()
        invariant
            a@.len() == b@.len(),
            i <= a@.len(),
            forall|k: int| 0 <= k < i ==> same_issue(#[trigger] a@[k], b@[k]),
        decreases a@.len() - i,
    {
        if !(a[i].message == b[i].message && a[i].span == b[i].span && a[i].is_error == b[i].is_error) {
            return false;
        }
        i = i + 1;
    }
    true
}

/// Whether `a` and `b` are the same diagram except, possibly, for their label texts.
pub fn ir_same_but_label_texts(a: &MermaidDiagramIr, b: &MermaidDiagramIr) -> (r: bool)
    ensures
        r == same_but_label_texts(*a, *b),
{
    let routing = match (a.edge_routing, b.edge_routing) {
        (None, None) => true,
        (Some(x), Some(y)) => x == y,
        _ => false,
    };
    let init_direction = match (a.init_flowchart_direction, b.init_flowchart_direction) {
        (None, None) => true,
        (Some(x), Some(y)) => x == y,
        _ => false,
    };
    a.diagram_type == b.diagram_type && a.direction == b.direction && a.parse_mode == b.parse_mode
        && nodes_same(&a.nodes, &b.nodes) && edges_same(&a.edges, &b.edges) && label_spans_same(
        &a.labels,
        &b.labels,
    ) && clusters_same(&a.clusters, &b.clusters) && subgraphs_same(&a.subgraphs, &b.subgraphs)
        && constraints_same(&a.constraints, &b.constraints) && styles_same(&a.style_refs, &b.style_refs)
        && opt_str_same(&a.title, &b.title) && pairs_same(&a.theme_variables, &b.theme_variables)
        && routing && spacing_same(&a.node_spacing_request, &b.node_spacing_request) && spacing_same(
        &a.rank_spacing_request,
        &b.rank_spacing_request,
    ) && opt_str_same(&a.init_theme, &b.init_theme) && init_direction && issues_same(
        &a.init_issues,
        &b.init_issues,
    )
}

} // verus!
