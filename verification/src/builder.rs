//! The IR builder: interning of nodes and labels, edges, clusters and subgraphs.
use vstd::prelude::*;

use crate::detect::{DetectionMethod, DiagramType};
use crate::format::MermaidFormatComplement;
use crate::ir::{
    clean_label, endpoint_ok, index_ok, label_ok, members_ok, spec_clean_label, ArrowType,
    EdgeRoutingHint, GraphDirection, IrAttributeKey, IrCluster, IrConstraint, IrEdge, IrEndpoint, IrEntityAttribute,
    IrInitIssue, IrLabel, IrLabelId, IrNode,
    IrNodeId, IrStyleRef, IrStyleTarget, IrSubgraph, MermaidDiagramIr, NodeShape, ParseResult,
    SpacingRequest, Span,
};
use crate::text::{chars_of, owned, string_of_window, trim, trim_window};

verus! {

/// The shape a node keeps when it is named again with `shape`: a plain rectangle is upgraded to
/// any explicit shape, and any other shape stays.
pub open spec fn upgraded_shape(old: NodeShape, shape: NodeShape) -> NodeShape {
    if old == NodeShape::Rect && shape != NodeShape::Rect {
        shape
    } else {
        old
    }
}

/// The text of an optional string argument.
pub open spec fn opt_text(o: Option<&str>) -> Option<Seq<char>> {
    match o {
        Some(t) => Some(t@),
        None => None,
    }
}

/// `new` and `old` agree on everything but nodes, edges, labels, clusters and subgraphs.
pub open spec fn same_meta(old: MermaidDiagramIr, new: MermaidDiagramIr) -> bool {
    &&& new.diagram_type == old.diagram_type
    &&& new.direction == old.direction
    &&& new.parse_mode == old.parse_mode
    &&& new.constraints@ == old.constraints@
    &&& new.style_refs@ == old.style_refs@
    &&& new.title == old.title
    &&& new.theme_variables@ == old.theme_variables@
    &&& new.edge_routing == old.edge_routing
    &&& new.node_spacing_request == old.node_spacing_request
    &&& new.rank_spacing_request == old.rank_spacing_request
}

/// `new` differs from `old` at most in its nodes and (by extension) its labels.
pub open spec fn same_but_nodes_labels(old: MermaidDiagramIr, new: MermaidDiagramIr) -> bool {
    &&& same_meta(old, new)
    &&& new.edges@ == old.edges@
    &&& new.clusters@ == old.clusters@
    &&& new.subgraphs@ == old.subgraphs@
}

/// The labels of `new` extend those of `old`.
pub open spec fn labels_extend(old: MermaidDiagramIr, new: MermaidDiagramIr) -> bool {
    &&& old.labels@.len() <= new.labels@.len()
    &&& forall|i: int| 0 <= i < old.labels@.len() ==> #[trigger] new.labels@[i] == old.labels@[i]
}

/// A label reference whose text is `t` in `ir`.
pub open spec fn label_has_text(ir: MermaidDiagramIr, l: Option<IrLabelId>, t: Seq<char>) -> bool {
    l matches Some(x) && x.0 < ir.labels@.len() && ir.labels@[x.0 as int].text@ == t
}

/// What interning the label text `text` does: the label with that text is found, and nothing
/// changes, or a label is appended; the result names it.
pub open spec fn label_post(old: MermaidDiagramIr, new: MermaidDiagramIr, text: Seq<char>, r: IrLabelId) -> bool {
    &&& same_but_nodes_labels(old, new)
    &&& new.nodes@ == old.nodes@
    &&& labels_extend(old, new)
    &&& r.0 < new.labels@.len()
    &&& new.labels@[r.0 as int].text@ == text
    &&& new.labels@.len() <= old.labels@.len() + 1
    &&& forall|i: int| 0 <= i < old.labels@.len() && old.labels@[i].text@ == text ==> r.0 == i
    &&& old.has_label(text) ==> new == old
    &&& !old.has_label(text) ==> new.labels@.len() == old.labels@.len() + 1
}

/// What interning the id `key` with optional label text `label` and shape `shape` does: the
/// node with that id is reused (its missing label filled, a plain rectangle upgraded, and it is
/// no longer implicit) or a new node is appended; nothing else changes but the labels, which
/// only grow.
pub open spec fn intern_post(
    old: MermaidDiagramIr,
    new: MermaidDiagramIr,
    key: Seq<char>,
    label: Option<Seq<char>>,
    shape: NodeShape,
    span: Span,
    k: IrNodeId,
) -> bool {
    &&& same_but_nodes_labels(old, new)
    &&& labels_extend(old, new)
    &&& k.0 < new.nodes@.len()
    &&& new.nodes@[k.0 as int].id@ == key
    &&& !new.nodes@[k.0 as int].implicit
    &&& if old.has_node(key) {
        let o = old.nodes@[k.0 as int];
        &&& k.0 < old.nodes@.len()
        &&& o.id@ == key
        &&& new.nodes@.len() == old.nodes@.len()
        &&& forall|i: int|
            0 <= i < old.nodes@.len() && i != k.0 ==> #[trigger] new.nodes@[i] == old.nodes@[i]
        &&& new.nodes@[k.0 as int].shape == upgraded_shape(o.shape, shape)
        &&& new.nodes@[k.0 as int].span == o.span
        &&& new.nodes@[k.0 as int].classes@ == o.classes@
        &&& new.nodes@[k.0 as int].members@ == o.members@
        &&& if o.label is None && label is Some {
            label_has_text(new, new.nodes@[k.0 as int].label, label->0)
        } else {
            new.nodes@[k.0 as int].label == o.label
        }
    } else {
        &&& k.0 == old.nodes@.len()
        &&& new.nodes@.len() == old.nodes@.len() + 1
        &&& forall|i: int| 0 <= i < old.nodes@.len() ==> #[trigger] new.nodes@[i] == old.nodes@[i]
        &&& new.nodes@[k.0 as int].shape == shape
        &&& new.nodes@[k.0 as int].span == span
        &&& new.nodes@[k.0 as int].classes@.len() == 0
        &&& new.nodes@[k.0 as int].members@.len() == 0
        &&& match label {
            Some(t) => label_has_text(new, new.nodes@[k.0 as int].label, t),
            None => new.nodes@[k.0 as int].label is None,
        }
    }
}

/// Whether `node` is one of `members`.
pub fn members_contain(members: &Vec<IrNodeId>, node: IrNodeId) -> (r: bool)
    ensures
        r == members@.contains(node),
{
    let mut k: usize = 0;
    while k < members.len()
        invariant
            k <= members@.len(),
            forall|m: int| 0 <= m < k ==> members@[m] != node,
        decreases members@.len() - k,
    {
        if members[k] == node {
            return true;
        }
        k = k + 1;
    }
    false
}

/// Builds one diagram's IR.
pub struct IrBuilder {
    pub ir: MermaidDiagramIr,
    pub warnings: Vec<String>,
    /// The lookup key of each cluster, by cluster index.
    pub cluster_keys: Vec<String>,
    /// The lookup key of each subgraph, by subgraph index.
    pub subgraph_keys: Vec<String>,
    /// Subgraph public id to the node id an endpoint naming it resolves to, for subgraphs that are
    /// declared later than the edge that names them.
    pub forward_members: Vec<(String, String)>,
}

impl IrBuilder {
    pub open spec fn wf(&self) -> bool {
        &&& self.ir.wf()
        &&& self.cluster_keys@.len() == self.ir.clusters@.len()
        &&& self.subgraph_keys@.len() == self.ir.subgraphs@.len()
    }

    pub open spec fn cluster_key(&self, i: int) -> Seq<char> {
        self.cluster_keys@[i]@
    }

    pub open spec fn subgraph_key(&self, i: int) -> Seq<char> {
        self.subgraph_keys@[i]@
    }

    pub open spec fn forward_map(&self) -> Seq<(Seq<char>, Seq<char>)> {
        self.forward_members@.map_values(|p: (String, String)| (p.0@, p.1@))
    }

    pub fn new(diagram_type: DiagramType) -> (b: IrBuilder)
        ensures
            b.wf(),
            b.ir.is_fresh(diagram_type),
            b.warnings@.len() == 0,
            b.forward_map().len() == 0,
    {
        IrBuilder {
            ir: MermaidDiagramIr::empty(diagram_type),
            warnings: Vec::new(),
            cluster_keys: Vec::new(),
            subgraph_keys: Vec::new(),
            forward_members: Vec::new(),
        }
    }

    pub fn add_warning(&mut self, warning: String)
        ensures
            final(self).warnings@ == old(self).warnings@.push(warning),
            final(self).ir == old(self).ir,
            final(self).wf() == old(self).wf(),
            final(self).same_tables(old(self)),
    {
        self.warnings.push(warning);
    }

    pub fn node_count(&self) -> (r: usize)
        ensures
            r == self.ir.nodes@.len(),
    {
        self.ir.nodes.len()
    }

    pub fn edge_count(&self) -> (r: usize)
        ensures
            r == self.ir.edges@.len(),
    {
        self.ir.edges.len()
    }

    /// The index of the node whose id is `key`.
    pub fn find_node(&self, key: &String) -> (r: Option<usize>)
        ensures
            r matches Some(k) ==> k < self.ir.nodes@.len() && self.ir.nodes@[k as int].id@ == key@,
            r is None ==> !self.ir.has_node(key@),
    {
        let mut i: usize = 0;
        while i < self.ir.nodes.len()
            invariant
                i <= self.ir.nodes@.len(),
                forall|j: int| 0 <= j < i ==> self.ir.nodes@[j].id@ != key@,
            decreases self.ir.nodes@.len() - i,
        {
            if self.ir.nodes[i].id == *key {
                return Some(i);
            }
            i = i + 1;
        }
        None
    }

    fn find_label(&self, text: &String) -> (r: Option<usize>)
        ensures
            r matches Some(k) ==> k < self.ir.labels@.len() && self.ir.labels@[k as int].text@
                == text@,
            r is None ==> forall|j: int|
                0 <= j < self.ir.labels@.len() ==> self.ir.labels@[j].text@ != text@,
    {
        let mut i: usize = 0;
        while i < self.ir.labels.len()
            invariant
                i <= self.ir.labels@.len(),
                forall|j: int| 0 <= j < i ==> self.ir.labels@[j].text@ != text@,
            decreases self.ir.labels@.len() - i,
        {
            if self.ir.labels[i].text == *text {
                return Some(i);
            }
            i = i + 1;
        }
        None
    }

    /// The label whose text is `text`, created if there is none.
    pub fn intern_label(&mut self, text: String, span: Span) -> (r: IrLabelId)
        requires
            old(self).wf(),
        ensures
            final(self).wf(),
            final(self).warnings@ == old(self).warnings@,
            final(self).same_tables(old(self)),
            label_post(old(self).ir, final(self).ir, text@, r),
    {
        match self.find_label(&text) {
            Some(k) => IrLabelId(k),
            None => {
                let k = self.ir.labels.len();
                self.ir.labels.push(IrLabel { text, span });
                proof {
                    let ir = self.ir;
                    assert forall|i: int, j: int|
                        0 <= i < j < ir.labels@.len() implies #[trigger] ir.labels@[i].text@
                        != #[trigger] ir.labels@[j].text@ by {
                        if j < k {
                            assert(ir.labels@[i] == old(self).ir.labels@[i]);
                            assert(ir.labels@[j] == old(self).ir.labels@[j]);
                        }
                    }
                }
                IrLabelId(k)
            },
        }
    }

    /// The lookup tables are untouched.
    pub open spec fn same_tables(&self, other: &IrBuilder) -> bool {
        &&& self.cluster_keys@ == other.cluster_keys@
        &&& self.subgraph_keys@ == other.subgraph_keys@
        &&& self.forward_members@ == other.forward_members@
    }

    /// The node whose id is `id` (trimmed), created if there is none: see [`intern_post`]. An id
    /// that trims to nothing makes no node and records a warning.
    pub fn intern_node(&mut self, id: &str, label: Option<&str>, shape: NodeShape, span: Span) -> (r:
        Option<IrNodeId>)
        requires
            old(self).wf(),
        ensures
            final(self).wf(),
            final(self).same_tables(old(self)),
            (r is None) == (trim(id@).len() == 0),
            r is None ==> final(self).ir == old(self).ir && final(self).warnings@.len()
                == old(self).warnings@.len() + 1 && final(self).warnings@.last()@
                == "Encountered empty node identifier; skipped node"@
                && final(self).warnings@.drop_last() == old(self).warnings@,
            r matches Some(k) ==> intern_post(
                old(self).ir,
                final(self).ir,
                trim(id@),
                opt_text(label),
                shape,
                span,
                k,
            ) && final(self).warnings@ == old(self).warnings@,
    {
        let chars = chars_of(id);
        let n = chars.len();
        assert(chars@.subrange(0, n as int) =~= chars@);
        let (a, b) = trim_window(&chars, 0, n);
        if a == b {
            self.add_warning(owned("Encountered empty node identifier; skipped node"));
            return None;
        }
        let key = string_of_window(&chars, a, b);
        match self.find_node(&key) {
            Some(k) => {
                let ghost before = self.ir;
                let mut new_label = self.ir.nodes[k].label;
                if self.ir.nodes[k].label.is_none() {
                    if let Some(t) = label {
                        let l = self.intern_label(owned(t), span);
                        new_label = Some(l);
                    }
                }
                let old_shape = self.ir.nodes[k].shape;
                let new_shape = if old_shape == NodeShape::Rect && shape != NodeShape::Rect {
                    shape
                } else {
                    old_shape
                };
                let mut classes: Vec<String> = Vec::new();
                std::mem::swap(&mut classes, &mut self.ir.nodes[k].classes);
                let mut members: Vec<IrEntityAttribute> = Vec::new();
                std::mem::swap(&mut members, &mut self.ir.nodes[k].members);
                let updated = IrNode {
                    id: self.ir.nodes[k].id.clone(),
                    label: new_label,
                    shape: new_shape,
                    classes,
                    members,
                    span: self.ir.nodes[k].span,
                    implicit: false,
                };
                let ghost mid = self.ir;
                self.ir.nodes.set(k, updated);
                proof {
                    let ir = self.ir;
                    assert forall|i: int, j: int|
                        0 <= i < j < ir.nodes@.len() implies #[trigger] ir.nodes@[i].id@
                        != #[trigger] ir.nodes@[j].id@ by {
                        assert(ir.nodes@[i].id@ == mid.nodes@[i].id@);
                        assert(ir.nodes@[j].id@ == mid.nodes@[j].id@);
                    }
                    assert forall|i: int| 0 <= i < ir.nodes@.len() implies (
                    #[trigger] ir.nodes@[i]).id@.len() > 0 && label_ok(
                        ir.nodes@[i].label,
                        ir.labels@.len(),
                    ) by {
                        assert(mid.nodes@[i].id@.len() > 0);
                        assert(label_ok(mid.nodes@[i].label, mid.labels@.len()));
                    }
                    assert(ir.wf());
                }
                Some(IrNodeId(k))
            },
            None => {
                let l = match label {
                    Some(t) => Some(self.intern_label(owned(t), span)),
                    None => None,
                };
                let k = self.ir.nodes.len();
                let ghost mid = self.ir;
                self.ir.nodes.push(
                    IrNode {
                        id: key,
                        label: l,
                        shape,
                        classes: Vec::new(),
                        members: Vec::new(),
                        span,
                        implicit: false,
                    },
                );
                proof {
                    let ir = self.ir;
                    assert forall|i: int, j: int|
                        0 <= i < j < ir.nodes@.len() implies #[trigger] ir.nodes@[i].id@
                        != #[trigger] ir.nodes@[j].id@ by {
                        if j == k {
                            assert(ir.nodes@[i] == mid.nodes@[i]);
                            assert(!old(self).ir.has_node(key@));
                            assert(old(self).ir.nodes@[i] == mid.nodes@[i]);
                        } else {
                            assert(ir.nodes@[i] == mid.nodes@[i]);
                            assert(ir.nodes@[j] == mid.nodes@[j]);
                        }
                    }
                    assert forall|i: int| 0 <= i < ir.nodes@.len() implies (
                    #[trigger] ir.nodes@[i]).id@.len() > 0 && label_ok(
                        ir.nodes@[i].label,
                        ir.labels@.len(),
                    ) by {
                        if i < k {
                            assert(ir.nodes@[i] == mid.nodes@[i]);
                        }
                    }
                    assert(ir.wf());
                }
                Some(IrNodeId(k))
            },
        }
    }

    /// Replace the class and attribute lists of node `k`, keeping everything else about it.
    fn set_node_lists(&mut self, k: usize, classes: Vec<String>, members: Vec<IrEntityAttribute>)
        requires
            old(self).wf(),
            k < old(self).ir.nodes@.len(),
        ensures
            final(self).wf(),
            final(self).same_tables(old(self)),
            final(self).warnings@ == old(self).warnings@,
            same_but_nodes_labels(old(self).ir, final(self).ir),
            final(self).ir.labels@ == old(self).ir.labels@,
            final(self).ir.nodes@.len() == old(self).ir.nodes@.len(),
            forall|i: int|
                0 <= i < old(self).ir.nodes@.len() && i != k ==> #[trigger] final(self).ir.nodes@[i]
                    == old(self).ir.nodes@[i],
            final(self).ir.nodes@[k as int].id@ == old(self).ir.nodes@[k as int].id@,
            final(self).ir.nodes@[k as int].label == old(self).ir.nodes@[k as int].label,
            final(self).ir.nodes@[k as int].shape == old(self).ir.nodes@[k as int].shape,
            final(self).ir.nodes@[k as int].classes@ == classes@,
            final(self).ir.nodes@[k as int].members@ == members@,
    {
        let updated = IrNode {
            id: self.ir.nodes[k].id.clone(),
            label: self.ir.nodes[k].label,
            shape: self.ir.nodes[k].shape,
            classes,
            members,
            span: self.ir.nodes[k].span,
            implicit: self.ir.nodes[k].implicit,
        };
        let ghost mid = self.ir;
        self.ir.nodes.set(k, updated);
        proof {
            let ir = self.ir;
            assert forall|i: int, j: int|
                0 <= i < j < ir.nodes@.len() implies #[trigger] ir.nodes@[i].id@
                != #[trigger] ir.nodes@[j].id@ by {
                assert(ir.nodes@[i].id@ == mid.nodes@[i].id@);
                assert(ir.nodes@[j].id@ == mid.nodes@[j].id@);
            }
            assert forall|i: int| 0 <= i < ir.nodes@.len() implies (#[trigger] ir.nodes@[i]).id@.len()
                > 0 && label_ok(ir.nodes@[i].label, ir.labels@.len()) by {
                assert(mid.nodes@[i].id@.len() > 0);
                assert(label_ok(mid.nodes@[i].label, mid.labels@.len()));
            }
            assert(ir.wf());
        }
    }

    /// Give the node `node_key` the class `class_name` (trimmed), creating the node as a plain
    /// rectangle if there is none. A blank class changes nothing; a class the node already has is
    /// not added twice.
    pub fn add_class_to_node(&mut self, node_key: &str, class_name: &str, span: Span)
        requires
            old(self).wf(),
        ensures
            final(self).wf(),
            final(self).same_tables(old(self)),
            same_but_nodes_labels(old(self).ir, final(self).ir),
            labels_extend(old(self).ir, final(self).ir),
            old(self).ir.nodes@.len() <= final(self).ir.nodes@.len() <= old(self).ir.nodes@.len() + 1,
            forall|i: int|
                0 <= i < old(self).ir.nodes@.len() ==> (#[trigger] final(self).ir.nodes@[i]).id@
                    == old(self).ir.nodes@[i].id@,
            final(self).warnings@ == old(self).warnings@ || (final(self).warnings@.len()
                == old(self).warnings@.len() + 1 && final(self).warnings@.drop_last()
                == old(self).warnings@),
            trim(class_name@).len() == 0 ==> *final(self) == *old(self),
            trim(class_name@).len() > 0 && trim(node_key@).len() > 0 ==> exists|k: int|
                0 <= k < final(self).ir.nodes@.len() && (#[trigger] final(self).ir.nodes@[k]).id@
                    == trim(node_key@) && exists|c: int|
                    0 <= c < final(self).ir.nodes@[k].classes@.len()
                        && final(self).ir.nodes@[k].classes@[c]@ == trim(class_name@),
    {
        let cs = chars_of(class_name);
        let n = cs.len();
        assert(cs@.subrange(0, n as int) =~= cs@);
        let (a, b) = trim_window(&cs, 0, n);
        if a == b {
            return;
        }
        let class = string_of_window(&cs, a, b);
        let ghost before = *self;
        let k = match self.intern_node(node_key, None, NodeShape::Rect, span) {
            Some(k) => k.0,
            None => return,
        };
        let ghost mid = *self;
        proof {
            if before.ir.has_node(trim(node_key@)) {
                assert forall|i: int| 0 <= i < before.ir.nodes@.len() implies (
                #[trigger] mid.ir.nodes@[i]).id@ == before.ir.nodes@[i].id@ by {
                    if i != k {
                        assert(mid.ir.nodes@[i] == before.ir.nodes@[i]);
                    }
                }
            } else {
                assert forall|i: int| 0 <= i < before.ir.nodes@.len() implies (
                #[trigger] mid.ir.nodes@[i]).id@ == before.ir.nodes@[i].id@ by {
                    assert(mid.ir.nodes@[i] == before.ir.nodes@[i]);
                }
            }
        }
        if crate::text::strings_contain(&self.ir.nodes[k].classes, &class) {
            proof {
                let c = choose|c: int| 0 <= c < mid.ir.nodes@[k as int].classes@.len()
                    && (#[trigger] mid.ir.nodes@[k as int].classes@[c])@ == class@;
                assert(mid.ir.nodes@[k as int].id@ == trim(node_key@));
            }
            return;
        }
        let mut classes: Vec<String> = Vec::new();
        std::mem::swap(&mut classes, &mut self.ir.nodes[k].classes);
        let mut members: Vec<IrEntityAttribute> = Vec::new();
        std::mem::swap(&mut members, &mut self.ir.nodes[k].members);
        let ghost mid2 = *self;
        let ghost old_classes = classes@;
        classes.push(class);
        self.set_node_lists(k, classes, members);
        proof {
            assert(self.ir.nodes@[k as int].classes@[old_classes.len() as int]@ == trim(class_name@));
            assert forall|i: int| 0 <= i < before.ir.nodes@.len() implies (
            #[trigger] self.ir.nodes@[i]).id@ == before.ir.nodes@[i].id@ by {
                if i != k {
                    assert(self.ir.nodes@[i] == mid2.ir.nodes@[i]);
                    assert(mid2.ir.nodes@[i].id@ == mid.ir.nodes@[i].id@);
                }
                assert(mid.ir.nodes@[i].id@ == before.ir.nodes@[i].id@);
            }
        }
    }

    /// Append an attribute to the entity `node`.
    pub fn add_entity_attribute(
        &mut self,
        node: IrNodeId,
        data_type: String,
        name: String,
        key: IrAttributeKey,
        comment: Option<String>,
    )
        requires
            old(self).wf(),
            node.0 < old(self).ir.nodes@.len(),
        ensures
            final(self).wf(),
            final(self).same_tables(old(self)),
            final(self).warnings@ == old(self).warnings@,
            same_but_nodes_labels(old(self).ir, final(self).ir),
            final(self).ir.labels@ == old(self).ir.labels@,
            final(self).ir.nodes@.len() == old(self).ir.nodes@.len(),
            forall|i: int|
                0 <= i < old(self).ir.nodes@.len() ==> (#[trigger] final(self).ir.nodes@[i]).id@
                    == old(self).ir.nodes@[i].id@,
            final(self).ir.nodes@[node.0 as int].members@ == old(self).ir.nodes@[node.0 as int].members@.push(
                IrEntityAttribute { data_type, name, key, comment },
            ),
    {
        let k = node.0;
        let mut classes: Vec<String> = Vec::new();
        std::mem::swap(&mut classes, &mut self.ir.nodes[k].classes);
        let mut members: Vec<IrEntityAttribute> = Vec::new();
        std::mem::swap(&mut members, &mut self.ir.nodes[k].members);
        let ghost mid = *self;
        members.push(IrEntityAttribute { data_type, name, key, comment });
        self.set_node_lists(k, classes, members);
        proof {
            assert forall|i: int| 0 <= i < old(self).ir.nodes@.len() implies (
            #[trigger] self.ir.nodes@[i]).id@ == old(self).ir.nodes@[i].id@ by {
                if i != k {
                    assert(self.ir.nodes@[i] == mid.ir.nodes@[i]);
                }
            }
        }
    }

    /// Append the edge `from -> to`; its label is the cleaned `label` (see [`spec_clean_label`]).
    pub fn push_edge(
        &mut self,
        from: IrNodeId,
        to: IrNodeId,
        arrow: ArrowType,
        label: Option<&str>,
        span: Span,
    )
        requires
            old(self).wf(),
            from.0 < old(self).ir.nodes@.len(),
            to.0 < old(self).ir.nodes@.len(),
        ensures
            final(self).wf(),
            final(self).same_tables(old(self)),
            final(self).warnings@ == old(self).warnings@,
            same_meta(old(self).ir, final(self).ir),
            final(self).ir.nodes@ == old(self).ir.nodes@,
            final(self).ir.clusters@ == old(self).ir.clusters@,
            final(self).ir.subgraphs@ == old(self).ir.subgraphs@,
            labels_extend(old(self).ir, final(self).ir),
            final(self).ir.edges@.len() == old(self).ir.edges@.len() + 1,
            final(self).ir.edges@.drop_last() == old(self).ir.edges@,
            final(self).ir.edges@.last().from == IrEndpoint::Node(from),
            final(self).ir.edges@.last().to == IrEndpoint::Node(to),
            final(self).ir.edges@.last().arrow == arrow,
            final(self).ir.edges@.last().span == span,
            match label {
                Some(t) => match spec_clean_label(t@) {
                    Some(c) => label_has_text(final(self).ir, final(self).ir.edges@.last().label, c),
                    None => final(self).ir.edges@.last().label is None,
                },
                None => final(self).ir.edges@.last().label is None,
            },
    {
        let mut l: Option<IrLabelId> = None;
        if let Some(t) = label {
            if let Some(c) = clean_label(t) {
                l = Some(self.intern_label(c, span));
            }
        }
        let ghost mid = self.ir;
        self.ir.edges.push(
            IrEdge { from: IrEndpoint::Node(from), to: IrEndpoint::Node(to), arrow, label: l, span },
        );
        proof {
            let ir = self.ir;
            assert forall|i: int| 0 <= i < ir.edges@.len() implies endpoint_ok(
                (#[trigger] ir.edges@[i]).from,
                ir.nodes@.len(),
            ) && endpoint_ok(ir.edges@[i].to, ir.nodes@.len()) && label_ok(
                ir.edges@[i].label,
                ir.labels@.len(),
            ) by {
                if i < mid.edges@.len() {
                    assert(ir.edges@[i] == mid.edges@[i]);
                }
            }
            assert(ir.edges@.drop_last() =~= old(self).ir.edges@);
        }
    }

    /// The index of the cluster whose lookup key is `key`.
    fn find_cluster(&self, key: &String) -> (r: Option<usize>)
        requires
            self.wf(),
        ensures
            r matches Some(k) ==> k < self.ir.clusters@.len() && self.cluster_key(k as int) == key@,
            r is None ==> forall|j: int|
                0 <= j < self.ir.clusters@.len() ==> self.cluster_key(j) != key@,
    {
        let mut i: usize = 0;
        while i < self.cluster_keys.len()
            invariant
                i <= self.cluster_keys@.len() == self.ir.clusters@.len(),
                forall|j: int| 0 <= j < i ==> self.cluster_key(j) != key@,
            decreases self.cluster_keys@.len() - i,
        {
            if self.cluster_keys[i] == *key {
                return Some(i);
            }
            i = i + 1;
        }
        None
    }

    /// The index of the subgraph whose lookup key is `key`.
    fn find_subgraph(&self, key: &String) -> (r: Option<usize>)
        requires
            self.wf(),
        ensures
            r matches Some(k) ==> k < self.ir.subgraphs@.len() && self.subgraph_key(k as int)
                == key@,
            r is None ==> forall|j: int|
                0 <= j < self.ir.subgraphs@.len() ==> self.subgraph_key(j) != key@,
    {
        let mut i: usize = 0;
        while i < self.subgraph_keys.len()
            invariant
                i <= self.subgraph_keys@.len() == self.ir.subgraphs@.len(),
                forall|j: int| 0 <= j < i ==> self.subgraph_key(j) != key@,
            decreases self.subgraph_keys@.len() - i,
        {
            if self.subgraph_keys[i] == *key {
                return Some(i);
            }
            i = i + 1;
        }
        None
    }

    /// The cluster registered under `key` (trimmed), created with the cleaned `title` if there is
    /// none; a re-opened cluster without a title takes `title`. A key that trims to nothing names
    /// no cluster.
    pub fn ensure_cluster(&mut self, key: &str, title: Option<&str>, span: Span) -> (r: Option<usize>)
        requires
            old(self).wf(),
        ensures
            final(self).wf(),
            final(self).warnings@ == old(self).warnings@,
            final(self).subgraph_keys@ == old(self).subgraph_keys@,
            final(self).forward_members@ == old(self).forward_members@,
            same_meta(old(self).ir, final(self).ir),
            final(self).ir.nodes@ == old(self).ir.nodes@,
            final(self).ir.edges@ == old(self).ir.edges@,
            final(self).ir.subgraphs@ == old(self).ir.subgraphs@,
            labels_extend(old(self).ir, final(self).ir),
            (r is None) == (trim(key@).len() == 0),
            r is None ==> final(self).ir == old(self).ir && final(self).cluster_keys@ == old(self).cluster_keys@,
            r matches Some(k) ==> {
                &&& k < final(self).ir.clusters@.len()
                &&& final(self).cluster_key(k as int) == trim(key@)
                &&& if exists|j: int|
                    0 <= j < old(self).ir.clusters@.len() && old(self).cluster_key(j) == trim(
                        key@,
                    ) {
                    &&& k < old(self).ir.clusters@.len()
                    &&& final(self).ir.clusters@.len() == old(self).ir.clusters@.len()
                    &&& final(self).cluster_keys@ == old(self).cluster_keys@
                    &&& forall|i: int|
                        0 <= i < old(self).ir.clusters@.len() && i != k ==> #[trigger] final(self).ir.clusters@[i] == old(self).ir.clusters@[i]
                    &&& final(self).ir.clusters@[k as int].members@ == old(self).ir.clusters@[k as int].members@
                } else {
                    &&& k == old(self).ir.clusters@.len()
                    &&& final(self).ir.clusters@.len() == old(self).ir.clusters@.len() + 1
                    &&& final(self).ir.clusters@.drop_last() == old(self).ir.clusters@
                    &&& final(self).ir.clusters@[k as int].members@.len() == 0
                    &&& final(self).ir.clusters@[k as int].subgraph is None
                }
            },
    {
        let chars = chars_of(key);
        let n = chars.len();
        assert(chars@.subrange(0, n as int) =~= chars@);
        let (a, b) = trim_window(&chars, 0, n);
        if a == b {
            return None;
        }
        let k = string_of_window(&chars, a, b);
        match self.find_cluster(&k) {
            Some(i) => {
                if self.ir.clusters[i].title.is_none() {
                    if let Some(t) = title {
                        if let Some(c) = clean_label(t) {
                            let l = self.intern_label(c, span);
                            let ghost mid = self.ir;
                            let mut members: Vec<IrNodeId> = Vec::new();
                            std::mem::swap(&mut members, &mut self.ir.clusters[i].members);
                            let updated = IrCluster {
                                title: Some(l),
                                members,
                                subgraph: self.ir.clusters[i].subgraph,
                                span: self.ir.clusters[i].span,
                            };
                            self.ir.clusters.set(i, updated);
                            proof {
                                let ir = self.ir;
                                assert forall|j: int| 0 <= j < ir.clusters@.len() implies label_ok(
                                    (#[trigger] ir.clusters@[j]).title,
                                    ir.labels@.len(),
                                ) && members_ok(ir.clusters@[j].members@, ir.nodes@.len())
                                    && index_ok(ir.clusters@[j].subgraph, ir.subgraphs@.len()) by {
                                    if j != i {
                                        assert(ir.clusters@[j] == mid.clusters@[j]);
                                    }
                                }
                            }
                        }
                    }
                }
                Some(i)
            },
            None => {
                let mut l: Option<IrLabelId> = None;
                if let Some(t) = title {
                    if let Some(c) = clean_label(t) {
                        l = Some(self.intern_label(c, span));
                    }
                }
                let i = self.ir.clusters.len();
                let ghost mid = self.ir;
                self.ir.clusters.push(
                    IrCluster { title: l, members: Vec::new(), subgraph: None, span },
                );
                self.cluster_keys.push(k);
                proof {
                    let ir = self.ir;
                    assert forall|j: int| 0 <= j < ir.clusters@.len() implies label_ok(
                        (#[trigger] ir.clusters@[j]).title,
                        ir.labels@.len(),
                    ) && members_ok(ir.clusters@[j].members@, ir.nodes@.len()) && index_ok(
                        ir.clusters@[j].subgraph,
                        ir.subgraphs@.len(),
                    ) by {
                        if j < i {
                            assert(ir.clusters@[j] == mid.clusters@[j]);
                        }
                    }
                    assert(ir.clusters@.drop_last() =~= old(self).ir.clusters@);
                    assert(self.cluster_key(i as int) == k@);
                }
                Some(i)
            },
        }
    }

    /// Add `node` to cluster `ci`'s members unless it is already there (or there is no such
    /// cluster).
    pub fn add_node_to_cluster(&mut self, ci: usize, node: IrNodeId)
        requires
            old(self).wf(),
            node.0 < old(self).ir.nodes@.len(),
        ensures
            final(self).wf(),
            final(self).same_tables(old(self)),
            final(self).warnings@ == old(self).warnings@,
            same_meta(old(self).ir, final(self).ir),
            final(self).ir.nodes@ == old(self).ir.nodes@,
            final(self).ir.edges@ == old(self).ir.edges@,
            final(self).ir.labels@ == old(self).ir.labels@,
            final(self).ir.subgraphs@ == old(self).ir.subgraphs@,
            final(self).ir.clusters@.len() == old(self).ir.clusters@.len(),
            forall|j: int|
                0 <= j < old(self).ir.clusters@.len() && j != ci ==> #[trigger] final(self).ir.clusters@[j] == old(self).ir.clusters@[j],
            ci < old(self).ir.clusters@.len() ==> {
                let o = old(self).ir.clusters@[ci as int];
                let c = final(self).ir.clusters@[ci as int];
                &&& c.title == o.title
                &&& c.subgraph == o.subgraph
                &&& c.members@ == if o.members@.contains(node) {
                    o.members@
                } else {
                    o.members@.push(node)
                }
            },
    {
        if ci >= self.ir.clusters.len() {
            return;
        }
        if members_contain(&self.ir.clusters[ci].members, node) {
            return;
        }
        let ghost mid = self.ir;
        self.ir.clusters[ci].members.push(node);
        proof {
            let ir = self.ir;
            assert(!mid.clusters@[ci as int].members@.contains(node));
            assert forall|j: int| 0 <= j < ir.clusters@.len() implies label_ok(
                (#[trigger] ir.clusters@[j]).title,
                ir.labels@.len(),
            ) && members_ok(ir.clusters@[j].members@, ir.nodes@.len()) && index_ok(
                ir.clusters@[j].subgraph,
                ir.subgraphs@.len(),
            ) by {
                if j != ci {
                    assert(ir.clusters@[j] == mid.clusters@[j]);
                } else {
                    let ms = ir.clusters@[j].members@;
                    assert forall|m: int| 0 <= m < ms.len() implies (#[trigger] ms[m]).0
                        < ir.nodes@.len() by {
                        if m < ms.len() - 1 {
                            assert(ms[m] == mid.clusters@[j].members@[m]);
                        }
                    }
                }
            }
        }
    }

    /// The subgraph registered under `lookup_key` (trimmed), created with public id `public_key`
    /// (trimmed), the cleaned `title`, `parent` and `cluster` if there is none; a re-opened
    /// subgraph without a title takes `title`. A new subgraph is recorded as a child of its parent
    /// and as the mirror of its cluster. Empty keys name no subgraph.
    pub fn ensure_subgraph(
        &mut self,
        lookup_key: &str,
        public_key: &str,
        title: Option<&str>,
        span: Span,
        parent: Option<usize>,
        cluster: Option<usize>,
    ) -> (r: Option<usize>)
        requires
            old(self).wf(),
            index_ok(parent, old(self).ir.subgraphs@.len()),
            index_ok(cluster, old(self).ir.clusters@.len()),
        ensures
            final(self).wf(),
            final(self).warnings@ == old(self).warnings@,
            final(self).cluster_keys@ == old(self).cluster_keys@,
            final(self).forward_members@ == old(self).forward_members@,
            same_meta(old(self).ir, final(self).ir),
            final(self).ir.nodes@ == old(self).ir.nodes@,
            final(self).ir.edges@ == old(self).ir.edges@,
            labels_extend(old(self).ir, final(self).ir),
            final(self).ir.clusters@.len() == old(self).ir.clusters@.len(),
            forall|j: int|
                0 <= j < old(self).ir.clusters@.len() ==> (#[trigger] final(self).ir.clusters@[j]).members@ == old(self).ir.clusters@[j].members@,
            final(self).ir.subgraphs@.len() >= old(self).ir.subgraphs@.len(),
            forall|j: int|
                0 <= j < old(self).ir.subgraphs@.len() ==> (#[trigger] final(self).ir.subgraphs@[j]).members@ == old(self).ir.subgraphs@[j].members@ && final(self).ir.subgraphs@[j].key == old(self).ir.subgraphs@[j].key,
            (r is None) == (trim(lookup_key@).len() == 0 || trim(public_key@).len() == 0),
            r is None ==> final(self).ir == old(self).ir && final(self).subgraph_keys@ == old(self).subgraph_keys@,
            r matches Some(k) ==> {
                &&& k < final(self).ir.subgraphs@.len()
                &&& final(self).subgraph_key(k as int) == trim(lookup_key@)
                &&& if exists|j: int|
                    0 <= j < old(self).ir.subgraphs@.len() && old(self).subgraph_key(j) == trim(
                        lookup_key@,
                    ) {
                    &&& k < old(self).ir.subgraphs@.len()
                    &&& final(self).ir.subgraphs@.len() == old(self).ir.subgraphs@.len()
                } else {
                    &&& k == old(self).ir.subgraphs@.len()
                    &&& final(self).ir.subgraphs@.len() == old(self).ir.subgraphs@.len() + 1
                    &&& final(self).ir.subgraphs@[k as int].key@ == trim(public_key@)
                    &&& final(self).ir.subgraphs@[k as int].members@.len() == 0
                    &&& final(self).ir.subgraphs@[k as int].parent == parent
                    &&& final(self).ir.subgraphs@[k as int].cluster == cluster
                }
            },
    {
        let lc = chars_of(lookup_key);
        let ln = lc.len();
        assert(lc@.subrange(0, ln as int) =~= lc@);
        let (la, lb) = trim_window(&lc, 0, ln);
        let pc = chars_of(public_key);
        let pn = pc.len();
        assert(pc@.subrange(0, pn as int) =~= pc@);
        let (pa, pb) = trim_window(&pc, 0, pn);
        if la == lb || pa == pb {
            return None;
        }
        let lk = string_of_window(&lc, la, lb);
        match self.find_subgraph(&lk) {
            Some(i) => {
                if self.ir.subgraphs[i].title.is_none() {
                    if let Some(t) = title {
                        if let Some(c) = clean_label(t) {
                            let l = self.intern_label(c, span);
                            let ghost mid = self.ir;
                            self.ir.subgraphs[i].title = Some(l);
                            proof {
                                let ir = self.ir;
                                assert forall|j: int| 0 <= j < ir.subgraphs@.len() implies label_ok(
                                    (#[trigger] ir.subgraphs@[j]).title,
                                    ir.labels@.len(),
                                ) && members_ok(ir.subgraphs@[j].members@, ir.nodes@.len())
                                    && index_ok(ir.subgraphs@[j].parent, ir.subgraphs@.len())
                                    && index_ok(ir.subgraphs@[j].cluster, ir.clusters@.len()) by {
                                    if j != i {
                                        assert(ir.subgraphs@[j] == mid.subgraphs@[j]);
                                    }
                                }
                            }
                        }
                    }
                }
                Some(i)
            },
            None => {
                let mut l: Option<IrLabelId> = None;
                if let Some(t) = title {
                    if let Some(c) = clean_label(t) {
                        l = Some(self.intern_label(c, span));
                    }
                }
                let i = self.ir.subgraphs.len();
                let pk = string_of_window(&pc, pa, pb);
                let ghost mid = self.ir;
                self.ir.subgraphs.push(
                    IrSubgraph {
                        key: pk,
                        title: l,
                        parent,
                        children: Vec::new(),
                        members: Vec::new(),
                        cluster,
                        span,
                    },
                );
                self.subgraph_keys.push(lk);
                let ghost mid2 = self.ir;
                if let Some(p) = parent {
                    self.ir.subgraphs[p].children.push(i);
                }
                let ghost mid3 = self.ir;
                if let Some(c) = cluster {
                    self.ir.clusters[c].subgraph = Some(i);
                }
                proof {
                    let ir = self.ir;
                    assert forall|j: int| 0 <= j < ir.subgraphs@.len() implies label_ok(
                        (#[trigger] ir.subgraphs@[j]).title,
                        ir.labels@.len(),
                    ) && members_ok(ir.subgraphs@[j].members@, ir.nodes@.len()) && index_ok(
                        ir.subgraphs@[j].parent,
                        ir.subgraphs@.len(),
                    ) && index_ok(ir.subgraphs@[j].cluster, ir.clusters@.len()) by {
                        assert(ir.subgraphs@[j].members@ == mid2.subgraphs@[j].members@);
                        assert(ir.subgraphs@[j].title == mid2.subgraphs@[j].title);
                        assert(ir.subgraphs@[j].parent == mid2.subgraphs@[j].parent);
                        assert(ir.subgraphs@[j].cluster == mid2.subgraphs@[j].cluster);
                        if j < i {
                            assert(mid2.subgraphs@[j] == mid.subgraphs@[j]);
                        }
                    }
                    assert forall|j: int| 0 <= j < ir.clusters@.len() implies label_ok(
                        (#[trigger] ir.clusters@[j]).title,
                        ir.labels@.len(),
                    ) && members_ok(ir.clusters@[j].members@, ir.nodes@.len()) && index_ok(
                        ir.clusters@[j].subgraph,
                        ir.subgraphs@.len(),
                    ) by {
                        assert(ir.clusters@[j].members@ == mid.clusters@[j].members@);
                        assert(ir.clusters@[j].title == mid.clusters@[j].title);
                        if cluster != Some(j as usize) {
                            assert(ir.clusters@[j] == mid.clusters@[j]);
                        }
                    }
                    assert forall|j: int| 0 <= j < old(self).ir.subgraphs@.len() implies (
                    #[trigger] ir.subgraphs@[j]).members@ == old(self).ir.subgraphs@[j].members@
                        && ir.subgraphs@[j].key == old(self).ir.subgraphs@[j].key by {
                        assert(mid2.subgraphs@[j] == mid.subgraphs@[j]);
                    }
                    assert(self.subgraph_key(i as int) == lk@);
                }
                Some(i)
            },
        }
    }

    /// Add `node` to subgraph `si`'s members unless it is already there (or there is no such
    /// subgraph).
    pub fn add_node_to_subgraph(&mut self, si: usize, node: IrNodeId)
        requires
            old(self).wf(),
            node.0 < old(self).ir.nodes@.len(),
        ensures
            final(self).wf(),
            final(self).same_tables(old(self)),
            final(self).warnings@ == old(self).warnings@,
            same_meta(old(self).ir, final(self).ir),
            final(self).ir.nodes@ == old(self).ir.nodes@,
            final(self).ir.edges@ == old(self).ir.edges@,
            final(self).ir.labels@ == old(self).ir.labels@,
            final(self).ir.clusters@ == old(self).ir.clusters@,
            final(self).ir.subgraphs@.len() == old(self).ir.subgraphs@.len(),
            forall|j: int|
                0 <= j < old(self).ir.subgraphs@.len() && j != si ==> #[trigger] final(self).ir.subgraphs@[j]
                    == old(self).ir.subgraphs@[j],
            si < old(self).ir.subgraphs@.len() ==> {
                let o = old(self).ir.subgraphs@[si as int];
                let c = final(self).ir.subgraphs@[si as int];
                &&& c.key == o.key
                &&& c.title == o.title
                &&& c.parent == o.parent
                &&& c.cluster == o.cluster
                &&& c.members@ == if o.members@.contains(node) {
                    o.members@
                } else {
                    o.members@.push(node)
                }
            },
    {
        if si >= self.ir.subgraphs.len() {
            return;
        }
        if members_contain(&self.ir.subgraphs[si].members, node) {
            return;
        }
        let ghost mid = self.ir;
        self.ir.subgraphs[si].members.push(node);
        proof {
            let ir = self.ir;
            assert forall|j: int| 0 <= j < ir.subgraphs@.len() implies label_ok(
                (#[trigger] ir.subgraphs@[j]).title,
                ir.labels@.len(),
            ) && members_ok(ir.subgraphs@[j].members@, ir.nodes@.len()) && index_ok(
                ir.subgraphs@[j].parent,
                ir.subgraphs@.len(),
            ) && index_ok(ir.subgraphs@[j].cluster, ir.clusters@.len()) by {
                if j != si {
                    assert(ir.subgraphs@[j] == mid.subgraphs@[j]);
                } else {
                    let ms = ir.subgraphs@[j].members@;
                    assert forall|m: int| 0 <= m < ms.len() implies (#[trigger] ms[m]).0
                        < ir.nodes@.len() by {
                        if m < ms.len() - 1 {
                            assert(ms[m] == mid.subgraphs@[j].members@[m]);
                        }
                    }
                }
            }
        }
    }

    /// The first member of the first subgraph whose public id is `key`, if it has one.
    pub open spec fn spec_subgraph_member(&self, key: Seq<char>) -> Option<IrNodeId> {
        match first_subgraph_with_key(self.ir.subgraphs@, key, 0) {
            Some(j) => if self.ir.subgraphs@[j].members@.len() > 0 {
                Some(self.ir.subgraphs@[j].members@[0])
            } else {
                None
            },
            None => None,
        }
    }

    /// The node an edge endpoint naming the subgraph `id` attaches to: the first member of the
    /// first subgraph with that public id (trimmed).
    pub fn subgraph_endpoint_member(&self, id: &str) -> (r: Option<IrNodeId>)
        requires
            self.wf(),
        ensures
            r == self.spec_subgraph_member(trim(id@)),
            r matches Some(k) ==> k.0 < self.ir.nodes@.len(),
    {
        if self.ir.subgraphs.len() == 0 {
            return None;
        }
        let chars = chars_of(id);
        let n = chars.len();
        assert(chars@.subrange(0, n as int) =~= chars@);
        let (a, b) = trim_window(&chars, 0, n);
        let key = string_of_window(&chars, a, b);
        let mut i: usize = 0;
        while i < self.ir.subgraphs.len()
            invariant
                self.wf(),
                i <= self.ir.subgraphs@.len(),
                key@ == trim(id@),
                first_subgraph_with_key(self.ir.subgraphs@, key@, i as int)
                    == first_subgraph_with_key(self.ir.subgraphs@, key@, 0),
            decreases self.ir.subgraphs@.len() - i,
        {
            if self.ir.subgraphs[i].key == key {
                if self.ir.subgraphs[i].members.len() > 0 {
                    let m = self.ir.subgraphs[i].members[0];
                    proof {
                        assert(members_ok(self.ir.subgraphs@[i as int].members@, self.ir.nodes@.len()));
                        assert(self.ir.subgraphs@[i as int].members@[0] == m);
                    }
                    return Some(m);
                }
                return None;
            }
            i = i + 1;
        }
        None
    }

    /// Record, for subgraphs declared later than the edges naming them, which node each public id
    /// resolves to.
    pub fn set_forward_members(&mut self, map: Vec<(String, String)>)
        ensures
            final(self).ir == old(self).ir,
            final(self).warnings@ == old(self).warnings@,
            final(self).cluster_keys@ == old(self).cluster_keys@,
            final(self).subgraph_keys@ == old(self).subgraph_keys@,
            final(self).forward_members@ == map@,
            final(self).wf() == old(self).wf(),
    {
        self.forward_members = map;
    }

    /// The forward target recorded for the public id `key`: the first entry with that key.
    pub open spec fn spec_forward_target(&self, key: Seq<char>) -> Option<Seq<char>> {
        first_forward(self.forward_map(), key, 0)
    }

    fn forward_target(&self, key: &String) -> (r: Option<String>)
        ensures
            r matches Some(t) ==> self.spec_forward_target(key@) == Some(t@),
            r is None ==> self.spec_forward_target(key@) is None,
    {
        let mut i: usize = 0;
        while i < self.forward_members.len()
            invariant
                i <= self.forward_members@.len(),
                first_forward(self.forward_map(), key@, i as int) == first_forward(
                    self.forward_map(),
                    key@,
                    0,
                ),
            decreases self.forward_members@.len() - i,
        {
            if self.forward_members[i].0 == *key {
                return Some(self.forward_members[i].1.clone());
            }
            i = i + 1;
        }
        None
    }

    /// The node an endpoint naming a subgraph resolves to, whichever order they were written
    /// in: the subgraph's first member if it already has one, else the node recorded for it in
    /// the forward map (interned as a plain rectangle).
    pub fn resolve_subgraph_endpoint(&mut self, id: &str, span: Span) -> (r: Option<IrNodeId>)
        requires
            old(self).wf(),
        ensures
            final(self).wf(),
            final(self).same_tables(old(self)),
            final(self).warnings@ == old(self).warnings@ || (final(self).warnings@.len()
                == old(self).warnings@.len() + 1 && final(self).warnings@.drop_last() == old(
                self).warnings@),
            r is Some ==> final(self).warnings@ == old(self).warnings@,
            r matches Some(k) ==> k.0 < final(self).ir.nodes@.len(),
            old(self).spec_subgraph_member(trim(id@)) is Some ==> r == old(self).spec_subgraph_member(trim(id@)) && final(self).ir == old(self).ir
                && final(self).warnings@ == old(self).warnings@,
            old(self).spec_subgraph_member(trim(id@)) is None ==> match old(self).spec_forward_target(trim(id@)) {
                None => r is None && final(self).ir == old(self).ir && final(self).warnings@
                    == old(self).warnings@,
                Some(t) => (r is None) == (trim(t).len() == 0) && (r matches Some(k)
                    ==> intern_post(
                    old(self).ir,
                    final(self).ir,
                    trim(t),
                    None,
                    NodeShape::Rect,
                    span,
                    k,
                )) && (r is None ==> final(self).ir == old(self).ir),
            },
    {
        if let Some(m) = self.subgraph_endpoint_member(id) {
            return Some(m);
        }
        let chars = chars_of(id);
        let n = chars.len();
        assert(chars@.subrange(0, n as int) =~= chars@);
        let (a, b) = trim_window(&chars, 0, n);
        let key = string_of_window(&chars, a, b);
        match self.forward_target(&key) {
            Some(t) => self.intern_node(t.as_str(), None, NodeShape::Rect, span),
            None => None,
        }
    }

    pub fn set_title(&mut self, title: String)
        ensures
            final(self).ir.diagram_type == old(self).ir.diagram_type,
            final(self).ir.direction == old(self).ir.direction,
            final(self).ir.title == Some(title),
            final(self).ir.nodes@ == old(self).ir.nodes@,
            final(self).ir.edges@ == old(self).ir.edges@,
            final(self).ir.labels@ == old(self).ir.labels@,
            final(self).ir.clusters@ == old(self).ir.clusters@,
            final(self).ir.subgraphs@ == old(self).ir.subgraphs@,
            final(self).warnings@ == old(self).warnings@,
            final(self).same_tables(old(self)),
            final(self).wf() == old(self).wf(),
    {
        self.ir.title = Some(title);
    }

    pub fn set_direction(&mut self, direction: GraphDirection)
        ensures
            final(self).ir == (MermaidDiagramIr { direction, ..old(self).ir }),
            final(self).warnings@ == old(self).warnings@,
            final(self).same_tables(old(self)),
            final(self).wf() == old(self).wf(),
    {
        self.ir.direction = direction;
        assert(self.ir.nodes@ == old(self).ir.nodes@);
        assert(self.ir.edges@ == old(self).ir.edges@);
        assert(self.ir.labels@ == old(self).ir.labels@);
        assert(self.ir.clusters@ == old(self).ir.clusters@);
        assert(self.ir.subgraphs@ == old(self).ir.subgraphs@);
    }

    /// Set cluster `ci`'s title to the cleaned `title`, if that is non-empty and the cluster
    /// exists.
    pub fn set_cluster_title(&mut self, ci: usize, title: &str, span: Span)
        requires
            old(self).wf(),
        ensures
            final(self).wf(),
            final(self).same_tables(old(self)),
            final(self).warnings@ == old(self).warnings@,
            same_meta(old(self).ir, final(self).ir),
            final(self).ir.nodes@ == old(self).ir.nodes@,
            final(self).ir.edges@ == old(self).ir.edges@,
            final(self).ir.subgraphs@ == old(self).ir.subgraphs@,
            labels_extend(old(self).ir, final(self).ir),
            final(self).ir.clusters@.len() == old(self).ir.clusters@.len(),
            forall|j: int|
                0 <= j < old(self).ir.clusters@.len() && j != ci ==> #[trigger] final(self).ir.clusters@[j]
                    == old(self).ir.clusters@[j],
            ci < old(self).ir.clusters@.len() ==> {
                let o = old(self).ir.clusters@[ci as int];
                let c = final(self).ir.clusters@[ci as int];
                &&& c.members@ == o.members@
                &&& c.subgraph == o.subgraph
                &&& match spec_clean_label(title@) {
                    Some(t) => label_has_text(final(self).ir, c.title, t),
                    None => c.title == o.title,
                }
            },
    {
        if ci >= self.ir.clusters.len() {
            return;
        }
        if let Some(c) = clean_label(title) {
            let l = self.intern_label(c, span);
            let ghost mid = self.ir;
            self.ir.clusters[ci].title = Some(l);
            proof {
                let ir = self.ir;
                assert forall|j: int| 0 <= j < ir.clusters@.len() implies label_ok(
                    (#[trigger] ir.clusters@[j]).title,
                    ir.labels@.len(),
                ) && members_ok(ir.clusters@[j].members@, ir.nodes@.len()) && index_ok(
                    ir.clusters@[j].subgraph,
                    ir.subgraphs@.len(),
                ) by {
                    if j != ci {
                        assert(ir.clusters@[j] == mid.clusters@[j]);
                    }
                }
            }
        }
    }

    /// Set subgraph `si`'s title to the cleaned `title`, if that is non-empty and the subgraph
    /// exists.
    pub fn set_subgraph_title(&mut self, si: usize, title: &str, span: Span)
        requires
            old(self).wf(),
        ensures
            final(self).wf(),
            final(self).same_tables(old(self)),
            final(self).warnings@ == old(self).warnings@,
            same_meta(old(self).ir, final(self).ir),
            final(self).ir.nodes@ == old(self).ir.nodes@,
            final(self).ir.edges@ == old(self).ir.edges@,
            final(self).ir.clusters@ == old(self).ir.clusters@,
            labels_extend(old(self).ir, final(self).ir),
            final(self).ir.subgraphs@.len() == old(self).ir.subgraphs@.len(),
            forall|j: int|
                0 <= j < old(self).ir.subgraphs@.len() && j != si ==> #[trigger] final(self).ir.subgraphs@[j]
                    == old(self).ir.subgraphs@[j],
            si < old(self).ir.subgraphs@.len() ==> {
                let o = old(self).ir.subgraphs@[si as int];
                let c = final(self).ir.subgraphs@[si as int];
                &&& c.members@ == o.members@
                &&& c.key == o.key
                &&& match spec_clean_label(title@) {
                    Some(t) => label_has_text(final(self).ir, c.title, t),
                    None => c.title == o.title,
                }
            },
    {
        if si >= self.ir.subgraphs.len() {
            return;
        }
        if let Some(c) = clean_label(title) {
            let l = self.intern_label(c, span);
            let ghost mid = self.ir;
            self.ir.subgraphs[si].title = Some(l);
            proof {
                let ir = self.ir;
                assert forall|j: int| 0 <= j < ir.subgraphs@.len() implies label_ok(
                    (#[trigger] ir.subgraphs@[j]).title,
                    ir.labels@.len(),
                ) && members_ok(ir.subgraphs@[j].members@, ir.nodes@.len()) && index_ok(
                    ir.subgraphs@[j].parent,
                    ir.subgraphs@.len(),
                ) && index_ok(ir.subgraphs@[j].cluster, ir.clusters@.len()) by {
                    if j != si {
                        assert(ir.subgraphs@[j] == mid.subgraphs@[j]);
                    }
                }
            }
        }
    }

    /// Set the theme variable `key` to `value`, replacing an earlier value for the same key.
    pub fn insert_theme_variable(&mut self, key: String, value: String)
        ensures
            final(self).ir == (MermaidDiagramIr { theme_variables: final(self).ir.theme_variables, ..old(self).ir }),
            final(self).ir.diagram_type == old(self).ir.diagram_type,
            final(self).ir.direction == old(self).ir.direction,
            final(self).wf() == old(self).wf(),
            final(self).same_tables(old(self)),
            final(self).warnings@ == old(self).warnings@,
            final(self).ir.nodes@ == old(self).ir.nodes@,
            final(self).ir.edges@ == old(self).ir.edges@,
            final(self).ir.labels@ == old(self).ir.labels@,
            final(self).ir.clusters@ == old(self).ir.clusters@,
            final(self).ir.subgraphs@ == old(self).ir.subgraphs@,
            match first_var(old(self).ir.theme_variables@, key@, 0) {
                Some(j) => final(self).ir.theme_variables@ == old(self).ir.theme_variables@.update(
                    j,
                    (old(self).ir.theme_variables@[j].0, value),
                ),
                None => final(self).ir.theme_variables@ == old(self).ir.theme_variables@.push(
                    (key, value),
                ),
            },
    {
        if let Some(i) = find_var(&self.ir.theme_variables, &key) {
            let ghost before = self.ir;
            self.ir.theme_variables[i].1 = value;
            proof {
                assert(self.ir.theme_variables@ =~= before.theme_variables@.update(
                    i as int,
                    (before.theme_variables@[i as int].0, value),
                ));
                assert(self.ir.nodes@ == old(self).ir.nodes@);
                assert(self.ir.labels@ == old(self).ir.labels@);
                assert(self.ir.edges@ == old(self).ir.edges@);
                assert(self.ir.clusters@ == old(self).ir.clusters@);
                assert(self.ir.subgraphs@ == old(self).ir.subgraphs@);
            }
            return;
        }
        self.ir.theme_variables.push((key, value));
        proof {
            assert(self.ir.nodes@ == old(self).ir.nodes@);
            assert(self.ir.labels@ == old(self).ir.labels@);
            assert(self.ir.edges@ == old(self).ir.edges@);
            assert(self.ir.clusters@ == old(self).ir.clusters@);
            assert(self.ir.subgraphs@ == old(self).ir.subgraphs@);
        }
    }

    /// Record a layout constraint unless an equal one is already recorded.
    pub fn add_constraint(&mut self, c: IrConstraint)
        ensures
            final(self).ir.diagram_type == old(self).ir.diagram_type,
            final(self).ir.direction == old(self).ir.direction,
            final(self).wf() == old(self).wf(),
            final(self).same_tables(old(self)),
            final(self).warnings@ == old(self).warnings@,
            final(self).ir.nodes@ == old(self).ir.nodes@,
            final(self).ir.edges@ == old(self).ir.edges@,
            final(self).ir.labels@ == old(self).ir.labels@,
            final(self).ir.clusters@ == old(self).ir.clusters@,
            final(self).ir.subgraphs@ == old(self).ir.subgraphs@,
            final(self).ir.constraints@.map_values(|x: IrConstraint| x.view_parts()) == if old(self).ir.constraints@.map_values(|x: IrConstraint| x.view_parts()).contains(
                c.view_parts(),
            ) {
                old(self).ir.constraints@.map_values(|x: IrConstraint| x.view_parts())
            } else {
                old(self).ir.constraints@.map_values(|x: IrConstraint| x.view_parts()).push(
                    c.view_parts(),
                )
            },
    {
        let ghost vs = self.ir.constraints@.map_values(|x: IrConstraint| x.view_parts());
        let mut i: usize = 0;
        while i < self.ir.constraints.len()
            invariant
                i <= self.ir.constraints@.len(),
                vs == self.ir.constraints@.map_values(|x: IrConstraint| x.view_parts()),
                forall|j: int| 0 <= j < i ==> vs[j] != c.view_parts(),
            decreases self.ir.constraints@.len() - i,
        {
            if constraint_eq(&self.ir.constraints[i], &c) {
                assert(vs[i as int] == c.view_parts());
                return;
            }
            i = i + 1;
        }
        self.ir.constraints.push(c);
        proof {
            assert(!vs.contains(c.view_parts()));
            assert(self.ir.constraints@.map_values(|x: IrConstraint| x.view_parts()) =~= vs.push(
                c.view_parts(),
            ));
            let cs0 = old(self).ir.constraints@;
            let cs1 = self.ir.constraints@;
            let d0 = forall|a: int, d: int|
                0 <= a < d < cs0.len() ==> (#[trigger] cs0[a]).view_parts() != (#[trigger] cs0[d]).view_parts();
            let d1 = forall|a: int, d: int|
                0 <= a < d < cs1.len() ==> (#[trigger] cs1[a]).view_parts() != (#[trigger] cs1[d]).view_parts();
            if d0 {
                assert forall|a: int, d: int| 0 <= a < d < cs1.len() implies (#[trigger] cs1[a]).view_parts() != (
                #[trigger] cs1[d]).view_parts() by {
                    assert(cs1[a] == cs0[a]);
                    if d == cs0.len() {
                        assert(vs[a] == cs0[a].view_parts());
                    } else {
                        assert(cs1[d] == cs0[d]);
                    }
                }
            }
            if d1 {
                assert forall|a: int, d: int| 0 <= a < d < cs0.len() implies (#[trigger] cs0[a]).view_parts() != (
                #[trigger] cs0[d]).view_parts() by {
                    assert(cs1[a] == cs0[a]);
                    assert(cs1[d] == cs0[d]);
                }
            }
            assert(d0 == d1);
            assert(self.ir.nodes@ == old(self).ir.nodes@);
            assert(self.ir.labels@ == old(self).ir.labels@);
            assert(self.ir.edges@ == old(self).ir.edges@);
            assert(self.ir.clusters@ == old(self).ir.clusters@);
            assert(self.ir.subgraphs@ == old(self).ir.subgraphs@);
        }
    }

    /// Attach the CSS `style` to a node or an edge.
    pub fn push_style_ref(&mut self, target: IrStyleTarget, style: String, span: Span)
        ensures
            final(self).ir.diagram_type == old(self).ir.diagram_type,
            final(self).ir.direction == old(self).ir.direction,
            final(self).wf() == old(self).wf(),
            final(self).same_tables(old(self)),
            final(self).warnings@ == old(self).warnings@,
            final(self).ir.nodes@ == old(self).ir.nodes@,
            final(self).ir.edges@ == old(self).ir.edges@,
            final(self).ir.labels@ == old(self).ir.labels@,
            final(self).ir.clusters@ == old(self).ir.clusters@,
            final(self).ir.subgraphs@ == old(self).ir.subgraphs@,
            final(self).ir.style_refs@ == old(self).ir.style_refs@.push(
                IrStyleRef { target, style, span },
            ),
            final(self).ir.constraints@ == old(self).ir.constraints@,
    {
        self.ir.style_refs.push(IrStyleRef { target, style, span });
        proof {
            assert(self.ir.nodes@ == old(self).ir.nodes@);
            assert(self.ir.labels@ == old(self).ir.labels@);
            assert(self.ir.edges@ == old(self).ir.edges@);
            assert(self.ir.clusters@ == old(self).ir.clusters@);
            assert(self.ir.subgraphs@ == old(self).ir.subgraphs@);
        }
    }

    /// Record the theme an init directive chose.
    pub fn set_init_theme(&mut self, theme: String)
        ensures
            final(self).ir == (MermaidDiagramIr { init_theme: Some(theme), ..old(self).ir }),
            final(self).wf() == old(self).wf(),
            final(self).same_tables(old(self)),
            final(self).warnings@ == old(self).warnings@,
    {
        self.ir.init_theme = Some(theme);
        proof {
            assert(self.ir.nodes@ == old(self).ir.nodes@);
            assert(self.ir.labels@ == old(self).ir.labels@);
            assert(self.ir.edges@ == old(self).ir.edges@);
            assert(self.ir.clusters@ == old(self).ir.clusters@);
            assert(self.ir.subgraphs@ == old(self).ir.subgraphs@);
        }
    }

    /// Record the flowchart direction an init directive chose.
    pub fn set_init_flowchart_direction(&mut self, direction: GraphDirection)
        ensures
            final(self).ir == (MermaidDiagramIr { init_flowchart_direction: Some(direction), ..old(self).ir }),
            final(self).wf() == old(self).wf(),
            final(self).same_tables(old(self)),
            final(self).warnings@ == old(self).warnings@,
    {
        self.ir.init_flowchart_direction = Some(direction);
        proof {
            assert(self.ir.nodes@ == old(self).ir.nodes@);
            assert(self.ir.labels@ == old(self).ir.labels@);
            assert(self.ir.edges@ == old(self).ir.edges@);
            assert(self.ir.clusters@ == old(self).ir.clusters@);
            assert(self.ir.subgraphs@ == old(self).ir.subgraphs@);
        }
    }

    /// Record a problem with an init directive, both among the warnings and among the init issues.
    pub fn add_init_issue(&mut self, message: String, span: Span, is_error: bool)
        ensures
            final(self).ir.init_issues@ == old(self).ir.init_issues@.push(IrInitIssue { message, span, is_error }),
            final(self).warnings@ == old(self).warnings@.push(message),
            final(self).wf() == old(self).wf(),
            final(self).same_tables(old(self)),
            final(self).ir.diagram_type == old(self).ir.diagram_type,
            final(self).ir.direction == old(self).ir.direction,
            final(self).ir.nodes@ == old(self).ir.nodes@,
            final(self).ir.edges@ == old(self).ir.edges@,
            final(self).ir.labels@ == old(self).ir.labels@,
            final(self).ir.clusters@ == old(self).ir.clusters@,
            final(self).ir.subgraphs@ == old(self).ir.subgraphs@,
            final(self).ir.init_theme == old(self).ir.init_theme,
            final(self).ir.init_flowchart_direction == old(self).ir.init_flowchart_direction,
            final(self).ir.theme_variables@ == old(self).ir.theme_variables@,
    {
        self.warnings.push(message.clone());
        self.ir.init_issues.push(IrInitIssue { message, span, is_error });
        proof {
            assert(self.ir.nodes@ == old(self).ir.nodes@);
            assert(self.ir.labels@ == old(self).ir.labels@);
            assert(self.ir.edges@ == old(self).ir.edges@);
            assert(self.ir.clusters@ == old(self).ir.clusters@);
            assert(self.ir.subgraphs@ == old(self).ir.subgraphs@);
        }
    }

    /// Record the source's edge-routing request.
    pub fn set_edge_routing(&mut self, hint: EdgeRoutingHint)
        ensures
            final(self).ir == (MermaidDiagramIr { edge_routing: Some(hint), ..old(self).ir }),
            final(self).wf() == old(self).wf(),
            final(self).same_tables(old(self)),
            final(self).warnings@ == old(self).warnings@,
    {
        self.ir.edge_routing = Some(hint);
        proof {
            assert(self.ir.nodes@ == old(self).ir.nodes@);
            assert(self.ir.labels@ == old(self).ir.labels@);
            assert(self.ir.edges@ == old(self).ir.edges@);
            assert(self.ir.clusters@ == old(self).ir.clusters@);
            assert(self.ir.subgraphs@ == old(self).ir.subgraphs@);
        }
    }

    /// Record the source's rank gap request (`rank`) or in-rank gap request, as written.
    pub fn set_spacing_request(&mut self, rank: bool, value: String, line: usize)
        ensures
            final(self).ir.diagram_type == old(self).ir.diagram_type,
            final(self).ir.direction == old(self).ir.direction,
            final(self).wf() == old(self).wf(),
            final(self).same_tables(old(self)),
            final(self).warnings@ == old(self).warnings@,
            final(self).ir.nodes@ == old(self).ir.nodes@,
            final(self).ir.edges@ == old(self).ir.edges@,
            final(self).ir.labels@ == old(self).ir.labels@,
            final(self).ir.clusters@ == old(self).ir.clusters@,
            final(self).ir.subgraphs@ == old(self).ir.subgraphs@,
            rank ==> final(self).ir.rank_spacing_request == Some(SpacingRequest { value, line })
                && final(self).ir.node_spacing_request == old(self).ir.node_spacing_request,
            !rank ==> final(self).ir.node_spacing_request == Some(SpacingRequest { value, line })
                && final(self).ir.rank_spacing_request == old(self).ir.rank_spacing_request,
    {
        if rank {
            self.ir.rank_spacing_request = Some(SpacingRequest { value, line });
        } else {
            self.ir.node_spacing_request = Some(SpacingRequest { value, line });
        }
        proof {
            assert(self.ir.nodes@ == old(self).ir.nodes@);
            assert(self.ir.labels@ == old(self).ir.labels@);
            assert(self.ir.edges@ == old(self).ir.edges@);
            assert(self.ir.clusters@ == old(self).ir.clusters@);
            assert(self.ir.subgraphs@ == old(self).ir.subgraphs@);
        }
    }

    /// The finished parse.
    pub fn finish(self, confidence_hundredths: u32, detection_method: DetectionMethod) -> (r:
        ParseResult)
        ensures
            r.ir == self.ir,
            r.warnings@ == self.warnings@,
            r.confidence_hundredths == confidence_hundredths,
            r.detection_method == detection_method,
            r.format_complement.records_nothing(),
    {
        ParseResult {
            ir: self.ir,
            warnings: self.warnings,
            confidence_hundredths,
            detection_method,
            format_complement: MermaidFormatComplement::default(),
        }
    }
}

fn find_var(vars: &Vec<(String, String)>, key: &String) -> (r: Option<usize>)
    ensures
        r matches Some(i) ==> first_var(vars@, key@, 0) == Some(i as int) && i < vars@.len(),
        r is None ==> first_var(vars@, key@, 0) is None,
{
    let mut i: usize = 0;
    while i < vars.len()
        invariant
            i <= vars@.len(),
            first_var(vars@, key@, i as int) == first_var(vars@, key@, 0),
        decreases vars@.len() - i,
    {
        if vars[i].0 == *key {
            return Some(i);
        }
        i = i + 1;
    }
    None
}

/// The index of the first entry `>= i` of `vars` whose key is `key`.
pub open spec fn first_var(vars: Seq<(String, String)>, key: Seq<char>, i: int) -> Option<int>
    decreases vars.len() - i,
{
    if i < 0 || i >= vars.len() {
        None
    } else if vars[i].0@ == key {
        Some(i)
    } else {
        first_var(vars, key, i + 1)
    }
}

/// What a constraint says, for comparing two of them.
pub enum ConstraintView {
    SameRank(Seq<Seq<char>>, Span),
    MinLength(Seq<char>, Seq<char>, usize, Span),
}

impl IrConstraint {
    pub open spec fn view_parts(&self) -> ConstraintView {
        match self {
            IrConstraint::SameRank { node_ids, span } => ConstraintView::SameRank(
                node_ids@.map_values(|s: String| s@),
                *span,
            ),
            IrConstraint::MinLength { from_id, to_id, min_len, span } => ConstraintView::MinLength(
                from_id@,
                to_id@,
                *min_len,
                *span,
            ),
        }
    }
}

fn strings_eq(a: &Vec<String>, b: &Vec<String>) -> (r: bool)
    ensures
        r == (a@.map_values(|s: String| s@) == b@.map_values(|s: String| s@)),
{
    if a.len() != b.len() {
        assert(a@.map_values(|s: String| s@).len() != b@.map_values(|s: String| s@).len());
        return false;
    }
    let mut i: usize = 0;
    while i < a.len()
        invariant
            i <= a@.len() == b@.len(),
            forall|j: int| 0 <= j < i ==> a@[j]@ == b@[j]@,
        decreases a@.len() - i,
    {
        if a[i] != b[i] {
            assert(a@.map_values(|s: String| s@)[i as int] != b@.map_values(|s: String| s@)[i as int]);
            return false;
        }
        i = i + 1;
    }
    assert(a@.map_values(|s: String| s@) =~= b@.map_values(|s: String| s@));
    true
}

fn constraint_eq(a: &IrConstraint, b: &IrConstraint) -> (r: bool)
    ensures
        r == (a.view_parts() == b.view_parts()),
{
    match (a, b) {
        (
            IrConstraint::SameRank { node_ids: x, span: sx },
            IrConstraint::SameRank { node_ids: y, span: sy },
        ) => strings_eq(x, y) && *sx == *sy,
        (
            IrConstraint::MinLength { from_id: f1, to_id: t1, min_len: m1, span: s1 },
            IrConstraint::MinLength { from_id: f2, to_id: t2, min_len: m2, span: s2 },
        ) => *f1 == *f2 && *t1 == *t2 && *m1 == *m2 && *s1 == *s2,
        _ => false,
    }
}

/// The first index `>= i` of a subgraph in `sgs` whose public id is `key`.
pub open spec fn first_subgraph_with_key(sgs: Seq<IrSubgraph>, key: Seq<char>, i: int) -> Option<int>
    decreases sgs.len() - i,
{
    if i < 0 || i >= sgs.len() {
        None
    } else if sgs[i].key@ == key {
        Some(i)
    } else {
        first_subgraph_with_key(sgs, key, i + 1)
    }
}

/// The target of the first entry `>= i` of `m` whose key is `key`.
pub open spec fn first_forward(m: Seq<(Seq<char>, Seq<char>)>, key: Seq<char>, i: int) -> Option<
    Seq<char>,
>
    decreases m.len() - i,
{
    if i < 0 || i >= m.len() {
        None
    } else if m[i].0 == key {
        Some(m[i].1)
    } else {
        first_forward(m, key, i + 1)
    }
}

// ---------------------------------------------------------------------------------------------
// Laws.
/// Naming a node a second time finds the node the first naming made: interning the same id into a
/// well-formed diagram twice gives the same node both times, and the second interning adds none.
pub proof fn law_intern_finds_the_same_node(
    ir0: MermaidDiagramIr,
    ir1: MermaidDiagramIr,
    ir2: MermaidDiagramIr,
    key: Seq<char>,
    label1: Option<Seq<char>>,
    label2: Option<Seq<char>>,
    shape1: NodeShape,
    shape2: NodeShape,
    span1: Span,
    span2: Span,
    k1: IrNodeId,
    k2: IrNodeId,
)
    requires
        ir1.wf(),
        intern_post(ir0, ir1, key, label1, shape1, span1, k1),
        intern_post(ir1, ir2, key, label2, shape2, span2, k2),
    ensures
        k2 == k1,
        ir2.nodes@.len() == ir1.nodes@.len(),
{
    assert(ir1.nodes@[k1.0 as int].id@ == key);
    assert(ir1.has_node(key));
    let a = k1.0 as int;
    let b = k2.0 as int;
    if a < b {
        assert(ir1.nodes@[a].id@ != ir1.nodes@[b].id@);
    } else if b < a {
        assert(ir1.nodes@[b].id@ != ir1.nodes@[a].id@);
    }
}

/// A label text is stored once: interning the same text twice gives the same label, and the
/// second interning changes nothing.
pub proof fn law_label_interned_once(
    ir0: MermaidDiagramIr,
    ir1: MermaidDiagramIr,
    ir2: MermaidDiagramIr,
    text: Seq<char>,
    r1: IrLabelId,
    r2: IrLabelId,
)
    requires
        label_post(ir0, ir1, text, r1),
        label_post(ir1, ir2, text, r2),
    ensures
        r2 == r1,
        ir2 == ir1,
{
    assert(ir1.labels@[r1.0 as int].text@ == text);
    assert(ir1.has_label(text));
}

} // verus!
