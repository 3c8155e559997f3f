use fm_parser::{
    ArrowType, DiagramType, EdgeRoutingHint, GraphDirection, IrConstraint, IrStyleTarget, NodeShape,
    ParseResult, parse_dot,
};

fn ids(parsed: &ParseResult) -> Vec<&str> {
    parsed.ir.nodes.iter().map(|node| node.id.as_str()).collect()
}

fn background(parsed: &ParseResult) -> Option<&str> {
    parsed
        .ir
        .theme_variables
        .iter()
        .find(|(key, _)| key == "background")
        .map(|(_, value)| value.as_str())
}

fn node_style_css(parsed: &ParseResult, id: &str) -> Option<String> {
    let node_index = parsed.ir.nodes.iter().position(|node| node.id == id)?;
    parsed.ir.style_refs.iter().find_map(|style| match style.target {
        IrStyleTarget::Node(node_id) if node_id.0 == node_index => Some(style.style.clone()),
        _ => None,
    })
}

fn link_styles(parsed: &ParseResult) -> Vec<(usize, String)> {
    parsed
        .ir
        .style_refs
        .iter()
        .filter_map(|style| match style.target {
            IrStyleTarget::Link(index) => Some((index, style.style.clone())),
            _ => None,
        })
        .collect()
}

fn shape_of(parsed: &ParseResult, id: &str) -> NodeShape {
    parsed.ir.nodes.iter().find(|node| node.id == id).map(|node| node.shape).expect(id)
}

#[test]
fn directed_detection_ignores_leading_comments() {
    let parsed = parse_dot("// comment\n digraph{ a -> b; }");
    assert_eq!(parsed.ir.edges[0].arrow, ArrowType::Arrow);
    let parsed = parse_dot("/* comment */ graph{ a -- b; }");
    assert_eq!(parsed.ir.edges[0].arrow, ArrowType::Line);
}

#[test]
fn parses_dot_when_leading_comment_contains_brace() {
    let parsed = parse_dot("// { comment\n digraph G { a -> b; }");
    assert_eq!(parsed.ir.nodes.len(), 2);
    assert_eq!(parsed.ir.edges.len(), 1);
    assert_eq!(parsed.ir.edges[0].arrow, ArrowType::Arrow);
}

#[test]
fn parses_dot_when_block_comment_contains_brace() {
    let parsed = parse_dot("/* { comment */ graph G { a -- b; }");
    assert_eq!(parsed.ir.nodes.len(), 2);
    assert_eq!(parsed.ir.edges.len(), 1);
    assert_eq!(parsed.ir.edges[0].arrow, ArrowType::Line);
}

#[test]
fn parses_dot_when_graph_name_contains_brace_in_quotes() {
    let parsed = parse_dot("digraph \"name {brace}\" { a -> b; }");
    assert_eq!(parsed.ir.nodes.len(), 2);
    assert_eq!(parsed.ir.edges.len(), 1);
    assert_eq!(parsed.ir.edges[0].arrow, ArrowType::Arrow);
}

#[test]
fn parses_dot_when_graph_name_contains_brace_in_html() {
    let parsed = parse_dot("digraph <<b>{name}</b>> { a -> b; }");
    assert_eq!(parsed.ir.nodes.len(), 2);
    assert_eq!(parsed.ir.edges.len(), 1);
    assert_eq!(parsed.ir.edges[0].arrow, ArrowType::Arrow);
}

#[test]
fn parses_directed_dot_edges() {
    let parsed = parse_dot("digraph G { a -> b; b -> c; }");
    assert_eq!(parsed.ir.diagram_type, DiagramType::Flowchart);
    assert_eq!(parsed.ir.nodes.len(), 3);
    assert_eq!(parsed.ir.edges.len(), 2);
    assert_eq!(parsed.ir.edges[0].arrow, ArrowType::Arrow);
    assert!(parsed.warnings.is_empty());
}

#[test]
fn undirected_graph_label_arrows_do_not_force_directed_edges() {
    let parsed = parse_dot("graph G { a -- b [label=\"a->b\"]; }");
    assert_eq!(parsed.ir.edges.len(), 1);
    assert_eq!(parsed.ir.edges[0].arrow, ArrowType::Line);
}

#[test]
fn parses_edge_labels() {
    let parsed = parse_dot("digraph G { a -> b [label=\"connects\"]; }");
    assert_eq!(parsed.ir.edges.len(), 1);
    assert_eq!(parsed.ir.labels.len(), 1);
    assert_eq!(parsed.ir.labels[0].text, "connects");
}

#[test]
fn parses_node_labels_from_attributes() {
    let parsed = parse_dot("graph G { a [label=\"Alpha\"]; a -- b; }");
    assert_eq!(parsed.ir.nodes.len(), 2);
    assert_eq!(parsed.ir.labels.len(), 1);
    assert_eq!(parsed.ir.labels[0].text, "Alpha");
}

#[test]
fn parses_clusters_from_subgraph_blocks() {
    let parsed = parse_dot("digraph G { subgraph cluster_0 { a; b; } a -> b; }");
    assert_eq!(parsed.ir.clusters.len(), 1);
    assert_eq!(parsed.ir.clusters[0].members.len(), 2);
    assert_eq!(parsed.ir.subgraphs.len(), 1);
    assert_eq!(parsed.ir.subgraphs[0].cluster, Some(0));
    assert_eq!(parsed.ir.subgraphs[0].members.len(), 2);
}

#[test]
fn anonymous_brace_group_inside_a_cluster_does_not_close_it_early() {
    let parsed = parse_dot("digraph G { subgraph cluster_0 { a; { b; } c; } a -> c; }");
    assert_eq!(parsed.ir.clusters.len(), 1, "{:?}", parsed.ir.clusters);
    let members: Vec<&str> = parsed.ir.clusters[0]
        .members
        .iter()
        .map(|member| parsed.ir.nodes[member.0].id.as_str())
        .collect();
    assert_eq!(members, ["a", "b", "c"]);
}

#[test]
fn rank_same_group_becomes_a_same_rank_constraint() {
    let parsed = parse_dot("digraph G { { rank=same; b; c; } a -> b; a -> c; }");
    assert_eq!(parsed.ir.constraints.len(), 1, "{:?}", parsed.ir.constraints);
    match &parsed.ir.constraints[0] {
        IrConstraint::SameRank { node_ids, .. } => {
            assert_eq!(node_ids, &["b".to_string(), "c".to_string()]);
        }
        other => panic!("expected SameRank, got {other:?}"),
    }
    let node_ids = ids(&parsed);
    assert!(node_ids.contains(&"b") && node_ids.contains(&"c"), "{node_ids:?}");
}

#[test]
fn rank_same_accepts_spacing_quotes_and_capitalization() {
    for source in [
        "digraph G { { rank=same; b; c; } }",
        "digraph G { { rank = same; b; c; } }",
        "digraph G { { RANK=SAME; b; c; } }",
        "digraph G { { rank=\"same\"; b; c; } }",
    ] {
        let parsed = parse_dot(source);
        assert_eq!(parsed.ir.constraints.len(), 1, "{source} produced {:?}", parsed.ir.constraints);
    }
}

#[test]
fn rank_same_with_one_member_constrains_nothing() {
    let parsed = parse_dot("digraph G { { rank=same; b; } a -> b; }");
    assert!(parsed.ir.constraints.is_empty(), "{:?}", parsed.ir.constraints);
}

#[test]
fn two_rank_same_groups_are_kept_separate() {
    let parsed = parse_dot("digraph G { { rank=same; a; b; } { rank=same; c; d; } a -> c; b -> d; }");
    assert_eq!(parsed.ir.constraints.len(), 2, "{:?}", parsed.ir.constraints);
}

#[test]
fn repeating_the_same_rank_group_does_not_duplicate_the_constraint() {
    let parsed = parse_dot("digraph G { { rank=same; a; b; } { rank=same; a; b; } a -> b; }");
    assert_eq!(parsed.ir.constraints.len(), 1, "{:?}", parsed.ir.constraints);
}

#[test]
fn unsupported_rank_values_warn_instead_of_constraining() {
    for value in ["min", "max", "source", "sink"] {
        let parsed = parse_dot(&format!("digraph G {{ {{ rank={value}; a; b; }} a -> b; }}"));
        assert!(parsed.ir.constraints.is_empty(), "rank={value}: {:?}", parsed.ir.constraints);
        assert!(
            parsed
                .warnings
                .iter()
                .any(|warning| warning.contains(value) && warning.contains("not supported")),
            "rank={value} must warn: {:?}",
            parsed.warnings
        );
    }
}

#[test]
fn rank_same_inside_a_cluster_keeps_both_the_cluster_and_the_constraint() {
    let parsed = parse_dot("digraph G { subgraph cluster_0 { a; { rank=same; b; c; } d; } a -> d; }");
    assert_eq!(parsed.ir.constraints.len(), 1, "{:?}", parsed.ir.constraints);
    let members: Vec<&str> = parsed.ir.clusters[0]
        .members
        .iter()
        .map(|member| parsed.ir.nodes[member.0].id.as_str())
        .collect();
    assert_eq!(members, ["a", "b", "c", "d"]);
}

#[test]
fn rank_same_outside_any_group_warns_rather_than_silently_doing_nothing() {
    let parsed = parse_dot("digraph G { rank=same; a -> b; }");
    assert!(parsed.ir.constraints.is_empty());
    assert!(parsed.warnings.iter().any(|warning| warning.contains("rank=same")), "{:?}", parsed.warnings);
}

#[test]
fn splines_maps_to_an_edge_routing_hint() {
    for (value, expected) in [
        ("ortho", EdgeRoutingHint::Orthogonal),
        ("polyline", EdgeRoutingHint::Orthogonal),
        ("line", EdgeRoutingHint::Orthogonal),
        ("false", EdgeRoutingHint::Orthogonal),
        ("curved", EdgeRoutingHint::Curved),
        ("spline", EdgeRoutingHint::Curved),
        ("true", EdgeRoutingHint::Curved),
    ] {
        let parsed = parse_dot(&format!("digraph G {{ splines={value}; a -> b; }}"));
        assert_eq!(parsed.ir.edge_routing, Some(expected), "splines={value}");
    }
}

#[test]
fn absent_splines_leaves_the_routing_hint_unset() {
    let parsed = parse_dot("digraph G { a -> b; }");
    assert_eq!(parsed.ir.edge_routing, None);
}

#[test]
fn unrecognized_splines_warns_and_sets_no_hint() {
    let parsed = parse_dot("digraph G { splines=zigzag; a -> b; }");
    assert_eq!(parsed.ir.edge_routing, None);
    assert!(parsed.warnings.iter().any(|warning| warning.contains("splines=zigzag")), "{:?}", parsed.warnings);
}

#[test]
fn absent_spacing_leaves_the_hints_unset() {
    let parsed = parse_dot("digraph G { a -> b; }");
    assert_eq!(parsed.ir.node_spacing_request, None);
    assert_eq!(parsed.ir.rank_spacing_request, None);
}

#[test]
fn spacing_statements_do_not_become_nodes() {
    let parsed = parse_dot("digraph G { nodesep=0.5; ranksep=1.0; a -> b; }");
    assert_eq!(ids(&parsed), ["a", "b"]);
}

#[test]
fn bgcolor_sets_the_theme_background() {
    for source in [
        "digraph G { bgcolor=lightyellow; a -> b; }",
        "digraph G { bgcolor=\"lightyellow\"; a -> b; }",
        "digraph G { graph [bgcolor=lightyellow]; a -> b; }",
    ] {
        let parsed = parse_dot(source);
        assert_eq!(background(&parsed), Some("lightyellow"), "{source}");
        assert_eq!(ids(&parsed), ["a", "b"], "{source}");
    }
}

#[test]
fn no_bgcolor_leaves_the_theme_untouched() {
    let parsed = parse_dot("digraph G { a -> b; }");
    assert!(parsed.ir.theme_variables.is_empty(), "{:?}", parsed.ir.theme_variables);
}

#[test]
fn bgcolor_inside_a_cluster_is_refused_rather_than_recolouring_the_canvas() {
    let parsed = parse_dot("digraph G { subgraph cluster_0 { bgcolor=red; a; } }");
    assert_eq!(background(&parsed), None);
    assert!(parsed.warnings.iter().any(|warning| warning.contains("bgcolor")), "{:?}", parsed.warnings);
}

#[test]
fn bare_graph_attributes_are_consumed_not_turned_into_nodes() {
    let parsed = parse_dot(
        "digraph G { bgcolor=white; ratio=fill; size=\"6,6\"; splines=ortho; nodesep=0.5; ranksep=1.2; a -> b; }",
    );
    assert_eq!(ids(&parsed), ["a", "b"]);
    for key in ["ratio", "size"] {
        assert!(parsed.warnings.iter().any(|w| w.contains(key)), "{key}: {:?}", parsed.warnings);
    }
}

#[test]
fn the_graph_attribute_consumer_does_not_swallow_nodes_or_edges() {
    let parsed = parse_dot("digraph G { bgcolor=white; a [shape=box]; b [label=\"B\"]; a -> b [minlen=2]; }");
    assert_eq!(ids(&parsed), ["a", "b"]);
    assert_eq!(parsed.ir.nodes[0].shape, NodeShape::Rect, "shape=box → rect");
    assert_eq!(parsed.ir.edges.len(), 1, "the edge must survive");
    assert_eq!(parsed.ir.constraints.len(), 1, "{:?}", parsed.ir.constraints);
}

#[test]
fn a_quoted_attribute_key_is_still_consumed() {
    let parsed = parse_dot("digraph G { \"bgcolor\"=white; a -> b; }");
    assert_eq!(ids(&parsed), ["a", "b"]);
}

#[test]
fn top_level_label_statement_becomes_the_diagram_title() {
    let parsed = parse_dot("digraph G { label=\"System Overview\"; a -> b; }");
    assert_eq!(parsed.ir.title.as_deref(), Some("System Overview"));
    assert_eq!(ids(&parsed), ["a", "b"]);
}

#[test]
fn a_node_label_attribute_is_not_mistaken_for_a_label_statement() {
    let parsed = parse_dot("digraph G { a [label=\"Alpha\"]; }");
    assert_eq!(parsed.ir.nodes.len(), 1);
    assert_eq!(parsed.ir.nodes[0].id, "a");
    let label = parsed.ir.nodes[0]
        .label
        .and_then(|id| parsed.ir.labels.get(id.0))
        .map(|label| label.text.as_str());
    assert_eq!(label, Some("Alpha"));
    assert_eq!(parsed.ir.title, None, "a node label is not a title");
}

#[test]
fn nested_cluster_labels_attach_to_their_own_cluster() {
    let parsed = parse_dot(
        "digraph G { subgraph cluster_0 { label=\"Outer\"; subgraph cluster_1 { label=\"Inner\"; x; } y; } }",
    );
    let title_of = |index: usize| {
        parsed.ir.clusters[index]
            .title
            .and_then(|id| parsed.ir.labels.get(id.0))
            .map(|label| label.text.as_str())
    };
    assert_eq!(parsed.ir.clusters.len(), 2);
    assert_eq!(title_of(0), Some("Outer"));
    assert_eq!(title_of(1), Some("Inner"));
}

#[test]
fn cluster_label_statement_sets_the_title_and_makes_no_node() {
    let parsed = parse_dot("digraph G { subgraph cluster_0 { label=\"Backend\"; a; b; } }");
    assert_eq!(ids(&parsed), ["a", "b"]);
    assert_eq!(parsed.ir.clusters.len(), 1);
    let title = parsed.ir.clusters[0]
        .title
        .and_then(|label_id| parsed.ir.labels.get(label_id.0))
        .map(|label| label.text.as_str());
    assert_eq!(title, Some("Backend"));
}

#[test]
fn penwidth_and_font_attributes_become_css_on_nodes() {
    let parsed = parse_dot("digraph G { a [penwidth=3, fontsize=18, fontname=Georgia]; }");
    let css = node_style_css(&parsed, "a").expect("style for a");
    assert!(css.contains("stroke-width:3"), "{css}");
    assert!(css.contains("font-size:18pt"), "{css}");
    assert!(css.contains("font-family:Georgia"), "{css}");
}

#[test]
fn fontcolor_is_not_emitted_because_the_renderer_would_drop_it() {
    let parsed = parse_dot("digraph G { a [fontcolor=green]; }");
    assert_eq!(node_style_css(&parsed, "a"), None);
}

#[test]
fn penwidth_and_font_attributes_become_css_on_edges() {
    let parsed = parse_dot("digraph G { a -> b [penwidth=2, fontsize=9, color=red]; }");
    let css = link_styles(&parsed).first().map(|(_, css)| css.clone()).expect("link style");
    assert!(css.contains("stroke:red"), "{css}");
    assert!(css.contains("stroke-width:2"), "{css}");
    assert!(css.contains("font-size:9pt"), "{css}");
}

#[test]
fn an_edge_ignores_style_filled_because_it_has_no_interior() {
    let parsed = parse_dot("digraph G { a -> b [style=filled, color=red]; }");
    let css = link_styles(&parsed).first().map(|(_, css)| css.clone()).expect("link style");
    assert_eq!(css, "stroke:red");
}

#[test]
fn font_and_width_defaults_apply_and_merge_with_per_element_values() {
    let parsed = parse_dot("digraph G { node [fontname=Georgia, penwidth=4]; a; b [penwidth=1]; }");
    let css_a = node_style_css(&parsed, "a").expect("style for a");
    assert!(css_a.contains("font-family:Georgia") && css_a.contains("stroke-width:4"), "{css_a}");
    let css_b = node_style_css(&parsed, "b").expect("style for b");
    assert!(css_b.contains("stroke-width:1"), "{css_b}");
    assert!(css_b.contains("font-family:Georgia"), "{css_b}");
}

#[test]
fn edge_font_defaults_revert_at_the_end_of_a_subgraph() {
    let parsed = parse_dot("digraph G { subgraph cluster_0 { edge [penwidth=5]; a -> b; } c -> d; }");
    let styles = link_styles(&parsed);
    assert_eq!(styles.len(), 1, "only the in-scope edge may be styled: {styles:?}");
    assert_eq!(styles[0].0, 0);
    assert!(styles[0].1.contains("stroke-width:5"));
}

#[test]
fn node_fillcolor_becomes_a_fill_and_color_becomes_a_stroke() {
    let parsed = parse_dot("digraph G { a [fillcolor=red]; b [color=blue]; }");
    assert_eq!(node_style_css(&parsed, "a").as_deref(), Some("fill:red"));
    assert_eq!(node_style_css(&parsed, "b").as_deref(), Some("stroke:blue"));
}

#[test]
fn style_filled_without_fillcolor_makes_color_the_fill() {
    let parsed = parse_dot("digraph G { a [style=filled, color=red]; }");
    assert_eq!(node_style_css(&parsed, "a").as_deref(), Some("fill:red"));
    let parsed = parse_dot("digraph G { a [style=filled, color=blue, fillcolor=red]; }");
    assert_eq!(node_style_css(&parsed, "a").as_deref(), Some("fill:red,stroke:blue"));
}

#[test]
fn a_node_with_no_color_attributes_gets_no_style_entry() {
    let parsed = parse_dot("digraph G { a; b -> c; }");
    assert!(parsed.ir.style_refs.is_empty(), "{:?}", parsed.ir.style_refs);
}

#[test]
fn node_color_defaults_apply_and_merge_attribute_by_attribute() {
    let parsed = parse_dot("digraph G { node [color=blue]; a; b [fillcolor=red]; }");
    assert_eq!(node_style_css(&parsed, "a").as_deref(), Some("stroke:blue"));
    assert_eq!(node_style_css(&parsed, "b").as_deref(), Some("fill:red,stroke:blue"));
}

#[test]
fn node_color_defaults_revert_at_the_end_of_a_subgraph() {
    let parsed = parse_dot("digraph G { subgraph cluster_0 { node [color=blue]; inner; } outer; }");
    assert_eq!(node_style_css(&parsed, "inner").as_deref(), Some("stroke:blue"));
    assert_eq!(node_style_css(&parsed, "outer"), None);
}

#[test]
fn edge_color_becomes_a_link_style_on_the_right_edge() {
    let parsed = parse_dot("digraph G { a -> b; c -> d [color=red]; }");
    assert_eq!(link_styles(&parsed), [(1, "stroke:red".to_string())]);
}

#[test]
fn edge_color_default_applies_and_loses_to_a_per_edge_color() {
    let parsed = parse_dot("digraph G { edge [color=blue]; a -> b; c -> d [color=red]; }");
    let styles: Vec<String> = link_styles(&parsed).into_iter().map(|(_, css)| css).collect();
    assert_eq!(styles, ["stroke:blue", "stroke:red"]);
}

#[test]
fn edge_style_selects_the_line_family() {
    for (style, expected) in [
        ("dashed", ArrowType::DottedArrow),
        ("dotted", ArrowType::DottedArrow),
        ("bold", ArrowType::ThickArrow),
    ] {
        let parsed = parse_dot(&format!("digraph G {{ a -> b [style={style}]; }}"));
        assert_eq!(parsed.ir.edges[0].arrow, expected, "style={style}");
    }
    let parsed = parse_dot("graph G { a -- b [style=dashed]; }");
    assert_eq!(parsed.ir.edges[0].arrow, ArrowType::DottedLine);
    let parsed = parse_dot("graph G { a -- b [style=bold]; }");
    assert_eq!(parsed.ir.edges[0].arrow, ArrowType::ThickLine);
}

#[test]
fn plain_edges_keep_their_arrow_when_no_style_is_given() {
    assert_eq!(parse_dot("digraph G { a -> b; }").ir.edges[0].arrow, ArrowType::Arrow);
    assert_eq!(parse_dot("graph G { a -- b; }").ir.edges[0].arrow, ArrowType::Line);
}

#[test]
fn unsupported_style_tokens_are_skipped_not_treated_as_errors() {
    let parsed = parse_dot("digraph G { a -> b [style=\"invis,bold\"]; }");
    assert_eq!(parsed.ir.edges[0].arrow, ArrowType::ThickArrow);
    let parsed = parse_dot("digraph G { a -> b [style=tapered]; }");
    assert_eq!(parsed.ir.edges[0].arrow, ArrowType::Arrow);
}

#[test]
fn node_shape_default_applies_to_later_nodes_and_edge_endpoints() {
    let parsed = parse_dot("digraph G { node [shape=diamond]; a; b -> c; }");
    for node in &parsed.ir.nodes {
        assert_eq!(node.shape, NodeShape::Diamond, "{}", node.id);
    }
}

#[test]
fn an_explicit_shape_overrides_the_default() {
    let parsed = parse_dot("digraph G { node [shape=diamond]; a [shape=circle]; b; }");
    assert_eq!(shape_of(&parsed, "a"), NodeShape::Circle);
    assert_eq!(shape_of(&parsed, "b"), NodeShape::Diamond);
}

#[test]
fn defaults_declared_before_a_node_do_not_apply_retroactively() {
    let parsed = parse_dot("digraph G { a; node [shape=diamond]; b; }");
    assert_eq!(shape_of(&parsed, "a"), NodeShape::Rect);
    assert_eq!(shape_of(&parsed, "b"), NodeShape::Diamond);
}

#[test]
fn defaults_are_scoped_to_the_subgraph_that_declares_them() {
    let parsed = parse_dot("digraph G { subgraph cluster_0 { node [shape=diamond]; inner; } outer; }");
    assert_eq!(shape_of(&parsed, "inner"), NodeShape::Diamond);
    assert_eq!(shape_of(&parsed, "outer"), NodeShape::Rect);
}

#[test]
fn defaults_inherit_into_nested_subgraphs() {
    let parsed = parse_dot("digraph G { node [shape=diamond]; subgraph cluster_0 { inner; } outer; }");
    for node in &parsed.ir.nodes {
        assert_eq!(node.shape, NodeShape::Diamond, "{}", node.id);
    }
}

#[test]
fn edge_style_default_applies_and_is_overridden_per_edge() {
    let parsed = parse_dot("digraph G { edge [style=dashed]; a -> b; c -> d [style=bold]; e -> f; }");
    let arrows: Vec<ArrowType> = parsed.ir.edges.iter().map(|edge| edge.arrow).collect();
    assert_eq!(arrows, [ArrowType::DottedArrow, ArrowType::ThickArrow, ArrowType::DottedArrow]);
}

#[test]
fn rankdir_sets_the_graph_direction() {
    for (value, expected) in [
        ("TB", GraphDirection::TB),
        ("BT", GraphDirection::BT),
        ("LR", GraphDirection::LR),
        ("RL", GraphDirection::RL),
    ] {
        let parsed = parse_dot(&format!("digraph G {{ rankdir={value}; a -> b; }}"));
        assert_eq!(parsed.ir.direction, expected, "rankdir={value}");
    }
}

#[test]
fn rankdir_default_is_top_to_bottom_when_absent() {
    let parsed = parse_dot("digraph G { a -> b; }");
    assert_eq!(parsed.ir.direction, GraphDirection::TB);
}

#[test]
fn rankdir_accepts_quotes_spacing_and_lowercase() {
    for source in [
        "digraph G { rankdir=lr; a -> b; }",
        "digraph G { rankdir = LR; a -> b; }",
        "digraph G { rankdir=\"LR\"; a -> b; }",
        "digraph G { RANKDIR=LR; a -> b; }",
    ] {
        let parsed = parse_dot(source);
        assert_eq!(parsed.ir.direction, GraphDirection::LR, "{source}");
    }
}

#[test]
fn rankdir_in_a_graph_attribute_list_is_honored_too() {
    let parsed = parse_dot("digraph G { graph [rankdir=LR, bgcolor=white]; a -> b; }");
    assert_eq!(parsed.ir.direction, GraphDirection::LR);
}

#[test]
fn graph_default_attribute_statements_do_not_become_nodes() {
    let parsed = parse_dot("digraph G { graph [bgcolor=white]; node [shape=box]; edge [color=red]; a -> b; }");
    assert_eq!(ids(&parsed), ["a", "b"]);
}

#[test]
fn unrecognized_rankdir_warns_and_leaves_the_default() {
    let parsed = parse_dot("digraph G { rankdir=diagonal; a -> b; }");
    assert_eq!(parsed.ir.direction, GraphDirection::TB);
    assert!(parsed.warnings.iter().any(|warning| warning.contains("rankdir=diagonal")), "{:?}", parsed.warnings);
}

#[test]
fn rankdir_does_not_collide_with_the_rank_group_attribute() {
    let parsed = parse_dot("digraph G { rankdir=LR; { rank=same; a; b; } a -> b; }");
    assert_eq!(parsed.ir.direction, GraphDirection::LR);
    assert_eq!(parsed.ir.constraints.len(), 1, "{:?}", parsed.ir.constraints);
}

#[test]
fn edge_minlen_becomes_a_min_length_constraint() {
    let parsed = parse_dot("digraph G { a -> b [minlen=3]; }");
    assert_eq!(parsed.ir.constraints.len(), 1, "{:?}", parsed.ir.constraints);
    match &parsed.ir.constraints[0] {
        IrConstraint::MinLength { from_id, to_id, min_len, .. } => {
            assert_eq!(from_id, "a");
            assert_eq!(to_id, "b");
            assert_eq!(*min_len, 3);
        }
        other => panic!("expected MinLength, got {other:?}"),
    }
    assert_eq!(parsed.ir.edges.len(), 1);
}

#[test]
fn minlen_one_is_the_dot_default_and_constrains_nothing() {
    let parsed = parse_dot("digraph G { a -> b [minlen=1]; }");
    assert!(parsed.ir.constraints.is_empty(), "{:?}", parsed.ir.constraints);
    assert_eq!(parsed.ir.edges.len(), 1);
}

#[test]
fn minlen_zero_warns_because_min_length_cannot_express_it() {
    let parsed = parse_dot("digraph G { a -> b [minlen=0]; }");
    assert!(parsed.ir.constraints.is_empty(), "{:?}", parsed.ir.constraints);
    assert!(
        parsed.warnings.iter().any(|warning| warning.contains("minlen=0") && warning.contains("rank=same")),
        "{:?}",
        parsed.warnings
    );
}

#[test]
fn non_numeric_minlen_warns_and_is_ignored() {
    let parsed = parse_dot("digraph G { a -> b [minlen=wide]; }");
    assert!(parsed.ir.constraints.is_empty());
    assert!(parsed.warnings.iter().any(|warning| warning.contains("minlen=wide")), "{:?}", parsed.warnings);
}

#[test]
fn minlen_applies_to_every_hop_of_a_chain() {
    let parsed = parse_dot("digraph G { a -> b -> c [minlen=2]; }");
    assert_eq!(parsed.ir.edges.len(), 2);
    assert_eq!(parsed.ir.constraints.len(), 2, "{:?}", parsed.ir.constraints);
}

#[test]
fn minlen_survives_alongside_a_label_and_quoting() {
    for source in [
        "digraph G { a -> b [label=\"x\", minlen=2]; }",
        "digraph G { a -> b [minlen=\"2\"]; }",
        "digraph G { a -> b [MINLEN=2]; }",
    ] {
        let parsed = parse_dot(source);
        assert_eq!(parsed.ir.constraints.len(), 1, "{source} produced {:?}", parsed.ir.constraints);
    }
}

#[test]
fn duplicate_dot_subgraph_keys_merge_into_single_group() {
    let parsed = parse_dot("digraph G { subgraph cluster_0 { a; } subgraph cluster_0 { b; } a -> b; }");
    assert_eq!(parsed.ir.clusters.len(), 1);
    assert_eq!(parsed.ir.subgraphs.len(), 1);
    assert_eq!(parsed.ir.subgraphs[0].key, "cluster_0");
    assert_eq!(parsed.ir.subgraphs[0].members.len(), 2);
    let first_member = parsed.ir.nodes[parsed.ir.subgraphs[0].members[0].0].id.as_str();
    let second_member = parsed.ir.nodes[parsed.ir.subgraphs[0].members[1].0].id.as_str();
    assert_eq!(first_member, "a");
    assert_eq!(second_member, "b");
}

#[test]
fn parses_html_labels() {
    let parsed = parse_dot("digraph G { a [label=<b>Alpha</b>]; }");
    assert_eq!(parsed.ir.labels.len(), 1);
    assert_eq!(parsed.ir.labels[0].text, "Alpha");
}

#[test]
fn quoted_node_ids_with_brackets_do_not_start_attribute_blocks() {
    let parsed = parse_dot("digraph G { \"node[a]\" -> b; }");
    assert!(ids(&parsed).contains(&"node_a"), "{:?}", ids(&parsed));
}

#[test]
fn symbol_only_node_ids_fall_back_to_hashed_ids() {
    let parsed = parse_dot("digraph G { \"***\" -> \"$$$\"; }");
    assert_eq!(parsed.ir.nodes.len(), 2);
    let first = parsed.ir.nodes[0].id.as_str();
    let second = parsed.ir.nodes[1].id.as_str();
    assert!(first.starts_with("id_"));
    assert!(second.starts_with("id_"));
    assert_ne!(first, second);
}

#[test]
fn parses_escaped_labels() {
    let parsed = parse_dot("digraph G { a [label=\"Line\\nBreak\"]; }");
    assert_eq!(parsed.ir.labels.len(), 1);
    assert!(parsed.ir.labels[0].text.contains('\n'));
}

#[test]
fn does_not_strip_comment_markers_inside_quoted_labels() {
    let parsed = parse_dot("digraph G { a [label=\"Bob's // car\"]; }");
    assert_eq!(parsed.ir.nodes.len(), 1);
    assert_eq!(parsed.ir.labels.len(), 1);
    assert_eq!(parsed.ir.labels[0].text, "Bob's // car");
}

#[test]
fn parses_multiple_attribute_blocks() {
    let parsed = parse_dot("digraph G { a [color=red] [label=\"Double\"]; }");
    assert_eq!(parsed.ir.nodes.len(), 1);
    assert_eq!(parsed.ir.labels.len(), 1);
    assert_eq!(parsed.ir.labels[0].text, "Double");
}

#[test]
fn parses_semicolon_in_label() {
    let result = parse_dot(r#"digraph G { A -> B [label="foo; bar"]; }"#);
    let edge = &result.ir.edges[0];
    let label = result.ir.labels[edge.label.unwrap().0].text.clone();
    assert_eq!(label, "foo; bar");
}

#[test]
fn dot_port_syntax_stripped_from_node_ids() {
    let result = parse_dot("digraph G { A:port1 -> B:port2:n; }");
    assert_eq!(result.ir.edges.len(), 1, "should parse edge");
    let node_ids = ids(&result);
    assert!(node_ids.contains(&"A"));
    assert!(node_ids.contains(&"B"));
}

#[test]
fn dot_edge_group_expands_to_multiple_edges() {
    let result = parse_dot("digraph G { A -> {B C D}; }");
    assert_eq!(result.ir.edges.len(), 3, "{:?}", result.warnings);
    let node_ids = ids(&result);
    for id in ["A", "B", "C", "D"] {
        assert!(node_ids.contains(&id));
    }
}

#[test]
fn dot_edge_group_with_quoted_nodes() {
    let result = parse_dot(r#"digraph G { A -> {"node 1" "node 2"}; }"#);
    let node_ids = ids(&result);
    assert_eq!(result.ir.edges.len(), 2, "{node_ids:?}");
    assert!(node_ids.contains(&"A"));
    assert!(node_ids.contains(&"node_1"));
    assert!(node_ids.contains(&"node_2"));
}

#[test]
fn dot_edge_group_with_single_quoted_nodes() {
    let result = parse_dot("digraph G { A -> {'node 1' 'node 2'}; }");
    let node_ids = ids(&result);
    assert_eq!(result.ir.edges.len(), 2, "{node_ids:?}");
    assert!(node_ids.contains(&"node_1"));
    assert!(node_ids.contains(&"node_2"));
}

#[test]
fn dot_compass_points_stripped() {
    let result = parse_dot("digraph G { A:n -> B:s; }");
    assert_eq!(result.ir.edges.len(), 1);
    assert!(result.ir.nodes.iter().any(|n| n.id == "A"));
    assert!(result.ir.nodes.iter().any(|n| n.id == "B"));
}

#[test]
fn single_quoted_identifiers_with_semicolons() {
    let result = parse_dot("digraph G { 'foo;bar' -> B; }");
    assert_eq!(result.ir.nodes.len(), 2, "{:?}", ids(&result));
    assert_eq!(result.ir.edges.len(), 1, "expected 1 edge");
}
