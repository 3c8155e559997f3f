use fm_parser::IrEndpoint;

const ARROW: &str = "-->";

fn node_ids(source: &str) -> Vec<String> {
    fm_parser::parse(source)
        .ir
        .nodes
        .iter()
        .map(|n| n.id.clone())
        .collect()
}

fn counts(source: &str) -> (usize, usize, usize) {
    let ir = fm_parser::parse(source).ir;
    (ir.nodes.len(), ir.edges.len(), ir.clusters.len())
}

#[test]
fn an_edge_naming_a_subgraph_creates_no_phantom_node() {
    let source = format!(
        "flowchart LR\n  subgraph s1\n    A\n  end\n  subgraph s2\n    B\n  end\n  s1 {ARROW} s2\n"
    );
    let (nodes, edges, clusters) = counts(&source);
    assert_eq!((nodes, edges, clusters), (2, 1, 2), "{:?}", node_ids(&source));
    let ids = node_ids(&source);
    assert!(!ids.iter().any(|id| id == "s1" || id == "s2"), "{ids:?}");
}

#[test]
fn the_edge_connects_the_named_subgraphs_members() {
    let source = format!(
        "flowchart LR\n  subgraph s1\n    A\n  end\n  subgraph s2\n    B\n  end\n  s1 {ARROW} s2\n"
    );
    let ir = fm_parser::parse(&source).ir;
    let e = ir.edges.first().expect("the edge survived");
    let name = |end: &IrEndpoint| match end {
        IrEndpoint::Node(id) => ir.nodes[id.0].id.clone(),
        other => format!("{other:?}"),
    };
    assert_eq!((name(&e.from).as_str(), name(&e.to).as_str()), ("A", "B"));
}

#[test]
fn the_edge_attaches_to_the_subgraphs_first_member() {
    let source = format!("flowchart LR\n  subgraph s1\n    A\n    B\n  end\n  s1 {ARROW} C\n");
    let ir = fm_parser::parse(&source).ir;
    let e = ir.edges.first().expect("the edge survived");
    let from = match &e.from {
        IrEndpoint::Node(id) => ir.nodes[id.0].id.clone(),
        other => format!("{other:?}"),
    };
    assert_eq!(from, "A");
    assert_eq!(counts(&source), (3, 1, 1));
}

#[test]
fn one_subgraph_endpoint_and_one_node_endpoint() {
    let source = format!("flowchart LR\n  subgraph s1\n    A\n  end\n  s1 {ARROW} B\n");
    assert_eq!(counts(&source), (2, 1, 1));
    assert!(!node_ids(&source).iter().any(|id| id == "s1"));
}

#[test]
fn a_titled_subgraph_resolves_by_its_id() {
    let source = format!("flowchart LR\n  subgraph s1[The One]\n    A\n  end\n  s1 {ARROW} B\n");
    assert_eq!(counts(&source), (2, 1, 1));
    let ids = node_ids(&source);
    assert!(!ids.iter().any(|id| id == "s1"), "{ids:?}");
}

#[test]
fn a_plain_edge_is_unaffected() {
    let source = format!("flowchart LR\n  A {ARROW} B\n");
    assert_eq!(counts(&source), (2, 1, 0));
    assert_eq!(node_ids(&source), vec!["A".to_string(), "B".to_string()]);
}

#[test]
fn a_node_named_like_a_prefix_of_a_subgraph_is_still_a_node() {
    let source = format!("flowchart LR\n  subgraph s1\n    A\n  end\n  s1x {ARROW} B\n");
    let ids = node_ids(&source);
    assert!(ids.iter().any(|id| id == "s1x"), "{ids:?}");
    assert_eq!(counts(&source), (3, 1, 1));
}

#[test]
fn a_forward_reference_resolves_without_a_phantom() {
    let source = format!(
        "flowchart LR\n  s1 {ARROW} s2\n  subgraph s1\n    A\n  end\n  subgraph s2\n    B\n  end\n"
    );
    assert_eq!(counts(&source), (2, 1, 2), "{:?}", node_ids(&source));
    let ids = node_ids(&source);
    assert!(!ids.contains(&"s1".to_string()), "{ids:?}");
    assert!(!ids.contains(&"s2".to_string()), "{ids:?}");
}

#[test]
fn a_forward_reference_through_another_subgraph_resolves_transitively() {
    let source = format!(
        "flowchart LR\n  s1 {ARROW} X\n  subgraph s1\n    s2 {ARROW} Y\n  end\n  subgraph s2\n    Z\n  end\n"
    );
    assert_eq!(counts(&source), (3, 2, 2), "{:?}", node_ids(&source));
    assert!(!node_ids(&source).iter().any(|id| id == "s2"), "{:?}", node_ids(&source));
}

#[test]
fn chains_of_any_depth_resolve_to_the_final_member() {
    let depth3 = format!(
        "flowchart LR\n  s1 {ARROW} X\n  subgraph s1\n    s2 {ARROW} Y\n  end\n  \
         subgraph s2\n    s3 {ARROW} W\n  end\n  subgraph s3\n    Z\n  end\n"
    );
    assert_eq!(counts(&depth3), (4, 3, 3), "{:?}", node_ids(&depth3));

    let depth4 = format!(
        "flowchart LR\n  s1 {ARROW} X\n  subgraph s1\n    s2 {ARROW} Y\n  end\n  \
         subgraph s2\n    s3 {ARROW} W\n  end\n  subgraph s3\n    s4 {ARROW} V\n  end\n  \
         subgraph s4\n    Z\n  end\n"
    );
    assert_eq!(counts(&depth4), (5, 4, 4), "{:?}", node_ids(&depth4));
    let ids = node_ids(&depth4);
    for phantom in ["s1", "s2", "s3", "s4"] {
        assert!(!ids.iter().any(|id| id == phantom), "`{phantom}` was interned as a node: {ids:?}");
    }
}

#[test]
fn a_labelled_endpoint_reusing_the_name_resolves_to_the_subgraph() {
    let source = format!("flowchart LR\n  subgraph s1\n    A\n  end\n  s1[Box] {ARROW} B\n");
    assert_eq!(counts(&source), (2, 1, 1), "the labelled-endpoint phantom is back");
    assert!(!node_ids(&source).iter().any(|id| id == "s1"));
}
