use fm_parser::{ArrowType, IrEndpoint};

fn edge(source: &str) -> (ArrowType, String, String) {
    let ir = fm_parser::parse(source).ir;
    let e = ir.edges.first().unwrap_or_else(|| panic!("no edge in {source:?}"));
    let name = |end: &IrEndpoint| match end {
        IrEndpoint::Node(id) => ir.nodes[id.0].id.clone(),
        other => format!("{other:?}"),
    };
    (e.arrow, name(&e.from), name(&e.to))
}

fn node_ids(source: &str) -> Vec<String> {
    fm_parser::parse(source).ir.nodes.iter().map(|n| n.id.clone()).collect()
}

#[test]
fn the_association_interns_exactly_its_two_classes() {
    for source in [
        "classDiagram\n  A <-- B\n",
        "classDiagram\n  A -- B\n",
        "classDiagram\n  A <.. B\n",
    ] {
        let ir = fm_parser::parse(source).ir;
        let mut ids: Vec<&str> = ir.nodes.iter().map(|n| n.id.as_str()).collect();
        ids.sort_unstable();
        assert_eq!(ids, vec!["A", "B"], "{source:?} interned a phantom endpoint");
    }
}

#[test]
fn no_spelling_mints_a_phantom_node() {
    for spelling in ["()--", "--()", "()..", "..()", "--", ".."] {
        let source = format!("classDiagram\n  A {spelling} B\n");
        assert_eq!(
            node_ids(&source),
            vec!["A".to_string(), "B".to_string()],
            "`A {spelling} B` did not build exactly the two classes the author declared"
        );
    }
}

#[test]
fn a_trailing_o_in_a_class_name_is_not_an_aggregation_marker() {
    let ir = fm_parser::parse("classDiagram\n  Foo-- Bar\n").ir;
    let ids: Vec<&str> = ir.nodes.iter().map(|node| node.id.as_str()).collect();
    assert!(ids.contains(&"Foo") && ids.contains(&"Bar"), "{ids:?}");
}

#[test]
fn an_association_does_not_render_as_a_plain_link() {
    let (assoc, _, _) = edge("classDiagram\n  A <-- B\n");
    let (plain, _, _) = edge("classDiagram\n  A -- B\n");
    assert_ne!(assoc, plain);
    assert_eq!(assoc, ArrowType::Arrow);
    assert_eq!(plain, ArrowType::Line);
}

#[test]
fn the_association_points_the_way_the_author_wrote_it() {
    let (arrow, from, to) = edge("classDiagram\n  A <-- B\n");
    assert_eq!(arrow, ArrowType::Arrow);
    assert_eq!((from.as_str(), to.as_str()), ("B", "A"));
    let (fwd_arrow, fwd_from, fwd_to) = edge("classDiagram\n  A --> B\n");
    assert_eq!(fwd_arrow, ArrowType::Arrow);
    assert_eq!((fwd_from.as_str(), fwd_to.as_str()), ("A", "B"));
}

#[test]
fn the_socket_sits_on_the_end_the_author_wrote() {
    let (start, from, to) = edge("classDiagram\n  A ()-- B\n");
    assert_eq!(start, ArrowType::Lollipop);
    assert_eq!((from.as_str(), to.as_str()), ("A", "B"));
    let (end, rfrom, rto) = edge("classDiagram\n  A --() B\n");
    assert_eq!(end, ArrowType::LollipopReverse);
    assert_eq!((rfrom.as_str(), rto.as_str()), ("A", "B"));
}
