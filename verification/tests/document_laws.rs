use fm_parser::dot_detect::strip_all_comments;
use fm_parser::{normalize_identifier, parse, parse_dot, ArrowType, IrEndpoint, MermaidDiagramIr};

fn ends(ir: &MermaidDiagramIr) -> Vec<(String, String, bool)> {
    let name = |end: &IrEndpoint| match end {
        IrEndpoint::Node(id) => ir.nodes[id.0].id.clone(),
        _ => String::new(),
    };
    ir.edges
        .iter()
        .map(|e| {
            let points = matches!(e.arrow, ArrowType::Arrow | ArrowType::ThickArrow | ArrowType::DottedArrow);
            (name(&e.from), name(&e.to), points)
        })
        .collect()
}

#[test]
fn dot_edges_join_the_named_nodes_in_statement_order() {
    let r = parse_dot("digraph G { a -> b -> c; d -> a }");
    assert_eq!(
        ends(&r.ir),
        vec![
            ("a".to_owned(), "b".to_owned(), true),
            ("b".to_owned(), "c".to_owned(), true),
            ("d".to_owned(), "a".to_owned(), true),
        ]
    );
}

#[test]
fn an_undirected_dot_graph_gives_lines_unless_an_edge_says_arrow() {
    let r = parse_dot("graph G { a -- b; b -> c [style=dotted] }");
    assert_eq!(
        ends(&r.ir),
        vec![("a".to_owned(), "b".to_owned(), false), ("b".to_owned(), "c".to_owned(), true)]
    );
    assert_eq!(r.ir.edges[1].arrow, ArrowType::DottedArrow);
}

#[test]
fn the_parse_entry_point_keeps_the_dot_edges() {
    let r = parse("digraph G { x -> y }\n%%{init: {\"theme\": \"dark\"}}%%\n");
    assert_eq!(ends(&r.ir), vec![("x".to_owned(), "y".to_owned(), true)]);
}

#[test]
fn comment_stripping_keeps_every_line_break() {
    let text = "a // note\nb /* one\ntwo */ c\n  # hash line\nd\n";
    let chars: Vec<char> = text.chars().collect();
    let out = strip_all_comments(&chars);
    let count = |v: &[char]| v.iter().filter(|c| **c == '\n').count();
    assert_eq!(count(&out), count(&chars));
    let kept: String = out.iter().collect();
    assert_eq!(kept, "a \nb \n c\n  \nd\n");
}

#[test]
fn text_without_comment_markers_is_kept_as_it_is() {
    let text = "digraph G { a -> b [label=\"x <y>\"]; }";
    let chars: Vec<char> = text.chars().collect();
    assert_eq!(strip_all_comments(&chars), chars);
}

#[test]
fn normalized_ids_are_plain_and_alphanumeric_ids_are_never_empty() {
    for raw in ["Hello World", "\"quoted id\"", "a::b", "ünïcödé", "x_", "!!!", "  spaced  ", "A-b.c/d"] {
        let id = normalize_identifier(raw);
        assert!(
            id.chars().all(|c| c.is_ascii_alphanumeric() || matches!(c, '_' | '-' | '.' | '/')),
            "{raw:?} gave {id:?}"
        );
        assert!(!id.ends_with('_'), "{raw:?} gave {id:?}");
        if raw.chars().any(char::is_alphanumeric) {
            assert!(!id.is_empty(), "{raw:?} gave an empty id");
        }
        assert_eq!(normalize_identifier(&id), id);
    }
}

#[test]
fn an_edge_chain_with_minlen_adds_exactly_one_constraint_per_hop() {
    let r = parse_dot("digraph G { a -> b -> c [minlen=2]; }");
    let got: Vec<(String, String, usize)> = r
        .ir
        .constraints
        .iter()
        .map(|c| match c {
            fm_parser::IrConstraint::MinLength { from_id, to_id, min_len, .. } => {
                (from_id.clone(), to_id.clone(), *min_len)
            }
            other => panic!("expected MinLength, got {other:?}"),
        })
        .collect();
    assert_eq!(got, vec![("a".to_owned(), "b".to_owned(), 2), ("b".to_owned(), "c".to_owned(), 2)]);
}

#[test]
fn equal_rank_groups_are_recorded_once() {
    let r = parse_dot("digraph G { { rank=same; a; b; } { rank=same; a; b; } a -> b; }");
    assert_eq!(r.ir.constraints.len(), 1);
}
