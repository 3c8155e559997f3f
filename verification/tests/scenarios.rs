use fm_parser::{
    detect_type_with_confidence, looks_like_dot, normalize_identifier, parse, parse_dot, DiagramType,
    IrAttributeKey, SpacingRequest,
};

fn fnv1a_hex(text: &str) -> String {
    let mut hash: u64 = 0xcbf2_9ce4_8422_2325;
    for byte in text.bytes() {
        hash ^= u64::from(byte);
        hash = hash.wrapping_mul(0x0000_0100_0000_01b3);
    }
    format!("{hash:x}")
}

#[test]
fn a_non_ascii_identifier_becomes_its_hashed_form() {
    assert_eq!(normalize_identifier("日本語"), format!("id_{}", fnv1a_hex("日本語")));
    assert_eq!(normalize_identifier("  \"日本語\"  "), format!("id_{}", fnv1a_hex("日本語")));
    assert_eq!(normalize_identifier("!!!"), "");
}

#[test]
fn unicode_whitespace_is_trimmed_from_statements() {
    let result = parse("flowchart LR\n\u{3000}A --> B\u{3000}\n");
    let ids: Vec<&str> = result.ir.nodes.iter().map(|n| n.id.as_str()).collect();
    assert_eq!(ids, ["A", "B"]);
}

#[test]
fn a_keyword_glued_to_a_letter_is_not_a_dot_header() {
    assert!(looks_like_dot("digraph { a -> b; }"));
    assert!(!looks_like_dot("digraphé { a -> b; }"));
}

#[test]
fn content_heuristics_read_the_text_case_insensitively() {
    let detected = detect_type_with_confidence("CUSTOMER ||--O{ ORDER : places");
    assert_eq!(detected.diagram_type, DiagramType::Er);
}

#[test]
fn dot_spacing_requests_keep_their_text_and_line() {
    let parsed = parse_dot("digraph G {\n  nodesep=0.5;\n  ranksep=\"0.75 equally\";\n  a -> b;\n}");
    assert_eq!(parsed.ir.node_spacing_request, Some(SpacingRequest { value: "0.5".to_string(), line: 2 }));
    assert_eq!(
        parsed.ir.rank_spacing_request.as_ref().map(|r| (r.value.as_str(), r.line)),
        Some(("0.75 equally", 3))
    );
    let ids: Vec<&str> = parsed.ir.nodes.iter().map(|n| n.id.as_str()).collect();
    assert_eq!(ids, ["a", "b"]);
}

#[test]
fn a_dot_document_without_statements_warns() {
    let parsed = parse_dot("digraph G { }");
    assert!(parsed.ir.nodes.is_empty());
    assert_eq!(
        parsed.warnings.last().map(String::as_str),
        Some("DOT input contained no parseable nodes or edges")
    );
}

#[test]
fn detection_warnings_come_first() {
    let detected = detect_type_with_confidence("flwochart LR\nA-->B");
    let parsed = parse("flwochart LR\nA-->B");
    assert!(!detected.warnings.is_empty());
    assert_eq!(&parsed.warnings[..detected.warnings.len()], &detected.warnings[..]);
}

#[test]
fn a_family_without_a_parser_of_its_own_is_parsed_as_a_flowchart_with_a_note() {
    let parsed = parse("kanban\n  A --> B\n");
    assert_eq!(parsed.ir.diagram_type, DiagramType::Kanban);
    assert!(parsed
        .warnings
        .iter()
        .any(|w| w == "Diagram type 'kanban' is not fully supported yet; using best-effort flowchart parsing"));
    assert_eq!(parsed.ir.edges.len(), 1);
}

#[test]
fn a_document_with_nothing_in_it_says_so() {
    let parsed = parse("flowchart LR\n%% only a comment\n");
    assert!(parsed.ir.nodes.is_empty());
    assert_eq!(parsed.warnings.last().map(String::as_str), Some("No parseable nodes or edges were found"));
}

#[test]
fn class_assignment_and_links_are_recorded_once() {
    let parsed = parse("flowchart LR\nA-->B\nclass A hot\nclass A hot,cold\nclick B \"https://example.com\"");
    let a = parsed.ir.nodes.iter().find(|n| n.id == "A").unwrap();
    assert_eq!(a.classes, vec!["hot".to_string(), "cold".to_string()]);
    let b = parsed.ir.nodes.iter().find(|n| n.id == "B").unwrap();
    assert_eq!(b.classes, vec!["has-link".to_string()]);
}

#[test]
fn er_key_markers_are_read() {
    let parsed = parse("erDiagram\n  T {\n    int a PK\n    int b FK\n    int c UK\n    int d\n  }\n");
    let keys: Vec<IrAttributeKey> = parsed.ir.nodes[0].members.iter().map(|m| m.key).collect();
    assert_eq!(keys, [IrAttributeKey::Pk, IrAttributeKey::Fk, IrAttributeKey::Uk, IrAttributeKey::Unmarked]);
}

#[test]
fn an_init_theme_variable_set_twice_keeps_the_later_value() {
    let parsed = parse(
        "%%{init: {\"themeVariables\":{\"primaryColor\":\"#111\"}}}%%\n%%{init: {\"themeVariables\":{\"primaryColor\":\"#222\"}}}%%\nflowchart LR\nA-->B",
    );
    let values: Vec<&str> = parsed
        .ir
        .theme_variables
        .iter()
        .filter(|(k, _)| k == "primaryColor")
        .map(|(_, v)| v.as_str())
        .collect();
    assert_eq!(values, ["#222"]);
}

#[test]
fn a_mindmap_node_no_deeper_than_the_root_starts_a_new_root() {
    let result = fm_parser::parse_mermaid("mindmap\n  root\n    a\n    b\n      c\n  d\n");
    let ids: Vec<&str> = result.ir.nodes.iter().map(|n| n.id.as_str()).collect();
    assert_eq!(ids, ["root", "a", "b", "c", "d"]);
    assert_eq!(result.ir.edges.len(), 3);
}

#[test]
fn a_gitgraph_merge_of_an_unknown_branch_is_reported() {
    let result = fm_parser::parse_mermaid("gitGraph\ncommit\nmerge nowhere\n");
    assert_eq!(result.ir.nodes.len(), 1);
    assert!(result
        .warnings
        .iter()
        .any(|w| w.contains("cannot merge non-existent branch 'nowhere'")));
}

#[test]
fn a_gitgraph_header_sets_the_direction() {
    let result = fm_parser::parse_mermaid("gitGraph BT\ncommit id: \"one\"\ncommit id: \"two\"\n");
    assert_eq!(result.ir.direction, fm_parser::GraphDirection::BT);
    let ids: Vec<&str> = result.ir.nodes.iter().map(|n| n.id.as_str()).collect();
    assert_eq!(ids, ["one", "two"]);
    assert_eq!(result.ir.edges.len(), 1);
}

#[test]
fn a_cherry_pick_without_a_quoted_id_is_reported() {
    let result = fm_parser::parse_mermaid("gitGraph\ncommit id: \"one\"\ncherry-pick id: one\n");
    assert_eq!(result.ir.nodes.len(), 1);
    assert!(result
        .warnings
        .iter()
        .any(|w| w.contains("cherry-pick id must be a quoted string")));
}

#[test]
fn a_subgraph_closes_at_its_own_brace() {
    let r = parse_dot("digraph G { subgraph cluster_0 { a; } b; }");
    assert_eq!(r.ir.clusters.len(), 1);
    let members: Vec<&str> = r.ir.clusters[0].members.iter().map(|m| r.ir.nodes[m.0].id.as_str()).collect();
    assert_eq!(members, ["a"]);
    assert!(r.ir.nodes.iter().any(|n| n.id == "b"));
}

#[test]
fn nested_subgraphs_each_close_at_their_own_brace() {
    let r = parse_dot("digraph G { subgraph cluster_0 { a; subgraph cluster_1 { b; } c; } d; }");
    assert_eq!(r.ir.clusters.len(), 2);
    let outer: Vec<&str> = r.ir.clusters[0].members.iter().map(|m| r.ir.nodes[m.0].id.as_str()).collect();
    let inner: Vec<&str> = r.ir.clusters[1].members.iter().map(|m| r.ir.nodes[m.0].id.as_str()).collect();
    assert_eq!(outer, ["a", "b", "c"]);
    assert_eq!(inner, ["b"]);
}

#[test]
fn an_identifier_is_borrowed_only_when_it_is_its_own_id() {
    assert!(matches!(fm_parser::normalize_identifier_cow("  node_1 "), std::borrow::Cow::Borrowed("node_1")));
    assert!(matches!(fm_parser::normalize_identifier_cow("\"a.b/c-d\""), std::borrow::Cow::Borrowed("a.b/c-d")));
    assert!(matches!(fm_parser::normalize_identifier_cow("trailing_"), std::borrow::Cow::Owned(_)));
    assert!(matches!(fm_parser::normalize_identifier_cow("has space"), std::borrow::Cow::Owned(_)));
}

#[test]
fn every_hop_of_a_dot_chain_is_an_edge() {
    let r = parse_dot("digraph G { a -> b -> c [minlen=2]; }");
    let ends: Vec<(&str, &str)> = r
        .ir
        .edges
        .iter()
        .map(|e| match (&e.from, &e.to) {
            (fm_parser::IrEndpoint::Node(f), fm_parser::IrEndpoint::Node(t)) => {
                (r.ir.nodes[f.0].id.as_str(), r.ir.nodes[t.0].id.as_str())
            }
            _ => panic!("an edge end was not a node"),
        })
        .collect();
    assert_eq!(ends, [("a", "b"), ("b", "c")]);
    assert!(r.ir.edges.iter().all(|e| e.arrow == fm_parser::ArrowType::Arrow));
    assert_eq!(r.ir.constraints.len(), 2);
}
