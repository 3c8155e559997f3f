use fm_parser::{
    parse_mermaid, ArrowType, DiagramType, GraphDirection, IrAttributeKey, IrNode, ParseResult,
};

fn node<'a>(parsed: &'a ParseResult, id: &str) -> &'a IrNode {
    parsed.ir.nodes.iter().find(|node| node.id == id).expect("node should exist")
}

fn label_of(parsed: &ParseResult, index: usize) -> Option<&str> {
    parsed.ir.nodes[index]
        .label
        .and_then(|id| parsed.ir.labels.get(id.0))
        .map(|l| l.text.as_str())
}

fn theme_variable<'a>(parsed: &'a ParseResult, key: &str) -> Option<&'a str> {
    parsed.ir.theme_variables.iter().find(|(k, _)| k == key).map(|(_, v)| v.as_str())
}

#[test]
fn flowchart_parses_edges_and_labels() {
    let parsed = parse_mermaid("flowchart LR\nA[Start] -->|go| B(End)");
    assert_eq!(parsed.ir.diagram_type, DiagramType::Flowchart);
    assert_eq!(parsed.ir.direction, GraphDirection::LR);
    assert_eq!(parsed.ir.nodes.len(), 2);
    assert_eq!(parsed.ir.edges.len(), 1);
    assert_eq!(parsed.ir.edges[0].arrow, ArrowType::Arrow);
    assert_eq!(parsed.ir.labels.len(), 3);
}

#[test]
fn flowchart_class_directive_assigns_node_classes() {
    let parsed = parse_mermaid("flowchart LR\nA-->B\nclass A,B critical,highlight");
    let node_a = node(&parsed, "A");
    let node_b = node(&parsed, "B");
    assert!(node_a.classes.iter().any(|c| c == "critical"));
    assert!(node_a.classes.iter().any(|c| c == "highlight"));
    assert!(node_b.classes.iter().any(|c| c == "critical"));
    assert!(node_b.classes.iter().any(|c| c == "highlight"));
}

#[test]
fn flowchart_click_directive_marks_safe_link_nodes() {
    let parsed = parse_mermaid("flowchart LR\nA-->B\nclick A \"https://example.com/docs\"");
    assert!(node(&parsed, "A").classes.iter().any(|c| c == "has-link"));
}

#[test]
fn flowchart_click_directive_warns_on_unsafe_links() {
    let parsed = parse_mermaid("flowchart LR\nA-->B\nclick A \"javascript:alert(1)\"");
    assert!(parsed.warnings.iter().any(|w| w.contains("unsafe click link target blocked")));
}

#[test]
fn flowchart_click_directive_blocks_percent_encoded_scheme_bypass() {
    let parsed = parse_mermaid("flowchart LR\nA-->B\nclick A \"javascript%3Aalert(1)\"");
    assert!(parsed.warnings.iter().any(|w| w.contains("unsafe click link target blocked")));
}

#[test]
fn sequence_parses_messages() {
    let parsed =
        parse_mermaid("sequenceDiagram\nparticipant Alice\nparticipant Bob\nAlice->>Bob: Hello");
    assert_eq!(parsed.ir.diagram_type, DiagramType::Sequence);
    assert_eq!(parsed.ir.nodes.len(), 2);
    assert_eq!(parsed.ir.edges.len(), 1);
    assert!(parsed.warnings.is_empty());
}

#[test]
fn state_parses_declarations_and_transitions() {
    let parsed = parse_mermaid("stateDiagram-v2\nstate Idle\n[*] --> Idle\nIdle --> Done");
    assert_eq!(parsed.ir.diagram_type, DiagramType::State);
    assert!(parsed.ir.nodes.len() >= 2);
    assert_eq!(parsed.ir.edges.len(), 2);
}

#[test]
fn er_parses_entities_and_relationships() {
    let parsed = parse_mermaid("erDiagram\nCUSTOMER ||--o{ ORDER : places");
    assert_eq!(parsed.ir.diagram_type, DiagramType::Er);
    assert_eq!(parsed.ir.nodes.len(), 2);
    assert_eq!(parsed.ir.edges.len(), 1);
    assert_eq!(parsed.ir.labels.len(), 1);
}

#[test]
fn er_parses_entity_attributes() {
    let input = "erDiagram
    CUSTOMER {
        int id PK
        string name
        string email UK
    }
";
    let parsed = parse_mermaid(input);
    assert_eq!(parsed.ir.diagram_type, DiagramType::Er);
    assert_eq!(parsed.ir.nodes.len(), 1);
    let customer = &parsed.ir.nodes[0];
    assert_eq!(customer.id, "CUSTOMER");
    assert_eq!(customer.members.len(), 3);
    assert_eq!(customer.members[0].data_type, "int");
    assert_eq!(customer.members[0].name, "id");
    assert_eq!(customer.members[0].key, IrAttributeKey::Pk);
    assert_eq!(customer.members[1].data_type, "string");
    assert_eq!(customer.members[1].name, "name");
    assert_eq!(customer.members[1].key, IrAttributeKey::Unmarked);
    assert_eq!(customer.members[2].data_type, "string");
    assert_eq!(customer.members[2].name, "email");
    assert_eq!(customer.members[2].key, IrAttributeKey::Uk);
}

#[test]
fn er_parses_attributes_with_comments() {
    let input = "erDiagram
    ORDER {
        int order_id PK \"unique identifier\"
        int customer_id FK \"references CUSTOMER\"
        date created_at
    }
";
    let parsed = parse_mermaid(input);
    let order = &parsed.ir.nodes[0];
    assert_eq!(order.members.len(), 3);
    assert_eq!(order.members[1].key, IrAttributeKey::Fk);
    assert_eq!(order.members[1].comment.as_deref(), Some("references CUSTOMER"));
    assert_eq!(order.members[2].data_type, "date");
    assert_eq!(order.members[2].name, "created_at");
    assert_eq!(order.members[2].key, IrAttributeKey::Unmarked);
}

#[test]
fn er_parses_complex_schema() {
    let input = "erDiagram
    CUSTOMER ||--o{ ORDER : places
    ORDER ||--|{ LINE_ITEM : contains
    CUSTOMER {
        int id PK
        string name
    }
    ORDER {
        int id PK
        int customer_id FK
    }
    LINE_ITEM {
        int id PK
        int order_id FK
        int quantity
    }
";
    let parsed = parse_mermaid(input);
    assert_eq!(parsed.ir.diagram_type, DiagramType::Er);
    assert_eq!(parsed.ir.nodes.len(), 3);
    assert_eq!(parsed.ir.edges.len(), 2);
    assert_eq!(node(&parsed, "CUSTOMER").members.len(), 2);
    assert_eq!(node(&parsed, "ORDER").members.len(), 2);
    assert_eq!(node(&parsed, "LINE_ITEM").members.len(), 3);
}

#[test]
fn er_handles_complex_type_names() {
    let input = "erDiagram
    TABLE {
        varchar(255) email
        decimal(10,2) price
        timestamp created_at
    }
";
    let parsed = parse_mermaid(input);
    let table = &parsed.ir.nodes[0];
    assert_eq!(table.members[0].data_type, "varchar(255)");
    assert_eq!(table.members[1].data_type, "decimal(10,2)");
    assert_eq!(table.members[2].data_type, "timestamp");
}

#[test]
fn journey_parses_steps_as_linear_edges() {
    let parsed = parse_mermaid("journey\nsection Sprint\nWrite code: 5: me\nShip: 3: me");
    assert_eq!(parsed.ir.diagram_type, DiagramType::Journey);
    assert_eq!(parsed.ir.nodes.len(), 2);
    assert_eq!(parsed.ir.edges.len(), 1);
}

#[test]
fn timeline_parses_events_as_linear_edges() {
    let parsed = parse_mermaid("timeline\n2025 : kickoff\n2026 : launch");
    assert_eq!(parsed.ir.diagram_type, DiagramType::Timeline);
    assert_eq!(parsed.ir.nodes.len(), 2);
    assert_eq!(parsed.ir.edges.len(), 1);
}

#[test]
fn packet_beta_parses_connections() {
    let parsed = parse_mermaid("packet-beta\nClient -> Gateway\nGateway -> Backend");
    assert_eq!(parsed.ir.diagram_type, DiagramType::PacketBeta);
    assert_eq!(parsed.ir.nodes.len(), 3);
    assert_eq!(parsed.ir.edges.len(), 2);
}

#[test]
fn gantt_parses_tasks_as_nodes() {
    let parsed = parse_mermaid(
        "gantt\ntitle Release\nsection Phase 1\nDesign :a1, 2026-02-01, 3d\nBuild :a2, after a1, 5d",
    );
    assert_eq!(parsed.ir.diagram_type, DiagramType::Gantt);
    assert_eq!(parsed.ir.nodes.len(), 2);
    assert_eq!(parsed.ir.edges.len(), 0);
}

#[test]
fn pie_parses_slice_entries() {
    let parsed = parse_mermaid("pie\n\"Cats\" : 40\n\"Dogs\" : 60");
    assert_eq!(parsed.ir.diagram_type, DiagramType::Pie);
    assert_eq!(parsed.ir.nodes.len(), 2);
}

#[test]
fn quadrant_parses_points() {
    let parsed = parse_mermaid(
        "quadrantChart\nx-axis Low --> High\ny-axis Slow --> Fast\nFeatureA: [0.2, 0.9]",
    );
    assert_eq!(parsed.ir.diagram_type, DiagramType::QuadrantChart);
    assert_eq!(parsed.ir.nodes.len(), 1);
}

#[test]
fn requirement_parses_requirements_and_relations() {
    let parsed = parse_mermaid(
        "requirementDiagram\nrequirement REQ_1 {\n  id: 1\n}\nrequirement REQ_2 {\n  id: 2\n}\nREQ_1 -> REQ_2",
    );
    assert_eq!(parsed.ir.diagram_type, DiagramType::Requirement);
    assert_eq!(parsed.ir.nodes.len(), 2);
    assert_eq!(parsed.ir.edges.len(), 1);
}

#[test]
fn mindmap_parses_indented_tree_structure() {
    let parsed = parse_mermaid("mindmap\nRoot\n  BranchA\n    LeafA\n  BranchB");
    assert_eq!(parsed.ir.diagram_type, DiagramType::Mindmap);
    assert_eq!(parsed.ir.nodes.len(), 4);
    assert_eq!(parsed.ir.edges.len(), 3);
}

#[test]
fn init_directive_applies_theme_and_direction_hint() {
    let parsed = parse_mermaid(
        "%%{init: {\"theme\":\"dark\",\"themeVariables\":{\"primaryColor\":\"#fff\"},\"flowchart\":{\"direction\":\"RL\"}}}%%\nflowchart LR\nA-->B",
    );
    assert_eq!(parsed.ir.init_theme.as_deref(), Some("dark"));
    assert_eq!(theme_variable(&parsed, "primaryColor"), Some("#fff"));
    assert_eq!(parsed.ir.init_flowchart_direction, Some(GraphDirection::RL));
    assert!(!parsed.ir.init_issues.iter().any(|issue| issue.is_error));
}

#[test]
fn init_directive_accepts_json5_style_payload() {
    let parsed = parse_mermaid(
        "%%{init: { theme: 'dark', themeVariables: { primaryColor: '#0ff' }, flowchart: { direction: 'RL' } }}%%\nflowchart LR\nA-->B",
    );
    assert_eq!(parsed.ir.init_theme.as_deref(), Some("dark"));
    assert_eq!(theme_variable(&parsed, "primaryColor"), Some("#0ff"));
    assert_eq!(parsed.ir.init_flowchart_direction, Some(GraphDirection::RL));
    assert!(!parsed.ir.init_issues.iter().any(|issue| issue.is_error));
}

#[test]
fn invalid_init_directive_records_parse_error() {
    let parsed = parse_mermaid("%%{init: {not_json}}%%\nflowchart LR\nA-->B");
    assert_eq!(parsed.ir.init_issues.iter().filter(|issue| issue.is_error).count(), 1);
    assert!(!parsed.warnings.is_empty());
}

#[test]
fn content_heuristics_detects_flowchart_from_arrows() {
    let parsed = parse_mermaid("A --> B");
    assert_eq!(parsed.ir.diagram_type, DiagramType::Flowchart);
    assert_eq!(parsed.ir.nodes.len(), 2);
    assert_eq!(parsed.ir.edges.len(), 1);
    assert!(!parsed.warnings.is_empty());
}

#[test]
fn truly_unknown_input_falls_back_gracefully() {
    let parsed = parse_mermaid("some random text\nmore text");
    assert_eq!(parsed.ir.diagram_type, DiagramType::Flowchart);
    assert!(!parsed.warnings.is_empty());
}

#[test]
fn gitgraph_parses_simple_commits() {
    let parsed = parse_mermaid("gitGraph\ncommit\ncommit\ncommit");
    assert_eq!(parsed.ir.diagram_type, DiagramType::GitGraph);
    assert_eq!(parsed.ir.nodes.len(), 3);
    assert_eq!(parsed.ir.edges.len(), 2);
}

#[test]
fn gitgraph_parses_commit_with_id_and_message() {
    let parsed = parse_mermaid(
        "gitGraph\ncommit id: \"abc123\" msg: \"Initial commit\"\ncommit id: \"def456\" msg: \"Add feature\"",
    );
    assert_eq!(parsed.ir.diagram_type, DiagramType::GitGraph);
    assert_eq!(parsed.ir.nodes.len(), 2);
    assert_eq!(parsed.ir.edges.len(), 1);
    assert_eq!(parsed.ir.nodes[0].id, "abc123");
    assert_eq!(parsed.ir.nodes[1].id, "def456");
}

#[test]
fn gitgraph_parses_commit_with_tag() {
    let parsed = parse_mermaid(
        "gitGraph\ncommit tag: \"v1.0.0\"\ncommit msg: \"Fix bug\" tag: \"v1.0.1\"",
    );
    assert_eq!(parsed.ir.diagram_type, DiagramType::GitGraph);
    assert_eq!(parsed.ir.nodes.len(), 2);
    assert_eq!(label_of(&parsed, 0), Some("[v1.0.0]"));
    assert_eq!(label_of(&parsed, 1), Some("Fix bug [v1.0.1]"));
}

#[test]
fn gitgraph_parses_branch_and_checkout() {
    let parsed = parse_mermaid(
        "gitGraph\ncommit\nbranch develop\ncheckout develop\ncommit\ncheckout main\ncommit",
    );
    assert_eq!(parsed.ir.diagram_type, DiagramType::GitGraph);
    assert_eq!(parsed.ir.nodes.len(), 3);
    assert_eq!(parsed.ir.edges.len(), 2);
}

#[test]
fn gitgraph_parses_merge() {
    let parsed = parse_mermaid(
        "gitGraph\ncommit\nbranch develop\ncheckout develop\ncommit\ncheckout main\nmerge develop",
    );
    assert_eq!(parsed.ir.diagram_type, DiagramType::GitGraph);
    assert_eq!(parsed.ir.nodes.len(), 3);
    assert_eq!(parsed.ir.edges.len(), 3);
}

#[test]
fn gitgraph_parses_cherry_pick() {
    let parsed = parse_mermaid(
        "gitGraph\ncommit id: \"abc\"\nbranch feature\ncheckout feature\ncommit id: \"feat1\"\ncheckout main\ncherry-pick id: \"feat1\"",
    );
    assert_eq!(parsed.ir.diagram_type, DiagramType::GitGraph);
    assert_eq!(parsed.ir.nodes.len(), 3);
    assert_eq!(parsed.ir.edges.len(), 2);
}

#[test]
fn gitgraph_direction_lr() {
    let parsed = parse_mermaid("gitGraph LR\ncommit");
    assert_eq!(parsed.ir.direction, GraphDirection::LR);
}

#[test]
fn gitgraph_warns_on_unsupported_syntax() {
    let parsed = parse_mermaid("gitGraph\ncommit\nunsupported command here");
    assert!(!parsed.warnings.is_empty());
    assert!(parsed.warnings.iter().any(|w| w.contains("unsupported gitGraph syntax")));
}

#[test]
fn gitgraph_case_insensitive_header() {
    let parsed1 = parse_mermaid("GITGRAPH\ncommit");
    assert_eq!(parsed1.ir.diagram_type, DiagramType::GitGraph);
    assert_eq!(parsed1.ir.nodes.len(), 1);
    let parsed2 = parse_mermaid("GitGraph\ncommit");
    assert_eq!(parsed2.ir.diagram_type, DiagramType::GitGraph);
    assert_eq!(parsed2.ir.nodes.len(), 1);
    let parsed3 = parse_mermaid("GITGRAPH LR\ncommit");
    assert_eq!(parsed3.ir.diagram_type, DiagramType::GitGraph);
    assert_eq!(parsed3.ir.direction, GraphDirection::LR);
}

#[test]
fn gitgraph_commit_word_boundary() {
    let parsed = parse_mermaid("gitGraph\ncommitted something");
    assert!(parsed.warnings.iter().any(|w| w.contains("unsupported gitGraph syntax")));
    assert_eq!(parsed.ir.nodes.len(), 0);
}
