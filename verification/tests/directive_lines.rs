use fm_parser::{DiagramType, GraphDirection};

fn cases() -> Vec<(&'static str, &'static str, &'static str)> {
    vec![
        ("class", "classDiagram\n  direction TB\n  class Animal\n", "direction"),
        ("er", "erDiagram\n  direction TB\n  A ||--o{ B : r\n", "direction"),
        ("timeline", "timeline\n  title T\n  direction TB\n  2024 : x\n", "direction"),
        (
            "journey",
            "journey\n  title D\n  direction TB\n  section M\n    Wake: 3: Me\n",
            "direction",
        ),
        ("mindmap", "mindmap\n  direction TB\n  root((r))\n    a\n", "direction"),
        ("packet", "packet-beta\n  direction TB\n  0-7: \"a\"\n", "direction"),
        ("mindmap title", "mindmap\n  title A Title\n  root((r))\n    a\n", "title"),
        ("packet title", "packet-beta\n  title A Title\n  0-7: \"a\"\n", "title"),
    ]
}

fn node_texts(source: &str) -> Vec<String> {
    let parsed = fm_parser::parse(source);
    let ir = &parsed.ir;
    let mut out = Vec::new();
    for node in &ir.nodes {
        out.push(node.id.to_string());
        if let Some(label) = node.label.and_then(|id| ir.labels.get(id.0)) {
            out.push(label.text.clone());
        }
    }
    out
}

#[test]
fn no_directive_line_becomes_a_node() {
    for (name, source, needle) in cases() {
        let texts = node_texts(source);
        assert!(
            !texts.iter().any(|t| t.to_ascii_lowercase().contains(needle)),
            "{name} interned the directive as a node: {texts:?}"
        );
        assert!(!texts.is_empty(), "{name} has no nodes at all");
    }
}

#[test]
fn the_directive_adds_no_node() {
    for (name, source, _) in cases() {
        let without: String = source
            .lines()
            .filter(|l| {
                let t = l.trim();
                !(t.starts_with("direction ") || t == "title A Title")
            })
            .map(|l| format!("{l}\n"))
            .collect();
        let with_count = fm_parser::parse(source).ir.nodes.len();
        let without_count = fm_parser::parse(&without).ir.nodes.len();
        assert_eq!(with_count, without_count, "{name}: the directive line added a node");
    }
}

#[test]
fn class_and_er_apply_the_direction() {
    for (name, ty, tb, lr) in [
        (
            "class",
            DiagramType::Class,
            "classDiagram\n  direction TB\n  class Animal\n",
            "classDiagram\n  direction LR\n  class Animal\n",
        ),
        (
            "er",
            DiagramType::Er,
            "erDiagram\n  direction TB\n  A ||--o{ B : r\n",
            "erDiagram\n  direction LR\n  A ||--o{ B : r\n",
        ),
    ] {
        let parsed_tb = fm_parser::parse(tb);
        assert_eq!(parsed_tb.ir.diagram_type, ty, "{name} changed family");
        assert_eq!(parsed_tb.ir.direction, GraphDirection::TB, "{name}");
        assert_ne!(parsed_tb.ir.direction, fm_parser::parse(lr).ir.direction, "{name}");
    }
}

#[test]
fn honouring_the_direction_is_silent() {
    for (name, source) in [
        ("class", "classDiagram\n  direction TB\n  class Animal\n"),
        ("er", "erDiagram\n  direction TB\n  A ||--o{ B : r\n"),
    ] {
        let warnings = fm_parser::parse(source).warnings;
        assert!(
            !warnings.iter().any(|w| w.contains("direction")),
            "{name} warns about a directive it applies: {warnings:?}"
        );
    }
}

#[test]
fn a_name_that_only_starts_with_the_keyword_is_still_a_node() {
    for (name, source, needle) in [
        ("class", "classDiagram\n  class directionality\n", "directionality"),
        ("mindmap", "mindmap\n  root((r))\n    titleholder\n", "titleholder"),
    ] {
        let texts = node_texts(source);
        assert!(texts.iter().any(|t| t.contains(needle)), "{name} swallowed `{needle}`");
    }
}

#[test]
fn state_class_style_directive_matches_mermaid_11_15_0_node_set() {
    let state = fm_parser::parse("stateDiagram-v2\n  A --> B\n  class A bad\n");
    let state_ids: Vec<_> = state.ir.nodes.iter().map(|node| node.id.as_str()).collect();
    assert_eq!(state_ids, vec!["A", "B"], "state fixture diverged");
    assert!(
        state.ir.nodes[0].classes.iter().any(|class| class == "bad"),
        "the state style was discarded while suppressing its directive"
    );
}

#[test]
fn er_class_style_directive_matches_mermaid_11_15_0_node_set() {
    let er = fm_parser::parse("erDiagram\n  CUSTOMER ||--o{ ORDER : places\n  class CUSTOMER bad\n");
    let er_ids: Vec<_> = er.ir.nodes.iter().map(|node| node.id.as_str()).collect();
    assert_eq!(er_ids, vec!["CUSTOMER", "ORDER"], "ER fixture diverged");
    assert!(
        er.ir.nodes[0].classes.iter().any(|class| class == "bad"),
        "the ER style was discarded while suppressing its directive"
    );
}

#[test]
fn class_link_style_intentionally_rejects_mermaid_11_15_0_legacy_phantom() {
    let class = fm_parser::parse(
        "classDiagram\n  class A\n  class B\n  A --> B\n  linkStyle 0 stroke:#f00\n",
    );
    let class_ids: Vec<_> = class.ir.nodes.iter().map(|node| node.id.as_str()).collect();
    assert_eq!(class_ids, vec!["A", "B"], "linkStyle became a class node");
    assert_eq!(class.ir.edges.len(), 1, "the styled relation was lost");
}
