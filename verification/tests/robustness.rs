use fm_parser::{parse, DiagramType};

#[test]
fn adversarial_deeply_nested_subgraphs_does_not_panic() {
    let depth = 200;
    let mut input = String::from("flowchart TD\n");
    for i in 0..depth {
        input.push_str(&format!("{}subgraph sg{i}\n", "  ".repeat(i + 1)));
    }
    for i in (0..depth).rev() {
        input.push_str(&format!("{}end\n", "  ".repeat(i + 1)));
    }
    let result = parse(&input);
    assert_eq!(result.ir.diagram_type, DiagramType::Flowchart);
}

#[test]
fn adversarial_extremely_long_single_line_does_not_panic() {
    let long_label = "A".repeat(100_000);
    let input = format!("flowchart LR\n  X[{long_label}] --> Y");
    let result = parse(&input);
    assert_eq!(result.ir.diagram_type, DiagramType::Flowchart);
    assert!(!result.ir.nodes.is_empty());
}

#[test]
fn adversarial_many_nodes_does_not_panic() {
    let count = 1000;
    let mut input = String::from("flowchart TD\n");
    for i in 0..count {
        input.push_str(&format!("  N{i}[Node {i}]\n"));
    }
    for i in 1..count {
        input.push_str(&format!("  N{} --> N{i}\n", i - 1));
    }
    let result = parse(&input);
    assert!(result.ir.nodes.len() >= count);
}

#[test]
fn adversarial_many_edges_between_same_pair_does_not_panic() {
    let mut input = String::from("flowchart LR\n  A --> B\n");
    for _ in 0..500 {
        input.push_str("  A --> B\n");
    }
    let result = parse(&input);
    assert!(!result.ir.nodes.is_empty());
    assert!(!result.ir.edges.is_empty());
}

#[test]
fn adversarial_null_bytes_in_input_does_not_panic() {
    let result = parse("flowchart LR\n  A\0B --> C\0D");
    assert_ne!(result.ir.diagram_type, DiagramType::Unknown);
}

#[test]
fn adversarial_control_characters_does_not_panic() {
    let _result = parse("flowchart\x01 LR\n  A\x02 --> B\x03\n  B\x1b[31m --> C");
}

#[test]
fn adversarial_unicode_bom_does_not_panic() {
    let result = parse("\u{FEFF}flowchart LR\n  A --> B");
    assert!(!result.ir.nodes.is_empty());
}

#[test]
fn adversarial_mixed_line_endings_does_not_panic() {
    let result = parse("flowchart LR\r\n  A --> B\r  B --> C\n  C --> D\r\n");
    assert!(!result.ir.nodes.is_empty());
}

#[test]
fn adversarial_empty_and_whitespace_only_inputs() {
    for input in ["", " ", "\n", "\t", "\n\n\n", "   \n  \t  \n  "] {
        let result = parse(input);
        assert_eq!(result.ir.diagram_type, DiagramType::Unknown);
    }
}

#[test]
fn adversarial_repeated_keywords_does_not_panic() {
    let _result = parse("flowchart flowchart flowchart LR\n  A --> B");
}

#[test]
fn adversarial_nested_brackets_does_not_panic() {
    let depth = 100;
    let open: String = "[".repeat(depth);
    let close: String = "]".repeat(depth);
    let _result = parse(&format!("flowchart LR\n  A{open}deep{close} --> B"));
}

#[test]
fn adversarial_very_long_node_id_does_not_panic() {
    let long_id = "N".repeat(10_000);
    let _result = parse(&format!("flowchart LR\n  {long_id} --> B"));
}

#[test]
fn adversarial_many_diagram_type_keywords_does_not_confuse() {
    let input = "flowchart LR\n  A --> B\nsequenceDiagram\n  C->>D: hi\nclassDiagram\n  E <|-- F";
    let result = parse(input);
    assert_eq!(result.ir.diagram_type, DiagramType::Flowchart, "First keyword should win");
}

#[test]
fn adversarial_only_edges_no_declarations_does_not_panic() {
    let _result = parse("flowchart TD\n  --> --> --> --> -->");
}

#[test]
fn adversarial_init_directive_with_bad_json_does_not_panic() {
    let result = parse("%%{init: {{{invalid json}}}%%\nflowchart LR\n  A --> B");
    assert!(!result.ir.nodes.is_empty());
}

#[test]
fn adversarial_binary_content_does_not_panic() {
    let input: String = (0..=255_u8).map(char::from).collect();
    let _result = parse(&input);
}

#[test]
fn adversarial_massive_whitespace_padding_does_not_panic() {
    let padding = " ".repeat(50_000);
    let input = format!("{padding}flowchart LR\n{padding}A --> B{padding}");
    let result = parse(&input);
    assert!(!result.ir.nodes.is_empty());
}

#[test]
fn adversarial_deeply_nested_subgraphs_no_stack_overflow() {
    let mut input = String::from("flowchart LR\n");
    for i in 0..200 {
        input.push_str(&format!("  subgraph S{i}\n"));
    }
    input.push_str("    A --> B\n");
    for _ in 0..200 {
        input.push_str("  end\n");
    }
    let result = parse(&input);
    assert!(result.confidence_hundredths > 0);
}

#[test]
fn adversarial_extremely_long_node_id_no_panic() {
    let long_id: String = "A".repeat(100_000);
    let result = parse(&format!("flowchart LR\n  {long_id} --> B"));
    assert!(result.confidence_hundredths > 0);
}

#[test]
fn adversarial_null_bytes_in_input_no_panic() {
    let result = parse("flowchart LR\n  A\0B --> C\0D");
    assert!(result.confidence_hundredths > 0);
}

#[test]
fn adversarial_unicode_bidi_override_no_panic() {
    let result = parse("flowchart LR\n  A[\u{202e}reversed\u{202c}] --> B");
    assert!(result.confidence_hundredths > 0);
}

#[test]
fn adversarial_many_parallel_edges_no_quadratic_blowup() {
    let mut input = String::from("flowchart LR\n");
    for _ in 0..500 {
        input.push_str("  A --> B\n");
    }
    let result = parse(&input);
    assert!(!result.ir.edges.is_empty());
}

#[test]
fn adversarial_empty_and_whitespace_inputs() {
    for input in ["", " ", "\n", "\t", "\r\n", "   \n   \n   "] {
        let result = parse(input);
        assert_eq!(result.confidence_hundredths, 0);
    }
}

#[test]
fn adversarial_javascript_url_in_click_blocked() {
    let result = parse("flowchart LR\n  A[Node]\n  click A \"javascript:alert(document.cookie)\"");
    if let Some(node) = result.ir.nodes.iter().find(|n| n.id == "A") {
        assert!(!node.classes.iter().any(|c| c == "has-link"), "javascript: URLs must be blocked");
    }
    assert!(result.warnings.iter().any(|w| w.contains("unsafe click link target blocked")));
}
