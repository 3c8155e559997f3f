use fm_parser::builder::IrBuilder;
use fm_parser::{
    capture_format_complement, normalize_identifier, normalize_identifier_cow, parse,
    parse_with_mode, ArrowType, DetectionMethod, DiagramType, GraphDirection, IrEndpoint, IrNodeId,
    MermaidLineEndingStyle, MermaidParseMode, MermaidQuoteStyle, MermaidWhitespaceKind, NodeShape,
    Span,
};

#[test]
fn empty_input_returns_warning() {
    let result = parse("");
    assert_eq!(result.ir.diagram_type, DiagramType::Unknown);
    assert_eq!(result.warnings.len(), 1);
}

#[test]
fn normalize_identifier_cow_matches_the_owning_form_exactly() {
    let cases = [
        "", "   ", "A", "P0", "Node_1", "a-b.c/d", "trailing_", "\"quoted id\"", "'single quoted'",
        "`backtick quoted`", "with spaces here", "break:here", "break;here", "break,here",
        "leading break:x", "___", "  padded  ", "\"\"", "naïve", "日本語", "emoji 🎉 here", "!!!",
        "!!!abc",
    ];
    for case in cases {
        assert_eq!(
            normalize_identifier_cow(case).as_ref(),
            normalize_identifier(case).as_str(),
            "cow and owning forms disagree on {case:?}"
        );
    }
}

#[test]
fn a_clean_identifier_borrows_instead_of_allocating() {
    let raw = String::from("P0");
    match normalize_identifier_cow(&raw) {
        std::borrow::Cow::Borrowed(borrowed) => assert!(
            std::ptr::eq(borrowed.as_ptr(), raw.as_ptr()),
            "borrowed, but not from the caller's own buffer"
        ),
        std::borrow::Cow::Owned(_) => panic!("clean id allocated; the lever is not firing"),
    }
    assert!(matches!(normalize_identifier_cow("  Node_1  "), std::borrow::Cow::Borrowed(_)));
    assert!(matches!(normalize_identifier_cow("with spaces"), std::borrow::Cow::Owned(_)));
    assert!(matches!(normalize_identifier_cow("trailing_"), std::borrow::Cow::Owned(_)));
}

#[test]
fn normalize_identifier_falls_back_to_hashed_id_for_non_ascii() {
    let first = normalize_identifier("你好");
    let second = normalize_identifier("你好");
    let other = normalize_identifier("こんにちは");
    assert!(!first.is_empty());
    assert!(first.starts_with("id_"));
    assert_eq!(first, second);
    assert_ne!(first, other);
    assert!(first.chars().all(|ch| ch.is_ascii_alphanumeric() || matches!(ch, '_' | '-')));
}

#[test]
fn normalizing_twice_changes_nothing() {
    for case in ["with spaces here", "\"quoted id\"", "trailing_", "日本語", "a-b.c/d", "break:here"] {
        let once = normalize_identifier(case);
        assert_eq!(normalize_identifier(&once), once, "{case:?}");
    }
    assert_eq!(normalize_identifier("with spaces here"), "with_spaces_here");
    assert_eq!(normalize_identifier("Node_1"), "Node_1");
}

#[test]
fn format_complement_captures_directives_comments_quotes_and_line_endings() {
    let input = "%%{init: {\"theme\":\"dark\"}}%%\r\n  %% comment\r\nflowchart LR\r\n  A[\"Alpha\"] --> B[`Beta`]  \r\n\r\n";
    let complement = capture_format_complement(input);
    assert_eq!(complement.line_ending, MermaidLineEndingStyle::Crlf);
    assert!(complement.trailing_newline);
    assert_eq!(complement.directives.len(), 1);
    assert_eq!(complement.comments.len(), 1);
    assert!(complement.quoted_literals.iter().any(|q| q.text == "\"theme\""));
    assert!(complement.quoted_literals.iter().any(|q| q.text == "\"Alpha\""));
    assert!(complement.quoted_literals.iter().any(|q| q.text == "`Beta`"));
    assert!(complement.whitespace.iter().any(|w| w.kind == MermaidWhitespaceKind::Indent));
    assert!(complement.whitespace.iter().any(|w| w.kind == MermaidWhitespaceKind::Trailing));
    assert!(complement.whitespace.iter().any(|w| w.kind == MermaidWhitespaceKind::BlankLine));
}

fn line_ending_scalar_reference(source: &str) -> MermaidLineEndingStyle {
    let bytes = source.as_bytes();
    let (mut crlf, mut lf) = (0_usize, 0_usize);
    let mut index = 0_usize;
    while index < bytes.len() {
        match bytes[index] {
            b'\r' if bytes.get(index + 1) == Some(&b'\n') => {
                crlf += 1;
                index += 2;
            }
            b'\n' => {
                lf += 1;
                index += 1;
            }
            _ => index += 1,
        }
    }
    match (crlf > 0, lf > 0) {
        (false, false) => MermaidLineEndingStyle::Absent,
        (false, true) => MermaidLineEndingStyle::Lf,
        (true, false) => MermaidLineEndingStyle::Crlf,
        (true, true) => MermaidLineEndingStyle::Mixed,
    }
}

#[test]
fn fused_newline_metadata_matches_scalar_reference() {
    for source in [
        "", "no newline", "\n", "\r\n", "lone carriage return\r", "one\n", "one\r\n",
        "one\ntwo\r\nthree", "α\r\nβ\n中文", "\n\n", "\r\n\r\n", "prefix\r\r\nsuffix",
    ] {
        let complement = capture_format_complement(source);
        assert_eq!(complement.line_ending, line_ending_scalar_reference(source), "source={source:?}");
        assert_eq!(complement.trailing_newline, source.ends_with('\n'));
    }
}

fn quoted_literals_scalar_reference(source: &str) -> Vec<(MermaidQuoteStyle, usize, usize, String)> {
    let mut quoted = Vec::new();
    let mut active: Option<(MermaidQuoteStyle, usize, char)> = None;
    let mut escaped = false;
    for (byte_index, ch) in source.char_indices() {
        if let Some((style, start_byte, terminator)) = active {
            if escaped {
                escaped = false;
                continue;
            }
            if terminator != '`' && ch == '\\' {
                escaped = true;
                continue;
            }
            if ch == terminator {
                let end = byte_index + ch.len_utf8();
                quoted.push((style, start_byte, end, source[start_byte..end].to_string()));
                active = None;
            }
            continue;
        }
        let style = match ch {
            '"' => Some(MermaidQuoteStyle::Double),
            '\'' => Some(MermaidQuoteStyle::Single),
            '`' => Some(MermaidQuoteStyle::Backtick),
            _ => None,
        };
        if let Some(style) = style {
            active = Some((style, byte_index, ch));
            escaped = false;
        }
    }
    quoted
}

#[test]
fn delimiter_indexed_quoted_literals_match_scalar_reference() {
    for source in [
        "",
        "flowchart LR\nA --> B\n",
        "A[\"double\"] B['single'] C[`backtick`]",
        r#"A["escaped \" quote"] B['escaped \' quote']"#,
        "A[`backslash does not escape \\` tail `]",
        "A[\"Unicode αβ 中文 🚀\"] --> B['café']",
        "A[\"line one\nline two\"]\r\nB[`multi\nline`]",
        "\"outer 'single' `tick` outer\" 'outer \"double\" outer'",
        "dangling \"quote",
        "dangling 'escape\\",
        "%%{init: {\"theme\":\"dark\", \"label\":\"a\\\"b\"}}%%",
        "'' \"\" `` '\\\\' \"\\\\\"",
    ] {
        let expected = quoted_literals_scalar_reference(source);
        let actual: Vec<(MermaidQuoteStyle, usize, usize, String)> = capture_format_complement(source)
            .quoted_literals
            .into_iter()
            .map(|q| (q.style, q.text_range.start_byte, q.text_range.end_byte, q.text))
            .collect();
        assert_eq!(actual, expected, "source={source:?}");
    }
}

#[test]
fn parse_result_exposes_format_complement() {
    let input = "%%{init: {\"theme\":\"dark\"}}%%\n%% comment\nflowchart LR\nA[Alpha] --> B[Beta]\n";
    let mut result = parse(input);
    result.format_complement = capture_format_complement(input);
    assert_eq!(result.format_complement.directives.len(), 1);
    assert_eq!(result.format_complement.comments.len(), 1);
    assert_eq!(result.format_complement.line_ending, MermaidLineEndingStyle::Lf);
    assert!(result.format_complement.quoted_literals.iter().any(|q| q.text == "\"theme\""));
}

#[test]
fn parse_leaves_the_format_complement_empty() {
    let result = parse("%% comment\r\nflowchart LR\r\n  A[\"x\"] --> B\r\n");
    assert_eq!(result.format_complement.line_ending, MermaidLineEndingStyle::Absent);
    assert!(!result.format_complement.trailing_newline);
    assert!(result.format_complement.comments.is_empty());
    assert!(result.format_complement.quoted_literals.is_empty());
}

#[test]
fn parse_flowchart_deduplicates_identical_labels() {
    let result = parse("flowchart TD\nA[Same Label]\nB[Same Label]");
    assert_eq!(result.ir.nodes.len(), 2);
    assert_eq!(result.ir.labels.len(), 1, "Identical label text should be deduplicated");
    let label_id_a = result.ir.nodes[0].label.expect("A should have label");
    let label_id_b = result.ir.nodes[1].label.expect("B should have label");
    assert_eq!(label_id_a, label_id_b);
}

#[test]
fn parse_flowchart_reopened_subgraph_does_not_duplicate_ir_entries() {
    let result = parse("flowchart TD\nsubgraph S1\n  A\nend\nsubgraph S1\n  B\nend");
    assert_eq!(result.ir.clusters.len(), 1, "Should only have 1 cluster");
    assert_eq!(result.ir.subgraphs.len(), 1, "Should only have 1 subgraph");
    assert_eq!(result.ir.clusters[0].members.len(), 2);
}

#[test]
fn parse_flowchart_extracts_nodes_edges_and_direction() {
    let result = parse("flowchart LR\nA[Start] --> B(End)");
    assert_eq!(result.ir.diagram_type, DiagramType::Flowchart);
    assert_eq!(result.ir.direction, GraphDirection::LR);
    assert_eq!(result.ir.nodes.len(), 2);
    assert_eq!(result.ir.edges.len(), 1);
    assert!(result.warnings.is_empty());
    let edge = &result.ir.edges[0];
    assert_eq!(edge.arrow, ArrowType::Arrow);
    assert_eq!(edge.from, IrEndpoint::Node(IrNodeId(0)));
    assert_eq!(edge.to, IrEndpoint::Node(IrNodeId(1)));
}

#[test]
fn parse_routes_dot_inputs_through_dot_parser() {
    let result = parse("digraph G { a -> b; }");
    assert_eq!(result.ir.diagram_type, DiagramType::Flowchart);
    assert_eq!(result.ir.nodes.len(), 2);
    assert_eq!(result.ir.edges.len(), 1);
    assert!(result.warnings.is_empty());
}

#[test]
fn strict_mode_keeps_a_detected_family_without_its_own_parser() {
    let result = parse_with_mode(
        "architecture-beta\nservice api[API]\nservice db[DB]\napi --> db\n",
        MermaidParseMode::Strict,
    );
    assert_eq!(result.ir.diagram_type, DiagramType::ArchitectureBeta);
    assert_eq!(result.parse_mode(), MermaidParseMode::Strict);
    assert_eq!(result.ir.edges.len(), 1);
    assert!(!result.ir.has_errors());
    assert!(result.warnings.iter().any(|w| w
        == "Diagram type 'architecture-beta' is not fully supported yet; using best-effort flowchart parsing"));
}

#[test]
fn strict_mode_refuses_a_fallback_guess() {
    let result = parse_with_mode("some random text\nmore text", MermaidParseMode::Strict);
    assert_eq!(result.ir.diagram_type, DiagramType::Unknown);
    assert_eq!(result.parse_mode(), MermaidParseMode::Strict);
    assert_eq!(result.detection_method, DetectionMethod::Fallback);
    let compat = parse_with_mode("some random text\nmore text", MermaidParseMode::Compat);
    assert_eq!(compat.ir.diagram_type, DiagramType::Flowchart);
    assert_eq!(MermaidParseMode::Recover.as_str(), "recover");
}

#[test]
fn an_invalid_init_directive_is_an_error() {
    let result = parse("%%{init: {not_json}}%%\nflowchart LR\nA-->B");
    assert!(result.ir.has_errors());
    assert!(!parse("flowchart LR\nA-->B").ir.has_errors());
}

#[test]
fn parse_result_includes_confidence() {
    let result = parse("flowchart LR\nA-->B");
    assert_eq!(result.ir.diagram_type, DiagramType::Flowchart);
    assert_eq!(result.confidence_hundredths, 100);
    assert_eq!(result.detection_method, DetectionMethod::ExactKeyword);
}

#[test]
fn parse_result_content_heuristic_has_lower_confidence() {
    let result = parse("Alice ->> Bob: Hello");
    assert_eq!(result.ir.diagram_type, DiagramType::Sequence);
    assert!(result.confidence_hundredths > 50 && result.confidence_hundredths < 100);
    assert_eq!(result.detection_method, DetectionMethod::ContentHeuristic);
}

#[test]
fn parse_result_dot_format_has_high_confidence() {
    let result = parse("digraph G { a -> b; }");
    assert_eq!(result.ir.diagram_type, DiagramType::Flowchart);
    assert!(result.confidence_hundredths > 90);
    assert_eq!(result.detection_method, DetectionMethod::DotFormat);
}

#[test]
fn intern_node_reuses_existing_lookup_entry() {
    let mut builder = IrBuilder::new(DiagramType::Flowchart);
    let span = Span::default();
    let first = builder.intern_node("A", None, NodeShape::Rect, span).expect("first node should be created");
    let second =
        builder.intern_node("A", Some("Alpha"), NodeShape::Diamond, span).expect("existing node should be reused");
    assert_eq!(first, second);
    let node = builder.ir.nodes.get(first.0).expect("node should exist");
    assert_eq!(node.shape, NodeShape::Diamond);
    assert!(node.label.is_some(), "missing label should be upgraded in place");
}

#[test]
fn interning_one_label_text_twice_gives_one_label() {
    let mut builder = IrBuilder::new(DiagramType::Flowchart);
    let a = builder.intern_label("same".to_string(), Span::default());
    let b = builder.intern_label("same".to_string(), Span::at_line(3, 9));
    let c = builder.intern_label("other".to_string(), Span::default());
    assert_eq!(a, b);
    assert_ne!(a, c);
    assert_eq!(builder.ir.labels.len(), 2);
}

#[test]
fn an_empty_node_id_is_skipped_with_a_warning() {
    let mut builder = IrBuilder::new(DiagramType::Flowchart);
    assert!(builder.intern_node("   ", Some("x"), NodeShape::Rect, Span::default()).is_none());
    assert_eq!(builder.node_count(), 0);
    let result = builder.finish(100, DetectionMethod::ExactKeyword);
    assert_eq!(result.warnings, vec!["Encountered empty node identifier; skipped node".to_string()]);
}
