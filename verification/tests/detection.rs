use fm_parser::detect::levenshtein_distance;
use fm_parser::heuristics::{has_sequence_message_separator, looks_like_er_relationship};
use fm_parser::{detect_type, detect_type_with_confidence, DetectionMethod, DiagramType, ParserConfig};

fn chars(s: &str) -> Vec<char> {
    s.chars().collect()
}

fn lev(a: &str, b: &str) -> usize {
    levenshtein_distance(&chars(a), &chars(b))
}

fn er(source: &str) -> bool {
    looks_like_er_relationship(&chars(source))
}

#[test]
fn detects_flowchart_keyword() {
    assert_eq!(detect_type("flowchart LR\nA-->B"), DiagramType::Flowchart);
}

#[test]
fn detects_sequence_keyword() {
    assert_eq!(detect_type("sequenceDiagram\nAlice->>Bob: Hello"), DiagramType::Sequence);
}

#[test]
fn detects_dot_inputs_as_flowchart() {
    assert_eq!(detect_type("digraph G { a -> b; }"), DiagramType::Flowchart);
}

#[test]
fn detects_supported_headers() {
    assert_eq!(detect_type("stateDiagram-v2\nA --> B"), DiagramType::State);
    assert_eq!(detect_type("sequenceDiagram\nA->>B: Hi"), DiagramType::Sequence);
    assert_eq!(detect_type("classDiagram\nA -- B"), DiagramType::Class);
}

#[test]
fn gitgraph_detects_type() {
    assert_eq!(detect_type("gitGraph\ncommit"), DiagramType::GitGraph);
    assert_eq!(detect_type("gitGraph LR\ncommit"), DiagramType::GitGraph);
}

#[test]
fn detection_exact_keyword_high_confidence() {
    let result = detect_type_with_confidence("flowchart LR\nA-->B");
    assert_eq!(result.diagram_type, DiagramType::Flowchart);
    assert_eq!(result.confidence_hundredths, 100);
    assert_eq!(result.method, DetectionMethod::ExactKeyword);
    assert!(result.warnings.is_empty());
}

#[test]
fn detection_fuzzy_keyword_with_typo() {
    let result = detect_type_with_confidence("flwochart LR\nA-->B");
    assert_eq!(result.diagram_type, DiagramType::Flowchart);
    assert_eq!(result.method, DetectionMethod::FuzzyKeyword);
    assert!(result.confidence_hundredths > 50 && result.confidence_hundredths < 100);
    assert!(!result.warnings.is_empty());
}

#[test]
fn detection_content_heuristic_er_patterns() {
    let result = detect_type_with_confidence("CUSTOMER ||--o{ ORDER : places");
    assert_eq!(result.diagram_type, DiagramType::Er);
    assert_eq!(result.method, DetectionMethod::ContentHeuristic);
    assert!(result.confidence_hundredths > 50);
}

#[test]
fn detection_content_heuristic_sequence_patterns() {
    let result = detect_type_with_confidence("Alice ->> Bob: Hello\nBob ->> Alice: Hi");
    assert_eq!(result.diagram_type, DiagramType::Sequence);
    assert_eq!(result.method, DetectionMethod::ContentHeuristic);
}

#[test]
fn detection_dot_format() {
    let result = detect_type_with_confidence("digraph G { a -> b; }");
    assert_eq!(result.diagram_type, DiagramType::Flowchart);
    assert_eq!(result.method, DetectionMethod::DotFormat);
    assert!(result.confidence_hundredths > 90);
}

#[test]
fn detection_fallback_for_unknown() {
    let result = detect_type_with_confidence("some random text\nmore text");
    assert_eq!(result.diagram_type, DiagramType::Flowchart);
    assert_eq!(result.method, DetectionMethod::Fallback);
    assert!(result.confidence_hundredths < 50);
    assert!(!result.warnings.is_empty());
}

#[test]
fn detection_empty_input() {
    let result = detect_type_with_confidence("");
    assert_eq!(result.diagram_type, DiagramType::Unknown);
    assert_eq!(result.method, DetectionMethod::Fallback);
    assert_eq!(result.confidence_hundredths, 0);
}

#[test]
fn detection_various_diagram_types() {
    let test_cases = [
        ("sequenceDiagram\nAlice->>Bob: Hi", DiagramType::Sequence),
        ("classDiagram\nAnimal <|-- Dog", DiagramType::Class),
        ("stateDiagram-v2\n[*] --> State1", DiagramType::State),
        ("erDiagram\nA ||--o{ B : has", DiagramType::Er),
        ("gantt\ntitle Project", DiagramType::Gantt),
        ("pie\ntitle Pie", DiagramType::Pie),
        ("gitGraph\ncommit", DiagramType::GitGraph),
        ("mindmap\nroot", DiagramType::Mindmap),
        ("timeline\ntitle History", DiagramType::Timeline),
        ("journey\ntitle Journey", DiagramType::Journey),
        ("block-beta\nA", DiagramType::BlockBeta),
        ("block\nA", DiagramType::BlockBeta),
    ];
    for (input, expected_type) in test_cases {
        let result = detect_type_with_confidence(input);
        assert_eq!(result.diagram_type, expected_type, "Failed for: {input}");
        assert_eq!(result.method, DetectionMethod::ExactKeyword);
    }
}

#[test]
fn block_alias_requires_word_boundary() {
    let result = detect_type_with_confidence("blockquote\nalpha[Alpha]");
    assert_ne!(result.diagram_type, DiagramType::BlockBeta);
}

#[test]
fn levenshtein_distance_basic() {
    assert_eq!(lev("cat", "cat"), 0);
    assert_eq!(lev("cat", "bat"), 1);
    assert_eq!(lev("cat", "cart"), 1);
    assert_eq!(lev("cat", "cats"), 1);
    assert_eq!(lev("cat", "dog"), 3);
    assert_eq!(lev("", "abc"), 3);
    assert_eq!(lev("abc", ""), 3);
}

#[test]
fn levenshtein_distance_is_symmetric_on_samples() {
    for (a, b) in [("kitten", "sitting"), ("flowchart", "flwochart"), ("", ""), ("ab", "ba")] {
        assert_eq!(lev(a, b), lev(b, a));
    }
    assert_eq!(lev("kitten", "sitting"), 3);
    assert_eq!(lev("ab", "ba"), 2);
}

#[test]
fn an_unimplemented_upstream_type_is_named_rather_than_blamed_on_syntax() {
    for (source, expected) in [
        ("radar\n  title Skills\n  ds1 [10, 20, 30]\n", "radar"),
        ("radar-beta\n  axis a, b\n", "radar"),
        ("treemap\n  root\n    child 5\n", "treemap"),
        ("ishikawa\n  Problem\n", "ishikawa"),
        ("eventmodeling\n  x\n", "eventmodeling"),
        ("info\n", "info"),
        ("treeView-beta\n  root\n", "treeView"),
        ("venn-beta\n  a\n", "venn"),
        ("wardley-beta\n  a\n", "wardley"),
    ] {
        let detected = detect_type_with_confidence(source);
        let joined = detected.warnings.join(" | ");
        assert!(joined.contains(expected), "{source:?} should name {expected:?}; warnings were {joined:?}");
        assert!(!joined.contains("Could not detect"), "{source:?} still reports the generic message: {joined:?}");
    }
}

#[test]
fn a_typo_still_gets_the_generic_message() {
    for source in ["flowchrt TD\n  a --> b\n", "radarr\n  x\n", "treemapp\n  y\n", "ishikawaa\n  x\n"] {
        let detected = detect_type_with_confidence(source);
        let joined = detected.warnings.join(" | ");
        assert!(!joined.contains("does not implement yet"), "{source:?}: {joined:?}");
    }
}

#[test]
fn supported_diagram_types_are_untouched_by_the_new_check() {
    for (source, want) in [
        ("flowchart TD\n  a --> b\n", DiagramType::Flowchart),
        ("sequenceDiagram\n  A->>B: hi\n", DiagramType::Sequence),
        ("mindmap\n  root\n", DiagramType::Mindmap),
        ("kanban\n  Todo\n", DiagramType::Kanban),
    ] {
        let detected = detect_type_with_confidence(source);
        assert_eq!(detected.diagram_type, want, "{source:?} changed detection");
        assert!(!detected.warnings.join(" ").contains("does not implement yet"));
    }
}

#[test]
fn bare_spellings_the_incumbent_accepts_are_detected() {
    for (source, want) in [
        ("requirement\n  requirement r {\n  }\n", DiagramType::Requirement),
        ("packet\n  0-7: \"a\"\n", DiagramType::PacketBeta),
        ("architecture\n  group a\n", DiagramType::ArchitectureBeta),
    ] {
        let detected = detect_type_with_confidence(source);
        assert_eq!(detected.diagram_type, want, "{source:?} was not detected");
    }
}

#[test]
fn suffixed_spellings_still_detect_as_before() {
    for (source, want) in [
        ("requirementDiagram\n  requirement r {\n  }\n", DiagramType::Requirement),
        ("packet-beta\n  0-7: \"a\"\n", DiagramType::PacketBeta),
        ("architecture-beta\n  group a\n", DiagramType::ArchitectureBeta),
        ("sankey-beta\n  a,b,1\n", DiagramType::Sankey),
        ("xychart-beta\n  bar [1,2]\n", DiagramType::XyChart),
    ] {
        let detected = detect_type_with_confidence(source);
        assert_eq!(detected.diagram_type, want, "{source:?} changed detection");
    }
}

#[test]
fn typos_in_the_late_added_types_are_corrected() {
    let config = ParserConfig::default();
    if config.fuzzy_keyword_distance == 0 {
        return;
    }
    for (source, want) in [
        ("architectur\n  group a\n", DiagramType::ArchitectureBeta),
        ("packt\n  0-7: \"a\"\n", DiagramType::PacketBeta),
        ("kanbon\n  Todo\n", DiagramType::Kanban),
    ] {
        let detected = detect_type_with_confidence(source);
        assert_eq!(detected.diagram_type, want, "{source:?} was not corrected");
    }
}

#[test]
fn a_c4_typo_corrects_to_its_own_variant() {
    let config = ParserConfig::default();
    if config.fuzzy_keyword_distance == 0 {
        return;
    }
    for (source, want) in [
        ("c4contaner\n  Person(a, \"A\")\n", DiagramType::C4Container),
        ("c4contex\n  Person(a, \"A\")\n", DiagramType::C4Context),
        ("c4deploymnt\n  Person(a, \"A\")\n", DiagramType::C4Deployment),
    ] {
        let detected = detect_type_with_confidence(source);
        assert_eq!(detected.diagram_type, want, "{source:?} cross-corrected to another C4 variant");
    }
}

#[test]
fn exact_headers_are_never_fuzzy_corrected() {
    for (source, want) in [
        ("block-beta\n  a\n", DiagramType::BlockBeta),
        ("packet-beta\n  0-7: \"a\"\n", DiagramType::PacketBeta),
        ("c4context\n  Person(a, \"A\")\n", DiagramType::C4Context),
    ] {
        let detected = detect_type_with_confidence(source);
        assert_eq!(detected.diagram_type, want, "{source:?} was rerouted");
        assert_eq!(detected.method, DetectionMethod::ExactKeyword);
    }
}

#[test]
fn the_er_heuristic_covers_the_cardinality_grid() {
    for relationship in [
        "||--o{", "}|--||", "||--|{", "|o--o|", "}o--o{", "}o--|{", "|o--|{", "||--||", "}o..o{",
        "||..||", "|o..o|", "}|..|{",
    ] {
        let source = format!("CUSTOMER {relationship} ORDER : places\n");
        assert!(er(&source.to_lowercase()), "{relationship} was not recognised as an ER relationship");
    }
}

#[test]
fn ordinary_operators_are_not_mistaken_for_er() {
    for source in [
        "flowchart TD\n  a --> b\n",
        "flowchart TD\n  a --- b\n",
        "flowchart TD\n  a ==> b\n",
        "classDiagram\n  A ..> B\n",
        "classDiagram\n  A <|-- B\n",
        "sequenceDiagram\n  A-->>B: hi\n",
    ] {
        assert!(!er(&source.to_lowercase()), "{source:?} was misread as an ER relationship");
    }
}

#[test]
fn the_class_heuristic_covers_the_relations_the_parser_accepts() {
    for relation in ["<|--", "--|>", "<|..", "..|>", "*--", "--*", "..>", "<.."] {
        let source = format!("Order {relation} LineItem\n");
        let detected = detect_type_with_confidence(&source);
        assert_eq!(detected.diagram_type, DiagramType::Class, "{relation} was not recognised");
    }
}

#[test]
fn flowchart_circle_edges_are_not_read_as_class_relations() {
    for source in ["A --o B\n", "A o--o B\n", "flowchart TD\n  A --o B\n"] {
        let detected = detect_type_with_confidence(source);
        assert_ne!(detected.diagram_type, DiagramType::Class, "{source:?} was misread as a class diagram");
    }
}

#[test]
fn the_sequence_heuristic_covers_async_and_bidirectional_arrows() {
    for arrow in ["->>", "-->>", "-)", "--)", "<<->>", "<<-->>"] {
        let source = format!("Alice {arrow} Bob: hello\n");
        let detected = detect_type_with_confidence(&source);
        assert_eq!(detected.diagram_type, DiagramType::Sequence, "{arrow} was not recognised");
    }
}

#[test]
fn flowchart_cross_edges_are_not_read_as_sequence() {
    for source in ["A --x B\n", "A --x B\n  style A fill:#f00\n"] {
        let detected = detect_type_with_confidence(source);
        assert_ne!(detected.diagram_type, DiagramType::Sequence, "{source:?} was misread");
    }
}

#[test]
fn the_flowchart_heuristic_covers_dotted_circle_and_cross_edges() {
    for edge in ["-.->", "<-.->", "-.-", "--o", "--x", "-->", "<-->", "---", "==>", "<==>"] {
        let source = format!("A {edge} B\n");
        let detected = detect_type_with_confidence(&source);
        assert_eq!(detected.diagram_type, DiagramType::Flowchart, "{edge} was not read as a flowchart edge");
        assert_eq!(detected.method, DetectionMethod::ContentHeuristic, "{edge} came through the fallback");
    }
}

#[test]
fn prose_punctuation_does_not_shadow_the_unsupported_type_warning() {
    let detected = detect_type_with_confidence("radar\n  title Scores...\n");
    assert_eq!(detected.method, DetectionMethod::Fallback);
    assert!(
        detected.warnings.iter().any(|w| w.contains("does not implement")),
        "the unimplemented-type message was replaced: {:?}",
        detected.warnings
    );
}

#[test]
fn a_plain_arrow_message_is_still_a_sequence_diagram() {
    for source in ["alice->bob: hello\n", "alice -> bob : hello\n", "a-->b: hi\n"] {
        let detected = detect_type_with_confidence(source);
        assert_eq!(detected.diagram_type, DiagramType::Sequence, "{source:?}");
    }
}

#[test]
fn a_labelled_state_transition_is_not_a_sequence_diagram() {
    for source in ["[*] --> Idle: boot\n  Idle --> Busy: work\n", "[*] --> Idle\n", "Idle --> [*]\n"] {
        let detected = detect_type_with_confidence(source);
        assert_eq!(detected.diagram_type, DiagramType::State, "{source:?}");
    }
}

#[test]
fn the_state_marker_does_not_require_spaces() {
    for source in ["[*]-->Idle\n", "Idle-->[*]\n", "[*]\t--> Idle\n"] {
        let detected = detect_type_with_confidence(source);
        assert_eq!(detected.diagram_type, DiagramType::State, "{source:?}");
    }
}

#[test]
fn a_bracketed_star_label_alone_is_not_a_state_diagram() {
    let detected = detect_type_with_confidence("a[*]\n  b[Plain]\n");
    assert_ne!(detected.diagram_type, DiagramType::State);
}

#[test]
fn a_flowchart_with_a_style_colon_is_not_a_sequence_diagram() {
    for source in [
        "a --> b\n  style a fill:#f00\n",
        "a[start] --> b[step: two]\n",
        "a[a->b] --> c\n  style a fill:#f00\n",
    ] {
        let detected = detect_type_with_confidence(source);
        assert_eq!(detected.diagram_type, DiagramType::Flowchart, "{source:?}");
    }
}

#[test]
fn the_unimplemented_type_message_names_a_spelling_mermaid_accepts() {
    for (source, expected) in [
        ("radar-beta\n  Item\n", "radar-beta"),
        ("radar\n  Item\n", "radar-beta"),
        ("venn-beta\n  Item\n", "venn-beta"),
        ("wardley-beta\n  Item\n", "wardley-beta"),
        ("treeView-beta\n  Item\n", "treeView-beta"),
        ("treemap\n  Item\n", "treemap"),
        ("ishikawa\n  Item\n", "ishikawa"),
    ] {
        let detected = detect_type_with_confidence(source);
        assert!(
            detected.warnings.iter().any(|w| w.contains(expected)),
            "{source:?} should name {expected:?}; warnings: {:?}",
            detected.warnings
        );
    }
}

#[test]
fn a_beta_only_type_is_never_named_by_its_bare_spelling() {
    let detected = detect_type_with_confidence("radar\n  Item\n");
    assert!(!detected.warnings.iter().any(|w| w.contains("'radar'")));
}

#[test]
fn sequence_separator_needs_arrow_then_colon_on_one_line() {
    assert!(has_sequence_message_separator(&chars("a->b: hi")));
    assert!(!has_sequence_message_separator(&chars("a --> b\nstyle a fill:#f00")));
    assert!(!has_sequence_message_separator(&chars("a[x->y: z] --> b")));
}
