use fm_parser::dot_attrs::extract_dot_attribute_raw;
use fm_parser::looks_like_dot;

fn chars(s: &str) -> Vec<char> {
    s.chars().collect()
}

#[test]
fn detects_dot_headers() {
    assert!(looks_like_dot("digraph G { a -> b; }"));
    assert!(looks_like_dot("graph G { a -- b; }"));
    assert!(!looks_like_dot("flowchart LR\nA-->B"));
}

#[test]
fn detects_dot_headers_with_leading_comments() {
    assert!(looks_like_dot("// comment\ndigraph G { a -> b; }"));
    assert!(looks_like_dot("/* comment */\nstrict graph G { a -- b; }"));
}

#[test]
fn detects_dot_headers_without_space_before_brace() {
    assert!(looks_like_dot("digraph{ a -> b; }"));
    assert!(looks_like_dot("strict digraph{ a -> b; }"));
    assert!(looks_like_dot("graph{ a -- b; }"));
}

#[test]
fn mermaid_graph_header_with_braces_in_labels_is_not_dot() {
    assert!(!looks_like_dot(
        "graph TD\n  A[\"captures {binding} tokens\"] --> B[\"done\"]"
    ));
    assert!(!looks_like_dot("graph LR;\n  A{decision} --> B"));
    assert!(!looks_like_dot("graph\n  A{decision} --> B"));
    assert!(!looks_like_dot(
        "graph TB\n  subgraph one\n    A[\"{x}\"] --> B\n  end"
    ));
    assert!(!looks_like_dot("GRAPH TD\n  A --> B{yes?}"));
}

#[test]
fn dot_header_still_detected_with_mermaid_looking_graph_names() {
    assert!(looks_like_dot("graph TD { a -- b; }"));
    assert!(looks_like_dot("digraph LR\n{\n  a -> b;\n}"));
    assert!(looks_like_dot("strict graph\n  G\n{ a -- b; }"));
    assert!(looks_like_dot("digraph 42 { a -> b; }"));
    assert!(looks_like_dot("digraph \"name {brace}\" { a -> b; }"));
    assert!(looks_like_dot("digraph \"esc \\\" quote\" { a -> b; }"));
    assert!(looks_like_dot("digraph \"multi\" + \"part\" { a -> b; }"));
    assert!(looks_like_dot("digraph <<b>{name}</b>> { a -> b; }"));
}

#[test]
fn dot_header_rejects_keyword_fragments_and_unterminated_names() {
    assert!(!looks_like_dot("graphTD { a -- b; }"));
    assert!(!looks_like_dot("strictdigraph { a -> b; }"));
    assert!(!looks_like_dot("strict{ a -> b; }"));
    assert!(!looks_like_dot("digraph \"unterminated { a -> b; }"));
    assert!(!looks_like_dot("digraph <unterminated { a -> b; }"));
    assert!(!looks_like_dot("digraph G; { a -> b; }"));
}

#[test]
fn extract_attribute_with_spaces() {
    let attr = chars("shape = box");
    assert_eq!(extract_dot_attribute_raw(&attr, "shape"), Some(chars("box")));
    let attr2 = chars("shape= box");
    assert_eq!(extract_dot_attribute_raw(&attr2, "shape"), Some(chars("box")));
}
