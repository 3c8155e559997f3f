use fm_parser::{DetectionMethod, detect_type_with_confidence, parse};

const PLAIN: &str = "digraph G {\n  a -> b\n}\n";

fn with_tail(tail: &str) -> String {
    format!("{PLAIN}{tail}")
}

#[test]
fn a_trailing_directive_does_not_change_the_detected_format() {
    let baseline = detect_type_with_confidence(PLAIN);
    assert_eq!(baseline.method, DetectionMethod::DotFormat);
    for tail in [
        "%%{deck: {slides: [{id: 's', nodes: ['a']}]}}%%\n",
        "%%{init: {'theme':'dark'}}%%\n",
        "%%{init: {'theme':'dark'}}%%\n%%{deck: {slides: []}}%%\n",
    ] {
        let detected = detect_type_with_confidence(&with_tail(tail));
        assert_eq!(detected.method, DetectionMethod::DotFormat, "{tail:?}");
    }
}

#[test]
fn a_trailing_directive_does_not_destroy_the_graph() {
    let baseline = parse(PLAIN);
    assert_eq!(baseline.ir.nodes.len(), 2, "the baseline graph is wrong");
    assert_eq!(baseline.ir.edges.len(), 1, "the baseline graph is wrong");

    for tail in [
        "%%{deck: {slides: [{id: 's', nodes: ['a']}]}}%%\n",
        "%%{init: {'theme':'dark'}}%%\n",
    ] {
        let parsed = parse(&with_tail(tail));
        assert_eq!(parsed.ir.nodes.len(), baseline.ir.nodes.len(), "{tail:?}");
        assert_eq!(parsed.ir.edges.len(), baseline.ir.edges.len(), "{tail:?}");
    }
}

#[test]
fn the_directives_own_braces_do_not_become_nodes() {
    let parsed = parse(&with_tail(
        "%%{deck: {slides: [{id: 's', nodes: ['a'], title: 'T'}]}}%%\n",
    ));
    let ids: Vec<&str> = parsed.ir.nodes.iter().map(|n| n.id.as_str()).collect();
    assert_eq!(ids, vec!["a", "b"], "the directive's contents were parsed as graph nodes");
}

#[test]
fn a_document_of_only_directives_is_not_dot() {
    let detected = detect_type_with_confidence("%%{init: {'theme':'dark'}}%%\n");
    assert_ne!(detected.method, DetectionMethod::DotFormat);
}

#[test]
fn plain_dot_is_unchanged() {
    let parsed = parse(PLAIN);
    assert_eq!(parsed.detection_method, DetectionMethod::DotFormat);
    assert_eq!(parsed.ir.nodes.len(), 2);
    assert_eq!(parsed.ir.edges.len(), 1);
    let commented = parse("digraph G {\n  // an edge\n  a -> b\n}\n");
    assert_eq!(commented.ir.nodes.len(), 2);
    assert_eq!(commented.ir.edges.len(), 1);
}
