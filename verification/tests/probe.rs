#[test]
fn probe_is_inert() {
    assert!(fm_parser::parse("flowchart LR\n  A\n").ir.nodes.len() == 1);
}
