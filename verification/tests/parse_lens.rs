use fm_parser::{FlowchartParseLens, FlowchartParseLensError, IrNode, IrNodeId, MermaidDiagramIr, NodeShape, Span};

fn relabel(ir: &MermaidDiagramIr, from: &str, to: &str) -> MermaidDiagramIr {
    let mut edited = ir.clone();
    let label = edited.labels.iter_mut().find(|l| l.text == from).expect("label should exist");
    label.text = to.to_string();
    edited
}

#[test]
fn a_changed_node_label_is_replaced_in_place() {
    let source = "%% comment\nflowchart LR\n  A[Alpha] --> B[Beta]\n";
    let lens = FlowchartParseLens::parse(source).expect("a flowchart");
    assert_eq!(lens.original_source(), source);
    let edited = relabel(lens.ir(), "Alpha", "Gamma");
    assert_eq!(lens.put(&edited).unwrap(), "%% comment\nflowchart LR\n  A[Gamma] --> B[Beta]\n");
}

#[test]
fn the_unedited_diagram_gives_back_the_source() {
    let source = "flowchart TD\r\n  A[\"Alpha\"] -->|go| B(Beta)  \r\n\r\n%% trailing\r\n";
    let lens = FlowchartParseLens::parse(source).expect("a flowchart");
    assert_eq!(lens.put(&lens.ir().clone()).unwrap(), source);
}

#[test]
fn line_endings_quotes_and_other_labels_are_kept() {
    let source = "flowchart TD\r\n  A[\"Alpha\"] --> B(Beta)\r\n  C{Gate}\r\n";
    let lens = FlowchartParseLens::parse(source).expect("a flowchart");
    let edited = relabel(&relabel(lens.ir(), "Beta", "Omega"), "Gate", "Door");
    assert_eq!(lens.put(&edited).unwrap(), "flowchart TD\r\n  A[\"Alpha\"] --> B(Omega)\r\n  C{Door}\r\n");
}

#[test]
fn a_label_shared_by_two_nodes_is_replaced_for_both() {
    let source = "flowchart TD\nA[Same]\nB[Same]\n";
    let lens = FlowchartParseLens::parse(source).expect("a flowchart");
    let edited = relabel(lens.ir(), "Same", "Other");
    assert_eq!(lens.put(&edited).unwrap(), "flowchart TD\nA[Other]\nB[Other]\n");
}

#[test]
fn a_document_that_is_not_a_flowchart_is_refused() {
    assert_eq!(
        FlowchartParseLens::parse("sequenceDiagram\nAlice->>Bob: hi").err(),
        Some(FlowchartParseLensError::NotFlowchart)
    );
    assert_eq!(FlowchartParseLens::parse("   ").err(), Some(FlowchartParseLensError::NotFlowchart));
    let lens = FlowchartParseLens::parse("flowchart LR\nA --> B").unwrap();
    let mut edited = lens.ir().clone();
    edited.diagram_type = fm_parser::DiagramType::Sequence;
    assert_eq!(lens.put(&edited), Err(FlowchartParseLensError::NotFlowchart));
}

#[test]
fn structural_edits_are_refused() {
    let lens = FlowchartParseLens::parse("flowchart LR\nA[Alpha] --> B\n").unwrap();
    let mut renamed = lens.ir().clone();
    renamed.nodes[0].id = "Z".to_string();
    assert_eq!(lens.put(&renamed), Err(FlowchartParseLensError::UnsupportedIrChange));
    let mut grown = lens.ir().clone();
    grown.nodes.push(IrNode {
        id: "C".to_string(),
        label: None,
        shape: NodeShape::Rect,
        classes: Vec::new(),
        members: Vec::new(),
        span: Span::at_line(2, 3),
        implicit: false,
    });
    assert_eq!(lens.put(&grown), Err(FlowchartParseLensError::UnsupportedIrChange));
    let mut relinked = lens.ir().clone();
    relinked.edges[0].to = fm_parser::IrEndpoint::Node(IrNodeId(0));
    assert_eq!(lens.put(&relinked), Err(FlowchartParseLensError::UnsupportedIrChange));
}

#[test]
fn a_changed_edge_label_is_refused() {
    let lens = FlowchartParseLens::parse("flowchart LR\nA -->|go| B\n").unwrap();
    let edited = relabel(lens.ir(), "go", "stop");
    assert_eq!(lens.put(&edited), Err(FlowchartParseLensError::UnsupportedIrChange));
}

#[test]
fn a_label_written_away_from_the_first_mention_is_reported_missing() {
    let lens = FlowchartParseLens::parse("flowchart LR\nA --> B\nA[Alpha]\n").unwrap();
    let edited = relabel(lens.ir(), "Alpha", "Gamma");
    assert_eq!(lens.put(&edited), Err(FlowchartParseLensError::MissingSourceLabel("A".to_string())));
}

#[test]
fn lens_errors_have_messages() {
    assert_eq!(FlowchartParseLensError::NotFlowchart.message(), "ParseLens currently supports flowcharts only");
    assert_eq!(
        FlowchartParseLensError::UnsupportedIrChange.message(),
        "ParseLens can re-emit node-label text changes only; graph structure is unchanged"
    );
    assert_eq!(
        FlowchartParseLensError::MissingSourceLabel("A".to_string()).message(),
        "could not locate the source label for flowchart node 'A'"
    );
}
