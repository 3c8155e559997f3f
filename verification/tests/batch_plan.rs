use fm_parser::{
    parse, FlowchartBatchParsePlan, FlowchartBatchParseScratch, FlowchartBatchParseStats, MermaidParseMode,
    ParserConfig,
};

fn shared_prefix() -> String {
    "flowchart LR\n  subgraph Shared[\"Shared ingestion platform\"]\n    S0[\"Receive & validate events\"]\n    S1[\"Normalize payload safely\"]\n    S2[\"Publish canonical records\"]\n    S0-->S1\n    S1-->S2\n  end\n"
    .to_owned()
}

#[test]
fn batch_plan_reuses_complete_prefix_subgraphs_exactly() {
    let prefix = shared_prefix();
    let inputs = vec![
        format!("{prefix}  S2-->A[\"Analytics consumer\"]"),
        format!("{prefix}  S2-->B[\"Billing consumer\"]"),
        "flowchart TD\nX[Independent]-->Y[Diagram]".to_owned(),
    ];
    let plan = FlowchartBatchParsePlan::new(&inputs, MermaidParseMode::Compat, &ParserConfig::default());
    assert_eq!(plan.stats().shared_prefix_groups, 1);
    assert_eq!(plan.stats().shared_prefix_inputs, 2);
    assert_eq!(plan.stats().reused_prefix_parses, 1);
    assert_eq!(plan.stats().reused_prefix_bytes, prefix.len());
    assert_eq!(plan.reusable_prefix_group(0), Some(0));
    assert_eq!(plan.reusable_prefix_group(1), Some(0));
    assert_eq!(plan.reusable_prefix_group(2), None);
    for (index, input) in inputs.iter().enumerate() {
        assert_eq!(plan.parse(index, input), parse(input));
    }
}

#[test]
fn batch_plan_reuses_common_early_subgraph_when_later_blocks_diverge() {
    let shared = shared_prefix();
    let inputs = vec![
        format!("{shared}  subgraph Analytics\n    A0[Warehouse]-->A1[Dashboard]\n  end\n  S2-->A0"),
        format!("{shared}  subgraph Billing\n    B0[Ledger]-->B1[Invoice]\n  end\n  S2-->B0"),
    ];
    let plan = FlowchartBatchParsePlan::new(&inputs, MermaidParseMode::Compat, &ParserConfig::default());
    assert_eq!(plan.stats().shared_prefix_groups, 1);
    assert_eq!(plan.stats().shared_prefix_inputs, 2);
    assert_eq!(plan.stats().reused_prefix_parses, 1);
    assert_eq!(plan.stats().reused_prefix_bytes, shared.len());
    for (index, input) in inputs.iter().enumerate() {
        assert_eq!(plan.parse(index, input), parse(input));
    }
}

#[test]
fn batch_plan_falls_back_when_global_directives_cross_the_prefix_boundary() {
    let prefix = "flowchart LR\n  subgraph Shared[\"Shared platform with enough source to clear the cache floor\"]\n    S0[Receive]-->S1[Normalize]\n    S1-->S2[Publish]\n  end\n";
    let inputs = vec![
        format!("{prefix}  style S0 fill:#fff\n  S2-->A"),
        format!("{prefix}  style S0 fill:#fff\n  S2-->B"),
    ];
    let plan = FlowchartBatchParsePlan::new(&inputs, MermaidParseMode::Compat, &ParserConfig::default());
    assert_eq!(plan.stats(), FlowchartBatchParseStats::default());
    for (index, input) in inputs.iter().enumerate() {
        assert_eq!(plan.parse(index, input), parse(input));
    }
}

#[test]
fn a_plan_groups_only_inputs_that_share_their_leading_blocks() {
    let a = "flowchart LR\n  subgraph One\n    a\n  end\n  a-->x";
    let b = "flowchart LR\n  subgraph Two\n    b\n  end\n  b-->y";
    let c = "flowchart LR\n  subgraph One\n    a\n  end\n  a-->z";
    let inputs = vec![a.to_owned(), b.to_owned(), c.to_owned()];
    let plan = FlowchartBatchParsePlan::new(&inputs, MermaidParseMode::Compat, &ParserConfig::default());
    assert_eq!(plan.stats().shared_prefix_groups, 1);
    assert_eq!(plan.stats().shared_prefix_inputs, 2);
    assert_eq!(plan.reusable_prefix_group(0), Some(0));
    assert_eq!(plan.reusable_prefix_group(1), None);
    assert_eq!(plan.reusable_prefix_group(2), Some(0));
    assert_eq!(plan.reusable_prefix_group(7), None);
}

#[test]
fn a_scratch_parse_hands_out_the_ordinary_parse() {
    let prefix = shared_prefix();
    let inputs = vec![
        format!("{prefix}  S2-->A[\"Analytics consumer\"]"),
        format!("{prefix}  S2-->B[\"Billing consumer\"]"),
    ];
    let plan = FlowchartBatchParsePlan::new(&inputs, MermaidParseMode::Compat, &ParserConfig::default());
    let mut scratch = FlowchartBatchParseScratch::default();
    for (index, input) in inputs.iter().enumerate() {
        let expected = parse(input);
        let seen = plan.with_parse_scratch(index, input, &mut scratch, |actual| {
            assert_eq!(actual.ir, &expected.ir);
            assert_eq!(actual.warnings, expected.warnings.as_slice());
            assert_eq!(actual.confidence_hundredths, expected.confidence_hundredths);
            assert_eq!(actual.detection_method, expected.detection_method);
            actual.ir.edges.len()
        });
        assert_eq!(seen, expected.ir.edges.len());
    }
}

#[test]
fn whole_batch_prefix_counts_every_input_and_its_bytes() {
    let prefix = "flowchart LR\n  subgraph S\n    a\n  end\n";
    let inputs = vec![
        format!("{prefix}  a-->x"),
        format!("{prefix}  a-->y"),
        format!("{prefix}  a-->z"),
    ];
    let plan = FlowchartBatchParsePlan::new(&inputs, MermaidParseMode::Compat, &ParserConfig::default());
    assert_eq!(plan.stats().shared_prefix_groups, 1);
    assert_eq!(plan.stats().shared_prefix_inputs, 3);
    assert_eq!(plan.stats().reused_prefix_parses, 2);
    assert_eq!(plan.stats().reused_prefix_bytes, prefix.len() * 2);
    for index in 0..3 {
        assert_eq!(plan.reusable_prefix_group(index), Some(0));
    }
}

#[test]
fn batch_scratch_restores_full_prefix_after_a_mutating_suffix() {
    let shared = "flowchart LR\n  subgraph Shared[\"Shared ingestion platform\"]\n    S0[\"Receive events\"]\n    S1[\"Publish records\"]\n    S0-->S1\n  end\n";
    let inputs = vec![
        format!("{shared}  S0((Changed shape))-->A"),
        format!("{shared}  S1-->B[\"Independent suffix\"]"),
    ];
    let plan = FlowchartBatchParsePlan::new(&inputs, MermaidParseMode::Compat, &ParserConfig::default());
    let mut scratch = FlowchartBatchParseScratch::default();

    plan.with_parse_scratch(0, &inputs[0], &mut scratch, |actual| {
        assert_eq!(actual.ir, &parse(&inputs[0]).ir);
        assert!(actual.reusable_prefix.is_none());
    });
    plan.with_parse_scratch(1, &inputs[1], &mut scratch, |actual| {
        assert_eq!(actual.ir, &parse(&inputs[1]).ir);
        assert!(actual.reusable_prefix.is_some());
    });
}

#[test]
fn batch_scratch_invalidates_every_flowchart_prefix_mutation_family() {
    let shared = "flowchart LR\n  subgraph Shared[\"Shared ingestion platform\"]\n    S0[\"Receive events\"]\n    S1[\"Publish records\"]\n    S0-->S1\n  end\n";
    let inputs = vec![
        format!("{shared}  direction TB\n  S1-->A"),
        format!("{shared}  class S0 hot\n  S1-->B"),
        format!("{shared}  click S0 \"https://example.com\"\n  S1-->C"),
        format!("{shared}  subgraph Shared[\"Shared ingestion platform\"]\n    S1-->D\n  end"),
    ];
    let plan = FlowchartBatchParsePlan::new(&inputs, MermaidParseMode::Compat, &ParserConfig::default());
    let mut scratch = FlowchartBatchParseScratch::default();

    for (index, input) in inputs.iter().enumerate() {
        plan.with_parse_scratch(index, input, &mut scratch, |actual| {
            assert_eq!(actual.ir, &parse(input).ir);
            assert!(actual.reusable_prefix.is_none());
        });
    }
}

#[test]
fn a_certified_prefix_names_the_shared_text_and_what_it_yields() {
    let prefix = shared_prefix();
    let inputs = vec![
        format!("{prefix}  S2-->A[\"Analytics consumer\"]"),
        format!("{prefix}  S2-->B[\"Billing consumer\"]"),
    ];
    let plan = FlowchartBatchParsePlan::new(&inputs, MermaidParseMode::Compat, &ParserConfig::default());
    let mut scratch = FlowchartBatchParseScratch::default();
    let alone = parse(&prefix);
    for (index, input) in inputs.iter().enumerate() {
        plan.with_parse_scratch(index, input, &mut scratch, |actual| {
            let c = actual.reusable_prefix.expect("the grouped input reuses its prefix");
            assert_eq!(c.identity, prefix);
            assert_eq!(c.node_count, alone.ir.nodes.len());
            assert_eq!(c.edge_count, alone.ir.edges.len());
            assert_eq!(c.node_count, 3);
            assert_eq!(c.edge_count, 2);
        });
    }
}
