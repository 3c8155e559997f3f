//! The entry points: detect what kind of document the input is and parse it with the matching
//! parser.
use vstd::prelude::*;

use crate::builder::IrBuilder;
use crate::detect::{
    DetectedType, DetectionMethod, DiagramType, ParserConfig, default_config,
    detect_type_with_confidence, detect_type_with_confidence_and_config, diagram_type_name,
    spec_detect,
};
use crate::diagrams::{
    chain_links, chained, class_edges, edgeless, has_line_parser, line_sum, mindmap_edges, named_nodes, packet_edges,
    parse_diagram_lines,
    requirement_line_fn_hi, requirement_line_fn_lo, sequence_edges, state_line_fn_hi,
    state_line_fn_lo,
};
use crate::dot_parse::parse_dot;
use crate::er::{er_line_fn_hi, er_line_fn_lo};
use crate::flowchart::{all_edges_from, parse_flowchart, plain_edges_from};
use crate::format::MermaidFormatComplement;
use crate::ir::{MermaidDiagramIr, MermaidParseMode, ParseResult};
use crate::text::{chars_of, owned, push_str, string_from_chars, trim, trim_window};

verus! {

/// The warning that says how a document of type `t` was parsed when no parser of its own exists:
/// best-effort as a flowchart.
pub open spec fn fallback_note(t: DiagramType) -> Option<Seq<char>> {
    if t == DiagramType::Unknown {
        Some("Unable to detect diagram type; using best-effort flowchart parsing"@)
    } else if t == DiagramType::Flowchart || has_line_parser(t) {
        None
    } else {
        Some(
            "Diagram type '"@ + diagram_type_name(t)
                + "' is not fully supported yet; using best-effort flowchart parsing"@,
        )
    }
}

/// The edge count of a document read as a flowchart lies between the edges of its plain lines
/// and the edges of all its lines (see [`plain_edges_from`] and [`all_edges_from`]).
pub open spec fn flowchart_edge_bounds(input: Seq<char>, n: nat) -> bool {
    plain_edges_from(input, 0) <= n <= all_edges_from(input, 0)
}

/// What is known of the edge count `n` of `input` parsed as a diagram of type `t`: bounds for a
/// document read as a flowchart, the exact count for sequence, class, packet and mindmap diagrams
/// (none for pie, quadrant and Gantt charts, one link between consecutive journey steps or
/// timeline events), and bounds for state, entity-relationship and requirement diagrams. Git
/// graphs are left open.
pub open spec fn edge_count_ok(t: DiagramType, input: Seq<char>, n: nat) -> bool {
    if !has_line_parser(t) {
        flowchart_edge_bounds(input, n)
    } else if t == DiagramType::Sequence {
        n == sequence_edges(input)
    } else if t == DiagramType::Class {
        n == class_edges(input)
    } else if t == DiagramType::State {
        line_sum(input, 0, state_line_fn_lo()) <= n <= line_sum(input, 0, state_line_fn_hi())
    } else if t == DiagramType::PacketBeta {
        n == packet_edges(input)
    } else if t == DiagramType::Er {
        line_sum(input, 0, er_line_fn_lo()) <= n <= line_sum(input, 0, er_line_fn_hi())
    } else if t == DiagramType::Requirement {
        line_sum(input, 0, requirement_line_fn_lo()) <= n <= line_sum(input, 0, requirement_line_fn_hi())
    } else if edgeless(t) {
        n == 0
    } else if chained(t) {
        n == chain_links(named_nodes(t, input).len())
    } else if t == DiagramType::Mindmap {
        n == mindmap_edges(input, 0, None)
    } else {
        true
    }
}

/// Every node that a line of `input`, parsed as a diagram of type `t`, names (see
/// [`crate::diagrams::named_node_fn`]: pie slices, quadrant points, Gantt tasks, journey steps,
/// timeline events and mindmap nodes) is a node of `ir`.
pub open spec fn named_nodes_present(t: DiagramType, input: Seq<char>, ir: MermaidDiagramIr) -> bool {
    has_line_parser(t) ==> forall|k: int|
        0 <= k < named_nodes(t, input).len() ==> ir.has_node(#[trigger] named_nodes(t, input)[k])
}

/// The warning of a document that yields no node and no edge.
pub open spec fn empty_parse_warning() -> Seq<char> {
    "No parseable nodes or edges were found"@
}

/// The warning of an input that is empty or only whitespace.
pub open spec fn empty_input_warning() -> Seq<char> {
    "Input was empty; returning empty IR"@
}

fn is_line_kind(t: DiagramType) -> (r: bool)
    ensures
        r == has_line_parser(t),
{
    match t {
        DiagramType::Sequence | DiagramType::Class | DiagramType::State | DiagramType::Requirement
        | DiagramType::Mindmap | DiagramType::Journey | DiagramType::Timeline | DiagramType::PacketBeta
        | DiagramType::Gantt | DiagramType::Pie | DiagramType::QuadrantChart | DiagramType::Er
        | DiagramType::GitGraph => true,
        _ => false,
    }
}

/// Parse `input` as the kind of document `detection` names, keeping its warnings first.
fn parse_detected(input: &str, detection: &DetectedType, config: &ParserConfig) -> (r: ParseResult)
    ensures
        r.ir.wf(),
        r.format_complement.records_nothing(),
        r.ir.diagram_type == detection.diagram_type,
        r.confidence_hundredths == detection.confidence_hundredths,
        r.detection_method == detection.method,
        detection.warnings@.len() <= r.warnings@.len(),
        forall|i: int| 0 <= i < detection.warnings@.len() ==> #[trigger] r.warnings@[i]@ == detection.warnings@[i]@,
        fallback_note(detection.diagram_type) matches Some(m) ==> exists|k: int|
            detection.warnings@.len() <= k < r.warnings@.len() && #[trigger] r.warnings@[k]@ == m,
        r.ir.nodes@.len() == 0 && r.ir.edges@.len() == 0 ==> r.warnings@.len() > 0
            && r.warnings@.last()@ == empty_parse_warning(),
        edge_count_ok(detection.diagram_type, input@, r.ir.edges@.len()),
        named_nodes_present(detection.diagram_type, input@, r.ir),
{
    let t = detection.diagram_type;
    let mut b = IrBuilder::new(t);
    let mut i: usize = 0;
    while i < detection.warnings.len()
        invariant
            i <= detection.warnings@.len(),
            b.wf(),
            b.ir.diagram_type == t,
            b.warnings@.len() == i,
            forall|k: int| 0 <= k < i ==> #[trigger] b.warnings@[k]@ == detection.warnings@[k]@,
            b.ir.edges@.len() == 0,
        decreases detection.warnings@.len() - i,
    {
        b.add_warning(detection.warnings[i].clone());
        i = i + 1;
    }
    let s = chars_of(input);
    let ghost bd = b;
    assert(b.ir.edges@.len() == 0);
    crate::init::parse_init_directives(&s, &mut b);
    let ghost b0 = b;
    if t == DiagramType::Flowchart {
        parse_flowchart(&s, &mut b, config);
    } else if is_line_kind(t) {
        parse_diagram_lines(&s, &mut b, t);
    } else {
        let mut note: Vec<char> = Vec::new();
        if t == DiagramType::Unknown {
            push_str(&mut note, "Unable to detect diagram type; using best-effort flowchart parsing");
        } else {
            push_str(&mut note, "Diagram type '");
            push_str(&mut note, t.as_str());
            push_str(&mut note, "' is not fully supported yet; using best-effort flowchart parsing");
        }
        b.add_warning(string_from_chars(&note));
        let ghost b1 = b;
        parse_flowchart(&s, &mut b, config);
        proof {
            assert(b.warnings@[b0.warnings@.len() as int] == b1.warnings@[b0.warnings@.len() as int]);
        }
    }
    let ghost b2 = b;
    if b.node_count() == 0 && b.edge_count() == 0 {
        b.add_warning(owned("No parseable nodes or edges were found"));
    }
    proof {
        assert forall|k: int| 0 <= k < detection.warnings@.len() implies #[trigger] b.warnings@[k]@
            == detection.warnings@[k]@ by {
            assert(b.warnings@[k] == b2.warnings@[k]);
            assert(b2.warnings@[k] == b0.warnings@[k]);
            assert(b0.warnings@[k] == bd.warnings@[k]);
        }
        if fallback_note(t) is Some {
            let k = b0.warnings@.len() as int;
            assert(b.warnings@[k] == b2.warnings@[k]);
            assert(b.warnings@[k]@ == fallback_note(t)->0);
        }
    }
    b.finish(detection.confidence_hundredths, detection.method)
}

/// Parse a Mermaid document whose kind was already detected; the result carries the detection's
/// confidence and method, and its warnings first.
pub fn parse_mermaid_with_detection(input: &str, detection: DetectedType) -> (r: ParseResult)
    ensures
        r.ir.wf(),
        r.format_complement.records_nothing(),
        r.ir.diagram_type == detection.diagram_type,
        r.ir.parse_mode == MermaidParseMode::Compat,
        r.confidence_hundredths == detection.confidence_hundredths,
        r.detection_method == detection.method,
        detection.warnings@.len() <= r.warnings@.len(),
        forall|i: int| 0 <= i < detection.warnings@.len() ==> #[trigger] r.warnings@[i]@ == detection.warnings@[i]@,
        fallback_note(detection.diagram_type) matches Some(m) ==> exists|k: int|
            detection.warnings@.len() <= k < r.warnings@.len() && #[trigger] r.warnings@[k]@ == m,
        r.ir.nodes@.len() == 0 && r.ir.edges@.len() == 0 ==> r.warnings@.len() > 0
            && r.warnings@.last()@ == empty_parse_warning(),
        edge_count_ok(detection.diagram_type, input@, r.ir.edges@.len()),
        named_nodes_present(detection.diagram_type, input@, r.ir),
{
    let config = ParserConfig::default();
    let mut r = parse_detected(input, &detection, &config);
    r.ir.parse_mode = MermaidParseMode::Compat;
    r
}

/// Detect the kind of a Mermaid document under the default settings and parse it.
pub fn parse_mermaid(input: &str) -> (r: ParseResult)
    ensures
        r.ir.wf(),
        r.format_complement.records_nothing(),
        r.ir.diagram_type == spec_detect(input@, default_config()).diagram_type,
        r.confidence_hundredths == spec_detect(input@, default_config()).confidence,
        r.detection_method == spec_detect(input@, default_config()).method,
        edge_count_ok(spec_detect(input@, default_config()).diagram_type, input@, r.ir.edges@.len()),
        named_nodes_present(spec_detect(input@, default_config()).diagram_type, input@, r.ir),
{
    let detection = detect_type_with_confidence(input);
    parse_mermaid_with_detection(input, detection)
}

/// The diagram type a parse of a non-empty input reports: the detected one, except that strict
/// parsing does not accept a fallback guess and reports the type unknown.
pub open spec fn parsed_type(input: Seq<char>, mode: MermaidParseMode, config: ParserConfig) -> DiagramType {
    let d = spec_detect(input, config);
    if d.method == DetectionMethod::DotFormat {
        DiagramType::Flowchart
    } else if mode == MermaidParseMode::Strict && d.method == DetectionMethod::Fallback {
        DiagramType::Unknown
    } else {
        d.diagram_type
    }
}

/// What a parse of `input` under `parse_mode` and `config` gives (see
/// [`parse_with_mode_and_config`]).
pub open spec fn parse_contract(input: Seq<char>, parse_mode: MermaidParseMode, config: ParserConfig, r: ParseResult) -> bool {
    &&& (r.ir.wf())
    &&& (r.format_complement.records_nothing())
    &&& (r.ir.parse_mode == parse_mode)
    &&& (trim(input).len() == 0 ==> {
            &&& (MermaidDiagramIr { parse_mode: MermaidParseMode::Compat, ..r.ir }).is_fresh(DiagramType::Unknown)
            &&& r.warnings@.len() == 1
            &&& r.warnings@[0]@ == empty_input_warning()
            &&& r.confidence_hundredths == 0
            &&& r.detection_method == DetectionMethod::Fallback
        })
    &&& (trim(input).len() > 0 ==> {
            &&& r.ir.diagram_type == parsed_type(input, parse_mode, config)
            &&& r.confidence_hundredths == spec_detect(input, config).confidence
            &&& r.detection_method == spec_detect(input, config).method
        })
    &&& (trim(input).len() > 0 && spec_detect(input, config).method != DetectionMethod::DotFormat ==> {
            let w = spec_detect(input, config).warnings;
            &&& w.len() <= r.warnings@.len()
            &&& forall|i: int| 0 <= i < w.len() ==> #[trigger] r.warnings@[i]@ == w[i]
        })
    &&& (trim(input).len() > 0 && spec_detect(input, config).method != DetectionMethod::DotFormat
            ==> edge_count_ok(parsed_type(input, parse_mode, config), input, r.ir.edges@.len())
            && named_nodes_present(parsed_type(input, parse_mode, config), input, r.ir))
    &&& (trim(input).len() > 0 && spec_detect(input, config).method == DetectionMethod::DotFormat
            ==> crate::dot_parse::dot_edges_ok(input, r.ir))
}

/// Parse `input` under `parse_mode` and `config`. An input that is empty or only whitespace gives
/// an empty diagram of unknown type with one warning, confidence 0 and the fallback method; DOT
/// goes to the DOT parser, and anything else to the parser of its detected kind. The result
/// carries the detection's confidence and method and the requested parse mode.
pub fn parse_with_mode_and_config(input: &str, parse_mode: MermaidParseMode, config: &ParserConfig) -> (r:
    ParseResult)
    ensures
        parse_contract(input@, parse_mode, *config, r),
{
    let s = chars_of(input);
    let n = s.len();
    assert(s@.subrange(0, n as int) =~= s@);
    let (ta, tb) = trim_window(&s, 0, n);
    if ta == tb {
        let mut ir = MermaidDiagramIr::empty(DiagramType::Unknown);
        ir.parse_mode = parse_mode;
        let mut warnings: Vec<String> = Vec::new();
        warnings.push(owned("Input was empty; returning empty IR"));
        return ParseResult {
            ir,
            warnings,
            confidence_hundredths: 0,
            detection_method: DetectionMethod::Fallback,
            format_complement: MermaidFormatComplement::default(),
        };
    }
    let mut detection = detect_type_with_confidence_and_config(input, config);
    if parse_mode == MermaidParseMode::Strict && detection.method == DetectionMethod::Fallback {
        detection.diagram_type = DiagramType::Unknown;
    }
    if detection.method == DetectionMethod::DotFormat {
        let mut r = parse_dot(input);
        r.confidence_hundredths = detection.confidence_hundredths;
        r.detection_method = detection.method;
        let ghost ir0 = r.ir;
        r.ir.parse_mode = parse_mode;
        proof {
            assert forall|k: int| 0 <= k < r.ir.edges@.len() implies crate::dot_parse::edge_is(
                r.ir,
                #[trigger] r.ir.edges@[k],
                crate::dot_parse::dot_document_edges(input@)[k],
            ) by {
                assert(crate::dot_parse::edge_is(ir0, ir0.edges@[k], crate::dot_parse::dot_document_edges(input@)[k]));
            }
        }
        return r;
    }
    let mut r = parse_detected(input, &detection, config);
    r.ir.parse_mode = parse_mode;
    r
}

/// [`parse_with_mode_and_config`] with the default settings.
pub fn parse_with_mode(input: &str, parse_mode: MermaidParseMode) -> (r: ParseResult)
    ensures
        r.ir.wf(),
        r.format_complement.records_nothing(),
        r.ir.parse_mode == parse_mode,
        trim(input@).len() == 0 ==> r.warnings@.len() == 1 && r.warnings@[0]@ == empty_input_warning()
            && r.ir.diagram_type == DiagramType::Unknown && r.confidence_hundredths == 0
            && r.detection_method == DetectionMethod::Fallback && r.ir.nodes@.len() == 0,
        trim(input@).len() > 0 ==> {
            &&& r.ir.diagram_type == parsed_type(input@, parse_mode, default_config())
            &&& r.confidence_hundredths == spec_detect(input@, default_config()).confidence
            &&& r.detection_method == spec_detect(input@, default_config()).method
        },
        trim(input@).len() > 0 && spec_detect(input@, default_config()).method != DetectionMethod::DotFormat
            ==> edge_count_ok(parsed_type(input@, parse_mode, default_config()), input@, r.ir.edges@.len())
            && named_nodes_present(parsed_type(input@, parse_mode, default_config()), input@, r.ir),
        trim(input@).len() > 0 && spec_detect(input@, default_config()).method == DetectionMethod::DotFormat
            ==> crate::dot_parse::dot_edges_ok(input@, r.ir),
{
    let config = ParserConfig::default();
    parse_with_mode_and_config(input, parse_mode, &config)
}

/// Parse `input` leniently with the default settings.
pub fn parse(input: &str) -> (r: ParseResult)
    ensures
        r.ir.wf(),
        r.format_complement.records_nothing(),
        r.ir.parse_mode == MermaidParseMode::Compat,
        trim(input@).len() == 0 ==> r.warnings@.len() == 1 && r.warnings@[0]@ == empty_input_warning()
            && r.ir.diagram_type == DiagramType::Unknown && r.confidence_hundredths == 0
            && r.detection_method == DetectionMethod::Fallback && r.ir.nodes@.len() == 0,
        trim(input@).len() > 0 ==> {
            &&& r.ir.diagram_type == parsed_type(input@, MermaidParseMode::Compat, default_config())
            &&& r.confidence_hundredths == spec_detect(input@, default_config()).confidence
            &&& r.detection_method == spec_detect(input@, default_config()).method
        },
        trim(input@).len() > 0 && spec_detect(input@, default_config()).method != DetectionMethod::DotFormat
            ==> edge_count_ok(parsed_type(input@, MermaidParseMode::Compat, default_config()), input@, r.ir.edges@.len())
            && named_nodes_present(parsed_type(input@, MermaidParseMode::Compat, default_config()), input@, r.ir),
        trim(input@).len() > 0 && spec_detect(input@, default_config()).method == DetectionMethod::DotFormat
            ==> crate::dot_parse::dot_edges_ok(input@, r.ir),
{
    let config = ParserConfig::default();
    parse_with_mode_and_config(input, MermaidParseMode::Compat, &config)
}

} // verus!
