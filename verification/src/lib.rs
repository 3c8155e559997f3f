//! Mermaid and DOT diagram parsing with verified contracts.
//!
//! [`parse`] detects what kind of document it is given and lowers it into a
//! [`MermaidDiagramIr`]: Graphviz DOT goes to the DOT parser, flowcharts to the flowchart parser,
//! and the other Mermaid kinds to their line parsers.
pub mod text;
pub mod dot_detect;
pub mod identifier;
pub mod detect;
pub mod heuristics;
pub mod ir;
pub mod builder;
pub mod flow_tokens;
pub mod flowchart;
pub mod dot_scan;
pub mod dot_text;
pub mod dot_attrs;
pub mod dot_stmt;
pub mod dot_style;
pub mod dot_parse;
pub mod diagrams;
pub mod er;
pub mod gitgraph;
pub mod directives;
pub mod parser;
pub mod format;
pub mod init;
pub mod ir_diff;
pub mod lens;
pub mod batch;

pub use detect::{
    DetectedType, DetectionMethod, DiagramType, ParserConfig, detect_type,
    detect_type_with_confidence, detect_type_with_confidence_and_config,
};
pub use batch::{
    FlowchartBatchParsePlan, FlowchartBatchParseRef, FlowchartBatchParseScratch, FlowchartBatchParseStats,
    FlowchartBatchPrefix,
};
pub use dot_detect::looks_like_dot;
pub use dot_parse::parse_dot;
pub use identifier::{normalize_identifier, normalize_identifier_cow};
pub use ir::{
    ArrowType, EdgeRoutingHint, GraphDirection, IrAttributeKey, IrCluster, IrConstraint, IrEdge, IrEndpoint,
    IrEntityAttribute, IrInitIssue, IrLabel, IrLabelId, IrNode, IrNodeId, IrStyleRef, IrStyleTarget,
    IrSubgraph, MermaidDiagramIr, MermaidParseMode, NodeShape, ParseResult, SpacingRequest, Span,
};
pub use lens::{FlowchartParseLens, FlowchartParseLensError};
pub use parser::{
    parse, parse_mermaid, parse_mermaid_with_detection, parse_with_mode,
    parse_with_mode_and_config,
};
pub use format::{
    MermaidCommentSpan, MermaidDirectiveSpan, MermaidFormatComplement, MermaidLineEndingStyle,
    MermaidQuoteStyle, MermaidQuotedSpan, MermaidTextRange, MermaidWhitespaceKind,
    MermaidWhitespaceSpan, SourcePosition, SourceSpan, capture_format_complement,
};
