//! Diagram type detection: exact and fuzzy header keywords, content heuristics and DOT.
use vstd::prelude::*;

use crate::dot_detect::{looks_like_dot, spec_looks_like_dot};
use crate::heuristics::{content_heuristics, heuristic_text, heuristic_text_exec, spec_content_heuristics};
use crate::text::{
    ascii_lower_char, ascii_lower_window, char_eq_ci, char_is_whitespace, chars_of, ends_with,
    idx_of, index_of_char, is_ws, lemma_sub_skip, matches_at_ci, occurs_at_ci, owned, push_str,
    starts_with, string_from_chars, trim, trim_window,
};

verus! {

/// The diagram families this parser knows.
#[derive(Debug, Clone, Copy, PartialEq, Eq, Structural)]
pub enum DiagramType {
    Flowchart,
    Sequence,
    Class,
    State,
    Gantt,
    Er,
    Mindmap,
    Pie,
    GitGraph,
    Journey,
    Requirement,
    Timeline,
    QuadrantChart,
    Sankey,
    XyChart,
    BlockBeta,
    PacketBeta,
    ArchitectureBeta,
    C4Context,
    C4Container,
    C4Component,
    C4Dynamic,
    C4Deployment,
    Kanban,
    Unknown,
}

/// The name of a diagram type, as diagnostics write it.
pub open spec fn diagram_type_name(t: DiagramType) -> Seq<char> {
    match t {
        DiagramType::Flowchart => "flowchart"@,
        DiagramType::Sequence => "sequence"@,
        DiagramType::Class => "class"@,
        DiagramType::State => "state"@,
        DiagramType::Gantt => "gantt"@,
        DiagramType::Er => "er"@,
        DiagramType::Mindmap => "mindmap"@,
        DiagramType::Pie => "pie"@,
        DiagramType::GitGraph => "gitGraph"@,
        DiagramType::Journey => "journey"@,
        DiagramType::Requirement => "requirement"@,
        DiagramType::Timeline => "timeline"@,
        DiagramType::QuadrantChart => "quadrantChart"@,
        DiagramType::Sankey => "sankey"@,
        DiagramType::XyChart => "xyChart"@,
        DiagramType::BlockBeta => "block-beta"@,
        DiagramType::PacketBeta => "packet-beta"@,
        DiagramType::ArchitectureBeta => "architecture-beta"@,
        DiagramType::C4Context => "C4Context"@,
        DiagramType::C4Container => "C4Container"@,
        DiagramType::C4Component => "C4Component"@,
        DiagramType::C4Dynamic => "C4Dynamic"@,
        DiagramType::C4Deployment => "C4Deployment"@,
        DiagramType::Kanban => "kanban"@,
        DiagramType::Unknown => "unknown"@,
    }
}

impl DiagramType {
    /// The name of the diagram type (see [`diagram_type_name`]).
    pub fn as_str(self) -> (r: &'static str)
        ensures
            r@ == diagram_type_name(self),
    {
        match self {
            DiagramType::Flowchart => "flowchart",
            DiagramType::Sequence => "sequence",
            DiagramType::Class => "class",
            DiagramType::State => "state",
            DiagramType::Gantt => "gantt",
            DiagramType::Er => "er",
            DiagramType::Mindmap => "mindmap",
            DiagramType::Pie => "pie",
            DiagramType::GitGraph => "gitGraph",
            DiagramType::Journey => "journey",
            DiagramType::Requirement => "requirement",
            DiagramType::Timeline => "timeline",
            DiagramType::QuadrantChart => "quadrantChart",
            DiagramType::Sankey => "sankey",
            DiagramType::XyChart => "xyChart",
            DiagramType::BlockBeta => "block-beta",
            DiagramType::PacketBeta => "packet-beta",
            DiagramType::ArchitectureBeta => "architecture-beta",
            DiagramType::C4Context => "C4Context",
            DiagramType::C4Container => "C4Container",
            DiagramType::C4Component => "C4Component",
            DiagramType::C4Dynamic => "C4Dynamic",
            DiagramType::C4Deployment => "C4Deployment",
            DiagramType::Kanban => "kanban",
            DiagramType::Unknown => "unknown",
        }
    }
}

/// Method used to detect diagram type.
#[derive(Debug, Clone, Copy, PartialEq, Eq, Structural)]
pub enum DetectionMethod {
    /// Exact keyword match (highest confidence)
    ExactKeyword,
    /// Fuzzy keyword match with small edit distance
    FuzzyKeyword,
    /// Content-based heuristics (patterns like -->)
    ContentHeuristic,
    /// DOT format detection
    DotFormat,
    /// Fallback to flowchart (lowest confidence)
    Fallback,
}

pub open spec fn method_text(m: DetectionMethod) -> Seq<char> {
    match m {
        DetectionMethod::ExactKeyword => "explicit keyword match"@,
        DetectionMethod::FuzzyKeyword => "fuzzy keyword match"@,
        DetectionMethod::ContentHeuristic => "content heuristics"@,
        DetectionMethod::DotFormat => "DOT format detected"@,
        DetectionMethod::Fallback => "fallback to flowchart"@,
    }
}

impl DetectionMethod {
    /// Get a human-readable description of the detection method.
    pub fn as_str(self) -> (r: &'static str)
        ensures
            r@ == method_text(self),
    {
        match self {
            DetectionMethod::ExactKeyword => "explicit keyword match",
            DetectionMethod::FuzzyKeyword => "fuzzy keyword match",
            DetectionMethod::ContentHeuristic => "content heuristics",
            DetectionMethod::DotFormat => "DOT format detected",
            DetectionMethod::Fallback => "fallback to flowchart",
        }
    }
}

/// Parser-behaviour settings.
#[derive(Debug, Clone, Copy, PartialEq, Eq, Structural)]
pub struct ParserConfig {
    pub intent_inference: bool,
    pub fuzzy_keyword_distance: usize,
    pub auto_close_delimiters: bool,
    pub create_placeholder_nodes: bool,
    /// Maximum nesting depth for block-structured containers (`subgraph … end`).
    pub max_nesting_depth: usize,
}

/// The default settings: intent inference on, fuzzy distance 2, delimiters auto-closed,
/// placeholder nodes created, nesting depth 256.
pub open spec fn default_config() -> ParserConfig {
    ParserConfig {
        intent_inference: true,
        fuzzy_keyword_distance: 2,
        auto_close_delimiters: true,
        create_placeholder_nodes: true,
        max_nesting_depth: 256,
    }
}

impl Default for ParserConfig {
    fn default() -> (r: Self)
        ensures
            r == default_config(),
    {
        ParserConfig {
            intent_inference: true,
            fuzzy_keyword_distance: 2,
            auto_close_delimiters: true,
            create_placeholder_nodes: true,
            max_nesting_depth: 256,
        }
    }
}

/// Result of diagram type detection with confidence information.
///
/// The confidence is kept in hundredths (0 to 100): every confidence the detector assigns is a
/// whole number of hundredths.
#[derive(Debug, Clone, PartialEq, Eq)]
pub struct DetectedType {
    /// The detected diagram type
    pub diagram_type: DiagramType,
    /// Confidence score in hundredths (0 to 100)
    pub confidence_hundredths: u32,
    /// Method used for detection
    pub method: DetectionMethod,
    /// Any warnings generated during detection
    pub warnings: Vec<String>,
}

/// The view of a detection: type, confidence in hundredths, method, and warning texts.
#[verifier::ext_equal]
pub struct DetectionView {
    pub diagram_type: DiagramType,
    pub confidence: nat,
    pub method: DetectionMethod,
    pub warnings: Seq<Seq<char>>,
}

impl DetectedType {
    pub open spec fn view_parts(&self) -> DetectionView {
        DetectionView {
            diagram_type: self.diagram_type,
            confidence: self.confidence_hundredths as nat,
            method: self.method,
            warnings: self.warnings@.map_values(|w: String| w@),
        }
    }
}

// ---------------------------------------------------------------------------------------------
// The first significant line.
/// A line that carries diagram content: non-empty, not a `%%` comment, not a directive tail.
pub open spec fn is_significant(t: Seq<char>) -> bool {
    t.len() > 0 && !starts_with(t, "%%"@) && !ends_with(t, "}%%"@)
}

/// The first significant trimmed line of `s`, scanning the line that starts at index `i`.
pub open spec fn first_sig_from(s: Seq<char>, i: int) -> Option<Seq<char>>
    decreases s.len() - i,
{
    if i < 0 || i > s.len() {
        None
    } else {
        let nl = i + idx_of(s.subrange(i, s.len() as int), '\n');
        let t = trim(s.subrange(i, nl));
        if is_significant(t) {
            Some(t)
        } else if nl >= s.len() {
            None
        } else {
            first_sig_from(s, nl + 1)
        }
    }
}

/// The first trimmed line of `s` that is neither blank, a `%%` comment nor a directive.
pub open spec fn spec_first_significant_line(s: Seq<char>) -> Option<Seq<char>> {
    first_sig_from(s, 0)
}

fn is_significant_window(s: &Vec<char>, a: usize, b: usize) -> (r: bool)
    requires
        a <= b <= s@.len(),
    ensures
        r == is_significant(s@.subrange(a as int, b as int)),
{
    let ghost t = s@.subrange(a as int, b as int);
    proof {
        reveal_strlit("%%");
        reveal_strlit("}%%");
    }
    if a == b {
        return false;
    }
    let starts = b - a >= 2 && s[a] == '%' && s[a + 1] == '%';
    assert(starts == starts_with(t, "%%"@)) by {
        if b - a >= 2 {
            assert(t.subrange(0, 2)[0] == s@[a as int]);
            assert(t.subrange(0, 2)[1] == s@[a + 1]);
            if s@[a as int] == '%' && s@[a + 1] == '%' {
                assert(t.subrange(0, 2) =~= "%%"@);
            }
        }
    }
    let ends = b - a >= 3 && s[b - 3] == '}' && s[b - 2] == '%' && s[b - 1] == '%';
    assert(ends == ends_with(t, "}%%"@)) by {
        if b - a >= 3 {
            let w = t.subrange(t.len() - 3, t.len() as int);
            assert(w[0] == s@[b - 3]);
            assert(w[1] == s@[b - 2]);
            assert(w[2] == s@[b - 1]);
            if s@[b - 3] == '}' && s@[b - 2] == '%' && s@[b - 1] == '%' {
                assert(w =~= "}%%"@);
            }
        }
    }
    !starts && !ends
}

/// The window of the first significant line of `s`.
pub fn first_significant_line_window(s: &Vec<char>) -> (r: Option<(usize, usize)>)
    ensures
        r matches Some((a, b)) ==> a <= b <= s@.len() && spec_first_significant_line(s@) == Some(
            s@.subrange(a as int, b as int),
        ),
        r is None ==> spec_first_significant_line(s@) is None,
{
    let n = s.len();
    let mut i: usize = 0;
    loop
        invariant
            i <= n == s@.len(),
            first_sig_from(s@, i as int) == spec_first_significant_line(s@),
        decreases n - i,
    {
        let nl = index_of_char(s, i, n, '\n');
        let (a, b) = trim_window(s, i, nl);
        if is_significant_window(s, a, b) {
            return Some((a, b));
        }
        if nl >= n {
            return None;
        }
        i = nl + 1;
    }
}

// ---------------------------------------------------------------------------------------------
// Keyword headers.
/// Whether `line` starts with `kw` (ignoring ASCII case) followed by the end of the line,
/// whitespace, or `-`.
pub open spec fn header_matches(line: Seq<char>, kw: Seq<char>) -> bool {
    occurs_at_ci(line, 0, kw) && (line.len() == kw.len() || is_ws(line[kw.len() as int])
        || line[kw.len() as int] == '-')
}

pub fn header_matches_exec(s: &Vec<char>, a: usize, b: usize, kw: &str) -> (r: bool)
    requires
        a <= b <= s@.len(),
    ensures
        r == header_matches(s@.subrange(a as int, b as int), kw@),
{
    let k = chars_of(kw);
    if !matches_at_ci(s, a, b, 0, &k) {
        return false;
    }
    let ghost line = s@.subrange(a as int, b as int);
    if b - a == k.len() {
        return true;
    }
    let c = s[a + k.len()];
    assert(line[k@.len() as int] == c);
    char_is_whitespace(c) || c == '-'
}

/// The diagram type an exact header keyword names.
pub open spec fn spec_exact_type(l: Seq<char>) -> Option<DiagramType> {
    if header_matches(l, "flowchart"@) || header_matches(l, "graph"@) {
        Some(DiagramType::Flowchart)
    } else if header_matches(l, "sequencediagram"@) {
        Some(DiagramType::Sequence)
    } else if header_matches(l, "classdiagram"@) {
        Some(DiagramType::Class)
    } else if header_matches(l, "statediagram"@) {
        Some(DiagramType::State)
    } else if header_matches(l, "gantt"@) {
        Some(DiagramType::Gantt)
    } else if header_matches(l, "erdiagram"@) {
        Some(DiagramType::Er)
    } else if header_matches(l, "mindmap"@) {
        Some(DiagramType::Mindmap)
    } else if header_matches(l, "pie"@) {
        Some(DiagramType::Pie)
    } else if header_matches(l, "gitgraph"@) {
        Some(DiagramType::GitGraph)
    } else if header_matches(l, "journey"@) {
        Some(DiagramType::Journey)
    } else if header_matches(l, "requirementdiagram"@) || header_matches(l, "requirement"@) {
        Some(DiagramType::Requirement)
    } else if header_matches(l, "timeline"@) {
        Some(DiagramType::Timeline)
    } else if header_matches(l, "quadrantchart"@) {
        Some(DiagramType::QuadrantChart)
    } else if header_matches(l, "sankey"@) {
        Some(DiagramType::Sankey)
    } else if header_matches(l, "xychart"@) {
        Some(DiagramType::XyChart)
    } else if header_matches(l, "block-beta"@) || header_matches(l, "block"@) {
        Some(DiagramType::BlockBeta)
    } else if header_matches(l, "packet-beta"@) || header_matches(l, "packet"@) {
        Some(DiagramType::PacketBeta)
    } else if header_matches(l, "architecture-beta"@) || header_matches(l, "architecture"@) {
        Some(DiagramType::ArchitectureBeta)
    } else if header_matches(l, "c4context"@) {
        Some(DiagramType::C4Context)
    } else if header_matches(l, "c4container"@) {
        Some(DiagramType::C4Container)
    } else if header_matches(l, "c4component"@) {
        Some(DiagramType::C4Component)
    } else if header_matches(l, "c4dynamic"@) {
        Some(DiagramType::C4Dynamic)
    } else if header_matches(l, "c4deployment"@) {
        Some(DiagramType::C4Deployment)
    } else if header_matches(l, "kanban"@) {
        Some(DiagramType::Kanban)
    } else {
        None
    }
}

/// The header keyword a diagram type is written with (matched in any ASCII case).
pub open spec fn header_keyword(t: DiagramType) -> Seq<char> {
    match t {
        DiagramType::Flowchart => "flowchart"@,
        DiagramType::Sequence => "sequencediagram"@,
        DiagramType::Class => "classdiagram"@,
        DiagramType::State => "statediagram"@,
        DiagramType::Gantt => "gantt"@,
        DiagramType::Er => "erdiagram"@,
        DiagramType::Mindmap => "mindmap"@,
        DiagramType::Pie => "pie"@,
        DiagramType::GitGraph => "gitgraph"@,
        DiagramType::Journey => "journey"@,
        DiagramType::Requirement => "requirementdiagram"@,
        DiagramType::Timeline => "timeline"@,
        DiagramType::QuadrantChart => "quadrantchart"@,
        DiagramType::Sankey => "sankey"@,
        DiagramType::XyChart => "xychart"@,
        DiagramType::BlockBeta => "block-beta"@,
        DiagramType::PacketBeta => "packet-beta"@,
        DiagramType::ArchitectureBeta => "architecture-beta"@,
        DiagramType::C4Context => "c4context"@,
        DiagramType::C4Container => "c4container"@,
        DiagramType::C4Component => "c4component"@,
        DiagramType::C4Dynamic => "c4dynamic"@,
        DiagramType::C4Deployment => "c4deployment"@,
        DiagramType::Kanban => "kanban"@,
        DiagramType::Unknown => Seq::empty(),
    }
}

/// The second header keyword of a diagram type that has one (`graph`, `requirement`, and the
/// short forms of the beta diagrams).
pub open spec fn header_alias(t: DiagramType) -> Option<Seq<char>> {
    match t {
        DiagramType::Flowchart => Some("graph"@),
        DiagramType::Requirement => Some("requirement"@),
        DiagramType::BlockBeta => Some("block"@),
        DiagramType::PacketBeta => Some("packet"@),
        DiagramType::ArchitectureBeta => Some("architecture"@),
        _ => None,
    }
}

proof fn lemma_header_0()
    ensures
        spec_exact_type("flowchart"@) == Some(DiagramType::Flowchart),
{
    reveal_strlit("flowchart");
    assert(header_matches("flowchart"@, "flowchart"@)) by {
        assert forall|m: int| 0 <= m < "flowchart"@.len() implies crate::text::eq_ci("flowchart"@[m], "flowchart"@[m]) by {}
    }
}

proof fn lemma_header_1()
    ensures
        spec_exact_type("graph"@) == Some(DiagramType::Flowchart),
{
    reveal_strlit("graph");
    reveal_strlit("flowchart");
    assert("graph"@.len() < "flowchart"@.len());
    assert(header_matches("graph"@, "graph"@)) by {
        assert forall|m: int| 0 <= m < "graph"@.len() implies crate::text::eq_ci("graph"@[m], "graph"@[m]) by {}
    }
}

proof fn lemma_header_2()
    ensures
        spec_exact_type("sequencediagram"@) == Some(DiagramType::Sequence),
{
    reveal_strlit("sequencediagram");
    reveal_strlit("flowchart");
    assert(!crate::text::eq_ci("sequencediagram"@[0], "flowchart"@[0]));
    reveal_strlit("graph");
    assert(!crate::text::eq_ci("sequencediagram"@[0], "graph"@[0]));
    assert(header_matches("sequencediagram"@, "sequencediagram"@)) by {
        assert forall|m: int| 0 <= m < "sequencediagram"@.len() implies crate::text::eq_ci("sequencediagram"@[m], "sequencediagram"@[m]) by {}
    }
}

proof fn lemma_header_3()
    ensures
        spec_exact_type("classdiagram"@) == Some(DiagramType::Class),
{
    reveal_strlit("classdiagram");
    reveal_strlit("flowchart");
    assert(!crate::text::eq_ci("classdiagram"@[0], "flowchart"@[0]));
    reveal_strlit("graph");
    assert(!crate::text::eq_ci("classdiagram"@[0], "graph"@[0]));
    reveal_strlit("sequencediagram");
    assert("classdiagram"@.len() < "sequencediagram"@.len());
    assert(header_matches("classdiagram"@, "classdiagram"@)) by {
        assert forall|m: int| 0 <= m < "classdiagram"@.len() implies crate::text::eq_ci("classdiagram"@[m], "classdiagram"@[m]) by {}
    }
}

proof fn lemma_header_4()
    ensures
        spec_exact_type("statediagram"@) == Some(DiagramType::State),
{
    reveal_strlit("statediagram");
    reveal_strlit("flowchart");
    assert(!crate::text::eq_ci("statediagram"@[0], "flowchart"@[0]));
    reveal_strlit("graph");
    assert(!crate::text::eq_ci("statediagram"@[0], "graph"@[0]));
    reveal_strlit("sequencediagram");
    assert("statediagram"@.len() < "sequencediagram"@.len());
    reveal_strlit("classdiagram");
    assert(!crate::text::eq_ci("statediagram"@[0], "classdiagram"@[0]));
    assert(header_matches("statediagram"@, "statediagram"@)) by {
        assert forall|m: int| 0 <= m < "statediagram"@.len() implies crate::text::eq_ci("statediagram"@[m], "statediagram"@[m]) by {}
    }
}

proof fn lemma_header_5()
    ensures
        spec_exact_type("gantt"@) == Some(DiagramType::Gantt),
{
    reveal_strlit("gantt");
    reveal_strlit("flowchart");
    assert("gantt"@.len() < "flowchart"@.len());
    reveal_strlit("graph");
    assert(!crate::text::eq_ci("gantt"@[1], "graph"@[1]));
    reveal_strlit("sequencediagram");
    assert("gantt"@.len() < "sequencediagram"@.len());
    reveal_strlit("classdiagram");
    assert("gantt"@.len() < "classdiagram"@.len());
    reveal_strlit("statediagram");
    assert("gantt"@.len() < "statediagram"@.len());
    assert(header_matches("gantt"@, "gantt"@)) by {
        assert forall|m: int| 0 <= m < "gantt"@.len() implies crate::text::eq_ci("gantt"@[m], "gantt"@[m]) by {}
    }
}

proof fn lemma_header_6()
    ensures
        spec_exact_type("erdiagram"@) == Some(DiagramType::Er),
{
    reveal_strlit("erdiagram");
    reveal_strlit("flowchart");
    assert(!crate::text::eq_ci("erdiagram"@[0], "flowchart"@[0]));
    reveal_strlit("graph");
    assert(!crate::text::eq_ci("erdiagram"@[0], "graph"@[0]));
    reveal_strlit("sequencediagram");
    assert("erdiagram"@.len() < "sequencediagram"@.len());
    reveal_strlit("classdiagram");
    assert("erdiagram"@.len() < "classdiagram"@.len());
    reveal_strlit("statediagram");
    assert("erdiagram"@.len() < "statediagram"@.len());
    reveal_strlit("gantt");
    assert(!crate::text::eq_ci("erdiagram"@[0], "gantt"@[0]));
    assert(header_matches("erdiagram"@, "erdiagram"@)) by {
        assert forall|m: int| 0 <= m < "erdiagram"@.len() implies crate::text::eq_ci("erdiagram"@[m], "erdiagram"@[m]) by {}
    }
}

proof fn lemma_header_7()
    ensures
        spec_exact_type("mindmap"@) == Some(DiagramType::Mindmap),
{
    reveal_strlit("mindmap");
    reveal_strlit("flowchart");
    assert("mindmap"@.len() < "flowchart"@.len());
    reveal_strlit("graph");
    assert(!crate::text::eq_ci("mindmap"@[0], "graph"@[0]));
    reveal_strlit("sequencediagram");
    assert("mindmap"@.len() < "sequencediagram"@.len());
    reveal_strlit("classdiagram");
    assert("mindmap"@.len() < "classdiagram"@.len());
    reveal_strlit("statediagram");
    assert("mindmap"@.len() < "statediagram"@.len());
    reveal_strlit("gantt");
    assert(!crate::text::eq_ci("mindmap"@[0], "gantt"@[0]));
    reveal_strlit("erdiagram");
    assert("mindmap"@.len() < "erdiagram"@.len());
    assert(header_matches("mindmap"@, "mindmap"@)) by {
        assert forall|m: int| 0 <= m < "mindmap"@.len() implies crate::text::eq_ci("mindmap"@[m], "mindmap"@[m]) by {}
    }
}

proof fn lemma_header_8()
    ensures
        spec_exact_type("pie"@) == Some(DiagramType::Pie),
{
    reveal_strlit("pie");
    reveal_strlit("flowchart");
    assert("pie"@.len() < "flowchart"@.len());
    reveal_strlit("graph");
    assert("pie"@.len() < "graph"@.len());
    reveal_strlit("sequencediagram");
    assert("pie"@.len() < "sequencediagram"@.len());
    reveal_strlit("classdiagram");
    assert("pie"@.len() < "classdiagram"@.len());
    reveal_strlit("statediagram");
    assert("pie"@.len() < "statediagram"@.len());
    reveal_strlit("gantt");
    assert("pie"@.len() < "gantt"@.len());
    reveal_strlit("erdiagram");
    assert("pie"@.len() < "erdiagram"@.len());
    reveal_strlit("mindmap");
    assert("pie"@.len() < "mindmap"@.len());
    assert(header_matches("pie"@, "pie"@)) by {
        assert forall|m: int| 0 <= m < "pie"@.len() implies crate::text::eq_ci("pie"@[m], "pie"@[m]) by {}
    }
}

proof fn lemma_header_9()
    ensures
        spec_exact_type("gitgraph"@) == Some(DiagramType::GitGraph),
{
    reveal_strlit("gitgraph");
    reveal_strlit("flowchart");
    assert("gitgraph"@.len() < "flowchart"@.len());
    reveal_strlit("graph");
    assert(!crate::text::eq_ci("gitgraph"@[1], "graph"@[1]));
    reveal_strlit("sequencediagram");
    assert("gitgraph"@.len() < "sequencediagram"@.len());
    reveal_strlit("classdiagram");
    assert("gitgraph"@.len() < "classdiagram"@.len());
    reveal_strlit("statediagram");
    assert("gitgraph"@.len() < "statediagram"@.len());
    reveal_strlit("gantt");
    assert(!crate::text::eq_ci("gitgraph"@[1], "gantt"@[1]));
    reveal_strlit("erdiagram");
    assert("gitgraph"@.len() < "erdiagram"@.len());
    reveal_strlit("mindmap");
    assert(!crate::text::eq_ci("gitgraph"@[0], "mindmap"@[0]));
    reveal_strlit("pie");
    assert(!crate::text::eq_ci("gitgraph"@[0], "pie"@[0]));
    assert(header_matches("gitgraph"@, "gitgraph"@)) by {
        assert forall|m: int| 0 <= m < "gitgraph"@.len() implies crate::text::eq_ci("gitgraph"@[m], "gitgraph"@[m]) by {}
    }
}

proof fn lemma_header_10()
    ensures
        spec_exact_type("journey"@) == Some(DiagramType::Journey),
{
    reveal_strlit("journey");
    reveal_strlit("flowchart");
    assert("journey"@.len() < "flowchart"@.len());
    reveal_strlit("graph");
    assert(!crate::text::eq_ci("journey"@[0], "graph"@[0]));
    reveal_strlit("sequencediagram");
    assert("journey"@.len() < "sequencediagram"@.len());
    reveal_strlit("classdiagram");
    assert("journey"@.len() < "classdiagram"@.len());
    reveal_strlit("statediagram");
    assert("journey"@.len() < "statediagram"@.len());
    reveal_strlit("gantt");
    assert(!crate::text::eq_ci("journey"@[0], "gantt"@[0]));
    reveal_strlit("erdiagram");
    assert("journey"@.len() < "erdiagram"@.len());
    reveal_strlit("mindmap");
    assert(!crate::text::eq_ci("journey"@[0], "mindmap"@[0]));
    reveal_strlit("pie");
    assert(!crate::text::eq_ci("journey"@[0], "pie"@[0]));
    reveal_strlit("gitgraph");
    assert("journey"@.len() < "gitgraph"@.len());
    assert(header_matches("journey"@, "journey"@)) by {
        assert forall|m: int| 0 <= m < "journey"@.len() implies crate::text::eq_ci("journey"@[m], "journey"@[m]) by {}
    }
}

proof fn lemma_header_11()
    ensures
        spec_exact_type("requirementdiagram"@) == Some(DiagramType::Requirement),
{
    reveal_strlit("requirementdiagram");
    reveal_strlit("flowchart");
    assert(!crate::text::eq_ci("requirementdiagram"@[0], "flowchart"@[0]));
    reveal_strlit("graph");
    assert(!crate::text::eq_ci("requirementdiagram"@[0], "graph"@[0]));
    reveal_strlit("sequencediagram");
    assert(!crate::text::eq_ci("requirementdiagram"@[0], "sequencediagram"@[0]));
    reveal_strlit("classdiagram");
    assert(!crate::text::eq_ci("requirementdiagram"@[0], "classdiagram"@[0]));
    reveal_strlit("statediagram");
    assert(!crate::text::eq_ci("requirementdiagram"@[0], "statediagram"@[0]));
    reveal_strlit("gantt");
    assert(!crate::text::eq_ci("requirementdiagram"@[0], "gantt"@[0]));
    reveal_strlit("erdiagram");
    assert(!crate::text::eq_ci("requirementdiagram"@[0], "erdiagram"@[0]));
    reveal_strlit("mindmap");
    assert(!crate::text::eq_ci("requirementdiagram"@[0], "mindmap"@[0]));
    reveal_strlit("pie");
    assert(!crate::text::eq_ci("requirementdiagram"@[0], "pie"@[0]));
    reveal_strlit("gitgraph");
    assert(!crate::text::eq_ci("requirementdiagram"@[0], "gitgraph"@[0]));
    reveal_strlit("journey");
    assert(!crate::text::eq_ci("requirementdiagram"@[0], "journey"@[0]));
    assert(header_matches("requirementdiagram"@, "requirementdiagram"@)) by {
        assert forall|m: int| 0 <= m < "requirementdiagram"@.len() implies crate::text::eq_ci("requirementdiagram"@[m], "requirementdiagram"@[m]) by {}
    }
}

proof fn lemma_header_12()
    ensures
        spec_exact_type("requirement"@) == Some(DiagramType::Requirement),
{
    reveal_strlit("requirement");
    reveal_strlit("flowchart");
    assert(!crate::text::eq_ci("requirement"@[0], "flowchart"@[0]));
    reveal_strlit("graph");
    assert(!crate::text::eq_ci("requirement"@[0], "graph"@[0]));
    reveal_strlit("sequencediagram");
    assert("requirement"@.len() < "sequencediagram"@.len());
    reveal_strlit("classdiagram");
    assert("requirement"@.len() < "classdiagram"@.len());
    reveal_strlit("statediagram");
    assert("requirement"@.len() < "statediagram"@.len());
    reveal_strlit("gantt");
    assert(!crate::text::eq_ci("requirement"@[0], "gantt"@[0]));
    reveal_strlit("erdiagram");
    assert(!crate::text::eq_ci("requirement"@[0], "erdiagram"@[0]));
    reveal_strlit("mindmap");
    assert(!crate::text::eq_ci("requirement"@[0], "mindmap"@[0]));
    reveal_strlit("pie");
    assert(!crate::text::eq_ci("requirement"@[0], "pie"@[0]));
    reveal_strlit("gitgraph");
    assert(!crate::text::eq_ci("requirement"@[0], "gitgraph"@[0]));
    reveal_strlit("journey");
    assert(!crate::text::eq_ci("requirement"@[0], "journey"@[0]));
    reveal_strlit("requirementdiagram");
    assert("requirement"@.len() < "requirementdiagram"@.len());
    assert(header_matches("requirement"@, "requirement"@)) by {
        assert forall|m: int| 0 <= m < "requirement"@.len() implies crate::text::eq_ci("requirement"@[m], "requirement"@[m]) by {}
    }
}

proof fn lemma_header_13()
    ensures
        spec_exact_type("timeline"@) == Some(DiagramType::Timeline),
{
    reveal_strlit("timeline");
    reveal_strlit("flowchart");
    assert("timeline"@.len() < "flowchart"@.len());
    reveal_strlit("graph");
    assert(!crate::text::eq_ci("timeline"@[0], "graph"@[0]));
    reveal_strlit("sequencediagram");
    assert("timeline"@.len() < "sequencediagram"@.len());
    reveal_strlit("classdiagram");
    assert("timeline"@.len() < "classdiagram"@.len());
    reveal_strlit("statediagram");
    assert("timeline"@.len() < "statediagram"@.len());
    reveal_strlit("gantt");
    assert(!crate::text::eq_ci("timeline"@[0], "gantt"@[0]));
    reveal_strlit("erdiagram");
    assert("timeline"@.len() < "erdiagram"@.len());
    reveal_strlit("mindmap");
    assert(!crate::text::eq_ci("timeline"@[0], "mindmap"@[0]));
    reveal_strlit("pie");
    assert(!crate::text::eq_ci("timeline"@[0], "pie"@[0]));
    reveal_strlit("gitgraph");
    assert(!crate::text::eq_ci("timeline"@[0], "gitgraph"@[0]));
    reveal_strlit("journey");
    assert(!crate::text::eq_ci("timeline"@[0], "journey"@[0]));
    reveal_strlit("requirementdiagram");
    assert("timeline"@.len() < "requirementdiagram"@.len());
    reveal_strlit("requirement");
    assert("timeline"@.len() < "requirement"@.len());
    assert(header_matches("timeline"@, "timeline"@)) by {
        assert forall|m: int| 0 <= m < "timeline"@.len() implies crate::text::eq_ci("timeline"@[m], "timeline"@[m]) by {}
    }
}

proof fn lemma_header_14()
    ensures
        spec_exact_type("quadrantchart"@) == Some(DiagramType::QuadrantChart),
{
    reveal_strlit("quadrantchart");
    reveal_strlit("flowchart");
    assert(!crate::text::eq_ci("quadrantchart"@[0], "flowchart"@[0]));
    reveal_strlit("graph");
    assert(!crate::text::eq_ci("quadrantchart"@[0], "graph"@[0]));
    reveal_strlit("sequencediagram");
    assert("quadrantchart"@.len() < "sequencediagram"@.len());
    reveal_strlit("classdiagram");
    assert(!crate::text::eq_ci("quadrantchart"@[0], "classdiagram"@[0]));
    reveal_strlit("statediagram");
    assert(!crate::text::eq_ci("quadrantchart"@[0], "statediagram"@[0]));
    reveal_strlit("gantt");
    assert(!crate::text::eq_ci("quadrantchart"@[0], "gantt"@[0]));
    reveal_strlit("erdiagram");
    assert(!crate::text::eq_ci("quadrantchart"@[0], "erdiagram"@[0]));
    reveal_strlit("mindmap");
    assert(!crate::text::eq_ci("quadrantchart"@[0], "mindmap"@[0]));
    reveal_strlit("pie");
    assert(!crate::text::eq_ci("quadrantchart"@[0], "pie"@[0]));
    reveal_strlit("gitgraph");
    assert(!crate::text::eq_ci("quadrantchart"@[0], "gitgraph"@[0]));
    reveal_strlit("journey");
    assert(!crate::text::eq_ci("quadrantchart"@[0], "journey"@[0]));
    reveal_strlit("requirementdiagram");
    assert("quadrantchart"@.len() < "requirementdiagram"@.len());
    reveal_strlit("requirement");
    assert(!crate::text::eq_ci("quadrantchart"@[0], "requirement"@[0]));
    reveal_strlit("timeline");
    assert(!crate::text::eq_ci("quadrantchart"@[0], "timeline"@[0]));
    assert(header_matches("quadrantchart"@, "quadrantchart"@)) by {
        assert forall|m: int| 0 <= m < "quadrantchart"@.len() implies crate::text::eq_ci("quadrantchart"@[m], "quadrantchart"@[m]) by {}
    }
}

proof fn lemma_header_15()
    ensures
        spec_exact_type("sankey"@) == Some(DiagramType::Sankey),
{
    reveal_strlit("sankey");
    reveal_strlit("flowchart");
    assert("sankey"@.len() < "flowchart"@.len());
    reveal_strlit("graph");
    assert(!crate::text::eq_ci("sankey"@[0], "graph"@[0]));
    reveal_strlit("sequencediagram");
    assert("sankey"@.len() < "sequencediagram"@.len());
    reveal_strlit("classdiagram");
    assert("sankey"@.len() < "classdiagram"@.len());
    reveal_strlit("statediagram");
    assert("sankey"@.len() < "statediagram"@.len());
    reveal_strlit("gantt");
    assert(!crate::text::eq_ci("sankey"@[0], "gantt"@[0]));
    reveal_strlit("erdiagram");
    assert("sankey"@.len() < "erdiagram"@.len());
    reveal_strlit("mindmap");
    assert("sankey"@.len() < "mindmap"@.len());
    reveal_strlit("pie");
    assert(!crate::text::eq_ci("sankey"@[0], "pie"@[0]));
    reveal_strlit("gitgraph");
    assert("sankey"@.len() < "gitgraph"@.len());
    reveal_strlit("journey");
    assert("sankey"@.len() < "journey"@.len());
    reveal_strlit("requirementdiagram");
    assert("sankey"@.len() < "requirementdiagram"@.len());
    reveal_strlit("requirement");
    assert("sankey"@.len() < "requirement"@.len());
    reveal_strlit("timeline");
    assert("sankey"@.len() < "timeline"@.len());
    reveal_strlit("quadrantchart");
    assert("sankey"@.len() < "quadrantchart"@.len());
    assert(header_matches("sankey"@, "sankey"@)) by {
        assert forall|m: int| 0 <= m < "sankey"@.len() implies crate::text::eq_ci("sankey"@[m], "sankey"@[m]) by {}
    }
}

proof fn lemma_header_16()
    ensures
        spec_exact_type("xychart"@) == Some(DiagramType::XyChart),
{
    reveal_strlit("xychart");
    reveal_strlit("flowchart");
    assert("xychart"@.len() < "flowchart"@.len());
    reveal_strlit("graph");
    assert(!crate::text::eq_ci("xychart"@[0], "graph"@[0]));
    reveal_strlit("sequencediagram");
    assert("xychart"@.len() < "sequencediagram"@.len());
    reveal_strlit("classdiagram");
    assert("xychart"@.len() < "classdiagram"@.len());
    reveal_strlit("statediagram");
    assert("xychart"@.len() < "statediagram"@.len());
    reveal_strlit("gantt");
    assert(!crate::text::eq_ci("xychart"@[0], "gantt"@[0]));
    reveal_strlit("erdiagram");
    assert("xychart"@.len() < "erdiagram"@.len());
    reveal_strlit("mindmap");
    assert(!crate::text::eq_ci("xychart"@[0], "mindmap"@[0]));
    reveal_strlit("pie");
    assert(!crate::text::eq_ci("xychart"@[0], "pie"@[0]));
    reveal_strlit("gitgraph");
    assert("xychart"@.len() < "gitgraph"@.len());
    reveal_strlit("journey");
    assert(!crate::text::eq_ci("xychart"@[0], "journey"@[0]));
    reveal_strlit("requirementdiagram");
    assert("xychart"@.len() < "requirementdiagram"@.len());
    reveal_strlit("requirement");
    assert("xychart"@.len() < "requirement"@.len());
    reveal_strlit("timeline");
    assert("xychart"@.len() < "timeline"@.len());
    reveal_strlit("quadrantchart");
    assert("xychart"@.len() < "quadrantchart"@.len());
    reveal_strlit("sankey");
    assert(!crate::text::eq_ci("xychart"@[0], "sankey"@[0]));
    assert(header_matches("xychart"@, "xychart"@)) by {
        assert forall|m: int| 0 <= m < "xychart"@.len() implies crate::text::eq_ci("xychart"@[m], "xychart"@[m]) by {}
    }
}

proof fn lemma_header_17()
    ensures
        spec_exact_type("block-beta"@) == Some(DiagramType::BlockBeta),
{
    reveal_strlit("block-beta");
    reveal_strlit("flowchart");
    assert(!crate::text::eq_ci("block-beta"@[0], "flowchart"@[0]));
    reveal_strlit("graph");
    assert(!crate::text::eq_ci("block-beta"@[0], "graph"@[0]));
    reveal_strlit("sequencediagram");
    assert("block-beta"@.len() < "sequencediagram"@.len());
    reveal_strlit("classdiagram");
    assert("block-beta"@.len() < "classdiagram"@.len());
    reveal_strlit("statediagram");
    assert("block-beta"@.len() < "statediagram"@.len());
    reveal_strlit("gantt");
    assert(!crate::text::eq_ci("block-beta"@[0], "gantt"@[0]));
    reveal_strlit("erdiagram");
    assert(!crate::text::eq_ci("block-beta"@[0], "erdiagram"@[0]));
    reveal_strlit("mindmap");
    assert(!crate::text::eq_ci("block-beta"@[0], "mindmap"@[0]));
    reveal_strlit("pie");
    assert(!crate::text::eq_ci("block-beta"@[0], "pie"@[0]));
    reveal_strlit("gitgraph");
    assert(!crate::text::eq_ci("block-beta"@[0], "gitgraph"@[0]));
    reveal_strlit("journey");
    assert(!crate::text::eq_ci("block-beta"@[0], "journey"@[0]));
    reveal_strlit("requirementdiagram");
    assert("block-beta"@.len() < "requirementdiagram"@.len());
    reveal_strlit("requirement");
    assert("block-beta"@.len() < "requirement"@.len());
    reveal_strlit("timeline");
    assert(!crate::text::eq_ci("block-beta"@[0], "timeline"@[0]));
    reveal_strlit("quadrantchart");
    assert("block-beta"@.len() < "quadrantchart"@.len());
    reveal_strlit("sankey");
    assert(!crate::text::eq_ci("block-beta"@[0], "sankey"@[0]));
    reveal_strlit("xychart");
    assert(!crate::text::eq_ci("block-beta"@[0], "xychart"@[0]));
    assert(header_matches("block-beta"@, "block-beta"@)) by {
        assert forall|m: int| 0 <= m < "block-beta"@.len() implies crate::text::eq_ci("block-beta"@[m], "block-beta"@[m]) by {}
    }
}

proof fn lemma_header_18()
    ensures
        spec_exact_type("block"@) == Some(DiagramType::BlockBeta),
{
    reveal_strlit("block");
    reveal_strlit("flowchart");
    assert("block"@.len() < "flowchart"@.len());
    reveal_strlit("graph");
    assert(!crate::text::eq_ci("block"@[0], "graph"@[0]));
    reveal_strlit("sequencediagram");
    assert("block"@.len() < "sequencediagram"@.len());
    reveal_strlit("classdiagram");
    assert("block"@.len() < "classdiagram"@.len());
    reveal_strlit("statediagram");
    assert("block"@.len() < "statediagram"@.len());
    reveal_strlit("gantt");
    assert(!crate::text::eq_ci("block"@[0], "gantt"@[0]));
    reveal_strlit("erdiagram");
    assert("block"@.len() < "erdiagram"@.len());
    reveal_strlit("mindmap");
    assert("block"@.len() < "mindmap"@.len());
    reveal_strlit("pie");
    assert(!crate::text::eq_ci("block"@[0], "pie"@[0]));
    reveal_strlit("gitgraph");
    assert("block"@.len() < "gitgraph"@.len());
    reveal_strlit("journey");
    assert("block"@.len() < "journey"@.len());
    reveal_strlit("requirementdiagram");
    assert("block"@.len() < "requirementdiagram"@.len());
    reveal_strlit("requirement");
    assert("block"@.len() < "requirement"@.len());
    reveal_strlit("timeline");
    assert("block"@.len() < "timeline"@.len());
    reveal_strlit("quadrantchart");
    assert("block"@.len() < "quadrantchart"@.len());
    reveal_strlit("sankey");
    assert("block"@.len() < "sankey"@.len());
    reveal_strlit("xychart");
    assert("block"@.len() < "xychart"@.len());
    reveal_strlit("block-beta");
    assert("block"@.len() < "block-beta"@.len());
    assert(header_matches("block"@, "block"@)) by {
        assert forall|m: int| 0 <= m < "block"@.len() implies crate::text::eq_ci("block"@[m], "block"@[m]) by {}
    }
}

proof fn lemma_header_19()
    ensures
        spec_exact_type("packet-beta"@) == Some(DiagramType::PacketBeta),
{
    reveal_strlit("packet-beta");
    reveal_strlit("flowchart");
    assert(!crate::text::eq_ci("packet-beta"@[0], "flowchart"@[0]));
    reveal_strlit("graph");
    assert(!crate::text::eq_ci("packet-beta"@[0], "graph"@[0]));
    reveal_strlit("sequencediagram");
    assert("packet-beta"@.len() < "sequencediagram"@.len());
    reveal_strlit("classdiagram");
    assert("packet-beta"@.len() < "classdiagram"@.len());
    reveal_strlit("statediagram");
    assert("packet-beta"@.len() < "statediagram"@.len());
    reveal_strlit("gantt");
    assert(!crate::text::eq_ci("packet-beta"@[0], "gantt"@[0]));
    reveal_strlit("erdiagram");
    assert(!crate::text::eq_ci("packet-beta"@[0], "erdiagram"@[0]));
    reveal_strlit("mindmap");
    assert(!crate::text::eq_ci("packet-beta"@[0], "mindmap"@[0]));
    reveal_strlit("pie");
    assert(!crate::text::eq_ci("packet-beta"@[1], "pie"@[1]));
    reveal_strlit("gitgraph");
    assert(!crate::text::eq_ci("packet-beta"@[0], "gitgraph"@[0]));
    reveal_strlit("journey");
    assert(!crate::text::eq_ci("packet-beta"@[0], "journey"@[0]));
    reveal_strlit("requirementdiagram");
    assert("packet-beta"@.len() < "requirementdiagram"@.len());
    reveal_strlit("requirement");
    assert(!crate::text::eq_ci("packet-beta"@[0], "requirement"@[0]));
    reveal_strlit("timeline");
    assert(!crate::text::eq_ci("packet-beta"@[0], "timeline"@[0]));
    reveal_strlit("quadrantchart");
    assert("packet-beta"@.len() < "quadrantchart"@.len());
    reveal_strlit("sankey");
    assert(!crate::text::eq_ci("packet-beta"@[0], "sankey"@[0]));
    reveal_strlit("xychart");
    assert(!crate::text::eq_ci("packet-beta"@[0], "xychart"@[0]));
    reveal_strlit("block-beta");
    assert(!crate::text::eq_ci("packet-beta"@[0], "block-beta"@[0]));
    reveal_strlit("block");
    assert(!crate::text::eq_ci("packet-beta"@[0], "block"@[0]));
    assert(header_matches("packet-beta"@, "packet-beta"@)) by {
        assert forall|m: int| 0 <= m < "packet-beta"@.len() implies crate::text::eq_ci("packet-beta"@[m], "packet-beta"@[m]) by {}
    }
}

proof fn lemma_header_20()
    ensures
        spec_exact_type("packet"@) == Some(DiagramType::PacketBeta),
{
    reveal_strlit("packet");
    reveal_strlit("flowchart");
    assert("packet"@.len() < "flowchart"@.len());
    reveal_strlit("graph");
    assert(!crate::text::eq_ci("packet"@[0], "graph"@[0]));
    reveal_strlit("sequencediagram");
    assert("packet"@.len() < "sequencediagram"@.len());
    reveal_strlit("classdiagram");
    assert("packet"@.len() < "classdiagram"@.len());
    reveal_strlit("statediagram");
    assert("packet"@.len() < "statediagram"@.len());
    reveal_strlit("gantt");
    assert(!crate::text::eq_ci("packet"@[0], "gantt"@[0]));
    reveal_strlit("erdiagram");
    assert("packet"@.len() < "erdiagram"@.len());
    reveal_strlit("mindmap");
    assert("packet"@.len() < "mindmap"@.len());
    reveal_strlit("pie");
    assert(!crate::text::eq_ci("packet"@[1], "pie"@[1]));
    reveal_strlit("gitgraph");
    assert("packet"@.len() < "gitgraph"@.len());
    reveal_strlit("journey");
    assert("packet"@.len() < "journey"@.len());
    reveal_strlit("requirementdiagram");
    assert("packet"@.len() < "requirementdiagram"@.len());
    reveal_strlit("requirement");
    assert("packet"@.len() < "requirement"@.len());
    reveal_strlit("timeline");
    assert("packet"@.len() < "timeline"@.len());
    reveal_strlit("quadrantchart");
    assert("packet"@.len() < "quadrantchart"@.len());
    reveal_strlit("sankey");
    assert(!crate::text::eq_ci("packet"@[0], "sankey"@[0]));
    reveal_strlit("xychart");
    assert("packet"@.len() < "xychart"@.len());
    reveal_strlit("block-beta");
    assert("packet"@.len() < "block-beta"@.len());
    reveal_strlit("block");
    assert(!crate::text::eq_ci("packet"@[0], "block"@[0]));
    reveal_strlit("packet-beta");
    assert("packet"@.len() < "packet-beta"@.len());
    assert(header_matches("packet"@, "packet"@)) by {
        assert forall|m: int| 0 <= m < "packet"@.len() implies crate::text::eq_ci("packet"@[m], "packet"@[m]) by {}
    }
}

proof fn lemma_header_21()
    ensures
        spec_exact_type("architecture-beta"@) == Some(DiagramType::ArchitectureBeta),
{
    reveal_strlit("architecture-beta");
    reveal_strlit("flowchart");
    assert(!crate::text::eq_ci("architecture-beta"@[0], "flowchart"@[0]));
    reveal_strlit("graph");
    assert(!crate::text::eq_ci("architecture-beta"@[0], "graph"@[0]));
    reveal_strlit("sequencediagram");
    assert(!crate::text::eq_ci("architecture-beta"@[0], "sequencediagram"@[0]));
    reveal_strlit("classdiagram");
    assert(!crate::text::eq_ci("architecture-beta"@[0], "classdiagram"@[0]));
    reveal_strlit("statediagram");
    assert(!crate::text::eq_ci("architecture-beta"@[0], "statediagram"@[0]));
    reveal_strlit("gantt");
    assert(!crate::text::eq_ci("architecture-beta"@[0], "gantt"@[0]));
    reveal_strlit("erdiagram");
    assert(!crate::text::eq_ci("architecture-beta"@[0], "erdiagram"@[0]));
    reveal_strlit("mindmap");
    assert(!crate::text::eq_ci("architecture-beta"@[0], "mindmap"@[0]));
    reveal_strlit("pie");
    assert(!crate::text::eq_ci("architecture-beta"@[0], "pie"@[0]));
    reveal_strlit("gitgraph");
    assert(!crate::text::eq_ci("architecture-beta"@[0], "gitgraph"@[0]));
    reveal_strlit("journey");
    assert(!crate::text::eq_ci("architecture-beta"@[0], "journey"@[0]));
    reveal_strlit("requirementdiagram");
    assert("architecture-beta"@.len() < "requirementdiagram"@.len());
    reveal_strlit("requirement");
    assert(!crate::text::eq_ci("architecture-beta"@[0], "requirement"@[0]));
    reveal_strlit("timeline");
    assert(!crate::text::eq_ci("architecture-beta"@[0], "timeline"@[0]));
    reveal_strlit("quadrantchart");
    assert(!crate::text::eq_ci("architecture-beta"@[0], "quadrantchart"@[0]));
    reveal_strlit("sankey");
    assert(!crate::text::eq_ci("architecture-beta"@[0], "sankey"@[0]));
    reveal_strlit("xychart");
    assert(!crate::text::eq_ci("architecture-beta"@[0], "xychart"@[0]));
    reveal_strlit("block-beta");
    assert(!crate::text::eq_ci("architecture-beta"@[0], "block-beta"@[0]));
    reveal_strlit("block");
    assert(!crate::text::eq_ci("architecture-beta"@[0], "block"@[0]));
    reveal_strlit("packet-beta");
    assert(!crate::text::eq_ci("architecture-beta"@[0], "packet-beta"@[0]));
    reveal_strlit("packet");
    assert(!crate::text::eq_ci("architecture-beta"@[0], "packet"@[0]));
    assert(header_matches("architecture-beta"@, "architecture-beta"@)) by {
        assert forall|m: int| 0 <= m < "architecture-beta"@.len() implies crate::text::eq_ci("architecture-beta"@[m], "architecture-beta"@[m]) by {}
    }
}

proof fn lemma_header_22()
    ensures
        spec_exact_type("architecture"@) == Some(DiagramType::ArchitectureBeta),
{
    reveal_strlit("architecture");
    reveal_strlit("flowchart");
    assert(!crate::text::eq_ci("architecture"@[0], "flowchart"@[0]));
    reveal_strlit("graph");
    assert(!crate::text::eq_ci("architecture"@[0], "graph"@[0]));
    reveal_strlit("sequencediagram");
    assert("architecture"@.len() < "sequencediagram"@.len());
    reveal_strlit("classdiagram");
    assert(!crate::text::eq_ci("architecture"@[0], "classdiagram"@[0]));
    reveal_strlit("statediagram");
    assert(!crate::text::eq_ci("architecture"@[0], "statediagram"@[0]));
    reveal_strlit("gantt");
    assert(!crate::text::eq_ci("architecture"@[0], "gantt"@[0]));
    reveal_strlit("erdiagram");
    assert(!crate::text::eq_ci("architecture"@[0], "erdiagram"@[0]));
    reveal_strlit("mindmap");
    assert(!crate::text::eq_ci("architecture"@[0], "mindmap"@[0]));
    reveal_strlit("pie");
    assert(!crate::text::eq_ci("architecture"@[0], "pie"@[0]));
    reveal_strlit("gitgraph");
    assert(!crate::text::eq_ci("architecture"@[0], "gitgraph"@[0]));
    reveal_strlit("journey");
    assert(!crate::text::eq_ci("architecture"@[0], "journey"@[0]));
    reveal_strlit("requirementdiagram");
    assert("architecture"@.len() < "requirementdiagram"@.len());
    reveal_strlit("requirement");
    assert(!crate::text::eq_ci("architecture"@[0], "requirement"@[0]));
    reveal_strlit("timeline");
    assert(!crate::text::eq_ci("architecture"@[0], "timeline"@[0]));
    reveal_strlit("quadrantchart");
    assert("architecture"@.len() < "quadrantchart"@.len());
    reveal_strlit("sankey");
    assert(!crate::text::eq_ci("architecture"@[0], "sankey"@[0]));
    reveal_strlit("xychart");
    assert(!crate::text::eq_ci("architecture"@[0], "xychart"@[0]));
    reveal_strlit("block-beta");
    assert(!crate::text::eq_ci("architecture"@[0], "block-beta"@[0]));
    reveal_strlit("block");
    assert(!crate::text::eq_ci("architecture"@[0], "block"@[0]));
    reveal_strlit("packet-beta");
    assert(!crate::text::eq_ci("architecture"@[0], "packet-beta"@[0]));
    reveal_strlit("packet");
    assert(!crate::text::eq_ci("architecture"@[0], "packet"@[0]));
    reveal_strlit("architecture-beta");
    assert("architecture"@.len() < "architecture-beta"@.len());
    assert(header_matches("architecture"@, "architecture"@)) by {
        assert forall|m: int| 0 <= m < "architecture"@.len() implies crate::text::eq_ci("architecture"@[m], "architecture"@[m]) by {}
    }
}

proof fn lemma_header_23()
    ensures
        spec_exact_type("c4context"@) == Some(DiagramType::C4Context),
{
    reveal_strlit("c4context");
    reveal_strlit("flowchart");
    assert(!crate::text::eq_ci("c4context"@[0], "flowchart"@[0]));
    reveal_strlit("graph");
    assert(!crate::text::eq_ci("c4context"@[0], "graph"@[0]));
    reveal_strlit("sequencediagram");
    assert("c4context"@.len() < "sequencediagram"@.len());
    reveal_strlit("classdiagram");
    assert("c4context"@.len() < "classdiagram"@.len());
    reveal_strlit("statediagram");
    assert("c4context"@.len() < "statediagram"@.len());
    reveal_strlit("gantt");
    assert(!crate::text::eq_ci("c4context"@[0], "gantt"@[0]));
    reveal_strlit("erdiagram");
    assert(!crate::text::eq_ci("c4context"@[0], "erdiagram"@[0]));
    reveal_strlit("mindmap");
    assert(!crate::text::eq_ci("c4context"@[0], "mindmap"@[0]));
    reveal_strlit("pie");
    assert(!crate::text::eq_ci("c4context"@[0], "pie"@[0]));
    reveal_strlit("gitgraph");
    assert(!crate::text::eq_ci("c4context"@[0], "gitgraph"@[0]));
    reveal_strlit("journey");
    assert(!crate::text::eq_ci("c4context"@[0], "journey"@[0]));
    reveal_strlit("requirementdiagram");
    assert("c4context"@.len() < "requirementdiagram"@.len());
    reveal_strlit("requirement");
    assert("c4context"@.len() < "requirement"@.len());
    reveal_strlit("timeline");
    assert(!crate::text::eq_ci("c4context"@[0], "timeline"@[0]));
    reveal_strlit("quadrantchart");
    assert("c4context"@.len() < "quadrantchart"@.len());
    reveal_strlit("sankey");
    assert(!crate::text::eq_ci("c4context"@[0], "sankey"@[0]));
    reveal_strlit("xychart");
    assert(!crate::text::eq_ci("c4context"@[0], "xychart"@[0]));
    reveal_strlit("block-beta");
    assert("c4context"@.len() < "block-beta"@.len());
    reveal_strlit("block");
    assert(!crate::text::eq_ci("c4context"@[0], "block"@[0]));
    reveal_strlit("packet-beta");
    assert("c4context"@.len() < "packet-beta"@.len());
    reveal_strlit("packet");
    assert(!crate::text::eq_ci("c4context"@[0], "packet"@[0]));
    reveal_strlit("architecture-beta");
    assert("c4context"@.len() < "architecture-beta"@.len());
    reveal_strlit("architecture");
    assert("c4context"@.len() < "architecture"@.len());
    assert(header_matches("c4context"@, "c4context"@)) by {
        assert forall|m: int| 0 <= m < "c4context"@.len() implies crate::text::eq_ci("c4context"@[m], "c4context"@[m]) by {}
    }
}

proof fn lemma_header_24()
    ensures
        spec_exact_type("c4container"@) == Some(DiagramType::C4Container),
{
    reveal_strlit("c4container");
    reveal_strlit("flowchart");
    assert(!crate::text::eq_ci("c4container"@[0], "flowchart"@[0]));
    reveal_strlit("graph");
    assert(!crate::text::eq_ci("c4container"@[0], "graph"@[0]));
    reveal_strlit("sequencediagram");
    assert("c4container"@.len() < "sequencediagram"@.len());
    reveal_strlit("classdiagram");
    assert("c4container"@.len() < "classdiagram"@.len());
    reveal_strlit("statediagram");
    assert("c4container"@.len() < "statediagram"@.len());
    reveal_strlit("gantt");
    assert(!crate::text::eq_ci("c4container"@[0], "gantt"@[0]));
    reveal_strlit("erdiagram");
    assert(!crate::text::eq_ci("c4container"@[0], "erdiagram"@[0]));
    reveal_strlit("mindmap");
    assert(!crate::text::eq_ci("c4container"@[0], "mindmap"@[0]));
    reveal_strlit("pie");
    assert(!crate::text::eq_ci("c4container"@[0], "pie"@[0]));
    reveal_strlit("gitgraph");
    assert(!crate::text::eq_ci("c4container"@[0], "gitgraph"@[0]));
    reveal_strlit("journey");
    assert(!crate::text::eq_ci("c4container"@[0], "journey"@[0]));
    reveal_strlit("requirementdiagram");
    assert("c4container"@.len() < "requirementdiagram"@.len());
    reveal_strlit("requirement");
    assert(!crate::text::eq_ci("c4container"@[0], "requirement"@[0]));
    reveal_strlit("timeline");
    assert(!crate::text::eq_ci("c4container"@[0], "timeline"@[0]));
    reveal_strlit("quadrantchart");
    assert("c4container"@.len() < "quadrantchart"@.len());
    reveal_strlit("sankey");
    assert(!crate::text::eq_ci("c4container"@[0], "sankey"@[0]));
    reveal_strlit("xychart");
    assert(!crate::text::eq_ci("c4container"@[0], "xychart"@[0]));
    reveal_strlit("block-beta");
    assert(!crate::text::eq_ci("c4container"@[0], "block-beta"@[0]));
    reveal_strlit("block");
    assert(!crate::text::eq_ci("c4container"@[0], "block"@[0]));
    reveal_strlit("packet-beta");
    assert(!crate::text::eq_ci("c4container"@[0], "packet-beta"@[0]));
    reveal_strlit("packet");
    assert(!crate::text::eq_ci("c4container"@[0], "packet"@[0]));
    reveal_strlit("architecture-beta");
    assert("c4container"@.len() < "architecture-beta"@.len());
    reveal_strlit("architecture");
    assert("c4container"@.len() < "architecture"@.len());
    reveal_strlit("c4context");
    assert(!crate::text::eq_ci("c4container"@[6], "c4context"@[6]));
    assert(header_matches("c4container"@, "c4container"@)) by {
        assert forall|m: int| 0 <= m < "c4container"@.len() implies crate::text::eq_ci("c4container"@[m], "c4container"@[m]) by {}
    }
}

proof fn lemma_header_25()
    ensures
        spec_exact_type("c4component"@) == Some(DiagramType::C4Component),
{
    reveal_strlit("c4component");
    reveal_strlit("flowchart");
    assert(!crate::text::eq_ci("c4component"@[0], "flowchart"@[0]));
    reveal_strlit("graph");
    assert(!crate::text::eq_ci("c4component"@[0], "graph"@[0]));
    reveal_strlit("sequencediagram");
    assert("c4component"@.len() < "sequencediagram"@.len());
    reveal_strlit("classdiagram");
    assert("c4component"@.len() < "classdiagram"@.len());
    reveal_strlit("statediagram");
    assert("c4component"@.len() < "statediagram"@.len());
    reveal_strlit("gantt");
    assert(!crate::text::eq_ci("c4component"@[0], "gantt"@[0]));
    reveal_strlit("erdiagram");
    assert(!crate::text::eq_ci("c4component"@[0], "erdiagram"@[0]));
    reveal_strlit("mindmap");
    assert(!crate::text::eq_ci("c4component"@[0], "mindmap"@[0]));
    reveal_strlit("pie");
    assert(!crate::text::eq_ci("c4component"@[0], "pie"@[0]));
    reveal_strlit("gitgraph");
    assert(!crate::text::eq_ci("c4component"@[0], "gitgraph"@[0]));
    reveal_strlit("journey");
    assert(!crate::text::eq_ci("c4component"@[0], "journey"@[0]));
    reveal_strlit("requirementdiagram");
    assert("c4component"@.len() < "requirementdiagram"@.len());
    reveal_strlit("requirement");
    assert(!crate::text::eq_ci("c4component"@[0], "requirement"@[0]));
    reveal_strlit("timeline");
    assert(!crate::text::eq_ci("c4component"@[0], "timeline"@[0]));
    reveal_strlit("quadrantchart");
    assert("c4component"@.len() < "quadrantchart"@.len());
    reveal_strlit("sankey");
    assert(!crate::text::eq_ci("c4component"@[0], "sankey"@[0]));
    reveal_strlit("xychart");
    assert(!crate::text::eq_ci("c4component"@[0], "xychart"@[0]));
    reveal_strlit("block-beta");
    assert(!crate::text::eq_ci("c4component"@[0], "block-beta"@[0]));
    reveal_strlit("block");
    assert(!crate::text::eq_ci("c4component"@[0], "block"@[0]));
    reveal_strlit("packet-beta");
    assert(!crate::text::eq_ci("c4component"@[0], "packet-beta"@[0]));
    reveal_strlit("packet");
    assert(!crate::text::eq_ci("c4component"@[0], "packet"@[0]));
    reveal_strlit("architecture-beta");
    assert("c4component"@.len() < "architecture-beta"@.len());
    reveal_strlit("architecture");
    assert("c4component"@.len() < "architecture"@.len());
    reveal_strlit("c4context");
    assert(!crate::text::eq_ci("c4component"@[4], "c4context"@[4]));
    reveal_strlit("c4container");
    assert(!crate::text::eq_ci("c4component"@[4], "c4container"@[4]));
    assert(header_matches("c4component"@, "c4component"@)) by {
        assert forall|m: int| 0 <= m < "c4component"@.len() implies crate::text::eq_ci("c4component"@[m], "c4component"@[m]) by {}
    }
}

proof fn lemma_header_26()
    ensures
        spec_exact_type("c4dynamic"@) == Some(DiagramType::C4Dynamic),
{
    reveal_strlit("c4dynamic");
    reveal_strlit("flowchart");
    assert(!crate::text::eq_ci("c4dynamic"@[0], "flowchart"@[0]));
    reveal_strlit("graph");
    assert(!crate::text::eq_ci("c4dynamic"@[0], "graph"@[0]));
    reveal_strlit("sequencediagram");
    assert("c4dynamic"@.len() < "sequencediagram"@.len());
    reveal_strlit("classdiagram");
    assert("c4dynamic"@.len() < "classdiagram"@.len());
    reveal_strlit("statediagram");
    assert("c4dynamic"@.len() < "statediagram"@.len());
    reveal_strlit("gantt");
    assert(!crate::text::eq_ci("c4dynamic"@[0], "gantt"@[0]));
    reveal_strlit("erdiagram");
    assert(!crate::text::eq_ci("c4dynamic"@[0], "erdiagram"@[0]));
    reveal_strlit("mindmap");
    assert(!crate::text::eq_ci("c4dynamic"@[0], "mindmap"@[0]));
    reveal_strlit("pie");
    assert(!crate::text::eq_ci("c4dynamic"@[0], "pie"@[0]));
    reveal_strlit("gitgraph");
    assert(!crate::text::eq_ci("c4dynamic"@[0], "gitgraph"@[0]));
    reveal_strlit("journey");
    assert(!crate::text::eq_ci("c4dynamic"@[0], "journey"@[0]));
    reveal_strlit("requirementdiagram");
    assert("c4dynamic"@.len() < "requirementdiagram"@.len());
    reveal_strlit("requirement");
    assert("c4dynamic"@.len() < "requirement"@.len());
    reveal_strlit("timeline");
    assert(!crate::text::eq_ci("c4dynamic"@[0], "timeline"@[0]));
    reveal_strlit("quadrantchart");
    assert("c4dynamic"@.len() < "quadrantchart"@.len());
    reveal_strlit("sankey");
    assert(!crate::text::eq_ci("c4dynamic"@[0], "sankey"@[0]));
    reveal_strlit("xychart");
    assert(!crate::text::eq_ci("c4dynamic"@[0], "xychart"@[0]));
    reveal_strlit("block-beta");
    assert("c4dynamic"@.len() < "block-beta"@.len());
    reveal_strlit("block");
    assert(!crate::text::eq_ci("c4dynamic"@[0], "block"@[0]));
    reveal_strlit("packet-beta");
    assert("c4dynamic"@.len() < "packet-beta"@.len());
    reveal_strlit("packet");
    assert(!crate::text::eq_ci("c4dynamic"@[0], "packet"@[0]));
    reveal_strlit("architecture-beta");
    assert("c4dynamic"@.len() < "architecture-beta"@.len());
    reveal_strlit("architecture");
    assert("c4dynamic"@.len() < "architecture"@.len());
    reveal_strlit("c4context");
    assert(!crate::text::eq_ci("c4dynamic"@[2], "c4context"@[2]));
    reveal_strlit("c4container");
    assert("c4dynamic"@.len() < "c4container"@.len());
    reveal_strlit("c4component");
    assert("c4dynamic"@.len() < "c4component"@.len());
    assert(header_matches("c4dynamic"@, "c4dynamic"@)) by {
        assert forall|m: int| 0 <= m < "c4dynamic"@.len() implies crate::text::eq_ci("c4dynamic"@[m], "c4dynamic"@[m]) by {}
    }
}

proof fn lemma_header_27()
    ensures
        spec_exact_type("c4deployment"@) == Some(DiagramType::C4Deployment),
{
    reveal_strlit("c4deployment");
    reveal_strlit("flowchart");
    assert(!crate::text::eq_ci("c4deployment"@[0], "flowchart"@[0]));
    reveal_strlit("graph");
    assert(!crate::text::eq_ci("c4deployment"@[0], "graph"@[0]));
    reveal_strlit("sequencediagram");
    assert("c4deployment"@.len() < "sequencediagram"@.len());
    reveal_strlit("classdiagram");
    assert(!crate::text::eq_ci("c4deployment"@[1], "classdiagram"@[1]));
    reveal_strlit("statediagram");
    assert(!crate::text::eq_ci("c4deployment"@[0], "statediagram"@[0]));
    reveal_strlit("gantt");
    assert(!crate::text::eq_ci("c4deployment"@[0], "gantt"@[0]));
    reveal_strlit("erdiagram");
    assert(!crate::text::eq_ci("c4deployment"@[0], "erdiagram"@[0]));
    reveal_strlit("mindmap");
    assert(!crate::text::eq_ci("c4deployment"@[0], "mindmap"@[0]));
    reveal_strlit("pie");
    assert(!crate::text::eq_ci("c4deployment"@[0], "pie"@[0]));
    reveal_strlit("gitgraph");
    assert(!crate::text::eq_ci("c4deployment"@[0], "gitgraph"@[0]));
    reveal_strlit("journey");
    assert(!crate::text::eq_ci("c4deployment"@[0], "journey"@[0]));
    reveal_strlit("requirementdiagram");
    assert("c4deployment"@.len() < "requirementdiagram"@.len());
    reveal_strlit("requirement");
    assert(!crate::text::eq_ci("c4deployment"@[0], "requirement"@[0]));
    reveal_strlit("timeline");
    assert(!crate::text::eq_ci("c4deployment"@[0], "timeline"@[0]));
    reveal_strlit("quadrantchart");
    assert("c4deployment"@.len() < "quadrantchart"@.len());
    reveal_strlit("sankey");
    assert(!crate::text::eq_ci("c4deployment"@[0], "sankey"@[0]));
    reveal_strlit("xychart");
    assert(!crate::text::eq_ci("c4deployment"@[0], "xychart"@[0]));
    reveal_strlit("block-beta");
    assert(!crate::text::eq_ci("c4deployment"@[0], "block-beta"@[0]));
    reveal_strlit("block");
    assert(!crate::text::eq_ci("c4deployment"@[0], "block"@[0]));
    reveal_strlit("packet-beta");
    assert(!crate::text::eq_ci("c4deployment"@[0], "packet-beta"@[0]));
    reveal_strlit("packet");
    assert(!crate::text::eq_ci("c4deployment"@[0], "packet"@[0]));
    reveal_strlit("architecture-beta");
    assert("c4deployment"@.len() < "architecture-beta"@.len());
    reveal_strlit("architecture");
    assert(!crate::text::eq_ci("c4deployment"@[0], "architecture"@[0]));
    reveal_strlit("c4context");
    assert(!crate::text::eq_ci("c4deployment"@[2], "c4context"@[2]));
    reveal_strlit("c4container");
    assert(!crate::text::eq_ci("c4deployment"@[2], "c4container"@[2]));
    reveal_strlit("c4component");
    assert(!crate::text::eq_ci("c4deployment"@[2], "c4component"@[2]));
    reveal_strlit("c4dynamic");
    assert(!crate::text::eq_ci("c4deployment"@[3], "c4dynamic"@[3]));
    assert(header_matches("c4deployment"@, "c4deployment"@)) by {
        assert forall|m: int| 0 <= m < "c4deployment"@.len() implies crate::text::eq_ci("c4deployment"@[m], "c4deployment"@[m]) by {}
    }
}

proof fn lemma_header_28()
    ensures
        spec_exact_type("kanban"@) == Some(DiagramType::Kanban),
{
    reveal_strlit("kanban");
    reveal_strlit("flowchart");
    assert("kanban"@.len() < "flowchart"@.len());
    reveal_strlit("graph");
    assert(!crate::text::eq_ci("kanban"@[0], "graph"@[0]));
    reveal_strlit("sequencediagram");
    assert("kanban"@.len() < "sequencediagram"@.len());
    reveal_strlit("classdiagram");
    assert("kanban"@.len() < "classdiagram"@.len());
    reveal_strlit("statediagram");
    assert("kanban"@.len() < "statediagram"@.len());
    reveal_strlit("gantt");
    assert(!crate::text::eq_ci("kanban"@[0], "gantt"@[0]));
    reveal_strlit("erdiagram");
    assert("kanban"@.len() < "erdiagram"@.len());
    reveal_strlit("mindmap");
    assert("kanban"@.len() < "mindmap"@.len());
    reveal_strlit("pie");
    assert(!crate::text::eq_ci("kanban"@[0], "pie"@[0]));
    reveal_strlit("gitgraph");
    assert("kanban"@.len() < "gitgraph"@.len());
    reveal_strlit("journey");
    assert("kanban"@.len() < "journey"@.len());
    reveal_strlit("requirementdiagram");
    assert("kanban"@.len() < "requirementdiagram"@.len());
    reveal_strlit("requirement");
    assert("kanban"@.len() < "requirement"@.len());
    reveal_strlit("timeline");
    assert("kanban"@.len() < "timeline"@.len());
    reveal_strlit("quadrantchart");
    assert("kanban"@.len() < "quadrantchart"@.len());
    reveal_strlit("sankey");
    assert(!crate::text::eq_ci("kanban"@[0], "sankey"@[0]));
    reveal_strlit("xychart");
    assert("kanban"@.len() < "xychart"@.len());
    reveal_strlit("block-beta");
    assert("kanban"@.len() < "block-beta"@.len());
    reveal_strlit("block");
    assert(!crate::text::eq_ci("kanban"@[0], "block"@[0]));
    reveal_strlit("packet-beta");
    assert("kanban"@.len() < "packet-beta"@.len());
    reveal_strlit("packet");
    assert(!crate::text::eq_ci("kanban"@[0], "packet"@[0]));
    reveal_strlit("architecture-beta");
    assert("kanban"@.len() < "architecture-beta"@.len());
    reveal_strlit("architecture");
    assert("kanban"@.len() < "architecture"@.len());
    reveal_strlit("c4context");
    assert("kanban"@.len() < "c4context"@.len());
    reveal_strlit("c4container");
    assert("kanban"@.len() < "c4container"@.len());
    reveal_strlit("c4component");
    assert("kanban"@.len() < "c4component"@.len());
    reveal_strlit("c4dynamic");
    assert("kanban"@.len() < "c4dynamic"@.len());
    reveal_strlit("c4deployment");
    assert("kanban"@.len() < "c4deployment"@.len());
    assert(header_matches("kanban"@, "kanban"@)) by {
        assert forall|m: int| 0 <= m < "kanban"@.len() implies crate::text::eq_ci("kanban"@[m], "kanban"@[m]) by {}
    }
}

/// A line that opens with an exact header gives the type whose keyword it is: the detected
/// type's own keyword (or its alias) heads the line. A `c4component` header is never read as
/// another C4 diagram.
pub proof fn law_exact_header_names_its_type(l: Seq<char>)
    ensures
        spec_exact_type(l) matches Some(x) ==> header_matches(l, header_keyword(x)) || (header_alias(x) matches Some(
            a,
        ) && header_matches(l, a)),
{
}

/// Each diagram type's header keyword, and its alias, written alone, gives that type and no
/// other: the keyword table is one-to-one.
pub proof fn law_header_keyword_gives_its_type(t: DiagramType)
    ensures
        t != DiagramType::Unknown ==> spec_exact_type(header_keyword(t)) == Some(t),
        header_alias(t) matches Some(a) ==> spec_exact_type(a) == Some(t),
{
    match t {
        DiagramType::Flowchart => {
            lemma_header_0(); lemma_header_1();
        },
        DiagramType::Sequence => {
            lemma_header_2();
        },
        DiagramType::Class => {
            lemma_header_3();
        },
        DiagramType::State => {
            lemma_header_4();
        },
        DiagramType::Gantt => {
            lemma_header_5();
        },
        DiagramType::Er => {
            lemma_header_6();
        },
        DiagramType::Mindmap => {
            lemma_header_7();
        },
        DiagramType::Pie => {
            lemma_header_8();
        },
        DiagramType::GitGraph => {
            lemma_header_9();
        },
        DiagramType::Journey => {
            lemma_header_10();
        },
        DiagramType::Requirement => {
            lemma_header_11(); lemma_header_12();
        },
        DiagramType::Timeline => {
            lemma_header_13();
        },
        DiagramType::QuadrantChart => {
            lemma_header_14();
        },
        DiagramType::Sankey => {
            lemma_header_15();
        },
        DiagramType::XyChart => {
            lemma_header_16();
        },
        DiagramType::BlockBeta => {
            lemma_header_17(); lemma_header_18();
        },
        DiagramType::PacketBeta => {
            lemma_header_19(); lemma_header_20();
        },
        DiagramType::ArchitectureBeta => {
            lemma_header_21(); lemma_header_22();
        },
        DiagramType::C4Context => {
            lemma_header_23();
        },
        DiagramType::C4Container => {
            lemma_header_24();
        },
        DiagramType::C4Component => {
            lemma_header_25();
        },
        DiagramType::C4Dynamic => {
            lemma_header_26();
        },
        DiagramType::C4Deployment => {
            lemma_header_27();
        },
        DiagramType::Kanban => {
            lemma_header_28();
        },
        DiagramType::Unknown => {},
    }
}

pub fn exact_type(s: &Vec<char>, a: usize, b: usize) -> (r: Option<DiagramType>)
    requires
        a <= b <= s@.len(),
    ensures
        r == spec_exact_type(s@.subrange(a as int, b as int)),
{
    if header_matches_exec(s, a, b, "flowchart") || header_matches_exec(s, a, b, "graph") {
        Some(DiagramType::Flowchart)
    } else if header_matches_exec(s, a, b, "sequencediagram") {
        Some(DiagramType::Sequence)
    } else if header_matches_exec(s, a, b, "classdiagram") {
        Some(DiagramType::Class)
    } else if header_matches_exec(s, a, b, "statediagram") {
        Some(DiagramType::State)
    } else if header_matches_exec(s, a, b, "gantt") {
        Some(DiagramType::Gantt)
    } else if header_matches_exec(s, a, b, "erdiagram") {
        Some(DiagramType::Er)
    } else if header_matches_exec(s, a, b, "mindmap") {
        Some(DiagramType::Mindmap)
    } else if header_matches_exec(s, a, b, "pie") {
        Some(DiagramType::Pie)
    } else if header_matches_exec(s, a, b, "gitgraph") {
        Some(DiagramType::GitGraph)
    } else if header_matches_exec(s, a, b, "journey") {
        Some(DiagramType::Journey)
    } else if header_matches_exec(s, a, b, "requirementdiagram") || header_matches_exec(
        s,
        a,
        b,
        "requirement",
    ) {
        Some(DiagramType::Requirement)
    } else if header_matches_exec(s, a, b, "timeline") {
        Some(DiagramType::Timeline)
    } else if header_matches_exec(s, a, b, "quadrantchart") {
        Some(DiagramType::QuadrantChart)
    } else if header_matches_exec(s, a, b, "sankey") {
        Some(DiagramType::Sankey)
    } else if header_matches_exec(s, a, b, "xychart") {
        Some(DiagramType::XyChart)
    } else if header_matches_exec(s, a, b, "block-beta") || header_matches_exec(s, a, b, "block") {
        Some(DiagramType::BlockBeta)
    } else if header_matches_exec(s, a, b, "packet-beta") || header_matches_exec(s, a, b, "packet") {
        Some(DiagramType::PacketBeta)
    } else if header_matches_exec(s, a, b, "architecture-beta") || header_matches_exec(
        s,
        a,
        b,
        "architecture",
    ) {
        Some(DiagramType::ArchitectureBeta)
    } else if header_matches_exec(s, a, b, "c4context") {
        Some(DiagramType::C4Context)
    } else if header_matches_exec(s, a, b, "c4container") {
        Some(DiagramType::C4Container)
    } else if header_matches_exec(s, a, b, "c4component") {
        Some(DiagramType::C4Component)
    } else if header_matches_exec(s, a, b, "c4dynamic") {
        Some(DiagramType::C4Dynamic)
    } else if header_matches_exec(s, a, b, "c4deployment") {
        Some(DiagramType::C4Deployment)
    } else if header_matches_exec(s, a, b, "kanban") {
        Some(DiagramType::Kanban)
    } else {
        None
    }
}

// ---------------------------------------------------------------------------------------------
// Edit distance.
pub open spec fn min_nat(x: nat, y: nat) -> nat {
    if x <= y {
        x
    } else {
        y
    }
}

/// The Levenshtein edit distance between `a` and `b` (insertions, deletions and substitutions
/// each cost one).
pub open spec fn lev(a: Seq<char>, b: Seq<char>) -> nat
    decreases a.len() + b.len(),
{
    if a.len() == 0 {
        b.len()
    } else if b.len() == 0 {
        a.len()
    } else {
        min_nat(
            min_nat(lev(a.drop_last(), b) + 1, lev(a, b.drop_last()) + 1),
            lev(a.drop_last(), b.drop_last()) + (if a.last() == b.last() {
                0nat
            } else {
                1nat
            }),
        )
    }
}

pub proof fn lemma_lev_bound(a: Seq<char>, b: Seq<char>)
    ensures
        lev(a, b) <= if a.len() >= b.len() {
            a.len()
        } else {
            b.len()
        },
    decreases a.len() + b.len(),
{
    if a.len() > 0 && b.len() > 0 {
        lemma_lev_bound(a.drop_last(), b.drop_last());
    }
}

/// Levenshtein distance between `a` and `b`, computed with two rows.
pub fn levenshtein_distance(a: &Vec<char>, b: &Vec<char>) -> (d: usize)
    ensures
        d == lev(a@, b@),
{
    let a_len = a.len();
    let b_len = b.len();
    if a_len == 0 {
        return b_len;
    }
    if b_len == 0 {
        return a_len;
    }
    let mut prev: Vec<usize> = Vec::new();
    prev.push(0);
    assert(prev@[0] == lev(a@.take(0), b@.take(0)));
    let mut j: usize = 0;
    while j < b_len
        invariant
            j <= b_len == b@.len(),
            a_len == a@.len(),
            prev@.len() == j + 1,
            forall|k: int| 0 <= k <= j ==> prev@[k] == lev(a@.take(0), b@.take(k)),
        decreases b_len - j,
    {
        prev.push(j + 1);
        assert(a@.take(0).len() == 0);
        j = j + 1;
    }
    let mut i: usize = 0;
    while i < a_len
        invariant
            i <= a_len == a@.len(),
            b_len == b@.len(),
            b_len > 0,
            prev@.len() == b_len + 1,
            forall|k: int| 0 <= k <= b_len ==> prev@[k] == lev(a@.take(i as int), b@.take(k)),
        decreases a_len - i,
    {
        let mut curr: Vec<usize> = Vec::new();
        curr.push(i + 1);
        assert(curr@[0] == lev(a@.take(i + 1), b@.take(0))) by {
            assert(b@.take(0).len() == 0);
        }
        let mut k: usize = 0;
        while k < b_len
            invariant
                i < a_len == a@.len(),
                b_len == b@.len(),
                k <= b_len,
                prev@.len() == b_len + 1,
                forall|m: int| 0 <= m <= b_len ==> prev@[m] == lev(a@.take(i as int), b@.take(m)),
                curr@.len() == k + 1,
                forall|m: int| 0 <= m <= k ==> curr@[m] == lev(a@.take(i + 1), b@.take(m)),
            decreases b_len - k,
        {
            let cost: usize = if a[i] == b[k] {
                0
            } else {
                1
            };
            proof {
                lemma_lev_bound(a@.take(i as int), b@.take(k as int));
            }
            let sub = prev[k] + cost;
            let del_or_ins = if prev[k + 1] <= curr[k] {
                prev[k + 1]
            } else {
                curr[k]
            };
            let best = if del_or_ins < sub {
                del_or_ins + 1
            } else {
                sub
            };
            proof {
                let aa = a@.take(i + 1);
                let bb = b@.take(k + 1);
                assert(aa.drop_last() =~= a@.take(i as int));
                assert(bb.drop_last() =~= b@.take(k as int));
                assert(aa.last() == a@[i as int]);
                assert(bb.last() == b@[k as int]);
            }
            curr.push(best);
            k = k + 1;
        }
        prev = curr;
        i = i + 1;
    }
    assert(a@.take(a_len as int) =~= a@);
    assert(b@.take(b_len as int) =~= b@);
    prev[b_len]
}

} // verus!

verus! {

// ---------------------------------------------------------------------------------------------
// Fuzzy keyword match.
/// Known diagram keywords for fuzzy matching, in tie-breaking order.
pub open spec fn fuzzy_table() -> Seq<(Seq<char>, DiagramType)> {
    seq![
        ("flowchart"@, DiagramType::Flowchart),
        ("graph"@, DiagramType::Flowchart),
        ("sequencediagram"@, DiagramType::Sequence),
        ("classdiagram"@, DiagramType::Class),
        ("statediagram"@, DiagramType::State),
        ("gantt"@, DiagramType::Gantt),
        ("erdiagram"@, DiagramType::Er),
        ("mindmap"@, DiagramType::Mindmap),
        ("pie"@, DiagramType::Pie),
        ("gitgraph"@, DiagramType::GitGraph),
        ("journey"@, DiagramType::Journey),
        ("requirementdiagram"@, DiagramType::Requirement),
        ("timeline"@, DiagramType::Timeline),
        ("quadrantchart"@, DiagramType::QuadrantChart),
        ("sankey"@, DiagramType::Sankey),
        ("xychart"@, DiagramType::XyChart),
        ("kanban"@, DiagramType::Kanban),
        ("block"@, DiagramType::BlockBeta),
        ("packet"@, DiagramType::PacketBeta),
        ("architecture"@, DiagramType::ArchitectureBeta),
        ("c4context"@, DiagramType::C4Context),
        ("c4dynamic"@, DiagramType::C4Dynamic),
        ("c4component"@, DiagramType::C4Component),
        ("c4container"@, DiagramType::C4Container),
        ("c4deployment"@, DiagramType::C4Deployment),
    ]
}

/// The closest table keyword to `word` at a distance in `1..=max`, scanning the table from entry
/// `i`; an earlier entry wins a tie.
pub open spec fn fuzzy_scan(word: Seq<char>, max: nat, i: int, best: Option<(DiagramType, nat)>) -> Option<(DiagramType, nat)>
    decreases fuzzy_table().len() - i,
{
    if i < 0 || i >= fuzzy_table().len() {
        best
    } else {
        let d = lev(word, fuzzy_table()[i].0);
        let better = d > 0 && d <= max && match best {
            Some((_, bd)) => d < bd,
            None => true,
        };
        fuzzy_scan(
            word,
            max,
            i + 1,
            if better {
                Some((fuzzy_table()[i].1, d))
            } else {
                best
            },
        )
    }
}

/// The first whitespace-separated word of `s`, if any.
pub open spec fn first_word(s: Seq<char>) -> Option<Seq<char>> {
    let a = crate::text::ws_run(s);
    if a >= s.len() {
        None
    } else {
        let rest = s.skip(a as int);
        Some(rest.take(word_len(rest) as int))
    }
}

/// Number of leading non-whitespace characters of `s`.
pub open spec fn word_len(s: Seq<char>) -> nat
    decreases s.len(),
{
    if s.len() > 0 && !is_ws(s[0]) {
        1 + word_len(s.drop_first())
    } else {
        0
    }
}

/// Confidence of a fuzzy match at distance `d`, in hundredths: 85, less 15 per extra edit,
/// never below 40.
pub open spec fn fuzzy_confidence(d: nat) -> nat {
    let c = 85 - 15 * (if d > 0 {
        d - 1
    } else {
        0
    });
    if c < 40 {
        40
    } else {
        c as nat
    }
}

/// The fuzzy header match of the (ASCII-lowercased) first line `lower`.
pub open spec fn spec_fuzzy(lower: Seq<char>, max: nat) -> Option<(DiagramType, nat)> {
    if max == 0 {
        None
    } else {
        match first_word(lower) {
            None => None,
            Some(w) => fuzzy_scan(w, max, 0, None),
        }
    }
}

fn fuzzy_entry(i: usize) -> (r: (&'static str, DiagramType))
    requires
        i < 25,
    ensures
        r.0@ == fuzzy_table()[i as int].0,
        r.1 == fuzzy_table()[i as int].1,
{
    let table: [(&'static str, DiagramType); 25] = [
        ("flowchart", DiagramType::Flowchart),
        ("graph", DiagramType::Flowchart),
        ("sequencediagram", DiagramType::Sequence),
        ("classdiagram", DiagramType::Class),
        ("statediagram", DiagramType::State),
        ("gantt", DiagramType::Gantt),
        ("erdiagram", DiagramType::Er),
        ("mindmap", DiagramType::Mindmap),
        ("pie", DiagramType::Pie),
        ("gitgraph", DiagramType::GitGraph),
        ("journey", DiagramType::Journey),
        ("requirementdiagram", DiagramType::Requirement),
        ("timeline", DiagramType::Timeline),
        ("quadrantchart", DiagramType::QuadrantChart),
        ("sankey", DiagramType::Sankey),
        ("xychart", DiagramType::XyChart),
        ("kanban", DiagramType::Kanban),
        ("block", DiagramType::BlockBeta),
        ("packet", DiagramType::PacketBeta),
        ("architecture", DiagramType::ArchitectureBeta),
        ("c4context", DiagramType::C4Context),
        ("c4dynamic", DiagramType::C4Dynamic),
        ("c4component", DiagramType::C4Component),
        ("c4container", DiagramType::C4Container),
        ("c4deployment", DiagramType::C4Deployment),
    ];
    table[i]
}

/// Fuzzy header match: the keyword closest to the first word of `lower` within `max` edits.
fn fuzzy_keyword_match(lower: &Vec<char>, max: usize) -> (r: Option<(DiagramType, usize)>)
    ensures
        r matches Some((t, d)) ==> spec_fuzzy(lower@, max as nat) == Some((t, d as nat)),
        r is None ==> spec_fuzzy(lower@, max as nat) is None,
{
    if max == 0 {
        return None;
    }
    let n = lower.len();
    let a = crate::text::skip_ws(lower, 0, n);
    assert(lower@.subrange(0, n as int) =~= lower@);
    if a >= n {
        return None;
    }
    let ghost rest = lower@.skip(a as int);
    let mut e = a;
    while e < n && !char_is_whitespace(lower[e])
        invariant
            a <= e <= n == lower@.len(),
            word_len(rest) == (e - a) + word_len(lower@.subrange(e as int, n as int)),
            rest == lower@.subrange(a as int, n as int),
        decreases n - e,
    {
        assert(lower@.subrange(e as int, n as int).drop_first() =~= lower@.subrange(e + 1, n as int));
        e = e + 1;
    }
    assert(rest =~= lower@.subrange(a as int, n as int));
    assert(rest.take(word_len(rest) as int) =~= lower@.subrange(a as int, e as int));
    let word = crate::text::window_vec(lower, a, e);
    let mut best: Option<(DiagramType, usize)> = None;
    let mut i: usize = 0;
    while i < 25
        invariant
            i <= 25,
            word@ == lower@.subrange(a as int, e as int),
            fuzzy_table().len() == 25,
            fuzzy_scan(word@, max as nat, i as int, match best {
                Some((t, d)) => Some((t, d as nat)),
                None => None,
            }) == spec_fuzzy(lower@, max as nat),
        decreases 25 - i,
    {
        let (kw, ty) = fuzzy_entry(i);
        let k = chars_of(kw);
        let d = levenshtein_distance(&word, &k);
        let better = d > 0 && d <= max && match best {
            Some((_, bd)) => d < bd,
            None => true,
        };
        if better {
            best = Some((ty, d));
        }
        i = i + 1;
    }
    best
}

// ---------------------------------------------------------------------------------------------
// Headers of diagram types this parser does not implement.
/// A separator between header tokens: whitespace or `-`.
pub open spec fn is_token_sep(c: char) -> bool {
    is_ws(c) || c == '-'
}

/// Number of leading token separators of `s`.
pub open spec fn sep_run(s: Seq<char>) -> nat
    decreases s.len(),
{
    if s.len() > 0 && is_token_sep(s[0]) {
        1 + sep_run(s.drop_first())
    } else {
        0
    }
}

/// Number of leading non-separator characters of `s`.
pub open spec fn token_len(s: Seq<char>) -> nat
    decreases s.len(),
{
    if s.len() > 0 && !is_token_sep(s[0]) {
        1 + token_len(s.drop_first())
    } else {
        0
    }
}

/// The first non-empty token of `s` when it is split on whitespace and `-`.
pub open spec fn first_token(s: Seq<char>) -> Option<Seq<char>> {
    let a = sep_run(s);
    if a >= s.len() {
        None
    } else {
        let r = s.skip(a as int);
        Some(r.take(token_len(r) as int))
    }
}

/// The name, as upstream mermaid spells it, of an upstream diagram type whose lowercased header
/// token is `t` and that this parser does not implement.
pub open spec fn unsupported_name(t: Seq<char>) -> Option<Seq<char>> {
    if t == "treemap"@ {
        Some("treemap"@)
    } else if t == "info"@ {
        Some("info"@)
    } else if t == "eventmodeling"@ {
        Some("eventmodeling"@)
    } else if t == "ishikawa"@ {
        Some("ishikawa"@)
    } else if t == "radar"@ {
        Some("radar-beta"@)
    } else if t == "venn"@ {
        Some("venn-beta"@)
    } else if t == "wardley"@ {
        Some("wardley-beta"@)
    } else if t == "treeview"@ {
        Some("treeView-beta"@)
    } else {
        None
    }
}

/// The unimplemented upstream type that the header `line` names, if any.
pub open spec fn spec_unsupported(line: Seq<char>) -> Option<Seq<char>> {
    match first_token(line) {
        Some(t) => unsupported_name(t.map_values(|c: char| ascii_lower_char(c))),
        None => None,
    }
}

/// The warning for a header naming the unimplemented upstream type `name`.
pub open spec fn unsupported_message(name: Seq<char>) -> Seq<char> {
    "'"@ + name
        + "' is a mermaid diagram type this renderer does not implement yet. Rendering it as a flowchart will not be meaningful."@
}

/// Whether the characters `v` spell `t`.
pub fn chars_eq_str(v: &Vec<char>, t: &str) -> (r: bool)
    ensures
        r == (v@ == t@),
{
    let tc = chars_of(t);
    if v.len() != tc.len() {
        return false;
    }
    let mut i: usize = 0;
    while i < v.len()
        invariant
            i <= v@.len() == tc@.len(),
            tc@ == t@,
            forall|j: int| 0 <= j < i ==> v@[j] == tc@[j],
        decreases v@.len() - i,
    {
        if v[i] != tc[i] {
            return false;
        }
        i = i + 1;
    }
    assert(v@ =~= tc@);
    true
}

fn unsupported_name_exec(t: &Vec<char>) -> (r: Option<&'static str>)
    ensures
        r matches Some(n) ==> unsupported_name(t@) == Some(n@),
        r is None ==> unsupported_name(t@) is None,
{
    if chars_eq_str(t, "treemap") {
        Some("treemap")
    } else if chars_eq_str(t, "info") {
        Some("info")
    } else if chars_eq_str(t, "eventmodeling") {
        Some("eventmodeling")
    } else if chars_eq_str(t, "ishikawa") {
        Some("ishikawa")
    } else if chars_eq_str(t, "radar") {
        Some("radar-beta")
    } else if chars_eq_str(t, "venn") {
        Some("venn-beta")
    } else if chars_eq_str(t, "wardley") {
        Some("wardley-beta")
    } else if chars_eq_str(t, "treeview") {
        Some("treeView-beta")
    } else {
        None
    }
}

/// The unimplemented upstream type named by the header `s[a..b]`.
pub fn unsupported_upstream_keyword(s: &Vec<char>, a: usize, b: usize) -> (r: Option<&'static str>)
    requires
        a <= b <= s@.len(),
    ensures
        r matches Some(n) ==> spec_unsupported(s@.subrange(a as int, b as int)) == Some(n@),
        r is None ==> spec_unsupported(s@.subrange(a as int, b as int)) is None,
{
    let ghost line = s@.subrange(a as int, b as int);
    let mut k = a;
    while k < b && (char_is_whitespace(s[k]) || s[k] == '-')
        invariant
            a <= k <= b <= s@.len(),
            line == s@.subrange(a as int, b as int),
            sep_run(line) == (k - a) + sep_run(s@.subrange(k as int, b as int)),
        decreases b - k,
    {
        assert(s@.subrange(k as int, b as int).drop_first() =~= s@.subrange(k + 1, b as int));
        k = k + 1;
    }
    if k >= b {
        return None;
    }
    assert(line.skip(k - a) =~= s@.subrange(k as int, b as int));
    let ghost rest = s@.subrange(k as int, b as int);
    let mut e = k;
    while e < b && !(char_is_whitespace(s[e]) || s[e] == '-')
        invariant
            k <= e <= b <= s@.len(),
            rest == s@.subrange(k as int, b as int),
            token_len(rest) == (e - k) + token_len(s@.subrange(e as int, b as int)),
        decreases b - e,
    {
        assert(s@.subrange(e as int, b as int).drop_first() =~= s@.subrange(e + 1, b as int));
        e = e + 1;
    }
    assert(rest.take(token_len(rest) as int) =~= s@.subrange(k as int, e as int));
    let lower = ascii_lower_window(s, k, e);
    unsupported_name_exec(&lower)
}

// ---------------------------------------------------------------------------------------------
// Detection.
/// The first significant line of `s`, or the empty line when there is none.
pub open spec fn header_line(s: Seq<char>) -> Seq<char> {
    match spec_first_significant_line(s) {
        Some(l) => l,
        None => Seq::empty(),
    }
}

/// Whether a header could open a DOT graph: it starts with `graph`, `digraph` or `strict`,
/// ignoring ASCII case.
pub open spec fn could_be_dot(line: Seq<char>) -> bool {
    occurs_at_ci(line, 0, "graph"@) || occurs_at_ci(line, 0, "digraph"@) || occurs_at_ci(
        line,
        0,
        "strict"@,
    )
}

/// What the detector reports for `input` under `config`. The strategies, in order: empty input,
/// DOT, an exact header keyword, a fuzzy header keyword, content heuristics, a header naming an
/// unimplemented upstream type, and the flowchart fallback.
pub open spec fn spec_detect(input: Seq<char>, config: ParserConfig) -> DetectionView {
    if trim(input).len() == 0 {
        DetectionView {
            diagram_type: DiagramType::Unknown,
            confidence: 0,
            method: DetectionMethod::Fallback,
            warnings: seq!["Empty input"@],
        }
    } else {
        let line = header_line(input);
        let kw = spec_exact_type(line);
        let fuzzy = spec_fuzzy(
            line.map_values(|c: char| ascii_lower_char(c)),
            config.fuzzy_keyword_distance as nat,
        );
        let heur = spec_content_heuristics(heuristic_text(input));
        if (kw is None || could_be_dot(line)) && spec_looks_like_dot(input) {
            DetectionView {
                diagram_type: DiagramType::Flowchart,
                confidence: 95,
                method: DetectionMethod::DotFormat,
                warnings: Seq::empty(),
            }
        } else if kw is Some {
            DetectionView {
                diagram_type: kw->0,
                confidence: 100,
                method: DetectionMethod::ExactKeyword,
                warnings: Seq::empty(),
            }
        } else if config.intent_inference && fuzzy is Some {
            let (t, d) = fuzzy->0;
            DetectionView {
                diagram_type: t,
                confidence: fuzzy_confidence(d),
                method: DetectionMethod::FuzzyKeyword,
                warnings: seq!["Fuzzy match: possible typo in diagram type declaration"@],
            }
        } else if config.intent_inference && heur is Some {
            let (t, c, w) = heur->0;
            DetectionView {
                diagram_type: t,
                confidence: c,
                method: DetectionMethod::ContentHeuristic,
                warnings: seq![w],
            }
        } else if spec_unsupported(line) is Some {
            DetectionView {
                diagram_type: DiagramType::Flowchart,
                confidence: 30,
                method: DetectionMethod::Fallback,
                warnings: seq![unsupported_message(spec_unsupported(line)->0)],
            }
        } else {
            DetectionView {
                diagram_type: DiagramType::Flowchart,
                confidence: 30,
                method: DetectionMethod::Fallback,
                warnings: seq!["Could not detect diagram type; assuming flowchart"@],
            }
        }
    }
}

fn one_warning(text: &str) -> (r: Vec<String>)
    ensures
        r@.map_values(|w: String| w@) == seq![text@],
{
    let mut v: Vec<String> = Vec::new();
    v.push(owned(text));
    assert(v@.map_values(|w: String| w@) =~= seq![text@]);
    v
}

fn no_warnings() -> (r: Vec<String>)
    ensures
        r@.map_values(|w: String| w@) == Seq::<Seq<char>>::empty(),
{
    let v: Vec<String> = Vec::new();
    assert(v@.map_values(|w: String| w@) =~= Seq::<Seq<char>>::empty());
    v
}

fn fuzzy_confidence_exec(d: usize) -> (r: u32)
    ensures
        r as nat == fuzzy_confidence(d as nat),
{
    if d == 0 {
        85
    } else if d >= 4 {
        40
    } else {
        let e: u32 = (d - 1) as u32;
        85 - 15 * e
    }
}

/// Detect the diagram type of `input` with explicit parser-behaviour settings.
pub fn detect_type_with_confidence_and_config(input: &str, config: &ParserConfig) -> (r: DetectedType)
    ensures
        r.view_parts() == spec_detect(input@, *config),
{
    let s = chars_of(input);
    let n = s.len();
    assert(s@.subrange(0, n as int) =~= s@);
    let (ta, tb) = trim_window(&s, 0, n);
    if ta == tb {
        return DetectedType {
            diagram_type: DiagramType::Unknown,
            confidence_hundredths: 0,
            method: DetectionMethod::Fallback,
            warnings: one_warning("Empty input"),
        };
    }
    let (la, lb) = match first_significant_line_window(&s) {
        Some((a, b)) => (a, b),
        None => (0, 0),
    };
    let ghost line = s@.subrange(la as int, lb as int);
    assert(line == header_line(input@)) by {
        if spec_first_significant_line(s@) is None {
            assert(line =~= Seq::<char>::empty());
        }
    }
    let keyword = exact_type(&s, la, lb);
    let could_dot = matches_at_ci(&s, la, lb, 0, &chars_of("graph")) || matches_at_ci(
        &s,
        la,
        lb,
        0,
        &chars_of("digraph"),
    ) || matches_at_ci(&s, la, lb, 0, &chars_of("strict"));
    if (keyword.is_none() || could_dot) && looks_like_dot(input) {
        return DetectedType {
            diagram_type: DiagramType::Flowchart,
            confidence_hundredths: 95,
            method: DetectionMethod::DotFormat,
            warnings: no_warnings(),
        };
    }
    if let Some(t) = keyword {
        return DetectedType {
            diagram_type: t,
            confidence_hundredths: 100,
            method: DetectionMethod::ExactKeyword,
            warnings: no_warnings(),
        };
    }
    if config.intent_inference {
        let lower = ascii_lower_window(&s, la, lb);
        assert(lower@ =~= line.map_values(|c: char| ascii_lower_char(c)));
        if let Some((t, d)) = fuzzy_keyword_match(&lower, config.fuzzy_keyword_distance) {
            return DetectedType {
                diagram_type: t,
                confidence_hundredths: fuzzy_confidence_exec(d),
                method: DetectionMethod::FuzzyKeyword,
                warnings: one_warning("Fuzzy match: possible typo in diagram type declaration"),
            };
        }
        let text = heuristic_text_exec(&s);
        if let Some((t, c, w)) = content_heuristics(&text) {
            return DetectedType {
                diagram_type: t,
                confidence_hundredths: c,
                method: DetectionMethod::ContentHeuristic,
                warnings: one_warning(w),
            };
        }
    }
    if let Some(name) = unsupported_upstream_keyword(&s, la, lb) {
        let mut msg: Vec<char> = Vec::new();
        push_str(&mut msg, "'");
        push_str(&mut msg, name);
        push_str(
            &mut msg,
            "' is a mermaid diagram type this renderer does not implement yet. Rendering it as a flowchart will not be meaningful.",
        );
        let text = string_from_chars(&msg);
        let mut warnings: Vec<String> = Vec::new();
        warnings.push(text);
        assert(warnings@.map_values(|w: String| w@) =~= seq![unsupported_message(name@)]);
        return DetectedType {
            diagram_type: DiagramType::Flowchart,
            confidence_hundredths: 30,
            method: DetectionMethod::Fallback,
            warnings,
        };
    }
    DetectedType {
        diagram_type: DiagramType::Flowchart,
        confidence_hundredths: 30,
        method: DetectionMethod::Fallback,
        warnings: one_warning("Could not detect diagram type; assuming flowchart"),
    }
}

/// Detect the diagram type of `input` with the default settings.
pub fn detect_type_with_confidence(input: &str) -> (r: DetectedType)
    ensures
        r.view_parts() == spec_detect(input@, default_config()),
{
    let config = ParserConfig::default();
    detect_type_with_confidence_and_config(input, &config)
}

/// The detected diagram type of `input` under the default settings.
pub fn detect_type(input: &str) -> (r: DiagramType)
    ensures
        r == spec_detect(input@, default_config()).diagram_type,
{
    detect_type_with_confidence(input).diagram_type
}

/// How each detection method decides, over every input: an exact header gives its own type at
/// confidence 100 and the header's keyword heads the first significant line; DOT is a flowchart
/// at 95 and only for text that looks like DOT; fuzzy and content matches happen only with intent
/// inference on; and the fallback is an unknown diagram at 0 for blank input, else a flowchart at
/// 30.
pub proof fn law_detection_methods(input: Seq<char>, config: ParserConfig)
    ensures
        ({
            let d = spec_detect(input, config);
            let line = header_line(input);
            &&& d.method == DetectionMethod::ExactKeyword ==> d.confidence == 100 && spec_exact_type(line)
                == Some(d.diagram_type) && (header_matches(line, header_keyword(d.diagram_type)) || (header_alias(
                d.diagram_type,
            ) matches Some(a) && header_matches(line, a)))
            &&& d.method == DetectionMethod::DotFormat ==> d.confidence == 95 && d.diagram_type
                == DiagramType::Flowchart && spec_looks_like_dot(input)
            &&& d.method == DetectionMethod::FuzzyKeyword ==> config.intent_inference && spec_exact_type(line) is None
            &&& d.method == DetectionMethod::ContentHeuristic ==> config.intent_inference && spec_exact_type(line) is None
            &&& d.method == DetectionMethod::Fallback ==> if trim(input).len() == 0 {
                d.confidence == 0 && d.diagram_type == DiagramType::Unknown
            } else {
                d.confidence == 30 && d.diagram_type == DiagramType::Flowchart && spec_exact_type(line) is None
            }
        }),
{
    law_exact_header_names_its_type(header_line(input));
}

} // verus!
