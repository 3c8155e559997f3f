//! A text/diagram lens for flowcharts.
//!
//! [`FlowchartParseLens::parse`] keeps the source beside the diagram parsed from it, and
//! [`FlowchartParseLens::put`] takes an edited diagram back to text by replacing, in that source,
//! only the label text of the nodes whose label changed. Any other change to the diagram is
//! refused: renaming a node without rewriting every edge that names it is no faithful round trip.
use vstd::prelude::*;

use crate::detect::{DiagramType, default_config};
use crate::format::capture_format_complement;
use crate::ir::{IrLabelId, IrNode, MermaidDiagramIr, MermaidParseMode, ParseResult};
use crate::ir_diff::{ir_same_but_label_texts, same_but_label_texts};
use crate::parser::{parse, parsed_type};
use crate::text::{
    chars_of, find_seq_from, first_occ_from, is_ascii_alnum, lemma_first_occ, occurs_at, push_str,
    string_from_chars, trim, window_vec,
};

verus! {

// ---------------------------------------------------------------------------------------------
// Locating a node's label in its source line.
/// A character that can continue a flowchart identifier.
pub open spec fn is_flow_id_char(c: char) -> bool {
    is_ascii_alnum(c) || c == '_' || c == '-' || c == '.' || c == '/'
}

/// An opening shape delimiter.
pub open spec fn is_open_delim(c: char) -> bool {
    c == '[' || c == '(' || c == '{'
}

/// The delimiter that closes `c`.
pub open spec fn closer_of(c: char) -> char {
    if c == '[' {
        ']'
    } else if c == '(' {
        ')'
    } else {
        '}'
    }
}

/// The range of `label` written as the shape text of the id occurrence `line[st..en]`: the id must
/// stand alone (no identifier character touches it), be followed by an opening delimiter, and the
/// text up to the matching closing delimiter must contain `label`; its first occurrence there.
pub open spec fn label_after_id(line: Seq<char>, st: int, en: int, label: Seq<char>) -> Option<(int, int)> {
    if (0 < st <= line.len() && is_flow_id_char(line[st - 1])) || (0 <= en < line.len()
        && is_flow_id_char(line[en])) {
        None
    } else if en < 0 || en >= line.len() || !is_open_delim(line[en]) {
        None
    } else {
        let cs = en + 1;
        match first_occ_from(line, seq![closer_of(line[en])], cs) {
            None => None,
            Some(ce) => if ce < cs || ce > line.len() {
                None
            } else {
                match first_occ_from(line.subrange(cs, ce), label, 0) {
                    None => None,
                    Some(p) => Some((cs + p, cs + p + label.len())),
                }
            },
        }
    }
}

/// The range of `label` in `line` as the shape text of node `id`, trying the occurrences of `id`
/// from index `from` on, in order.
pub open spec fn label_range_from(line: Seq<char>, id: Seq<char>, label: Seq<char>, from: int) -> Option<
    (int, int),
>
    decreases line.len() + 1 - from,
{
    if id.len() == 0 || label.len() == 0 || from < 0 || from > line.len() {
        None
    } else {
        match first_occ_from(line, id, from) {
            None => None,
            Some(st) => {
                let en = st + id.len();
                if en <= from || en > line.len() {
                    None
                } else {
                    match label_after_id(line, st, en, label) {
                        Some(r) => Some(r),
                        None => label_range_from(line, id, label, en),
                    }
                }
            },
        }
    }
}

/// Where line `line` (counted from 1, lines ending at `\n`) of `s` starts.
pub open spec fn line_start(s: Seq<char>, line: int) -> Option<int>
    decreases line,
{
    if line <= 0 {
        None
    } else if line == 1 {
        Some(0)
    } else {
        match line_start(s, line - 1) {
            None => None,
            Some(st) => match first_occ_from(s, seq!['\n'], st) {
                None => None,
                Some(nl) => Some(nl + 1),
            },
        }
    }
}

/// The `columns` characters of line `line` of `s`, as a range.
pub open spec fn line_range(s: Seq<char>, line: int, columns: int) -> Option<(int, int)> {
    match line_start(s, line) {
        Some(st) => if 0 <= st && 0 <= columns && st + columns <= s.len() {
            Some((st, st + columns))
        } else {
            None
        },
        None => None,
    }
}

/// Where, in `src`, node `n` wrote `label` as its shape text: searched in the node's own line.
pub open spec fn node_text_range(src: Seq<char>, n: IrNode, label: Seq<char>) -> Option<(int, int)> {
    match line_range(src, n.span.line as int, n.span.columns as int) {
        Some((ls, le)) => match label_range_from(src.subrange(ls, le), n.id@, label, 0) {
            Some((a, b)) => Some((ls + a, ls + b)),
            None => None,
        },
        None => None,
    }
}

proof fn lemma_line_start_none(s: Seq<char>, a: int, b: int)
    requires
        1 <= a <= b,
        line_start(s, a) is None,
    ensures
        line_start(s, b) is None,
    decreases b - a,
{
    if a < b {
        lemma_line_start_none(s, a, b - 1);
    }
}

fn line_start_exec(s: &Vec<char>, line: usize) -> (r: Option<usize>)
    ensures
        r matches Some(k) ==> line_start(s@, line as int) == Some(k as int) && k <= s@.len(),
        r is None ==> line_start(s@, line as int) is None,
{
    if line == 0 {
        return None;
    }
    let nl: Vec<char> = vec!['\n'];
    assert(nl@ =~= seq!['\n']);
    let n = s.len();
    let mut st: usize = 0;
    let mut l: usize = 1;
    while l < line
        invariant
            n == s@.len(),
            1 <= l <= line,
            line_start(s@, l as int) == Some(st as int),
            st <= s@.len(),
            nl@ == seq!['\n'],
        decreases line - l,
    {
        match find_seq_from(s, &nl, st) {
            None => {
                assert(line_start(s@, l + 1) is None);
                proof {
                    lemma_line_start_none(s@, l + 1, line as int);
                }
                return None;
            },
            Some(k) => {
                proof {
                    lemma_first_occ(s@, nl@, st as int);
                    assert(occurs_at(s@, k as int, nl@));
                }
                st = k + 1;
                l = l + 1;
            },
        }
    }
    Some(st)
}

fn is_flow_id_char_exec(c: char) -> (r: bool)
    ensures
        r == is_flow_id_char(c),
{
    ('a' <= c && c <= 'z') || ('A' <= c && c <= 'Z') || ('0' <= c && c <= '9') || c == '_' || c == '-'
        || c == '.' || c == '/'
}

fn label_after_id_exec(line: &Vec<char>, st: usize, en: usize, label: &Vec<char>) -> (r: Option<(usize, usize)>)
    requires
        st <= en <= line@.len(),
    ensures
        r matches Some((a, b)) ==> label_after_id(line@, st as int, en as int, label@) == Some((a as int, b as int)),
        r is None ==> label_after_id(line@, st as int, en as int, label@) is None,
{
    let n = line.len();
    if (st > 0 && is_flow_id_char_exec(line[st - 1])) || (en < n && is_flow_id_char_exec(line[en])) {
        return None;
    }
    if en >= n || !(line[en] == '[' || line[en] == '(' || line[en] == '{') {
        return None;
    }
    let open = line[en];
    let closing = if open == '[' {
        ']'
    } else if open == '(' {
        ')'
    } else {
        '}'
    };
    let cv: Vec<char> = vec![closing];
    assert(cv@ =~= seq![closer_of(line@[en as int])]);
    let cs = en + 1;
    match find_seq_from(line, &cv, cs) {
        None => None,
        Some(ce) => {
            proof {
                lemma_first_occ(line@, cv@, cs as int);
            }
            let content = window_vec(line, cs, ce);
            match find_seq_from(&content, label, 0) {
                None => None,
                Some(p) => {
                    proof {
                        lemma_first_occ(content@, label@, 0);
                    }
                    Some((cs + p, cs + p + label.len()))
                },
            }
        },
    }
}

fn label_range_exec(line: &Vec<char>, id: &Vec<char>, label: &Vec<char>) -> (r: Option<(usize, usize)>)
    ensures
        r matches Some((a, b)) ==> label_range_from(line@, id@, label@, 0) == Some((a as int, b as int)),
        r is None ==> label_range_from(line@, id@, label@, 0) is None,
{
    if id.len() == 0 || label.len() == 0 {
        return None;
    }
    let n = line.len();
    let mut from: usize = 0;
    loop
        invariant
            n == line@.len(),
            from <= line@.len(),
            id@.len() > 0,
            label@.len() > 0,
            label_range_from(line@, id@, label@, from as int) == label_range_from(line@, id@, label@, 0),
        decreases line@.len() - from,
    {
        match find_seq_from(line, id, from) {
            None => {
                return None;
            },
            Some(st) => {
                proof {
                    lemma_first_occ(line@, id@, from as int);
                    assert(occurs_at(line@, st as int, id@));
                }
                let en = st + id.len();
                match label_after_id_exec(line, st, en, label) {
                    Some(r) => {
                        return Some(r);
                    },
                    None => {
                        from = en;
                    },
                }
            },
        }
    }
}

/// Where node `n` wrote `label` in `src` (see [`node_text_range`]).
fn node_text_range_exec(src: &Vec<char>, n: &IrNode, label: &String) -> (r: Option<(usize, usize)>)
    ensures
        r matches Some((a, b)) ==> node_text_range(src@, *n, label@) == Some((a as int, b as int)) && a
            <= b <= src@.len(),
        r is None ==> node_text_range(src@, *n, label@) is None,
{
    match line_start_exec(src, n.span.line) {
        None => None,
        Some(st) => {
            if n.span.columns > src.len() - st {
                return None;
            }
            let le = st + n.span.columns;
            let line = window_vec(src, st, le);
            let id = chars_of(n.id.as_str());
            let lt = chars_of(label.as_str());
            match label_range_exec(&line, &id, &lt) {
                None => None,
                Some((a, b)) => {
                    proof {
                        assert(label_range_from(line@, id@, lt@, 0) == Some((a as int, b as int)));
                        lemma_label_range_bounds(line@, id@, lt@, 0);
                    }
                    Some((st + a, st + b))
                },
            }
        },
    }
}

proof fn lemma_label_range_bounds(line: Seq<char>, id: Seq<char>, label: Seq<char>, from: int)
    ensures
        label_range_from(line, id, label, from) matches Some((a, b)) ==> 0 <= a <= b <= line.len(),
    decreases line.len() + 1 - from,
{
    if !(id.len() == 0 || label.len() == 0 || from < 0 || from > line.len()) {
        match first_occ_from(line, id, from) {
            None => {},
            Some(st) => {
                let en = st + id.len();
                if !(en <= from || en > line.len()) {
                    match label_after_id(line, st, en, label) {
                        Some(r) => {
                            let cs = en + 1;
                            let ce = first_occ_from(line, seq![closer_of(line[en])], cs)->0;
                            lemma_first_occ(line.subrange(cs, ce), label, 0);
                        },
                        None => {
                            lemma_label_range_bounds(line, id, label, en);
                        },
                    }
                }
            },
        }
    }
}

// ---------------------------------------------------------------------------------------------
// Writing an edited diagram back.
/// Why a lens refused.
#[derive(Debug, Clone, PartialEq, Eq)]
pub enum FlowchartParseLensError {
    /// The document, or the edited diagram, is not a flowchart.
    NotFlowchart,
    /// The edited diagram changes more than label text.
    UnsupportedIrChange,
    /// The label of the node with this id could not be found in its source line.
    MissingSourceLabel(String),
}

/// The message of a lens error.
pub open spec fn lens_error_text(e: FlowchartParseLensError) -> Seq<char> {
    match e {
        FlowchartParseLensError::NotFlowchart => "ParseLens currently supports flowcharts only"@,
        FlowchartParseLensError::UnsupportedIrChange =>
            "ParseLens can re-emit node-label text changes only; graph structure is unchanged"@,
        FlowchartParseLensError::MissingSourceLabel(id) =>
            "could not locate the source label for flowchart node '"@ + id@ + "'"@,
    }
}

impl FlowchartParseLensError {
    /// The message of the error (see [`lens_error_text`]).
    pub fn message(&self) -> (r: String)
        ensures
            r@ == lens_error_text(*self),
    {
        match self {
            FlowchartParseLensError::NotFlowchart => {
                let mut v: Vec<char> = Vec::new();
                push_str(&mut v, "ParseLens currently supports flowcharts only");
                string_from_chars(&v)
            },
            FlowchartParseLensError::UnsupportedIrChange => {
                let mut v: Vec<char> = Vec::new();
                push_str(
                    &mut v,
                    "ParseLens can re-emit node-label text changes only; graph structure is unchanged",
                );
                string_from_chars(&v)
            },
            FlowchartParseLensError::MissingSourceLabel(id) => {
                let mut v: Vec<char> = Vec::new();
                push_str(&mut v, "could not locate the source label for flowchart node '");
                push_str(&mut v, id.as_str());
                push_str(&mut v, "'");
                string_from_chars(&v)
            },
        }
    }
}

/// Label `i` has another text in `e` than in `o`.
pub open spec fn label_changed(o: MermaidDiagramIr, e: MermaidDiagramIr, i: int) -> bool {
    o.labels@[i].text@ != e.labels@[i].text@
}

/// How many of the first `i` labels changed.
pub open spec fn changed_below(o: MermaidDiagramIr, e: MermaidDiagramIr, i: int) -> nat
    decreases i,
{
    if i <= 0 {
        0
    } else {
        changed_below(o, e, i - 1) + if label_changed(o, e, i - 1) {
            1nat
        } else {
            0nat
        }
    }
}

/// The label of node `k` changed.
pub open spec fn node_label_changed(o: MermaidDiagramIr, e: MermaidDiagramIr, k: int) -> bool {
    match o.nodes@[k].label {
        Some(l) => l.0 < o.labels@.len() && label_changed(o, e, l.0 as int),
        None => false,
    }
}

/// Where node `k` wrote its label in `src`.
pub open spec fn node_range(o: MermaidDiagramIr, src: Seq<char>, k: int) -> Option<(int, int)> {
    match o.nodes@[k].label {
        Some(l) => node_text_range(src, o.nodes@[k], o.labels@[l.0 as int].text@),
        None => None,
    }
}

/// Node `k`'s label changed and its text cannot be found in the source.
pub open spec fn label_missing(o: MermaidDiagramIr, e: MermaidDiagramIr, src: Seq<char>, k: int) -> bool {
    node_label_changed(o, e, k) && node_range(o, src, k) is None
}

/// The first of the nodes below `k` whose changed label cannot be found.
pub open spec fn first_missing_below(o: MermaidDiagramIr, e: MermaidDiagramIr, src: Seq<char>, k: int) -> Option<int>
    decreases k,
{
    if k <= 0 {
        None
    } else {
        match first_missing_below(o, e, src, k - 1) {
            Some(j) => Some(j),
            None => if label_missing(o, e, src, k - 1) {
                Some(k - 1)
            } else {
                None
            },
        }
    }
}

/// The new label text of node `k`.
pub open spec fn new_text(o: MermaidDiagramIr, e: MermaidDiagramIr, k: int) -> Seq<char> {
    match o.nodes@[k].label {
        Some(l) => e.labels@[l.0 as int].text@,
        None => seq![],
    }
}

/// The replacements (start, end, new text) for the nodes below `k` whose label changed, in node
/// order.
pub open spec fn reps_below(o: MermaidDiagramIr, e: MermaidDiagramIr, src: Seq<char>, k: int) -> Seq<(int, int, Seq<char>)>
    decreases k,
{
    if k <= 0 {
        seq![]
    } else {
        let prev = reps_below(o, e, src, k - 1);
        if node_label_changed(o, e, k - 1) {
            match node_range(o, src, k - 1) {
                Some((a, b)) => prev.push((a, b, new_text(o, e, k - 1))),
                None => prev,
            }
        } else {
            prev
        }
    }
}

/// Some node has label `i`.
pub open spec fn label_used(o: MermaidDiagramIr, i: int) -> bool {
    exists|k: int| 0 <= k < o.nodes@.len() && #[trigger] o.nodes@[k].label == Some(IrLabelId(i as usize))
}

/// Some changed label belongs to no node (an edge label, or one no longer referenced).
pub open spec fn unused_changed_label(o: MermaidDiagramIr, e: MermaidDiagramIr) -> bool {
    exists|i: int| 0 <= i < o.labels@.len() && #[trigger] label_changed(o, e, i) && !label_used(o, i)
}

/// The first of the replacements from index `j` on that starts at `i` (and ends after it).
pub open spec fn first_rep_at(reps: Seq<(int, int, Seq<char>)>, i: int, j: int) -> Option<int>
    decreases reps.len() - j,
{
    if j < 0 || j >= reps.len() {
        None
    } else if reps[j].0 == i && reps[j].1 > i {
        Some(j)
    } else {
        first_rep_at(reps, i, j + 1)
    }
}

/// `src` from index `i` on, with each replacement's text standing for its range.
pub open spec fn splice_from(src: Seq<char>, reps: Seq<(int, int, Seq<char>)>, i: int) -> Seq<char>
    decreases src.len() - i,
{
    if i < 0 || i >= src.len() {
        seq![]
    } else {
        match first_rep_at(reps, i, 0) {
            Some(j) => if 0 <= j < reps.len() && reps[j].1 > i {
                if reps[j].1 >= src.len() {
                    reps[j].2
                } else {
                    reps[j].2 + splice_from(src, reps, reps[j].1)
                }
            } else {
                seq![src[i]] + splice_from(src, reps, i + 1)
            },
            None => seq![src[i]] + splice_from(src, reps, i + 1),
        }
    }
}

/// What writing `e` back through a lens on the diagram `o` parsed from `src` gives: `e` must be a
/// flowchart that differs from `o` in label text only; with no label changed the source comes back
/// as it was; a changed node label that cannot be found in its line is reported (the first such
/// node); a changed label that no node carries is refused when the node replacements do not
/// account for every changed label; otherwise each changed node label is replaced in place.
pub open spec fn put_result(o: MermaidDiagramIr, src: Seq<char>, e: MermaidDiagramIr) -> Result<
    Seq<char>,
    FlowchartParseLensError,
> {
    if e.diagram_type != DiagramType::Flowchart {
        Err(FlowchartParseLensError::NotFlowchart)
    } else if !same_but_label_texts(o, e) {
        Err(FlowchartParseLensError::UnsupportedIrChange)
    } else if changed_below(o, e, o.labels@.len() as int) == 0 {
        Ok(src)
    } else {
        match first_missing_below(o, e, src, o.nodes@.len() as int) {
            Some(k) => Err(FlowchartParseLensError::MissingSourceLabel(o.nodes@[k].id)),
            None => {
                let reps = reps_below(o, e, src, o.nodes@.len() as int);
                if reps.len() != changed_below(o, e, o.labels@.len() as int) && unused_changed_label(o, e) {
                    Err(FlowchartParseLensError::UnsupportedIrChange)
                } else {
                    Ok(splice_from(src, reps, 0))
                }
            },
        }
    }
}

/// A returned text or error is the expected one.
pub open spec fn put_matches(r: Result<String, FlowchartParseLensError>, expected: Result<Seq<char>, FlowchartParseLensError>) -> bool {
    match (r, expected) {
        (Ok(s), Ok(t)) => s@ == t,
        (Err(x), Err(y)) => x == y,
        _ => false,
    }
}

/// The replacements as plain values.
pub open spec fn reps_view(v: Seq<(usize, usize, Vec<char>)>) -> Seq<(int, int, Seq<char>)> {
    v.map_values(|r: (usize, usize, Vec<char>)| (r.0 as int, r.1 as int, r.2@))
}

fn first_rep_at_exec(reps: &Vec<(usize, usize, Vec<char>)>, i: usize) -> (r: Option<usize>)
    ensures
        r matches Some(j) ==> first_rep_at(reps_view(reps@), i as int, 0) == Some(j as int) && j < reps@.len()
            && reps@[j as int].0 == i && reps@[j as int].1 > i,
        r is None ==> first_rep_at(reps_view(reps@), i as int, 0) is None,
{
    let ghost rv = reps_view(reps@);
    let mut j: usize = 0;
    while j < reps.len()
        invariant
            j <= reps@.len(),
            rv == reps_view(reps@),
            first_rep_at(rv, i as int, j as int) == first_rep_at(rv, i as int, 0),
        decreases reps@.len() - j,
    {
        if reps[j].0 == i && reps[j].1 > i {
            return Some(j);
        }
        j = j + 1;
    }
    None
}

/// `src` with each replacement's text standing for its range (see [`splice_from`]).
fn splice(src: &Vec<char>, reps: &Vec<(usize, usize, Vec<char>)>) -> (out: Vec<char>)
    ensures
        out@ == splice_from(src@, reps_view(reps@), 0),
{
    let ghost rv = reps_view(reps@);
    let n = src.len();
    let mut out: Vec<char> = Vec::new();
    let mut i: usize = 0;
    while i < n
        invariant
            i <= n == src@.len(),
            rv == reps_view(reps@),
            splice_from(src@, rv, 0) == out@ + splice_from(src@, rv, i as int),
        decreases n - i,
    {
        match first_rep_at_exec(reps, i) {
            Some(j) => {
                assert(rv[j as int] == (reps@[j as int].0 as int, reps@[j as int].1 as int, reps@[j as int].2@));
                let t = &reps[j].2;
                let mut q: usize = 0;
                let ghost before = out@;
                while q < t.len()
                    invariant
                        q <= t@.len(),
                        out@ == before + t@.subrange(0, q as int),
                    decreases t@.len() - q,
                {
                    out.push(t[q]);
                    q = q + 1;
                    assert(out@ =~= before + t@.subrange(0, q as int));
                }
                assert(t@.subrange(0, t@.len() as int) =~= t@);
                assert(rv[j as int].2 == t@);
                let end = reps[j].1;
                if end >= n {
                    assert(out@ =~= before + rv[j as int].2);
                    i = n;
                } else {
                    assert(out@ + splice_from(src@, rv, end as int) =~= before + (rv[j as int].2
                        + splice_from(src@, rv, rv[j as int].1)));
                    i = end;
                }
            },
            None => {
                let ghost before = out@;
                out.push(src[i]);
                assert(out@ + splice_from(src@, rv, i + 1) =~= before + (seq![src@[i as int]]
                    + splice_from(src@, rv, i + 1)));
                i = i + 1;
            },
        }
    }
    assert(out@ + splice_from(src@, rv, i as int) =~= out@);
    out
}

fn label_used_exec(o: &MermaidDiagramIr, i: usize) -> (r: bool)
    ensures
        r == label_used(*o, i as int),
{
    let mut k: usize = 0;
    while k < o.nodes.len()
        invariant
            k <= o.nodes@.len(),
            forall|m: int| 0 <= m < k ==> #[trigger] o.nodes@[m].label != Some(IrLabelId(i)),
        decreases o.nodes@.len() - k,
    {
        match o.nodes[k].label {
            Some(l) => {
                if l.0 == i {
                    assert(o.nodes@[k as int].label == Some(IrLabelId(i)));
                    return true;
                }
            },
            None => {},
        }
        k = k + 1;
    }
    false
}

/// A flowchart together with the source it was parsed from.
pub struct FlowchartParseLens {
    parsed: ParseResult,
    source: String,
}

impl FlowchartParseLens {
    /// The lens holds a well-formed flowchart.
    #[verifier::type_invariant]
    spec fn holds_a_flowchart(self) -> bool {
        self.parsed.ir.wf() && self.parsed.ir.diagram_type == DiagramType::Flowchart
    }

    /// The diagram parsed from the source.
    pub closed spec fn diagram(self) -> MermaidDiagramIr {
        self.parsed.ir
    }

    /// The source as it was given.
    pub closed spec fn source(self) -> Seq<char> {
        self.source@
    }

    /// Parse `input`, keeping its text; a document that is not a flowchart is refused.
    pub fn parse(input: &str) -> (r: Result<FlowchartParseLens, FlowchartParseLensError>)
        ensures
            r is Ok <==> (trim(input@).len() > 0 && parsed_type(input@, MermaidParseMode::Compat, default_config())
                == DiagramType::Flowchart),
            r matches Ok(l) ==> l.source() == input@ && l.diagram().wf() && l.diagram().diagram_type
                == DiagramType::Flowchart,
            r matches Err(e) ==> e == FlowchartParseLensError::NotFlowchart,
    {
        let mut parsed = parse(input);
        parsed.format_complement = capture_format_complement(input);
        if parsed.ir.diagram_type != DiagramType::Flowchart {
            return Err(FlowchartParseLensError::NotFlowchart);
        }
        let v = chars_of(input);
        let source = string_from_chars(&v);
        Ok(FlowchartParseLens { parsed, source })
    }

    /// The diagram parsed from the source: a well-formed flowchart.
    pub fn ir(&self) -> (r: &MermaidDiagramIr)
        ensures
            *r == self.diagram(),
            r.wf(),
            r.diagram_type == DiagramType::Flowchart,
    {
        proof {
            use_type_invariant(self);
        }
        &self.parsed.ir
    }

    /// The source, with its whitespace, comments, directives, quotes and line endings as given.
    pub fn original_source(&self) -> (r: &str)
        ensures
            r@ == self.source(),
    {
        self.source.as_str()
    }

    /// Write `edited` back as text: the source with only the changed node-label texts replaced
    /// (see [`put_result`]).
    pub fn put(&self, edited: &MermaidDiagramIr) -> (r: Result<String, FlowchartParseLensError>)
        ensures
            put_matches(r, put_result(self.diagram(), self.source(), *edited)),
    {
        proof {
            use_type_invariant(self);
        }
        if edited.diagram_type != DiagramType::Flowchart {
            return Err(FlowchartParseLensError::NotFlowchart);
        }
        let o = &self.parsed.ir;
        if !ir_same_but_label_texts(o, edited) {
            return Err(FlowchartParseLensError::UnsupportedIrChange);
        }
        let nl = o.labels.len();
        let mut changed: Vec<bool> = Vec::new();
        let mut count: usize = 0;
        let mut i: usize = 0;
        while i < nl
            invariant
                nl == o.labels@.len() == edited.labels@.len(),
                i <= nl,
                changed@.len() == i,
                forall|j: int| 0 <= j < i ==> #[trigger] changed@[j] == label_changed(*o, *edited, j),
                count == changed_below(*o, *edited, i as int),
                count <= i,
            decreases nl - i,
        {
            let c = !(o.labels[i].text == edited.labels[i].text);
            changed.push(c);
            if c {
                count = count + 1;
            }
            i = i + 1;
        }
        if count == 0 {
            return Ok(self.source.clone());
        }
        let src = chars_of(self.source.as_str());
        let mut reps: Vec<(usize, usize, Vec<char>)> = Vec::new();
        let nn = o.nodes.len();
        let mut k: usize = 0;
        while k < nn
            invariant
                o.wf(),
                nn == o.nodes@.len(),
                nl == o.labels@.len() == edited.labels@.len(),
                changed@.len() == nl,
                forall|j: int| 0 <= j < nl ==> #[trigger] changed@[j] == label_changed(*o, *edited, j),
                src@ == self.source(),
                *o == self.diagram(),
                k <= nn,
                reps_view(reps@) == reps_below(*o, *edited, src@, k as int),
                first_missing_below(*o, *edited, src@, k as int) is None,
                edited.diagram_type == DiagramType::Flowchart,
                same_but_label_texts(*o, *edited),
                count == changed_below(*o, *edited, nl as int),
                count > 0,
            decreases nn - k,
        {
            let node = &o.nodes[k];
            match node.label {
                None => {
                    assert(reps_view(reps@) == reps_below(*o, *edited, src@, k + 1));
                },
                Some(l) => {
                    assert(l.0 < nl);
                    if changed[l.0] {
                        match node_text_range_exec(&src, node, &o.labels[l.0].text) {
                            None => {
                                assert(first_missing_below(*o, *edited, src@, k + 1) == Some(k as int));
                                proof {
                                    lemma_first_missing_stable(*o, *edited, src@, k + 1, nn as int);
                                }
                                return Err(FlowchartParseLensError::MissingSourceLabel(node.id.clone()));
                            },
                            Some((a, b)) => {
                                let t = chars_of(edited.labels[l.0].text.as_str());
                                let ghost before = reps@;
                                reps.push((a, b, t));
                                assert(reps_view(reps@) =~= reps_view(before).push((a as int, b as int, t@)));
                            },
                        }
                    } else {
                        assert(reps_view(reps@) == reps_below(*o, *edited, src@, k + 1));
                    }
                },
            }
            k = k + 1;
        }
        if reps.len() != count {
            let mut j: usize = 0;
            while j < nl
                invariant
                    j <= nl == o.labels@.len(),
                    changed@.len() == nl,
                    forall|m: int| 0 <= m < nl ==> #[trigger] changed@[m] == label_changed(*o, *edited, m),
                    forall|m: int| 0 <= m < j ==> !(#[trigger] label_changed(*o, *edited, m) && !label_used(*o, m)),
                    edited.diagram_type == DiagramType::Flowchart,
                    same_but_label_texts(*o, *edited),
                    count == changed_below(*o, *edited, nl as int),
                    count > 0,
                    reps@.len() != count,
                    nn == o.nodes@.len(),
                    src@ == self.source(),
                    *o == self.diagram(),
                    reps_view(reps@) == reps_below(*o, *edited, src@, nn as int),
                    first_missing_below(*o, *edited, src@, nn as int) is None,
                decreases nl - j,
            {
                if changed[j] && !label_used_exec(o, j) {
                    assert(label_changed(*o, *edited, j as int) && !label_used(*o, j as int));
                    assert(unused_changed_label(*o, *edited));
                    assert(reps_view(reps@).len() == reps@.len());
                    return Err(FlowchartParseLensError::UnsupportedIrChange);
                }
                j = j + 1;
            }
        }
        let out = splice(&src, &reps);
        Ok(string_from_chars(&out))
    }
}

proof fn lemma_first_missing_stable(o: MermaidDiagramIr, e: MermaidDiagramIr, src: Seq<char>, a: int, b: int)
    requires
        a <= b,
        first_missing_below(o, e, src, a) is Some,
    ensures
        first_missing_below(o, e, src, b) == first_missing_below(o, e, src, a),
    decreases b - a,
{
    if a < b {
        lemma_first_missing_stable(o, e, src, a, b - 1);
    }
}

// ---------------------------------------------------------------------------------------------
// Laws.
proof fn lemma_nothing_changed(o: MermaidDiagramIr, i: int)
    ensures
        changed_below(o, o, i) == 0,
    decreases i,
{
    if i > 0 {
        lemma_nothing_changed(o, i - 1);
    }
}

/// Writing back the very diagram a lens parsed gives back its source unchanged.
pub proof fn law_put_of_the_parsed_diagram_is_the_source(o: MermaidDiagramIr, src: Seq<char>)
    requires
        o.diagram_type == DiagramType::Flowchart,
    ensures
        put_result(o, src, o) == Ok::<Seq<char>, FlowchartParseLensError>(src),
{
    assert(same_but_label_texts(o, o));
    lemma_nothing_changed(o, o.labels@.len() as int);
}

/// A diagram that differs from the parsed one in anything but label text is refused.
pub proof fn law_structural_edits_are_refused(o: MermaidDiagramIr, src: Seq<char>, e: MermaidDiagramIr)
    requires
        e.diagram_type == DiagramType::Flowchart,
        !same_but_label_texts(o, e),
    ensures
        put_result(o, src, e) == Err::<Seq<char>, FlowchartParseLensError>(FlowchartParseLensError::UnsupportedIrChange),
{
}

} // verus!
