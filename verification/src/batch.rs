//! Batch parsing: a plan over many flowcharts that finds the ones beginning with the same complete
//! `subgraph … end` blocks, so that a batch renderer can share work across them. Every parse the
//! plan makes is the ordinary parse of its input.
use vstd::prelude::*;

use crate::detect::ParserConfig;
use crate::diagrams::begins;
use crate::flow_tokens::is_flowchart_header;
use crate::flowchart::{is_end_window, subgraph_rest_window};
use crate::detect::DetectionMethod;
use crate::ir::{MermaidDiagramIr, MermaidParseMode, ParseResult};
use crate::ir_diff::{node_same, same_node};
use crate::parser::{parse_contract, parse_with_mode_and_config};
use crate::text::string_from_chars;
use crate::flow_tokens::spec_flowchart_header;
use crate::flowchart::subgraph_rest;
use crate::format::line_stop;
use crate::text::{chars_of, idx_of, index_of_char, starts_with, trim, trim_window};

verus! {

/// Work a [`FlowchartBatchParsePlan`] shares across its inputs.
#[derive(Debug, Clone, Copy, PartialEq, Eq, Structural)]
pub struct FlowchartBatchParseStats {
    /// Distinct shared prefixes, each common to two or more inputs.
    pub shared_prefix_groups: usize,
    /// Inputs that belong to a group.
    pub shared_prefix_inputs: usize,
    /// Prefix parses a batch renderer saves: one less than each group's size, summed.
    pub reused_prefix_parses: usize,
    /// Source bytes those saved parses would have read (saturating).
    pub reused_prefix_bytes: usize,
}

impl FlowchartBatchParseStats {
    /// The counts agree: every group has two or more inputs, and all but one of each group's
    /// inputs save a parse.
    pub open spec fn consistent(&self) -> bool {
        &&& self.reused_prefix_parses + self.shared_prefix_groups == self.shared_prefix_inputs
        &&& self.shared_prefix_inputs >= 2 * self.shared_prefix_groups
    }
}

impl Default for FlowchartBatchParseStats {
    fn default() -> (r: FlowchartBatchParseStats)
        ensures
            r.shared_prefix_groups == 0,
            r.shared_prefix_inputs == 0,
            r.reused_prefix_parses == 0,
            r.reused_prefix_bytes == 0,
    {
        FlowchartBatchParseStats {
            shared_prefix_groups: 0,
            shared_prefix_inputs: 0,
            reused_prefix_parses: 0,
            reused_prefix_bytes: 0,
        }
    }
}

/// A source prefix that a batch parse certifies as unchanged for reuse downstream: the prefix
/// text, and how many leading nodes and edges of the result it produced.
#[derive(Debug, Clone, PartialEq, Eq)]
pub struct FlowchartBatchPrefix {
    /// The exact source prefix.
    pub identity: String,
    /// Leading nodes of the result that the prefix produced.
    pub node_count: usize,
    /// Leading edges of the result that the prefix produced.
    pub edge_count: usize,
}

/// A parse result borrowed from a caller-owned batch slot.
pub struct FlowchartBatchParseRef<'a> {
    pub ir: &'a MermaidDiagramIr,
    pub warnings: &'a [String],
    pub confidence_hundredths: u32,
    pub detection_method: DetectionMethod,
    /// The certified shared prefix the parse reused, if any.
    pub reusable_prefix: Option<&'a FlowchartBatchPrefix>,
}

/// Whether `v` is a borrowed view of the whole of `p`.
pub open spec fn borrows_parse(v: FlowchartBatchParseRef<'_>, p: ParseResult) -> bool {
    &&& *v.ir == p.ir
    &&& v.warnings@ == p.warnings@
    &&& v.confidence_hundredths == p.confidence_hundredths
    &&& v.detection_method == p.detection_method
}

/// Whether `c` certifies that `p` begins with what `text` yields when parsed alone under
/// `parse_mode` and `config`: `c` names `text`, and the first `c.node_count` nodes and
/// `c.edge_count` edges of `p` are those of such a parse, which has exactly that many.
pub open spec fn certifies(
    text: Seq<char>,
    parse_mode: MermaidParseMode,
    config: ParserConfig,
    p: ParseResult,
    c: FlowchartBatchPrefix,
) -> bool {
    &&& c.identity@ == text
    &&& c.node_count <= p.ir.nodes@.len()
    &&& c.edge_count <= p.ir.edges@.len()
    &&& exists|q: ParseResult|
        #[trigger] parse_contract(text, parse_mode, config, q) && q.ir.nodes@.len() == c.node_count
            && q.ir.edges@.len() == c.edge_count && (forall|i: int|
            0 <= i < c.node_count ==> same_node(#[trigger] p.ir.nodes@[i], q.ir.nodes@[i])) && (forall|i: int|
            0 <= i < c.edge_count ==> #[trigger] p.ir.edges@[i] == q.ir.edges@[i])
}

/// Per-worker storage for [`FlowchartBatchParsePlan::with_parse_scratch`]: it keeps the worker's
/// last parse result, so that each worker owns the slot its borrowed results come from.
pub struct FlowchartBatchParseScratch {
    slot: Option<ParseResult>,
    prefix: Option<FlowchartBatchPrefix>,
}

impl FlowchartBatchParseScratch {
    /// The result the slot holds: the worker's last parse, if any.
    pub closed spec fn held(&self) -> Option<ParseResult> {
        self.slot
    }
}

impl Default for FlowchartBatchParseScratch {
    fn default() -> (r: FlowchartBatchParseScratch)
        ensures
            r.held() is None,
    {
        FlowchartBatchParseScratch { slot: None, prefix: None }
    }
}

/// A plan for parsing a batch of diagrams: which inputs share a prefix group, and the parse
/// settings. Its parses are the ordinary parses of their inputs.
pub struct FlowchartBatchParsePlan {
    pub(crate) prefixes: Vec<Vec<char>>,
    pub(crate) assignment: Vec<Option<usize>>,
    pub(crate) parse_mode: MermaidParseMode,
    pub(crate) parser_config: ParserConfig,
    pub(crate) stats: FlowchartBatchParseStats,
}

impl FlowchartBatchParsePlan {
    /// Every assigned group exists, and the counts agree with each other and with the assignment.
    #[verifier::type_invariant]
    spec fn inv(self) -> bool {
        &&& forall|k: int| 0 <= k < self.assignment@.len() ==> (#[trigger] self.assignment@[k] matches Some(g)
            ==> g < self.prefixes@.len())
        &&& self.stats.shared_prefix_groups == self.prefixes@.len()
        &&& self.stats.consistent()
        &&& self.stats.shared_prefix_inputs == count_grouped(self.assignment@)
        &&& self.stats.shared_prefix_inputs <= self.assignment@.len()
        &&& self.stats.reused_prefix_bytes == saved_bytes(
            views(self.prefixes@),
            self.assignment@,
            self.prefixes@.len() as int,
        )
    }

    /// The number of inputs the plan was made for.
    pub closed spec fn input_count(&self) -> nat {
        self.assignment@.len()
    }

    /// The group of input `index`, if it has one.
    pub closed spec fn group_of(&self, index: int) -> Option<usize> {
        if 0 <= index < self.assignment@.len() {
            self.assignment@[index]
        } else {
            None
        }
    }

    /// The number of groups.
    pub closed spec fn group_count(&self) -> nat {
        self.prefixes@.len()
    }

    /// The group of each input.
    pub closed spec fn groups(&self) -> Seq<Option<usize>> {
        self.assignment@
    }

    /// The text each group shares.
    pub closed spec fn group_texts(&self) -> Seq<Seq<char>> {
        views(self.prefixes@)
    }

    /// The parse mode the plan parses with.
    pub closed spec fn mode(&self) -> MermaidParseMode {
        self.parse_mode
    }

    /// The settings the plan parses with.
    pub closed spec fn config(&self) -> ParserConfig {
        self.parser_config
    }

    /// The shared work.
    pub closed spec fn stats_view(&self) -> FlowchartBatchParseStats {
        self.stats
    }
}

// ---------------------------------------------------------------------------------------------
// The leading blocks of a flowchart.

/// Where the line of `s` that starts at `i` ends: at its `\n`, or at the end of `s`.
pub open spec fn line_end(s: Seq<char>, i: int) -> int {
    i + idx_of(s.subrange(i, s.len() as int), '\n')
}

/// The trimmed text of the line of `s` that starts at `i`.
pub open spec fn line_at(s: Seq<char>, i: int) -> Seq<char> {
    trim(s.subrange(i, line_end(s, i)))
}

/// The complete `subgraph … end` blocks of `s` from line `i` on, scanned at block depth `depth`,
/// with `best` the end of the last complete top-level block so far: the end of the last block of
/// the run that ends at or before `limit`. The run stops at a top-level line that opens no block,
/// at an `end` with no block open, and at the first block that ends past `limit`.
pub open spec fn blocks_from(s: Seq<char>, limit: int, i: int, depth: nat, best: Option<int>) -> Option<
    int,
>
    decreases s.len() - i,
{
    if i < 0 || i >= s.len() || line_stop(s, i) <= i {
        best
    } else {
        let t = line_at(s, i);
        let next = line_stop(s, i);
        if subgraph_rest(t) is Some {
            blocks_from(s, limit, next, depth + 1, best)
        } else if t == "end"@ {
            if depth == 0 {
                best
            } else if depth == 1 {
                if next <= limit {
                    blocks_from(s, limit, next, 0, Some(next))
                } else {
                    best
                }
            } else {
                blocks_from(s, limit, next, (depth - 1) as nat, best)
            }
        } else if depth == 0 {
            best
        } else {
            blocks_from(s, limit, next, depth, best)
        }
    }
}

/// The end of the complete `subgraph … end` blocks that directly follow the flowchart header
/// line of `s`, as far as they end at or before `limit`.
pub open spec fn leading_blocks(s: Seq<char>, limit: int) -> Option<int> {
    let e = line_end(s, 0);
    if !spec_flowchart_header(trim(s.subrange(0, e))) || e >= s.len() {
        None
    } else {
        blocks_from(s, limit, e + 1, 0, None)
    }
}

/// Whether a trimmed line styles, classes or links nodes, changes the direction, or is an init
/// directive: a line that can change what the text before it produced.
pub open spec fn touches_prefix(t: Seq<char>) -> bool {
    ||| starts_with(t, "style "@)
    ||| starts_with(t, "classDef "@)
    ||| starts_with(t, "class "@)
    ||| starts_with(t, "click "@)
    ||| starts_with(t, "linkStyle "@)
    ||| starts_with(t, "direction "@)
    ||| starts_with(t, "%%{"@)
}

/// Whether no line of `s` from the one that starts at `i` on touches what came before it.
pub open spec fn keeps_from(s: Seq<char>, i: int) -> bool
    decreases s.len() - i,
{
    if i < 0 || i >= s.len() {
        true
    } else if touches_prefix(line_at(s, i)) {
        false
    } else if line_end(s, i) >= s.len() || line_stop(s, i) <= i {
        true
    } else {
        keeps_from(s, line_stop(s, i))
    }
}

/// The length of the leading blocks of `s` that a batch can share: they end the run of complete
/// leading blocks, and nothing after them touches them.
pub open spec fn own_prefix(s: Seq<char>) -> Option<int> {
    match leading_blocks(s, s.len() as int) {
        Some(p) => if keeps_from(s, p) {
            Some(p)
        } else {
            None
        },
        None => None,
    }
}

/// Whether `a` and `b` have the same shareable leading blocks.
pub open spec fn share_prefix(a: Seq<char>, b: Seq<char>) -> bool {
    &&& own_prefix(a) is Some
    &&& own_prefix(b) == own_prefix(a)
    &&& a.take(own_prefix(a)->0) == b.take(own_prefix(a)->0)
}

/// How many leading characters `a` and `b` share from `k` on, up to `limit`.
pub open spec fn shared_from(a: Seq<char>, b: Seq<char>, limit: int, k: int) -> int
    decreases limit - k,
{
    if k < limit && k < a.len() && k < b.len() && a[k] == b[k] {
        shared_from(a, b, limit, k + 1)
    } else {
        k
    }
}

/// The length of the prefix that the first `j` texts of `cs` share.
pub open spec fn common_prefix(cs: Seq<Seq<char>>, j: int) -> int
    decreases j,
{
    if j <= 1 {
        cs[0].len() as int
    } else {
        shared_from(cs[0], cs[j - 1], common_prefix(cs, j - 1), 0)
    }
}

/// The prefix that a whole batch of two or more texts shares: the end of the leading blocks of
/// the first text within the prefix common to all of them, when no text touches it afterwards.
pub open spec fn batch_prefix(cs: Seq<Seq<char>>) -> Option<int> {
    if cs.len() < 2 {
        None
    } else {
        match leading_blocks(cs[0], common_prefix(cs, cs.len() as int)) {
            Some(p) => if forall|m: int|
                0 <= m < cs.len() ==> keeps_from(
                    #[trigger] cs[m],
                    if p < cs[m].len() {
                        p
                    } else {
                        cs[m].len() as int
                    },
                ) {
                Some(p)
            } else {
                None
            },
            None => None,
        }
    }
}

/// The texts of `inputs`.
pub open spec fn texts(inputs: Seq<String>) -> Seq<Seq<char>> {
    Seq::new(inputs.len(), |k: int| inputs[k]@)
}

/// The texts of `v`.
pub open spec fn views(v: Seq<Vec<char>>) -> Seq<Seq<char>> {
    Seq::new(v.len(), |k: int| v[k]@)
}

// ---------------------------------------------------------------------------------------------
// Counting the members of groups.

/// How many entries of `a` name a group.
pub open spec fn count_grouped(a: Seq<Option<usize>>) -> nat
    decreases a.len(),
{
    if a.len() == 0 {
        0
    } else {
        count_grouped(a.drop_last()) + if a.last() is Some {
            1nat
        } else {
            0nat
        }
    }
}

/// How many entries of `a` name group `x`.
pub open spec fn members(a: Seq<Option<usize>>, x: usize) -> nat
    decreases a.len(),
{
    if a.len() == 0 {
        0
    } else {
        members(a.drop_last(), x) + if a.last() == Some(x) {
            1nat
        } else {
            0nat
        }
    }
}

/// How many entries of `a` name one of the groups below `g`.
pub open spec fn members_total(a: Seq<Option<usize>>, g: nat) -> nat
    decreases g,
{
    if g == 0 {
        0
    } else {
        members_total(a, (g - 1) as nat) + members(a, (g - 1) as usize)
    }
}

/// `v`, capped at the largest `usize`.
pub open spec fn capped(v: int) -> int {
    if v > usize::MAX {
        usize::MAX as int
    } else {
        v
    }
}

/// The UTF-8 length of `c`.
pub open spec fn utf8_width(c: char) -> nat {
    if (c as u32) < 0x80 {
        1
    } else if (c as u32) < 0x800 {
        2
    } else if (c as u32) < 0x10000 {
        3
    } else {
        4
    }
}

/// The UTF-8 length of `s`.
pub open spec fn utf8_bytes(s: Seq<char>) -> nat
    decreases s.len(),
{
    if s.len() == 0 {
        0
    } else {
        utf8_bytes(s.drop_last()) + utf8_width(s.last())
    }
}

/// The source bytes that sharing the first `x` group prefixes saves: each prefix's length times
/// one less than its group's size, summed, every step capped at the largest `usize`.
pub open spec fn saved_bytes(prefixes: Seq<Seq<char>>, a: Seq<Option<usize>>, x: int) -> int
    decreases x,
{
    if x <= 0 {
        0
    } else {
        capped(
            saved_bytes(prefixes, a, x - 1) + capped(
                capped(utf8_bytes(prefixes[x - 1]) as int) * (members(a, (x - 1) as usize) - 1),
            ),
        )
    }
}

/// `a` assigns inputs to the groups of `prefixes`, and `pairs` names two members of each group.
pub open spec fn well_grouped(prefixes: Seq<Seq<char>>, a: Seq<Option<usize>>, pairs: Seq<(usize, usize)>) -> bool {
    &&& pairs.len() == prefixes.len()
    &&& forall|k: int| 0 <= k < a.len() ==> (#[trigger] a[k] matches Some(x) ==> x < prefixes.len())
    &&& forall|x: int|
        0 <= x < pairs.len() ==> {
            &&& (#[trigger] pairs[x]).0 < a.len()
            &&& pairs[x].1 < a.len()
            &&& pairs[x].0 != pairs[x].1
            &&& a[pairs[x].0 as int] == Some(x as usize)
            &&& a[pairs[x].1 as int] == Some(x as usize)
        }
}

/// Inputs are grouped exactly when another input shares their own leading blocks, two grouped
/// inputs are in one group exactly when they share them, and a group's text is those blocks.
pub open spec fn groups_by_own_prefix(cs: Seq<Seq<char>>, prefixes: Seq<Seq<char>>, a: Seq<Option<usize>>) -> bool {
    &&& a.len() == cs.len()
    &&& forall|k: int|
        0 <= k < cs.len() ==> ((#[trigger] a[k]) is Some <==> exists|t: int|
            0 <= t < cs.len() && t != k && #[trigger] share_prefix(cs[k], cs[t]))
    &&& forall|k: int, t: int|
        0 <= k < cs.len() && 0 <= t < cs.len() && (#[trigger] a[k]) is Some && (#[trigger] a[t]) is Some
            ==> (a[k] == a[t] <==> share_prefix(cs[k], cs[t]))
    &&& forall|k: int|
        0 <= k < cs.len() ==> (#[trigger] a[k] matches Some(x) ==> prefixes[x as int] == cs[k].take(
            own_prefix(cs[k])->0,
        ))
}

proof fn lemma_total_empty(a: Seq<Option<usize>>, g: nat)
    requires
        a.len() == 0,
    ensures
        members_total(a, g) == 0,
    decreases g,
{
    if g > 0 {
        lemma_total_empty(a, (g - 1) as nat);
    }
}

proof fn lemma_total_push(a: Seq<Option<usize>>, o: Option<usize>, g: nat)
    requires
        g <= usize::MAX,
    ensures
        members_total(a.push(o), g) == members_total(a, g) + if o matches Some(y) && y < g {
            1int
        } else {
            0int
        },
    decreases g,
{
    assert(a.push(o).drop_last() =~= a);
    assert(a.push(o).last() == o);
    if g > 0 {
        lemma_total_push(a, o, (g - 1) as nat);
        let y = (g - 1) as usize;
        assert(members(a.push(o), y) == members(a, y) + if o == Some(y) {
            1nat
        } else {
            0nat
        });
    }
}

proof fn lemma_grouped_total(a: Seq<Option<usize>>, g: nat)
    requires
        g <= usize::MAX,
        forall|k: int| 0 <= k < a.len() ==> (#[trigger] a[k] matches Some(y) ==> y < g),
    ensures
        count_grouped(a) == members_total(a, g),
    decreases a.len(),
{
    if a.len() == 0 {
        lemma_total_empty(a, g);
    } else {
        let b = a.drop_last();
        assert forall|k: int| 0 <= k < b.len() implies (#[trigger] b[k] matches Some(y) ==> y < g) by {
            assert(b[k] == a[k]);
        }
        lemma_grouped_total(b, g);
        lemma_total_push(b, a.last(), g);
        assert(b.push(a.last()) =~= a);
        assert(a[a.len() - 1] == a.last());
    }
}

proof fn lemma_total_mono(a: Seq<Option<usize>>, x: nat, g: nat)
    requires
        x <= g,
    ensures
        members_total(a, x) <= members_total(a, g),
    decreases g,
{
    if x < g {
        lemma_total_mono(a, x, (g - 1) as nat);
    }
}

proof fn lemma_count_le(a: Seq<Option<usize>>)
    ensures
        count_grouped(a) <= a.len(),
    decreases a.len(),
{
    if a.len() > 0 {
        lemma_count_le(a.drop_last());
    }
}

proof fn lemma_one_member(a: Seq<Option<usize>>, x: usize, i: int)
    requires
        0 <= i < a.len(),
        a[i] == Some(x),
    ensures
        members(a, x) >= 1,
    decreases a.len(),
{
    if i < a.len() - 1 {
        assert(a.drop_last()[i] == a[i]);
        lemma_one_member(a.drop_last(), x, i);
    }
}

proof fn lemma_two_members(a: Seq<Option<usize>>, x: usize, i: int, j: int)
    requires
        0 <= i < a.len(),
        0 <= j < a.len(),
        i != j,
        a[i] == Some(x),
        a[j] == Some(x),
    ensures
        members(a, x) >= 2,
    decreases a.len(),
{
    let l = a.len() - 1;
    if i == l {
        assert(a.drop_last()[j] == a[j]);
        lemma_one_member(a.drop_last(), x, j);
    } else if j == l {
        assert(a.drop_last()[i] == a[i]);
        lemma_one_member(a.drop_last(), x, i);
    } else {
        assert(a.drop_last()[i] == a[i]);
        assert(a.drop_last()[j] == a[j]);
        lemma_two_members(a.drop_last(), x, i, j);
    }
}

/// `o` with its value widened.
pub open spec fn as_int(o: Option<usize>) -> Option<int> {
    match o {
        Some(x) => Some(x as int),
        None => None,
    }
}

/// The index just past the last of the complete `subgraph … end` blocks that directly follow the
/// flowchart header line of `s` and end at or before `limit`, if there is one.
fn leading_blocks_end(s: &Vec<char>, limit: usize) -> (r: Option<usize>)
    ensures
        as_int(r) == leading_blocks(s@, limit as int),
        r matches Some(x) ==> 0 < x <= limit && x <= s@.len(),
{
    let n = s.len();
    let nl0 = index_of_char(s, 0, n, '\n');
    assert(s@.subrange(0, n as int) =~= s@);
    let (ha, hb) = trim_window(s, 0, nl0);
    if !is_flowchart_header(s, ha, hb) || nl0 >= n {
        return None;
    }
    let ghost goal = leading_blocks(s@, limit as int);
    let mut i = nl0 + 1;
    let mut depth: usize = 0;
    let mut best: Option<usize> = None;
    while i < n
        invariant
            0 < i <= n == s@.len(),
            depth <= i,
            best matches Some(x) ==> 0 < x <= limit && x <= n,
            blocks_from(s@, limit as int, i as int, depth as nat, as_int(best)) == goal,
            goal == leading_blocks(s@, limit as int),
        decreases n - i,
    {
        let nl = index_of_char(s, i, n, '\n');
        let (ta, tb) = trim_window(s, i, nl);
        let next = if nl < n {
            nl + 1
        } else {
            n
        };
        assert(next as int == line_stop(s@, i as int));
        assert(s@.subrange(ta as int, tb as int) == line_at(s@, i as int));
        assert(next > i);
        if subgraph_rest_window(s, ta, tb).is_some() {
            depth = depth + 1;
        } else if is_end_window(s, ta, tb) {
            if depth == 0 {
                return best;
            }
            depth = depth - 1;
            if depth == 0 {
                if next <= limit {
                    best = Some(next);
                } else {
                    return best;
                }
            }
        } else if depth == 0 {
            return best;
        }
        i = next;
    }
    best
}

/// Whether the text of `s` from `p` on leaves the text before it alone: no line of it styles,
/// classes or links nodes, changes the direction, or is an init directive.
fn suffix_keeps_prefix(s: &Vec<char>, p: usize) -> (r: bool)
    requires
        p <= s@.len(),
    ensures
        r == keeps_from(s@, p as int),
{
    let n = s.len();
    let mut i = p;
    while i < n
        invariant
            p <= i <= n == s@.len(),
            keeps_from(s@, i as int) == keeps_from(s@, p as int),
        decreases n - i,
    {
        let nl = index_of_char(s, i, n, '\n');
        let (ta, tb) = trim_window(s, i, nl);
        assert(s@.subrange(ta as int, tb as int) == line_at(s@, i as int));
        if begins(s, ta, tb, "style ") || begins(s, ta, tb, "classDef ") || begins(s, ta, tb, "class ")
            || begins(s, ta, tb, "click ") || begins(s, ta, tb, "linkStyle ") || begins(s, ta, tb, "direction ")
            || begins(s, ta, tb, "%%{") {
            return false;
        }
        if nl >= n {
            return true;
        }
        assert(nl + 1 == line_stop(s@, i as int));
        i = nl + 1;
    }
    true
}

/// The number of UTF-8 bytes of `s[..p]`, capped at the largest `usize`.
fn utf8_len(s: &Vec<char>, p: usize) -> (r: usize)
    requires
        p <= s@.len(),
    ensures
        r == capped(utf8_bytes(s@.take(p as int)) as int),
{
    let mut total: usize = 0;
    let mut i: usize = 0;
    assert(s@.take(0) =~= Seq::<char>::empty());
    while i < p
        invariant
            i <= p <= s@.len(),
            total == capped(utf8_bytes(s@.take(i as int)) as int),
        decreases p - i,
    {
        let c = s[i] as u32;
        let w: usize = if c < 0x80 {
            1
        } else if c < 0x800 {
            2
        } else if c < 0x10000 {
            3
        } else {
            4
        };
        assert(s@.take(i + 1).drop_last() =~= s@.take(i as int));
        assert(s@.take(i + 1).last() == s@[i as int]);
        total = total.saturating_add(w);
        i = i + 1;
    }
    total
}

/// `a * b`, saturating at the largest `usize`.
fn times(a: usize, b: usize) -> (r: usize)
    ensures
        r == capped(a * b),
{
    match a.checked_mul(b) {
        Some(x) => x,
        None => usize::MAX,
    }
}

/// How many leading characters `a` and `b` share, up to `limit`.
fn common_len(a: &Vec<char>, b: &Vec<char>, limit: usize) -> (r: usize)
    ensures
        r == shared_from(a@, b@, limit as int, 0),
        r <= limit,
        r <= a@.len(),
        r <= b@.len(),
{
    let mut k: usize = 0;
    while k < limit && k < a.len() && k < b.len() && a[k] == b[k]
        invariant
            k <= limit,
            k <= a@.len(),
            k <= b@.len(),
            shared_from(a@, b@, limit as int, k as int) == shared_from(a@, b@, limit as int, 0),
        decreases limit - k,
    {
        k = k + 1;
    }
    k
}

/// Whether `a[..p]` and `b[..p]` are the same.
fn same_prefix(a: &Vec<char>, b: &Vec<char>, p: usize) -> (r: bool)
    ensures
        r == (p <= a@.len() && p <= b@.len() && a@.take(p as int) == b@.take(p as int)),
{
    if a.len() < p || b.len() < p {
        return false;
    }
    let mut k: usize = 0;
    while k < p
        invariant
            k <= p <= a@.len(),
            p <= b@.len(),
            forall|j: int| 0 <= j < k ==> a@[j] == b@[j],
        decreases p - k,
    {
        if a[k] != b[k] {
            assert(a@.take(p as int)[k as int] != b@.take(p as int)[k as int]);
            return false;
        }
        k = k + 1;
    }
    assert(a@.take(p as int) =~= b@.take(p as int));
    true
}

/// The first `p` characters of `s`.
fn head(s: &Vec<char>, p: usize) -> (r: Vec<char>)
    requires
        p <= s@.len(),
    ensures
        r@ == s@.take(p as int),
{
    let mut r: Vec<char> = Vec::new();
    let mut q: usize = 0;
    while q < p
        invariant
            q <= p <= s@.len(),
            r@ == s@.take(q as int),
        decreases p - q,
    {
        r.push(s[q]);
        assert(s@.take(q + 1) =~= s@.take(q as int).push(s@[q as int]));
        q = q + 1;
    }
    r
}

/// How many entries of `a` name group `x`.
fn count_members(a: &Vec<Option<usize>>, x: usize) -> (r: usize)
    ensures
        r == members(a@, x),
{
    let n = a.len();
    let mut size: usize = 0;
    let mut t: usize = 0;
    assert(a@.take(0) =~= Seq::<Option<usize>>::empty());
    while t < n
        invariant
            t <= n == a@.len(),
            size <= t,
            size == members(a@.take(t as int), x),
        decreases n - t,
    {
        assert(a@.take(t + 1).drop_last() =~= a@.take(t as int));
        assert(a@.take(t + 1).last() == a@[t as int]);
        let hit = match a[t] {
            Some(y) => y == x,
            None => false,
        };
        if hit {
            size = size + 1;
        }
        t = t + 1;
    }
    assert(a@.take(n as int) =~= a@);
    size
}

/// The work that sharing the groups of `a` saves.
fn tally(prefixes: &Vec<Vec<char>>, a: &Vec<Option<usize>>, pairs: &Vec<(usize, usize)>) -> (r:
    FlowchartBatchParseStats)
    requires
        well_grouped(views(prefixes@), a@, pairs@),
    ensures
        r.shared_prefix_groups == prefixes@.len(),
        r.shared_prefix_inputs == count_grouped(a@),
        r.reused_prefix_bytes == saved_bytes(views(prefixes@), a@, prefixes@.len() as int),
        r.consistent(),
{
    let g = prefixes.len();
    let ghost pv = views(prefixes@);
    proof {
        lemma_grouped_total(a@, g as nat);
        lemma_count_le(a@);
    }
    let alen = a.len();
    let mut grouped: usize = 0;
    let mut bytes: usize = 0;
    let mut x: usize = 0;
    while x < g
        invariant
            x <= g == prefixes@.len() == pairs@.len(),
            pv == views(prefixes@),
            well_grouped(pv, a@, pairs@),
            members_total(a@, g as nat) == count_grouped(a@) <= a@.len() == alen,
            grouped == members_total(a@, x as nat),
            grouped >= 2 * x,
            bytes == saved_bytes(pv, a@, x as int),
        decreases g - x,
    {
        let size = count_members(a, x);
        assert(members_total(a@, (x + 1) as nat) == members_total(a@, x as nat) + members(a@, x));
        proof {
            lemma_total_mono(a@, (x + 1) as nat, g as nat);
            let (i, j) = pairs@[x as int];
            lemma_two_members(a@, x, i as int, j as int);
        }
        grouped = grouped + size;
        let b = utf8_len(&prefixes[x], prefixes[x].len());
        assert(prefixes@[x as int]@.take(prefixes@[x as int]@.len() as int) =~= pv[x as int]);
        bytes = bytes.saturating_add(times(b, size - 1));
        x = x + 1;
    }
    FlowchartBatchParseStats {
        shared_prefix_groups: g,
        shared_prefix_inputs: grouped,
        reused_prefix_parses: grouped - g,
        reused_prefix_bytes: bytes,
    }
}

/// What the first pass of [`group_by_own_prefix`] knows after `i` inputs of `cv`: `second[g]`
/// names another input of key `g`'s prefix, or there is none yet.
spec fn second_ok(keys: Seq<(usize, usize)>, second: Seq<Option<usize>>, key_of: Seq<Option<usize>>, i: int, g: int) -> bool {
    match second[g] {
        Some(w) => w < i && w != keys[g].0 && key_of[w as int] == Some(g as usize),
        None => forall|t: int| 0 <= t < i && #[trigger] key_of[t] == Some(g as usize) ==> t == keys[g].0,
    }
}

/// What the first pass of [`group_by_own_prefix`] knows after `i` inputs of `cv`: each key is
/// the first input with its prefix, every input with a prefix has the key of that prefix, and no
/// two keys share a prefix.
spec fn keyed(cv: Seq<Seq<char>>, keys: Seq<(usize, usize)>, second: Seq<Option<usize>>, key_of: Seq<Option<usize>>, i: int) -> bool {
    &&& keys.len() == second.len()
    &&& key_of.len() == i
    &&& forall|g: int|
        0 <= g < keys.len() ==> {
            &&& (#[trigger] keys[g]).0 < i
            &&& keys[g].1 <= cv[keys[g].0 as int].len()
            &&& own_prefix(cv[keys[g].0 as int]) == Some(keys[g].1 as int)
            &&& key_of[keys[g].0 as int] == Some(g as usize)
        }
    &&& forall|t: int|
        0 <= t < i ==> (#[trigger] key_of[t] matches Some(g) ==> g < keys.len() && share_prefix(
            cv[t],
            cv[keys[g as int].0 as int],
        ))
    &&& forall|t: int| 0 <= t < i ==> ((#[trigger] key_of[t]) is None <==> own_prefix(cv[t]) is None)
    &&& forall|g: int, h: int|
        0 <= g < keys.len() && 0 <= h < keys.len() && g != h ==> !share_prefix(
            cv[(#[trigger] keys[g]).0 as int],
            cv[(#[trigger] keys[h]).0 as int],
        )
    &&& forall|g: int| 0 <= g < keys.len() ==> #[trigger] second_ok(keys, second, key_of, i, g)
}

/// Group the texts `cs` by their own shareable leading blocks: the group texts, each text's
/// group, and two members of each group.
fn group_by_own_prefix(cs: &Vec<Vec<char>>) -> (r: (Vec<Vec<char>>, Vec<Option<usize>>, Vec<(usize, usize)>))
    ensures
        well_grouped(views(r.0@), r.1@, r.2@),
        groups_by_own_prefix(views(cs@), views(r.0@), r.1@),
{
    let n = cs.len();
    let ghost cv = views(cs@);
    // Each key is an input that first had its prefix, with the prefix's length; `second` names
    // another input with the same prefix, once there is one.
    let mut keys: Vec<(usize, usize)> = Vec::new();
    let mut second: Vec<Option<usize>> = Vec::new();
    let mut key_of: Vec<Option<usize>> = Vec::new();
    let mut i: usize = 0;
    while i < n
        invariant
            i <= n == cs@.len() == cv.len(),
            cv == views(cs@),
            keyed(cv, keys@, second@, key_of@, i as int),
        decreases n - i,
    {
        let ghost old_keys = keys@;
        let ghost old_second = second@;
        let ghost old_key_of = key_of@;
        let full = cs[i].len();
        let mut own: Option<usize> = None;
        if let Some(p) = leading_blocks_end(&cs[i], full) {
            if suffix_keeps_prefix(&cs[i], p) {
                own = Some(p);
            }
        }
        assert(as_int(own) == own_prefix(cv[i as int]));
        match own {
            None => {
                key_of.push(None);
                proof {
                    assert forall|t: int| 0 <= t < i + 1 implies (#[trigger] key_of@[t] matches Some(g) ==> g
                        < keys@.len() && share_prefix(cv[t], cv[keys@[g as int].0 as int])) by {
                        if t < i {
                            assert(key_of@[t] == old_key_of[t]);
                        }
                    }
                    assert forall|g: int| 0 <= g < keys@.len() implies #[trigger] second_ok(keys@, second@, key_of@, i + 1, g) by {
                        assert(second_ok(old_keys, old_second, old_key_of, i as int, g));
                        match second@[g] {
                            Some(w) => {
                                assert(key_of@[w as int] == old_key_of[w as int]);
                            },
                            None => {
                                assert forall|t: int|
                                    0 <= t < i + 1 && #[trigger] key_of@[t] == Some(g as usize) implies t
                                    == keys@[g].0 by {
                                    assert(key_of@[t] == old_key_of[t]);
                                }
                            },
                        }
                    }
                    assert forall|g: int| 0 <= g < keys@.len() implies key_of@[(#[trigger] keys@[g]).0 as int]
                        == Some(g as usize) by {
                        assert(key_of@[keys@[g].0 as int] == old_key_of[keys@[g].0 as int]);
                    }
                }
            },
            Some(p) => {
                let mut found: Option<usize> = None;
                let mut g: usize = 0;
                while g < keys.len() && found.is_none()
                    invariant
                        g <= keys@.len(),
                        keys@ == old_keys,
                        i < n == cs@.len() == cv.len(),
                        cv == views(cs@),
                        own_prefix(cv[i as int]) == Some(p as int),
                        p <= cv[i as int].len(),
                        forall|h: int|
                            0 <= h < keys@.len() ==> {
                                &&& (#[trigger] keys@[h]).0 < i
                                &&& keys@[h].1 <= cv[keys@[h].0 as int].len()
                                &&& own_prefix(cv[keys@[h].0 as int]) == Some(keys@[h].1 as int)
                            },
                        found is None ==> forall|h: int|
                            0 <= h < g ==> !share_prefix(cv[(#[trigger] keys@[h]).0 as int], cv[i as int]),
                        found matches Some(x) ==> x < keys@.len() && share_prefix(
                            cv[keys@[x as int].0 as int],
                            cv[i as int],
                        ),
                    decreases keys@.len() - g,
                {
                    let (owner, len) = keys[g];
                    if len == p && same_prefix(&cs[owner], &cs[i], p) {
                        found = Some(g);
                    }
                    g = g + 1;
                }
                match found {
                    Some(x) => {
                        key_of.push(Some(x));
                        if second[x].is_none() {
                            second.set(x, Some(i));
                        }
                        proof {
                            assert forall|t: int| 0 <= t < i + 1 implies (#[trigger] key_of@[t] matches Some(
                                h,
                            ) ==> h < keys@.len() && share_prefix(cv[t], cv[keys@[h as int].0 as int])) by {
                                if t < i {
                                    assert(key_of@[t] == old_key_of[t]);
                                }
                            }
                            assert forall|t: int| 0 <= t < i + 1 implies ((#[trigger] key_of@[t]) is None
                                <==> own_prefix(cv[t]) is None) by {
                                if t < i {
                                    assert(key_of@[t] == old_key_of[t]);
                                }
                            }
                            assert forall|h: int| 0 <= h < keys@.len() implies #[trigger] second_ok(keys@, second@, key_of@, i + 1, h) by {
                                if h < old_keys.len() {
                                    assert(second_ok(old_keys, old_second, old_key_of, i as int, h));
                                }
                                if h == x {
                                    match old_second[h] {
                                        Some(w) => {
                                            assert(second@[h] == old_second[h]);
                                            assert(key_of@[w as int] == old_key_of[w as int]);
                                        },
                                        None => {},
                                    }
                                } else {
                                    assert(second@[h] == old_second[h]);
                                    match second@[h] {
                                        Some(w) => {
                                            assert(key_of@[w as int] == old_key_of[w as int]);
                                        },
                                        None => {
                                            assert forall|t: int|
                                                0 <= t < i + 1 && #[trigger] key_of@[t] == Some(h as usize)
                                                    implies t == keys@[h].0 by {
                                                assert(key_of@[t] == old_key_of[t]);
                                            }
                                        },
                                    }
                                }
                            }
                            assert forall|h: int| 0 <= h < keys@.len() implies key_of@[(
                            #[trigger] keys@[h]).0 as int] == Some(h as usize) by {
                                assert(key_of@[keys@[h].0 as int] == old_key_of[keys@[h].0 as int]);
                            }
                        }
                    },
                    None => {
                        keys.push((i, p));
                        second.push(None);
                        key_of.push(Some(keys.len() - 1));
                        proof {
                            let nk = old_keys.len() as int;
                            assert forall|h: int| 0 <= h < keys@.len() implies {
                                &&& (#[trigger] keys@[h]).0 < i + 1
                                &&& keys@[h].1 <= cv[keys@[h].0 as int].len()
                                &&& own_prefix(cv[keys@[h].0 as int]) == Some(keys@[h].1 as int)
                                &&& key_of@[keys@[h].0 as int] == Some(h as usize)
                            } by {
                                if h < nk {
                                    assert(keys@[h] == old_keys[h]);
                                    assert(key_of@[keys@[h].0 as int] == old_key_of[keys@[h].0 as int]);
                                }
                            }
                            assert forall|t: int| 0 <= t < i + 1 implies (#[trigger] key_of@[t] matches Some(
                                h,
                            ) ==> h < keys@.len() && share_prefix(cv[t], cv[keys@[h as int].0 as int])) by {
                                if t < i {
                                    assert(key_of@[t] == old_key_of[t]);
                                    if let Some(h) = key_of@[t] {
                                        assert(keys@[h as int] == old_keys[h as int]);
                                    }
                                }
                            }
                            assert forall|t: int| 0 <= t < i + 1 implies ((#[trigger] key_of@[t]) is None
                                <==> own_prefix(cv[t]) is None) by {
                                if t < i {
                                    assert(key_of@[t] == old_key_of[t]);
                                }
                            }
                            assert forall|g1: int, h: int|
                                0 <= g1 < keys@.len() && 0 <= h < keys@.len() && g1 != h implies !share_prefix(
                                cv[(#[trigger] keys@[g1]).0 as int],
                                cv[(#[trigger] keys@[h]).0 as int],
                            ) by {
                                if g1 < nk && h < nk {
                                    assert(keys@[g1] == old_keys[g1]);
                                    assert(keys@[h] == old_keys[h]);
                                } else if g1 < nk {
                                    assert(keys@[g1] == old_keys[g1]);
                                    assert(!share_prefix(cv[old_keys[g1].0 as int], cv[i as int]));
                                } else {
                                    assert(keys@[h] == old_keys[h]);
                                    assert(!share_prefix(cv[old_keys[h].0 as int], cv[i as int]));
                                }
                            }
                            assert forall|h: int| 0 <= h < keys@.len() implies #[trigger] second_ok(keys@, second@, key_of@, i + 1, h) by {
                                if h < old_keys.len() {
                                    assert(second_ok(old_keys, old_second, old_key_of, i as int, h));
                                }
                                if h < nk {
                                    assert(second@[h] == old_second[h]);
                                    assert(keys@[h] == old_keys[h]);
                                    match second@[h] {
                                        Some(w) => {
                                            assert(key_of@[w as int] == old_key_of[w as int]);
                                        },
                                        None => {
                                            assert forall|t: int|
                                                0 <= t < i + 1 && #[trigger] key_of@[t] == Some(h as usize)
                                                    implies t == keys@[h].0 by {
                                                if t < i {
                                                    assert(key_of@[t] == old_key_of[t]);
                                                }
                                            }
                                        },
                                    }
                                } else {
                                    assert forall|t: int|
                                        0 <= t < i + 1 && #[trigger] key_of@[t] == Some(h as usize) implies t
                                            == keys@[h].0 by {
                                        if t < i {
                                            assert(key_of@[t] == old_key_of[t]);
                                        }
                                    }
                                }
                            }
                        }
                    },
                }
            },
        }
        i = i + 1;
    }
    // Number the keys that have a second member: `rank` gives each key its group, and `gk` each
    // group its key.
    let mut rank: Vec<Option<usize>> = Vec::new();
    let mut prefixes: Vec<Vec<char>> = Vec::new();
    let mut pairs: Vec<(usize, usize)> = Vec::new();
    let ghost mut gk: Seq<int> = Seq::empty();
    let mut g: usize = 0;
    while g < keys.len()
        invariant
            g <= keys@.len() == second@.len(),
            n == cs@.len() == cv.len() == key_of@.len(),
            cv == views(cs@),
            keyed(cv, keys@, second@, key_of@, n as int),
            rank@.len() == g,
            prefixes@.len() == pairs@.len() == gk.len(),
            forall|h: int| 0 <= h < keys@.len() ==> (#[trigger] keys@[h]).0 < n && keys@[h].1 <= cv[keys@[h].0 as int].len(),
            forall|h: int| 0 <= h < g ==> ((#[trigger] rank@[h]) is None <==> second@[h] is None),
            forall|h: int| 0 <= h < g ==> (#[trigger] rank@[h] matches Some(x) ==> x < gk.len() && gk[x as int] == h),
            forall|x: int|
                0 <= x < gk.len() ==> {
                    &&& 0 <= #[trigger] gk[x] < g
                    &&& rank@[gk[x]] == Some(x as usize)
                    &&& second@[gk[x]] is Some
                    &&& pairs@[x] == (keys@[gk[x]].0, second@[gk[x]]->0)
                    &&& prefixes@[x]@ == cv[keys@[gk[x]].0 as int].take(keys@[gk[x]].1 as int)
                },
        decreases keys@.len() - g,
    {
        match second[g] {
            Some(w) => {
                let (owner, len) = keys[g];
                rank.push(Some(prefixes.len()));
                prefixes.push(head(&cs[owner], len));
                pairs.push((owner, w));
                proof {
                    gk = gk.push(g as int);
                }
            },
            None => {
                rank.push(None);
            },
        }
        g = g + 1;
    }
    let mut a: Vec<Option<usize>> = Vec::new();
    let mut t: usize = 0;
    while t < n
        invariant
            t <= n == key_of@.len(),
            a@.len() == t,
            rank@.len() == keys@.len(),
            n == cs@.len() == cv.len(),
            cv == views(cs@),
            keyed(cv, keys@, second@, key_of@, n as int),
            prefixes@.len() == pairs@.len() == gk.len(),
            forall|h: int| 0 <= h < keys@.len() ==> ((#[trigger] rank@[h]) is None <==> second@[h] is None),
            forall|h: int| 0 <= h < keys@.len() ==> (#[trigger] rank@[h] matches Some(x) ==> x < gk.len() && gk[x as int] == h),
            forall|x: int|
                0 <= x < gk.len() ==> {
                    &&& 0 <= #[trigger] gk[x] < keys@.len()
                    &&& rank@[gk[x]] == Some(x as usize)
                    &&& second@[gk[x]] is Some
                    &&& pairs@[x] == (keys@[gk[x]].0, second@[gk[x]]->0)
                    &&& prefixes@[x]@ == cv[keys@[gk[x]].0 as int].take(keys@[gk[x]].1 as int)
                },
            forall|u: int| 0 <= u < n ==> (#[trigger] key_of@[u] matches Some(h) ==> h < keys@.len()),
            forall|u: int|
                0 <= u < t ==> #[trigger] a@[u] == match key_of@[u] {
                    Some(h) => rank@[h as int],
                    None => None,
                },
        decreases n - t,
    {
        let v = match key_of[t] {
            Some(h) => rank[h],
            None => None,
        };
        a.push(v);
        t = t + 1;
    }
    proof {
        let pv = views(prefixes@);
        assert forall|k: int| 0 <= k < a@.len() implies (#[trigger] a@[k] matches Some(x) ==> x < pv.len()) by {
            if let Some(h) = key_of@[k] {
                if let Some(x) = rank@[h as int] {}
            }
        }
        assert forall|x: int| 0 <= x < pairs@.len() implies {
            &&& (#[trigger] pairs@[x]).0 < a@.len()
            &&& pairs@[x].1 < a@.len()
            &&& pairs@[x].0 != pairs@[x].1
            &&& a@[pairs@[x].0 as int] == Some(x as usize)
            &&& a@[pairs@[x].1 as int] == Some(x as usize)
        } by {
            let h = gk[x];
            let w = second@[h]->0;
            assert(second_ok(keys@, second@, key_of@, n as int, h));
            assert(key_of@[keys@[h].0 as int] == Some(h as usize));
            assert(key_of@[w as int] == Some(h as usize));
        }
        assert forall|k: int| 0 <= k < n implies ((#[trigger] a@[k]) is Some <==> exists|t: int|
            0 <= t < n && t != k && #[trigger] share_prefix(cv[k], cv[t])) by {
            if a@[k] is Some {
                let h = key_of@[k]->0 as int;
                let w = second@[h]->0;
                let o = keys@[h].0;
                assert(second_ok(keys@, second@, key_of@, n as int, h));
                assert(share_prefix(cv[k], cv[o as int]));
                if k != o {
                    assert(share_prefix(cv[k], cv[o as int]));
                } else {
                    assert(share_prefix(cv[w as int], cv[o as int]));
                    assert(share_prefix(cv[k], cv[w as int]));
                }
            }
            if exists|t: int| 0 <= t < n && t != k && #[trigger] share_prefix(cv[k], cv[t]) {
                let t = choose|t: int| 0 <= t < n && t != k && #[trigger] share_prefix(cv[k], cv[t]);
                assert(key_of@[k] is Some);
                assert(key_of@[t] is Some);
                let h = key_of@[k]->0 as int;
                let h2 = key_of@[t]->0 as int;
                if h != h2 {
                    assert(share_prefix(cv[keys@[h].0 as int], cv[keys@[h2].0 as int]));
                }
                assert(second_ok(keys@, second@, key_of@, n as int, h));
                if second@[h] is None {
                    assert(k == keys@[h].0);
                    assert(t == keys@[h].0);
                }
            }
        }
        assert forall|k: int, t: int|
            0 <= k < n && 0 <= t < n && (#[trigger] a@[k]) is Some && (#[trigger] a@[t]) is Some implies (a@[k]
                == a@[t] <==> share_prefix(cv[k], cv[t])) by {
            let h = key_of@[k]->0 as int;
            let h2 = key_of@[t]->0 as int;
            if h != h2 && share_prefix(cv[k], cv[t]) {
                assert(share_prefix(cv[keys@[h].0 as int], cv[keys@[h2].0 as int]));
            }
            if h != h2 {
                let x = rank@[h]->0;
                let y = rank@[h2]->0;
                assert(gk[x as int] == h);
                assert(gk[y as int] == h2);
            }
        }
        assert forall|k: int| 0 <= k < n implies (#[trigger] a@[k] matches Some(x) ==> pv[x as int] == cv[k].take(
            own_prefix(cv[k])->0,
        )) by {
            if let Some(x) = a@[k] {
                let h = key_of@[k]->0 as int;
                assert(gk[x as int] == h);
                assert(share_prefix(cv[k], cv[keys@[h].0 as int]));
            }
        }
    }
    (prefixes, a, pairs)
}

impl FlowchartBatchParsePlan {
    /// Plan the parses of `inputs`. When every input (two or more) begins with the same complete
    /// leading `subgraph` blocks, up to the last block boundary within their common prefix, and
    /// no input's later text touches that prefix, they form one group; otherwise inputs whose own
    /// shareable leading blocks are the same form a group when there are two or more of them.
    pub fn new(inputs: &Vec<String>, parse_mode: MermaidParseMode, config: &ParserConfig) -> (plan:
        FlowchartBatchParsePlan)
        ensures
            plan.input_count() == inputs@.len(),
            plan.mode() == parse_mode,
            plan.config() == *config,
            forall|k: int| 0 <= k < inputs@.len() ==> #[trigger] plan.group_of(k) == plan.groups()[k],
            batch_prefix(texts(inputs@)) matches Some(p) ==> {
                &&& plan.group_texts() == seq![texts(inputs@)[0].take(p)]
                &&& plan.groups() == Seq::new(inputs@.len(), |k: int| Some(0usize))
            },
            batch_prefix(texts(inputs@)) is None ==> groups_by_own_prefix(
                texts(inputs@),
                plan.group_texts(),
                plan.groups(),
            ),
            plan.stats_view().shared_prefix_groups == plan.group_count(),
            plan.stats_view().shared_prefix_inputs == count_grouped(plan.groups()),
            plan.stats_view().reused_prefix_bytes == saved_bytes(
                plan.group_texts(),
                plan.groups(),
                plan.group_count() as int,
            ),
            plan.stats_view().consistent(),
    {
        let n = inputs.len();
        let ghost tv = texts(inputs@);
        let mut cs: Vec<Vec<char>> = Vec::new();
        let mut k: usize = 0;
        while k < n
            invariant
                k <= n == inputs@.len() == tv.len(),
                tv == texts(inputs@),
                cs@.len() == k,
                forall|t: int| 0 <= t < k ==> (#[trigger] cs@[t])@ == tv[t],
            decreases n - k,
        {
            cs.push(chars_of(inputs[k].as_str()));
            k = k + 1;
        }
        assert(views(cs@) =~= tv);
        let mut whole: Option<usize> = None;
        if n >= 2 {
            let mut lcp = cs[0].len();
            let mut j: usize = 1;
            while j < n
                invariant
                    1 <= j <= n == cs@.len(),
                    views(cs@) == tv,
                    lcp == common_prefix(tv, j as int),
                decreases n - j,
            {
                lcp = common_len(&cs[0], &cs[j], lcp);
                j = j + 1;
            }
            if let Some(p) = leading_blocks_end(&cs[0], lcp) {
                let mut all = true;
                let mut m: usize = 0;
                while m < n
                    invariant
                        m <= n == cs@.len(),
                        views(cs@) == tv,
                        all == forall|q: int|
                            0 <= q < m ==> keeps_from(
                                #[trigger] tv[q],
                                if p < tv[q].len() {
                                    p as int
                                } else {
                                    tv[q].len() as int
                                },
                            ),
                    decreases n - m,
                {
                    let pm = if p < cs[m].len() {
                        p
                    } else {
                        cs[m].len()
                    };
                    let keeps = suffix_keeps_prefix(&cs[m], pm);
                    proof {
                        assert(cs@[m as int]@ == tv[m as int]);
                        if all && !keeps {
                            assert(!keeps_from(tv[m as int], pm as int));
                        }
                    }
                    all = all && keeps;
                    m = m + 1;
                }
                if all {
                    whole = Some(p);
                }
            }
        }
        assert(as_int(whole) == batch_prefix(tv));
        let (prefixes, assignment, pairs) = match whole {
            Some(p) => {
                let prefix = head(&cs[0], p);
                let mut assignment: Vec<Option<usize>> = Vec::new();
                let mut a: usize = 0;
                while a < n
                    invariant
                        a <= n,
                        assignment@.len() == a,
                        forall|t: int| 0 <= t < a ==> #[trigger] assignment@[t] == Some(0usize),
                    decreases n - a,
                {
                    assignment.push(Some(0));
                    a = a + 1;
                }
                let mut prefixes: Vec<Vec<char>> = Vec::new();
                prefixes.push(prefix);
                let mut pairs: Vec<(usize, usize)> = Vec::new();
                pairs.push((0, 1));
                assert(assignment@ =~= Seq::new(n as nat, |k: int| Some(0usize)));
                assert(views(prefixes@) =~= seq![tv[0].take(p as int)]);
                (prefixes, assignment, pairs)
            },
            None => group_by_own_prefix(&cs),
        };
        let stats = tally(&prefixes, &assignment, &pairs);
        proof {
            lemma_count_le(assignment@);
        }
        FlowchartBatchParsePlan { prefixes, assignment, parse_mode, parser_config: *config, stats }
    }
}

impl FlowchartBatchParsePlan {
    /// Parse input `index` of the batch: the ordinary parse of `input` under the plan's mode and
    /// settings, whatever group the input belongs to (an index or input that does not match the
    /// plan is parsed the same way).
    pub fn parse(&self, index: usize, input: &str) -> (r: ParseResult)
        ensures
            parse_contract(input@, self.mode(), self.config(), r),
    {
        parse_with_mode_and_config(input, self.parse_mode, &self.parser_config)
    }

    /// The certificate of input `index`'s `result` when the input belongs to a group and the
    /// result begins with exactly the nodes and edges of the group's text parsed alone.
    fn certify(&self, index: usize, result: &ParseResult) -> (r: Option<FlowchartBatchPrefix>)
        ensures
            r matches Some(c) ==> self.group_of(index as int) matches Some(g) && certifies(
                self.group_texts()[g as int],
                self.mode(),
                self.config(),
                *result,
                c,
            ),
    {
        proof {
            use_type_invariant(self);
        }
        if index >= self.assignment.len() {
            return None;
        }
        let g = match self.assignment[index] {
            Some(g) => g,
            None => {
                return None;
            },
        };
        let text = string_from_chars(&self.prefixes[g]);
        let alone = parse_with_mode_and_config(text.as_str(), self.parse_mode, &self.parser_config);
        let nn = alone.ir.nodes.len();
        let ne = alone.ir.edges.len();
        if nn > result.ir.nodes.len() || ne > result.ir.edges.len() {
            return None;
        }
        let mut i: usize = 0;
        while i < nn
            invariant
                i <= nn == alone.ir.nodes@.len() <= result.ir.nodes@.len(),
                forall|k: int| 0 <= k < i ==> same_node(#[trigger] result.ir.nodes@[k], alone.ir.nodes@[k]),
            decreases nn - i,
        {
            if !node_same(&result.ir.nodes[i], &alone.ir.nodes[i]) {
                return None;
            }
            i = i + 1;
        }
        let mut j: usize = 0;
        while j < ne
            invariant
                j <= ne == alone.ir.edges@.len() <= result.ir.edges@.len(),
                forall|k: int| 0 <= k < j ==> #[trigger] result.ir.edges@[k] == alone.ir.edges@[k],
            decreases ne - j,
        {
            if !(result.ir.edges[j] == alone.ir.edges[j]) {
                return None;
            }
            j = j + 1;
        }
        let c = FlowchartBatchPrefix { identity: text, node_count: nn, edge_count: ne };
        assert(parse_contract(self.group_texts()[g as int], self.mode(), self.config(), alone));
        Some(c)
    }

    /// Parse input `index` of the batch into the worker's `scratch` slot and hand `consume` a
    /// borrowed view of the result, which cannot outlive the call. The result is the ordinary
    /// parse of `input` under the plan's mode and settings; when the input belongs to a group and
    /// the result begins with exactly what the group's shared text yields alone, the view also
    /// carries that certified prefix.
    pub fn with_parse_scratch<R, F: FnOnce(FlowchartBatchParseRef<'_>) -> R>(
        &self,
        index: usize,
        input: &str,
        scratch: &mut FlowchartBatchParseScratch,
        consume: F,
    ) -> (r: R)
        requires
            forall|v: FlowchartBatchParseRef<'_>, p: ParseResult|
                parse_contract(input@, self.mode(), self.config(), p) && #[trigger] borrows_parse(v, p) && (
                v.reusable_prefix matches Some(c) ==> self.group_of(index as int) matches Some(g) && certifies(
                    self.group_texts()[g as int],
                    self.mode(),
                    self.config(),
                    p,
                    *c,
                )) ==> call_requires(consume, (v,)),
        ensures
            exists|v: FlowchartBatchParseRef<'_>, p: ParseResult|
                parse_contract(input@, self.mode(), self.config(), p) && #[trigger] borrows_parse(v, p) && (
                v.reusable_prefix matches Some(c) ==> self.group_of(index as int) matches Some(g) && certifies(
                    self.group_texts()[g as int],
                    self.mode(),
                    self.config(),
                    p,
                    *c,
                )) && call_ensures(consume, (v,), r),
    {
        let parsed = self.parse(index, input);
        let cert = self.certify(index, &parsed);
        scratch.slot = Some(parsed);
        scratch.prefix = cert;
        let held = scratch.slot.as_ref().unwrap();
        let view = FlowchartBatchParseRef {
            ir: &held.ir,
            warnings: held.warnings.as_slice(),
            confidence_hundredths: held.confidence_hundredths,
            detection_method: held.detection_method,
            reusable_prefix: scratch.prefix.as_ref(),
        };
        assert(borrows_parse(view, *held));
        consume(view)
    }

    /// The work the plan shares.
    pub fn stats(&self) -> (r: FlowchartBatchParseStats)
        ensures
            r == self.stats_view(),
            r.consistent(),
            r.shared_prefix_groups == self.group_count(),
            r.shared_prefix_inputs == count_grouped(self.groups()),
            r.shared_prefix_inputs <= self.input_count(),
            r.reused_prefix_bytes == saved_bytes(self.group_texts(), self.groups(), self.group_count() as int),
    {
        proof {
            use_type_invariant(self);
        }
        self.stats
    }

    /// The group of input `index`: a plan-local number, or `None` for an input that shares no
    /// prefix (or an index past the inputs).
    pub fn reusable_prefix_group(&self, index: usize) -> (r: Option<usize>)
        ensures
            r == self.group_of(index as int),
            r matches Some(g) ==> g < self.group_count(),
    {
        proof {
            use_type_invariant(self);
        }
        if index < self.assignment.len() {
            self.assignment[index]
        } else {
            None
        }
    }
}

} // verus!
