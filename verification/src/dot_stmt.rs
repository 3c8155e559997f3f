//! Readers for single DOT statements and attribute values: `key=value` graph attributes,
//! `rankdir`, `rank`, `label`, `minlen`, shapes, edge styles and subgraph headers.
use vstd::prelude::*;

use crate::dot_attrs::{
    clean_value, clean_value_window, extract_dot_attribute_raw, parse_dot_label_value, same_ci,
    spec_attr, spec_label_value,
};
use crate::dot_scan::{edge_op_from, find_edge_operator};
use crate::ir::{GraphDirection, NodeShape};
use crate::text::{
    ascii_lower_char, char_is_alphanumeric, chars_of, idx_of, index_of_char, trim, trim_window,
    unicode_alphanumeric, window_vec,
};

verus! {

/// `str::split_once('=')`.
pub open spec fn split_eq(s: Seq<char>) -> Option<(Seq<char>, Seq<char>)> {
    let k = idx_of(s, '=');
    if k >= s.len() {
        None
    } else {
        Some((s.take(k as int), s.skip(k as int + 1)))
    }
}

/// The windows of [`split_eq`] of `s[lo..hi]`: the key `[lo, k)` and the value `[k + 1, hi)`.
pub fn split_eq_window(s: &Vec<char>, lo: usize, hi: usize) -> (r: Option<usize>)
    requires
        lo <= hi <= s@.len(),
    ensures
        r matches Some(k) ==> lo <= k < hi && split_eq(s@.subrange(lo as int, hi as int)) == Some(
            (s@.subrange(lo as int, k as int), s@.subrange(k + 1, hi as int)),
        ),
        r is None ==> split_eq(s@.subrange(lo as int, hi as int)) is None,
{
    let k = index_of_char(s, lo, hi, '=');
    if k >= hi {
        return None;
    }
    assert(s@.subrange(lo as int, hi as int).take(k - lo) =~= s@.subrange(lo as int, k as int));
    assert(s@.subrange(lo as int, hi as int).skip(k - lo + 1) =~= s@.subrange(k + 1, hi as int));
    Some(k)
}

fn same_ci_str(s: &Vec<char>, a: usize, b: usize, t: &str) -> (r: bool)
    requires
        a <= b <= s@.len(),
    ensures
        r == same_ci(s@.subrange(a as int, b as int), t@),
{
    let tc = chars_of(t);
    if b - a != tc.len() {
        return false;
    }
    let mut k: usize = 0;
    while k < tc.len()
        invariant
            k <= tc@.len() == b - a,
            a <= b <= s@.len(),
            tc@ == t@,
            forall|m: int| 0 <= m < k ==> crate::text::eq_ci(s@[a + m], tc@[m]),
        decreases tc@.len() - k,
    {
        if !crate::text::char_eq_ci(s[a + k], tc[k]) {
            assert(!crate::text::eq_ci(s@.subrange(a as int, b as int)[k as int], tc@[k as int]));
            return false;
        }
        k = k + 1;
    }
    assert forall|m: int| 0 <= m < tc@.len() implies crate::text::eq_ci(
        #[trigger] s@.subrange(a as int, b as int)[m],
        t@[m],
    ) by {
        assert(s@.subrange(a as int, b as int)[m] == s@[a + m]);
    }
    true
}

// ---------------------------------------------------------------------------------------------
// rankdir.
/// The direction a `rankdir` value names: `TB`, `TD`, `LR`, `RL` or `BT`, ignoring ASCII case
/// once whitespace and quotes are removed.
pub open spec fn spec_rankdir_value(v: Seq<char>) -> Option<GraphDirection> {
    let t = clean_value(v);
    if same_ci(t, "TB"@) {
        Some(GraphDirection::TB)
    } else if same_ci(t, "TD"@) {
        Some(GraphDirection::TD)
    } else if same_ci(t, "LR"@) {
        Some(GraphDirection::LR)
    } else if same_ci(t, "RL"@) {
        Some(GraphDirection::RL)
    } else if same_ci(t, "BT"@) {
        Some(GraphDirection::BT)
    } else {
        None
    }
}

/// A `rankdir` value (in any ASCII case, quoted or not) names exactly the direction whose name it
/// is: `LR` left to right, `RL` right to left, `TB` and `TD` top down, `BT` bottom up.
pub proof fn law_rankdir_names_its_direction(v: Seq<char>, d: GraphDirection)
    ensures
        spec_rankdir_value(v) == Some(d) <==> same_ci(clean_value(v), crate::flow_tokens::direction_name(d)),
{
    reveal_strlit("LR");
    reveal_strlit("RL");
    reveal_strlit("TB");
    reveal_strlit("TD");
    reveal_strlit("BT");
    assert("LR"@ =~= seq!['L', 'R']);
    assert("RL"@ =~= seq!['R', 'L']);
    assert("TB"@ =~= seq!['T', 'B']);
    assert("TD"@ =~= seq!['T', 'D']);
    assert("BT"@ =~= seq!['B', 'T']);
    let c = clean_value(v);
    if c.len() == 2 {
        assert(same_ci(c, "LR"@) == (crate::text::eq_ci(c[0], 'L') && crate::text::eq_ci(c[1], 'R')));
        assert(same_ci(c, "RL"@) == (crate::text::eq_ci(c[0], 'R') && crate::text::eq_ci(c[1], 'L')));
        assert(same_ci(c, "TB"@) == (crate::text::eq_ci(c[0], 'T') && crate::text::eq_ci(c[1], 'B')));
        assert(same_ci(c, "TD"@) == (crate::text::eq_ci(c[0], 'T') && crate::text::eq_ci(c[1], 'D')));
        assert(same_ci(c, "BT"@) == (crate::text::eq_ci(c[0], 'B') && crate::text::eq_ci(c[1], 'T')));
        let n = crate::flow_tokens::direction_name(d);
        assert(same_ci(c, n) == (crate::text::eq_ci(c[0], n[0]) && crate::text::eq_ci(c[1], n[1])));
    }
}

pub fn parse_dot_rankdir_value(s: &Vec<char>, lo: usize, hi: usize) -> (r: Option<GraphDirection>)
    requires
        lo <= hi <= s@.len(),
    ensures
        r == spec_rankdir_value(s@.subrange(lo as int, hi as int)),
{
    let (a, b) = clean_value_window(s, lo, hi);
    if same_ci_str(s, a, b, "TB") {
        Some(GraphDirection::TB)
    } else if same_ci_str(s, a, b, "TD") {
        Some(GraphDirection::TD)
    } else if same_ci_str(s, a, b, "LR") {
        Some(GraphDirection::LR)
    } else if same_ci_str(s, a, b, "RL") {
        Some(GraphDirection::RL)
    } else if same_ci_str(s, a, b, "BT") {
        Some(GraphDirection::BT)
    } else {
        None
    }
}

/// A bare `rankdir=<value>` statement: its direction, or the cleaned value it could not read.
pub open spec fn spec_rankdir_statement(stmt: Seq<char>) -> Option<Result<GraphDirection, Seq<char>>> {
    match split_eq(stmt) {
        None => None,
        Some((key, value)) => if same_ci(trim(key), "rankdir"@) {
            Some(
                match spec_rankdir_value(value) {
                    Some(d) => Ok(d),
                    None => Err(clean_value(value)),
                },
            )
        } else {
            None
        },
    }
}

/// [`spec_rankdir_statement`] of `s[lo..hi]`; an unreadable value is returned as a window.
pub fn parse_dot_rankdir(s: &Vec<char>, lo: usize, hi: usize) -> (r: Option<
    Result<GraphDirection, (usize, usize)>,
>)
    requires
        lo <= hi <= s@.len(),
    ensures
        r is None ==> spec_rankdir_statement(s@.subrange(lo as int, hi as int)) is None,
        r matches Some(Ok(d)) ==> spec_rankdir_statement(s@.subrange(lo as int, hi as int)) == Some(
            Ok::<GraphDirection, Seq<char>>(d),
        ),
        r matches Some(Err((a, b))) ==> a <= b <= s@.len() && spec_rankdir_statement(
            s@.subrange(lo as int, hi as int),
        ) == Some(Err::<GraphDirection, Seq<char>>(s@.subrange(a as int, b as int))),
{
    let k = match split_eq_window(s, lo, hi) {
        Some(k) => k,
        None => return None,
    };
    let (ka, kb) = trim_window(s, lo, k);
    if !same_ci_str(s, ka, kb, "rankdir") {
        return None;
    }
    match parse_dot_rankdir_value(s, k + 1, hi) {
        Some(d) => Some(Ok(d)),
        None => {
            let (a, b) = clean_value_window(s, k + 1, hi);
            Some(Err((a, b)))
        },
    }
}

// ---------------------------------------------------------------------------------------------
// rank.
/// The value of a bare `rank=…` statement: `same`, or another value (lowercased).
pub enum RankValue {
    Same,
    Unsupported(Seq<char>),
}

pub open spec fn spec_rank_statement(stmt: Seq<char>) -> Option<RankValue> {
    match split_eq(stmt) {
        None => None,
        Some((key, value)) => if !same_ci(trim(key), "rank"@) {
            None
        } else {
            let v = clean_value(value);
            if same_ci(v, "same"@) {
                Some(RankValue::Same)
            } else if v.len() == 0 {
                None
            } else {
                Some(RankValue::Unsupported(v.map_values(|c: char| ascii_lower_char(c))))
            }
        },
    }
}

/// The exec form of [`RankValue`].
pub enum DotRankValue {
    Same,
    Unsupported(Vec<char>),
}

pub fn parse_dot_rank_attribute(s: &Vec<char>, lo: usize, hi: usize) -> (r: Option<DotRankValue>)
    requires
        lo <= hi <= s@.len(),
    ensures
        r is None ==> spec_rank_statement(s@.subrange(lo as int, hi as int)) is None,
        r matches Some(DotRankValue::Same) ==> spec_rank_statement(
            s@.subrange(lo as int, hi as int),
        ) == Some(RankValue::Same),
        r matches Some(DotRankValue::Unsupported(v)) ==> spec_rank_statement(
            s@.subrange(lo as int, hi as int),
        ) == Some(RankValue::Unsupported(v@)),
{
    let k = match split_eq_window(s, lo, hi) {
        Some(k) => k,
        None => return None,
    };
    let (ka, kb) = trim_window(s, lo, k);
    if !same_ci_str(s, ka, kb, "rank") {
        return None;
    }
    let (a, b) = clean_value_window(s, k + 1, hi);
    if same_ci_str(s, a, b, "same") {
        Some(DotRankValue::Same)
    } else if a == b {
        None
    } else {
        Some(DotRankValue::Unsupported(crate::text::ascii_lower_window(s, a, b)))
    }
}

// ---------------------------------------------------------------------------------------------
// Graph attributes.
pub open spec fn is_attr_key_char(c: char) -> bool {
    unicode_alphanumeric(c) || c == '_' || c == '-' || c == '.'
}

/// The key of a bare `key=value` graph-attribute statement: the text before the first `=`,
/// cleaned, when it is a non-empty identifier and the statement has no edge operator.
pub open spec fn spec_graph_attribute_key(stmt: Seq<char>) -> Option<Seq<char>> {
    if edge_op_from(stmt, 0) is Some {
        None
    } else {
        match split_eq(stmt) {
            None => None,
            Some((key, _)) => {
                let k = clean_value(key);
                if k.len() > 0 && forall|m: int| 0 <= m < k.len() ==> is_attr_key_char(#[trigger] k[m]) {
                    Some(k)
                } else {
                    None
                }
            },
        }
    }
}

fn all_key_chars(s: &Vec<char>, a: usize, b: usize) -> (r: bool)
    requires
        a <= b <= s@.len(),
    ensures
        r == forall|m: int|
            0 <= m < b - a ==> is_attr_key_char(#[trigger] s@.subrange(a as int, b as int)[m]),
{
    let mut i = a;
    while i < b
        invariant
            a <= i <= b <= s@.len(),
            forall|m: int| a <= m < i ==> is_attr_key_char(#[trigger] s@[m]),
        decreases b - i,
    {
        let c = s[i];
        if !(char_is_alphanumeric(c) || c == '_' || c == '-' || c == '.') {
            assert(!is_attr_key_char(s@.subrange(a as int, b as int)[i - a]));
            return false;
        }
        i = i + 1;
    }
    assert forall|m: int| 0 <= m < b - a implies is_attr_key_char(
        #[trigger] s@.subrange(a as int, b as int)[m],
    ) by {
        assert(s@.subrange(a as int, b as int)[m] == s@[a + m]);
    }
    true
}

fn all_digits(s: &Vec<char>, a: usize, b: usize) -> (r: bool)
    requires
        a <= b <= s@.len(),
    ensures
        r == forall|m: int|
            0 <= m < b - a ==> crate::text::is_ascii_digit(#[trigger] s@.subrange(a as int, b as int)[m]),
{
    let mut i = a;
    while i < b
        invariant
            a <= i <= b <= s@.len(),
            forall|m: int| a <= m < i ==> crate::text::is_ascii_digit(#[trigger] s@[m]),
        decreases b - i,
    {
        if !(s[i] >= '0' && s[i] <= '9') {
            assert(!crate::text::is_ascii_digit(s@.subrange(a as int, b as int)[i - a]));
            return false;
        }
        i = i + 1;
    }
    assert forall|m: int| 0 <= m < b - a implies crate::text::is_ascii_digit(
        #[trigger] s@.subrange(a as int, b as int)[m],
    ) by {
        assert(s@.subrange(a as int, b as int)[m] == s@[a + m]);
    }
    true
}

/// [`spec_graph_attribute_key`] of `s[lo..hi]`, as a window.
pub fn parse_dot_graph_attribute_key(s: &Vec<char>, lo: usize, hi: usize) -> (r: Option<
    (usize, usize),
>)
    requires
        lo <= hi <= s@.len(),
    ensures
        r matches Some((a, b)) ==> lo <= a <= b <= hi && spec_graph_attribute_key(
            s@.subrange(lo as int, hi as int),
        ) == Some(s@.subrange(a as int, b as int)),
        r is None ==> spec_graph_attribute_key(s@.subrange(lo as int, hi as int)) is None,
{
    let w = window_vec(s, lo, hi);
    if find_edge_operator(&w).is_some() {
        return None;
    }
    let k = match split_eq_window(s, lo, hi) {
        Some(k) => k,
        None => return None,
    };
    let (a, b) = clean_value_window(s, lo, k);
    if a == b {
        return None;
    }
    if !all_key_chars(s, a, b) {
        return None;
    }
    Some((a, b))
}

/// The value of a bare `name=value` graph-attribute statement (name matched ignoring ASCII
/// case), cleaned, when non-empty.
pub open spec fn spec_named_attribute(stmt: Seq<char>, name: Seq<char>) -> Option<Seq<char>> {
    match spec_graph_attribute_key(stmt) {
        None => None,
        Some(k) => if !same_ci(k, name) {
            None
        } else {
            match split_eq(stmt) {
                None => None,
                Some((_, value)) => {
                    let t = clean_value(value);
                    if t.len() > 0 {
                        Some(t)
                    } else {
                        None
                    }
                },
            }
        },
    }
}

pub fn parse_dot_named_attribute(s: &Vec<char>, lo: usize, hi: usize, name: &str) -> (r: Option<
    (usize, usize),
>)
    requires
        lo <= hi <= s@.len(),
    ensures
        r matches Some((a, b)) ==> lo <= a <= b <= hi && spec_named_attribute(
            s@.subrange(lo as int, hi as int),
            name@,
        ) == Some(s@.subrange(a as int, b as int)),
        r is None ==> spec_named_attribute(s@.subrange(lo as int, hi as int), name@) is None,
{
    let (ka, kb) = match parse_dot_graph_attribute_key(s, lo, hi) {
        Some(x) => x,
        None => return None,
    };
    if !same_ci_str(s, ka, kb, name) {
        return None;
    }
    let k = match split_eq_window(s, lo, hi) {
        Some(k) => k,
        None => return None,
    };
    let (a, b) = clean_value_window(s, k + 1, hi);
    if a == b {
        None
    } else {
        Some((a, b))
    }
}

/// The text of a bare `label=…` statement.
pub open spec fn spec_label_statement(stmt: Seq<char>) -> Option<Seq<char>> {
    match split_eq(stmt) {
        None => None,
        Some((key, value)) => if same_ci(trim(key), "label"@) {
            spec_label_value(value)
        } else {
            None
        },
    }
}

pub fn parse_dot_label_statement(s: &Vec<char>, lo: usize, hi: usize) -> (r: Option<Vec<char>>)
    requires
        lo <= hi <= s@.len(),
    ensures
        r matches Some(t) ==> spec_label_statement(s@.subrange(lo as int, hi as int)) == Some(t@),
        r is None ==> spec_label_statement(s@.subrange(lo as int, hi as int)) is None,
{
    let k = match split_eq_window(s, lo, hi) {
        Some(k) => k,
        None => return None,
    };
    let (ka, kb) = trim_window(s, lo, k);
    if !same_ci_str(s, ka, kb, "label") {
        return None;
    }
    parse_dot_label_value(s, k + 1, hi)
}

// ---------------------------------------------------------------------------------------------
// minlen.
/// The value of the ASCII decimal digits `d`.
pub open spec fn digits_value(d: Seq<char>) -> nat
    decreases d.len(),
{
    if d.len() == 0 {
        0
    } else {
        digits_value(d.drop_last()) * 10 + ((d.last() as u32) - 48) as nat
    }
}

/// Every character of `d` is an ASCII digit.
pub open spec fn all_ascii_digits(d: Seq<char>) -> bool {
    forall|m: int| 0 <= m < d.len() ==> crate::text::is_ascii_digit(#[trigger] d[m])
}

/// `t` without one leading `+`.
pub open spec fn unsigned_digits(t: Seq<char>) -> Seq<char> {
    if t.len() > 0 && t[0] == '+' {
        t.drop_first()
    } else {
        t
    }
}

/// `str::parse::<usize>`: an optional `+` and at least one ASCII digit, with a value that fits.
pub open spec fn spec_parse_usize(t: Seq<char>) -> Option<nat> {
    let d = unsigned_digits(t);
    if d.len() == 0 || !all_ascii_digits(d) {
        None
    } else if digits_value(d) > usize::MAX {
        None
    } else {
        Some(digits_value(d))
    }
}

proof fn lemma_digits_value_mono(d: Seq<char>, k: int)
    requires
        0 <= k <= d.len(),
        forall|m: int| 0 <= m < d.len() ==> crate::text::is_ascii_digit(#[trigger] d[m]),
    ensures
        digits_value(d.take(k)) <= digits_value(d),
    decreases d.len() - k,
{
    if k < d.len() {
        lemma_digits_value_mono(d, k + 1);
        assert(d.take(k + 1).drop_last() =~= d.take(k));
        assert(digits_value(d.take(k + 1)) == digits_value(d.take(k)) * 10 + ((d[k] as u32) - 48) as nat);
    } else {
        assert(d.take(k) =~= d);
    }
}

/// [`spec_parse_usize`] of `s[lo..hi]`.
pub fn parse_usize(s: &Vec<char>, lo: usize, hi: usize) -> (r: Option<usize>)
    requires
        lo <= hi <= s@.len(),
    ensures
        r matches Some(v) ==> spec_parse_usize(s@.subrange(lo as int, hi as int)) == Some(v as nat),
        r is None ==> spec_parse_usize(s@.subrange(lo as int, hi as int)) is None,
{
    let ghost t = s@.subrange(lo as int, hi as int);
    let start = if lo < hi && s[lo] == '+' {
        lo + 1
    } else {
        lo
    };
    let ghost d = s@.subrange(start as int, hi as int);
    assert(d == (if t.len() > 0 && t[0] == '+' {
        t.drop_first()
    } else {
        t
    }));
    if start == hi {
        assert(d.len() == 0);
        return None;
    }
    if !all_digits(s, start, hi) {
        proof {
            let m = choose|m: int|
                0 <= m < hi - start && !crate::text::is_ascii_digit(
                    #[trigger] s@.subrange(start as int, hi as int)[m],
                );
            assert(!crate::text::is_ascii_digit(d[m]));
        }
        return None;
    }
    let mut v: usize = 0;
    let mut j = start;
    while j < hi
        invariant
            start <= j <= hi <= s@.len(),
            t == s@.subrange(lo as int, hi as int),
            d == s@.subrange(start as int, hi as int),
            d == (if t.len() > 0 && t[0] == '+' {
                t.drop_first()
            } else {
                t
            }),
            d.len() > 0,
            forall|m: int| 0 <= m < d.len() ==> crate::text::is_ascii_digit(#[trigger] d[m]),
            v as nat == digits_value(d.take(j - start)),
        decreases hi - j,
    {
        assert(d[j - start] == s@[j as int]);
        let dv: usize = ((s[j] as u32) - 48) as usize;
        assert(d.take(j - start + 1).drop_last() =~= d.take(j - start));
        match v.checked_mul(10) {
            Some(m) => match m.checked_add(dv) {
                Some(nv) => {
                    v = nv;
                },
                None => {
                    proof {
                        lemma_digits_value_mono(d, j - start + 1);
                    }
                    return None;
                },
            },
            None => {
                proof {
                    lemma_digits_value_mono(d, j - start + 1);
                }
                return None;
            },
        }
        j = j + 1;
    }
    assert(d.take(hi - start) =~= d);
    Some(v)
}

/// DOT's `minlen`: a rank span of at least two, the unsupported same-rank `0`, or a value that is
/// not a non-negative integer (`1`, the default, asks for nothing).
pub enum MinLenView {
    Ranks(nat),
    SameRankUnsupported,
    Invalid(Seq<char>),
}

pub open spec fn spec_minlen(attrs: Seq<char>) -> Option<MinLenView> {
    match spec_attr(attrs, "minlen"@) {
        None => None,
        Some(v) => {
            let t = clean_value(v);
            match spec_parse_usize(t) {
                Some(n) => if n == 0 {
                    Some(MinLenView::SameRankUnsupported)
                } else if n == 1 {
                    None
                } else {
                    Some(MinLenView::Ranks(n))
                },
                None => Some(MinLenView::Invalid(t)),
            }
        },
    }
}

pub enum DotMinLen {
    Ranks(usize),
    SameRankUnsupported,
    Invalid(Vec<char>),
}

impl DotMinLen {
    pub open spec fn view_parts(&self) -> MinLenView {
        match self {
            DotMinLen::Ranks(n) => MinLenView::Ranks(*n as nat),
            DotMinLen::SameRankUnsupported => MinLenView::SameRankUnsupported,
            DotMinLen::Invalid(t) => MinLenView::Invalid(t@),
        }
    }
}

pub fn parse_dot_minlen(attrs: &Vec<char>) -> (r: Option<DotMinLen>)
    ensures
        r matches Some(m) ==> spec_minlen(attrs@) == Some(m.view_parts()),
        r is None ==> spec_minlen(attrs@) is None,
{
    let v = match extract_dot_attribute_raw(attrs, "minlen") {
        Some(v) => v,
        None => return None,
    };
    let n = v.len();
    assert(v@.subrange(0, n as int) =~= v@);
    let (a, b) = clean_value_window(&v, 0, n);
    match parse_usize(&v, a, b) {
        Some(0) => Some(DotMinLen::SameRankUnsupported),
        Some(1) => None,
        Some(k) => Some(DotMinLen::Ranks(k)),
        None => Some(DotMinLen::Invalid(window_vec(&v, a, b))),
    }
}

} // verus!
