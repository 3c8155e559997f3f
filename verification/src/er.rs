//! Entity-relationship diagrams: entity blocks with their attribute lines, relationships between
//! entities, and standalone entity declarations.
use vstd::prelude::*;

use crate::builder::IrBuilder;
use crate::diagrams::{
    LineState, apply_direction, begins, clean_window, intern, is_word, lemma_state_grows, link,
    strip_end_char, warn_line,
};
use crate::flow_tokens::{OperatorSet, find_operator, op_scan, ops_of, parse_node_token, spec_node_token};
use crate::flowchart::{grows, lemma_grows_refl, lemma_grows_trans};
use crate::ir::{IrAttributeKey, Span, NodeShape};
use crate::text::{
    char_eq_ci, char_is_whitespace, eq_ci, idx_of, index_of_char, is_ws, starts_with, string_from_chars, trim,
    trim_window, window_vec,
};

verus! {

/// An attribute line `type name [key] [comment]` of an entity block.
pub struct ErAttribute {
    pub data_type: String,
    pub name: String,
    pub key: IrAttributeKey,
    pub comment: Option<String>,
}

/// The views of a list of character vectors.
pub open spec fn parts_view(v: Seq<Vec<char>>) -> Seq<Seq<char>> {
    v.map_values(|w: Vec<char>| w@)
}

/// The whitespace-separated words of `t` from index `i` on, `cur` being the word in progress
/// (`str::split_whitespace`).
pub open spec fn words_from(t: Seq<char>, i: int, cur: Seq<char>) -> Seq<Seq<char>>
    decreases t.len() - i,
{
    if i < 0 || i >= t.len() {
        if cur.len() > 0 {
            seq![cur]
        } else {
            seq![]
        }
    } else if is_ws(t[i]) {
        (if cur.len() > 0 {
            seq![cur]
        } else {
            seq![]
        }) + words_from(t, i + 1, seq![])
    } else {
        words_from(t, i + 1, cur.push(t[i]))
    }
}

/// The whitespace-separated words of `t`.
pub open spec fn words(t: Seq<char>) -> Seq<Seq<char>> {
    words_from(t, 0, seq![])
}

/// Whether `t` has a character that is not whitespace.
pub open spec fn has_non_ws(t: Seq<char>) -> bool {
    exists|k: int| 0 <= k < t.len() && !is_ws(#[trigger] t[k])
}

proof fn lemma_word_run(w: Seq<char>, i: int, j: int)
    requires
        0 <= i <= j <= w.len(),
        forall|k: int| i <= k < j ==> !is_ws(#[trigger] w[k]),
    ensures
        words_from(w, i, seq![]) == words_from(w, j, w.subrange(i, j)),
    decreases j - i,
{
    if i < j {
        lemma_word_run(w, i, j - 1);
        assert(w.subrange(i, j - 1).push(w[j - 1]) =~= w.subrange(i, j));
        assert(words_from(w, j - 1, w.subrange(i, j - 1)) == words_from(w, j, w.subrange(i, j)));
    } else {
        assert(w.subrange(i, j) =~= Seq::<char>::empty());
    }
}

/// Append the whitespace-separated words of `w` to `parts`.
fn push_words(parts: &mut Vec<Vec<char>>, w: &Vec<char>)
    ensures
        parts_view(final(parts)@) == parts_view(old(parts)@) + words(w@),
{
    let n = w.len();
    let mut i: usize = 0;
    while i < n
        invariant
            i <= n == w@.len(),
            parts_view(parts@) + words_from(w@, i as int, seq![]) == parts_view(old(parts)@) + words(w@),
        decreases n - i,
    {
        if char_is_whitespace(w[i]) {
            assert(words_from(w@, i as int, seq![]) =~= words_from(w@, i + 1, seq![]));
            i = i + 1;
        } else {
            let mut j = i;
            while j < n && !char_is_whitespace(w[j])
                invariant
                    i <= j <= n == w@.len(),
                    forall|k: int| i <= k < j ==> !is_ws(#[trigger] w@[k]),
                decreases n - j,
            {
                j = j + 1;
            }
            proof {
                lemma_word_run(w@, i as int, j as int);
            }
            let ghost before = parts@;
            let word = window_vec(w, i, j);
            parts.push(word);
            assert(parts_view(parts@) =~= parts_view(before).push(w@.subrange(i as int, j as int)));
            if j < n {
                assert(words_from(w@, j as int, w@.subrange(i as int, j as int)) =~= seq![w@.subrange(
                    i as int,
                    j as int,
                )] + words_from(w@, j + 1, seq![]));
                assert(words_from(w@, j as int, seq![]) =~= words_from(w@, j + 1, seq![]));
            } else {
                assert(words_from(w@, j as int, seq![]) =~= Seq::<Seq<char>>::empty());
            }
            assert(parts_view(parts@) + words_from(w@, j as int, seq![]) =~= parts_view(before)
                + words_from(w@, i as int, seq![]));
            i = j;
        }
    }
    assert(words_from(w@, n as int, seq![]) =~= Seq::<Seq<char>>::empty());
    assert(parts_view(parts@) =~= parts_view(parts@) + words_from(w@, n as int, seq![]));
}

/// Whether `w` has a character that is not whitespace.
fn has_content(w: &Vec<char>) -> (r: bool)
    ensures
        r == has_non_ws(w@),
{
    let mut i: usize = 0;
    while i < w.len()
        invariant
            i <= w@.len(),
            forall|k: int| 0 <= k < i ==> is_ws(#[trigger] w@[k]),
        decreases w@.len() - i,
    {
        if !char_is_whitespace(w[i]) {
            return true;
        }
        i = i + 1;
    }
    false
}

/// Whether `w` is `p`, ignoring ASCII case.
pub open spec fn word_eq_ci(w: Seq<char>, p: Seq<char>) -> bool {
    w.len() == p.len() && forall|k: int| 0 <= k < w.len() ==> eq_ci(#[trigger] w[k], p[k])
}

fn word_is_ci(w: &Vec<char>, p: &str) -> (r: bool)
    ensures
        r == word_eq_ci(w@, p@),
{
    let pc = crate::text::chars_of(p);
    if w.len() != pc.len() {
        return false;
    }
    let mut i: usize = 0;
    while i < w.len()
        invariant
            i <= w@.len() == pc@.len(),
            pc@ == p@,
            forall|k: int| 0 <= k < i ==> eq_ci(#[trigger] w@[k], pc@[k]),
        decreases w@.len() - i,
    {
        if !char_eq_ci(w[i], pc[i]) {
            return false;
        }
        i = i + 1;
    }
    true
}

/// The words of an attribute line `t` from index `i` on: whitespace separates words and a
/// `"…"` quote is one word (an unclosed one too, when it holds anything); `current` is the
/// unquoted text not yet split, `quote` the quoted text in progress.
pub open spec fn parts_from(t: Seq<char>, i: int, current: Seq<char>, quote: Seq<char>, in_quote: bool) -> Seq<
    Seq<char>,
>
    decreases t.len() - i,
{
    if i < 0 || i >= t.len() {
        (if has_non_ws(current) {
            words(current)
        } else {
            seq![]
        }) + (if in_quote && quote.len() > 0 {
            seq![quote]
        } else {
            seq![]
        })
    } else if t[i] == '"' {
        if in_quote {
            seq![quote] + parts_from(t, i + 1, current, seq![], false)
        } else if has_non_ws(current) {
            words(current) + parts_from(t, i + 1, seq![], quote, true)
        } else {
            parts_from(t, i + 1, current, quote, true)
        }
    } else if in_quote {
        parts_from(t, i + 1, current, quote.push(t[i]), in_quote)
    } else {
        parts_from(t, i + 1, current.push(t[i]), quote, in_quote)
    }
}

/// The words of the attribute line `t`.
pub open spec fn attribute_words(t: Seq<char>) -> Seq<Seq<char>> {
    parts_from(t, 0, seq![], seq![], false)
}

/// The words of an attribute line `s[a..e]` (see [`attribute_words`]).
fn attribute_parts(s: &Vec<char>, a: usize, e: usize) -> (r: Vec<Vec<char>>)
    requires
        a <= e <= s@.len(),
    ensures
        parts_view(r@) == attribute_words(s@.subrange(a as int, e as int)),
{
    let ghost t = s@.subrange(a as int, e as int);
    let mut parts: Vec<Vec<char>> = Vec::new();
    let mut current: Vec<char> = Vec::new();
    let mut quote: Vec<char> = Vec::new();
    let mut in_quote = false;
    let mut i = a;
    while i < e
        invariant
            a <= i <= e <= s@.len(),
            t == s@.subrange(a as int, e as int),
            parts_view(parts@) + parts_from(t, i - a, current@, quote@, in_quote) == attribute_words(t),
        decreases e - i,
    {
        let c = s[i];
        assert(t[i - a] == c);
        let ghost pv = parts_view(parts@);
        if c == '"' {
            if in_quote {
                let q = quote;
                parts.push(q);
                quote = Vec::new();
                in_quote = false;
                assert(parts_view(parts@) =~= pv.push(q@));
                assert(parts_view(parts@) + parts_from(t, i + 1 - a, current@, quote@, in_quote) =~= pv + (
                seq![q@] + parts_from(t, i + 1 - a, current@, seq![], false)));
            } else {
                if has_content(&current) {
                    let ghost cur = current@;
                    push_words(&mut parts, &current);
                    current = Vec::new();
                    assert(parts_view(parts@) + parts_from(t, i + 1 - a, current@, quote@, true) =~= pv
                        + (words(cur) + parts_from(t, i + 1 - a, seq![], quote@, true)));
                }
                in_quote = true;
            }
        } else if in_quote {
            quote.push(c);
        } else {
            current.push(c);
        }
        i = i + 1;
    }
    assert(parts_from(t, e - a, current@, quote@, in_quote) == (if has_non_ws(current@) {
        words(current@)
    } else {
        seq![]
    }) + (if in_quote && quote@.len() > 0 {
        seq![quote@]
    } else {
        seq![]
    }));
    let ghost pv = parts_view(parts@);
    if has_content(&current) {
        push_words(&mut parts, &current);
    }
    let ghost pw = parts_view(parts@);
    if in_quote && quote.len() > 0 {
        parts.push(quote);
        assert(parts_view(parts@) =~= pw.push(quote@));
    }
    assert(parts_view(parts@) =~= pv + parts_from(t, e - a, current@, quote@, in_quote));
    parts
}

/// The key marker a word names, if any.
pub open spec fn key_word(w: Seq<char>) -> Option<IrAttributeKey> {
    if word_eq_ci(w, "PK"@) {
        Some(IrAttributeKey::Pk)
    } else if word_eq_ci(w, "FK"@) {
        Some(IrAttributeKey::Fk)
    } else if word_eq_ci(w, "UK"@) {
        Some(IrAttributeKey::Uk)
    } else {
        None
    }
}

/// The last key marker among `parts[2..i]`.
pub open spec fn last_key_below(parts: Seq<Seq<char>>, i: int) -> IrAttributeKey
    decreases i,
{
    if i <= 2 {
        IrAttributeKey::Unmarked
    } else {
        match key_word(parts[i - 1]) {
            Some(k) => k,
            None => last_key_below(parts, i - 1),
        }
    }
}

/// The first of `parts[2..i]` that is no key marker.
pub open spec fn first_comment_below(parts: Seq<Seq<char>>, i: int) -> Option<Seq<char>>
    decreases i,
{
    if i <= 2 {
        None
    } else {
        match first_comment_below(parts, i - 1) {
            Some(c) => Some(c),
            None => if key_word(parts[i - 1]) is None {
                Some(parts[i - 1])
            } else {
                None
            },
        }
    }
}

/// What an attribute line holds: its first two words are type and name; among the rest the last
/// key marker counts, and the first word that is no key marker is the comment.
pub open spec fn attribute_of(t: Seq<char>) -> Option<(Seq<char>, Seq<char>, IrAttributeKey, Option<Seq<char>>)> {
    let p = attribute_words(trim(t));
    if p.len() < 2 {
        None
    } else {
        Some((p[0], p[1], last_key_below(p, p.len() as int), first_comment_below(p, p.len() as int)))
    }
}

/// The attribute line `s[a..e]` (see [`attribute_of`]).
fn parse_er_attribute(s: &Vec<char>, a: usize, e: usize) -> (r: Option<ErAttribute>)
    requires
        a <= e <= s@.len(),
    ensures
        match (r, attribute_of(s@.subrange(a as int, e as int))) {
            (None, None) => true,
            (Some(x), Some((t, n, k, c))) => x.data_type@ == t && x.name@ == n && x.key == k && match (
                x.comment,
                c,
            ) {
                (None, None) => true,
                (Some(y), Some(z)) => y@ == z,
                _ => false,
            },
            _ => false,
        },
{
    let (ta, tb) = trim_window(s, a, e);
    let parts = attribute_parts(s, ta, tb);
    let ghost p = parts_view(parts@);
    if parts.len() < 2 {
        return None;
    }
    let mut key = IrAttributeKey::Unmarked;
    let mut comment: Option<String> = None;
    let mut i: usize = 2;
    while i < parts.len()
        invariant
            2 <= i <= parts@.len(),
            p == parts_view(parts@),
            key == last_key_below(p, i as int),
            match (comment, first_comment_below(p, i as int)) {
                (None, None) => true,
                (Some(y), Some(z)) => y@ == z,
                _ => false,
            },
        decreases parts@.len() - i,
    {
        assert(p[i as int] == parts@[i as int]@);
        if word_is_ci(&parts[i], "PK") {
            key = IrAttributeKey::Pk;
        } else if word_is_ci(&parts[i], "FK") {
            key = IrAttributeKey::Fk;
        } else if word_is_ci(&parts[i], "UK") {
            key = IrAttributeKey::Uk;
        } else if comment.is_none() {
            comment = Some(string_from_chars(&parts[i]));
        }
        i = i + 1;
    }
    assert(p[0] == parts@[0]@ && p[1] == parts@[1]@);
    Some(ErAttribute {
        data_type: string_from_chars(&parts[0]),
        name: string_from_chars(&parts[1]),
        key,
        comment,
    })
}

/// Whether `t` is a relationship `left <op> right[: label]`: before any `:`, an
/// entity-relationship operator splits the text into two non-empty sides that read as node
/// tokens with non-empty ids.
pub open spec fn er_relation(t: Seq<char>) -> bool {
    let k = idx_of(t, ':');
    let body = if k < t.len() {
        trim(t.subrange(0, k as int))
    } else {
        trim(t)
    };
    match op_scan(OperatorSet::Er, body, 0, None) {
        None => false,
        Some((idx, bo)) => {
            let len = ops_of(OperatorSet::Er)[bo].0.len();
            let lt = trim(body.subrange(0, idx));
            let rt = trim(body.subrange(idx + len, body.len() as int));
            lt.len() > 0 && rt.len() > 0 && match (spec_node_token(lt), spec_node_token(rt)) {
                (Some(l), Some(r)) => trim(l.id).len() > 0 && trim(r.id).len() > 0,
                _ => false,
            }
        },
    }
}

/// A relationship `left <op> right[: label]` with the entity-relationship operators. Returns
/// whether both sides named an entity.
fn lower_er_relationship(b: &mut IrBuilder, s: &Vec<char>, a: usize, e: usize, span: Span) -> (r: bool)
    requires
        old(b).wf(),
        a <= e <= s@.len(),
    ensures
        grows(*old(b), *final(b)),
        final(b).ir.direction == old(b).ir.direction,
        r == er_relation(s@.subrange(a as int, e as int)),
        r ==> final(b).ir.edges@.len() == old(b).ir.edges@.len() + 1,
        !r ==> final(b).ir.edges@ == old(b).ir.edges@,
{
    proof {
        lemma_grows_refl(*b);
    }
    let ghost t = s@.subrange(a as int, e as int);
    let c = index_of_char(s, a, e, ':');
    proof {
        crate::text::lemma_idx_of(t, ':');
        assert(s@.subrange(a as int, c as int) =~= t.subrange(0, c - a));
    }
    let ((ra, rb), label) = if c < e {
        (trim_window(s, a, c), clean_window(s, c + 1, e))
    } else {
        (trim_window(s, a, e), None)
    };
    let ghost body = s@.subrange(ra as int, rb as int);
    let w = window_vec(s, ra, rb);
    let (idx, len, arrow, _) = match find_operator(&w, OperatorSet::Er) {
        Some(x) => x,
        None => return false,
    };
    assert(s@.subrange(ra as int, ra + idx) =~= body.subrange(0, idx as int));
    assert(s@.subrange(ra + idx + len, rb as int) =~= body.subrange(idx + len, body.len() as int));
    let (la, lb) = trim_window(s, ra, ra + idx);
    let (xa, xb) = trim_window(s, ra + idx + len, rb);
    if la == lb || xa == xb {
        return false;
    }
    let left = match parse_node_token(s, la, lb) {
        Some(t) => t,
        None => return false,
    };
    let right = match parse_node_token(s, xa, xb) {
        Some(t) => t,
        None => return false,
    };
    let ghost b0 = *b;
    let ll = match &left.label {
        Some(x) => Some(x.as_str()),
        None => None,
    };
    let from = intern(b, left.id.as_str(), ll, NodeShape::Rect, span);
    let ghost b1 = *b;
    let rl = match &right.label {
        Some(x) => Some(x.as_str()),
        None => None,
    };
    let to = intern(b, right.id.as_str(), rl, NodeShape::Rect, span);
    proof {
        lemma_grows_trans(b0, b1, *b);
    }
    match (from, to) {
        (Some(f), Some(t)) => {
            let ghost b2 = *b;
            let l = match &label {
                Some(x) => Some(x.as_str()),
                None => None,
            };
            link(b, f, t, arrow, l, span);
            proof {
                lemma_grows_trans(b0, b2, *b);
            }
            true
        },
        _ => false,
    }
}

/// Whether the entity-relationship line `l` may be something other than a relationship: the
/// header, a direction, a `class` assignment, an entity block's opening or closing.
pub open spec fn er_not_relationship(l: Seq<char>) -> bool {
    l == "erDiagram"@ || starts_with(l, "direction "@) || starts_with(l, "class "@) || (l.len() > 0
        && l.last() == '{') || (l.len() > 0 && l[0] == '}')
}

/// The edges an entity-relationship line adds at least: one for a relationship that can be
/// nothing else.
pub open spec fn er_line_fn_lo() -> spec_fn(Seq<char>) -> nat {
    |l: Seq<char>| if !er_not_relationship(l) && er_relation(l) {
        1nat
    } else {
        0nat
    }
}

/// The edges an entity-relationship line adds at most: one for a relationship.
pub open spec fn er_line_fn_hi() -> spec_fn(Seq<char>) -> nat {
    |l: Seq<char>| if er_relation(l) {
        1nat
    } else {
        0nat
    }
}

/// One line of an entity-relationship diagram.
pub fn er_line(
    b: &mut IrBuilder,
    st: &mut LineState,
    s: &Vec<char>,
    ta: usize,
    tb: usize,
    line_number: usize,
    span: Span,
)
    requires
        old(b).wf(),
        old(st).ok(*old(b)),
        ta <= tb <= s@.len(),
    ensures
        grows(*old(b), *final(b)),
        final(st).ok(*final(b)),
        old(b).ir.edges@.len() + (er_line_fn_lo())(s@.subrange(ta as int, tb as int)) <= final(b).ir.edges@.len(),
        final(b).ir.edges@.len() <= old(b).ir.edges@.len() + (er_line_fn_hi())(s@.subrange(ta as int, tb as int)),
{
    let ghost b0 = *b;
    proof {
        lemma_grows_refl(*b);
    }
    if is_word(s, ta, tb, "erDiagram") {
        return;
    }
    if begins(s, ta, tb, "direction ") {
        apply_direction(b, s, ta, tb);
        proof {
            lemma_state_grows(st, b0, *b);
        }
        return;
    }
    if crate::directives::lower_class_assignment(b, s, ta, tb, span) {
        proof {
            lemma_state_grows(st, b0, *b);
        }
        return;
    }
    if tb > ta && s[tb - 1] == '{' {
        let y = strip_end_char(s, ta, tb, '{');
        let (na, nb) = trim_window(s, ta, y);
        if let Some(tok) = parse_node_token(s, na, nb) {
            let l = match &tok.label {
                Some(x) => Some(x.as_str()),
                None => None,
            };
            let entity = intern(b, tok.id.as_str(), l, NodeShape::Rect, span);
            proof {
                lemma_state_grows(st, b0, *b);
            }
            st.entity = entity;
            return;
        }
    }
    if ta < tb && s[ta] == '}' {
        st.entity = None;
        return;
    }
    if lower_er_relationship(b, s, ta, tb, span) {
        proof {
            lemma_state_grows(st, b0, *b);
        }
        return;
    }
    let ghost b1 = *b;
    proof {
        lemma_state_grows(st, b0, b1);
    }
    if let Some(k) = st.entity {
        if let Some(attr) = parse_er_attribute(s, ta, tb) {
            b.add_entity_attribute(k, attr.data_type, attr.name, attr.key, attr.comment);
            proof {
                assert(grows(b1, *b));
                lemma_grows_trans(b0, b1, *b);
                lemma_state_grows(st, b1, *b);
            }
            return;
        }
    }
    if let Some(tok) = parse_node_token(s, ta, tb) {
        let l = match &tok.label {
            Some(x) => Some(x.as_str()),
            None => None,
        };
        let _ = intern(b, tok.id.as_str(), l, tok.shape, span);
        proof {
            lemma_grows_trans(b0, b1, *b);
            lemma_state_grows(st, b1, *b);
        }
        return;
    }
    warn_line(b, line_number, "unsupported er syntax: ", s, ta, tb);
    proof {
        lemma_grows_trans(b0, b1, *b);
        lemma_state_grows(st, b1, *b);
    }
}

} // verus!
