//! The flowchart directives `class <nodes> <classes>` and `click <node> <target>`.
use vstd::prelude::*;

use crate::builder::IrBuilder;
use crate::diagrams::{after, first_token, identifier_of, warn_line, warn_text, word_end, ws_end};
use crate::flowchart::{grows, lemma_grows_refl, lemma_grows_trans};
use crate::ir::{Span, trim_char_window};
use crate::text::{
    ascii_lower_char, ascii_lower_window, char_eq_ci, char_is_whitespace, chars_of, line_message,
    push_str, push_window, starts_with, string_of_window, trim_window, idx_of, index_of_char, occurs_at_ci,
};

verus! {

// ---------------------------------------------------------------------------------------------
// Link targets.
/// The value of a hexadecimal digit.
pub open spec fn hex_value(c: char) -> Option<u32> {
    if '0' <= c && c <= '9' {
        Some((c as u32 - '0' as u32) as u32)
    } else if 'a' <= c && c <= 'f' {
        Some((c as u32 - 'a' as u32 + 10) as u32)
    } else if 'A' <= c && c <= 'F' {
        Some((c as u32 - 'A' as u32 + 10) as u32)
    } else {
        None
    }
}

/// What one decoded byte reads as: itself when it is ASCII, otherwise a character that is not.
pub open spec fn byte_unit(v: int) -> char {
    if 0 <= v < 128 {
        v as char
    } else {
        '\u{FFFD}'
    }
}

/// The percent-decoding of `s` from index `i`: each `%` followed by two hexadecimal digits is the
/// byte they spell. A decoded byte that is not ASCII never reads as an ASCII character, so the
/// checks below, which look only at ASCII characters, see it as one non-ASCII unit.
pub open spec fn percent_decoded(s: Seq<char>, i: int) -> Seq<char>
    decreases s.len() - i,
{
    if i < 0 || i >= s.len() {
        Seq::empty()
    } else if s[i] == '%' && i + 2 < s.len() && hex_value(s[i + 1]) is Some && hex_value(s[i + 2]) is Some {
        seq![byte_unit(hex_value(s[i + 1])->0 * 16 + hex_value(s[i + 2])->0)] + percent_decoded(s, i + 3)
    } else {
        seq![s[i]] + percent_decoded(s, i + 1)
    }
}

/// Whether a link target is safe: once decoded, it does not use the `javascript:`, `data:` or
/// `vbscript:` scheme (ASCII case ignored), and it is an http, https, mailto or tel link, a path
/// (`/…`), a fragment (`#…`) or has no scheme at all.
pub open spec fn safe_click_target(target: Seq<char>) -> bool {
    let decoded = percent_decoded(target, 0);
    let lower = decoded.map_values(|c: char| ascii_lower_char(c));
    &&& !starts_with(lower, "javascript:"@)
    &&& !starts_with(lower, "data:"@)
    &&& !starts_with(lower, "vbscript:"@)
    &&& (starts_with(lower, "https://"@) || starts_with(lower, "http://"@) || starts_with(
        lower,
        "mailto:"@,
    ) || starts_with(lower, "tel:"@) || starts_with(decoded, "/"@) || starts_with(decoded, "#"@)
        || !lower.contains(':'))
}

fn hex_digit(c: char) -> (r: Option<u32>)
    ensures
        r == hex_value(c),
        r matches Some(v) ==> v < 16,
{
    if '0' <= c && c <= '9' {
        Some(c as u32 - '0' as u32)
    } else if 'a' <= c && c <= 'f' {
        Some(c as u32 - 'a' as u32 + 10)
    } else if 'A' <= c && c <= 'F' {
        Some(c as u32 - 'A' as u32 + 10)
    } else {
        None
    }
}

/// [`percent_decoded`] of `s`.
pub fn decode_percent_triplets(s: &Vec<char>) -> (r: Vec<char>)
    ensures
        r@ == percent_decoded(s@, 0),
{
    let n = s.len();
    let mut out: Vec<char> = Vec::new();
    let mut i: usize = 0;
    while i < n
        invariant
            i <= n == s@.len(),
            out@ + percent_decoded(s@, i as int) == percent_decoded(s@, 0),
        decreases n - i,
    {
        let ghost before = out@;
        if s[i] == '%' && n - i > 2 {
            if let (Some(h), Some(l)) = (hex_digit(s[i + 1]), hex_digit(s[i + 2])) {
                let v = h * 16 + l;
                let u = if v < 128 {
                    let c = v as u8 as char;
                    assert(c as u32 == v);
                    assert(c == byte_unit(v as int));
                    c
                } else {
                    '\u{FFFD}'
                };
                out.push(u);
                assert(before + percent_decoded(s@, i as int) =~= out@ + percent_decoded(s@, i + 3));
                i = i + 3;
                continue;
            }
        }
        out.push(s[i]);
        assert(before + percent_decoded(s@, i as int) =~= out@ + percent_decoded(s@, i + 1));
        i = i + 1;
    }
    assert(out@ + percent_decoded(s@, i as int) =~= out@);
    out
}

/// Whether the link target `target` is safe (see [`safe_click_target`]).
pub fn is_safe_click_target(target: &Vec<char>) -> (r: bool)
    ensures
        r == safe_click_target(target@),
{
    let decoded = decode_percent_triplets(target);
    let n = decoded.len();
    let lower = ascii_lower_window(&decoded, 0, n);
    assert(decoded@.subrange(0, n as int) =~= decoded@);
    assert(lower@.subrange(0, n as int) =~= lower@);
    proof {
        reveal_strlit("/");
        reveal_strlit("#");
    }
    if lower_starts(&lower, "javascript:") || lower_starts(&lower, "data:") || lower_starts(
        &lower,
        "vbscript:",
    ) {
        return false;
    }
    let has_colon = crate::text::window_contains(&lower, 0, n, ':');
    let path = n > 0 && (decoded[0] == '/' || decoded[0] == '#');
    assert(path == (starts_with(decoded@, "/"@) || starts_with(decoded@, "#"@))) by {
        assert("/"@ =~= seq!['/']);
        assert("#"@ =~= seq!['#']);
        if n > 0 {
            assert(decoded@.subrange(0, 1) =~= seq![decoded@[0]]);
        }
    }
    lower_starts(&lower, "https://") || lower_starts(&lower, "http://") || lower_starts(
        &lower,
        "mailto:",
    ) || lower_starts(&lower, "tel:") || path || !has_colon
}

fn lower_starts(v: &Vec<char>, p: &str) -> (r: bool)
    ensures
        r == starts_with(v@, p@),
{
    let n = v.len();
    assert(v@.subrange(0, n as int) =~= v@);
    crate::text::matches_at(v, 0, n, 0, &chars_of(p))
}

// ---------------------------------------------------------------------------------------------
// Tokens.
/// Whether `c` opens a quoted token.
pub open spec fn is_quote(c: char) -> bool {
    c == '"' || c == '\'' || c == '`'
}

/// The first token of `s[a..e]` after leading whitespace (see [`take_token`]).
pub open spec fn spec_take_token(s: Seq<char>, a: int, e: int) -> Option<(int, int, int)> {
    let i = a + ws_end(s.subrange(a, e), 0);
    if i >= e {
        None
    } else if is_quote(s[i]) {
        let j = i + 1 + idx_of(s.subrange(i + 1, e), s[i]);
        if j < e {
            Some((i, j + 1, j + 1))
        } else {
            Some((i, e, e))
        }
    } else {
        let u = s.subrange(i, e);
        let x = i + ws_end(u, 0);
        let y = i + word_end(u, ws_end(u, 0));
        if x == y {
            None
        } else {
            Some((x, y, y))
        }
    }
}

/// The first token of `s[a..e]` after leading whitespace: a quoted run through its closing quote
/// (or to the end, unclosed), else the run up to the next whitespace. Its window, and the index
/// where the rest starts.
fn take_token(s: &Vec<char>, a: usize, e: usize) -> (r: Option<(usize, usize, usize)>)
    requires
        a <= e <= s@.len(),
    ensures
        r matches Some((x, y, z)) ==> a <= x < y <= z <= e && spec_take_token(s@, a as int, e as int) == Some(
            (x as int, y as int, z as int),
        ),
        r is None ==> spec_take_token(s@, a as int, e as int) is None,
{
    let (i, _) = first_token(s, a, e);
    if i >= e {
        return None;
    }
    let q = s[i];
    if q == '"' || q == '\'' || q == '`' {
        let j = index_of_char(s, i + 1, e, q);
        if j < e {
            return Some((i, j + 1, j + 1));
        }
        return Some((i, e, e));
    }
    let (x, y) = first_token(s, i, e);
    if x == y {
        return None;
    }
    Some((x, y, y))
}

/// Whether `s[a..e]` is `p`, ignoring ASCII case.
fn word_ci(s: &Vec<char>, a: usize, e: usize, p: &str) -> (r: bool)
    requires
        a <= e <= s@.len(),
    ensures
        r == (e - a == p@.len() && occurs_at_ci(s@.subrange(a as int, e as int), 0, p@)),
{
    let pc = chars_of(p);
    e - a == pc.len() && crate::text::matches_at_ci(s, a, e, 0, &pc)
}

// ---------------------------------------------------------------------------------------------
// The directives.
/// `click <node> <target>`, `click <node> href <target>` or `click <node> call …`: a node with a
/// safe link target gets the class `has-link`; everything else is reported. Returns whether the
/// statement `s[a..e]` was a `click` directive.
pub fn lower_click_directive(b: &mut IrBuilder, s: &Vec<char>, a: usize, e: usize, line_number: usize, span: Span) -> (r:
    bool)
    requires
        old(b).wf(),
        a <= e <= s@.len(),
    ensures
        grows(*old(b), *final(b)),
        final(b).ir.direction == old(b).ir.direction,
        final(b).ir.edges@ == old(b).ir.edges@,
        final(b).ir.clusters@ == old(b).ir.clusters@,
        final(b).ir.subgraphs@ == old(b).ir.subgraphs@,
        r == starts_with(s@.subrange(a as int, e as int), "click "@),
        !r ==> *final(b) == *old(b),
        final(b).ir.nodes@ != old(b).ir.nodes@ ==> exists|x: int, y: int|
            a <= x <= y <= e && safe_click_target(#[trigger] s@.subrange(x, y)),
{
    proof {
        lemma_grows_refl(*b);
    }
    let rest = match after(s, a, e, "click ") {
        Some(x) => x,
        None => return false,
    };
    let (na, nb, after_node) = match take_token(s, rest, e) {
        Some(t) => t,
        None => {
            warn_line(b, line_number, "malformed click directive (missing node id): ", s, a, e);
            return true;
        },
    };
    let node_id = identifier_of(s, na, nb);
    if node_id.as_str().is_empty() {
        warn_line(b, line_number, "malformed click directive (invalid node id): ", s, a, e);
        return true;
    }
    let (ta, tb, after_target) = match take_token(s, after_node, e) {
        Some(t) => t,
        None => {
            warn_line(b, line_number, "malformed click directive (missing target): ", s, a, e);
            return true;
        },
    };
    let (ra, rb) = if word_ci(s, ta, tb, "href") {
        match take_token(s, after_target, e) {
            Some((x, y, _)) => (x, y),
            None => {
                warn_line(b, line_number, "malformed click directive (missing href target): ", s, a, e);
                return true;
            },
        }
    } else if word_ci(s, ta, tb, "call") || word_ci(s, ta, tb, "callback") {
        warn_text(
            b,
            line_message(
                line_number,
                "click callbacks are not supported yet; keeping node without link metadata",
            ),
        );
        return true;
    } else {
        (ta, tb)
    };
    let (c1, d1) = trim_window(s, ra, rb);
    let (c2, d2) = trim_char_window(s, c1, d1, '"');
    let (c3, d3) = trim_char_window(s, c2, d2, '\'');
    let (c4, d4) = trim_char_window(s, c3, d3, '`');
    let (ca, cb) = trim_window(s, c4, d4);
    if ca == cb {
        warn_text(b, line_message(line_number, "click directive target is empty after normalization"));
        return true;
    }
    let target = crate::text::window_vec(s, ca, cb);
    if !is_safe_click_target(&target) {
        warn_line(b, line_number, "unsafe click link target blocked: ", s, ca, cb);
        return true;
    }
    assert(safe_click_target(s@.subrange(ca as int, cb as int)));
    b.add_class_to_node(node_id.as_str(), "has-link", span);
    proof {
        if b.warnings@ != old(b).warnings@ {
            assert forall|i: int| 0 <= i < old(b).warnings@.len() implies #[trigger] b.warnings@[i]
                == old(b).warnings@[i] by {
                assert(b.warnings@.drop_last()[i] == b.warnings@[i]);
            }
        }
    }
    true
}

/// `class <node>[,<node>…] <class>[,<class>…]`: every listed node (created if needed) gets every
/// listed class. Returns whether a class was assigned.
pub fn lower_class_assignment(b: &mut IrBuilder, s: &Vec<char>, a: usize, e: usize, span: Span) -> (r: bool)
    requires
        old(b).wf(),
        a <= e <= s@.len(),
    ensures
        grows(*old(b), *final(b)),
        final(b).ir.direction == old(b).ir.direction,
        final(b).ir.edges@ == old(b).ir.edges@,
        final(b).ir.clusters@ == old(b).ir.clusters@,
        final(b).ir.subgraphs@ == old(b).ir.subgraphs@,
        r ==> starts_with(s@.subrange(a as int, e as int), "class "@),
        !starts_with(s@.subrange(a as int, e as int), "class "@) ==> *final(b) == *old(b),
{
    proof {
        lemma_grows_refl(*b);
    }
    let rest = match after(s, a, e, "class ") {
        Some(x) => x,
        None => return false,
    };
    let (ra, rb) = trim_window(s, rest, e);
    if ra == rb {
        return false;
    }
    let (la, lb) = first_token(s, ra, rb);
    // The class list: the remaining words joined by single spaces.
    let mut list: Vec<char> = Vec::new();
    let mut p = lb;
    loop
        invariant
            lb <= p <= rb <= s@.len(),
        decreases rb - p,
    {
        let (x, y) = first_token(s, p, rb);
        if x == y {
            break;
        }
        if list.len() > 0 {
            list.push(' ');
        }
        push_window(&mut list, s, x, y);
        p = y;
    }
    // The non-empty trimmed pieces between commas.
    let mut classes: Vec<(usize, usize)> = Vec::new();
    let n = list.len();
    let mut start: usize = 0;
    let mut i: usize = 0;
    while i < n
        invariant
            start <= i <= n == list@.len(),
            forall|k: int| 0 <= k < classes@.len() ==> (#[trigger] classes@[k]).0 <= classes@[k].1 <= n,
        decreases n - i,
    {
        if list[i] == ',' {
            let (x, y) = trim_window(&list, start, i);
            if x < y {
                classes.push((x, y));
            }
            start = i + 1;
        }
        i = i + 1;
    }
    let (x, y) = trim_window(&list, start, n);
    if x < y {
        classes.push((x, y));
    }
    if classes.len() == 0 {
        return false;
    }
    let ghost b0 = *b;
    let mut assigned = false;
    let mut q = la;
    let mut seg = la;
    loop
        invariant
            la <= seg <= q <= lb <= s@.len(),
            forall|k: int| 0 <= k < classes@.len() ==> (#[trigger] classes@[k]).0 <= classes@[k].1 <= list@.len(),
            grows(b0, *b),
            b.ir.direction == b0.ir.direction,
            b.ir.edges@ == b0.ir.edges@,
            b.ir.clusters@ == b0.ir.clusters@,
            b.ir.subgraphs@ == b0.ir.subgraphs@,
        decreases lb - q,
    {
        if q == lb || s[q] == ',' {
            let node_id = identifier_of(s, seg, q);
            if !node_id.as_str().is_empty() {
                let mut c: usize = 0;
                while c < classes.len()
                    invariant
                        c <= classes@.len(),
                        forall|k: int| 0 <= k < classes@.len() ==> (#[trigger] classes@[k]).0 <= classes@[k].1 <= list@.len(),
                        grows(b0, *b),
                        b.ir.direction == b0.ir.direction,
                        b.ir.edges@ == b0.ir.edges@,
                        b.ir.clusters@ == b0.ir.clusters@,
                        b.ir.subgraphs@ == b0.ir.subgraphs@,
                    decreases classes@.len() - c,
                {
                    let (x, y) = classes[c];
                    let name = string_of_window(&list, x, y);
                    let ghost bc = *b;
                    b.add_class_to_node(node_id.as_str(), name.as_str(), span);
                    proof {
                        if b.warnings@ != bc.warnings@ {
                            assert forall|i: int| 0 <= i < bc.warnings@.len() implies #[trigger] b.warnings@[i]
                                == bc.warnings@[i] by {
                                assert(b.warnings@.drop_last()[i] == b.warnings@[i]);
                            }
                        }
                        lemma_grows_trans(b0, bc, *b);
                    }
                    assigned = true;
                    c = c + 1;
                }
            }
            if q < lb {
                seg = q + 1;
            }
        }
        if q == lb {
            break;
        }
        q = q + 1;
    }
    assigned
}

} // verus!
