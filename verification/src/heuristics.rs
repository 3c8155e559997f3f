//! Content heuristics: what a headerless document looks like from its statements.
//!
//! The heuristics read one lowercased text: the trimmed lines of the input that are neither blank
//! nor `%%` comments, joined with `\n`.
use vstd::prelude::*;

use crate::detect::DiagramType;
use crate::text::{
    chars_of, contains_seq, contains_str, idx_of, index_of_char, push_window, starts_with,
    str_to_lowercase, string_from_chars, trim, trim_window, unicode_lowercase,
};

verus! {

// ---------------------------------------------------------------------------------------------
// The text the heuristics read.
/// The trimmed lines of `s`, from the line that starts at index `i` on, that are neither blank
/// nor `%%` comments.
pub open spec fn kept_lines_from(s: Seq<char>, i: int) -> Seq<Seq<char>>
    decreases s.len() - i,
{
    if i < 0 || i > s.len() {
        Seq::empty()
    } else {
        let nl = i + idx_of(s.subrange(i, s.len() as int), '\n');
        let t = trim(s.subrange(i, nl));
        let rest = if nl >= s.len() {
            Seq::empty()
        } else {
            kept_lines_from(s, nl + 1)
        };
        if t.len() > 0 && !starts_with(t, "%%"@) {
            seq![t] + rest
        } else {
            rest
        }
    }
}

/// The lines `ls` joined with `\n`.
pub open spec fn join_lines(ls: Seq<Seq<char>>) -> Seq<char>
    decreases ls.len(),
{
    if ls.len() == 0 {
        Seq::empty()
    } else if ls.len() == 1 {
        ls[0]
    } else {
        join_lines(ls.drop_last()) + seq!['\n'] + ls.last()
    }
}

/// The lowercased text the heuristics read.
pub open spec fn heuristic_text(s: Seq<char>) -> Seq<char> {
    unicode_lowercase(join_lines(kept_lines_from(s, 0)))
}

proof fn lemma_kept_step(s: Seq<char>, i: int, nl: int, t: Seq<char>)
    requires
        0 <= i <= s.len(),
        nl == i + idx_of(s.subrange(i, s.len() as int), '\n'),
        t == trim(s.subrange(i, nl)),
    ensures
        kept_lines_from(s, i) == (if t.len() > 0 && !starts_with(t, "%%"@) {
            seq![t]
        } else {
            Seq::empty()
        }) + (if nl >= s.len() {
            Seq::<Seq<char>>::empty()
        } else {
            kept_lines_from(s, nl + 1)
        }),
{
    if t.len() > 0 && !starts_with(t, "%%"@) {
    } else {
        assert(Seq::<Seq<char>>::empty() + (if nl >= s.len() {
            Seq::<Seq<char>>::empty()
        } else {
            kept_lines_from(s, nl + 1)
        }) =~= (if nl >= s.len() {
            Seq::<Seq<char>>::empty()
        } else {
            kept_lines_from(s, nl + 1)
        }));
    }
}

/// Compute [`heuristic_text`] of `s`.
pub fn heuristic_text_exec(s: &Vec<char>) -> (r: Vec<char>)
    ensures
        r@ == heuristic_text(s@),
{
    let n = s.len();
    let mut out: Vec<char> = Vec::new();
    let ghost mut done: Seq<Seq<char>> = Seq::empty();
    let mut first = true;
    let mut i: usize = 0;
    loop
        invariant_except_break
            done + kept_lines_from(s@, i as int) == kept_lines_from(s@, 0),
        invariant
            i <= n == s@.len(),
            out@ == join_lines(done),
            first == (done.len() == 0),
        ensures
            out@ == join_lines(kept_lines_from(s@, 0)),
        decreases n - i,
    {
        proof {
            reveal_strlit("%%");
        }
        let nl = index_of_char(s, i, n, '\n');
        let (a, b) = trim_window(s, i, nl);
        let ghost t = s@.subrange(a as int, b as int);
        proof {
            lemma_kept_step(s@, i as int, nl as int, t);
        }
        let comment = b - a >= 2 && s[a] == '%' && s[a + 1] == '%';
        assert(comment == starts_with(t, "%%"@)) by {
            if b - a >= 2 {
                assert(t.subrange(0, 2)[0] == s@[a as int]);
                assert(t.subrange(0, 2)[1] == s@[a + 1]);
                if s@[a as int] == '%' && s@[a + 1] == '%' {
                    assert(t.subrange(0, 2) =~= "%%"@);
                }
            }
        }
        if a < b && !comment {
            let ghost before = out@;
            if !first {
                out.push('\n');
            }
            push_window(&mut out, s, a, b);
            proof {
                let nd = done.push(t);
                if done.len() > 0 {
                    assert(nd.drop_last() =~= done);
                    assert(out@ =~= join_lines(done) + seq!['\n'] + t);
                } else {
                    assert(out@ =~= t);
                }
                assert(nd + kept_lines_from(s@, i as int).drop_first() =~= done
                    + kept_lines_from(s@, i as int));
                done = nd;
            }
            first = false;
        }
        if nl >= n {
            proof {
                assert(done =~= kept_lines_from(s@, 0));
            }
            break;
        }
        proof {
            if !(a < b && !comment) {
                assert(kept_lines_from(s@, i as int) == kept_lines_from(s@, nl + 1));
            } else {
                assert(kept_lines_from(s@, i as int).drop_first() =~= kept_lines_from(
                    s@,
                    nl + 1,
                ));
            }
        }
        i = nl + 1;
    }
    let joined = string_from_chars(&out);
    let lower = str_to_lowercase(joined.as_str());
    chars_of(lower.as_str())
}

// ---------------------------------------------------------------------------------------------
// ER relationships.
/// A left cardinality token: `|o`, `||`, `}o` or `}|`.
pub open spec fn er_left(a: char, b: char) -> bool {
    (a == '|' && (b == 'o' || b == '|')) || (a == '}' && (b == 'o' || b == '|'))
}

/// A right cardinality token: `o|`, `||`, `o{` or `|{`.
pub open spec fn er_right(a: char, b: char) -> bool {
    (a == 'o' && (b == '|' || b == '{')) || (a == '|' && (b == '|' || b == '{'))
}

/// An ER relationship whose separator (`--` or `..`) starts at index `i` of `c`.
pub open spec fn er_relation_at(c: Seq<char>, i: int) -> bool {
    &&& 2 <= i
    &&& i + 4 <= c.len()
    &&& er_left(c[i - 2], c[i - 1])
    &&& ((c[i] == '-' && c[i + 1] == '-') || (c[i] == '.' && c[i + 1] == '.'))
    &&& er_right(c[i + 2], c[i + 3])
}

/// Whether `c` holds an ER relationship: a left cardinality, a separator, a right cardinality.
pub open spec fn looks_like_er(c: Seq<char>) -> bool {
    exists|i: int| er_relation_at(c, i)
}

fn er_left_exec(a: char, b: char) -> (r: bool)
    ensures
        r == er_left(a, b),
{
    (a == '|' && (b == 'o' || b == '|')) || (a == '}' && (b == 'o' || b == '|'))
}

fn er_right_exec(a: char, b: char) -> (r: bool)
    ensures
        r == er_right(a, b),
{
    (a == 'o' && (b == '|' || b == '{')) || (a == '|' && (b == '|' || b == '{'))
}

pub fn looks_like_er_relationship(c: &Vec<char>) -> (r: bool)
    ensures
        r == looks_like_er(c@),
{
    let n = c.len();
    let mut i: usize = 2;
    while n >= 4 && i <= n - 4
        invariant
            2 <= i,
            n == c@.len(),
            forall|j: int| j < i ==> !er_relation_at(c@, j),
        decreases n - i,
    {
        let sep = (c[i] == '-' && c[i + 1] == '-') || (c[i] == '.' && c[i + 1] == '.');
        if sep && er_left_exec(c[i - 2], c[i - 1]) && er_right_exec(c[i + 2], c[i + 3]) {
            assert(er_relation_at(c@, i as int));
            return true;
        }
        i = i + 1;
    }
    false
}

// ---------------------------------------------------------------------------------------------
// Sequence messages.
/// Whether, from index `i` on, some line of `c` carries an arrow `->` followed by a `:`, both
/// outside brackets; `depth` is the bracket depth and `seen` whether such an arrow was already
/// seen on the current line.
pub open spec fn message_from(c: Seq<char>, i: int, depth: nat, seen: bool) -> bool
    decreases c.len() - i,
{
    if i < 0 || i >= c.len() {
        false
    } else {
        let ch = c[i];
        if ch == '\n' {
            message_from(c, i + 1, 0, false)
        } else if ch == '[' || ch == '(' || ch == '{' {
            message_from(c, i + 1, depth + 1, seen)
        } else if ch == ']' || ch == ')' || ch == '}' {
            message_from(c, i + 1, if depth > 0 {
                (depth - 1) as nat
            } else {
                0
            }, seen)
        } else if ch == '-' && depth == 0 && i + 1 < c.len() && c[i + 1] == '>' {
            message_from(c, i + 2, depth, true)
        } else if ch == ':' && depth == 0 && seen {
            true
        } else {
            message_from(c, i + 1, depth, seen)
        }
    }
}

pub fn has_sequence_message_separator(c: &Vec<char>) -> (r: bool)
    ensures
        r == message_from(c@, 0, 0, false),
{
    let n = c.len();
    let mut i: usize = 0;
    let mut depth: usize = 0;
    let mut seen = false;
    while i < n
        invariant
            i <= n == c@.len(),
            depth <= i,
            message_from(c@, i as int, depth as nat, seen) == message_from(c@, 0, 0, false),
        decreases n - i,
    {
        let ch = c[i];
        if ch == '\n' {
            depth = 0;
            seen = false;
            i = i + 1;
        } else if ch == '[' || ch == '(' || ch == '{' {
            depth = depth + 1;
            i = i + 1;
        } else if ch == ']' || ch == ')' || ch == '}' {
            if depth > 0 {
                depth = depth - 1;
            }
            i = i + 1;
        } else if ch == '-' && depth == 0 && i + 1 < n && c[i + 1] == '>' {
            seen = true;
            i = i + 2;
        } else if ch == ':' && depth == 0 && seen {
            return true;
        } else {
            i = i + 1;
        }
    }
    false
}

// ---------------------------------------------------------------------------------------------
// State markers.
pub open spec fn is_space_or_tab(ch: char) -> bool {
    ch == ' ' || ch == '\t'
}

/// The first index `>= j` of `c` that is not a space or tab.
pub open spec fn skip_blank_fwd(c: Seq<char>, j: int) -> int
    decreases c.len() - j,
{
    if 0 <= j < c.len() && is_space_or_tab(c[j]) {
        skip_blank_fwd(c, j + 1)
    } else {
        j
    }
}

/// The smallest `b <= j` such that `c[b..j]` is all spaces and tabs.
pub open spec fn skip_blank_back(c: Seq<char>, j: int) -> int
    decreases j,
{
    if 0 < j <= c.len() && is_space_or_tab(c[j - 1]) {
        skip_blank_back(c, j - 1)
    } else {
        j
    }
}

/// A `[*]` at index `i` of `c` that an arrow leaves (`[*] -->`) or enters (`--> [*]`).
pub open spec fn state_marker_at(c: Seq<char>, i: int) -> bool {
    &&& 0 <= i
    &&& i + 3 <= c.len()
    &&& c[i] == '['
    &&& c[i + 1] == '*'
    &&& c[i + 2] == ']'
    &&& ({
        let a = skip_blank_fwd(c, i + 3);
        a < c.len() && c[a] == '-'
    } || {
        let b = skip_blank_back(c, i);
        0 < b && (c[b - 1] == '>' || c[b - 1] == '-')
    })
}

/// Whether `c` uses `[*]` as a start or end marker next to a transition arrow.
pub open spec fn looks_like_state(c: Seq<char>) -> bool {
    exists|i: int| state_marker_at(c, i)
}

fn skip_blank_fwd_exec(c: &Vec<char>, j: usize) -> (r: usize)
    requires
        j <= c@.len(),
    ensures
        r == skip_blank_fwd(c@, j as int),
        j <= r <= c@.len(),
{
    let mut k = j;
    while k < c.len() && (c[k] == ' ' || c[k] == '\t')
        invariant
            j <= k <= c@.len(),
            skip_blank_fwd(c@, k as int) == skip_blank_fwd(c@, j as int),
        decreases c@.len() - k,
    {
        k = k + 1;
    }
    k
}

fn skip_blank_back_exec(c: &Vec<char>, j: usize) -> (r: usize)
    requires
        j <= c@.len(),
    ensures
        r == skip_blank_back(c@, j as int),
        r <= j,
{
    let mut k = j;
    while k > 0 && (c[k - 1] == ' ' || c[k - 1] == '\t')
        invariant
            k <= j <= c@.len(),
            skip_blank_back(c@, k as int) == skip_blank_back(c@, j as int),
        decreases k,
    {
        k = k - 1;
    }
    k
}

pub fn looks_like_state_transition(c: &Vec<char>) -> (r: bool)
    ensures
        r == looks_like_state(c@),
{
    let n = c.len();
    let mut i: usize = 0;
    while n >= 3 && i <= n - 3
        invariant
            n == c@.len(),
            forall|j: int| j < i ==> !state_marker_at(c@, j),
        decreases n - i,
    {
        if c[i] == '[' && c[i + 1] == '*' && c[i + 2] == ']' {
            let a = skip_blank_fwd_exec(c, i + 3);
            let b = skip_blank_back_exec(c, i);
            if (a < n && c[a] == '-') || (b > 0 && (c[b - 1] == '>' || c[b - 1] == '-')) {
                assert(state_marker_at(c@, i as int));
                return true;
            }
        }
        i = i + 1;
    }
    false
}

// ---------------------------------------------------------------------------------------------
// The heuristics in order.
pub open spec fn sequence_patterns(c: Seq<char>) -> bool {
    contains_seq(c, "->>"@) || contains_seq(c, "-->>"@) || contains_seq(c, "-)"@) || contains_seq(
        c,
        "<<->>"@,
    ) || contains_seq(c, "participant "@) || contains_seq(c, "actor "@) || contains_seq(
        c,
        "activate "@,
    ) || contains_seq(c, "note "@) || message_from(c, 0, 0, false)
}

pub open spec fn class_patterns(c: Seq<char>) -> bool {
    contains_seq(c, "<|--"@) || contains_seq(c, "--|>"@) || contains_seq(c, "<|.."@)
        || contains_seq(c, "..|>"@) || contains_seq(c, "*--"@) || contains_seq(c, "--*"@)
        || contains_seq(c, "..>"@) || contains_seq(c, "<.."@) || (contains_seq(c, "class "@)
        && c.contains('{'))
}

pub open spec fn state_words(c: Seq<char>) -> bool {
    contains_seq(c, "[*] -->"@) || contains_seq(c, "--> [*]"@) || contains_seq(c, "state "@)
}

pub open spec fn flow_patterns(c: Seq<char>) -> bool {
    contains_seq(c, "-->"@) || contains_seq(c, "---"@) || contains_seq(c, "==>"@) || contains_seq(
        c,
        "-.-"@,
    ) || contains_seq(c, "--o"@) || contains_seq(c, "--x"@)
}

/// What the heuristics conclude from the text `c`: a type, a confidence in hundredths and a
/// warning.
pub open spec fn spec_content_heuristics(c: Seq<char>) -> Option<(DiagramType, nat, Seq<char>)> {
    if looks_like_er(c) {
        Some((DiagramType::Er, 80, "Detected ER relationship patterns"@))
    } else if looks_like_state(c) {
        Some((DiagramType::State, 80, "Detected state diagram patterns"@))
    } else if sequence_patterns(c) {
        Some((DiagramType::Sequence, 75, "Detected sequence diagram patterns"@))
    } else if class_patterns(c) {
        Some((DiagramType::Class, 75, "Detected class diagram patterns"@))
    } else if state_words(c) {
        Some((DiagramType::State, 70, "Detected state diagram patterns"@))
    } else if flow_patterns(c) {
        Some((DiagramType::Flowchart, 60, "Detected flowchart arrow patterns"@))
    } else {
        None
    }
}

fn window_has_char(c: &Vec<char>, x: char) -> (r: bool)
    ensures
        r == c@.contains(x),
{
    let mut i: usize = 0;
    while i < c.len()
        invariant
            i <= c@.len(),
            forall|j: int| 0 <= j < i ==> c@[j] != x,
        decreases c@.len() - i,
    {
        if c[i] == x {
            return true;
        }
        i = i + 1;
    }
    false
}

/// Apply the heuristics to the text `c` (see [`heuristic_text`]).
pub fn content_heuristics(c: &Vec<char>) -> (r: Option<(DiagramType, u32, &'static str)>)
    ensures
        r matches Some((t, conf, w)) ==> spec_content_heuristics(c@) == Some(
            (t, conf as nat, w@),
        ),
        r is None ==> spec_content_heuristics(c@) is None,
{
    if looks_like_er_relationship(c) {
        return Some((DiagramType::Er, 80, "Detected ER relationship patterns"));
    }
    if looks_like_state_transition(c) {
        return Some((DiagramType::State, 80, "Detected state diagram patterns"));
    }
    if contains_str(c, "->>") || contains_str(c, "-->>") || contains_str(c, "-)") || contains_str(
        c,
        "<<->>",
    ) || contains_str(c, "participant ") || contains_str(c, "actor ") || contains_str(
        c,
        "activate ",
    ) || contains_str(c, "note ") || has_sequence_message_separator(c) {
        return Some((DiagramType::Sequence, 75, "Detected sequence diagram patterns"));
    }
    if contains_str(c, "<|--") || contains_str(c, "--|>") || contains_str(c, "<|..")
        || contains_str(c, "..|>") || contains_str(c, "*--") || contains_str(c, "--*")
        || contains_str(c, "..>") || contains_str(c, "<..") || (contains_str(c, "class ")
        && window_has_char(c, '{')) {
        return Some((DiagramType::Class, 75, "Detected class diagram patterns"));
    }
    if contains_str(c, "[*] -->") || contains_str(c, "--> [*]") || contains_str(c, "state ") {
        return Some((DiagramType::State, 70, "Detected state diagram patterns"));
    }
    if contains_str(c, "-->") || contains_str(c, "---") || contains_str(c, "==>") || contains_str(
        c,
        "-.-",
    ) || contains_str(c, "--o") || contains_str(c, "--x") {
        return Some((DiagramType::Flowchart, 60, "Detected flowchart arrow patterns"));
    }
    None
}

} // verus!
