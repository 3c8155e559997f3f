//! Quote- and HTML-aware scanning of DOT text.
//!
//! DOT strings (`"…"` or `'…'`, with `\` escapes) and HTML labels (`<…>`, nested) may contain any
//! character, so the structural characters of the grammar (`->`, `--`, `;`, `[`, `]`, `{`, `}`)
//! only count outside them. [`scan_state`] is the state of a left-to-right scan before a given
//! index; a position is structural when that state is outside any string and HTML label.
use vstd::prelude::*;

use crate::text::{trim, trim_window, window_vec};

verus! {

/// The scanner's state: the open quote, whether the previous character was a `\` inside it, and
/// the HTML nesting depth.
pub struct Scan {
    pub quote: Option<char>,
    pub escaped: bool,
    pub depth: nat,
}

pub open spec fn scan_init() -> Scan {
    Scan { quote: None, escaped: false, depth: 0 }
}

/// The state after reading `c` in state `st`.
pub open spec fn scan_step(st: Scan, c: char) -> Scan {
    match st.quote {
        Some(q) => if st.escaped {
            Scan { quote: st.quote, escaped: false, depth: st.depth }
        } else if c == '\\' {
            Scan { quote: st.quote, escaped: true, depth: st.depth }
        } else if c == q {
            Scan { quote: None, escaped: false, depth: st.depth }
        } else {
            st
        },
        None => if c == '"' || c == '\'' {
            Scan { quote: Some(c), escaped: false, depth: st.depth }
        } else if c == '<' {
            Scan { quote: None, escaped: st.escaped, depth: st.depth + 1 }
        } else if c == '>' {
            Scan {
                quote: None,
                escaped: st.escaped,
                depth: if st.depth > 0 {
                    (st.depth - 1) as nat
                } else {
                    0
                },
            }
        } else {
            st
        },
    }
}

/// The state of a scan of `s` before index `i`.
pub open spec fn scan_state(s: Seq<char>, i: int) -> Scan
    decreases i,
{
    if i <= 0 || i > s.len() {
        scan_init()
    } else {
        scan_step(scan_state(s, i - 1), s[i - 1])
    }
}

/// Index `i` of `s` is outside every string and HTML label.
pub open spec fn structural(s: Seq<char>, i: int) -> bool {
    scan_state(s, i).quote is None && scan_state(s, i).depth == 0
}

/// The exec mirror of [`Scan`].
pub struct ScanExec {
    pub quote: Option<char>,
    pub escaped: bool,
    pub depth: usize,
}

impl ScanExec {
    pub open spec fn matches(&self, st: Scan) -> bool {
        self.quote == st.quote && self.escaped == st.escaped && self.depth as nat == st.depth
    }

    pub fn new() -> (r: ScanExec)
        ensures
            r.matches(scan_init()),
    {
        ScanExec { quote: None, escaped: false, depth: 0 }
    }

    pub fn step(&mut self, c: char)
        requires
            old(self).depth < usize::MAX,
        ensures
            final(self).matches(scan_step(old(self).view_state(), c)),
            final(self).depth <= old(self).depth + 1,
    {
        match self.quote {
            Some(q) => {
                if self.escaped {
                    self.escaped = false;
                } else if c == '\\' {
                    self.escaped = true;
                } else if c == q {
                    self.quote = None;
                    self.escaped = false;
                }
            },
            None => {
                if c == '"' || c == '\'' {
                    self.quote = Some(c);
                    self.escaped = false;
                } else if c == '<' {
                    self.depth = self.depth + 1;
                } else if c == '>' {
                    if self.depth > 0 {
                        self.depth = self.depth - 1;
                    }
                }
            },
        }
    }

    pub open spec fn view_state(&self) -> Scan {
        Scan { quote: self.quote, escaped: self.escaped, depth: self.depth as nat }
    }
}

proof fn lemma_scan_next(s: Seq<char>, i: int)
    requires
        0 <= i < s.len(),
    ensures
        scan_state(s, i + 1) == scan_step(scan_state(s, i), s[i]),
{
}

// ---------------------------------------------------------------------------------------------
// Edge operators.
/// The first structural `->` or `--` of `s`, as `Some(true)` for `->` and `Some(false)` for
/// `--`, scanning from index `i`.
pub open spec fn edge_op_from(s: Seq<char>, i: int) -> Option<bool>
    decreases s.len() - i,
{
    if i < 0 || i + 1 >= s.len() {
        None
    } else if structural(s, i) && s[i] == '-' && (s[i + 1] == '>' || s[i + 1] == '-') {
        Some(s[i + 1] == '>')
    } else {
        edge_op_from(s, i + 1)
    }
}

/// The DOT edge operator of the statement `s`: `Some(true)` for `->`, `Some(false)` for `--`.
pub fn find_edge_operator(s: &Vec<char>) -> (r: Option<bool>)
    ensures
        r == edge_op_from(s@, 0),
{
    let n = s.len();
    let mut st = ScanExec::new();
    let mut i: usize = 0;
    while n > 0 && i < n - 1
        invariant
            i <= n == s@.len(),
            st.matches(scan_state(s@, i as int)),
            st.depth <= i,
            edge_op_from(s@, i as int) == edge_op_from(s@, 0),
        decreases n - i,
    {
        if st.quote.is_none() && st.depth == 0 && s[i] == '-' && (s[i + 1] == '>' || s[i + 1]
            == '-') {
            return Some(s[i + 1] == '>');
        }
        proof {
            lemma_scan_next(s@, i as int);
        }
        st.step(s[i]);
        i = i + 1;
    }
    None
}

/// Whether the text `s` holds a structural `->`.
pub open spec fn directed_op_from(s: Seq<char>, i: int) -> bool
    decreases s.len() - i,
{
    if i < 0 || i + 1 >= s.len() {
        false
    } else if structural(s, i) && s[i] == '-' && s[i + 1] == '>' {
        true
    } else {
        directed_op_from(s, i + 1)
    }
}

pub fn contains_directed_edge_operator(s: &Vec<char>, lo: usize, hi: usize) -> (r: bool)
    requires
        lo <= hi <= s@.len(),
    ensures
        r == directed_op_from(s@.subrange(lo as int, hi as int), 0),
{
    let w = window_vec(s, lo, hi);
    let n = w.len();
    let mut st = ScanExec::new();
    let mut i: usize = 0;
    while n > 0 && i < n - 1
        invariant
            i <= n == w@.len(),
            w@ == s@.subrange(lo as int, hi as int),
            st.matches(scan_state(w@, i as int)),
            st.depth <= i,
            directed_op_from(w@, i as int) == directed_op_from(w@, 0),
        decreases n - i,
    {
        if st.quote.is_none() && st.depth == 0 && w[i] == '-' && w[i + 1] == '>' {
            return true;
        }
        proof {
            lemma_scan_next(w@, i as int);
        }
        st.step(w[i]);
        i = i + 1;
    }
    false
}

// ---------------------------------------------------------------------------------------------
// First and last structural occurrences.
/// The first structural index `>= i` of `s` holding `c`.
pub open spec fn first_struct_from(s: Seq<char>, c: char, i: int) -> Option<int>
    decreases s.len() - i,
{
    if i < 0 || i >= s.len() {
        None
    } else if structural(s, i) && s[i] == c {
        Some(i)
    } else {
        first_struct_from(s, c, i + 1)
    }
}

/// The last structural index `>= i` of `s` holding `c`, or `last` when there is none.
pub open spec fn last_struct_from(s: Seq<char>, c: char, i: int, last: Option<int>) -> Option<int>
    decreases s.len() - i,
{
    if i < 0 || i >= s.len() {
        last
    } else {
        last_struct_from(
            s,
            c,
            i + 1,
            if structural(s, i) && s[i] == c {
                Some(i)
            } else {
                last
            },
        )
    }
}

/// The first structural `open` of `w` and the last structural `close` after it.
pub open spec fn spec_bracket_pair(w: Seq<char>, open: char, close: char) -> Option<(int, int)> {
    match first_struct_from(w, open, 0) {
        None => None,
        Some(a) => match last_struct_from(w, close, a + 1, None) {
            None => None,
            Some(b) => Some((a, b)),
        },
    }
}

/// [`spec_bracket_pair`] of `w`.
pub fn bracket_pair(w: &Vec<char>, open: char, close: char) -> (r: Option<(usize, usize)>)
    requires
        open != '"' && open != '\'' && open != '<' && open != '>',
    ensures
        r matches Some((a, b)) ==> spec_bracket_pair(w@, open, close) == Some((a as int, b as int))
            && a < b < w@.len(),
        r is None ==> spec_bracket_pair(w@, open, close) is None,
{
    let n = w.len();
    let mut st = ScanExec::new();
    let mut i: usize = 0;
    let mut first: Option<usize> = None;
    while i < n && first.is_none()
        invariant
            i <= n == w@.len(),
            st.matches(scan_state(w@, i as int)),
            st.depth <= i,
            first is None ==> first_struct_from(w@, open, i as int) == first_struct_from(
                w@,
                open,
                0,
            ),
            first matches Some(a) ==> first_struct_from(w@, open, 0) == Some(a as int) && a + 1
                == i,
        decreases n - i,
    {
        if st.quote.is_none() && st.depth == 0 && w[i] == open {
            first = Some(i);
        }
        proof {
            lemma_scan_next(w@, i as int);
        }
        st.step(w[i]);
        i = i + 1;
    }
    let a = match first {
        Some(a) => a,
        None => return None,
    };
    let mut last: Option<usize> = None;
    while i < n
        invariant
            a < i <= n == w@.len(),
            st.matches(scan_state(w@, i as int)),
            st.depth <= i,
            last_struct_from(w@, close, i as int, match last {
                Some(x) => Some(x as int),
                None => None,
            }) == last_struct_from(w@, close, a + 1, None),
            last matches Some(x) ==> a < x < i,
        decreases n - i,
    {
        if st.quote.is_none() && st.depth == 0 && w[i] == close {
            last = Some(i);
        }
        proof {
            lemma_scan_next(w@, i as int);
        }
        st.step(w[i]);
        i = i + 1;
    }
    match last {
        Some(b) => Some((a, b)),
        None => None,
    }
}

} // verus!
