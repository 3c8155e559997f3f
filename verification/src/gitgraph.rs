//! Git graphs: commits, branches, checkouts, merges and cherry-picks become commit nodes linked
//! along the branch they were made on.
use vstd::prelude::*;

use crate::builder::IrBuilder;
use crate::diagrams::{
    LineState, after, find_in, first_word, first_token, identifier_of, intern, lemma_state_grows, link, warn_line, warn_text, word_end,
    ws_end,
};
use crate::flowchart::{grows, lemma_grows_refl, lemma_grows_trans};
use crate::identifier::spec_normalize_identifier;
use crate::ir::{ArrowType, GraphDirection, IrNodeId, MermaidDiagramIr, NodeShape, Span};
use crate::text::{
    char_eq_ci, char_is_whitespace, chars_of, dec_digits, eq_ci, idx_of, index_of_char, is_ws, line_message, occurs_at_ci, first_occ_from,
    push_decimal, push_str, push_window, starts_with, string_from_chars, trim, trim_window,
};

verus! {

/// The branches of a git graph by name: each branch's name and head.
pub open spec fn names_view(bs: Seq<(String, IrNodeId)>) -> Seq<(Seq<char>, IrNodeId)> {
    bs.map_values(|p: (String, IrNodeId)| (p.0@, p.1))
}

/// The index of the first branch from `i` on named `name`.
pub open spec fn first_branch(v: Seq<(Seq<char>, IrNodeId)>, name: Seq<char>, i: int) -> Option<int>
    decreases v.len() - i,
{
    if i < 0 || i >= v.len() {
        None
    } else if v[i].0 == name {
        Some(i)
    } else {
        first_branch(v, name, i + 1)
    }
}

/// The head of the branch `name`, when there is one.
pub open spec fn branch_head(v: Seq<(Seq<char>, IrNodeId)>, name: Seq<char>) -> Option<IrNodeId> {
    match first_branch(v, name, 0) {
        Some(i) => Some(v[i].1),
        None => None,
    }
}

/// The branches `v` with `node` as the head of `name`: its entry replaced, or a new entry last.
pub open spec fn with_head(v: Seq<(Seq<char>, IrNodeId)>, name: Seq<char>, node: IrNodeId) -> Seq<
    (Seq<char>, IrNodeId),
> {
    match first_branch(v, name, 0) {
        Some(i) => v.update(i, (name, node)),
        None => v.push((name, node)),
    }
}

proof fn lemma_first_branch_in(v: Seq<(Seq<char>, IrNodeId)>, name: Seq<char>, i: int)
    requires
        0 <= i,
    ensures
        first_branch(v, name, i) matches Some(k) ==> i <= k < v.len() && v[k].0 == name,
    decreases v.len() - i,
{
    if i < v.len() && v[i].0 != name {
        lemma_first_branch_in(v, name, i + 1);
    }
}

proof fn lemma_with_head_at(v: Seq<(Seq<char>, IrNodeId)>, name: Seq<char>, node: IrNodeId, k: int)
    requires
        0 <= k <= v.len(),
    ensures
        (match first_branch(v, name, k) {
            Some(i) => first_branch(v.update(i, (name, node)), name, k) == Some(i),
            None => first_branch(v.push((name, node)), name, k) == Some(v.len() as int),
        }),
    decreases v.len() - k,
{
    lemma_first_branch_in(v, name, k);
    if k < v.len() && v[k].0 != name {
        lemma_with_head_at(v, name, node, k + 1);
        match first_branch(v, name, k) {
            Some(i) => {
                assert(v.update(i, (name, node))[k] == v[k]);
            },
            None => {
                assert(v.push((name, node))[k] == v[k]);
            },
        }
    }
}

/// After `node` becomes the head of `name`, it is that branch's head.
proof fn lemma_with_head(v: Seq<(Seq<char>, IrNodeId)>, name: Seq<char>, node: IrNodeId)
    ensures
        branch_head(with_head(v, name, node), name) == Some(node),
{
    lemma_with_head_at(v, name, node, 0);
    lemma_first_branch_in(v, name, 0);
    match first_branch(v, name, 0) {
        Some(i) => {
            assert(with_head(v, name, node) == v.update(i, (name, node)));
            assert(v.update(i, (name, node))[i] == (name, node));
        },
        None => {
            assert(with_head(v, name, node) == v.push((name, node)));
            assert(v.push((name, node))[v.len() as int] == (name, node));
        },
    }
}

/// The head of `branch`.
fn head_of(st: &LineState, branch: &String) -> (r: Option<IrNodeId>)
    ensures
        r == branch_head(names_view(st.branches@), branch@),
        r matches Some(k) ==> exists|i: int| 0 <= i < st.branches@.len() && (#[trigger] st.branches@[i]).1 == k,
{
    let ghost v = names_view(st.branches@);
    let mut i: usize = 0;
    while i < st.branches.len()
        invariant
            i <= st.branches@.len(),
            v == names_view(st.branches@),
            first_branch(v, branch@, i as int) == first_branch(v, branch@, 0),
        decreases st.branches@.len() - i,
    {
        if st.branches[i].0 == *branch {
            return Some(st.branches[i].1);
        }
        i = i + 1;
    }
    None
}

/// Make `node` the head of `branch`.
fn set_head(st: &mut LineState, branch: String, node: IrNodeId, Ghost(b): Ghost<IrBuilder>)
    requires
        old(st).ok(b),
        node.0 < b.ir.nodes@.len(),
    ensures
        final(st).ok(b),
        names_view(final(st).branches@) == with_head(names_view(old(st).branches@), branch@, node),
        final(st).branch == old(st).branch,
        final(st).commits == old(st).commits,
        final(st).previous == old(st).previous,
        final(st).ancestry@ == old(st).ancestry@,
{
    let ghost v = names_view(st.branches@);
    let mut i: usize = 0;
    while i < st.branches.len()
        invariant
            i <= st.branches@.len(),
            node.0 < b.ir.nodes@.len(),
            st.ok(b),
            st.branch == old(st).branch,
            st.commits == old(st).commits,
            st.previous == old(st).previous,
            st.ancestry@ == old(st).ancestry@,
            st.branches@ == old(st).branches@,
            v == names_view(old(st).branches@),
            first_branch(v, branch@, i as int) == first_branch(v, branch@, 0),
        decreases st.branches@.len() - i,
    {
        if st.branches[i].0 == branch {
            let ghost before = st.branches@;
            let ghost bv = branch@;
            st.branches.set(i, (branch, node));
            proof {
                assert forall|j: int| 0 <= j < st.branches@.len() implies (#[trigger] st.branches@[j]).1.0
                    < b.ir.nodes@.len() by {
                    if j != i {
                        assert(st.branches@[j] == before[j]);
                    }
                }
                assert(names_view(st.branches@) =~= v.update(i as int, (bv, node)));
            }
            return;
        }
        i = i + 1;
    }
    let ghost before = st.branches@;
    let ghost bv = branch@;
    st.branches.push((branch, node));
    proof {
        assert forall|j: int| 0 <= j < st.branches@.len() implies (#[trigger] st.branches@[j]).1.0
            < b.ir.nodes@.len() by {
            if j < before.len() {
                assert(st.branches@[j] == before[j]);
            }
        }
        assert(names_view(st.branches@) =~= v.push((bv, node)));
    }
}

/// The generated id of the `n`-th commit, `commit_<n>`.
pub open spec fn generated_commit_id(n: nat) -> Seq<char> {
    "commit_"@ + dec_digits(n)
}

/// One more than `n`, saturating at the largest `usize`.
pub open spec fn bump(n: usize) -> usize {
    if n == usize::MAX {
        n
    } else {
        (n + 1) as usize
    }
}

/// The next generated commit id, `commit_<n>`.
fn next_commit_id(st: &mut LineState) -> (r: String)
    ensures
        final(st).commits == bump(old(st).commits),
        r@ == generated_commit_id(final(st).commits as nat),
        final(st).branches@ == old(st).branches@,
        final(st).branch == old(st).branch,
        final(st).previous == old(st).previous,
        final(st).entity == old(st).entity,
        final(st).ancestry@ == old(st).ancestry@,
{
    st.commits = st.commits.saturating_add(1);
    let mut v: Vec<char> = Vec::new();
    push_str(&mut v, "commit_");
    push_decimal(&mut v, st.commits);
    string_from_chars(&v)
}

/// Whether `s[a..e]` starts with the git command `cmd` (ASCII case ignored) followed by its end,
/// whitespace or `:`.
pub open spec fn git_command_at(s: Seq<char>, a: int, e: int, cmd: Seq<char>) -> bool {
    let x = a + cmd.len();
    &&& occurs_at_ci(s.subrange(a, e), 0, cmd)
    &&& (x == e || is_ws(s[x]) || s[x] == ':')
}

/// The line `s[a..e]` starting with the git command `cmd` (ASCII case ignored) followed by its
/// end, whitespace or `:`: the index just past the command.
fn strip_git_command(s: &Vec<char>, a: usize, e: usize, cmd: &str) -> (r: Option<usize>)
    requires
        a <= e <= s@.len(),
    ensures
        (r is Some) == git_command_at(s@, a as int, e as int, cmd@),
        r matches Some(x) ==> x == a + cmd@.len() && a <= x <= e,
{
    let c = chars_of(cmd);
    if !crate::text::matches_at_ci(s, a, e, 0, &c) {
        return None;
    }
    let x = a + c.len();
    if x == e || char_is_whitespace(s[x]) || s[x] == ':' {
        Some(x)
    } else {
        None
    }
}

/// The direction a two-letter word names: LR, RL, BT, or TB/TD for top to bottom (ASCII case
/// ignored).
pub open spec fn direction_word(w: Seq<char>) -> Option<GraphDirection> {
    if w.len() != 2 {
        None
    } else if eq_ci(w[0], 'L') && eq_ci(w[1], 'R') {
        Some(GraphDirection::LR)
    } else if eq_ci(w[0], 'R') && eq_ci(w[1], 'L') {
        Some(GraphDirection::RL)
    } else if eq_ci(w[0], 'B') && eq_ci(w[1], 'T') {
        Some(GraphDirection::BT)
    } else if eq_ci(w[0], 'T') && (eq_ci(w[1], 'B') || eq_ci(w[1], 'D')) {
        Some(GraphDirection::TB)
    } else {
        None
    }
}

/// The direction named by the first word of `t` that names one.
pub open spec fn direction_in(t: Seq<char>) -> Option<GraphDirection>
    decreases t.len(),
{
    let x = ws_end(t, 0);
    let y = word_end(t, x);
    if x == y || !(0 < y <= t.len()) {
        None
    } else if direction_word(t.subrange(x, y)) is Some {
        direction_word(t.subrange(x, y))
    } else {
        direction_in(t.subrange(y, t.len() as int))
    }
}

/// The direction named by a token after the `gitGraph` keyword of `s[a..e]`.
pub open spec fn gitgraph_direction_of(s: Seq<char>, a: int, e: int) -> Option<GraphDirection> {
    let t = s.subrange(a, e);
    direction_in(t.subrange(word_end(t, ws_end(t, 0)), t.len() as int))
}

/// The direction named by a token after the `gitGraph` keyword: LR, RL, BT, or TB/TD for top to
/// bottom (ASCII case ignored).
fn gitgraph_direction(s: &Vec<char>, a: usize, e: usize) -> (r: Option<GraphDirection>)
    requires
        a <= e <= s@.len(),
    ensures
        r == gitgraph_direction_of(s@, a as int, e as int),
{
    let (_, mut i) = first_token(s, a, e);
    proof {
        assert(s@.subrange(a as int, e as int).subrange(i - a, e - a) =~= s@.subrange(i as int, e as int));
    }
    while i < e
        invariant
            a <= i <= e <= s@.len(),
            gitgraph_direction_of(s@, a as int, e as int) == direction_in(s@.subrange(i as int, e as int)),
        decreases e - i,
    {
        let ghost u = s@.subrange(i as int, e as int);
        let (x, y) = first_token(s, i, e);
        proof {
            assert(u.subrange(x - i, y - i) =~= s@.subrange(x as int, y as int));
            assert(u.subrange(y - i, u.len() as int) =~= s@.subrange(y as int, e as int));
        }
        if x == y {
            return None;
        }
        if y - x == 2 {
            let c0 = s[x];
            let c1 = s[x + 1];
            if char_eq_ci(c0, 'L') && char_eq_ci(c1, 'R') {
                return Some(GraphDirection::LR);
            } else if char_eq_ci(c0, 'R') && char_eq_ci(c1, 'L') {
                return Some(GraphDirection::RL);
            } else if char_eq_ci(c0, 'B') && char_eq_ci(c1, 'T') {
                return Some(GraphDirection::BT);
            } else if char_eq_ci(c0, 'T') && (char_eq_ci(c1, 'B') || char_eq_ci(c1, 'D')) {
                return Some(GraphDirection::TB);
            }
        }
        i = y;
    }
    proof {
        assert(s@.subrange(i as int, e as int).len() == 0);
    }
    None
}

/// Where the whitespace at index `p` of `s[..e]` ends.
pub open spec fn skip_ws(s: Seq<char>, p: int, e: int) -> int {
    p + ws_end(s.subrange(p, e), 0)
}

/// A quoted value `"…"` or `'…'` at the start of `s[a..e]`, after whitespace: its contents'
/// window and the index just past the closing quote.
pub open spec fn spec_quoted(s: Seq<char>, a: int, e: int) -> Option<(int, int, int)> {
    let i = skip_ws(s, a, e);
    if i >= e || !(s[i] == '"' || s[i] == '\'') {
        None
    } else {
        let j = i + 1 + idx_of(s.subrange(i + 1, e), s[i]);
        if j >= e {
            None
        } else {
            Some((i + 1, j, j + 1))
        }
    }
}

/// A quoted value `"…"` or `'…'` at the start of `s[a..e]` (after whitespace): its contents'
/// window and the index just past the closing quote.
fn quoted_value(s: &Vec<char>, a: usize, e: usize) -> (r: Option<(usize, usize, usize)>)
    requires
        a <= e <= s@.len(),
    ensures
        r matches Some((x, y, z)) ==> a <= x <= y < z <= e && spec_quoted(s@, a as int, e as int) == Some(
            (x as int, y as int, z as int),
        ),
        r is None ==> spec_quoted(s@, a as int, e as int) is None,
{
    let (i, _) = first_token(s, a, e);
    if i >= e || (s[i] != '"' && s[i] != '\'') {
        return None;
    }
    let q = s[i];
    let j = index_of_char(s, i + 1, e, q);
    if j >= e {
        None
    } else {
        Some((i + 1, j, j + 1))
    }
}

/// A window as integers.
pub open spec fn win(o: Option<(usize, usize)>) -> Option<(int, int)> {
    match o {
        Some((x, y)) => Some((x as int, y as int)),
        None => None,
    }
}

/// The index just past a quoted value, or 0 when there is none.
pub open spec fn quoted_past(o: Option<(int, int, int)>) -> int {
    match o {
        Some((_, _, z)) => z,
        None => 0,
    }
}

/// The options of a `commit` read from index `p` of `s[..e]` on, given those read so far: `id:
/// "…"`, `msg: "…"` and `tag: "…"` (a later one replacing an earlier one), and `type: …` (read
/// and dropped), in any order, until something else.
pub open spec fn commit_opts(
    s: Seq<char>,
    p: int,
    e: int,
    id: Option<(int, int)>,
    msg: Option<(int, int)>,
    tag: Option<(int, int)>,
) -> (Option<(int, int)>, Option<(int, int)>, Option<(int, int)>)
    decreases e - p,
{
    if p < 0 || p > e || e > s.len() {
        (id, msg, tag)
    } else {
        let q = skip_ws(s, p, e);
        let u = s.subrange(q, e);
        if q >= e {
            (id, msg, tag)
        } else if starts_with(u, "id:"@) && spec_quoted(s, q + 3, e) is Some && quoted_past(spec_quoted(s, q + 3, e)) > p {
            let (x, y, z) = spec_quoted(s, q + 3, e)->0;
            commit_opts(s, z, e, Some((x, y)), msg, tag)
        } else if starts_with(u, "msg:"@) && spec_quoted(s, q + 4, e) is Some && quoted_past(spec_quoted(s, q + 4, e)) > p {
            let (x, y, z) = spec_quoted(s, q + 4, e)->0;
            commit_opts(s, z, e, id, Some((x, y)), tag)
        } else if starts_with(u, "tag:"@) && spec_quoted(s, q + 4, e) is Some && quoted_past(spec_quoted(s, q + 4, e)) > p {
            let (x, y, z) = spec_quoted(s, q + 4, e)->0;
            commit_opts(s, z, e, id, msg, Some((x, y)))
        } else if starts_with(u, "type:"@) {
            let v = s.subrange(q + 5, e);
            let y = q + 5 + word_end(v, ws_end(v, 0));
            if p < y <= e {
                commit_opts(s, y, e, id, msg, tag)
            } else {
                (id, msg, tag)
            }
        } else {
            (id, msg, tag)
        }
    }
}

/// The options of a `commit`: `id: "…"`, `msg: "…"`, `tag: "…"` and `type: …` (read and
/// dropped), in any order, until something else.
fn commit_options(s: &Vec<char>, a: usize, e: usize) -> (r: (Option<(usize, usize)>, Option<(usize, usize)>, Option<(usize, usize)>))
    requires
        a <= e <= s@.len(),
    ensures
        (win(r.0), win(r.1), win(r.2)) == commit_opts(s@, a as int, e as int, None, None, None),
        r.0 matches Some((x, y)) ==> x <= y <= s@.len(),
        r.1 matches Some((x, y)) ==> x <= y <= s@.len(),
        r.2 matches Some((x, y)) ==> x <= y <= s@.len(),
{
    let mut id: Option<(usize, usize)> = None;
    let mut msg: Option<(usize, usize)> = None;
    let mut tag: Option<(usize, usize)> = None;
    let mut p = a;
    proof {
        reveal_strlit("id:");
        reveal_strlit("msg:");
        reveal_strlit("tag:");
        reveal_strlit("type:");
    }
    loop
        invariant
            a <= p <= e <= s@.len(),
            id matches Some((x, y)) ==> x <= y <= s@.len(),
            msg matches Some((x, y)) ==> x <= y <= s@.len(),
            tag matches Some((x, y)) ==> x <= y <= s@.len(),
            commit_opts(s@, p as int, e as int, win(id), win(msg), win(tag)) == commit_opts(
                s@,
                a as int,
                e as int,
                None,
                None,
                None,
            ),
        ensures
            (win(id), win(msg), win(tag)) == commit_opts(s@, a as int, e as int, None, None, None),
            id matches Some((x, y)) ==> x <= y <= s@.len(),
            msg matches Some((x, y)) ==> x <= y <= s@.len(),
            tag matches Some((x, y)) ==> x <= y <= s@.len(),
        decreases e - p,
    {
        let (q, _) = first_token(s, p, e);
        if q >= e {
            break;
        }
        proof {
            assert(q as int == skip_ws(s@, p as int, e as int));
            reveal_strlit("id:");
            reveal_strlit("msg:");
            reveal_strlit("tag:");
            reveal_strlit("type:");
        }
        if let Some(x) = after(s, q, e, "id:") {
            if let Some((va, vb, next)) = quoted_value(s, x, e) {
                proof {
                    assert(starts_with(s@.subrange(q as int, e as int), "id:"@));
                    assert(x == q + 3);
                    assert(spec_quoted(s@, q + 3, e as int) == Some((va as int, vb as int, next as int)));
                    assert(quoted_past(spec_quoted(s@, q + 3, e as int)) > p);
                    assert(commit_opts(s@, p as int, e as int, win(id), win(msg), win(tag)) == commit_opts(s@, next as int, e as int, Some((va as int, vb as int)), win(msg), win(tag)));
                }
                id = Some((va, vb));
                p = next;
                continue;
            }
        }
        if let Some(x) = after(s, q, e, "msg:") {
            if let Some((va, vb, next)) = quoted_value(s, x, e) {
                msg = Some((va, vb));
                p = next;
                continue;
            }
        }
        if let Some(x) = after(s, q, e, "tag:") {
            if let Some((va, vb, next)) = quoted_value(s, x, e) {
                tag = Some((va, vb));
                p = next;
                continue;
            }
        }
        if let Some(x) = after(s, q, e, "type:") {
            let (_, y) = first_token(s, x, e);
            p = y;
            continue;
        }
        break;
    }
    (id, msg, tag)
}

/// What a new commit with the id `id` did to the graph `b0` and the state `st0`, giving `b1` and
/// `st1`, when it was linked from `links` other heads besides the checked-out branch's: its node
/// exists, heads the checked-out branch, and brought one edge from that branch's previous head
/// (when there was one) and `links` more. An id that trims to nothing makes no commit.
pub open spec fn commit_made(
    b0: IrBuilder,
    b1: IrBuilder,
    st0: LineState,
    st1: LineState,
    id: Seq<char>,
    links: nat,
) -> bool {
    let key = trim(id);
    let from_head: nat = if branch_head(names_view(st0.branches@), st0.branch@) is Some {
        1
    } else {
        0
    };
    &&& key.len() > 0 ==> {
        &&& b1.ir.has_node(key)
        &&& branch_head(names_view(st1.branches@), st0.branch@) matches Some(k) && k.0 < b1.ir.nodes@.len()
            && b1.ir.nodes@[k.0 as int].id@ == key
        &&& b1.ir.edges@.len() == b0.ir.edges@.len() + from_head + links
    }
    &&& key.len() == 0 ==> b1.ir.edges@ == b0.ir.edges@ && st1.branches@ == st0.branches@
}

/// The id of a commit whose options are read from `s[a..e]`, made when `commits` commits had been
/// given generated ids: the `id:` option, or the next generated id.
pub open spec fn commit_id_of(s: Seq<char>, a: int, e: int, commits: usize) -> Seq<char> {
    match commit_opts(s, a, e, None, None, None).0 {
        Some((x, y)) => s.subrange(x, y),
        None => generated_commit_id(bump(commits) as nat),
    }
}

/// The label of a commit whose options are read from `s[a..e]`: its message, its tag in
/// brackets, or both, the message first.
pub open spec fn commit_label(s: Seq<char>, a: int, e: int) -> Option<Seq<char>> {
    let opts = commit_opts(s, a, e, None, None, None);
    match (opts.1, opts.2) {
        (Some((x, y)), Some((p, q))) => Some(s.subrange(x, y) + " "@ + "["@ + s.subrange(p, q) + "]"@),
        (Some((x, y)), None) => Some(s.subrange(x, y)),
        (None, Some((p, q))) => Some("["@ + s.subrange(p, q) + "]"@),
        (None, None) => None,
    }
}

/// Whether the label reference `l` of `ir` has the text `t`, or is absent when `t` is.
pub open spec fn label_is(ir: crate::ir::MermaidDiagramIr, l: Option<crate::ir::IrLabelId>, t: Option<Seq<char>>) -> bool {
    match t {
        Some(x) => crate::builder::label_has_text(ir, l, x),
        None => l is None,
    }
}

/// What `commit [options]`, with its options in `s[a..e]`, does.
pub open spec fn commit_effect(b0: IrBuilder, b1: IrBuilder, st0: LineState, st1: LineState, s: Seq<char>, a: int, e: int) -> bool {
    let key = trim(commit_id_of(s, a, e, st0.commits));
    &&& key.len() > 0 && !b0.ir.has_node(key) ==> forall|i: int|
        0 <= i < b1.ir.nodes@.len() && #[trigger] b1.ir.nodes@[i].id@ == key ==> label_is(
            b1.ir,
            b1.ir.nodes@[i].label,
            commit_label(s, a, e),
        )
    &&& st1.branch == st0.branch
    &&& st1.commits == if commit_opts(s, a, e, None, None, None).0 is Some {
        st0.commits
    } else {
        bump(st0.commits)
    }
    &&& commit_made(b0, b1, st0, st1, commit_id_of(s, a, e, st0.commits), 0)
}

/// A new commit's node is labelled by its options: its message alone, its tag in brackets alone,
/// the message, a space and the bracketed tag when it has both, and no label when it has neither.
pub proof fn law_commit_label(
    b0: IrBuilder,
    b1: IrBuilder,
    st0: LineState,
    st1: LineState,
    s: Seq<char>,
    a: int,
    e: int,
    i: int,
)
    requires
        commit_effect(b0, b1, st0, st1, s, a, e),
        trim(commit_id_of(s, a, e, st0.commits)).len() > 0,
        !b0.ir.has_node(trim(commit_id_of(s, a, e, st0.commits))),
        0 <= i < b1.ir.nodes@.len(),
        b1.ir.nodes@[i].id@ == trim(commit_id_of(s, a, e, st0.commits)),
    ensures
        ({
            let opts = commit_opts(s, a, e, None, None, None);
            let l = b1.ir.nodes@[i].label;
            match (opts.1, opts.2) {
                (Some((x, y)), None) => crate::builder::label_has_text(b1.ir, l, s.subrange(x, y)),
                (None, Some((p, q))) => crate::builder::label_has_text(
                    b1.ir,
                    l,
                    seq!['['] + s.subrange(p, q) + seq![']'],
                ),
                (Some((x, y)), Some((p, q))) => crate::builder::label_has_text(
                    b1.ir,
                    l,
                    s.subrange(x, y) + seq![' ', '['] + s.subrange(p, q) + seq![']'],
                ),
                (None, None) => l is None,
            }
        }),
{
    reveal_strlit(" ");
    reveal_strlit("[");
    reveal_strlit("]");
    let opts = commit_opts(s, a, e, None, None, None);
    assert(label_is(b1.ir, b1.ir.nodes@[i].label, commit_label(s, a, e)));
    if let (Some((x, y)), Some((p, q))) = (opts.1, opts.2) {
        assert(s.subrange(x, y) + " "@ + "["@ + s.subrange(p, q) + "]"@ =~= s.subrange(x, y) + seq![' ', '[']
            + s.subrange(p, q) + seq![']']);
    }
    if let (None, Some((p, q))) = (opts.1, opts.2) {
        assert("["@ + s.subrange(p, q) + "]"@ =~= seq!['['] + s.subrange(p, q) + seq![']']);
    }
}

/// `commit [options]`: a commit node labelled by its message and tag, linked from the head of the
/// checked-out branch, which it becomes.
fn git_commit(b: &mut IrBuilder, st: &mut LineState, s: &Vec<char>, a: usize, e: usize, span: Span)
    requires
        old(b).wf(),
        old(st).ok(*old(b)),
        a <= e <= s@.len(),
    ensures
        grows(*old(b), *final(b)),
        final(st).ok(*final(b)),
        commit_effect(*old(b), *final(b), *old(st), *final(st), s@, a as int, e as int),
{
    let ghost b0 = *b;
    proof {
        lemma_grows_refl(*b);
    }
    let (id, msg, tag) = commit_options(s, a, e);
    let commit_id = match id {
        Some((x, y)) => crate::text::string_of_window(s, x, y),
        None => next_commit_id(st),
    };
    let mut label: Vec<char> = Vec::new();
    let has_label = msg.is_some() || tag.is_some();
    if let Some((x, y)) = msg {
        push_window(&mut label, s, x, y);
        if tag.is_some() {
            push_str(&mut label, " ");
        }
    }
    if let Some((x, y)) = tag {
        push_str(&mut label, "[");
        push_window(&mut label, s, x, y);
        push_str(&mut label, "]");
    }
    let text = string_from_chars(&label);
    let l = if has_label {
        Some(text.as_str())
    } else {
        None
    };
    proof {
        reveal_strlit(" ");
        reveal_strlit("[");
        reveal_strlit("]");
        assert(crate::builder::opt_text(l) == commit_label(s@, a as int, e as int));
    }
    let node = match intern(b, commit_id.as_str(), l, NodeShape::Circle, span) {
        Some(k) => k,
        None => {
            proof {
                lemma_state_grows(st, b0, *b);
            }
            return;
        },
    };
    let ghost b1 = *b;
    proof {
        lemma_state_grows(st, b0, b1);
    }
    let branch = st.branch.clone();
    if let Some(parent) = head_of(st, &branch) {
        link(b, parent, node, ArrowType::Line, None, span);
        proof {
            lemma_grows_trans(b0, b1, *b);
            lemma_state_grows(st, b1, *b);
        }
    }
    proof {
        assert(b.ir.nodes@[node.0 as int].id@ == b1.ir.nodes@[node.0 as int].id@);
        lemma_with_head(names_view(st.branches@), branch@, node);
        let key = trim(commit_id@);
        if !b0.ir.has_node(key) {
            assert(label_is(b1.ir, b1.ir.nodes@[node.0 as int].label, commit_label(s@, a as int, e as int)));
            assert(b.ir.nodes@[node.0 as int] == b1.ir.nodes@[node.0 as int]);
            assert(label_is(b.ir, b.ir.nodes@[node.0 as int].label, commit_label(s@, a as int, e as int)));
            assert forall|i: int| 0 <= i < b.ir.nodes@.len() && #[trigger] b.ir.nodes@[i].id@ == key implies label_is(
                b.ir,
                b.ir.nodes@[i].label,
                commit_label(s@, a as int, e as int),
            ) by {
                if i != node.0 {
                    assert(b.ir.nodes@[i].id@ != b.ir.nodes@[node.0 as int].id@);
                }
            }
        }
    }
    set_head(st, branch, node, Ghost(*b));
}

/// What `branch <w>` does: the branch named by `w` gets the checked-out branch's head, when there
/// is one; an empty name is reported.
pub open spec fn branch_effect(b0: IrBuilder, b1: IrBuilder, st0: LineState, st1: LineState, w: Seq<char>) -> bool {
    let name = spec_normalize_identifier(w, false);
    let v0 = names_view(st0.branches@);
    &&& b1.ir == b0.ir
    &&& st1.branch == st0.branch
    &&& st1.commits == st0.commits
    &&& name.len() == 0 ==> b1.warnings@.len() == b0.warnings@.len() + 1 && st1.branches@ == st0.branches@
    &&& name.len() > 0 ==> b1.warnings@ == b0.warnings@ && names_view(st1.branches@) == match branch_head(v0, st0.branch@) {
        Some(h) => with_head(v0, name, h),
        None => v0,
    }
}

/// `branch <name>`: the new branch starts at the checked-out branch's head.
fn git_branch(b: &mut IrBuilder, st: &mut LineState, s: &Vec<char>, a: usize, e: usize, line_number: usize)
    requires
        old(b).wf(),
        old(st).ok(*old(b)),
        a <= e <= s@.len(),
    ensures
        grows(*old(b), *final(b)),
        final(st).ok(*final(b)),
        branch_effect(*old(b), *final(b), *old(st), *final(st), s@.subrange(a as int, e as int)),
{
    let ghost b0 = *b;
    proof {
        lemma_grows_refl(*b);
    }
    let name = identifier_of(s, a, e);
    if name.as_str().is_empty() {
        warn_text(b, line_message(line_number, "empty branch name in gitGraph"));
        proof {
            lemma_state_grows(st, b0, *b);
        }
        return;
    }
    let current = st.branch.clone();
    if let Some(head) = head_of(st, &current) {
        set_head(st, name, head, Ghost(*b));
    }
}

/// What `checkout <w>` does: later commits go on the branch named by `w`; an empty name is
/// reported.
pub open spec fn checkout_effect(b0: IrBuilder, b1: IrBuilder, st0: LineState, st1: LineState, w: Seq<char>) -> bool {
    let name = spec_normalize_identifier(w, false);
    &&& b1.ir == b0.ir
    &&& st1.branches@ == st0.branches@
    &&& st1.commits == st0.commits
    &&& name.len() == 0 ==> b1.warnings@.len() == b0.warnings@.len() + 1 && st1.branch == st0.branch
    &&& name.len() > 0 ==> b1.warnings@ == b0.warnings@ && st1.branch@ == name
}

/// `checkout <name>`: later commits go on that branch.
fn git_checkout(b: &mut IrBuilder, st: &mut LineState, s: &Vec<char>, a: usize, e: usize, line_number: usize)
    requires
        old(b).wf(),
        old(st).ok(*old(b)),
        a <= e <= s@.len(),
    ensures
        grows(*old(b), *final(b)),
        final(st).ok(*final(b)),
        checkout_effect(*old(b), *final(b), *old(st), *final(st), s@.subrange(a as int, e as int)),
{
    let ghost b0 = *b;
    proof {
        lemma_grows_refl(*b);
    }
    let name = identifier_of(s, a, e);
    if name.as_str().is_empty() {
        warn_text(b, line_message(line_number, "empty branch name in checkout"));
        proof {
            lemma_state_grows(st, b0, *b);
        }
        return;
    }
    st.branch = name;
}

/// What `merge <w>` does: a merge commit with the next generated id, linked from the head of the
/// branch that the first word of `w` names and from the checked-out branch's head; a missing,
/// empty or unknown branch name is reported instead.
pub open spec fn merge_effect(b0: IrBuilder, b1: IrBuilder, st0: LineState, st1: LineState, w: Seq<char>) -> bool {
    let tok = first_word(w);
    let name = spec_normalize_identifier(tok, false);
    let refused = tok.len() == 0 || name.len() == 0 || branch_head(names_view(st0.branches@), name) is None;
    &&& st1.branch == st0.branch
    &&& refused ==> b1.ir == b0.ir && b1.warnings@.len() == b0.warnings@.len() + 1 && st1.branches@
        == st0.branches@ && st1.commits == st0.commits
    &&& !refused ==> st1.commits == bump(st0.commits) && commit_made(
        b0,
        b1,
        st0,
        st1,
        generated_commit_id(bump(st0.commits) as nat),
        1,
    )
    &&& !refused && trim(generated_commit_id(bump(st0.commits) as nat)).len() > 0 ==> merge_made(b0, b1, st0, name)
}

/// What a merge of the branch `name` adds beyond its commit: the first new edge comes, dotted,
/// from the merged branch's head, and a new merge node is labelled `merge <name>`.
pub open spec fn merge_made(b0: IrBuilder, b1: IrBuilder, st0: LineState, name: Seq<char>) -> bool {
    let key = trim(generated_commit_id(bump(st0.commits) as nat));
    let e = b0.ir.edges@.len() as int;
    &&& b1.ir.edges@.len() > e
    &&& b1.ir.edges@[e].arrow == ArrowType::DottedArrow
    &&& b1.ir.edges@[e].from == crate::ir::IrEndpoint::Node(branch_head(names_view(st0.branches@), name)->0)
    &&& !b0.ir.has_node(key) ==> forall|i: int|
        0 <= i < b1.ir.nodes@.len() && #[trigger] b1.ir.nodes@[i].id@ == key ==> crate::builder::label_has_text(
            b1.ir,
            b1.ir.nodes@[i].label,
            "merge "@ + name,
        )
}

/// A merge of an existing branch draws its first new edge dotted, from that branch's head, and
/// labels a new merge node `merge <name>`, with the branch name normalised.
pub proof fn law_merge_links_from_the_merged_branch(
    b0: IrBuilder,
    b1: IrBuilder,
    st0: LineState,
    st1: LineState,
    w: Seq<char>,
    i: int,
)
    requires
        merge_effect(b0, b1, st0, st1, w),
        spec_normalize_identifier(first_word(w), false).len() > 0,
        branch_head(names_view(st0.branches@), spec_normalize_identifier(first_word(w), false)) is Some,
        trim(generated_commit_id(bump(st0.commits) as nat)).len() > 0,
    ensures
        ({
            let name = spec_normalize_identifier(first_word(w), false);
            let e = b0.ir.edges@.len() as int;
            let key = trim(generated_commit_id(bump(st0.commits) as nat));
            &&& e < b1.ir.edges@.len()
            &&& b1.ir.edges@[e].arrow == ArrowType::DottedArrow
            &&& b1.ir.edges@[e].from == crate::ir::IrEndpoint::Node(branch_head(names_view(st0.branches@), name)->0)
            &&& !b0.ir.has_node(key) && 0 <= i < b1.ir.nodes@.len() && b1.ir.nodes@[i].id@ == key
                ==> crate::builder::label_has_text(
                b1.ir,
                b1.ir.nodes@[i].label,
                seq!['m', 'e', 'r', 'g', 'e', ' '] + name,
            )
        }),
{
    reveal_strlit("merge ");
    let name = spec_normalize_identifier(first_word(w), false);
    assert(first_word(w).len() > 0) by {
        if first_word(w).len() == 0 {
            assert(trim(first_word(w)) =~= Seq::<char>::empty());
        }
    }
    assert("merge "@ + name =~= seq!['m', 'e', 'r', 'g', 'e', ' '] + name);
}

/// `merge <name>`: a merge commit linked from the merged branch's head (dotted) and from the
/// checked-out branch's head, which it becomes.
fn git_merge(b: &mut IrBuilder, st: &mut LineState, s: &Vec<char>, a: usize, e: usize, line_number: usize, span: Span)
    requires
        old(b).wf(),
        old(st).ok(*old(b)),
        a <= e <= s@.len(),
    ensures
        grows(*old(b), *final(b)),
        final(st).ok(*final(b)),
        merge_effect(*old(b), *final(b), *old(st), *final(st), s@.subrange(a as int, e as int)),
{
    let ghost b0 = *b;
    proof {
        lemma_grows_refl(*b);
    }
    let (x, y) = first_token(s, a, e);
    proof {
        assert(s@.subrange(x as int, y as int) == first_word(s@.subrange(a as int, e as int)));
    }
    if x == y {
        warn_text(b, line_message(line_number, "merge requires a branch name"));
        proof {
            lemma_state_grows(st, b0, *b);
        }
        return;
    }
    let name = identifier_of(s, x, y);
    if name.as_str().is_empty() {
        warn_text(b, line_message(line_number, "invalid branch name in merge"));
        proof {
            lemma_state_grows(st, b0, *b);
        }
        return;
    }
    let source = match head_of(st, &name) {
        Some(k) => k,
        None => {
            let mut m = line_message(line_number, "cannot merge non-existent branch '");
            push_str(&mut m, name.as_str());
            push_str(&mut m, "'");
            warn_text(b, m);
            proof {
                lemma_state_grows(st, b0, *b);
            }
            return;
        },
    };
    let merge_id = next_commit_id(st);
    let mut label: Vec<char> = Vec::new();
    push_str(&mut label, "merge ");
    push_str(&mut label, name.as_str());
    let text = string_from_chars(&label);
    let node = match intern(b, merge_id.as_str(), Some(text.as_str()), NodeShape::Circle, span) {
        Some(k) => k,
        None => {
            proof {
                lemma_state_grows(st, b0, *b);
            }
            return;
        },
    };
    let ghost b1 = *b;
    proof {
        lemma_state_grows(st, b0, b1);
    }
    link(b, source, node, ArrowType::DottedArrow, None, span);
    let ghost b2 = *b;
    proof {
        lemma_state_grows(st, b1, b2);
        assert(b2.ir.edges@[b0.ir.edges@.len() as int] == b2.ir.edges@.last());
    }
    let branch = st.branch.clone();
    if let Some(head) = head_of(st, &branch) {
        link(b, head, node, ArrowType::Line, None, span);
        proof {
            lemma_grows_trans(b1, b2, *b);
            lemma_state_grows(st, b2, *b);
            assert(b.ir.edges@[b0.ir.edges@.len() as int] == b2.ir.edges@[b0.ir.edges@.len() as int]);
        }
    }
    proof {
        lemma_grows_trans(b0, b1, *b);
        assert(b.ir.nodes@[node.0 as int].id@ == b1.ir.nodes@[node.0 as int].id@);
        lemma_with_head(names_view(st.branches@), branch@, node);
        let key = trim(merge_id@);
        if !b0.ir.has_node(key) {
            assert(b.ir.nodes@[node.0 as int] == b1.ir.nodes@[node.0 as int]);
            assert(text@ == "merge "@ + name@);
            assert forall|i: int| 0 <= i < b.ir.nodes@.len() && #[trigger] b.ir.nodes@[i].id@ == key implies crate::builder::label_has_text(
                b.ir,
                b.ir.nodes@[i].label,
                "merge "@ + name@,
            ) by {
                if i != node.0 {
                    assert(b.ir.nodes@[i].id@ != b.ir.nodes@[node.0 as int].id@);
                }
            }
        }
    }
    set_head(st, branch, node, Ghost(*b));
}

proof fn lemma_quoted_shift(s: Seq<char>, a: int, p: int, e: int)
    requires
        0 <= a <= p <= e <= s.len(),
    ensures
        (spec_quoted(s, p, e) is Some) == (spec_quoted(s.subrange(a, e), p - a, e - a) is Some),
{
    let w = s.subrange(a, e);
    assert(s.subrange(p, e) =~= w.subrange(p - a, e - a));
    let i = skip_ws(s, p, e);
    crate::diagrams::lemma_ws_end(s.subrange(p, e), 0);
    assert(skip_ws(w, p - a, e - a) == i - a);
    if i < e {
        assert(w[i - a] == s[i]);
        assert(s.subrange(i + 1, e) =~= w.subrange(i - a + 1, e - a));
    }
}

/// What `cherry-pick <w>` does: a commit with the next generated id, linked from the checked-out
/// branch's head; a missing `id:` option, or one whose value is not quoted, is reported instead.
pub open spec fn cherry_effect(b0: IrBuilder, b1: IrBuilder, st0: LineState, st1: LineState, w: Seq<char>) -> bool {
    let refused = match first_occ_from(w, "id:"@, 0) {
        Some(k) => spec_quoted(w, k + 3, w.len() as int) is None,
        None => true,
    };
    &&& st1.branch == st0.branch
    &&& refused ==> b1.ir == b0.ir && b1.warnings@.len() == b0.warnings@.len() + 1 && st1.branches@
        == st0.branches@ && st1.commits == st0.commits
    &&& !refused ==> st1.commits == bump(st0.commits) && commit_made(
        b0,
        b1,
        st0,
        st1,
        generated_commit_id(bump(st0.commits) as nat),
        0,
    )
}

/// `cherry-pick id: "<commit>"`: a new commit labelled after the picked one, linked from the
/// checked-out branch's head, which it becomes.
fn git_cherry_pick(b: &mut IrBuilder, st: &mut LineState, s: &Vec<char>, a: usize, e: usize, line_number: usize, span: Span)
    requires
        old(b).wf(),
        old(st).ok(*old(b)),
        a <= e <= s@.len(),
    ensures
        grows(*old(b), *final(b)),
        final(st).ok(*final(b)),
        cherry_effect(*old(b), *final(b), *old(st), *final(st), s@.subrange(a as int, e as int)),
{
    let ghost b0 = *b;
    proof {
        lemma_grows_refl(*b);
    }
    let (_, m) = match find_in(s, a, e, "id:") {
        Some(x) => x,
        None => {
            warn_text(b, line_message(line_number, "cherry-pick requires id: parameter"));
            proof {
                lemma_state_grows(st, b0, *b);
            }
            return;
        },
    };
    proof {
        reveal_strlit("id:");
        lemma_quoted_shift(s@, a as int, m as int, e as int);
    }
    let (va, vb) = match quoted_value(s, m, e) {
        Some((x, y, _)) => (x, y),
        None => {
            warn_text(b, line_message(line_number, "cherry-pick id must be a quoted string"));
            proof {
                lemma_state_grows(st, b0, *b);
            }
            return;
        },
    };
    let new_id = next_commit_id(st);
    let mut label: Vec<char> = Vec::new();
    push_str(&mut label, "cherry-pick ");
    push_window(&mut label, s, va, vb);
    let text = string_from_chars(&label);
    let node = match intern(b, new_id.as_str(), Some(text.as_str()), NodeShape::Circle, span) {
        Some(k) => k,
        None => {
            proof {
                lemma_state_grows(st, b0, *b);
            }
            return;
        },
    };
    let ghost b1 = *b;
    proof {
        lemma_state_grows(st, b0, b1);
    }
    let branch = st.branch.clone();
    if let Some(head) = head_of(st, &branch) {
        link(b, head, node, ArrowType::Line, None, span);
        proof {
            lemma_grows_trans(b0, b1, *b);
            lemma_state_grows(st, b1, *b);
        }
    }
    proof {
        assert(b.ir.nodes@[node.0 as int].id@ == b1.ir.nodes@[node.0 as int].id@);
        lemma_with_head(names_view(st.branches@), branch@, node);
    }
    set_head(st, branch, node, Ghost(*b));
}

/// One line of a git graph.
pub fn gitgraph_line(
    b: &mut IrBuilder,
    st: &mut LineState,
    s: &Vec<char>,
    ta: usize,
    tb: usize,
    line_number: usize,
    span: Span,
)
    requires
        old(b).wf(),
        old(st).ok(*old(b)),
        ta <= tb <= s@.len(),
    ensures
        grows(*old(b), *final(b)),
        final(st).ok(*final(b)),
        ({
            let l = s@.subrange(ta as int, tb as int);
            let (b0, b1, st0, st1) = (*old(b), *final(b), *old(st), *final(st));
            let header = occurs_at_ci(l, 0, "gitgraph"@);
            let commit = git_command_at(s@, ta as int, tb as int, "commit"@);
            let branch = git_command_at(s@, ta as int, tb as int, "branch"@);
            let checkout = git_command_at(s@, ta as int, tb as int, "checkout"@);
            let merge = git_command_at(s@, ta as int, tb as int, "merge"@);
            let cherry = git_command_at(s@, ta as int, tb as int, "cherry-pick"@);
            &&& header ==> b1.ir == (MermaidDiagramIr {
                direction: match gitgraph_direction_of(s@, ta as int, tb as int) {
                    Some(d) => d,
                    None => b0.ir.direction,
                },
                ..b0.ir
            }) && b1.warnings@ == b0.warnings@ && st1 == st0
            &&& !header && commit ==> commit_effect(b0, b1, st0, st1, s@, ta + "commit"@.len(), tb as int)
            &&& !header && !commit && branch ==> branch_effect(
                b0,
                b1,
                st0,
                st1,
                trim(s@.subrange(ta + "branch"@.len(), tb as int)),
            )
            &&& !header && !commit && !branch && checkout ==> checkout_effect(
                b0,
                b1,
                st0,
                st1,
                trim(s@.subrange(ta + "checkout"@.len(), tb as int)),
            )
            &&& !header && !commit && !branch && !checkout && merge ==> merge_effect(
                b0,
                b1,
                st0,
                st1,
                trim(s@.subrange(ta + "merge"@.len(), tb as int)),
            )
            &&& !header && !commit && !branch && !checkout && !merge && cherry ==> cherry_effect(
                b0,
                b1,
                st0,
                st1,
                trim(s@.subrange(ta + "cherry-pick"@.len(), tb as int)),
            )
            &&& !header && !commit && !branch && !checkout && !merge && !cherry ==> b1.ir == b0.ir
                && b1.warnings@.len() == b0.warnings@.len() + 1 && st1 == st0
        }),
{
    let ghost b0 = *b;
    proof {
        lemma_grows_refl(*b);
    }
    if crate::text::matches_at_ci(s, ta, tb, 0, &chars_of("gitgraph")) {
        if let Some(d) = gitgraph_direction(s, ta, tb) {
            b.set_direction(d);
            proof {
                assert(grows(b0, *b));
                lemma_state_grows(st, b0, *b);
            }
        }
        return;
    }
    if let Some(x) = strip_git_command(s, ta, tb, "commit") {
        git_commit(b, st, s, x, tb, span);
        return;
    }
    if let Some(x) = strip_git_command(s, ta, tb, "branch") {
        let (p, q) = trim_window(s, x, tb);
        git_branch(b, st, s, p, q, line_number);
        return;
    }
    if let Some(x) = strip_git_command(s, ta, tb, "checkout") {
        let (p, q) = trim_window(s, x, tb);
        git_checkout(b, st, s, p, q, line_number);
        return;
    }
    if let Some(x) = strip_git_command(s, ta, tb, "merge") {
        let (p, q) = trim_window(s, x, tb);
        git_merge(b, st, s, p, q, line_number, span);
        return;
    }
    if let Some(x) = strip_git_command(s, ta, tb, "cherry-pick") {
        let (p, q) = trim_window(s, x, tb);
        git_cherry_pick(b, st, s, p, q, line_number, span);
        return;
    }
    warn_line(b, line_number, "unsupported gitGraph syntax: ", s, ta, tb);
    proof {
        lemma_state_grows(st, b0, *b);
    }
}

} // verus!
