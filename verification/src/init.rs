//! `%%{init: …}%%` directives: the JSON (or JSON5) object they carry sets the theme, theme
//! variables and the flowchart direction.
use vstd::prelude::*;

use crate::builder::IrBuilder;
use crate::diagrams::{after, find_in, warn_text};
use crate::flowchart::{grows, is_comment_window, lemma_grows_refl, lemma_grows_trans, line_width};
use crate::ir::{GraphDirection, Span};
use crate::text::{
    char_eq_ci, chars_of, index_of_char, line_message, push_str, string_from_chars, string_of_window,
    trim_window, trim, idx_of, starts_with, occurs_at_ci,
};

verus! {

/// A JSON value as the init logic reads it: a scalar with its text, or the kind of a composite.
#[derive(Debug, Clone, PartialEq, Eq)]
pub enum JsonScalar {
    Null,
    Bool(bool),
    /// A number, written as `serde_json` writes it.
    Number(String),
    Text(String),
    Array,
    Object,
}

/// One member of the init object: its key, its value and, when the value is an object, that
/// object's members.
#[derive(Debug, Clone, PartialEq, Eq)]
pub struct JsonEntry {
    pub key: String,
    pub value: JsonScalar,
    pub members: Vec<(String, JsonScalar)>,
}

/// A parsed init payload: an object's members in the order the JSON map keeps them, or something
/// that is not an object.
#[derive(Debug, Clone, PartialEq, Eq)]
pub enum InitPayload {
    Object(Vec<JsonEntry>),
    NotAnObject,
}

#[verifier::external_type_specification]
#[verifier::external_body]
pub struct ExJsonValue(serde_json::Value);

/// The scalar view of a `serde_json::Value`: each variant to its counterpart, a number by its
/// `Display` text, composites by kind only. Nothing is claimed of the conversion.
#[verifier::external_body]
fn scalar_of(v: &serde_json::Value) -> (r: JsonScalar) {
    match v {
        serde_json::Value::Null => JsonScalar::Null,
        serde_json::Value::Bool(b) => JsonScalar::Bool(*b),
        serde_json::Value::Number(n) => JsonScalar::Number(n.to_string()),
        serde_json::Value::String(t) => JsonScalar::Text(t.clone()),
        serde_json::Value::Array(_) => JsonScalar::Array,
        serde_json::Value::Object(_) => JsonScalar::Object,
    }
}

/// The payload view of a `serde_json::Value`: an object's members (and their members) in the map's
/// iteration order, or `NotAnObject`. Nothing is claimed of the conversion.
#[verifier::external_body]
fn payload_of(v: &serde_json::Value) -> (r: InitPayload) {
    let serde_json::Value::Object(m) = v else { return InitPayload::NotAnObject };
    let entry = |(k, x): (&String, &serde_json::Value)| JsonEntry {
        key: k.clone(),
        value: scalar_of(x),
        members: match x {
            serde_json::Value::Object(n) => n.iter().map(|(j, y)| (j.clone(), scalar_of(y))).collect(),
            _ => Vec::new(),
        },
    };
    InitPayload::Object(m.iter().map(entry).collect())
}

/// What `serde_json::from_str::<serde_json::Value>` gives for `text`: the value viewed as a
/// payload, or the error's `Display` text. A function of the text alone (the map keeps its keys
/// in sorted order).
pub uninterp spec fn json_parse(text: Seq<char>) -> Result<InitPayload, Seq<char>>;

/// What `json5::from_str::<serde_json::Value>` gives for `text`: the value viewed as a payload, or
/// the error's `Display` text. A function of the text alone.
pub uninterp spec fn json5_parse(text: Seq<char>) -> Result<InitPayload, Seq<char>>;

/// A parse result with its error text viewed as characters.
pub open spec fn text_result(r: Result<InitPayload, String>) -> Result<InitPayload, Seq<char>> {
    match r {
        Ok(p) => Ok(p),
        Err(e) => Err(e@),
    }
}

/// `serde_json::from_str::<serde_json::Value>`, its value viewed as a payload and its error by its
/// `Display` text: the result is [`json_parse`] of the text.
#[verifier::external_body]
fn parse_json(text: &str) -> (r: Result<InitPayload, String>)
    ensures
        text_result(r) == json_parse(text@),
{
    match serde_json::from_str::<serde_json::Value>(text) {
        Ok(v) => Ok(payload_of(&v)),
        Err(e) => Err(e.to_string()),
    }
}

/// `json5::from_str::<serde_json::Value>`, its value viewed as a payload and its error by its
/// `Display` text: the result is [`json5_parse`] of the text.
#[verifier::external_body]
fn parse_json5(text: &str) -> (r: Result<InitPayload, String>)
    ensures
        text_result(r) == json5_parse(text@),
{
    match json5::from_str::<serde_json::Value>(text) {
        Ok(v) => Ok(payload_of(&v)),
        Err(e) => Err(e.to_string()),
    }
}

// ---------------------------------------------------------------------------------------------
// Reading the payload.
/// The first entry of `es` whose key is `key`.
pub open spec fn entry_of(es: Seq<JsonEntry>, key: Seq<char>) -> Option<JsonEntry>
    decreases es.len(),
{
    if es.len() == 0 {
        None
    } else if es[0].key@ == key {
        Some(es[0])
    } else {
        entry_of(es.drop_first(), key)
    }
}

/// The first member of `ms` whose key is `key`.
pub open spec fn member_of(ms: Seq<(String, JsonScalar)>, key: Seq<char>) -> Option<JsonScalar>
    decreases ms.len(),
{
    if ms.len() == 0 {
        None
    } else if ms[0].0@ == key {
        Some(ms[0].1)
    } else {
        member_of(ms.drop_first(), key)
    }
}

/// Whether `u` is the two letters `a` `b`, ASCII case ignored.
pub open spec fn pair_ci(u: Seq<char>, a: char, b: char) -> bool {
    u.len() == 2 && crate::text::eq_ci(u[0], a) && crate::text::eq_ci(u[1], b)
}

/// The direction a token names, ASCII case ignored after trimming: LR, RL, TB, TD or BT.
pub open spec fn direction_token(t: Seq<char>) -> Option<GraphDirection> {
    let u = crate::text::trim(t);
    if pair_ci(u, 'L', 'R') {
        Some(GraphDirection::LR)
    } else if pair_ci(u, 'R', 'L') {
        Some(GraphDirection::RL)
    } else if pair_ci(u, 'T', 'B') {
        Some(GraphDirection::TB)
    } else if pair_ci(u, 'T', 'D') {
        Some(GraphDirection::TD)
    } else if pair_ci(u, 'B', 'T') {
        Some(GraphDirection::BT)
    } else {
        None
    }
}

/// The direction an init object's `flowchart` member asks for: its `direction`, or when it has
/// none its `rankDir`, when that is a string naming a direction.
pub open spec fn init_direction(es: Seq<JsonEntry>) -> Option<GraphDirection> {
    match entry_of(es, "flowchart"@) {
        Some(f) => if f.value == JsonScalar::Object {
            let d = match member_of(f.members@, "direction"@) {
                Some(v) => Some(v),
                None => member_of(f.members@, "rankDir"@),
            };
            match d {
                Some(JsonScalar::Text(t)) => direction_token(t@),
                _ => None,
            }
        } else {
            None
        },
        None => None,
    }
}

/// The theme an init object names: its `theme` member, when that is a string.
pub open spec fn init_theme_of(es: Seq<JsonEntry>) -> Option<Seq<char>> {
    match entry_of(es, "theme"@) {
        Some(e) => match e.value {
            JsonScalar::Text(t) => Some(t@),
            _ => None,
        },
        None => None,
    }
}

fn find_entry(es: &Vec<JsonEntry>, key: &str) -> (r: Option<usize>)
    ensures
        r matches Some(i) ==> i < es@.len() && entry_of(es@, key@) == Some(es@[i as int]),
        r is None ==> entry_of(es@, key@) is None,
{
    let k = string_from_chars(&chars_of(key));
    assert(es@.skip(0) =~= es@);
    let mut i: usize = 0;
    while i < es.len()
        invariant
            i <= es@.len(),
            k@ == key@,
            entry_of(es@.skip(i as int), key@) == entry_of(es@, key@),
        decreases es@.len() - i,
    {
        assert(es@.skip(i as int).drop_first() =~= es@.skip(i + 1));
        if es[i].key == k {
            return Some(i);
        }
        i = i + 1;
    }
    None
}

fn find_member(ms: &Vec<(String, JsonScalar)>, key: &str) -> (r: Option<usize>)
    ensures
        r matches Some(i) ==> i < ms@.len() && member_of(ms@, key@) == Some(ms@[i as int].1),
        r is None ==> member_of(ms@, key@) is None,
{
    let k = string_from_chars(&chars_of(key));
    assert(ms@.skip(0) =~= ms@);
    let mut i: usize = 0;
    while i < ms.len()
        invariant
            i <= ms@.len(),
            k@ == key@,
            member_of(ms@.skip(i as int), key@) == member_of(ms@, key@),
        decreases ms@.len() - i,
    {
        assert(ms@.skip(i as int).drop_first() =~= ms@.skip(i + 1));
        if ms[i].0 == k {
            return Some(i);
        }
        i = i + 1;
    }
    None
}

fn parse_direction_token(t: &String) -> (r: Option<GraphDirection>)
    ensures
        r == direction_token(t@),
{
    let v = chars_of(t.as_str());
    let n = v.len();
    assert(v@.subrange(0, n as int) =~= v@);
    let (a, b) = trim_window(&v, 0, n);
    let pair = |x: char, y: char| -> (ok: bool)
        ensures
            ok == pair_ci(crate::text::trim(t@), x, y),
        { b - a == 2 && char_eq_ci(v[a], x) && char_eq_ci(v[a + 1], y) };
    if pair('L', 'R') {
        Some(GraphDirection::LR)
    } else if pair('R', 'L') {
        Some(GraphDirection::RL)
    } else if pair('T', 'B') {
        Some(GraphDirection::TB)
    } else if pair('T', 'D') {
        Some(GraphDirection::TD)
    } else if pair('B', 'T') {
        Some(GraphDirection::BT)
    } else {
        None
    }
}

/// The text a theme variable takes from a scalar: a string as written, a boolean as `true` or
/// `false`, a number as written; nothing for anything else.
pub open spec fn variable_text(v: JsonScalar) -> Option<Seq<char>> {
    match v {
        JsonScalar::Text(t) => Some(t@),
        JsonScalar::Bool(b) => Some(if b { "true"@ } else { "false"@ }),
        JsonScalar::Number(t) => Some(t@),
        _ => None,
    }
}

/// Theme variables as plain values.
pub open spec fn vars_view(v: Seq<(String, String)>) -> Seq<(Seq<char>, Seq<char>)> {
    v.map_values(|p: (String, String)| (p.0@, p.1@))
}

/// The index of the first variable from `i` on named `key`.
pub open spec fn first_key(v: Seq<(Seq<char>, Seq<char>)>, key: Seq<char>, i: int) -> Option<int>
    decreases v.len() - i,
{
    if i < 0 || i >= v.len() {
        None
    } else if v[i].0 == key {
        Some(i)
    } else {
        first_key(v, key, i + 1)
    }
}

proof fn lemma_first_key(v: Seq<(String, String)>, key: Seq<char>, i: int)
    requires
        0 <= i,
    ensures
        crate::builder::first_var(v, key, i) == first_key(vars_view(v), key, i),
        first_key(vars_view(v), key, i) matches Some(j) ==> i <= j < v.len(),
    decreases v.len() - i,
{
    if i < v.len() {
        lemma_first_key(v, key, i + 1);
    }
}

/// The variables `v` with `key` set to `value`: its entry's value replaced, or a new entry last.
pub open spec fn set_var(v: Seq<(Seq<char>, Seq<char>)>, key: Seq<char>, value: Seq<char>) -> Seq<(Seq<char>, Seq<char>)> {
    match first_key(v, key, 0) {
        Some(j) => v.update(j, (v[j].0, value)),
        None => v.push((key, value)),
    }
}

/// The variables `v` after the first `k` members of a `themeVariables` object: each string,
/// number or boolean member is set, in order.
pub open spec fn apply_vars(v: Seq<(Seq<char>, Seq<char>)>, ms: Seq<(String, JsonScalar)>, k: int) -> Seq<(Seq<char>, Seq<char>)>
    decreases k,
{
    if k <= 0 || k > ms.len() {
        v
    } else {
        let prev = apply_vars(v, ms, k - 1);
        match variable_text(ms[k - 1].1) {
            Some(t) => set_var(prev, ms[k - 1].0@, t),
            None => prev,
        }
    }
}

/// The theme variables after an init object `es` is applied to `v`.
pub open spec fn vars_after(v: Seq<(Seq<char>, Seq<char>)>, es: Seq<JsonEntry>) -> Seq<(Seq<char>, Seq<char>)> {
    match entry_of(es, "themeVariables"@) {
        Some(e) => if e.value == JsonScalar::Object {
            apply_vars(v, e.members@, e.members@.len() as int)
        } else {
            v
        },
        None => v,
    }
}

fn scalar_text(v: &JsonScalar) -> (r: Option<String>)
    ensures
        match r {
            Some(t) => variable_text(*v) == Some(t@),
            None => variable_text(*v) is None,
        },
{
    match v {
        JsonScalar::Text(t) => Some(t.clone()),
        JsonScalar::Bool(b) => Some(crate::text::owned(if *b { "true" } else { "false" })),
        JsonScalar::Number(t) => Some(t.clone()),
        _ => None,
    }
}

/// Report a problem with the init directive of line `line_number`: `Line <n>: <text>`, as a
/// warning and as an init issue.
fn init_issue(b: &mut IrBuilder, line_number: usize, text: Vec<char>, span: Span, is_error: bool)
    requires
        old(b).wf(),
    ensures
        grows(*old(b), *final(b)),
        final(b).ir.init_theme == old(b).ir.init_theme,
        final(b).ir.init_flowchart_direction == old(b).ir.init_flowchart_direction,
        final(b).ir.theme_variables@ == old(b).ir.theme_variables@,
        final(b).ir.direction == old(b).ir.direction,
        final(b).ir.edges@ == old(b).ir.edges@,
        final(b).warnings@.len() == old(b).warnings@.len() + 1,
        final(b).warnings@.last()@ == "Line "@ + crate::text::dec_digits(line_number as nat) + ": "@ + text@,
{
    proof {
        reveal_strlit("");
        assert(""@ =~= Seq::<char>::empty());
    }
    let mut m = line_message(line_number, "");
    crate::text::push_window(&mut m, &text, 0, text.len());
    b.add_init_issue(string_from_chars(&m), span, is_error);
    proof {
        assert forall|i: int| 0 <= i < old(b).warnings@.len() implies #[trigger] b.warnings@[i]
            == old(b).warnings@[i] by {
            assert(b.warnings@.drop_last()[i] == b.warnings@[i]);
        }
    }
}

/// Apply the init payload of line `line_number`: an object's `theme` string becomes the theme, its
/// `themeVariables` object's string, number and boolean members become theme variables, and its
/// `flowchart` object's `direction` (or `rankDir`) the flowchart direction; anything of the wrong
/// shape is reported, and a payload that is not an object is an error.
pub fn apply_init_payload(b: &mut IrBuilder, payload: &InitPayload, line_number: usize, span: Span)
    requires
        old(b).wf(),
    ensures
        grows(*old(b), *final(b)),
        final(b).ir.direction == old(b).ir.direction,
        final(b).ir.edges@ == old(b).ir.edges@,
        payload matches InitPayload::NotAnObject ==> final(b).ir.init_theme == old(b).ir.init_theme
            && final(b).ir.init_flowchart_direction == old(b).ir.init_flowchart_direction
            && final(b).ir.theme_variables@ == old(b).ir.theme_variables@,
        payload matches InitPayload::Object(es) ==> vars_view(final(b).ir.theme_variables@) == vars_after(
            vars_view(old(b).ir.theme_variables@),
            es@,
        ),
        payload matches InitPayload::NotAnObject ==> final(b).warnings@.len() == old(b).warnings@.len() + 1
            && final(b).warnings@.last()@ == "Line "@ + crate::text::dec_digits(line_number as nat)
            + ": "@ + "init directive must be a JSON object"@,
        payload matches InitPayload::Object(es) ==> match init_theme_of(es@) {
            Some(t) => final(b).ir.init_theme matches Some(x) && x@ == t,
            None => final(b).ir.init_theme == old(b).ir.init_theme,
        },
        payload matches InitPayload::Object(es) ==> match init_direction(es@) {
            Some(d) => final(b).ir.init_flowchart_direction == Some(d),
            None => final(b).ir.init_flowchart_direction == old(b).ir.init_flowchart_direction,
        },
{
    let ghost b0 = *b;
    proof {
        lemma_grows_refl(*b);
    }
    let es = match payload {
        InitPayload::NotAnObject => {
            let mut m: Vec<char> = Vec::new();
            push_str(&mut m, "init directive must be a JSON object");
            assert(m@ =~= "init directive must be a JSON object"@);
            init_issue(b, line_number, m, span, true);
            return;
        },
        InitPayload::Object(es) => es,
    };
    if let Some(i) = find_entry(es, "theme") {
        if let JsonScalar::Text(t) = &es[i].value {
            b.set_init_theme(t.clone());
            proof {
                assert(grows(b0, *b));
            }
        }
    }
    let ghost b1 = *b;
    if let Some(i) = find_entry(es, "themeVariables") {
        if matches!(es[i].value, JsonScalar::Object) {
            let ms = &es[i].members;
            let mut k: usize = 0;
            while k < ms.len()
                invariant
                    k <= ms@.len(),
                    grows(b0, *b),
                    b.ir.direction == b0.ir.direction,
                    b.ir.init_theme == b1.ir.init_theme,
                    b.ir.init_flowchart_direction == b0.ir.init_flowchart_direction,
                    b.ir.edges@ == b0.ir.edges@,
                    ms@ == es@[i as int].members@,
                    vars_view(b.ir.theme_variables@) == apply_vars(vars_view(b1.ir.theme_variables@), ms@, k as int),
                decreases ms@.len() - k,
            {
                match scalar_text(&ms[k].1) {
                    Some(text) => {
                        let ghost bk = *b;
                        let key = ms[k].0.clone();
                        let ghost val = text@;
                        b.insert_theme_variable(key, text);
                        proof {
                            assert(grows(bk, *b));
                            lemma_grows_trans(b0, bk, *b);
                            let ov = bk.ir.theme_variables@;
                            lemma_first_key(ov, key@, 0);
                            match first_key(vars_view(ov), key@, 0) {
                                Some(j) => {
                                    assert(vars_view(b.ir.theme_variables@) =~= vars_view(ov).update(j, (vars_view(ov)[j].0, val)));
                                },
                                None => {
                                    assert(vars_view(b.ir.theme_variables@) =~= vars_view(ov).push((key@, val)));
                                },
                            }
                        }
                    },
                    None => {
                        let mut m: Vec<char> = Vec::new();
                        push_str(&mut m, "init.themeVariables.");
                        push_str(&mut m, ms[k].0.as_str());
                        push_str(&mut m, " must be a string, number, or boolean");
                        let ghost bk = *b;
                        init_issue(b, line_number, m, span, false);
                        proof {
                            lemma_grows_trans(b0, bk, *b);
                        }
                    },
                }
                k = k + 1;
            }
        } else {
            let mut m: Vec<char> = Vec::new();
            push_str(&mut m, "init.themeVariables must be an object");
            let ghost bk = *b;
            init_issue(b, line_number, m, span, false);
            proof {
                lemma_grows_trans(b0, bk, *b);
            }
        }
    }
    let ghost b2 = *b;
    if let Some(i) = find_entry(es, "flowchart") {
        if matches!(es[i].value, JsonScalar::Object) {
            let ms = &es[i].members;
            let d = match find_member(ms, "direction") {
                Some(j) => Some(&ms[j].1),
                None => match find_member(ms, "rankDir") {
                    Some(j) => Some(&ms[j].1),
                    None => None,
                },
            };
            if let Some(JsonScalar::Text(tok)) = d {
                match parse_direction_token(tok) {
                    Some(dir) => {
                        b.set_init_flowchart_direction(dir);
                        proof {
                            assert(grows(b2, *b));
                            lemma_grows_trans(b0, b2, *b);
                        }
                    },
                    None => {
                        let mut m: Vec<char> = Vec::new();
                        push_str(&mut m, "unsupported init.flowchart.direction value: ");
                        push_str(&mut m, tok.as_str());
                        init_issue(b, line_number, m, span, false);
                        proof {
                            lemma_grows_trans(b0, b2, *b);
                        }
                    },
                }
            }
        } else {
            let mut m: Vec<char> = Vec::new();
            push_str(&mut m, "init.flowchart must be an object");
            init_issue(b, line_number, m, span, false);
            proof {
                lemma_grows_trans(b0, b2, *b);
            }
        }
    }
}

/// The payload of a directive line `t` of the form `%%{init: <payload>}%%`: the text after the
/// first `:` of what the braces hold, trimmed, when the directive name before it is `init` (ASCII
/// case ignored) and the payload is not empty.
pub open spec fn spec_init_payload(t: Seq<char>) -> Option<Seq<char>> {
    let n = t.len() as int;
    if n < 6 || t[n - 3] != '}' || t[n - 2] != '%' || t[n - 1] != '%' || !starts_with(t, "%%{"@) {
        None
    } else {
        let inner = trim(t.subrange(3, n - 3));
        let c = idx_of(inner, ':') as int;
        if c >= inner.len() {
            None
        } else {
            let name = trim(inner.take(c));
            let payload = trim(inner.subrange(c + 1, inner.len() as int));
            if !(name.len() == 4 && occurs_at_ci(name, 0, "init"@)) || payload.len() == 0 {
                None
            } else {
                Some(payload)
            }
        }
    }
}

/// The payload of a trimmed directive line `s[ta..tb]` of the form `%%{init: <payload>}%%`: the
/// text after the first `:`, trimmed, when the directive name before it is `init` (ASCII case
/// ignored) and the payload is not empty.
fn init_payload(s: &Vec<char>, ta: usize, tb: usize) -> (r: Option<(usize, usize)>)
    requires
        ta <= tb <= s@.len(),
    ensures
        r matches Some((x, y)) ==> ta <= x < y <= tb && spec_init_payload(s@.subrange(ta as int, tb as int))
            == Some(s@.subrange(x as int, y as int)),
        r is None ==> spec_init_payload(s@.subrange(ta as int, tb as int)) is None,
{
    let ghost t = s@.subrange(ta as int, tb as int);
    proof {
        reveal_strlit("%%{");
        reveal_strlit("init");
    }
    if tb - ta < 6 || s[tb - 3] != '}' || s[tb - 2] != '%' || s[tb - 1] != '%' {
        return None;
    }
    let x = match after(s, ta, tb, "%%{") {
        Some(x) => x,
        None => return None,
    };
    if x > tb - 3 {
        return None;
    }
    let (ia, ib) = trim_window(s, x, tb - 3);
    proof {
        assert(s@.subrange(x as int, tb - 3) =~= t.subrange(3, t.len() - 3));
    }
    let ghost inner = s@.subrange(ia as int, ib as int);
    let colon = index_of_char(s, ia, ib, ':');
    proof {
        if colon < ib {
            assert(s@.subrange(ia as int, colon as int) =~= inner.take(colon - ia));
            assert(s@.subrange(colon + 1, ib as int) =~= inner.subrange(colon - ia + 1, inner.len() as int));
        }
    }
    if colon >= ib {
        return None;
    }
    let (da, db) = trim_window(s, ia, colon);
    let name = chars_of("init");
    if !(db - da == 4 && crate::text::matches_at_ci(s, da, db, 0, &name)) {
        return None;
    }
    let (pa, pb) = trim_window(s, colon + 1, ib);
    if pa == pb {
        None
    } else {
        Some((pa, pb))
    }
}

/// An init payload `text` parsed as JSON, or failing that as JSON5; when neither parses, the
/// message that reports both errors.
pub open spec fn init_parse(text: Seq<char>) -> Result<InitPayload, Seq<char>> {
    match json_parse(text) {
        Ok(p) => Ok(p),
        Err(je) => match json5_parse(text) {
            Ok(p) => Ok(p),
            Err(j5) => Err(
                "invalid init directive payload: JSON parse failed ("@ + je + "); JSON5 parse failed ("@ + j5 + ")"@,
            ),
        },
    }
}

/// The payload that the line of `s` starting at `i` carries, parsed, when it is an init
/// directive whose payload parses.
pub open spec fn line_init_payload(s: Seq<char>, i: int) -> Option<InitPayload> {
    let l = trim(s.subrange(i, crate::flowchart::line_end(s, i)));
    match spec_init_payload(l) {
        Some(p) => match init_parse(p) {
            Ok(x) => Some(x),
            Err(_) => None,
        },
        None => None,
    }
}

/// The theme set by the last init directive of `s` from the line at `i` on that sets one, or
/// `acc` when none does.
pub open spec fn init_theme_from(s: Seq<char>, i: int, acc: Option<Seq<char>>) -> Option<Seq<char>>
    decreases s.len() - i,
{
    if i < 0 || i > s.len() {
        acc
    } else {
        let nl = crate::flowchart::line_end(s, i);
        let next = match line_init_payload(s, i) {
            Some(InitPayload::Object(es)) => match init_theme_of(es@) {
                Some(t) => Some(t),
                None => acc,
            },
            _ => acc,
        };
        if nl >= s.len() {
            next
        } else {
            init_theme_from(s, nl + 1, next)
        }
    }
}

/// The flowchart direction set by the last init directive of `s` from the line at `i` on that
/// sets one, or `acc` when none does.
pub open spec fn init_direction_from(s: Seq<char>, i: int, acc: Option<GraphDirection>) -> Option<GraphDirection>
    decreases s.len() - i,
{
    if i < 0 || i > s.len() {
        acc
    } else {
        let nl = crate::flowchart::line_end(s, i);
        let next = match line_init_payload(s, i) {
            Some(InitPayload::Object(es)) => match init_direction(es@) {
                Some(d) => Some(d),
                None => acc,
            },
            _ => acc,
        };
        if nl >= s.len() {
            next
        } else {
            init_direction_from(s, nl + 1, next)
        }
    }
}

/// Parse an init payload as JSON, or failing that as JSON5; both errors are reported when neither
/// parses.
fn parse_init_payload(text: &str) -> (r: Result<InitPayload, Vec<char>>)
    ensures
        (match r {
            Ok(p) => Ok(p),
            Err(m) => Err(m@),
        }) == init_parse(text@),
{
    match parse_json(text) {
        Ok(p) => Ok(p),
        Err(json_error) => match parse_json5(text) {
            Ok(p) => Ok(p),
            Err(json5_error) => {
                let mut m: Vec<char> = Vec::new();
                push_str(&mut m, "invalid init directive payload: JSON parse failed (");
                push_str(&mut m, json_error.as_str());
                push_str(&mut m, "); JSON5 parse failed (");
                push_str(&mut m, json5_error.as_str());
                push_str(&mut m, ")");
                Err(m)
            },
        },
    }
}

/// Apply every `%%{init: …}%%` line of `s`, in order; a payload that neither JSON nor JSON5 can
/// parse is reported as an error of its line.
pub fn parse_init_directives(s: &Vec<char>, b: &mut IrBuilder)
    requires
        old(b).wf(),
    ensures
        grows(*old(b), *final(b)),
        final(b).ir.direction == old(b).ir.direction,
        final(b).ir.edges@ == old(b).ir.edges@,
        match init_theme_from(s@, 0, None) {
            Some(t) => final(b).ir.init_theme matches Some(x) && x@ == t,
            None => final(b).ir.init_theme == old(b).ir.init_theme,
        },
        match init_direction_from(s@, 0, None) {
            Some(d) => final(b).ir.init_flowchart_direction == Some(d),
            None => final(b).ir.init_flowchart_direction == old(b).ir.init_flowchart_direction,
        },
{
    let ghost b0 = *b;
    proof {
        lemma_grows_refl(*b);
    }
    let n = s.len();
    let mut line_number: usize = 1;
    let mut i: usize = 0;
    let ghost mut theme: Option<Seq<char>> = None;
    let ghost mut dir: Option<GraphDirection> = None;
    loop
        invariant_except_break
            init_theme_from(s@, i as int, theme) == init_theme_from(s@, 0, None),
            init_direction_from(s@, i as int, dir) == init_direction_from(s@, 0, None),
        invariant
            i <= n == s@.len(),
            grows(b0, *b),
            b.ir.direction == b0.ir.direction,
            b.ir.edges@ == b0.ir.edges@,
            match theme {
                Some(t) => b.ir.init_theme matches Some(x) && x@ == t,
                None => b.ir.init_theme == b0.ir.init_theme,
            },
            match dir {
                Some(d) => b.ir.init_flowchart_direction == Some(d),
                None => b.ir.init_flowchart_direction == b0.ir.init_flowchart_direction,
            },
        ensures
            grows(b0, *b),
            b.ir.direction == b0.ir.direction,
            b.ir.edges@ == b0.ir.edges@,
            match init_theme_from(s@, 0, None) {
                Some(t) => b.ir.init_theme matches Some(x) && x@ == t,
                None => b.ir.init_theme == b0.ir.init_theme,
            },
            match init_direction_from(s@, 0, None) {
                Some(d) => b.ir.init_flowchart_direction == Some(d),
                None => b.ir.init_flowchart_direction == b0.ir.init_flowchart_direction,
            },
        decreases n - i,
    {
        let nl = index_of_char(s, i, n, '\n');
        let (ta, tb) = trim_window(s, i, nl);
        proof {
            assert(nl == crate::flowchart::line_end(s@, i as int));
        }
        let ghost bl = *b;
        if let Some((pa, pb)) = init_payload(s, ta, tb) {
            let span = Span::at_line(line_number, line_width(s, i, nl));
            let text = string_of_window(s, pa, pb);
            let ghost b1 = *b;
            match parse_init_payload(text.as_str()) {
                Ok(p) => apply_init_payload(b, &p, line_number, span),
                Err(m) => init_issue(b, line_number, m, span, true),
            }
            proof {
                lemma_grows_trans(b0, b1, *b);
            }
        }
        proof {
            let lp = line_init_payload(s@, i as int);
            if let Some(InitPayload::Object(es)) = lp {
                if let Some(t) = init_theme_of(es@) {
                    theme = Some(t);
                }
                if let Some(d) = init_direction(es@) {
                    dir = Some(d);
                }
            }
        }
        if nl >= n {
            break;
        }
        i = nl + 1;
        if line_number < usize::MAX {
            line_number = line_number + 1;
        }
    }
}

} // verus!
