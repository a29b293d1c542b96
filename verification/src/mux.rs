//! Reading what tmux and zellij report about their panes: the id tmux
//! prints for a new pane, whether a pane id is still listed, and the
//! panes in zellij's `list-panes --json` output.

use vstd::prelude::*;

use crate::sleeping::{split_nl, split_lines};
use crate::text::{decimal, push_decimal, str_eq, str_views, trim, str_chars, trim_chars, string_from_chars};

verus! {

// ────────────────────────────────────────────────────────────────────────
// Lines of command output
// ────────────────────────────────────────────────────────────────────────

/// `str::lines`: the pieces between `\n`, without the empty piece after
/// a final newline (and none at all for `""`).
pub open spec fn lines_of(s: Seq<char>) -> Seq<Seq<char>> {
    let p = split_nl(s);
    if p.len() > 0 && p.last().len() == 0 { p.drop_last() } else { p }
}

/// The id tmux printed for a new pane: the first output line, trimmed,
/// when it is not empty.
pub open spec fn spec_tmux_pane_id(out: Seq<char>) -> Option<Seq<char>> {
    let ls = lines_of(out);
    if ls.len() > 0 && trim(ls[0]).len() > 0 { Some(trim(ls[0])) } else { None }
}

fn trimmed(s: &str) -> (r: String)
    ensures
        r@ == trim(s@),
{
    let cs = str_chars(s);
    let t = trim_chars(cs.as_slice(), 0, cs.len());
    assert(cs@.subrange(0, cs@.len() as int) =~= cs@);
    string_from_chars(t.as_slice())
}

/// The lines of `out`, as `str::lines` yields them.
fn output_lines(out: &str) -> (r: Vec<String>)
    ensures
        str_views(r@) == lines_of(out@),
{
    let mut ls = split_lines(out);
    proof {
        crate::sleeping::lemma_split_nonempty(out@);
    }
    let n = ls.len();
    if n > 0 && ls[n - 1].as_str().is_empty() {
        let ghost before = str_views(ls@);
        ls.pop();
        assert(str_views(ls@) =~= before.drop_last());
    }
    ls
}

/// Read the new pane's id from `tmux split-window -P -F '#{pane_id}'`.
pub fn parse_tmux_pane_id(out: &str) -> (r: Option<String>)
    ensures
        match spec_tmux_pane_id(out@) {
            Some(id) => r matches Some(s) && s@ == id,
            None => r is None,
        },
{
    let ls = output_lines(out);
    if ls.len() == 0 {
        return None;
    }
    let first = trimmed(ls[0].as_str());
    if first.as_str().is_empty() {
        None
    } else {
        Some(first)
    }
}

/// Some line of `out`, trimmed, is `id`.
pub open spec fn spec_pane_listed(out: Seq<char>, id: Seq<char>) -> bool {
    exists|i: int| 0 <= i < lines_of(out).len() && trim(#[trigger] lines_of(out)[i]) == id
}

/// Whether `tmux list-panes -F '#{pane_id}'` output still lists `id`.
pub fn tmux_pane_listed(out: &str, id: &str) -> (r: bool)
    ensures
        r == spec_pane_listed(out@, id@),
{
    let ls = output_lines(out);
    let ghost v = lines_of(out@);
    let mut i: usize = 0;
    while i < ls.len()
        invariant
            i <= ls@.len(),
            v == str_views(ls@),
            v == lines_of(out@),
            forall|k: int| 0 <= k < i ==> trim(#[trigger] v[k]) != id@,
        decreases ls@.len() - i,
    {
        let t = trimmed(ls[i].as_str());
        assert(v[i as int] == ls@[i as int]@);
        if str_eq(t.as_str(), id) {
            return true;
        }
        i = i + 1;
    }
    false
}

// ────────────────────────────────────────────────────────────────────────
// zellij's pane list
// ────────────────────────────────────────────────────────────────────────

/// A JSON value, as the pane walk reads it.
#[derive(Debug)]
pub enum JsonValue {
    Null,
    Bool(bool),
    /// A number, with its value when it is a non-negative integer that
    /// fits `u64` (what `as_u64` gives), else `None`.
    Number(Option<u64>),
    Str(String),
    Array(Vec<JsonValue>),
    /// Members in the object's iteration order.
    Object(Vec<(String, JsonValue)>),
}

/// The value of a [`JsonValue`].
pub enum JsonView {
    Null,
    Bool(bool),
    Number(Option<u64>),
    Str(Seq<char>),
    Array(Seq<JsonView>),
    Object(Seq<(Seq<char>, JsonView)>),
}

/// The value a [`JsonValue`] stands for.
pub open spec fn json_view(v: JsonValue) -> JsonView
    decreases v,
{
    match v {
        JsonValue::Null => JsonView::Null,
        JsonValue::Bool(b) => JsonView::Bool(b),
        JsonValue::Number(n) => JsonView::Number(n),
        JsonValue::Str(s) => JsonView::Str(s@),
        JsonValue::Array(a) => JsonView::Array(
            Seq::new(a@.len(), |i: int| if 0 <= i < a@.len() { json_view(a@[i]) } else { JsonView::Null }),
        ),
        JsonValue::Object(m) => JsonView::Object(
            Seq::new(
                m@.len(),
                |i: int| if 0 <= i < m@.len() { (m@[i].0@, json_view(m@[i].1)) } else { (Seq::empty(), JsonView::Null) },
            ),
        ),
    }
}

/// A pane from zellij's list: its id, whether it has focus, whether it
/// is a plugin pane.
#[derive(Debug, Clone)]
pub struct ZellijPane {
    pub id: String,
    pub focused: bool,
    pub plugin: bool,
}

impl View for ZellijPane {
    type V = (Seq<char>, bool, bool);

    open spec fn view(&self) -> (Seq<char>, bool, bool) {
        (self.id@, self.focused, self.plugin)
    }
}

/// The views of a list of panes.
pub open spec fn pane_views(v: Seq<ZellijPane>) -> Seq<(Seq<char>, bool, bool)> {
    v.map_values(|p: ZellijPane| p@)
}

/// The value of the first member named `key`.
pub open spec fn member(m: Seq<(String, JsonValue)>, key: Seq<char>) -> Option<JsonValue>
    decreases m.len(),
{
    if m.len() == 0 {
        None
    } else if m[0].0@ == key {
        Some(m[0].1)
    } else {
        member(m.drop_first(), key)
    }
}

/// A member that is a `true`/`false`, else `false`.
pub open spec fn flag(o: Option<JsonValue>) -> bool {
    match o {
        Some(JsonValue::Bool(b)) => b,
        _ => false,
    }
}

/// The pane an object describes: one with an `is_focused` key and a
/// numeric `id` (tabs carry an `id` but no `is_focused`).
pub open spec fn own_pane(m: Seq<(String, JsonValue)>) -> Option<(Seq<char>, bool, bool)> {
    if member(m, "is_focused"@) is Some {
        match member(m, "id"@) {
            Some(JsonValue::Number(Some(n))) => Some(
                (decimal(n as nat), flag(member(m, "is_focused"@)), flag(member(m, "is_plugin"@))),
            ),
            _ => None,
        }
    } else {
        None
    }
}

/// Number of members or elements.
pub open spec fn children_len(v: JsonValue) -> int {
    match v {
        JsonValue::Object(m) => m@.len() as int,
        JsonValue::Array(a) => a@.len() as int,
        _ => 0,
    }
}

/// The `i`-th member value or element.
pub open spec fn child(v: JsonValue, i: int) -> JsonValue {
    match v {
        JsonValue::Object(m) => m@[i].1,
        JsonValue::Array(a) => a@[i],
        _ => JsonValue::Null,
    }
}

/// Every pane object inside `v`, depth first, an object's own pane before
/// those nested in its members.
pub open spec fn panes_in(v: JsonValue) -> Seq<(Seq<char>, bool, bool)>
    decreases v, children_len(v) + 1,
{
    let own: Seq<(Seq<char>, bool, bool)> = match v {
        JsonValue::Object(m) => match own_pane(m@) {
            Some(p) => seq![p],
            None => Seq::empty(),
        },
        _ => Seq::empty(),
    };
    own + panes_in_children(v, children_len(v))
}

/// The panes inside the first `i` children of `v`.
pub open spec fn panes_in_children(v: JsonValue, i: int) -> Seq<(Seq<char>, bool, bool)>
    decreases v, i,
{
    if i <= 0 || i > children_len(v) {
        Seq::empty()
    } else {
        proof {
            lemma_child_decreases(v, i - 1);
        }
        panes_in_children(v, i - 1) + panes_in(child(v, i - 1))
    }
}

pub proof fn lemma_child_decreases(v: JsonValue, i: int)
    requires
        0 <= i < children_len(v),
    ensures
        decreases_to!(v => child(v, i)),
{
    match v {
        JsonValue::Object(m) => {
            assert(decreases_to!(v => m));
            assert(decreases_to!(m => m@));
            assert(decreases_to!(m@ => m@[i]));
            assert(decreases_to!(m@[i] => m@[i].1));
        },
        JsonValue::Array(a) => {
            assert(decreases_to!(v => a));
            assert(decreases_to!(a => a@));
            assert(decreases_to!(a@ => a@[i]));
        },
        _ => {},
    }
}

fn find_member<'a>(m: &'a Vec<(String, JsonValue)>, key: &str) -> (r: Option<&'a JsonValue>)
    ensures
        match r {
            Some(x) => member(m@, key@) == Some(*x),
            None => member(m@, key@) is None,
        },
{
    let mut i: usize = 0;
    assert(m@.skip(0) =~= m@);
    while i < m.len()
        invariant
            i <= m@.len(),
            member(m@, key@) == member(m@.skip(i as int), key@),
        decreases m@.len() - i,
    {
        let ghost rest = m@.skip(i as int);
        assert(rest[0] == m@[i as int]);
        assert(rest.drop_first() =~= m@.skip(i + 1));
        if str_eq(m[i].0.as_str(), key) {
            return Some(&m[i].1);
        }
        i = i + 1;
    }
    None
}

fn flag_of(o: Option<&JsonValue>) -> (r: bool)
    ensures
        r == flag(
            match o {
                Some(x) => Some(*x),
                None => None,
            },
        ),
{
    match o {
        Some(JsonValue::Bool(b)) => *b,
        _ => false,
    }
}

fn own_pane_of(m: &Vec<(String, JsonValue)>) -> (r: Option<ZellijPane>)
    ensures
        match own_pane(m@) {
            Some(p) => r matches Some(q) && q@ == p,
            None => r is None,
        },
{
    let focused = find_member(m, "is_focused");
    if focused.is_none() {
        return None;
    }
    match find_member(m, "id") {
        Some(JsonValue::Number(Some(n))) => {
            let mut id = String::new();
            push_decimal(&mut id, *n);
            assert(id@ =~= decimal(*n as nat));
            let plugin = find_member(m, "is_plugin");
            Some(ZellijPane { id, focused: flag_of(focused), plugin: flag_of(plugin) })
        },
        _ => None,
    }
}

/// Collect every pane object in zellij's (possibly tab-nested)
/// `list-panes --json` output, appending to `out`.
pub fn collect_zellij_panes(v: &JsonValue, out: &mut Vec<ZellijPane>)
    ensures
        pane_views(final(out)@) == pane_views(old(out)@) + panes_in(*v),
    decreases *v,
{
    let ghost start = pane_views(out@);
    match v {
        JsonValue::Object(m) => {
            let own = own_pane_of(m);
            match own {
                Some(p) => {
                    out.push(p);
                },
                None => {},
            }
            let ghost base = pane_views(out@);
            assert(base =~= start + match own_pane(m@) {
                Some(p) => seq![p],
                None => Seq::<(Seq<char>, bool, bool)>::empty(),
            });
            let mut i: usize = 0;
            while i < m.len()
                invariant
                    i <= m@.len(),
                    children_len(*v) == m@.len(),
                    *v == JsonValue::Object(*m),
                    pane_views(out@) == base + panes_in_children(*v, i as int),
                decreases m@.len() - i,
            {
                proof {
                    lemma_child_decreases(*v, i as int);
                }
                assert(child(*v, i as int) == m@[i as int].1);
                let ghost before = pane_views(out@);
                collect_zellij_panes(&m[i].1, out);
                assert(pane_views(out@) =~= base + panes_in_children(*v, i + 1));
                i = i + 1;
            }
        },
        JsonValue::Array(a) => {
            let mut i: usize = 0;
            assert(start =~= start + Seq::<(Seq<char>, bool, bool)>::empty());
            while i < a.len()
                invariant
                    i <= a@.len(),
                    children_len(*v) == a@.len(),
                    *v == JsonValue::Array(*a),
                    pane_views(out@) == start + panes_in_children(*v, i as int),
                decreases a@.len() - i,
            {
                proof {
                    lemma_child_decreases(*v, i as int);
                }
                assert(child(*v, i as int) == a@[i as int]);
                collect_zellij_panes(&a[i], out);
                assert(pane_views(out@) =~= start + panes_in_children(*v, i + 1));
                i = i + 1;
            }
        },
        _ => {
            assert(pane_views(out@) =~= start + panes_in(*v));
        },
    }
}

/// `serde_json::Value`, carried opaquely into the conversion below.
#[verifier::external_type_specification]
#[verifier::external_body]
pub struct ExSerdeJsonValue(serde_json::Value);

/// What `serde_json::from_str` reads `text` as, in the library's JSON
/// model; `None` when the text is not JSON.
pub uninterp spec fn json_parsed(text: Seq<char>) -> Option<JsonView>;

/// `serde_json::Value` to [`JsonValue`], variant by variant: numbers by
/// `Number::as_u64`, object members in the map's iteration order.
#[verifier::external_body]
fn json_value_of(v: &serde_json::Value) -> JsonValue {
    match v {
        serde_json::Value::Null => JsonValue::Null,
        serde_json::Value::Bool(b) => JsonValue::Bool(*b),
        serde_json::Value::Number(n) => JsonValue::Number(n.as_u64()),
        serde_json::Value::String(s) => JsonValue::Str(s.clone()),
        serde_json::Value::Array(a) => JsonValue::Array(a.iter().map(json_value_of).collect()),
        serde_json::Value::Object(m) => JsonValue::Object(m.iter().map(|(k, x)| (k.clone(), json_value_of(x))).collect()),
    }
}

/// `serde_json::from_str` on `text`, converted to [`JsonValue`]: `None`
/// exactly when serde_json rejects the text. The result is named by
/// [`json_parsed`] (a function of the text alone); what serde_json
/// accepts and how it reads it is not spelled out here.
#[verifier::external_body]
pub fn parse_json(text: &str) -> (r: Option<JsonValue>)
    ensures
        match r {
            Some(v) => json_parsed(text@) == Some(json_view(v)),
            None => json_parsed(text@) is None,
        },
{
    match serde_json::from_str::<serde_json::Value>(text) {
        Ok(v) => Some(json_value_of(&v)),
        Err(_) => None,
    }
}

/// The panes in zellij's `list-panes --json` output: `None` when the
/// output is not JSON; otherwise every pane object in the parsed value
/// (tabs walked depth-first), in order.
pub fn zellij_panes_from_output(out: &str) -> (r: Option<Vec<ZellijPane>>)
    ensures
        r is None <==> json_parsed(out@) is None,
        r matches Some(p) ==> exists|v: JsonValue|
            json_parsed(out@) == Some(#[trigger] json_view(v)) && pane_views(p@) == panes_in(v),
{
    match parse_json(out) {
        None => None,
        Some(v) => {
            let mut panes: Vec<ZellijPane> = Vec::new();
            collect_zellij_panes(&v, &mut panes);
            assert(pane_views(panes@) =~= panes_in(v));
            Some(panes)
        },
    }
}

/// Index of the first focused non-plugin pane, or `-1`.
pub open spec fn first_focused(ps: Seq<(Seq<char>, bool, bool)>) -> int
    decreases ps.len(),
{
    if ps.len() == 0 {
        -1
    } else if ps[0].1 && !ps[0].2 {
        0
    } else {
        let r = first_focused(ps.drop_first());
        if r < 0 { -1 } else { r + 1 }
    }
}

/// The id of the pane zellij just opened: it is the focused non-plugin
/// pane (the first such in the list).
pub fn focused_pane_id(panes: &[ZellijPane]) -> (r: Option<String>)
    ensures
        match r {
            Some(id) => first_focused(pane_views(panes@)) >= 0 && id@ == pane_views(panes@)[first_focused(
                pane_views(panes@),
            )].0,
            None => first_focused(pane_views(panes@)) < 0,
        },
{
    let ghost v = pane_views(panes@);
    let mut i: usize = 0;
    assert(v.skip(0) =~= v);
    while i < panes.len()
        invariant
            i <= panes@.len(),
            v == pane_views(panes@),
            first_focused(v) == (if first_focused(v.skip(i as int)) < 0 { -1 } else { first_focused(v.skip(i as int)) + i }),
        decreases panes@.len() - i,
    {
        let ghost rest = v.skip(i as int);
        assert(rest[0] == v[i as int]);
        assert(rest.drop_first() =~= v.skip(i + 1));
        if panes[i].focused && !panes[i].plugin {
            return Some(panes[i].id.clone());
        }
        i = i + 1;
    }
    None
}

/// Whether a pane with `id` is still in zellij's list.
pub fn zellij_pane_listed(panes: &[ZellijPane], id: &str) -> (r: bool)
    ensures
        r == exists|k: int| 0 <= k < panes@.len() && (#[trigger] panes@[k]).id@ == id@,
{
    let mut i: usize = 0;
    while i < panes.len()
        invariant
            i <= panes@.len(),
            forall|k: int| 0 <= k < i ==> (#[trigger] panes@[k]).id@ != id@,
        decreases panes@.len() - i,
    {
        if str_eq(panes[i].id.as_str(), id) {
            return true;
        }
        i = i + 1;
    }
    false
}

} // verus!
