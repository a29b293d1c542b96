//! Accepting a completion item: the text that replaces the typed
//! prefix, the edits to apply (the item's extra edits, such as
//! auto-imports, then the replacement) and where the cursor lands.
//! Applying the edits to the buffer is the caller's business.

use vstd::prelude::*;

use crate::cursor::Cursor;
use crate::lsp_coordinator::{Position, Range, TextEdit};
use crate::text::{find_last_char, last_index_of, lemma_last_index_of_bounds, push_str, str_chars};

verus! {

/// What accepting reads of a completion item.
#[derive(Debug)]
pub struct CompletionChoice {
    pub label: String,
    /// The LSP `CompletionItemKind` (2 method, 3 function, 4 constructor).
    pub kind: u8,
    pub insert_text: Option<String>,
    pub text_edit: Option<TextEdit>,
    pub additional_text_edits: Vec<TextEdit>,
}

/// What to do to accept an item.
#[derive(Debug)]
pub struct AcceptPlan {
    /// The item's extra edits, then the replacement of the typed prefix.
    pub edits: Vec<TextEdit>,
    /// The cursor's row after the edits (to clamp to the buffer).
    pub row: usize,
    pub col: usize,
    /// Whether the item should be resolved afterwards for its extra edits
    /// (it came without any).
    pub needs_resolve: bool,
    /// Whether `()` was appended to a callable, so signature help must be
    /// asked for explicitly (the `(` was not typed).
    pub signature_help: bool,
}

/// How many `'\n'` `s` holds.
pub open spec fn newlines(s: Seq<char>) -> nat
    decreases s.len(),
{
    if s.len() == 0 {
        0
    } else {
        newlines(s.drop_last()) + if s.last() == '\n' { 1nat } else { 0nat }
    }
}

/// The text an item inserts: its edit's text, else its insert text, else
/// its label.
pub open spec fn base_text(c: CompletionChoice) -> Seq<char> {
    match c.text_edit {
        Some(te) => te.new_text@,
        None => match c.insert_text {
            Some(t) => t@,
            None => c.label@,
        },
    }
}

/// A callable (method, function, constructor) inserted as a bare,
/// single-line name gets `()` appended.
pub open spec fn appends_call(c: CompletionChoice) -> bool {
    let b = base_text(c);
    2 <= c.kind <= 4 && !b.contains('(') && !b.contains('\n') && b.len() > 0
}

/// The replacement text.
pub open spec fn replacement_text(c: CompletionChoice) -> Seq<char> {
    if appends_call(c) { base_text(c) + "()"@ } else { base_text(c) }
}

/// Where the replaced span starts: the prefix start, or the item edit's
/// start when that lies on the same row and further left.
pub open spec fn replace_start(c: CompletionChoice, prefix_start: Cursor) -> usize {
    match c.text_edit {
        Some(te) => if te.range.start.line as usize == prefix_start.row && (te.range.start.character as usize)
            < prefix_start.col {
            te.range.start.character as usize
        } else {
            prefix_start.col
        },
        None => prefix_start.col,
    }
}

/// How many rows the extra edits above the prefix row add (or remove).
pub open spec fn row_shift(edits: Seq<TextEdit>, row: usize) -> int
    decreases edits.len(),
{
    if edits.len() == 0 {
        0
    } else {
        let e = edits.last();
        row_shift(edits.drop_last(), row) + if (e.range.start.line as usize) < row {
            newlines(e.new_text@) as int - (e.range.end.line - e.range.start.line)
        } else {
            0
        }
    }
}

/// The cursor column after the replacement: past the inserted text (inside
/// an appended `()`), or past the last inserted line of a multi-line one.
pub open spec fn final_col(c: CompletionChoice, prefix_start: Cursor) -> int {
    let r = replacement_text(c);
    if newlines(r) == 0 {
        replace_start(c, prefix_start) + r.len() - if appends_call(c) { 1int } else { 0int }
    } else {
        r.len() - (last_index_of(r, '\n') + 1)
    }
}

/// The cursor row after the edits, before clamping to the buffer.
pub open spec fn final_row(c: CompletionChoice, prefix_start: Cursor) -> int {
    let r = prefix_start.row + row_shift(c.additional_text_edits@, prefix_start.row) + newlines(replacement_text(c));
    if r < 0 { 0 } else { r }
}

proof fn lemma_newlines_contains(s: Seq<char>)
    ensures
        (newlines(s) == 0) == !s.contains('\n'),
        newlines(s) <= s.len(),
    decreases s.len(),
{
    if s.len() > 0 {
        lemma_newlines_contains(s.drop_last());
        if s.drop_last().contains('\n') {
            let i = choose|i: int| 0 <= i < s.drop_last().len() && s.drop_last()[i] == '\n';
            assert(s[i] == '\n');
        }
        if s.contains('\n') && s.last() != '\n' {
            let i = choose|i: int| 0 <= i < s.len() && s[i] == '\n';
            assert(s.drop_last()[i] == '\n');
        }
        if s.last() == '\n' {
            assert(s[s.len() - 1] == '\n');
        }
    }
}

fn count_newlines(s: &Vec<char>) -> (r: usize)
    ensures
        r == newlines(s@),
{
    let mut n: usize = 0;
    let mut i: usize = 0;
    while i < s.len()
        invariant
            i <= s@.len(),
            n == newlines(s@.take(i as int)),
            n <= i,
        decreases s@.len() - i,
    {
        assert(s@.take(i + 1).drop_last() =~= s@.take(i as int));
        if s[i] == '\n' {
            n = n + 1;
        }
        i = i + 1;
    }
    assert(s@.take(s@.len() as int) =~= s@);
    n
}

fn contains_char(s: &Vec<char>, c: char) -> (r: bool)
    ensures
        r == s@.contains(c),
{
    let mut i: usize = 0;
    while i < s.len()
        invariant
            i <= s@.len(),
            forall|j: int| 0 <= j < i ==> s@[j] != c,
        decreases s@.len() - i,
    {
        if s[i] == c {
            assert(s@[i as int] == c);
            return true;
        }
        i = i + 1;
    }
    false
}

fn clone_edit(e: &TextEdit) -> (r: TextEdit)
    ensures
        r == *e,
{
    TextEdit { range: e.range, new_text: e.new_text.clone() }
}

/// Plan the acceptance of `item`, typed from `prefix_start` up to
/// `cursor`.
pub fn plan_accept(item: &CompletionChoice, prefix_start: Cursor, cursor: Cursor) -> (r: AcceptPlan)
    requires
        item.additional_text_edits@.len() < 0x1_0000_0000,
        forall|k: int| 0 <= k < item.additional_text_edits@.len() ==> {
            let e = #[trigger] item.additional_text_edits@[k];
            &&& e.new_text@.len() < 0x1_0000_0000
            &&& (e.range.start.line as usize) < prefix_start.row ==> e.range.start.line <= e.range.end.line
        },
        prefix_start.row < 0x1_0000_0000_0000,
        prefix_start.col + base_text(*item).len() + 2 <= usize::MAX,
        final_row(*item, prefix_start) <= usize::MAX,
    ensures
        r.edits@.len() == item.additional_text_edits@.len() + 1,
        forall|k: int| 0 <= k < item.additional_text_edits@.len() ==> r.edits@[k] == item.additional_text_edits@[k],
        r.edits@.last().new_text@ == replacement_text(*item),
        r.edits@.last().range == (Range {
            start: Position { line: prefix_start.row as u32, character: replace_start(*item, prefix_start) as u32 },
            end: Position { line: cursor.row as u32, character: cursor.col as u32 },
        }),
        r.row == final_row(*item, prefix_start),
        r.col == final_col(*item, prefix_start),
        r.needs_resolve == (item.additional_text_edits@.len() == 0),
        r.signature_help == appends_call(*item),
{
    // The replacement.
    let base: Vec<char> = match &item.text_edit {
        Some(te) => str_chars(te.new_text.as_str()),
        None => match &item.insert_text {
            Some(t) => str_chars(t.as_str()),
            None => str_chars(item.label.as_str()),
        },
    };
    let appended = 2 <= item.kind && item.kind <= 4 && !contains_char(&base, '(') && !contains_char(&base, '\n')
        && base.len() > 0;
    let mut text = crate::text::string_from_chars(base.as_slice());
    if appended {
        push_str(&mut text, "()");
    }
    let rep = str_chars(text.as_str());
    proof {
        reveal_strlit("()");
        assert(rep@ =~= replacement_text(*item));
    }
    // Where it starts.
    let start_col: usize = match &item.text_edit {
        Some(te) => if te.range.start.line as usize == prefix_start.row && (te.range.start.character as usize)
            < prefix_start.col {
            te.range.start.character as usize
        } else {
            prefix_start.col
        },
        None => prefix_start.col,
    };
    let primary = TextEdit {
        range: Range {
            start: Position { line: prefix_start.row as u32, character: start_col as u32 },
            end: Position { line: cursor.row as u32, character: cursor.col as u32 },
        },
        new_text: text,
    };
    // Rows the extra edits above add or remove.
    let extra = &item.additional_text_edits;
    let mut shift: i128 = 0;
    let mut edits: Vec<TextEdit> = Vec::new();
    let mut k: usize = 0;
    while k < extra.len()
        invariant
            k <= extra@.len(),
            extra@.len() < 0x1_0000_0000,
            forall|m: int| 0 <= m < extra@.len() ==> {
                let e = #[trigger] extra@[m];
                &&& e.new_text@.len() < 0x1_0000_0000
                &&& (e.range.start.line as usize) < prefix_start.row ==> e.range.start.line <= e.range.end.line
            },
            shift == row_shift(extra@.take(k as int), prefix_start.row),
            -(k as int) * 0x1_0000_0000 <= shift <= (k as int) * 0x1_0000_0000,
            edits@ == extra@.take(k as int),
        decreases extra@.len() - k,
    {
        let e = &extra[k];
        assert(extra@.take(k + 1).drop_last() =~= extra@.take(k as int));
        assert(extra@.take(k + 1).last() == *e);
        if (e.range.start.line as usize) < prefix_start.row {
            let added = count_newlines(&str_chars(e.new_text.as_str()));
            proof {
                lemma_newlines_contains(e.new_text@);
            }
            let removed = e.range.end.line - e.range.start.line;
            assert(shift + added as i128 - removed as i128 <= (k + 1) * 0x1_0000_0000) by (nonlinear_arith)
                requires
                    shift <= (k as int) * 0x1_0000_0000,
                    added < 0x1_0000_0000,
                    removed >= 0,
            ;
            assert(shift + added as i128 - removed as i128 >= -((k + 1) as int) * 0x1_0000_0000) by (nonlinear_arith)
                requires
                    shift >= -(k as int) * 0x1_0000_0000,
                    added >= 0,
                    removed < 0x1_0000_0000,
            ;
            shift = shift + added as i128 - removed as i128;
        } else {
            assert(-((k + 1) as int) * 0x1_0000_0000 <= shift <= ((k + 1) as int) * 0x1_0000_0000) by (nonlinear_arith)
                requires
                    -(k as int) * 0x1_0000_0000 <= shift <= (k as int) * 0x1_0000_0000,
            ;
        }
        edits.push(clone_edit(e));
        k = k + 1;
    }
    assert(extra@.take(extra@.len() as int) =~= extra@);
    let needs_resolve = extra.len() == 0;
    edits.push(primary);
    // Where the cursor lands.
    let rep_newlines = count_newlines(&rep);
    proof {
        lemma_newlines_contains(rep@);
    }
    let row_i: i128 = prefix_start.row as i128 + shift + rep_newlines as i128;
    assert(row_i == prefix_start.row + row_shift(extra@, prefix_start.row) + newlines(replacement_text(*item)));
    let row: usize = if row_i < 0 { 0 } else { row_i as usize };
    let col: usize = if rep_newlines == 0 {
        let end = start_col + rep.len();
        if appended { end - 1 } else { end }
    } else {
        proof {
            lemma_last_index_of_bounds(rep@, '\n');
        }
        match find_last_char(rep.as_slice(), '\n') {
            Some(i) => rep.len() - (i + 1),
            None => rep.len(),
        }
    };
    proof {
        assert(appended == appends_call(*item)) by {
            assert(base@ == base_text(*item));
        }
    }
    AcceptPlan { edits, row, col, needs_resolve, signature_help: appended }
}

/// Whether accepting `item` appends `()` to it (a method, function or
/// constructor whose text is one non-empty line without `(`); signature
/// help is then owed, since the `(` was not typed.
pub fn owes_signature_help(item: &CompletionChoice) -> (r: bool)
    ensures
        r == appends_call(*item),
{
    let base: Vec<char> = match &item.text_edit {
        Some(te) => str_chars(te.new_text.as_str()),
        None => match &item.insert_text {
            Some(t) => str_chars(t.as_str()),
            None => str_chars(item.label.as_str()),
        },
    };
    2 <= item.kind && item.kind <= 4 && !contains_char(&base, '(') && !contains_char(&base, '\n') && base.len() > 0
}

// ────────────────────────────────────────────────────────────────────────
// Merging what several servers offered
// ────────────────────────────────────────────────────────────────────────

/// What identifies an item across servers: its label, its kind and the
/// text it inserts.
pub open spec fn item_key(c: CompletionChoice) -> (Seq<char>, u8, Seq<char>) {
    (c.label@, c.kind, base_text(c))
}

/// The items with a key no earlier item has, in order.
pub open spec fn dedup_items(s: Seq<CompletionChoice>) -> Seq<CompletionChoice>
    decreases s.len(),
{
    if s.len() == 0 {
        s
    } else {
        let r = dedup_items(s.drop_last());
        if exists|k: int| 0 <= k < s.len() - 1 && item_key(#[trigger] s[k]) == item_key(s.last()) {
            r
        } else {
            r.push(s.last())
        }
    }
}

fn key_of(c: &CompletionChoice) -> (r: (String, u8, String))
    ensures
        (r.0@, r.1, r.2@) == item_key(*c),
{
    let text = match &c.text_edit {
        Some(te) => te.new_text.clone(),
        None => match &c.insert_text {
            Some(t) => t.clone(),
            None => c.label.clone(),
        },
    };
    (c.label.clone(), c.kind, text)
}

/// Drop the items several servers offered alike (same label, kind and
/// inserted text), keeping the first of each.
pub fn dedup_completion(items: Vec<CompletionChoice>) -> (r: Vec<CompletionChoice>)
    ensures
        r@ == dedup_items(items@),
{
    let ghost all = items@;
    let mut seen: Vec<(String, u8, String)> = Vec::new();
    let mut out: Vec<CompletionChoice> = Vec::new();
    for it in iter: items.into_iter()
        invariant
            iter.seq() == all,
            out@ == dedup_items(all.take(iter.index() as int)),
            seen@.len() == iter.index(),
            forall|k: int| 0 <= k < iter.index() ==> (#[trigger] seen@[k].0@, seen@[k].1, seen@[k].2@) == item_key(all[k]),
    {
        let ghost i = iter.index();
        let key = key_of(&it);
        let mut dup = false;
        let mut j: usize = 0;
        while j < seen.len()
            invariant
                j <= seen@.len(),
                seen@.len() == i,
                i < all.len(),
                it == all[i as int],
                (key.0@, key.1, key.2@) == item_key(it),
                forall|k: int| 0 <= k < i ==> (#[trigger] seen@[k].0@, seen@[k].1, seen@[k].2@) == item_key(all[k]),
                dup == exists|k: int| 0 <= k < j && item_key(#[trigger] all[k]) == item_key(it),
            decreases seen@.len() - j,
        {
            let same = seen[j].0 == key.0 && seen[j].1 == key.1 && seen[j].2 == key.2;
            proof {
                assert((seen@[j as int].0@, seen@[j as int].1, seen@[j as int].2@) == item_key(all[j as int]));
                if same {
                    assert(item_key(all[j as int]) == item_key(it));
                }
                if exists|k: int| 0 <= k < j + 1 && item_key(#[trigger] all[k]) == item_key(it) {
                    if !same {
                        let k = choose|k: int| 0 <= k < j + 1 && item_key(#[trigger] all[k]) == item_key(it);
                        if k == j {
                            assert(item_key(all[j as int]) == item_key(it));
                            assert(seen@[j as int].0@ == key.0@ && seen@[j as int].2@ == key.2@);
                        }
                    }
                }
            }
            dup = dup || same;
            j = j + 1;
        }
        proof {
            let t = all.take(i + 1);
            assert(t.drop_last() =~= all.take(i as int));
            assert(t.last() == it);
            assert((exists|k: int| 0 <= k < t.len() - 1 && item_key(#[trigger] t[k]) == item_key(t.last())) == dup) by {
                if dup {
                    let k = choose|k: int| 0 <= k < i && item_key(#[trigger] all[k]) == item_key(it);
                    assert(t[k] == all[k]);
                }
                if exists|k: int| 0 <= k < t.len() - 1 && item_key(#[trigger] t[k]) == item_key(t.last()) {
                    let k = choose|k: int| 0 <= k < t.len() - 1 && item_key(#[trigger] t[k]) == item_key(t.last());
                    assert(t[k] == all[k]);
                }
            }
        }
        seen.push(key);
        if !dup {
            out.push(it);
        }
    }
    assert(all.take(all.len() as int) =~= all);
    out
}

/// The merged hover of several servers: their texts joined by a rule
/// (`None` when none answered with one).
pub open spec fn merged_hover(parts: Seq<Seq<char>>) -> Option<Seq<char>> {
    if parts.len() == 0 { None } else { Some(crate::reload::join_with(parts, "\n\n---\n\n"@)) }
}

/// Merge the hover texts several servers answered with.
pub fn finalize_hover(parts: &Vec<String>) -> (r: Option<String>)
    ensures
        match r {
            Some(t) => merged_hover(crate::text::str_views(parts@)) == Some(t@),
            None => merged_hover(crate::text::str_views(parts@)) is None,
        },
{
    if parts.len() == 0 {
        return None;
    }
    let mut s = String::new();
    crate::reload::push_joined(&mut s, parts, "\n\n---\n\n");
    assert(s@ =~= crate::reload::join_with(crate::text::str_views(parts@), "\n\n---\n\n"@));
    Some(s)
}

/// Whether some item of `s` has key `key`.
pub open spec fn key_kept(s: Seq<CompletionChoice>, key: (Seq<char>, u8, Seq<char>)) -> bool {
    exists|i: int| 0 <= i < s.len() && item_key(#[trigger] s[i]) == key
}

/// After merging, no two items share a key, and every offered item's key
/// is still there.
pub proof fn law_dedup_keeps_one_of_each(s: Seq<CompletionChoice>)
    ensures
        forall|i: int, j: int|
            0 <= i < j < dedup_items(s).len() ==> item_key(#[trigger] dedup_items(s)[i]) != item_key(
                #[trigger] dedup_items(s)[j],
            ),
        forall|k: int| 0 <= k < s.len() ==> key_kept(dedup_items(s), item_key(#[trigger] s[k])),
        forall|i: int|
            0 <= i < dedup_items(s).len() ==> exists|k: int| 0 <= k < s.len() && #[trigger] dedup_items(s)[i] == s[k],
    decreases s.len(),
{
    if s.len() > 0 {
        let init = s.drop_last();
        let x = s.last();
        law_dedup_keeps_one_of_each(init);
        let r = dedup_items(init);
        let out = dedup_items(s);
        let seen_before = exists|k: int| 0 <= k < s.len() - 1 && item_key(#[trigger] s[k]) == item_key(x);
        assert forall|i: int| 0 <= i < r.len() implies exists|k: int| 0 <= k < s.len() && #[trigger] r[i] == s[k] by {
            let k = choose|k: int| 0 <= k < init.len() && r[i] == init[k];
            assert(s[k] == init[k]);
        }
        if seen_before {
            assert(out == r);
            assert forall|k: int| 0 <= k < s.len() implies key_kept(out, item_key(#[trigger] s[k])) by {
                if k < s.len() - 1 {
                    assert(s[k] == init[k]);
                } else {
                    let w = choose|w: int| 0 <= w < s.len() - 1 && item_key(#[trigger] s[w]) == item_key(x);
                    assert(s[w] == init[w]);
                }
            }
        } else {
            assert(out == r.push(x));
            assert forall|i: int| 0 <= i < r.len() implies item_key(#[trigger] r[i]) != item_key(x) by {
                let k = choose|k: int| 0 <= k < init.len() && r[i] == init[k];
                assert(s[k] == init[k]);
            }
            assert forall|i: int, j: int| 0 <= i < j < out.len() implies item_key(#[trigger] out[i]) != item_key(#[trigger] out[j]) by {
                if j == r.len() {
                    assert(out[i] == r[i]);
                } else {
                    assert(out[i] == r[i] && out[j] == r[j]);
                }
            }
            assert forall|k: int| 0 <= k < s.len() implies key_kept(out, item_key(#[trigger] s[k])) by {
                if k < s.len() - 1 {
                    assert(s[k] == init[k]);
                    assert(key_kept(r, item_key(init[k])));
                    let i = choose|i: int| 0 <= i < r.len() && item_key(#[trigger] r[i]) == item_key(init[k]);
                    assert(out[i] == r[i]);
                } else {
                    assert(out[r.len() as int] == x);
                }
            }
            assert forall|i: int| 0 <= i < out.len() implies exists|k: int| 0 <= k < s.len() && #[trigger] out[i] == s[k] by {
                if i < r.len() {
                    assert(out[i] == r[i]);
                } else {
                    assert(out[i] == s[s.len() - 1]);
                }
            }
        }
    }
}

} // verus!
