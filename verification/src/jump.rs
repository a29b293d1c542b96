//! Jump history (vim's jumplist, `Ctrl-O` / `Ctrl-I`) and the two-char
//! label jump (`gw`).

use vstd::prelude::*;

use crate::buffer_ref::{BufferRef, RefView};
use crate::cursor::Cursor;
use crate::keys::{KeyCode, KeyInput};
use crate::text::{char_is_word, is_word_char, str_chars};

verus! {

/// Cap on retained jump entries, vim's default `'jumplist'`.
pub const JUMPLIST_CAP: usize = 100;

/// One recorded position: which document and where in it.
#[derive(Debug)]
pub struct JumpEntry {
    pub doc: BufferRef,
    pub cursor: Cursor,
}

impl View for JumpEntry {
    type V = (RefView, Cursor);

    open spec fn view(&self) -> (RefView, Cursor) {
        (self.doc@, self.cursor)
    }
}

impl JumpEntry {
    /// A copy of this entry.
    pub fn duplicate(&self) -> (r: JumpEntry)
        ensures
            r@ == self@,
    {
        JumpEntry { doc: self.doc.duplicate(), cursor: self.cursor }
    }
}

impl Clone for JumpEntry {
    fn clone(&self) -> (r: JumpEntry)
        ensures
            r@ == self@,
    {
        self.duplicate()
    }
}

/// The abstract jumplist: entries (oldest first) and the index the user
/// is conceptually at (`== entries.len()` at the tip).
pub type JumpModel = (Seq<(RefView, Cursor)>, nat);

/// The oldest entries dropped so at most [`JUMPLIST_CAP`] remain.
pub open spec fn capped(e: Seq<(RefView, Cursor)>) -> Seq<(RefView, Cursor)> {
    if e.len() > JUMPLIST_CAP { e.skip(e.len() - JUMPLIST_CAP) } else { e }
}

/// `push`: forward history is discarded; a jump from the same line as the
/// previous origin refreshes that origin instead of growing the list; the
/// list is capped; the position moves to the tip.
pub open spec fn spec_push(m: JumpModel, from: (RefView, Cursor)) -> JumpModel {
    let e = m.0.take(m.1 as int);
    let e2 = if e.len() > 0 && e.last().0 == from.0 && e.last().1.row == from.1.row {
        e.update(e.len() - 1, from)
    } else {
        capped(e.push(from))
    };
    (e2, e2.len())
}

/// `backward`: nothing at the oldest entry; from the tip the live position
/// is appended first (capped, shifting the index); then the index steps
/// back by up to `count`, stopping at the oldest entry.
pub open spec fn spec_backward(m: JumpModel, count: nat, here: (RefView, Cursor)) -> (JumpModel, Option<(RefView, Cursor)>) {
    if m.1 == 0 {
        (m, None)
    } else {
        let (e, cur) = if m.1 == m.0.len() {
            let f = m.0.push(here);
            (capped(f), (m.1 - (f.len() - capped(f).len())) as nat)
        } else {
            (m.0, m.1)
        };
        let target: nat = if cur >= count { (cur - count) as nat } else { 0 };
        ((e, target), Some(e[target as int]))
    }
}

/// `forward`: nothing when already at (or past) the newest entry;
/// otherwise the index steps forward by up to `count`, stopping at the
/// newest entry.
pub open spec fn spec_forward(m: JumpModel, count: nat) -> (JumpModel, Option<(RefView, Cursor)>) {
    if m.0.len() == 0 || m.1 >= m.0.len() - 1 {
        (m, None)
    } else {
        let last = (m.0.len() - 1) as nat;
        let target: nat = if m.1 + count >= last { last } else { (m.1 + count) as nat };
        ((m.0, target), Some(m.0[target as int]))
    }
}

/// Well-formed jumplist states: within the cap, index within the list.
pub open spec fn model_wf(m: JumpModel) -> bool {
    m.0.len() <= JUMPLIST_CAP && m.1 <= m.0.len()
}

/// Browser-style jump history.
#[derive(Debug)]
pub struct JumpList {
    entries: Vec<JumpEntry>,
    current: usize,
}

/// Drop the oldest entries past [`JUMPLIST_CAP`]; returns how many went.
fn enforce_cap(entries: &mut Vec<JumpEntry>) -> (r: usize)
    ensures
        final(entries)@.map_values(|e: JumpEntry| e@) == capped(old(entries)@.map_values(|e: JumpEntry| e@)),
        r == if old(entries)@.len() > JUMPLIST_CAP { old(entries)@.len() - JUMPLIST_CAP } else { 0 },
{
    let ghost start = entries@;
    if entries.len() <= JUMPLIST_CAP {
        return 0;
    }
    let overflow = entries.len() - JUMPLIST_CAP;
    let mut k: usize = 0;
    while k < overflow
        invariant
            overflow == start.len() - JUMPLIST_CAP,
            k <= overflow,
            entries@ == start.skip(k as int),
        decreases overflow - k,
    {
        entries.remove(0);
        assert(start.skip(k as int).remove(0) =~= start.skip(k + 1));
        k = k + 1;
    }
    assert(entries@.map_values(|e: JumpEntry| e@) =~= start.map_values(|e: JumpEntry| e@).skip(overflow as int));
    overflow
}

impl JumpList {
    #[verifier::type_invariant]
    spec fn inv(self) -> bool {
        model_wf(self.model())
    }

    /// The abstract state.
    pub closed spec fn model(&self) -> JumpModel {
        (self.entries@.map_values(|e: JumpEntry| e@), self.current as nat)
    }

    /// An empty history.
    pub fn new() -> (r: JumpList)
        ensures
            r.model() == (Seq::<(RefView, Cursor)>::empty(), 0nat),
            model_wf(r.model()),
    {
        let r = JumpList { entries: Vec::new(), current: 0 };
        assert(r.model().0 =~= Seq::<(RefView, Cursor)>::empty());
        r
    }

    /// Record `from` as a jump origin (see [`spec_push`]).
    pub fn push(&mut self, from: JumpEntry)
        ensures
            final(self).model() == spec_push(old(self).model(), from@),
            model_wf(final(self).model()),
    {
        proof {
            use_type_invariant(&*self);
        }
        let ghost m = self.model();
        let mut tmp = JumpList::new();
        std::mem::swap(self, &mut tmp);
        let JumpList { mut entries, current } = tmp;
        entries.truncate(current);
        assert(entries@.map_values(|e: JumpEntry| e@) =~= m.0.take(m.1 as int));
        let n = entries.len();
        if n > 0 && entries[n - 1].doc == from.doc && entries[n - 1].cursor.row == from.cursor.row {
            let old_doc = entries[n - 1].doc.duplicate();
            entries.set(n - 1, JumpEntry { doc: old_doc, cursor: from.cursor });
            assert(entries@.map_values(|e: JumpEntry| e@) =~= m.0.take(m.1 as int).update(n - 1, from@));
            *self = JumpList { entries, current: n };
            return;
        }
        entries.push(from);
        assert(entries@.map_values(|e: JumpEntry| e@) =~= m.0.take(m.1 as int).push(from@));
        enforce_cap(&mut entries);
        let len = entries.len();
        *self = JumpList { entries, current: len };
    }

    /// Step up to `count` entries back (`Ctrl-O`); see [`spec_backward`].
    pub fn backward(&mut self, count: usize, here: JumpEntry) -> (r: Option<JumpEntry>)
        ensures
            final(self).model() == spec_backward(old(self).model(), count as nat, here@).0,
            r matches Some(e) ==> spec_backward(old(self).model(), count as nat, here@).1 == Some(e@),
            r is None <==> spec_backward(old(self).model(), count as nat, here@).1 is None,
            model_wf(final(self).model()),
    {
        proof {
            use_type_invariant(&*self);
        }
        let ghost m = self.model();
        if self.current == 0 {
            return None;
        }
        let mut tmp = JumpList::new();
        std::mem::swap(self, &mut tmp);
        let JumpList { mut entries, mut current } = tmp;
        if current == entries.len() {
            let ghost before = entries@.map_values(|e: JumpEntry| e@);
            entries.push(here);
            let ghost pushed = entries@.map_values(|e: JumpEntry| e@);
            assert(pushed =~= before.push(here@));
            if entries.len() > JUMPLIST_CAP {
                entries.remove(0);
                assert(entries@.map_values(|e: JumpEntry| e@) =~= capped(pushed));
                current = current - 1;
            }
        }
        let target = if current >= count { current - count } else { 0 };
        let r = entries[target].duplicate();
        *self = JumpList { entries, current: target };
        Some(r)
    }

    /// Step up to `count` entries forward (`Ctrl-I`); see [`spec_forward`].
    pub fn forward(&mut self, count: usize) -> (r: Option<JumpEntry>)
        ensures
            final(self).model() == spec_forward(old(self).model(), count as nat).0,
            r matches Some(e) ==> spec_forward(old(self).model(), count as nat).1 == Some(e@),
            r is None <==> spec_forward(old(self).model(), count as nat).1 is None,
            model_wf(final(self).model()),
    {
        proof {
            use_type_invariant(&*self);
        }
        if self.entries.len() == 0 {
            return None;
        }
        let last = self.entries.len() - 1;
        if self.current >= last {
            return None;
        }
        let target = if count >= last - self.current { last } else { self.current + count };
        let r = self.entries[target].duplicate();
        self.current = target;
        Some(r)
    }

    /// All recorded entries, oldest first.
    pub fn entries(&self) -> (r: &[JumpEntry])
        ensures
            r@.map_values(|e: JumpEntry| e@) == self.model().0,
            r@.len() <= JUMPLIST_CAP,
            model_wf(self.model()),
    {
        proof {
            use_type_invariant(self);
        }
        self.entries.as_slice()
    }
}

impl Default for JumpList {
    fn default() -> (r: JumpList)
        ensures
            r.model() == (Seq::<(RefView, Cursor)>::empty(), 0nat),
            model_wf(r.model()),
    {
        JumpList::new()
    }
}

/// Law: a push onto any well-formed history (every reachable one is)
/// keeps it within [`JUMPLIST_CAP`] and leaves `from` as its newest
/// entry, with the position at the tip.
pub proof fn law_push_ends_with_origin(m: JumpModel, from: (RefView, Cursor))
    requires
        model_wf(m),
    ensures
        spec_push(m, from).0.len() <= JUMPLIST_CAP,
        spec_push(m, from).0.len() > 0,
        spec_push(m, from).0.last() == from,
        spec_push(m, from).1 == spec_push(m, from).0.len(),
{
    let e = m.0.take(m.1 as int);
    if !(e.len() > 0 && e.last().0 == from.0 && e.last().1.row == from.1.row) {
        let f = e.push(from);
        if f.len() > JUMPLIST_CAP {
            assert(capped(f).last() == f.last());
        }
    }
}

/// Law: every jumplist operation keeps the list within [`JUMPLIST_CAP`]
/// entries and the position within the list.
pub proof fn law_jumplist_ops_keep_wf(m: JumpModel, from: (RefView, Cursor), count: nat)
    requires
        model_wf(m),
    ensures
        model_wf(spec_push(m, from)),
        model_wf(spec_backward(m, count, from).0),
        model_wf(spec_forward(m, count).0),
{
}

/// Law: from the tip, `n >= 1` steps back followed by `k >= n` steps
/// forward lands on the live position the backward step started from.
pub proof fn law_back_then_forward_returns_to_origin(m: JumpModel, here: (RefView, Cursor), n: nat, k: nat)
    requires
        model_wf(m),
        m.1 == m.0.len(),
        m.1 > 0,
        n >= 1,
        k >= n,
    ensures
        spec_forward(spec_backward(m, n, here).0, k).1 == Some(here),
{
    let f = m.0.push(here);
    assert(capped(f).last() == here);
}

/// Alphabet labels are drawn from: home row first, then top row, then
/// bottom row.
pub open spec fn alphabet() -> Seq<char> {
    seq!['a', 's', 'd', 'f', 'g', 'h', 'j', 'k', 'l', 'q', 'w', 'e', 'r', 't', 'y', 'u', 'i', 'o', 'p',
        'z', 'x', 'c', 'v', 'b', 'n', 'm']
}

fn alphabet_char(i: usize) -> (c: char)
    requires
        i < 26,
    ensures
        c == alphabet()[i as int],
{
    let a: [char; 26] = ['a', 's', 'd', 'f', 'g', 'h', 'j', 'k', 'l', 'q', 'w', 'e', 'r', 't', 'y', 'u', 'i',
        'o', 'p', 'z', 'x', 'c', 'v', 'b', 'n', 'm'];
    assert(a@ =~= alphabet());
    a[i]
}

/// A label drawn over one jump target.
#[derive(Debug, Clone, Copy, PartialEq, Eq, Structural)]
pub struct JumpLabel {
    pub pos: Cursor,
    pub first: char,
    /// `None` when a single keypress is enough to pick the target.
    pub second: Option<char>,
}

/// Label-jump state while `gw` is active.
#[derive(Debug)]
pub struct JumpState {
    pub labels: Vec<JumpLabel>,
    /// `Some` once the user typed the first label char.
    pub typed_first: Option<char>,
}

/// The label of the `i`-th of `n` targets: one char while the targets
/// fit the alphabet, else first char `i % 26` (varying fastest) and
/// second char `i / 26`.
pub open spec fn spec_label(pos: Cursor, i: int, n: int) -> JumpLabel {
    if n <= 26 {
        JumpLabel { pos, first: alphabet()[i], second: None }
    } else {
        JumpLabel { pos, first: alphabet()[i % 26], second: Some(alphabet()[i / 26]) }
    }
}

/// Label every target; targets past `26 * 26` get no label.
pub fn assign_labels(targets: Vec<Cursor>) -> (r: Vec<JumpLabel>)
    ensures
        r@.len() == (if targets@.len() <= 676 { targets@.len() } else { 676 }),
        forall|i: int| 0 <= i < r@.len() ==> #[trigger] r@[i] == spec_label(targets@[i], i, targets@.len() as int),
{
    let n = targets.len();
    let max = if n <= 676 { n } else { 676 };
    let mut out: Vec<JumpLabel> = Vec::new();
    let mut i: usize = 0;
    while i < max
        invariant
            n == targets@.len(),
            max == (if n <= 676 { n } else { 676 }),
            i <= max,
            out@.len() == i,
            forall|k: int| 0 <= k < i ==> #[trigger] out@[k] == spec_label(targets@[k], k, n as int),
        decreases max - i,
    {
        let pos = targets[i];
        let label = if n <= 26 {
            JumpLabel { pos, first: alphabet_char(i), second: None }
        } else {
            JumpLabel { pos, first: alphabet_char(i % 26), second: Some(alphabet_char(i / 26)) }
        };
        out.push(label);
        i = i + 1;
    }
    out
}

/// `(row, col)` strictly before.
pub open spec fn cursor_lt(a: Cursor, b: Cursor) -> bool {
    a.row < b.row || (a.row == b.row && a.col < b.col)
}

/// A word start (`\w` char preceded by a non-word char or line start) on
/// a visible row.
pub open spec fn is_jump_target(lines: Seq<Seq<char>>, scroll: int, height: int, c: Cursor) -> bool {
    &&& scroll <= c.row
    &&& c.row < scroll + height
    &&& c.row < lines.len()
    &&& c.col < lines[c.row as int].len()
    &&& is_word_char(lines[c.row as int][c.col as int])
    &&& (c.col == 0 || !is_word_char(lines[c.row as int][c.col - 1]))
}

/// Every word start in the visible rows `scroll .. scroll + height`,
/// top-to-bottom, left-to-right.
pub fn collect_jump_targets(lines: &[String], scroll: usize, height: usize) -> (r: Vec<Cursor>)
    ensures
        forall|i: int, j: int| 0 <= i < j < r@.len() ==> cursor_lt(r@[i], r@[j]),
        forall|c: Cursor| r@.contains(c) <==> is_jump_target(
            lines@.map_values(|l: String| l@),
            scroll as int,
            height as int,
            c,
        ),
{
    let ghost ls = lines@.map_values(|l: String| l@);
    let mut out: Vec<Cursor> = Vec::new();
    if height == 0 || scroll >= lines.len() {
        proof {
            assert forall|c: Cursor| !is_jump_target(ls, scroll as int, height as int, c) by {}
        }
        return out;
    }
    let last = if height >= lines.len() - scroll { lines.len() } else { scroll + height };
    let mut row = scroll;
    while row < last
        invariant
            ls == lines@.map_values(|l: String| l@),
            scroll <= row <= last,
            last <= lines@.len(),
            last == scroll + height || last == lines@.len(),
            last <= scroll + height,
            forall|i: int, j: int| 0 <= i < j < out@.len() ==> cursor_lt(out@[i], out@[j]),
            forall|i: int| 0 <= i < out@.len() ==> out@[i].row < row,
            forall|c: Cursor| out@.contains(c) <==> (c.row < row && is_jump_target(ls, scroll as int, height as int, c)),
        decreases last - row,
    {
        let chars = str_chars(&lines[row]);
        assert(chars@ == ls[row as int]);
        let mut prev_word = false;
        let mut col: usize = 0;
        let ghost start = out@;
        while col < chars.len()
            invariant
                ls == lines@.map_values(|l: String| l@),
                scroll <= row < last,
                last <= lines@.len(),
                last <= scroll + height,
                chars@ == ls[row as int],
                col <= chars@.len(),
                prev_word == (col > 0 && is_word_char(chars@[col - 1])),
                forall|i: int, j: int| 0 <= i < j < out@.len() ==> cursor_lt(out@[i], out@[j]),
                forall|i: int| 0 <= i < out@.len() ==> cursor_lt(out@[i], Cursor { row, col }),
                forall|c: Cursor| out@.contains(c) <==> ((c.row < row || (c.row == row && c.col < col))
                    && is_jump_target(ls, scroll as int, height as int, c)),
            decreases chars@.len() - col,
        {
            let cur_word = char_is_word(chars[col]);
            let ghost before = out@;
            if cur_word && !prev_word {
                out.push(Cursor { row, col });
            }
            proof {
                let here = Cursor { row, col };
                assert forall|c: Cursor| out@.contains(c) <==> ((c.row < row || (c.row == row && c.col < col + 1))
                    && is_jump_target(ls, scroll as int, height as int, c)) by {
                    if c == here {
                        if cur_word && !prev_word {
                            assert(out@[out@.len() - 1] == c);
                        } else {
                            if out@.contains(c) {
                                let k = choose|k: int| 0 <= k < out@.len() && out@[k] == c;
                                assert(cursor_lt(out@[k], here));
                            }
                        }
                    } else {
                        if out@.contains(c) && !before.contains(c) {
                            let k = choose|k: int| 0 <= k < out@.len() && out@[k] == c;
                            if k < before.len() {
                                assert(before[k] == c);
                            }
                        }
                        if before.contains(c) {
                            let k = choose|k: int| 0 <= k < before.len() && before[k] == c;
                            assert(out@[k] == c);
                        }
                    }
                }
            }
            prev_word = cur_word;
            col = col + 1;
        }
        proof {
            assert forall|c: Cursor| out@.contains(c) <==> (c.row < row + 1 && is_jump_target(ls, scroll as int, height as int, c)) by {
                if c.row == row && c.col >= chars@.len() {
                    assert(!is_jump_target(ls, scroll as int, height as int, c));
                }
            }
        }
        row = row + 1;
    }
    proof {
        assert forall|c: Cursor| out@.contains(c) <==> is_jump_target(ls, scroll as int, height as int, c) by {
            if is_jump_target(ls, scroll as int, height as int, c) {
                assert(c.row < last);
            }
        }
    }
    out
}

/// What a key does to an active label jump.
#[derive(Debug, Clone, Copy, PartialEq, Eq, Structural)]
pub enum JumpStep {
    /// Leave the overlay without moving ("jump cancelled").
    Cancel,
    /// Leave the overlay and move the cursor here.
    Land(Cursor),
    /// The first char narrowed the labels down; wait for the second.
    Wait,
}

/// Whether `key` cancels the overlay outright: `Esc`, `Ctrl-C`, `Ctrl-G`.
pub open spec fn cancels_jump(key: KeyInput) -> bool {
    key.code == KeyCode::Esc || (key.ctrl && (key.code == KeyCode::Char('c') || key.code == KeyCode::Char('g')))
}

/// Index of the first label from `i` on satisfying `p`, or `-1`.
pub open spec fn first_label_from(labels: Seq<JumpLabel>, p: spec_fn(JumpLabel) -> bool, i: nat) -> int
    decreases labels.len() - i,
{
    if i >= labels.len() {
        -1
    } else if p(labels[i as int]) {
        i as int
    } else {
        first_label_from(labels, p, i + 1)
    }
}

/// How many labels satisfy `p`.
pub open spec fn count_labels(labels: Seq<JumpLabel>, p: spec_fn(JumpLabel) -> bool) -> nat
    decreases labels.len(),
{
    if labels.len() == 0 {
        0
    } else {
        count_labels(labels.drop_last(), p) + if p(labels.last()) { 1nat } else { 0nat }
    }
}

/// The labels whose first char is `ch`.
pub open spec fn first_is(ch: char) -> spec_fn(JumpLabel) -> bool {
    |l: JumpLabel| l.first == ch
}

/// The label typed as `first` then `ch`.
pub open spec fn typed_pair(first: char, ch: char) -> spec_fn(JumpLabel) -> bool {
    |l: JumpLabel| l.first == first && l.second == Some(ch)
}

impl JumpState {
    /// Feed one key to the overlay. Any key but a char cancels; a first
    /// char that starts no label cancels, one that starts exactly one
    /// lands there, otherwise it is kept to wait for the second char,
    /// which lands on the matching label or cancels.
    pub fn key(&mut self, key: &KeyInput) -> (r: JumpStep)
        ensures
            final(self).labels@ == old(self).labels@,
            cancels_jump(*key) ==> r == JumpStep::Cancel && final(self).typed_first == old(self).typed_first,
            !cancels_jump(*key) && !(key.code is Char) ==> r == JumpStep::Cancel && final(self).typed_first
                == old(self).typed_first,
            !cancels_jump(*key) && key.code is Char ==> ({
                let ch = key.code->Char_0;
                let ls = old(self).labels@;
                match old(self).typed_first {
                    None => {
                        let n = count_labels(ls, first_is(ch));
                        &&& n == 0 ==> r == JumpStep::Cancel && final(self).typed_first is None
                        &&& n == 1 ==> r == JumpStep::Land(ls[first_label_from(ls, first_is(ch), 0)].pos)
                            && final(self).typed_first is None
                        &&& n > 1 ==> r == JumpStep::Wait && final(self).typed_first == Some(ch)
                    },
                    Some(f) => {
                        let k = first_label_from(ls, typed_pair(f, ch), 0);
                        &&& k < 0 ==> r == JumpStep::Cancel
                        &&& k >= 0 ==> r == JumpStep::Land(ls[k].pos)
                        &&& final(self).typed_first == old(self).typed_first
                    },
                }
            }),
    {
        if key.code == KeyCode::Esc || (key.ctrl && (key.code == KeyCode::Char('c') || key.code
            == KeyCode::Char('g'))) {
            return JumpStep::Cancel;
        }
        let ch = match key.code {
            KeyCode::Char(c) => c,
            _ => {
                return JumpStep::Cancel;
            },
        };
        match self.typed_first {
            None => {
                let ghost p = first_is(ch);
                let mut count: usize = 0;
                let mut found: usize = 0;
                let mut i: usize = 0;
                while i < self.labels.len()
                    invariant
                        i <= self.labels@.len(),
                        p == first_is(ch),
                        !cancels_jump(*key),
                        key.code == KeyCode::Char(ch),
                        self.labels@ == old(self).labels@,
                        self.typed_first == old(self).typed_first,
                        old(self).typed_first is None,
                        count == count_labels(self.labels@.take(i as int), p),
                        count <= i,
                        count == 0 ==> first_label_from(self.labels@, p, 0) == first_label_from(
                            self.labels@,
                            p,
                            i as nat,
                        ),
                        count > 0 ==> found < i && first_label_from(self.labels@, p, 0) == found,
                    decreases self.labels@.len() - i,
                {
                    assert(self.labels@.take(i + 1).drop_last() =~= self.labels@.take(i as int));
                    if self.labels[i].first == ch {
                        if count == 0 {
                            found = i;
                        }
                        count = count + 1;
                    }
                    i = i + 1;
                }
                assert(self.labels@.take(self.labels@.len() as int) =~= self.labels@);
                if count == 0 {
                    JumpStep::Cancel
                } else if count == 1 {
                    JumpStep::Land(self.labels[found].pos)
                } else {
                    self.typed_first = Some(ch);
                    JumpStep::Wait
                }
            },
            Some(f) => {
                let ghost p = typed_pair(f, ch);
                let mut i: usize = 0;
                while i < self.labels.len()
                    invariant
                        i <= self.labels@.len(),
                        p == typed_pair(f, ch),
                        !cancels_jump(*key),
                        key.code == KeyCode::Char(ch),
                        self.labels@ == old(self).labels@,
                        self.typed_first == old(self).typed_first,
                        old(self).typed_first == Some(f),
                        first_label_from(self.labels@, p, 0) == first_label_from(self.labels@, p, i as nat),
                    decreases self.labels@.len() - i,
                {
                    let l = self.labels[i];
                    if l.first == f && l.second == Some(ch) {
                        return JumpStep::Land(l.pos);
                    }
                    i = i + 1;
                }
                JumpStep::Cancel
            },
        }
    }
}

/// Position of a label char in [`alphabet`] (`26` for other chars).
pub open spec fn alphabet_index(c: char) -> int {
    if c == 'a' { 0 } else if c == 's' { 1 } else if c == 'd' { 2 } else if c == 'f' { 3 } else if c == 'g' { 4 }
    else if c == 'h' { 5 } else if c == 'j' { 6 } else if c == 'k' { 7 } else if c == 'l' { 8 } else if c == 'q' { 9 }
    else if c == 'w' { 10 } else if c == 'e' { 11 } else if c == 'r' { 12 } else if c == 't' { 13 }
    else if c == 'y' { 14 } else if c == 'u' { 15 } else if c == 'i' { 16 } else if c == 'o' { 17 }
    else if c == 'p' { 18 } else if c == 'z' { 19 } else if c == 'x' { 20 } else if c == 'c' { 21 }
    else if c == 'v' { 22 } else if c == 'b' { 23 } else if c == 'n' { 24 } else if c == 'm' { 25 } else { 26 }
}

proof fn lemma_alphabet_distinct()
    ensures
        forall|a: int| 0 <= a < 26 ==> #[trigger] alphabet_index(alphabet()[a]) == a,
        forall|a: int, b: int| 0 <= a < 26 && 0 <= b < 26 && a != b ==> alphabet()[a] != alphabet()[b],
{
    let s = alphabet();
    assert(s.len() == 26);
    assert forall|a: int| 0 <= a < 26 implies #[trigger] alphabet_index(alphabet()[a]) == a by {
        assert(s[0] == 'a' && s[1] == 's' && s[2] == 'd' && s[3] == 'f' && s[4] == 'g' && s[5] == 'h');
        assert(s[6] == 'j' && s[7] == 'k' && s[8] == 'l' && s[9] == 'q' && s[10] == 'w' && s[11] == 'e');
        assert(s[12] == 'r' && s[13] == 't' && s[14] == 'y' && s[15] == 'u' && s[16] == 'i' && s[17] == 'o');
        assert(s[18] == 'p' && s[19] == 'z' && s[20] == 'x' && s[21] == 'c' && s[22] == 'v' && s[23] == 'b');
        assert(s[24] == 'n' && s[25] == 'm');
    }
    assert forall|a: int, b: int| 0 <= a < 26 && 0 <= b < 26 && a != b implies alphabet()[a] != alphabet()[b] by {
        assert(alphabet_index(alphabet()[a]) == a);
        assert(alphabet_index(alphabet()[b]) == b);
    }
}

proof fn lemma_count_none(ls: Seq<JumpLabel>, p: spec_fn(JumpLabel) -> bool)
    requires
        forall|k: int| 0 <= k < ls.len() ==> !p(#[trigger] ls[k]),
    ensures
        count_labels(ls, p) == 0,
    decreases ls.len(),
{
    if ls.len() > 0 {
        let init = ls.drop_last();
        assert forall|k: int| 0 <= k < init.len() implies !p(#[trigger] init[k]) by {
            assert(init[k] == ls[k]);
        }
        lemma_count_none(init, p);
        assert(!p(ls[ls.len() - 1]));
    }
}

proof fn lemma_count_unique(ls: Seq<JumpLabel>, p: spec_fn(JumpLabel) -> bool, i: int)
    requires
        0 <= i < ls.len(),
        p(ls[i]),
        forall|k: int| 0 <= k < ls.len() && k != i ==> !p(#[trigger] ls[k]),
    ensures
        count_labels(ls, p) == 1,
    decreases ls.len(),
{
    let init = ls.drop_last();
    if i == ls.len() - 1 {
        assert forall|k: int| 0 <= k < init.len() implies !p(#[trigger] init[k]) by {
            assert(init[k] == ls[k]);
        }
        lemma_count_none(init, p);
    } else {
        assert(init[i] == ls[i]);
        assert forall|k: int| 0 <= k < init.len() && k != i implies !p(#[trigger] init[k]) by {
            assert(init[k] == ls[k]);
        }
        lemma_count_unique(init, p, i);
        assert(!p(ls[ls.len() - 1]));
    }
}

proof fn lemma_count_two(ls: Seq<JumpLabel>, p: spec_fn(JumpLabel) -> bool, a: int, b: int)
    requires
        0 <= a < b < ls.len(),
        p(ls[a]),
        p(ls[b]),
    ensures
        count_labels(ls, p) >= 2,
    decreases ls.len(),
{
    let init = ls.drop_last();
    assert(init[a] == ls[a]);
    if b == ls.len() - 1 {
        lemma_count_pos(init, p, a);
    } else {
        assert(init[b] == ls[b]);
        lemma_count_two(init, p, a, b);
    }
}

proof fn lemma_count_pos(ls: Seq<JumpLabel>, p: spec_fn(JumpLabel) -> bool, a: int)
    requires
        0 <= a < ls.len(),
        p(ls[a]),
    ensures
        count_labels(ls, p) >= 1,
    decreases ls.len(),
{
    if a < ls.len() - 1 {
        let init = ls.drop_last();
        assert(init[a] == ls[a]);
        lemma_count_pos(init, p, a);
    }
}

proof fn lemma_first_from(ls: Seq<JumpLabel>, p: spec_fn(JumpLabel) -> bool, i: nat, a: int)
    requires
        i <= a < ls.len(),
        p(ls[a]),
    ensures
        i <= first_label_from(ls, p, i) <= a,
        p(ls[first_label_from(ls, p, i)]),
    decreases ls.len() - i,
{
    if !p(ls[i as int]) {
        lemma_first_from(ls, p, i + 1, a);
    }
}

/// Every target keeps its label reachable: typing a label's first char
/// either lands on its target at once (no other label starts with that
/// char) or waits, and then the label's second char lands on it.
pub proof fn law_label_reaches_target(targets: Seq<Cursor>, labels: Seq<JumpLabel>, i: int)
    requires
        labels.len() == (if targets.len() <= 676 { targets.len() } else { 676 }),
        forall|k: int| 0 <= k < labels.len() ==> #[trigger] labels[k] == spec_label(targets[k], k, targets.len() as int),
        0 <= i < labels.len(),
    ensures
        ({
            let l = labels[i];
            let n1 = count_labels(labels, first_is(l.first));
            &&& n1 >= 1
            &&& n1 == 1 ==> labels[first_label_from(labels, first_is(l.first), 0)].pos == targets[i]
            &&& n1 > 1 ==> l.second is Some && labels[first_label_from(
                labels,
                typed_pair(l.first, l.second->0),
                0,
            )].pos == targets[i]
        }),
{
    lemma_alphabet_distinct();
    let n = targets.len() as int;
    let l = labels[i];
    let p = first_is(l.first);
    assert(p(labels[i]));
    lemma_count_pos(labels, p, i);
    lemma_first_from(labels, p, 0, i);
    let j = first_label_from(labels, p, 0);
    if n <= 26 {
        assert forall|k: int| 0 <= k < labels.len() && k != i implies !p(#[trigger] labels[k]) by {
            assert(labels[k].first == alphabet()[k]);
        }
        lemma_count_unique(labels, p, i);
        if j != i {
            assert(!p(labels[j]));
        }
    } else {
        if count_labels(labels, p) == 1 && j != i {
            if j < i {
                lemma_count_two(labels, p, j, i);
            } else {
                lemma_count_two(labels, p, i, j);
            }
        }
        let q = typed_pair(l.first, l.second->0);
        assert(q(labels[i]));
        assert forall|k: int| 0 <= k < labels.len() && k != i implies !q(#[trigger] labels[k]) by {
            if q(labels[k]) {
                assert(alphabet()[k % 26] == alphabet()[i % 26]);
                assert(alphabet()[k / 26] == alphabet()[i / 26]);
                assert(k / 26 < 26 && i / 26 < 26);
                assert(k % 26 == i % 26);
                assert(k / 26 == i / 26);
                assert(k == 26 * (k / 26) + k % 26);
                assert(i == 26 * (i / 26) + i % 26);
            }
        }
        lemma_first_from(labels, q, 0, i);
        let jq = first_label_from(labels, q, 0);
        if jq != i {
            assert(!q(labels[jq]));
        }
    }
}

/// The stored origins the jump list shows below the current position:
/// newest first, leaving out any on the current position's line of the
/// same buffer.
pub open spec fn shown_origins(es: Seq<(RefView, Cursor)>, here: (RefView, Cursor)) -> Seq<(RefView, Cursor)>
    decreases es.len(),
{
    if es.len() == 0 {
        Seq::empty()
    } else {
        let e = es[0];
        let rest = shown_origins(es.drop_first(), here);
        if e.0 == here.0 && e.1.row == here.1.row { rest } else { rest.push(e) }
    }
}

/// The file-backed entries as (path, position); scratch entries drop out.
pub open spec fn file_positions(es: Seq<(RefView, Cursor)>) -> Seq<(Seq<char>, Cursor)>
    decreases es.len(),
{
    if es.len() == 0 {
        Seq::empty()
    } else {
        let rest = file_positions(es.drop_last());
        match es.last().0 {
            RefView::File(p) => rest.push((p, es.last().1)),
            RefView::Scratch(_) => rest,
        }
    }
}

/// What the jump-list picker lists: the current position on top, then
/// the stored origins newest first (minus those on the current line),
/// keeping only file-backed ones.
pub fn jump_list_positions(here: &JumpEntry, entries: &[JumpEntry]) -> (r: Vec<(String, Cursor)>)
    ensures
        r@.map_values(|e: (String, Cursor)| (e.0@, e.1)) == file_positions(
            seq![here@] + shown_origins(entries@.map_values(|e: JumpEntry| e@), here@),
        ),
{
    let ghost ev = entries@.map_values(|e: JumpEntry| e@);
    let mut all: Vec<JumpEntry> = Vec::new();
    all.push(here.duplicate());
    let mut k: usize = entries.len();
    assert(ev.skip(k as int) =~= Seq::<(RefView, Cursor)>::empty());
    while k > 0
        invariant
            k <= entries@.len(),
            ev == entries@.map_values(|e: JumpEntry| e@),
            all@.map_values(|e: JumpEntry| e@) == seq![here@] + shown_origins(ev.skip(k as int), here@),
        decreases k,
    {
        let e = &entries[k - 1];
        assert(ev.skip(k - 1).drop_first() =~= ev.skip(k as int));
        assert(ev.skip(k - 1)[0] == e@);
        if !(e.doc == here.doc && e.cursor.row == here.cursor.row) {
            let ghost before = all@.map_values(|x: JumpEntry| x@);
            all.push(e.duplicate());
            assert(all@.map_values(|x: JumpEntry| x@) =~= before.push(e@));
        }
        k = k - 1;
    }
    assert(ev.skip(0) =~= ev);
    let ghost lv = all@.map_values(|x: JumpEntry| x@);
    let mut out: Vec<(String, Cursor)> = Vec::new();
    let mut i: usize = 0;
    while i < all.len()
        invariant
            i <= all@.len(),
            lv == all@.map_values(|x: JumpEntry| x@),
            out@.map_values(|e: (String, Cursor)| (e.0@, e.1)) == file_positions(lv.take(i as int)),
        decreases all@.len() - i,
    {
        assert(lv.take(i + 1).drop_last() =~= lv.take(i as int));
        assert(lv.take(i + 1).last() == all@[i as int]@);
        match &all[i].doc {
            BufferRef::File(p) => {
                let ghost before = out@.map_values(|e: (String, Cursor)| (e.0@, e.1));
                out.push((p.clone(), all[i].cursor));
                assert(out@.map_values(|e: (String, Cursor)| (e.0@, e.1)) =~= before.push((p@, all@[i as int].cursor)));
            },
            BufferRef::Scratch(_) => {},
        }
        i = i + 1;
    }
    assert(lv.take(all@.len() as int) =~= lv);
    out
}

} // verus!
