//! Pure decisions of command evaluation: how `.` re-counts a change,
//! which motions are inclusive, what runs at every cursor, what touches
//! the buffer, and how already-placed cursors follow an edit.

use vstd::prelude::*;

use crate::action::{DirectKind, Expr, LastFind, Mode, MotionExpr, MotionKind, Operator};
use crate::cursor::Cursor;

verus! {

/// `N.` — an explicit count above 1 replaces the count an `Expr` carries;
/// surround commands carry none and replay unchanged.
pub open spec fn spec_override_count(expr: Expr, count: u32) -> Expr {
    if count <= 1 {
        expr
    } else {
        match expr {
            Expr::Direct { kind, .. } => Expr::Direct { kind, count },
            Expr::Motion(m) => Expr::Motion(MotionExpr { motion: m.motion, count }),
            Expr::Op { op, target, .. } => Expr::Op { op, target, outer_count: count },
            _ => expr,
        }
    }
}

/// Replace the count carried by `expr` when the user typed `N.`; a count
/// of 0 or 1 leaves the recorded change alone.
pub fn override_count(expr: Expr, count: u32) -> (r: Expr)
    ensures
        r == spec_override_count(expr, count),
{
    if count <= 1 {
        return expr;
    }
    match expr {
        Expr::Direct { kind, .. } => Expr::Direct { kind, count },
        Expr::Motion(m) => Expr::Motion(MotionExpr { motion: m.motion, count }),
        Expr::Op { op, target, .. } => Expr::Op { op, target, outer_count: count },
        e => e,
    }
}

/// Vim's inclusive motions: as operator targets they include the char
/// they land on.
pub open spec fn spec_inclusive_motion(m: MotionKind) -> bool {
    ||| m is WordEnd
    ||| m is BigWordEnd
    ||| m is WordEndBack
    ||| m is BigWordEndBack
    ||| m is FindChar
    ||| m is LineEnd
    ||| m is LineLastNonBlank
    ||| m is FileEnd
    ||| m is BracketMatch
}

pub fn is_inclusive_motion(motion: MotionKind) -> (r: bool)
    ensures
        r == spec_inclusive_motion(motion),
{
    match motion {
        MotionKind::WordEnd | MotionKind::BigWordEnd | MotionKind::WordEndBack | MotionKind::BigWordEndBack
        | MotionKind::FindChar { .. } | MotionKind::LineEnd | MotionKind::LineLastNonBlank
        | MotionKind::FileEnd | MotionKind::BracketMatch => true,
        _ => false,
    }
}

/// Expressions applied at every cursor in multi-cursor mode: all
/// operators, every motion except the search-jumping ones, and the
/// directs that edit one char or the current line.
pub open spec fn spec_should_fan_out(expr: Expr) -> bool {
    match expr {
        Expr::Op { .. } => true,
        Expr::Motion(m) => !(m.motion is SearchNext || m.motion is SearchPrev || m.motion is SearchWordForward
            || m.motion is SearchWordBack),
        Expr::Direct { kind, .. } => {
            ||| kind is DeleteCharUnderCursor
            ||| kind is ReplaceChar
            ||| kind is ToggleCase
            ||| kind is SubstituteChar
            ||| kind is SubstituteLine
            ||| kind is DeleteToEol
            ||| kind is ChangeToEol
            ||| kind is OpenLineBelow
            ||| kind is OpenLineAbove
            ||| kind is Paste
            ||| kind is JoinLines
            ||| kind is YankLine
        },
        _ => false,
    }
}

pub fn should_fan_out(expr: &Expr) -> (r: bool)
    ensures
        r == spec_should_fan_out(*expr),
{
    match expr {
        Expr::Op { .. } => true,
        Expr::Motion(m) => match m.motion {
            MotionKind::SearchNext | MotionKind::SearchPrev | MotionKind::SearchWordForward
            | MotionKind::SearchWordBack => false,
            _ => true,
        },
        Expr::Direct { kind, .. } => match kind {
            DirectKind::DeleteCharUnderCursor | DirectKind::ReplaceChar { .. } | DirectKind::ToggleCase
            | DirectKind::SubstituteChar | DirectKind::SubstituteLine | DirectKind::DeleteToEol
            | DirectKind::ChangeToEol | DirectKind::OpenLineBelow | DirectKind::OpenLineAbove
            | DirectKind::Paste | DirectKind::JoinLines | DirectKind::YankLine => true,
            _ => false,
        },
        _ => false,
    }
}

/// Expressions that change the buffer (and so take an undo snapshot and
/// are remembered for `.`).
pub open spec fn spec_modifies_buffer(expr: Expr) -> bool {
    match expr {
        Expr::Direct { kind, .. } => {
            ||| kind is OpenLineBelow
            ||| kind is OpenLineAbove
            ||| kind is Paste
            ||| kind is DeleteCharUnderCursor
            ||| kind == DirectKind::EnterMode(Mode::Insert)
            ||| kind is AppendAfterCursor
            ||| kind is AppendAtLineEnd
            ||| kind is InsertAtLineStart
            ||| kind is ChangeToEol
            ||| kind is DeleteToEol
            ||| kind is JoinLines
            ||| kind is ToggleCase
            ||| kind is SubstituteChar
            ||| kind is SubstituteLine
            ||| kind is ReplaceChar
            ||| kind is Substitute
        },
        Expr::Motion(_) => false,
        Expr::Op { op, .. } => op != Operator::Yank,
        _ => true,
    }
}

pub fn expr_modifies_buffer(expr: &Expr) -> (r: bool)
    ensures
        r == spec_modifies_buffer(*expr),
{
    match expr {
        Expr::Direct { kind, .. } => match kind {
            DirectKind::OpenLineBelow | DirectKind::OpenLineAbove | DirectKind::Paste
            | DirectKind::DeleteCharUnderCursor | DirectKind::EnterMode(Mode::Insert)
            | DirectKind::AppendAfterCursor | DirectKind::AppendAtLineEnd | DirectKind::InsertAtLineStart
            | DirectKind::ChangeToEol | DirectKind::DeleteToEol | DirectKind::JoinLines
            | DirectKind::ToggleCase | DirectKind::SubstituteChar | DirectKind::SubstituteLine
            | DirectKind::ReplaceChar { .. } | DirectKind::Substitute => true,
            _ => false,
        },
        Expr::Motion(_) => false,
        Expr::Op { op, .. } => match op {
            Operator::Yank => false,
            _ => true,
        },
        _ => true,
    }
}

/// `;` / `,` replay the remembered find (reversed for `,`), or resolve to
/// nothing when no find happened yet; a fresh `f`/`t` is remembered.
pub open spec fn spec_resolve_motion(motion: MotionKind, last_find: Option<LastFind>) -> (
    Option<MotionKind>,
    Option<LastFind>,
) {
    match motion {
        MotionKind::RepeatFind { reverse } => match last_find {
            None => (None, None),
            Some(lf) => (
                Some(MotionKind::FindChar { ch: lf.ch, forward: if reverse { !lf.forward } else { lf.forward }, till: lf.till }),
                None,
            ),
        },
        MotionKind::FindChar { ch, forward, till } => (Some(motion), Some(LastFind { ch, forward, till })),
        _ => (Some(motion), None),
    }
}

/// The motion to evaluate for `motion`, plus the update to the remembered
/// find, if any.
pub fn resolve_motion_pure(motion: MotionKind, last_find: Option<LastFind>) -> (r: (
    Option<MotionKind>,
    Option<LastFind>,
))
    ensures
        r == spec_resolve_motion(motion, last_find),
{
    match motion {
        MotionKind::RepeatFind { reverse } => {
            let lf = match last_find {
                Some(lf) => lf,
                None => return (None, None),
            };
            let forward = if reverse { !lf.forward } else { lf.forward };
            (Some(MotionKind::FindChar { ch: lf.ch, forward, till: lf.till }), None)
        },
        MotionKind::FindChar { ch, forward, till } => (Some(motion), Some(LastFind { ch, forward, till })),
        _ => (Some(motion), None),
    }
}

pub open spec fn min_nat(a: int, b: int) -> int {
    if a <= b { a } else { b }
}

/// First row where the two line-length vectors differ; when one is a
/// prefix of the other, the length of the shorter one.
pub open spec fn spec_first_diverging_row(before: Seq<usize>, after: Seq<usize>) -> int {
    let n = min_nat(before.len() as int, after.len() as int);
    if exists|i: int| 0 <= i < n && before[i] != after[i] {
        choose|i: int|
            0 <= i < n && before[i] != after[i] && forall|j: int| 0 <= j < i ==> before[j] == after[j]
    } else {
        n
    }
}

pub fn first_diverging_row(before: &[usize], after: &[usize]) -> (r: usize)
    ensures
        r <= before@.len(),
        r <= after@.len(),
        forall|j: int| 0 <= j < r ==> before@[j] == after@[j],
        r < before@.len() && r < after@.len() ==> before@[r as int] != after@[r as int],
        r == spec_first_diverging_row(before@, after@),
{
    let n = if before.len() < after.len() { before.len() } else { after.len() };
    let mut i: usize = 0;
    while i < n
        invariant
            n == min_nat(before@.len() as int, after@.len() as int),
            i <= n,
            forall|j: int| 0 <= j < i ==> before@[j] == after@[j],
        decreases n - i,
    {
        if before[i] != after[i] {
            proof {
                let w = choose|k: int|
                    0 <= k < n && before@[k] != after@[k] && forall|j: int| 0 <= j < k ==> before@[j] == after@[j];
                assert(0 <= i < n && before@[i as int] != after@[i as int] && forall|j: int|
                    0 <= j < i ==> before@[j] == after@[j]);
                if w < i {
                } else if w > i {
                    assert(before@[i as int] == after@[i as int]);
                }
            }
            return i;
        }
        i = i + 1;
    }
    n
}

/// Values small enough for the signed per-row arithmetic below (a
/// quarter of the address space, within `i64` on every target).
pub open spec fn fits_delta(x: int) -> bool {
    0 <= x <= usize::MAX / 4
}

/// One shift of an already-processed cursor for an edit that turned line
/// lengths `before` into `after`, the edit having started at `origin`:
///
/// - same row count: a cursor at or right of `origin.col` on a row whose
///   length changed shifts by that row's length delta (never left of
///   `origin.col`);
/// - row count changed: a cursor strictly below the first diverging row
///   shifts by the row-count delta (never above row 0).
pub open spec fn spec_shift_once(p: Cursor, before: Seq<usize>, after: Seq<usize>, origin: Cursor) -> Cursor {
    if before.len() == after.len() {
        if p.row < before.len() && before[p.row as int] != after[p.row as int] && p.col >= origin.col {
            let nc = p.col + after[p.row as int] - before[p.row as int];
            Cursor { row: p.row, col: if nc < origin.col { origin.col } else { nc as usize } }
        } else {
            p
        }
    } else {
        if p.row > spec_first_diverging_row(before, after) {
            let nr = p.row + after.len() - before.len();
            Cursor { row: if nr < 0 { 0 } else { nr as usize }, col: p.col }
        } else {
            p
        }
    }
}

/// `n` shifts in a row.
pub open spec fn spec_shift_n(p: Cursor, before: Seq<usize>, after: Seq<usize>, origin: Cursor, n: nat) -> Cursor
    decreases n,
{
    if n == 0 {
        p
    } else {
        spec_shift_once(spec_shift_n(p, before, after, origin, (n - 1) as nat), before, after, origin)
    }
}

/// A position clamped into a buffer whose line lengths are `after`: the
/// row to the last line, the column to that line's length.
pub open spec fn spec_clamp(p: Cursor, after: Seq<usize>) -> Cursor {
    let last_row: int = if after.len() == 0 { 0 } else { after.len() - 1 };
    let row = if p.row > last_row { last_row as usize } else { p.row };
    let line_len: int = if row < after.len() { after[row as int] as int } else { 0 };
    Cursor { row, col: if p.col > line_len { line_len as usize } else { p.col } }
}

/// Where one already-processed cursor ends up: shifted once, then clamped
/// into the new buffer.
pub open spec fn spec_adjust_one(p: Cursor, before: Seq<usize>, after: Seq<usize>, origin: Cursor) -> Cursor {
    spec_clamp(spec_shift_once(p, before, after, origin), after)
}

/// How many entries of `already` name cursor `j`.
pub open spec fn occurrences(already: Seq<(usize, Cursor)>, j: int) -> nat
    decreases already.len(),
{
    if already.len() == 0 {
        0
    } else {
        occurrences(already.drop_last(), j) + if already.last().0 == j { 1nat } else { 0nat }
    }
}

/// Where cursor `p`, named `n` times in the list of processed cursors,
/// ends up: shifted once per mention, then clamped (untouched when not
/// named).
pub open spec fn spec_adjusted(p: Cursor, before: Seq<usize>, after: Seq<usize>, origin: Cursor, n: nat) -> Cursor {
    if n == 0 { p } else { spec_clamp(spec_shift_n(p, before, after, origin, n), after) }
}

#[verifier::rlimit(40)]
fn shift_one(p: Cursor, before: &[usize], after: &[usize], origin: Cursor, edit_row: usize) -> (r: Cursor)
    requires
        edit_row == spec_first_diverging_row(before@, after@),
        fits_delta(p.row as int),
        fits_delta(p.col as int),
        fits_delta(origin.col as int),
        fits_delta(before@.len() as int),
        fits_delta(after@.len() as int),
        forall|i: int| 0 <= i < before@.len() ==> fits_delta(before@[i] as int),
        forall|i: int| 0 <= i < after@.len() ==> fits_delta(after@[i] as int),
    ensures
        r == spec_shift_once(p, before@, after@, origin),
{
    let mut q = p;
    if before.len() == after.len() {
        if p.row < before.len() && before[p.row] != after[p.row] && p.col >= origin.col {
            let b = before[p.row];
            let a = after[p.row];
            let nc: usize = if a >= b {
                p.col + (a - b)
            } else if p.col >= b - a {
                p.col - (b - a)
            } else {
                0
            };
            let below = if a >= b { false } else { p.col < (b - a) || p.col - (b - a) < origin.col };
            q = Cursor { row: p.row, col: if below { origin.col } else { nc } };
        }
    } else if p.row > edit_row {
        let nr: usize = if after.len() >= before.len() {
            p.row + (after.len() - before.len())
        } else if p.row >= before.len() - after.len() {
            p.row - (before.len() - after.len())
        } else {
            0
        };
        q = Cursor { row: nr, col: p.col };
    }
    q
}

fn clamp_one(p: Cursor, after: &[usize]) -> (r: Cursor)
    ensures
        r == spec_clamp(p, after@),
{
    let last_row: usize = if after.len() == 0 { 0 } else { after.len() - 1 };
    let row = if p.row > last_row { last_row } else { p.row };
    let line_len: usize = if row < after.len() { after[row] } else { 0 };
    Cursor { row, col: if p.col > line_len { line_len } else { p.col } }
}

proof fn lemma_occurrences_push(s: Seq<(usize, Cursor)>, x: (usize, Cursor), j: int)
    ensures
        occurrences(s.push(x), j) == occurrences(s, j) + if x.0 == j { 1nat } else { 0nat },
{
    assert(s.push(x).drop_last() =~= s);
}

proof fn lemma_occurrences_bound(s: Seq<(usize, Cursor)>, j: int)
    ensures
        occurrences(s, j) <= s.len(),
        occurrences(s, j) > 0 ==> exists|k: int| 0 <= k < s.len() && s[k].0 == j,
    decreases s.len(),
{
    if s.len() > 0 {
        lemma_occurrences_bound(s.drop_last(), j);
        if occurrences(s.drop_last(), j) > 0 {
            let k = choose|k: int| 0 <= k < s.drop_last().len() && s.drop_last()[k].0 == j;
            assert(s[k] == s.drop_last()[k]);
        }
        if s.last().0 == j {
            assert(s[s.len() - 1].0 == j);
        }
    }
}

proof fn lemma_occurrences_prefix(s: Seq<(usize, Cursor)>, i: int, j: int)
    requires
        0 <= i <= s.len(),
    ensures
        occurrences(s.take(i), j) <= occurrences(s, j),
    decreases s.len() - i,
{
    if i < s.len() {
        lemma_occurrences_prefix(s, i + 1, j);
        assert(s.take(i + 1).drop_last() =~= s.take(i));
    } else {
        assert(s.take(i) =~= s);
    }
}

proof fn lemma_clamp_idempotent(p: Cursor, after: Seq<usize>)
    ensures
        spec_clamp(spec_clamp(p, after), after) == spec_clamp(p, after),
{
}

/// Apply the buffer diff between `before` and `after` (per-row char
/// counts) to the cursors in `new_positions` named by `already`: each
/// named cursor is shifted once per mention, then clamped into the new
/// buffer; every other entry stays as it was (see [`spec_adjusted`]).
/// Every shift along the way stays within [`fits_delta`].
pub fn adjust_already_processed(
    new_positions: &mut Vec<Cursor>,
    already: &[(usize, Cursor)],
    before: &[usize],
    after: &[usize],
    edit_origin: Cursor,
)
    requires
        forall|k: int| 0 <= k < already@.len() ==> already@[k].0 < old(new_positions)@.len(),
        forall|j: int, n: nat|
            0 <= j < old(new_positions)@.len() && n <= occurrences(already@, j) ==> fits_delta(
                (#[trigger] spec_shift_n(old(new_positions)@[j], before@, after@, edit_origin, n)).row as int,
            ) && fits_delta(spec_shift_n(old(new_positions)@[j], before@, after@, edit_origin, n).col as int),
        fits_delta(edit_origin.col as int),
        fits_delta(before@.len() as int),
        fits_delta(after@.len() as int),
        forall|i: int| 0 <= i < before@.len() ==> fits_delta(before@[i] as int),
        forall|i: int| 0 <= i < after@.len() ==> fits_delta(after@[i] as int),
    ensures
        final(new_positions)@.len() == old(new_positions)@.len(),
        forall|j: int| 0 <= j < old(new_positions)@.len() ==> #[trigger] final(new_positions)@[j] == spec_adjusted(
            old(new_positions)@[j],
            before@,
            after@,
            edit_origin,
            occurrences(already@, j),
        ),
{
    let edit_row = first_diverging_row(before, after);
    let ghost orig = new_positions@;
    // One shift per mention.
    let mut k: usize = 0;
    while k < already.len()
        invariant
            k <= already@.len(),
            edit_row == spec_first_diverging_row(before@, after@),
            new_positions@.len() == orig.len(),
            forall|m: int| 0 <= m < already@.len() ==> already@[m].0 < orig.len(),
            forall|j: int, n: nat|
                0 <= j < orig.len() && n <= occurrences(already@, j) ==> fits_delta(
                    (#[trigger] spec_shift_n(orig[j], before@, after@, edit_origin, n)).row as int,
                ) && fits_delta(spec_shift_n(orig[j], before@, after@, edit_origin, n).col as int),
            fits_delta(edit_origin.col as int),
            fits_delta(before@.len() as int),
            fits_delta(after@.len() as int),
            forall|i: int| 0 <= i < before@.len() ==> fits_delta(before@[i] as int),
            forall|i: int| 0 <= i < after@.len() ==> fits_delta(after@[i] as int),
            forall|j: int| 0 <= j < orig.len() ==> #[trigger] new_positions@[j] == spec_shift_n(
                orig[j],
                before@,
                after@,
                edit_origin,
                occurrences(already@.take(k as int), j),
            ),
        decreases already@.len() - k,
    {
        let j = already[k].0;
        let ghost t = already@.take(k as int);
        proof {
            assert(already@.take(k + 1) =~= t.push(already@[k as int]));
            lemma_occurrences_push(t, already@[k as int], j as int);
            lemma_occurrences_prefix(already@, k + 1, j as int);
            assert(occurrences(already@.take(k + 1), j as int) == occurrences(t, j as int) + 1);
            let n0 = occurrences(t, j as int);
            assert(fits_delta(spec_shift_n(orig[j as int], before@, after@, edit_origin, n0).row as int));
        }
        let p = new_positions[j];
        let q = shift_one(p, before, after, edit_origin, edit_row);
        new_positions.set(j, q);
        proof {
            assert forall|jj: int| 0 <= jj < orig.len() implies #[trigger] new_positions@[jj] == spec_shift_n(
                orig[jj],
                before@,
                after@,
                edit_origin,
                occurrences(already@.take(k + 1), jj),
            ) by {
                assert(already@.take(k + 1) =~= t.push(already@[k as int]));
                lemma_occurrences_push(t, already@[k as int], jj);
            }
        }
        k = k + 1;
    }
    assert(already@.take(already@.len() as int) =~= already@);
    let ghost shifted = new_positions@;
    // Then clamp every named cursor (clamping twice changes nothing).
    let mut c: usize = 0;
    while c < already.len()
        invariant
            c <= already@.len(),
            new_positions@.len() == orig.len(),
            shifted.len() == orig.len(),
            forall|m: int| 0 <= m < already@.len() ==> already@[m].0 < orig.len(),
            forall|j: int| 0 <= j < orig.len() ==> #[trigger] shifted[j] == spec_shift_n(
                orig[j],
                before@,
                after@,
                edit_origin,
                occurrences(already@, j),
            ),
            forall|j: int| 0 <= j < orig.len() ==> #[trigger] new_positions@[j] == if occurrences(
                already@.take(c as int),
                j,
            ) > 0 {
                spec_clamp(shifted[j], after@)
            } else {
                shifted[j]
            },
        decreases already@.len() - c,
    {
        let j = already[c].0;
        let ghost t = already@.take(c as int);
        let p = new_positions[j];
        let q = clamp_one(p, after);
        new_positions.set(j, q);
        proof {
            lemma_clamp_idempotent(shifted[j as int], after@);
            assert forall|jj: int| 0 <= jj < orig.len() implies #[trigger] new_positions@[jj] == if occurrences(
                already@.take(c + 1),
                jj,
            ) > 0 {
                spec_clamp(shifted[jj], after@)
            } else {
                shifted[jj]
            } by {
                assert(already@.take(c + 1) =~= t.push(already@[c as int]));
                lemma_occurrences_push(t, already@[c as int], jj);
            }
        }
        c = c + 1;
    }
    assert(already@.take(already@.len() as int) =~= already@);
}

/// When every processed cursor is named once (as the fan-out names
/// them), each ends up exactly where [`spec_adjust_one`] puts it.
pub proof fn law_adjust_named_once(p: Cursor, before: Seq<usize>, after: Seq<usize>, origin: Cursor)
    ensures
        spec_adjusted(p, before, after, origin, 1) == spec_adjust_one(p, before, after, origin),
{
    assert(spec_shift_n(p, before, after, origin, 1) == spec_shift_once(
        spec_shift_n(p, before, after, origin, 0),
        before,
        after,
        origin,
    ));
}

/// Law: an edit that keeps the row count moves an already-processed
/// cursor on its row by that row's length change, growing or shrinking,
/// when the cursor sits at or right of the edit column; it never moves
/// it left of the edit column, leaves cursors left of the edit column
/// where they are, and finally keeps the column within the new line.
pub proof fn law_same_row_count_edit_shifts_by_row_delta(
    p: Cursor,
    before: Seq<usize>,
    after: Seq<usize>,
    origin: Cursor,
)
    requires
        before.len() == after.len(),
        p.row < before.len(),
        p.col + after[p.row as int] - before[p.row as int] <= usize::MAX,
    ensures
        ({
            let b = before[p.row as int] as int;
            let a = after[p.row as int] as int;
            let moved: int = if p.col >= origin.col {
                if p.col + a - b < origin.col { origin.col as int } else { p.col + a - b }
            } else {
                p.col as int
            };
            spec_adjusted(p, before, after, origin, 1) == Cursor {
                row: p.row,
                col: (if moved > a { a } else { moved }) as usize,
            }
        }),
{
    law_adjust_named_once(p, before, after, origin);
    let q = spec_shift_once(p, before, after, origin);
    let b = before[p.row as int] as int;
    let a = after[p.row as int] as int;
    let moved: int = if p.col >= origin.col {
        if p.col + a - b < origin.col { origin.col as int } else { p.col + a - b }
    } else {
        p.col as int
    };
    assert(q.row == p.row);
    assert(q.col == moved);
    let last_row: int = after.len() - 1;
    assert(p.row <= last_row);
}

/// Law: as operator targets, the motions that land on a char they cover
/// are inclusive: every find-char motion (`f`/`F`/`t`/`T`, any char,
/// either direction), the word-end motions (`e`, `E`, `ge`, `gE`), `$`,
/// `g_`, `G` and `%`; the others (`h`, `l`, `j`, `k`, `w`, `b`, `W`, `B`,
/// `0`, `^`, `gg`, `{`, `}`, ...) are exclusive.
pub proof fn law_inclusive_motions(m: MotionKind)
    ensures
        m is FindChar ==> spec_inclusive_motion(m),
        m is WordEnd || m is BigWordEnd || m is WordEndBack || m is BigWordEndBack ==> spec_inclusive_motion(m),
        m is LineEnd || m is LineLastNonBlank || m is FileEnd || m is BracketMatch ==> spec_inclusive_motion(m),
        m is Left || m is Right || m is Up || m is Down || m is WordForward || m is WordBack || m is BigWordForward
            || m is BigWordBack || m is LineStart || m is LineFirstNonBlank || m is FileStart || m is ParagraphBack
            || m is ParagraphForward || m is SearchNext || m is SearchPrev ==> !spec_inclusive_motion(m),
{
}

} // verus!
