//! What a Normal-mode motion, an operator, and a Visual-mode operator do,
//! as plans the editor carries out on its buffer: the count rules, which
//! edit each operator makes over which range, and where the cursor goes.

use vstd::prelude::*;

use crate::action::{LastFind, MotionExpr, MotionKind, Object, Operator, Scope, Target};
use crate::cursor::{Cursor, cursor_le, order};
use crate::eval::{is_inclusive_motion, resolve_motion_pure, spec_inclusive_motion, spec_resolve_motion};
use crate::operator::{comment_target_rows, line_block_comment_range_spec, linewise_shift_rows, rows_between, spec_comment_rows};
use crate::visual::Selection;

verus! {

// ────────────────────────────────────────────────────────────────────────
// Motions
// ────────────────────────────────────────────────────────────────────────

/// What a Normal-mode motion does.
#[derive(Debug, Clone, Copy, PartialEq, Eq, Structural)]
pub enum MotionPlan {
    /// `;` / `,` with no find to repeat: report "no previous find".
    NoPreviousFind,
    /// Take the single-step move `times` times (`h`, `l`, `j`, `k`, `w`,
    /// `b`, `{`, `}`).
    Repeat { motion: MotionKind, times: u32 },
    /// Move once (`0`, `$`).
    Once(MotionKind),
    /// Move to the buffer's target for the motion with this count.
    Target { motion: MotionKind, count: u32 },
    /// `<n>gg` / `<n>G` with a typed count (1 included): go to line `n`.
    GotoLine(u32),
    /// Bare `gg` (count 0, no count typed): the first line.
    FileStart,
    /// Bare `G` (count 0, no count typed): the last line.
    FileEnd,
    /// `*` / `#`: search the word under the cursor and jump.
    WordSearch { forward: bool },
    /// `n` / `N`: jump to the next match `times` times.
    JumpSearch { reverse: bool, times: u32 },
}

/// The plan for the resolved motion `m` with count `n`.
pub open spec fn spec_motion_plan(m: Option<MotionKind>, n: u32) -> MotionPlan {
    match m {
        None => MotionPlan::NoPreviousFind,
        Some(k) => match k {
            MotionKind::Left | MotionKind::Right | MotionKind::Up | MotionKind::Down | MotionKind::WordForward
            | MotionKind::WordBack | MotionKind::ParagraphForward | MotionKind::ParagraphBack => MotionPlan::Repeat {
                motion: k,
                times: n,
            },
            MotionKind::LineStart | MotionKind::LineEnd => MotionPlan::Once(k),
            MotionKind::SearchWordForward => MotionPlan::WordSearch { forward: true },
            MotionKind::SearchWordBack => MotionPlan::WordSearch { forward: false },
            MotionKind::FileStart => if n >= 1 { MotionPlan::GotoLine(n) } else { MotionPlan::FileStart },
            MotionKind::FileEnd => if n >= 1 { MotionPlan::GotoLine(n) } else { MotionPlan::FileEnd },
            MotionKind::SearchNext => MotionPlan::JumpSearch { reverse: false, times: n },
            MotionKind::SearchPrev => MotionPlan::JumpSearch { reverse: true, times: n },
            // A repeat-find is resolved before this point; an unresolved
            // one can only be the "no previous find" case above.
            MotionKind::RepeatFind { .. } => MotionPlan::Target { motion: k, count: n },
            _ => MotionPlan::Target { motion: k, count: n },
        },
    }
}

/// Plan a Normal-mode motion: the update to the remembered find (for
/// `f`/`t`-style motions) and what the motion does.
pub fn plan_motion(m: MotionExpr, last_find: Option<LastFind>) -> (r: (Option<LastFind>, MotionPlan))
    ensures
        r.0 == spec_resolve_motion(m.motion, last_find).1,
        r.1 == spec_motion_plan(spec_resolve_motion(m.motion, last_find).0, m.count),
{
    let (resolved, update) = resolve_motion_pure(m.motion, last_find);
    let n = m.count;
    let plan = match resolved {
        None => MotionPlan::NoPreviousFind,
        Some(k) => match k {
            MotionKind::Left | MotionKind::Right | MotionKind::Up | MotionKind::Down | MotionKind::WordForward
            | MotionKind::WordBack | MotionKind::ParagraphForward | MotionKind::ParagraphBack => MotionPlan::Repeat {
                motion: k,
                times: n,
            },
            MotionKind::LineStart | MotionKind::LineEnd => MotionPlan::Once(k),
            MotionKind::SearchWordForward => MotionPlan::WordSearch { forward: true },
            MotionKind::SearchWordBack => MotionPlan::WordSearch { forward: false },
            MotionKind::FileStart => if n >= 1 { MotionPlan::GotoLine(n) } else { MotionPlan::FileStart },
            MotionKind::FileEnd => if n >= 1 { MotionPlan::GotoLine(n) } else { MotionPlan::FileEnd },
            MotionKind::SearchNext => MotionPlan::JumpSearch { reverse: false, times: n },
            MotionKind::SearchPrev => MotionPlan::JumpSearch { reverse: true, times: n },
            MotionKind::RepeatFind { .. } => MotionPlan::Target { motion: k, count: n },
            _ => MotionPlan::Target { motion: k, count: n },
        },
    };
    (update, plan)
}

// ────────────────────────────────────────────────────────────────────────
// Operators in Normal mode
// ────────────────────────────────────────────────────────────────────────

/// What an operator with a target does in Normal mode.
#[derive(Debug, Clone, PartialEq, Eq)]
pub enum OpPlan {
    /// The motion was `;` / `,` with no find to repeat.
    NoPreviousFind,
    /// `>>` / `<<`: shift rows `lo..=hi` once, then put the cursor on the
    /// first non-blank of row `lo`.
    ShiftLines { right: bool, lo: usize, hi: usize },
    /// `gcc` / `gbc`: toggle comments on these rows.
    CommentLines { block: bool, rows: Vec<usize> },
    /// `dd`, `times` times.
    DeleteLines { times: u32 },
    /// `yy`, `times` times (each sends the yank to the clipboard and says
    /// "yanked").
    YankLines { times: u32 },
    /// `cc`: not supported; says so `times` times.
    ChangeLinesUnsupported { times: u32 },
    /// Over the range from the cursor to the motion's target (one past it
    /// for an inclusive motion), `times` times.
    OverMotion { motion: MotionKind, count: u32, inclusive: bool, times: u32 },
    /// Over successive search matches in this direction, `times` times.
    OverSearchMatch { forward: bool, times: u32 },
    /// Over a text object, `times` times.
    OverObject { scope: Scope, object: Object, times: u32 },
}

/// Plan `op` over `target` with the outer count, from the cursor, with
/// `extras` the extra cursors and `line_count` the buffer's lines.
/// Returns the update to the remembered find, if any, and the plan.
pub fn plan_op(
    op: Operator,
    target: Target,
    outer_count: u32,
    last_find: Option<LastFind>,
    last_search_forward: bool,
    cursor: Cursor,
    line_count: usize,
    extras: &[Cursor],
) -> (r: (Option<LastFind>, OpPlan))
    ensures
        match target {
            Target::LineWise => r.0 is None && match op {
                Operator::Indent | Operator::Dedent => ({
                    let (lo, hi) = (cursor.row, ({
                        let span: int = if outer_count == 0 { 0 } else { outer_count - 1 };
                        let last: int = if line_count == 0 { 0 } else { line_count - 1 };
                        if cursor.row + span <= last { cursor.row + span } else { last }
                    }));
                    r.1 == OpPlan::ShiftLines { right: op == Operator::Indent, lo, hi: hi as usize }
                }),
                Operator::Comment | Operator::BlockComment => r.1 matches OpPlan::CommentLines { block, rows }
                    && block == (op == Operator::BlockComment) && rows@ == spec_comment_rows(
                    cursor.row as nat,
                    line_count as nat,
                    outer_count as nat,
                    extras@,
                ),
                Operator::Delete => r.1 == OpPlan::DeleteLines { times: outer_count },
                Operator::Yank => r.1 == OpPlan::YankLines { times: outer_count },
                Operator::Change => r.1 == OpPlan::ChangeLinesUnsupported { times: outer_count },
            },
            Target::Motion(m) => {
                let (resolved, update) = spec_resolve_motion(m.motion, last_find);
                &&& r.0 == update
                &&& match resolved {
                    None => r.1 == OpPlan::NoPreviousFind,
                    Some(k) => r.1 == OpPlan::OverMotion {
                        motion: k,
                        count: m.count,
                        inclusive: spec_inclusive_motion(k),
                        times: outer_count,
                    },
                }
            },
            Target::SearchMatch { reverse } => r.0 is None && r.1 == OpPlan::OverSearchMatch {
                forward: last_search_forward != reverse,
                times: outer_count,
            },
            Target::TextObject { scope, object } => r.0 is None && r.1 == OpPlan::OverObject {
                scope,
                object,
                times: outer_count,
            },
        },
{
    match target {
        Target::LineWise => {
            let plan = match op {
                Operator::Indent | Operator::Dedent => {
                    let (lo, hi) = linewise_shift_rows(cursor.row, line_count, outer_count);
                    let right = match op {
                        Operator::Indent => true,
                        _ => false,
                    };
                    OpPlan::ShiftLines { right, lo, hi }
                },
                Operator::Comment | Operator::BlockComment => {
                    let block = match op {
                        Operator::BlockComment => true,
                        _ => false,
                    };
                    OpPlan::CommentLines {
                        block,
                        rows: comment_target_rows(cursor.row, line_count, outer_count, extras),
                    }
                },
                Operator::Delete => OpPlan::DeleteLines { times: outer_count },
                Operator::Yank => OpPlan::YankLines { times: outer_count },
                Operator::Change => OpPlan::ChangeLinesUnsupported { times: outer_count },
            };
            (None, plan)
        },
        Target::Motion(m) => {
            let (resolved, update) = resolve_motion_pure(m.motion, last_find);
            match resolved {
                None => (update, OpPlan::NoPreviousFind),
                Some(k) => (
                    update,
                    OpPlan::OverMotion { motion: k, count: m.count, inclusive: is_inclusive_motion(k), times: outer_count },
                ),
            }
        },
        Target::SearchMatch { reverse } => (
            None,
            OpPlan::OverSearchMatch { forward: last_search_forward != reverse, times: outer_count },
        ),
        Target::TextObject { scope, object } => (None, OpPlan::OverObject { scope, object, times: outer_count }),
    }
}

/// What an operator does over the range `[start, end)` (a motion's,
/// a search match's or a text object's).
#[derive(Debug, Clone, PartialEq, Eq)]
pub enum RangeEffect {
    /// `d`: delete the range.
    Delete { start: Cursor, end: Cursor },
    /// `y`: yank the range, send it to the clipboard, say "yanked".
    Yank { start: Cursor, end: Cursor },
    /// `c`: delete the range and enter Insert mode.
    Change { start: Cursor, end: Cursor },
    /// `>` / `<`: shift every row from `lo` to `hi` once, then put the
    /// cursor on row `lo`'s first non-blank.
    Shift { right: bool, lo: usize, hi: usize },
    /// `gc`: toggle line comments on these rows.
    Comment { rows: Vec<usize> },
    /// `gb`: toggle a block comment over `lo..hi` on these rows.
    BlockComment { rows: Vec<usize>, lo: Cursor, hi: Cursor },
}

/// The rows from `lo` to `hi`, both included.
pub open spec fn row_span(lo: usize, hi: usize) -> Seq<usize> {
    Seq::new(if lo <= hi { (hi - lo + 1) as nat } else { 0 }, |i: int| (lo + i) as usize)
}

/// The effect of `op` over `[start, end)`.
pub fn range_effect(op: Operator, start: Cursor, end: Cursor) -> (r: RangeEffect)
    ensures
        ({
            let (lo, hi) = if cursor_le(start, end) { (start, end) } else { (end, start) };
            match op {
                Operator::Delete => r == RangeEffect::Delete { start, end },
                Operator::Yank => r == RangeEffect::Yank { start, end },
                Operator::Change => r == RangeEffect::Change { start, end },
                Operator::Indent | Operator::Dedent => r == RangeEffect::Shift {
                    right: op == Operator::Indent,
                    lo: lo.row,
                    hi: hi.row,
                },
                Operator::Comment => r matches RangeEffect::Comment { rows } && rows@ == row_span(lo.row, hi.row),
                Operator::BlockComment => r matches RangeEffect::BlockComment { rows, lo: a, hi: b } && rows@
                    == row_span(lo.row, hi.row) && a == lo && b == hi,
            }
        }),
{
    match op {
        Operator::Delete => RangeEffect::Delete { start, end },
        Operator::Yank => RangeEffect::Yank { start, end },
        Operator::Change => RangeEffect::Change { start, end },
        Operator::Indent | Operator::Dedent => {
            let (lo, hi) = order(start, end);
            let right = match op {
                Operator::Indent => true,
                _ => false,
            };
            RangeEffect::Shift { right, lo: lo.row, hi: hi.row }
        },
        Operator::Comment => {
            let (lo, hi) = order(start, end);
            RangeEffect::Comment { rows: rows_between(lo.row, hi.row) }
        },
        Operator::BlockComment => {
            let (lo, hi) = order(start, end);
            RangeEffect::BlockComment { rows: rows_between(lo.row, hi.row), lo, hi }
        },
    }
}

// ────────────────────────────────────────────────────────────────────────
// Operators in Visual mode
// ────────────────────────────────────────────────────────────────────────

/// What `y` / `d` / `c` / `gc` / `gb` do to a Visual selection.
#[derive(Debug, Clone, Copy, PartialEq, Eq, Structural)]
pub enum VisualOpPlan {
    /// Yank `[start, end)`, send it to the clipboard, say "yanked", and
    /// put the cursor at `cursor`.
    YankRange { start: Cursor, end: Cursor, cursor: Cursor },
    DeleteRange { start: Cursor, end: Cursor },
    /// Delete `[start, end)` and enter Insert mode.
    ChangeRange { start: Cursor, end: Cursor },
    /// Yank rows `from..=to` (as the selection has them), then the cursor.
    YankLines { from_row: usize, to_row: usize, cursor: Cursor },
    DeleteLines { from_row: usize, to_row: usize },
    /// Delete the rows and enter Insert mode.
    ChangeLines { from_row: usize, to_row: usize },
    /// Yank the block, then the cursor.
    YankBlock { r0: usize, c0: usize, r1: usize, c1: usize, cursor: Cursor },
    DeleteBlock { r0: usize, c0: usize, r1: usize, c1: usize },
    /// Drop the extra cursors, delete the block, then fan out one cursor
    /// per row (see `visual::insert_at_start_cursors` on the result) and
    /// enter Insert mode.
    ChangeBlock { r0: usize, c0: usize, r1: usize, c1: usize },
    /// Toggle line comments on the rows between `a` and `b`.
    LineComment { a: usize, b: usize },
    /// Toggle a block comment over `lo..hi`, spanning rows `a` and `b`.
    BlockComment { lo: Cursor, hi: Cursor, a: usize, b: usize },
}

/// The plan for `op` (not `>` / `<`, which shift the selection instead)
/// over `sel`; `char_end` is one char past a char-wise selection's end
/// (as the buffer advances it).
pub open spec fn spec_visual_op_plan(sel: Selection, op: Operator, char_end: Cursor, lines: Seq<String>) -> VisualOpPlan {
    match sel {
        Selection::Char { from, to } => match op {
            Operator::Yank => VisualOpPlan::YankRange { start: from, end: char_end, cursor: from },
            Operator::Delete => VisualOpPlan::DeleteRange { start: from, end: char_end },
            Operator::Change => VisualOpPlan::ChangeRange { start: from, end: char_end },
            Operator::Comment => VisualOpPlan::LineComment { a: from.row, b: char_end.row },
            _ => VisualOpPlan::BlockComment { lo: from, hi: char_end, a: from.row, b: char_end.row },
        },
        Selection::Line { from_row, to_row } => match op {
            Operator::Yank => VisualOpPlan::YankLines { from_row, to_row, cursor: Cursor { row: from_row, col: 0 } },
            Operator::Delete => VisualOpPlan::DeleteLines { from_row, to_row },
            Operator::Change => VisualOpPlan::ChangeLines { from_row, to_row },
            Operator::Comment => VisualOpPlan::LineComment { a: from_row, b: to_row },
            _ => {
                let (lo, hi) = line_block_comment_range_spec(from_row, to_row, lines);
                VisualOpPlan::BlockComment { lo, hi, a: lo.row, b: hi.row }
            },
        },
        Selection::Block { r0, c0, r1, c1 } => match op {
            Operator::Yank => VisualOpPlan::YankBlock { r0, c0, r1, c1, cursor: Cursor { row: r0, col: c0 } },
            Operator::Delete => VisualOpPlan::DeleteBlock { r0, c0, r1, c1 },
            Operator::Change => VisualOpPlan::ChangeBlock { r0, c0, r1, c1 },
            _ => VisualOpPlan::LineComment { a: r0, b: r1 },
        },
    }
}

/// Plan a Visual-mode operator; see [`spec_visual_op_plan`].
pub fn plan_visual_op(sel: Selection, op: Operator, char_end: Cursor, lines: &[String]) -> (r: VisualOpPlan)
    requires
        op != Operator::Indent && op != Operator::Dedent,
        sel matches Selection::Line { from_row, to_row } ==> from_row < lines@.len() && to_row < lines@.len(),
    ensures
        r == spec_visual_op_plan(sel, op, char_end, lines@),
{
    match sel {
        Selection::Char { from, .. } => match op {
            Operator::Yank => VisualOpPlan::YankRange { start: from, end: char_end, cursor: from },
            Operator::Delete => VisualOpPlan::DeleteRange { start: from, end: char_end },
            Operator::Change => VisualOpPlan::ChangeRange { start: from, end: char_end },
            Operator::Comment => VisualOpPlan::LineComment { a: from.row, b: char_end.row },
            _ => VisualOpPlan::BlockComment { lo: from, hi: char_end, a: from.row, b: char_end.row },
        },
        Selection::Line { from_row, to_row } => match op {
            Operator::Yank => VisualOpPlan::YankLines { from_row, to_row, cursor: Cursor { row: from_row, col: 0 } },
            Operator::Delete => VisualOpPlan::DeleteLines { from_row, to_row },
            Operator::Change => VisualOpPlan::ChangeLines { from_row, to_row },
            Operator::Comment => VisualOpPlan::LineComment { a: from_row, b: to_row },
            _ => {
                let (lo, hi) = crate::operator::line_block_comment_range(from_row, to_row, lines);
                VisualOpPlan::BlockComment { lo, hi, a: lo.row, b: hi.row }
            },
        },
        Selection::Block { r0, c0, r1, c1 } => match op {
            Operator::Yank => VisualOpPlan::YankBlock { r0, c0, r1, c1, cursor: Cursor { row: r0, col: c0 } },
            Operator::Delete => VisualOpPlan::DeleteBlock { r0, c0, r1, c1 },
            Operator::Change => VisualOpPlan::ChangeBlock { r0, c0, r1, c1 },
            _ => VisualOpPlan::LineComment { a: r0, b: r1 },
        },
    }
}

} // verus!
