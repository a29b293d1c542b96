//! The rows and positions an operator (`d`, `y`, `c`, `>`, `<`, `gc`,
//! `gb`) works on: the line-wise shift span, the rows a comment toggle
//! covers, and the whole-line range a line-visual block comment wraps.

use vstd::prelude::*;

use crate::action::Operator;
use crate::cursor::{Cursor, cursor_le, order};
use crate::editing::char_count;

verus! {

/// Last row index of a buffer with `line_count` lines (0 when empty).
pub open spec fn last_row(line_count: nat) -> int {
    if line_count == 0 { 0 } else { line_count - 1 }
}

/// Rows `[start_row, hi]` that a line-wise `>>` / `<<` with `count`
/// shifts: `max(count, 1)` rows, cut at the last line.
pub fn linewise_shift_rows(start_row: usize, line_count: usize, count: u32) -> (r: (usize, usize))
    ensures
        r.0 == start_row,
        r.1 == ({
            let span: int = if count == 0 { 0 } else { count - 1 };
            let last = last_row(line_count as nat);
            if start_row + span <= last { start_row + span } else { last }
        }),
{
    let span: usize = if count == 0 { 0 } else { (count - 1) as usize };
    let last: usize = if line_count == 0 { 0 } else { line_count - 1 };
    let end_row: usize = if start_row <= last && span <= last - start_row {
        start_row + span
    } else {
        last
    };
    (start_row, end_row)
}

/// The rows a normal-mode comment toggle covers: with extra cursors,
/// the primary row followed by each extra cursor's row; otherwise up to
/// `count` consecutive rows from the primary, stopping at the buffer end.
pub open spec fn spec_comment_rows(primary_row: nat, line_count: nat, count: nat, extras: Seq<Cursor>) -> Seq<usize> {
    if extras.len() == 0 {
        let avail: int = if primary_row < line_count { line_count - primary_row } else { 0 };
        let n: int = if count <= avail { count as int } else { avail };
        Seq::new(n as nat, |i: int| (primary_row + i) as usize)
    } else {
        seq![primary_row as usize] + extras.map_values(|c: Cursor| c.row)
    }
}

/// Rows for `gc` / `gb` in normal mode; see [`spec_comment_rows`].
pub fn comment_target_rows(primary_row: usize, line_count: usize, count: u32, extras: &[Cursor]) -> (r: Vec<usize>)
    ensures
        r@ == spec_comment_rows(primary_row as nat, line_count as nat, count as nat, extras@),
{
    let mut rows: Vec<usize> = Vec::new();
    if extras.len() == 0 {
        let mut i: usize = 0;
        while i < count as usize && primary_row < line_count && i < line_count - primary_row
            invariant
                extras@.len() == 0,
                i <= count,
                primary_row < line_count ==> i <= line_count - primary_row,
                primary_row >= line_count ==> i == 0,
                rows@ == Seq::new(i as nat, |k: int| (primary_row + k) as usize),
            decreases count - i,
        {
            rows.push(primary_row + i);
            i = i + 1;
            assert(rows@ =~= Seq::new(i as nat, |k: int| (primary_row + k) as usize));
        }
        assert(rows@ =~= spec_comment_rows(primary_row as nat, line_count as nat, count as nat, extras@));
    } else {
        rows.push(primary_row);
        let mut j: usize = 0;
        while j < extras.len()
            invariant
                j <= extras@.len(),
                rows@ == seq![primary_row as usize] + extras@.take(j as int).map_values(|c: Cursor| c.row),
            decreases extras@.len() - j,
        {
            rows.push(extras[j].row);
            j = j + 1;
            assert(extras@.take(j as int) =~= extras@.take(j as int - 1).push(extras@[j as int - 1]));
            assert(rows@ =~= seq![primary_row as usize] + extras@.take(j as int).map_values(|c: Cursor| c.row));
        }
        assert(extras@.take(extras@.len() as int) =~= extras@);
    }
    rows
}

/// The row span `(lo, hi)` that `>` / `<` shift for an operator range
/// from `start` to `end`, whichever way round they come.
pub fn shift_row_span(start: Cursor, end: Cursor) -> (r: (usize, usize))
    ensures
        r == (if cursor_le(start, end) { (start.row, end.row) } else { (end.row, start.row) }),
{
    let (lo, hi) = order(start, end);
    (lo.row, hi.row)
}

/// Every row from `lo` to `hi`, both included (empty when `lo > hi`).
pub fn rows_between(lo: usize, hi: usize) -> (r: Vec<usize>)
    ensures
        r@ == Seq::new(if lo <= hi { (hi - lo + 1) as nat } else { 0 }, |i: int| (lo + i) as usize),
{
    let mut rows: Vec<usize> = Vec::new();
    if lo <= hi {
        let mut r: usize = lo;
        loop
            invariant_except_break
                lo <= r <= hi,
                rows@ == Seq::new((r - lo) as nat, |i: int| (lo + i) as usize),
            ensures
                rows@ == Seq::new((hi - lo + 1) as nat, |i: int| (lo + i) as usize),
            decreases hi - r,
        {
            rows.push(r);
            assert(rows@ =~= Seq::new((r - lo + 1) as nat, |i: int| (lo + i) as usize));
            if r == hi {
                break;
            }
            r = r + 1;
        }
    } else {
        assert(rows@ =~= Seq::new(0, |i: int| (lo + i) as usize));
    }
    rows
}

/// The rows a `gc` / `gb` over an operator range covers: every row from
/// the earlier end's row to the later end's row.
pub fn range_comment_rows(start: Cursor, end: Cursor) -> (r: Vec<usize>)
    ensures
        ({
            let (lo, hi) = if cursor_le(start, end) { (start, end) } else { (end, start) };
            r@ == Seq::new((hi.row - lo.row + 1) as nat, |i: int| (lo.row + i) as usize)
        }),
{
    let (lo, hi) = order(start, end);
    rows_between(lo.row, hi.row)
}

/// What a comment toggle says when the buffer's language has no
/// suitable comment token; `None` for the operators that never toggle
/// comments.
pub fn comment_unavailable_text(op: Operator) -> (r: Option<String>)
    ensures
        op == Operator::Comment ==> r.is_some() && r.unwrap()@ == "no comment token for this buffer"@,
        op == Operator::BlockComment ==> r.is_some() && r.unwrap()@
            == "no block- or line-comment tokens for this buffer"@,
        op != Operator::Comment && op != Operator::BlockComment ==> r.is_none(),
{
    match op {
        Operator::Comment => {
            let s = String::from_str("no comment token for this buffer");
            proof {
                reveal_strlit("no comment token for this buffer");
            }
            Some(s)
        }
        Operator::BlockComment => {
            let s = String::from_str("no block- or line-comment tokens for this buffer");
            proof {
                reveal_strlit("no block- or line-comment tokens for this buffer");
            }
            Some(s)
        }
        _ => None,
    }
}

/// The range a line-visual `gb` wraps: from column 0 of the upper row
/// to the end of the lower row.
pub open spec fn line_block_comment_range_spec(from_row: usize, to_row: usize, lines: Seq<String>) -> (Cursor, Cursor) {
    let lo = if from_row <= to_row { from_row } else { to_row };
    let hi = if from_row <= to_row { to_row } else { from_row };
    (Cursor { row: lo, col: 0 }, Cursor { row: hi, col: lines[hi as int]@.len() as usize })
}

/// The range a line-visual `gb` wraps: from column 0 of the upper row
/// to the end of the lower row.
pub fn line_block_comment_range(from_row: usize, to_row: usize, lines: &[String]) -> (r: (Cursor, Cursor))
    requires
        from_row < lines@.len(),
        to_row < lines@.len(),
    ensures
        r == line_block_comment_range_spec(from_row, to_row, lines@),
{
    let lo = if from_row <= to_row { from_row } else { to_row };
    let hi = if from_row <= to_row { to_row } else { from_row };
    let hi_col = char_count(&lines[hi]);
    (Cursor { row: lo, col: 0 }, Cursor { row: hi, col: hi_col })
}

} // verus!
