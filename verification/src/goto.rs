//! `]d` / `[d` and `]c` / `[c`: stepping through a buffer's diagnostics
//! or conflict markers from the cursor, wrapping at the ends, with a
//! count for several steps at once.

use vstd::prelude::*;

use crate::cursor::Cursor;
use crate::lsp_coordinator::Diagnostic;
use crate::text::{decimal, push_decimal, push_str};

verus! {

/// Strictly after the position `(row, col)`, in `(row, col)` order.
pub open spec fn key_after(k: (usize, usize), row: usize, col: usize) -> bool {
    k.0 > row || (k.0 == row && k.1 > col)
}

/// Strictly before the position `(row, col)`, in `(row, col)` order.
pub open spec fn key_before(k: (usize, usize), row: usize, col: usize) -> bool {
    k.0 < row || (k.0 == row && k.1 < col)
}

/// First index from `i` on whose key lies after the position; `0` when
/// there is none (the walk wraps to the front).
pub open spec fn first_after_from(keys: Seq<(usize, usize)>, row: usize, col: usize, i: nat) -> int
    decreases keys.len() - i,
{
    if i >= keys.len() {
        0
    } else if key_after(keys[i as int], row, col) {
        i as int
    } else {
        first_after_from(keys, row, col, i + 1)
    }
}

/// Last index below `k` whose key lies before the position; the last
/// index when there is none (the walk wraps to the back).
pub open spec fn last_before_below(keys: Seq<(usize, usize)>, row: usize, col: usize, k: nat) -> int
    decreases k,
{
    if k == 0 {
        keys.len() - 1
    } else if key_before(keys[k - 1], row, col) {
        k - 1
    } else {
        last_before_below(keys, row, col, (k - 1) as nat)
    }
}

/// Where the walk starts: the nearest key past the position in the
/// direction of travel.
pub open spec fn start_index(keys: Seq<(usize, usize)>, row: usize, col: usize, forward: bool) -> int {
    if forward {
        first_after_from(keys, row, col, 0)
    } else {
        last_before_below(keys, row, col, keys.len())
    }
}

/// Extra steps a count asks for (a count of 0 counts as 1).
pub open spec fn extra_steps(count: u32) -> int {
    if count == 0 { 0 } else { count - 1 }
}

/// `steps` more steps from `start` among `n` entries, wrapping.
pub open spec fn cycle_index(start: int, steps: int, n: int, forward: bool) -> int {
    if forward {
        (start + steps) % n
    } else {
        (start + n - steps % n) % n
    }
}

/// The index a jump lands on.
pub open spec fn spec_cycle_target(keys: Seq<(usize, usize)>, row: usize, col: usize, forward: bool, count: u32) -> int {
    cycle_index(start_index(keys, row, col, forward), extra_steps(count), keys.len() as int, forward)
}

fn first_after(keys: &[(usize, usize)], row: usize, col: usize) -> (r: usize)
    ensures
        r == first_after_from(keys@, row, col, 0),
        keys@.len() > 0 ==> r < keys@.len(),
{
    let mut i: usize = 0;
    while i < keys.len()
        invariant
            i <= keys@.len(),
            first_after_from(keys@, row, col, 0) == first_after_from(keys@, row, col, i as nat),
        decreases keys@.len() - i,
    {
        let (a, b) = keys[i];
        if a > row || (a == row && b > col) {
            return i;
        }
        i = i + 1;
    }
    0
}

fn last_before(keys: &[(usize, usize)], row: usize, col: usize) -> (r: usize)
    requires
        keys@.len() > 0,
    ensures
        r == last_before_below(keys@, row, col, keys@.len()),
        r < keys@.len(),
{
    let mut k: usize = keys.len();
    while k > 0
        invariant
            k <= keys@.len(),
            keys@.len() > 0,
            last_before_below(keys@, row, col, keys@.len()) == last_before_below(keys@, row, col, k as nat),
        decreases k,
    {
        let (a, b) = keys[k - 1];
        if a < row || (a == row && b < col) {
            return k - 1;
        }
        k = k - 1;
    }
    keys.len() - 1
}

/// The index a `count`-step jump from `(row, col)` lands on among
/// `keys` (sorted positions), wrapping at either end.
pub fn cycle_target(keys: &[(usize, usize)], row: usize, col: usize, forward: bool, count: u32) -> (r: usize)
    requires
        keys@.len() > 0,
    ensures
        r == spec_cycle_target(keys@, row, col, forward, count),
        r < keys@.len(),
{
    let n = keys.len();
    let start = if forward { first_after(keys, row, col) } else { last_before(keys, row, col) };
    let steps: usize = if count == 0 { 0 } else { (count - 1) as usize };
    let s = steps % n;
    proof {
        vstd::arithmetic::div_mod::lemma_mod_bound(steps as int, n as int);
    }
    if forward {
        let r = if s < n - start { start + s } else { start - (n - s) };
        proof {
            vstd::arithmetic::div_mod::lemma_add_mod_noop_right(start as int, steps as int, n as int);
            if s < n - start {
                vstd::arithmetic::div_mod::lemma_small_mod((start + s) as nat, n as nat);
            } else {
                vstd::arithmetic::div_mod::lemma_mod_add_multiples_vanish((start + s - n) as int, n as int);
                vstd::arithmetic::div_mod::lemma_small_mod((start + s - n) as nat, n as nat);
            }
        }
        r
    } else {
        let r = if s <= start { start - s } else { n - (s - start) };
        proof {
            if s <= start {
                vstd::arithmetic::div_mod::lemma_mod_add_multiples_vanish((start - s) as int, n as int);
                vstd::arithmetic::div_mod::lemma_small_mod((start - s) as nat, n as nat);
            } else {
                vstd::arithmetic::div_mod::lemma_small_mod((start + n - s) as nat, n as nat);
            }
        }
        r
    }
}

/// Jumps wrap: among `n` entries, a count `n` larger lands on the same
/// entry, in either direction.
pub proof fn law_count_wraps(keys: Seq<(usize, usize)>, row: usize, col: usize, forward: bool, count: u32)
    requires
        keys.len() > 0,
        count >= 1,
        count + keys.len() <= u32::MAX,
    ensures
        spec_cycle_target(keys, row, col, forward, (count + keys.len()) as u32)
            == spec_cycle_target(keys, row, col, forward, count),
{
    let n = keys.len() as int;
    let s = count - 1;
    let start = start_index(keys, row, col, forward);
    assert(extra_steps((count + keys.len()) as u32) == n + s);
    if forward {
        vstd::arithmetic::div_mod::lemma_mod_add_multiples_vanish(start + s, n);
        assert(start + (n + s) == n + (start + s));
    } else {
        vstd::arithmetic::div_mod::lemma_mod_add_multiples_vanish(s, n);
    }
}

/// Where a jump lands: the index of the entry, the cursor (before its
/// column is clamped to the line), and the message shown.
pub struct Landing {
    pub index: usize,
    pub cursor: Cursor,
    pub message: String,
}

/// The start positions of a list of diagnostics.
pub open spec fn diag_keys(diags: Seq<Diagnostic>) -> Seq<(usize, usize)> {
    diags.map_values(|d: Diagnostic| (d.range.start.line as usize, d.range.start.character as usize))
}

fn diagnostic_keys(diags: &[Diagnostic]) -> (r: Vec<(usize, usize)>)
    ensures
        r@ == diag_keys(diags@),
{
    let mut keys: Vec<(usize, usize)> = Vec::new();
    let mut i: usize = 0;
    while i < diags.len()
        invariant
            i <= diags@.len(),
            keys@ == diag_keys(diags@.take(i as int)),
        decreases diags@.len() - i,
    {
        let p = diags[i].range.start;
        keys.push((p.line as usize, p.character as usize));
        i = i + 1;
        assert(diags@.take(i as int) =~= diags@.take(i as int - 1).push(diags@[i as int - 1]));
        assert(keys@ =~= diag_keys(diags@.take(i as int)));
    }
    assert(diags@.take(diags@.len() as int) =~= diags@);
    keys
}

/// `]d` / `[d` over the current buffer's diagnostics (sorted by start):
/// `Err("no diagnostics")` when there are none; otherwise the landing
/// entry, the cursor on its start with the row clamped to the buffer's
/// last line, and the diagnostic's message.
pub fn goto_diagnostic(diags: &[Diagnostic], cursor: Cursor, forward: bool, count: u32, line_count: usize) -> (r: Result<Landing, String>)
    ensures
        diags@.len() == 0 ==> r.is_err() && r->Err_0@ == "no diagnostics"@,
        diags@.len() > 0 ==> r.is_ok() && ({
            let l = r->Ok_0;
            let idx = spec_cycle_target(diag_keys(diags@), cursor.row, cursor.col, forward, count);
            let start = diags@[idx].range.start;
            let last: int = if line_count == 0 { 0 } else { line_count - 1 };
            &&& l.index == idx
            &&& l.cursor.row == (if start.line <= last { start.line as int } else { last })
            &&& l.cursor.col == start.character
            &&& l.message@ == diags@[idx].message@
        }),
{
    if diags.len() == 0 {
        let s = String::from_str("no diagnostics");
        proof {
            reveal_strlit("no diagnostics");
        }
        return Err(s);
    }
    let keys = diagnostic_keys(diags);
    let idx = cycle_target(&keys, cursor.row, cursor.col, forward, count);
    let start = diags[idx].range.start;
    let last: usize = if line_count == 0 { 0 } else { line_count - 1 };
    let line = start.line as usize;
    let row = if line <= last { line } else { last };
    let message = diags[idx].message.clone();
    Ok(Landing { index: idx, cursor: Cursor { row, col: start.character as usize }, message })
}

/// The conflict-marker starts as positions on column 0.
pub open spec fn row_keys(rows: Seq<usize>) -> Seq<(usize, usize)> {
    rows.map_values(|r: usize| (r, 0usize))
}

/// `"conflict <i>/<n> at line <l>"`, all counted from 1.
pub open spec fn conflict_message(idx: nat, n: nat, row: nat) -> Seq<char> {
    "conflict "@ + decimal(idx + 1) + "/"@ + decimal(n) + " at line "@ + decimal(row + 1)
}

/// `]c` / `[c` over the `<<<<<<<` rows `starts` (ascending) of a buffer
/// with `line_count` lines: `Err` when there are none; otherwise the
/// landing conflict, the cursor at column 0 of its first row, and its
/// position among the conflicts.
pub fn goto_conflict(starts: &[usize], row: usize, forward: bool, count: u32, line_count: usize) -> (r: Result<Landing, String>)
    requires
        forall|i: int| 0 <= i < starts@.len() ==> #[trigger] starts@[i] < line_count,
    ensures
        starts@.len() == 0 ==> r.is_err() && r->Err_0@ == "no conflict markers in this buffer"@,
        starts@.len() > 0 ==> r.is_ok() && ({
            let l = r->Ok_0;
            let idx = spec_cycle_target(row_keys(starts@), row, 0, forward, count);
            &&& l.index == idx
            &&& l.cursor == (Cursor { row: starts@[idx], col: 0 })
            &&& l.message@ == conflict_message(idx as nat, starts@.len(), starts@[idx] as nat)
        }),
{
    if starts.len() == 0 {
        let s = String::from_str("no conflict markers in this buffer");
        proof {
            reveal_strlit("no conflict markers in this buffer");
        }
        return Err(s);
    }
    let mut keys: Vec<(usize, usize)> = Vec::new();
    let mut i: usize = 0;
    while i < starts.len()
        invariant
            i <= starts@.len(),
            keys@ == row_keys(starts@.take(i as int)),
        decreases starts@.len() - i,
    {
        keys.push((starts[i], 0));
        i = i + 1;
        assert(starts@.take(i as int) =~= starts@.take(i as int - 1).push(starts@[i as int - 1]));
        assert(keys@ =~= row_keys(starts@.take(i as int)));
    }
    assert(starts@.take(starts@.len() as int) =~= starts@);
    let idx = cycle_target(&keys, row, 0, forward, count);
    let target = starts[idx];
    let mut msg = String::new();
    push_str(&mut msg, "conflict ");
    push_decimal(&mut msg, (idx as u64) + 1);
    push_str(&mut msg, "/");
    push_decimal(&mut msg, starts.len() as u64);
    push_str(&mut msg, " at line ");
    push_decimal(&mut msg, (target as u64) + 1);
    assert(msg@ =~= conflict_message(idx as nat, starts@.len(), target as nat));
    Ok(Landing { index: idx, cursor: Cursor { row: target, col: 0 }, message: msg })
}

} // verus!
