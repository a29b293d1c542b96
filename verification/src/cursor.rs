//! Positions inside a buffer.

use vstd::prelude::*;

verus! {

/// A (row, column) position; both 0-based, column counted in chars.
#[derive(Debug, Clone, Copy, PartialEq, Eq, Structural)]
pub struct Cursor {
    pub row: usize,
    pub col: usize,
}

impl Default for Cursor {
    fn default() -> (r: Cursor)
        ensures
            r.row == 0,
            r.col == 0,
    {
        Cursor { row: 0, col: 0 }
    }
}

/// `(row, col)` lexicographic order.
pub open spec fn cursor_le(a: Cursor, b: Cursor) -> bool {
    a.row < b.row || (a.row == b.row && a.col <= b.col)
}

/// The two positions in document order.
pub fn order(a: Cursor, b: Cursor) -> (r: (Cursor, Cursor))
    ensures
        r == (if cursor_le(a, b) { (a, b) } else { (b, a) }),
{
    if a.row < b.row || (a.row == b.row && a.col <= b.col) {
        (a, b)
    } else {
        (b, a)
    }
}

} // verus!
