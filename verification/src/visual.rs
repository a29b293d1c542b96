//! Visual mode: which motion a key moves the selection by, what every
//! other Visual-mode key does, and where `I` / `A` put the cursors.

use vstd::prelude::*;

use crate::action::{MotionKind, Operator};
use crate::cursor::Cursor;
use crate::editing::{char_count, first_non_blank, spec_first_non_blank};
use crate::keys::{KeyCode, KeyInput};

verus! {

/// The motion a Visual-mode key triggers, if any: Ctrl-d/u/f/b page,
/// and the word, line, bracket, viewport and paragraph motions.
pub open spec fn spec_visual_motion_for(key: KeyInput) -> Option<MotionKind> {
    if key.ctrl {
        match key.code {
            KeyCode::Char(c) => if c == 'd' {
                Some(MotionKind::HalfPageDown)
            } else if c == 'u' {
                Some(MotionKind::HalfPageUp)
            } else if c == 'f' {
                Some(MotionKind::PageDown)
            } else if c == 'b' {
                Some(MotionKind::PageUp)
            } else {
                None
            },
            _ => None,
        }
    } else {
        match key.code {
            KeyCode::End => Some(MotionKind::LineEnd),
            KeyCode::Char(c) => if c == 'w' {
                Some(MotionKind::WordForward)
            } else if c == 'b' {
                Some(MotionKind::WordBack)
            } else if c == 'e' {
                Some(MotionKind::WordEnd)
            } else if c == 'W' {
                Some(MotionKind::BigWordForward)
            } else if c == 'B' {
                Some(MotionKind::BigWordBack)
            } else if c == 'E' {
                Some(MotionKind::BigWordEnd)
            } else if c == '^' {
                Some(MotionKind::LineFirstNonBlank)
            } else if c == '$' {
                Some(MotionKind::LineEnd)
            } else if c == '%' {
                Some(MotionKind::BracketMatch)
            } else if c == 'H' {
                Some(MotionKind::ViewportTop)
            } else if c == 'M' {
                Some(MotionKind::ViewportMiddle)
            } else if c == 'L' {
                Some(MotionKind::ViewportBottom)
            } else if c == '{' {
                Some(MotionKind::ParagraphBack)
            } else if c == '}' {
                Some(MotionKind::ParagraphForward)
            } else {
                None
            },
            _ => None,
        }
    }
}

/// Map a Visual-mode key to the motion it moves the selection by;
/// `None` for keys that need other handling (operators, edits, ...).
pub fn visual_motion_for(key: &KeyInput) -> (r: Option<MotionKind>)
    ensures
        r == spec_visual_motion_for(*key),
{
    if key.ctrl {
        return match key.code {
            KeyCode::Char(c) => if c == 'd' {
                Some(MotionKind::HalfPageDown)
            } else if c == 'u' {
                Some(MotionKind::HalfPageUp)
            } else if c == 'f' {
                Some(MotionKind::PageDown)
            } else if c == 'b' {
                Some(MotionKind::PageUp)
            } else {
                None
            },
            _ => None,
        };
    }
    match key.code {
        KeyCode::End => Some(MotionKind::LineEnd),
        KeyCode::Char(c) => if c == 'w' {
            Some(MotionKind::WordForward)
        } else if c == 'b' {
            Some(MotionKind::WordBack)
        } else if c == 'e' {
            Some(MotionKind::WordEnd)
        } else if c == 'W' {
            Some(MotionKind::BigWordForward)
        } else if c == 'B' {
            Some(MotionKind::BigWordBack)
        } else if c == 'E' {
            Some(MotionKind::BigWordEnd)
        } else if c == '^' {
            Some(MotionKind::LineFirstNonBlank)
        } else if c == '$' {
            Some(MotionKind::LineEnd)
        } else if c == '%' {
            Some(MotionKind::BracketMatch)
        } else if c == 'H' {
            Some(MotionKind::ViewportTop)
        } else if c == 'M' {
            Some(MotionKind::ViewportMiddle)
        } else if c == 'L' {
            Some(MotionKind::ViewportBottom)
        } else if c == '{' {
            Some(MotionKind::ParagraphBack)
        } else if c == '}' {
            Some(MotionKind::ParagraphForward)
        } else {
            None
        },
        _ => None,
    }
}

/// The three Visual sub-modes.
#[derive(Debug, Clone, Copy, PartialEq, Eq, Structural)]
pub enum VisualKind {
    /// `v`: char-wise.
    Char,
    /// `V`: line-wise.
    Line,
    /// `<C-v>`: block.
    Block,
}

/// What a Visual-mode key does.
#[derive(Debug, Clone, Copy, PartialEq, Eq, Structural)]
pub enum VisualAction {
    /// Move the active end by a motion (the anchor stays).
    Motion(MotionKind),
    /// `Esc`: back to Normal mode.
    Leave,
    MoveLeft,
    MoveRight,
    MoveUp,
    MoveDown,
    /// `0` / `Home`.
    LineStart,
    /// `gg`.
    FileStart,
    /// `G`.
    FileEnd,
    /// `g`: wait for the second key.
    GPrefix,
    /// `gn` / `gN`: extend to the next / previous search match.
    SearchSelect { reverse: bool },
    /// `*` / `#`: search the word under the cursor.
    SearchWord { forward: bool },
    /// `o`: swap the anchor and the cursor.
    SwapEnds,
    /// `v` / `V` / `<C-v>`: leave that sub-mode, or switch to it.
    Toggle(VisualKind),
    /// `y`, `d` / `x`, `c` / `s` over the selection.
    Op(Operator),
    /// `I`.
    InsertAtStart,
    /// `A`.
    AppendAtEnd,
    /// `S` / `R`: change whole lines.
    ChangeLines,
    /// `C`.
    ChangeToEol,
    /// `D`.
    DeleteToEol,
    /// `X`.
    DeleteLines,
    /// `Y`.
    YankLines,
    /// `u`.
    Lowercase,
    /// `U`.
    Uppercase,
    /// `~`.
    ToggleCase,
    /// `J`.
    JoinLines,
    /// `>` / `<`.
    Shift { right: bool },
    /// `:`: the command prompt, keeping the selection.
    Command,
    /// Any other key does nothing.
    Nothing,
}

/// The second key after a Visual-mode `g`.
pub open spec fn spec_visual_g_action(key: KeyInput) -> VisualAction {
    match key.code {
        KeyCode::Char(c) => if c == 'g' {
            VisualAction::FileStart
        } else if c == 'e' {
            VisualAction::Motion(MotionKind::WordEndBack)
        } else if c == 'E' {
            VisualAction::Motion(MotionKind::BigWordEndBack)
        } else if c == '_' {
            VisualAction::Motion(MotionKind::LineLastNonBlank)
        } else if c == 's' {
            VisualAction::Motion(MotionKind::LineFirstNonBlank)
        } else if c == 'l' {
            VisualAction::Motion(MotionKind::LineEnd)
        } else if c == 'c' {
            VisualAction::Motion(MotionKind::ViewportMiddle)
        } else if c == 'b' {
            VisualAction::Motion(MotionKind::ViewportBottom)
        } else if c == 'n' {
            VisualAction::SearchSelect { reverse: false }
        } else if c == 'N' {
            VisualAction::SearchSelect { reverse: true }
        } else {
            VisualAction::Nothing
        },
        _ => VisualAction::Nothing,
    }
}

/// A Visual-mode key with no `g` pending.
pub open spec fn spec_visual_plain_action(key: KeyInput) -> VisualAction {
    match spec_visual_motion_for(key) {
        Some(m) => VisualAction::Motion(m),
        None => match key.code {
            KeyCode::Esc => VisualAction::Leave,
            KeyCode::Left => VisualAction::MoveLeft,
            KeyCode::Right => VisualAction::MoveRight,
            KeyCode::Down => VisualAction::MoveDown,
            KeyCode::Up => VisualAction::MoveUp,
            KeyCode::Home => VisualAction::LineStart,
            KeyCode::Char(c) => if c == 'h' {
                VisualAction::MoveLeft
            } else if c == 'l' {
                VisualAction::MoveRight
            } else if c == 'j' {
                VisualAction::MoveDown
            } else if c == 'k' {
                VisualAction::MoveUp
            } else if c == '0' {
                VisualAction::LineStart
            } else if c == 'G' {
                VisualAction::FileEnd
            } else if c == 'g' {
                VisualAction::GPrefix
            } else if c == '*' {
                VisualAction::SearchWord { forward: true }
            } else if c == '#' {
                VisualAction::SearchWord { forward: false }
            } else if c == 'o' {
                VisualAction::SwapEnds
            } else if c == 'v' {
                if key.ctrl { VisualAction::Toggle(VisualKind::Block) } else { VisualAction::Toggle(VisualKind::Char) }
            } else if c == 'V' {
                VisualAction::Toggle(VisualKind::Line)
            } else if c == 'y' {
                VisualAction::Op(Operator::Yank)
            } else if c == 'd' || c == 'x' {
                VisualAction::Op(Operator::Delete)
            } else if c == 'c' || c == 's' {
                VisualAction::Op(Operator::Change)
            } else if c == 'I' {
                VisualAction::InsertAtStart
            } else if c == 'A' {
                VisualAction::AppendAtEnd
            } else if c == 'S' || c == 'R' {
                VisualAction::ChangeLines
            } else if c == 'C' {
                VisualAction::ChangeToEol
            } else if c == 'D' {
                VisualAction::DeleteToEol
            } else if c == 'X' {
                VisualAction::DeleteLines
            } else if c == 'Y' {
                VisualAction::YankLines
            } else if c == 'u' {
                VisualAction::Lowercase
            } else if c == 'U' {
                VisualAction::Uppercase
            } else if c == '~' {
                VisualAction::ToggleCase
            } else if c == 'J' {
                VisualAction::JoinLines
            } else if c == '>' {
                VisualAction::Shift { right: true }
            } else if c == '<' {
                VisualAction::Shift { right: false }
            } else if c == ':' {
                VisualAction::Command
            } else {
                VisualAction::Nothing
            },
            _ => VisualAction::Nothing,
        },
    }
}

/// What `key` does in Visual mode; `g_pending` when the previous key
/// was a `g`.
pub open spec fn spec_visual_key_action(key: KeyInput, g_pending: bool) -> VisualAction {
    if g_pending { spec_visual_g_action(key) } else { spec_visual_plain_action(key) }
}

/// Classify a Visual-mode key.
pub fn visual_key_action(key: &KeyInput, g_pending: bool) -> (r: VisualAction)
    ensures
        r == spec_visual_key_action(*key, g_pending),
{
    if g_pending {
        return match key.code {
                KeyCode::Char(c) => if c == 'g' {
                    VisualAction::FileStart
                } else if c == 'e' {
                    VisualAction::Motion(MotionKind::WordEndBack)
                } else if c == 'E' {
                    VisualAction::Motion(MotionKind::BigWordEndBack)
                } else if c == '_' {
                    VisualAction::Motion(MotionKind::LineLastNonBlank)
                } else if c == 's' {
                    VisualAction::Motion(MotionKind::LineFirstNonBlank)
                } else if c == 'l' {
                    VisualAction::Motion(MotionKind::LineEnd)
                } else if c == 'c' {
                    VisualAction::Motion(MotionKind::ViewportMiddle)
                } else if c == 'b' {
                    VisualAction::Motion(MotionKind::ViewportBottom)
                } else if c == 'n' {
                    VisualAction::SearchSelect { reverse: false }
                } else if c == 'N' {
                    VisualAction::SearchSelect { reverse: true }
                } else {
                    VisualAction::Nothing
                },
                _ => VisualAction::Nothing,
        };
    }
    if let Some(m) = visual_motion_for(key) {
        return VisualAction::Motion(m);
    }
    match key.code {
        KeyCode::Esc => VisualAction::Leave,
        KeyCode::Left => VisualAction::MoveLeft,
        KeyCode::Right => VisualAction::MoveRight,
        KeyCode::Down => VisualAction::MoveDown,
        KeyCode::Up => VisualAction::MoveUp,
        KeyCode::Home => VisualAction::LineStart,
        KeyCode::Char(c) => if c == 'h' {
            VisualAction::MoveLeft
        } else if c == 'l' {
            VisualAction::MoveRight
        } else if c == 'j' {
            VisualAction::MoveDown
        } else if c == 'k' {
            VisualAction::MoveUp
        } else if c == '0' {
            VisualAction::LineStart
        } else if c == 'G' {
            VisualAction::FileEnd
        } else if c == 'g' {
            VisualAction::GPrefix
        } else if c == '*' {
            VisualAction::SearchWord { forward: true }
        } else if c == '#' {
            VisualAction::SearchWord { forward: false }
        } else if c == 'o' {
            VisualAction::SwapEnds
        } else if c == 'v' {
            if key.ctrl { VisualAction::Toggle(VisualKind::Block) } else { VisualAction::Toggle(VisualKind::Char) }
        } else if c == 'V' {
            VisualAction::Toggle(VisualKind::Line)
        } else if c == 'y' {
            VisualAction::Op(Operator::Yank)
        } else if c == 'd' || c == 'x' {
            VisualAction::Op(Operator::Delete)
        } else if c == 'c' || c == 's' {
            VisualAction::Op(Operator::Change)
        } else if c == 'I' {
            VisualAction::InsertAtStart
        } else if c == 'A' {
            VisualAction::AppendAtEnd
        } else if c == 'S' || c == 'R' {
            VisualAction::ChangeLines
        } else if c == 'C' {
            VisualAction::ChangeToEol
        } else if c == 'D' {
            VisualAction::DeleteToEol
        } else if c == 'X' {
            VisualAction::DeleteLines
        } else if c == 'Y' {
            VisualAction::YankLines
        } else if c == 'u' {
            VisualAction::Lowercase
        } else if c == 'U' {
            VisualAction::Uppercase
        } else if c == '~' {
            VisualAction::ToggleCase
        } else if c == 'J' {
            VisualAction::JoinLines
        } else if c == '>' {
            VisualAction::Shift { right: true }
        } else if c == '<' {
            VisualAction::Shift { right: false }
        } else if c == ':' {
            VisualAction::Command
        } else {
            VisualAction::Nothing
        },
        _ => VisualAction::Nothing,
    }
}

/// Pressing a sub-mode's key: the same sub-mode goes back to Normal
/// (`None`), another one switches to it, keeping the anchor.
pub fn toggle_visual(current: VisualKind, target: VisualKind) -> (r: Option<VisualKind>)
    ensures
        r == (if current == target { None } else { Some(target) }),
{
    if current == target {
        None
    } else {
        Some(target)
    }
}

/// A Visual-mode selection: char-wise between two positions (both
/// included), whole rows, or a rectangle of rows `r0..=r1` and columns
/// `c0..=c1`.
#[derive(Debug, Clone, Copy, PartialEq, Eq, Structural)]
pub enum Selection {
    Char { from: Cursor, to: Cursor },
    Line { from_row: usize, to_row: usize },
    Block { r0: usize, c0: usize, r1: usize, c1: usize },
}

/// The first and last row a selection covers.
pub fn selection_row_span(sel: Selection) -> (r: (usize, usize))
    ensures
        r == (match sel {
            Selection::Char { from, to } => (from.row, to.row),
            Selection::Line { from_row, to_row } => (from_row, to_row),
            Selection::Block { r0, r1, .. } => (r0, r1),
        }),
{
    match sel {
        Selection::Char { from, to } => (from.row, to.row),
        Selection::Line { from_row, to_row } => (from_row, to_row),
        Selection::Block { r0, r1, .. } => (r0, r1),
    }
}

/// Every row of the selection lies in the buffer.
pub open spec fn selection_in(sel: Selection, n: nat) -> bool {
    match sel {
        Selection::Char { from, to } => from.row < n && to.row < n,
        Selection::Line { from_row, to_row } => from_row < n && to_row < n,
        Selection::Block { r0, r1, .. } => r0 < n && r1 < n,
    }
}

/// `min(a, b)` on naturals.
pub open spec fn min_nat(a: int, b: int) -> int {
    if a <= b { a } else { b }
}

/// Number of extra cursors a fan-out over rows `lo + 1 ..= hi` makes.
pub open spec fn fan_len(lo: usize, hi: usize) -> int {
    if lo < hi { hi - lo } else { 0 }
}

/// Where visual `I` puts the cursor on row `r` (for line and block
/// selections).
pub open spec fn insert_col(sel: Selection, lines: Seq<String>, r: int) -> int {
    match sel {
        Selection::Block { c0, .. } => min_nat(c0 as int, lines[r]@.len() as int),
        _ => spec_first_non_blank(lines[r]@) as int,
    }
}

/// Where visual `A` puts the cursor on row `r` (for line and block
/// selections).
pub open spec fn append_col(sel: Selection, lines: Seq<String>, r: int) -> int {
    match sel {
        Selection::Block { c1, .. } => min_nat(c1 + 1, lines[r]@.len() as int),
        _ => lines[r]@.len() as int,
    }
}

/// The rows a line or block selection fans out over.
pub open spec fn fan_rows(sel: Selection) -> (usize, usize) {
    match sel {
        Selection::Line { from_row, to_row } => (from_row, to_row),
        Selection::Block { r0, r1, .. } => (r0, r1),
        Selection::Char { from, .. } => (from.row, from.row),
    }
}

/// The extra cursors: one per row after the first, each at `col(r)`.
pub open spec fn fanned(extras: Seq<Cursor>, lo: usize, hi: usize, col: spec_fn(int) -> int) -> bool {
    &&& extras.len() == fan_len(lo, hi)
    &&& forall|i: int| 0 <= i < extras.len() ==> #[trigger] extras[i] == (Cursor {
        row: (lo + 1 + i) as usize,
        col: col(lo + 1 + i) as usize,
    })
}

fn fan_out(sel: Selection, lines: &[String], append: bool) -> (r: Vec<Cursor>)
    requires
        selection_in(sel, lines@.len()),
        !(sel is Char),
    ensures
        fanned(r@, fan_rows(sel).0, fan_rows(sel).1, |q: int| if append {
            append_col(sel, lines@, q)
        } else {
            insert_col(sel, lines@, q)
        }),
{
    let (lo, hi) = match sel {
        Selection::Line { from_row, to_row } => (from_row, to_row),
        Selection::Block { r0, r1, .. } => (r0, r1),
        Selection::Char { from, .. } => (from.row, from.row),
    };
    let ghost col = |q: int| if append { append_col(sel, lines@, q) } else { insert_col(sel, lines@, q) };
    let mut extras: Vec<Cursor> = Vec::new();
    let mut r: usize = lo;
    while r < hi
        invariant
            lo <= r <= hi || (hi < lo && r == lo),
            hi < lines@.len(),
            lo < lines@.len(),
            !(sel is Char),
            (lo, hi) == fan_rows(sel),
            col == (|q: int| if append { append_col(sel, lines@, q) } else { insert_col(sel, lines@, q) }),
            extras@.len() == (if lo < r { r - lo } else { 0 }),
            forall|i: int| 0 <= i < extras@.len() ==> #[trigger] extras@[i] == (Cursor {
                row: (lo + 1 + i) as usize,
                col: col(lo + 1 + i) as usize,
            }),
        decreases hi - r,
    {
        let row = r + 1;
        let len = char_count(&lines[row]);
        let c: usize = match sel {
            Selection::Block { c0, c1, .. } => if append {
                if c1 < len { c1 + 1 } else { len }
            } else {
                if c0 <= len { c0 } else { len }
            },
            _ => if append { len } else { first_non_blank(&lines[row]) },
        };
        extras.push(Cursor { row, col: c });
        r = row;
    }
    extras
}

/// Visual `I`: the primary cursor and the extra ones. Char-wise: the
/// start of the selection, alone. Line-wise: each row's first non-blank.
/// Block: column `c0` on each row, clamped to the row's length (the
/// primary is at `(r0, c0)` as it stands).
pub fn insert_at_start_cursors(sel: Selection, lines: &[String]) -> (r: (Cursor, Vec<Cursor>))
    requires
        selection_in(sel, lines@.len()),
    ensures
        match sel {
            Selection::Char { from, .. } => r.0 == from && r.1@.len() == 0,
            Selection::Line { from_row, to_row } => r.0 == (Cursor {
                row: from_row,
                col: spec_first_non_blank(lines@[from_row as int]@) as usize,
            }) && fanned(r.1@, from_row, to_row, |q: int| insert_col(sel, lines@, q)),
            Selection::Block { r0, c0, r1, .. } => r.0 == (Cursor { row: r0, col: c0 }) && fanned(
                r.1@,
                r0,
                r1,
                |q: int| insert_col(sel, lines@, q),
            ),
        },
{
    match sel {
        Selection::Char { from, .. } => (from, Vec::new()),
        Selection::Line { from_row, .. } => {
            let col = first_non_blank(&lines[from_row]);
            let extras = fan_out(sel, lines, false);
            (Cursor { row: from_row, col }, extras)
        },
        Selection::Block { r0, c0, .. } => {
            let extras = fan_out(sel, lines, false);
            (Cursor { row: r0, col: c0 }, extras)
        },
    }
}

/// Visual `A`: the primary cursor and the extra ones. Char-wise: just
/// past the selection's end, clamped to its row. Line-wise: each row's
/// end. Block: column `c1 + 1` on each row, clamped to the row's length.
pub fn append_at_end_cursors(sel: Selection, lines: &[String]) -> (r: (Cursor, Vec<Cursor>))
    requires
        selection_in(sel, lines@.len()),
    ensures
        match sel {
            Selection::Char { to, .. } => r.0 == (Cursor {
                row: to.row,
                col: min_nat(to.col + 1, lines@[to.row as int]@.len() as int) as usize,
            }) && r.1@.len() == 0,
            Selection::Line { from_row, to_row } => r.0 == (Cursor {
                row: from_row,
                col: lines@[from_row as int]@.len() as usize,
            }) && fanned(r.1@, from_row, to_row, |q: int| append_col(sel, lines@, q)),
            Selection::Block { r0, r1, c1, .. } => r.0 == (Cursor {
                row: r0,
                col: min_nat(c1 + 1, lines@[r0 as int]@.len() as int) as usize,
            }) && fanned(r.1@, r0, r1, |q: int| append_col(sel, lines@, q)),
        },
{
    match sel {
        Selection::Char { to, .. } => {
            let len = char_count(&lines[to.row]);
            let col = if to.col < len { to.col + 1 } else { len };
            (Cursor { row: to.row, col }, Vec::new())
        },
        Selection::Line { from_row, .. } => {
            let col = char_count(&lines[from_row]);
            let extras = fan_out(sel, lines, true);
            (Cursor { row: from_row, col }, extras)
        },
        Selection::Block { r0, c1, .. } => {
            let len = char_count(&lines[r0]);
            let col = if c1 < len { c1 + 1 } else { len };
            let extras = fan_out(sel, lines, true);
            (Cursor { row: r0, col }, extras)
        },
    }
}

} // verus!
