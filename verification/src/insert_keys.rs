//! Insert-mode key decisions: what a key does while the completion popup
//! is open, what it does otherwise, and when typing a char asks the
//! language server for completions on its own.

use vstd::prelude::*;

use crate::keys::{KeyCode, KeyInput};

verus! {

/// What a key does while the completion popup is open.
#[derive(Debug, Clone, Copy, PartialEq, Eq, Structural)]
pub enum PopupKey {
    /// Close the popup; the key is used up.
    Close,
    /// Move the selection up (`-1`) or down (`1`); the key is used up.
    Nav(i8),
    /// Accept the selected item; the key is used up.
    Accept,
    /// Close the popup and let the key go on to normal insert handling.
    CloseThenInsert,
    /// Leave the popup alone and let the key go on to normal insert
    /// handling (typing re-filters the list).
    PassThrough,
}

/// The popup's reading of `key`; `selecting` tells whether a row has
/// been committed to (Enter only accepts then).
pub open spec fn spec_popup_key(key: KeyInput, selecting: bool) -> PopupKey {
    match key.code {
        KeyCode::Esc => PopupKey::Close,
        KeyCode::Up | KeyCode::BackTab => PopupKey::Nav(-1i8),
        KeyCode::Tab => if key.shift { PopupKey::Nav(-1i8) } else { PopupKey::Nav(1i8) },
        KeyCode::Down => PopupKey::Nav(1i8),
        KeyCode::Char(c) => if c == 'p' && key.ctrl {
            PopupKey::Nav(-1i8)
        } else if c == 'n' && key.ctrl {
            PopupKey::Nav(1i8)
        } else {
            PopupKey::PassThrough
        },
        KeyCode::Enter => if selecting { PopupKey::Accept } else { PopupKey::CloseThenInsert },
        _ => PopupKey::PassThrough,
    }
}

/// Classify `key` for the open completion popup.
pub fn popup_key(key: &KeyInput, selecting: bool) -> (r: PopupKey)
    ensures
        r == spec_popup_key(*key, selecting),
{
    match key.code {
        KeyCode::Esc => PopupKey::Close,
        KeyCode::Up | KeyCode::BackTab => PopupKey::Nav(-1),
        KeyCode::Tab => if key.shift { PopupKey::Nav(-1) } else { PopupKey::Nav(1) },
        KeyCode::Down => PopupKey::Nav(1),
        KeyCode::Char(c) => if c == 'p' && key.ctrl {
            PopupKey::Nav(-1)
        } else if c == 'n' && key.ctrl {
            PopupKey::Nav(1)
        } else {
            PopupKey::PassThrough
        },
        KeyCode::Enter => if selecting { PopupKey::Accept } else { PopupKey::CloseThenInsert },
        _ => PopupKey::PassThrough,
    }
}

/// The selected row after the first navigation key in preview mode: it
/// only switches to selecting, except that moving up jumps to the last
/// row of a non-empty list.
pub fn first_nav_selection(selected: usize, len: usize, delta: i8) -> (r: usize)
    ensures
        r == (if delta < 0 && len > 0 { (len - 1) as usize } else { selected }),
{
    if delta < 0 && len > 0 {
        len - 1
    } else {
        selected
    }
}

/// A cursor direction of the arrow keys.
#[derive(Debug, Clone, Copy, PartialEq, Eq, Structural)]
pub enum ArrowDir {
    Left,
    Right,
    Up,
    Down,
}

/// What a key does in insert mode once the popup (if any) passed it on.
#[derive(Debug, Clone, Copy, PartialEq, Eq, Structural)]
pub enum InsertAction {
    /// `<C-Space>`: ask for completions.
    RequestCompletion,
    /// `<C-l>` / `<C-y>`: accept the inline suggestion, if one shows.
    AcceptInline,
    /// Type the char at every cursor.
    Type(char),
    /// `Esc`: finish the insert and go back to normal mode.
    Leave,
    /// `Enter`: split the line at the primary cursor.
    Newline,
    /// `Backspace` at every cursor.
    Backspace,
    /// `Tab`: indent (a tab, or spaces to the next stop).
    Indent,
    /// `Shift-Tab` / `BackTab`: dedent every cursor's line.
    Dedent,
    /// An arrow key: move every cursor, ending the `.` recording.
    Move(ArrowDir),
    /// Anything else does nothing.
    Ignore,
}

pub open spec fn spec_insert_action(key: KeyInput) -> InsertAction {
    match key.code {
        KeyCode::Char(c) => if key.ctrl {
            if c == ' ' {
                InsertAction::RequestCompletion
            } else if c == 'l' || c == 'y' {
                InsertAction::AcceptInline
            } else {
                InsertAction::Ignore
            }
        } else {
            InsertAction::Type(c)
        },
        KeyCode::Esc => InsertAction::Leave,
        KeyCode::Enter => InsertAction::Newline,
        KeyCode::Backspace => InsertAction::Backspace,
        KeyCode::Tab => if key.shift { InsertAction::Dedent } else { InsertAction::Indent },
        KeyCode::BackTab => InsertAction::Dedent,
        KeyCode::Left => InsertAction::Move(ArrowDir::Left),
        KeyCode::Right => InsertAction::Move(ArrowDir::Right),
        KeyCode::Up => InsertAction::Move(ArrowDir::Up),
        KeyCode::Down => InsertAction::Move(ArrowDir::Down),
        _ => InsertAction::Ignore,
    }
}

/// Classify an insert-mode key.
pub fn insert_action(key: &KeyInput) -> (r: InsertAction)
    ensures
        r == spec_insert_action(*key),
{
    match key.code {
        KeyCode::Char(c) => if key.ctrl {
            if c == ' ' {
                InsertAction::RequestCompletion
            } else if c == 'l' || c == 'y' {
                InsertAction::AcceptInline
            } else {
                InsertAction::Ignore
            }
        } else {
            InsertAction::Type(c)
        },
        KeyCode::Esc => InsertAction::Leave,
        KeyCode::Enter => InsertAction::Newline,
        KeyCode::Backspace => InsertAction::Backspace,
        KeyCode::Tab => if key.shift { InsertAction::Dedent } else { InsertAction::Indent },
        KeyCode::BackTab => InsertAction::Dedent,
        KeyCode::Left => InsertAction::Move(ArrowDir::Left),
        KeyCode::Right => InsertAction::Move(ArrowDir::Right),
        KeyCode::Up => InsertAction::Move(ArrowDir::Up),
        KeyCode::Down => InsertAction::Move(ArrowDir::Down),
        _ => InsertAction::Ignore,
    }
}

/// Whether a typed char asks for completions on its own.
#[derive(Debug, Clone, Copy, PartialEq, Eq, Structural)]
pub enum AutoTrigger {
    /// No request.
    Nothing,
    /// A request that names the char as the server's trigger character.
    TriggerChar,
    /// A plain request: an identifier is long enough to narrow things down.
    Identifier,
}

/// After typing a char: with no popup open and a server attached, a
/// server-declared trigger char always asks; an identifier char asks
/// once the typed prefix reaches `min_prefix` chars.
pub fn auto_trigger(
    popup_open: bool,
    has_lsp: bool,
    is_trigger_char: bool,
    is_ident_char: bool,
    typed_prefix: usize,
    min_prefix: usize,
) -> (r: AutoTrigger)
    ensures
        r == (if popup_open || !has_lsp {
            AutoTrigger::Nothing
        } else if is_trigger_char {
            AutoTrigger::TriggerChar
        } else if is_ident_char && typed_prefix >= min_prefix {
            AutoTrigger::Identifier
        } else {
            AutoTrigger::Nothing
        }),
{
    if popup_open || !has_lsp {
        AutoTrigger::Nothing
    } else if is_trigger_char {
        AutoTrigger::TriggerChar
    } else if is_ident_char && typed_prefix >= min_prefix {
        AutoTrigger::Identifier
    } else {
        AutoTrigger::Nothing
    }
}

} // verus!
