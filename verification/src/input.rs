//! Which handler a key press goes to: the prompt, the jump overlay, the
//! focused agent pane, the global quit key, or the current mode.

use vstd::prelude::*;

use crate::action::Mode;
use crate::keys::{KeyCode, KeyInput};

verus! {

/// The handler a key press is given to.
#[derive(Debug, Clone, Copy, PartialEq, Eq, Structural)]
pub enum KeyRoute {
    /// An open prompt takes every key.
    Prompt,
    /// The `gw` label overlay takes every key until a pick or a cancel.
    JumpOverlay,
    /// The focused agent pane (its terminal, or a `Ctrl-W` chord).
    Agent,
    /// `Ctrl-C` anywhere else quits.
    Quit,
    /// `Esc` in Normal mode first dismisses a sticky fatal toast.
    DismissFatal,
    /// Insert-mode handling.
    Insert,
    /// Visual-mode handling (any of the three sub-modes).
    Visual,
    /// The Normal-mode token pipeline.
    Normal,
}

/// Where a key goes, checked in this order: prompt, jump overlay, agent
/// pane, `Ctrl-C`, fatal-toast dismissal, then the mode.
pub open spec fn spec_route_key(
    prompt_open: bool,
    jump_active: bool,
    agent_focused: bool,
    mode: Mode,
    key: KeyInput,
    fatal_toast: bool,
) -> KeyRoute {
    if prompt_open {
        KeyRoute::Prompt
    } else if jump_active {
        KeyRoute::JumpOverlay
    } else if agent_focused {
        KeyRoute::Agent
    } else if key.ctrl && key.code == KeyCode::Char('c') {
        KeyRoute::Quit
    } else if mode == Mode::Normal && key.code == KeyCode::Esc && fatal_toast {
        KeyRoute::DismissFatal
    } else {
        match mode {
            Mode::Insert => KeyRoute::Insert,
            Mode::Visual | Mode::VisualLine | Mode::VisualBlock => KeyRoute::Visual,
            Mode::Normal => KeyRoute::Normal,
        }
    }
}

/// Route one key press.
pub fn route_key(
    prompt_open: bool,
    jump_active: bool,
    agent_focused: bool,
    mode: Mode,
    key: &KeyInput,
    fatal_toast: bool,
) -> (r: KeyRoute)
    ensures
        r == spec_route_key(prompt_open, jump_active, agent_focused, mode, *key, fatal_toast),
{
    if prompt_open {
        KeyRoute::Prompt
    } else if jump_active {
        KeyRoute::JumpOverlay
    } else if agent_focused {
        KeyRoute::Agent
    } else if key.ctrl && key.code == KeyCode::Char('c') {
        KeyRoute::Quit
    } else if mode == Mode::Normal && key.code == KeyCode::Esc && fatal_toast {
        KeyRoute::DismissFatal
    } else {
        match mode {
            Mode::Insert => KeyRoute::Insert,
            Mode::Visual | Mode::VisualLine | Mode::VisualBlock => KeyRoute::Visual,
            Mode::Normal => KeyRoute::Normal,
        }
    }
}

/// Whether a key in the focused agent pane drives window navigation
/// (`Ctrl-W`, or any key while a `Ctrl-W` chord is pending) rather than
/// going to the agent's terminal.
pub fn agent_key_is_window_chord(key: &KeyInput, chord_pending: bool) -> (r: bool)
    ensures
        r == ((key.ctrl && (key.code == KeyCode::Char('w') || key.code == KeyCode::Char('W'))) || chord_pending),
{
    (key.ctrl && (key.code == KeyCode::Char('w') || key.code == KeyCode::Char('W'))) || chord_pending
}

} // verus!
