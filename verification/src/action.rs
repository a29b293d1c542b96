//! The command grammar: tokens (what a key press resolves to) and the
//! semantic AST (`Expr`) that a complete token list builds.

use vstd::prelude::*;

verus! {

/// Editor mode.
#[derive(Debug, Clone, Copy, PartialEq, Eq, Structural)]
pub enum Mode {
    Normal,
    Insert,
    Visual,
    VisualLine,
    VisualBlock,
}

/// Which list a fuzzy picker is browsing.
#[derive(Debug, Clone, Copy, PartialEq, Eq, Structural)]
pub enum FuzzyKind {
    Files,
    Buffers,
    Lines,
    Diagnostics,
    Locations,
    WorkspaceSearch,
    GitChangedFiles,
    Jumps,
    Bookmarks,
}

/// What a single key press resolves to in the current parsing context.
#[derive(Debug, Clone, Copy, PartialEq, Eq, Structural)]
pub enum Token {
    /// A digit typed as part of a count prefix.
    Count(u32),
    /// Operator pending: `d`, `y`, `c`, `>`, `<`, `gc`, `gb`.
    Op(Operator),
    /// The operator key pressed again (`dd`, `yy`, `yss`).
    SelfDouble(Operator),
    /// A cursor motion.
    Motion(MotionKind),
    /// A standalone action.
    Direct(DirectKind),
    /// Text-object scope marker (`i` / `a`).
    Scope(Scope),
    /// Text-object body marker.
    Object(Object),
    /// `<space>` leader.
    LeaderPrefix,
    /// `g` prefix.
    GotoPrefix,
    /// `z` prefix.
    ZPrefix,
    /// `f`/`F`/`t`/`T` waiting for the literal target character.
    FindCharPrefix { forward: bool, till: bool },
    /// `r` waiting for the replacement char.
    ReplaceCharPrefix,
    /// `<space>w` window sub-leader.
    WindowPrefix,
    /// `<space>m` bookmark sub-leader.
    BookmarkPrefix,
    /// `Ctrl-W` window chord.
    CtrlWPrefix,
    /// `]` / `[` prefix.
    BracketPrefix { forward: bool },
    /// `ys` — surround add, waiting for a target and a char.
    SurroundAddPrefix,
    /// `cs` — surround change, waiting for two chars.
    SurroundChangePrefix,
    /// `ds` — surround delete, waiting for one char.
    SurroundDeletePrefix,
    /// A literal char argument of a surround command.
    SurroundChar(char),
}

#[derive(Debug, Clone, Copy, PartialEq, Eq, Structural)]
pub enum Operator {
    Delete,
    Yank,
    Change,
    /// `>` — shift right.
    Indent,
    /// `<` — shift left.
    Dedent,
    /// `gc` — line comment toggle.
    Comment,
    /// `gb` — block comment toggle.
    BlockComment,
}

#[derive(Debug, Clone, Copy, PartialEq, Eq, Structural)]
pub enum MotionKind {
    Left,
    Right,
    Up,
    Down,
    LineStart,
    LineEnd,
    LineFirstNonBlank,
    LineLastNonBlank,
    WordForward,
    WordBack,
    WordEnd,
    BigWordForward,
    BigWordBack,
    BigWordEnd,
    WordEndBack,
    BigWordEndBack,
    FindChar { ch: char, forward: bool, till: bool },
    RepeatFind { reverse: bool },
    FileStart,
    FileEnd,
    BracketMatch,
    SearchWordForward,
    SearchWordBack,
    ViewportTop,
    ViewportMiddle,
    ViewportBottom,
    HalfPageDown,
    HalfPageUp,
    PageDown,
    PageUp,
    SearchNext,
    SearchPrev,
    ParagraphBack,
    ParagraphForward,
}

#[derive(Debug, Clone, Copy, PartialEq, Eq, Structural)]
pub enum Scope {
    Inner,
    Around,
}

#[derive(Debug, Clone, Copy, PartialEq, Eq, Structural)]
pub enum Object {
    Word,
    DoubleQuote,
    SingleQuote,
    Backtick,
    Paren,
    Brace,
    Bracket,
    AngleBracket,
    Function,
    Class,
    Parameter,
    Paragraph,
}

#[derive(Debug, Clone, Copy, PartialEq, Eq, Structural)]
pub enum DirectKind {
    EnterMode(Mode),
    OpenPrompt(PromptKind),
    OpenLineBelow,
    OpenLineAbove,
    AppendAfterCursor,
    AppendAtLineEnd,
    InsertAtLineStart,
    ChangeToEol,
    DeleteToEol,
    YankLine,
    JoinLines,
    ToggleCase,
    SubstituteChar,
    SubstituteLine,
    ViewportCenter,
    ViewportTopAtCursor,
    ViewportBottomAtCursor,
    ReplaceChar { ch: char },
    Paste,
    Undo,
    Redo,
    DeleteCharUnderCursor,
    Quit,
    QuitForce,
    BufferNext,
    BufferPrev,
    BufferDelete,
    BufferDeleteForce,
    BufferDeleteAll,
    BufferList,
    NewScratchBuffer,
    SaveAndQuit,
    Save,
    SaveForce,
    Open,
    OpenLog,
    Reload,
    ReloadAll,
    GotoLine,
    GotoDefinition,
    GotoDeclaration,
    GotoImplementation,
    FindReferences,
    Rename,
    CodeAction,
    Hover,
    LspStatus,
    ToggleComment,
    RepeatLast,
    SearchSelectNext { reverse: bool },
    SearchWordKeep { forward: bool },
    ClearSearch,
    Substitute,
    MultiCursorAddNext,
    MultiCursorAddBelow,
    MultiCursorPop,
    MultiCursorClear,
    JumpLabel,
    SelectWholeBuffer,
    SplitWindowHorizontal,
    SplitWindowVertical,
    CloseWindow,
    GotoDiagnostic { forward: bool },
    FocusWindow { dir: FocusDir },
    CycleWindow,
    /// `<space>m a` — bookmark the current buffer and line.
    BookmarkAdd,
    /// `<space>m d` — drop the current buffer's bookmark.
    BookmarkRemoveCurrent,
}

/// Cardinal direction for [`DirectKind::FocusWindow`].
#[derive(Debug, Clone, Copy, PartialEq, Eq, Structural)]
pub enum FocusDir {
    Left,
    Right,
    Up,
    Down,
}

#[derive(Debug, Clone, Copy, PartialEq, Eq, Structural)]
pub enum PromptKind {
    Command,
    Search { forward: bool },
    Fuzzy(FuzzyKind),
    Explorer,
}

/// The semantic AST of one complete command.
#[derive(Debug, Clone, Copy, PartialEq, Eq, Structural)]
pub enum Expr {
    /// Standalone action, optionally repeated.
    Direct { kind: DirectKind, count: u32 },
    /// Cursor movement only.
    Motion(MotionExpr),
    /// Operator applied to a target.
    Op { op: Operator, target: Target, outer_count: u32 },
    /// `ys{target}{ch}`.
    SurroundAdd { target: Target, ch: char },
    /// `cs{from}{to}`.
    SurroundChange { from: char, to: char },
    /// `ds{ch}`.
    SurroundDelete { ch: char },
}

#[derive(Debug, Clone, Copy, PartialEq, Eq, Structural)]
pub struct MotionExpr {
    pub motion: MotionKind,
    pub count: u32,
}

/// Remembered parameters of a `FindChar` motion — what `;` / `,` replay.
#[derive(Debug, Clone, Copy, PartialEq, Eq, Structural)]
pub struct LastFind {
    pub ch: char,
    pub forward: bool,
    pub till: bool,
}

/// What `.` replays.
#[derive(Debug, Clone)]
pub enum LastChange {
    Expr(Expr),
    Insert { trigger: Expr, keys: Vec<InsertKey> },
}

/// Replay-able Insert-mode keystrokes.
#[derive(Debug, Clone, PartialEq, Eq)]
pub enum InsertKey {
    Char(char),
    Newline,
    Backspace,
    Dedent,
    /// A bracketed-paste payload.
    Paste(String),
}

#[derive(Debug, Clone, Copy, PartialEq, Eq, Structural)]
pub enum Target {
    /// `d3w` — motion `w` with count 3.
    Motion(MotionExpr),
    /// `dib` — a text object.
    TextObject { scope: Scope, object: Object },
    /// `dd`, `yy` — the current line, line-wise.
    LineWise,
    /// `dgn` / `cgn` — the next/previous search match.
    SearchMatch { reverse: bool },
}

/// Context passed to evaluators when an `Expr` fires: the argument of a
/// `:` command line and a separate count.
#[derive(Debug, Clone, Copy)]
pub struct Ctx<'a> {
    pub rest: &'a str,
    pub count: u32,
}

impl<'a> Ctx<'a> {
    pub fn with_rest(rest: &'a str) -> (r: Self)
        ensures
            r.rest == rest,
            r.count == 1,
    {
        Ctx { rest, count: 1 }
    }
}

impl<'a> Default for Ctx<'a> {
    fn default() -> (r: Self)
        ensures
            r.rest@ == ""@,
            r.count == 1,
    {
        Ctx { rest: "", count: 1 }
    }
}

/// An Insert-mode session being recorded for `.`.
#[derive(Debug)]
pub struct InsertRecording {
    pub trigger: Expr,
    pub keys: Vec<InsertKey>,
}

} // verus!
