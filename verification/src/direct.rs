//! The direct (non-operator) commands: what each one does as a plan, and
//! the decisions that depend on a few plain values: whether `:q` may
//! quit, where "add a cursor below" lands, how `:goto`, `:lsp`, `:s` and
//! the `:` command line read their arguments.

use vstd::prelude::*;

use crate::action::{DirectKind, Expr, FocusDir, FuzzyKind, Mode, PromptKind};
use crate::eval::spec_modifies_buffer;
use crate::buffer_ref::{BufferRef, RefView};
use crate::commands::parse_save_path;
use crate::operator::{comment_target_rows, spec_comment_rows};
use crate::commands::{format_dirty_list, ref_views, spec_dirty_list};
use crate::cursor::Cursor;
use crate::lsp_status::{plural, push_plural};
use crate::text::{decimal, push_decimal, push_str, str_chars, string_from_chars, trim, trim_chars};

verus! {

// ────────────────────────────────────────────────────────────────────────
// `:q`
// ────────────────────────────────────────────────────────────────────────

/// What a bare `:q` does.
#[derive(Debug)]
pub enum QuitPlan {
    Quit,
    /// Refused, with the error to show.
    Refuse(String),
}

/// The sleeping buffers marked dirty, in order.
pub open spec fn dirty_refs(s: Seq<(BufferRef, bool)>) -> Seq<RefView>
    decreases s.len(),
{
    if s.len() == 0 {
        Seq::empty()
    } else {
        dirty_refs(s.drop_last()) + if s.last().1 { seq![s.last().0@] } else { Seq::empty() }
    }
}

/// Plan the answer to a bare `:q`: refused while the active buffer or any
/// sleeping buffer (given with its dirty flag) has unsaved edits, naming
/// the sleeping ones; else quit.
pub fn plan_quit(active_dirty: bool, sleeping: &[(BufferRef, bool)]) -> (r: QuitPlan)
    ensures
        match r {
            QuitPlan::Quit => !active_dirty && dirty_refs(sleeping@).len() == 0,
            QuitPlan::Refuse(m) => if active_dirty {
                m@ == "unsaved changes (use :q!)"@
            } else {
                dirty_refs(sleeping@).len() > 0 && m@ == "unsaved changes in "@ + spec_dirty_list(
                    dirty_refs(sleeping@),
                ) + " (use :q!)"@
            },
        },
{
    if active_dirty {
        let m = "unsaved changes (use :q!)".to_string();
        return QuitPlan::Refuse(m);
    }
    let ghost all = sleeping@;
    let mut dirty: Vec<BufferRef> = Vec::new();
    let mut i: usize = 0;
    while i < sleeping.len()
        invariant
            i <= all.len(),
            all == sleeping@,
            ref_views(dirty@) == dirty_refs(all.take(i as int)),
        decreases all.len() - i,
    {
        assert(all.take(i + 1).drop_last() =~= all.take(i as int));
        assert(all.take(i + 1).last() == all[i as int]);
        if sleeping[i].1 {
            let ghost before = dirty@;
            let r = sleeping[i].0.duplicate();
            dirty.push(r);
            assert(ref_views(dirty@) =~= ref_views(before) + seq![all[i as int].0@]);
        } else {
            assert(dirty_refs(all.take(i + 1)) =~= dirty_refs(all.take(i as int)));
        }
        i = i + 1;
    }
    assert(all.take(all.len() as int) =~= all);
    if dirty.len() == 0 {
        return QuitPlan::Quit;
    }
    let mut m = "unsaved changes in ".to_string();
    let list = format_dirty_list(dirty.as_slice());
    push_str(&mut m, list.as_str());
    push_str(&mut m, " (use :q!)");
    proof {
        reveal_strlit("unsaved changes in ");
    }
    QuitPlan::Refuse(m)
}

// ────────────────────────────────────────────────────────────────────────
// A cursor on the next line
// ────────────────────────────────────────────────────────────────────────

/// Where "add a cursor below" goes.
#[derive(Debug, Clone, Copy, PartialEq, Eq)]
pub enum CursorBelow {
    /// The primary cursor is on the last line (an error: "no line below").
    NoLineBelow,
    /// The landing spot already holds a cursor ("cursor already there").
    Occupied,
    /// The old primary becomes an extra cursor and the primary moves here.
    Added(Cursor),
}

/// One line down at the same column, clamped to the last char of that
/// line (column 0 on an empty line).
pub open spec fn below(primary: Cursor, next_len: nat) -> Cursor {
    let last: int = if next_len == 0 { 0 } else { next_len - 1 };
    Cursor { row: (primary.row + 1) as usize, col: if primary.col <= last { primary.col } else { last as usize } }
}

/// Plan "add a cursor below" for the primary cursor, the buffer's lines
/// and the extra cursors.
pub fn plan_cursor_below(primary: Cursor, lines: &[String], extras: &[Cursor]) -> (r: CursorBelow)
    requires
        primary.row < usize::MAX,
    ensures
        primary.row + 1 >= lines@.len() ==> r == CursorBelow::NoLineBelow,
        primary.row + 1 < lines@.len() ==> {
            let next = below(primary, lines@[primary.row + 1]@.len());
            r == if next == primary || extras@.contains(next) {
                CursorBelow::Occupied
            } else {
                CursorBelow::Added(next)
            }
        },
{
    if primary.row + 1 >= lines.len() {
        return CursorBelow::NoLineBelow;
    }
    let next_row = primary.row + 1;
    let next_len = str_chars(lines[next_row].as_str()).len();
    let last = if next_len == 0 { 0 } else { next_len - 1 };
    let next = Cursor { row: next_row, col: if primary.col <= last { primary.col } else { last } };
    if next == primary {
        return CursorBelow::Occupied;
    }
    assert(next == below(primary, lines@[primary.row + 1]@.len()));
    let mut i: usize = 0;
    while i < extras.len()
        invariant
            i <= extras@.len(),
            primary.row + 1 < lines@.len(),
            next == below(primary, lines@[primary.row + 1]@.len()),
            next != primary,
            forall|j: int| 0 <= j < i ==> extras@[j] != next,
        decreases extras@.len() - i,
    {
        if extras[i] == next {
            assert(extras@[i as int] == next);
            return CursorBelow::Occupied;
        }
        i = i + 1;
    }
    CursorBelow::Added(next)
}

/// The status shown once there are `n` cursors: `"<n> cursors"`.
pub fn cursor_count_message(n: usize) -> (r: String)
    ensures
        r@ == decimal(n as nat) + " cursors"@,
{
    let mut s = String::new();
    push_decimal(&mut s, n as u64);
    push_str(&mut s, " cursors");
    assert(s@ =~= decimal(n as nat) + " cursors"@);
    s
}

// ────────────────────────────────────────────────────────────────────────
// Command arguments
// ────────────────────────────────────────────────────────────────────────

/// Whether every char of `s` is an ASCII digit.
pub open spec fn all_digits(s: Seq<char>) -> bool {
    forall|i: int| 0 <= i < s.len() ==> '0' <= #[trigger] s[i] && s[i] <= '9'
}

/// The number the ASCII digits `s` spell.
pub open spec fn digits_value(s: Seq<char>) -> nat
    decreases s.len(),
{
    if s.len() == 0 {
        0
    } else {
        digits_value(s.drop_last()) * 10 + ((s.last() as int) - 48) as nat
    }
}

/// The digits of an unsigned number as `str::parse` reads them: an
/// optional leading `+`, then the digits.
pub open spec fn unsigned_digits(s: Seq<char>) -> Seq<char> {
    if s.len() > 0 && s[0] == '+' { s.drop_first() } else { s }
}

/// What `s.parse::<usize>()` gives: the value when `s` is an optional
/// `+` followed by at least one ASCII digit and the value fits.
pub open spec fn parse_usize(s: Seq<char>) -> Option<nat> {
    let d = unsigned_digits(s);
    if d.len() > 0 && all_digits(d) && digits_value(d) <= usize::MAX {
        Some(digits_value(d))
    } else {
        None
    }
}

proof fn lemma_digits_value_grows(s: Seq<char>, i: int)
    requires
        0 <= i <= s.len(),
        all_digits(s),
    ensures
        digits_value(s.take(i)) <= digits_value(s),
    decreases s.len() - i,
{
    if i < s.len() {
        lemma_digits_value_grows(s, i + 1);
        assert(s.take(i + 1).drop_last() =~= s.take(i));
        assert('0' <= s[i]);
    } else {
        assert(s.take(i) =~= s);
    }
}

/// `rest.parse::<usize>()`: the number, when `rest` is one.
pub fn parse_usize_str(rest: &str) -> (r: Option<usize>)
    ensures
        match parse_usize(rest@) {
            Some(n) => r == Some(n as usize),
            None => r is None,
        },
{
    let cs = str_chars(rest);
    let ghost d = unsigned_digits(rest@);
    let start: usize = if cs.len() > 0 && cs[0] == '+' { 1 } else { 0 };
    assert(d =~= rest@.skip(start as int));
    if start >= cs.len() {
        return None;
    }
    let mut n: usize = 0;
    let mut i: usize = start;
    while i < cs.len()
        invariant
            cs@ == rest@,
            start <= i <= cs@.len(),
            d == cs@.skip(start as int),
            d == unsigned_digits(rest@),
            all_digits(d.take(i - start)),
            n == digits_value(d.take(i - start)),
        decreases cs@.len() - i,
    {
        let c = cs[i];
        assert(d[i - start] == c);
        assert(d.take(i + 1 - start).drop_last() =~= d.take(i - start));
        assert(d.take(i + 1 - start).last() == c);
        if !('0' <= c && c <= '9') {
            assert(!all_digits(d));
            return None;
        }
        let digit = (c as u32 - 48) as usize;
        assert(digit == (c as int) - 48);
        assert(digit <= 9);
        if n > (usize::MAX - digit) / 10 {
            proof {
                let m = usize::MAX - digit;
                assert(n * 10 + digit > usize::MAX) by (nonlinear_arith)
                    requires
                        n > m / 10,
                        m == usize::MAX - digit,
                        0 <= digit <= 9,
                ;
                assert(digits_value(d.take(i + 1 - start)) == n * 10 + digit);
                if all_digits(d) {
                    lemma_digits_value_grows(d, i + 1 - start);
                }
            }
            return None;
        }
        proof {
            let m = usize::MAX - digit;
            assert(n * 10 + digit <= usize::MAX) by (nonlinear_arith)
                requires
                    n <= m / 10,
                    m == usize::MAX - digit,
                    0 <= digit <= 9,
            ;
        }
        n = n * 10 + digit;
        assert forall|k: int| 0 <= k < d.take(i + 1 - start).len() implies '0' <= #[trigger] d.take(i + 1 - start)[k]
            && d.take(i + 1 - start)[k] <= '9' by {
            if k < i - start {
                assert(d.take(i + 1 - start)[k] == d.take(i - start)[k]);
            }
        }
        i = i + 1;
    }
    assert(d.take(cs.len() - start) =~= d);
    assert(d.len() > 0);
    Some(n)
}

/// The line `:goto` goes to: its argument read as a number, when that
/// is at least 1.
pub fn parse_goto_line(rest: &str) -> (r: Option<usize>)
    ensures
        match parse_usize(rest@) {
            Some(n) => if n >= 1 { r == Some(n as usize) } else { r is None },
            None => r is None,
        },
{
    match parse_usize_str(rest) {
        Some(n) => if n >= 1 { Some(n) } else { None },
        None => None,
    }
}

/// Whether the `:lsp` argument asks for every configured language
/// (`all` or `a`, surrounding whitespace ignored) rather than the
/// current buffer's.
pub fn lsp_status_all(rest: &str) -> (r: bool)
    ensures
        r == (trim(rest@) == "all"@ || trim(rest@) == "a"@),
{
    let cs = str_chars(rest);
    let t = trim_chars(&cs, 0, cs.len());
    assert(cs@.subrange(0, cs@.len() as int) =~= cs@);
    proof {
        reveal_strlit("all");
        reveal_strlit("a");
    }
    let r = (t.len() == 3 && t[0] == 'a' && t[1] == 'l' && t[2] == 'l') || (t.len() == 1 && t[0] == 'a');
    proof {
        if t@.len() == 3 && t@[0] == 'a' && t@[1] == 'l' && t@[2] == 'l' {
            assert(t@ =~= "all"@);
        }
        if t@.len() == 1 && t@[0] == 'a' {
            assert(t@ =~= "a"@);
        }
    }
    r
}

// ────────────────────────────────────────────────────────────────────────
// `:s`
// ────────────────────────────────────────────────────────────────────────

/// The pattern `:s` searches for: the one typed, or with an empty one the
/// last search pattern; an error when both are empty.
pub fn substitute_pattern(typed: &str, last_search: &str) -> (r: Result<String, String>)
    ensures
        typed@.len() > 0 ==> r.is_ok() && r->Ok_0@ == typed@,
        typed@.len() == 0 && last_search@.len() > 0 ==> r.is_ok() && r->Ok_0@ == last_search@,
        typed@.len() == 0 && last_search@.len() == 0 ==> r.is_err() && r->Err_0@
            == "no previous search pattern"@,
{
    let mut out = String::new();
    if typed.unicode_len() > 0 {
        push_str(&mut out, typed);
        assert(out@ =~= typed@);
        Ok(out)
    } else if last_search.unicode_len() > 0 {
        push_str(&mut out, last_search);
        assert(out@ =~= last_search@);
        Ok(out)
    } else {
        push_str(&mut out, "no previous search pattern");
        assert(out@ =~= "no previous search pattern"@);
        Err(out)
    }
}

/// `"<m> substitution(s) on <l> line(s)"`.
pub open spec fn substitution_summary_text(matches: nat, lines: nat) -> Seq<char> {
    decimal(matches) + " substitution"@ + plural(matches) + " on "@ + decimal(lines) + " line"@ + plural(lines)
}

/// What `:s` reports: `Err("pattern not found: <p>")` when nothing
/// matched, else the count of substitutions and of changed lines.
pub fn substitution_report(pattern: &str, matches: usize, lines_changed: usize) -> (r: Result<String, String>)
    ensures
        matches == 0 ==> r.is_err() && r->Err_0@ == "pattern not found: "@ + pattern@,
        matches > 0 ==> r.is_ok() && r->Ok_0@ == substitution_summary_text(matches as nat, lines_changed as nat),
{
    let mut s = String::new();
    if matches == 0 {
        push_str(&mut s, "pattern not found: ");
        push_str(&mut s, pattern);
        return Err(s);
    }
    push_decimal(&mut s, matches as u64);
    push_str(&mut s, " substitution");
    push_plural(&mut s, matches);
    push_str(&mut s, " on ");
    push_decimal(&mut s, lines_changed as u64);
    push_str(&mut s, " line");
    push_plural(&mut s, lines_changed);
    assert(s@ =~= substitution_summary_text(matches as nat, lines_changed as nat));
    Ok(s)
}

// ────────────────────────────────────────────────────────────────────────
// The `:` command line
// ────────────────────────────────────────────────────────────────────────

/// Index of the first space, or `-1`.
pub open spec fn first_space(s: Seq<char>) -> int
    decreases s.len(),
{
    if s.len() == 0 {
        -1
    } else if s[0] == ' ' {
        0
    } else {
        let r = first_space(s.drop_first());
        if r < 0 { -1 } else { r + 1 }
    }
}

proof fn lemma_first_space(s: Seq<char>)
    ensures
        -1 <= first_space(s) < s.len(),
        first_space(s) >= 0 ==> s[first_space(s)] == ' ',
        forall|j: int| 0 <= j < (if first_space(s) < 0 { s.len() as int } else { first_space(s) }) ==> #[trigger] s[j] != ' ',
    decreases s.len(),
{
    if s.len() > 0 && s[0] != ' ' {
        let t = s.drop_first();
        lemma_first_space(t);
        assert forall|j: int| 0 <= j < (if first_space(s) < 0 { s.len() as int } else { first_space(s) }) implies #[trigger] s[j]
            != ' ' by {
            if j > 0 {
                assert(s[j] == t[j - 1]);
            }
        }
    }
}

/// How a `:` command line reads before the command table is consulted
/// (a `:s/...` substitution is recognised before this).
#[derive(Debug, PartialEq, Eq)]
pub enum CommandLine {
    /// `:<n>`: a bare number goes to that line.
    GotoLine,
    /// Nothing before the first space: nothing happens.
    Empty,
    /// The command name (up to the first space) and its trimmed argument.
    Named { head: String, rest: String },
}

/// The head of a command line: everything up to the first space.
pub open spec fn command_head(cmd: Seq<char>) -> Seq<char> {
    let k = first_space(cmd);
    if k < 0 { cmd } else { cmd.take(k) }
}

/// The argument of a command line: what follows the first space, trimmed.
pub open spec fn command_rest(cmd: Seq<char>) -> Seq<char> {
    let k = first_space(cmd);
    if k < 0 { Seq::empty() } else { trim(cmd.skip(k + 1)) }
}

/// Read a `:` command line.
pub fn classify_command_line(cmd: &str) -> (r: CommandLine)
    ensures
        parse_usize(cmd@) is Some ==> r is GotoLine,
        parse_usize(cmd@) is None && command_head(cmd@).len() == 0 ==> r is Empty,
        parse_usize(cmd@) is None && command_head(cmd@).len() > 0 ==> (r matches CommandLine::Named { head, rest }
            && head@ == command_head(cmd@) && rest@ == command_rest(cmd@)),
{
    if parse_usize_str(cmd).is_some() {
        return CommandLine::GotoLine;
    }
    let cs = str_chars(cmd);
    proof {
        lemma_first_space(cs@);
    }
    let mut k: usize = 0;
    while k < cs.len() && cs[k] != ' '
        invariant
            k <= cs@.len(),
            cs@ == cmd@,
            forall|j: int| 0 <= j < k ==> #[trigger] cs@[j] != ' ',
        decreases cs@.len() - k,
    {
        k = k + 1;
    }
    proof {
        if k < cs@.len() {
            assert(first_space(cs@) == k) by {
                if first_space(cs@) >= 0 && first_space(cs@) < k {
                    assert(cs@[first_space(cs@)] != ' ');
                }
                if first_space(cs@) < 0 || first_space(cs@) > k {
                    assert(cs@[k as int] != ' ');
                }
            }
        } else {
            assert(first_space(cs@) < 0) by {
                if first_space(cs@) >= 0 {
                    assert(cs@[first_space(cs@)] != ' ');
                }
            }
        }
    }
    if k == 0 {
        assert(command_head(cmd@).len() == 0);
        return CommandLine::Empty;
    }
    let mut head: Vec<char> = Vec::new();
    let mut i: usize = 0;
    while i < k
        invariant
            i <= k <= cs@.len(),
            head@ == cs@.take(i as int),
        decreases k - i,
    {
        head.push(cs[i]);
        assert(head@ =~= cs@.take(i + 1));
        i = i + 1;
    }
    let rest: Vec<char> = if k < cs.len() {
        let t = trim_chars(&cs, k + 1, cs.len());
        assert(cs@.subrange(k + 1, cs@.len() as int) =~= cs@.skip(k + 1));
        t
    } else {
        assert(cs@.take(k as int) =~= cs@);
        Vec::new()
    };
    assert(head@ == command_head(cmd@));
    assert(rest@ == command_rest(cmd@));
    CommandLine::Named { head: string_from_chars(&head), rest: string_from_chars(&rest) }
}

/// What an unknown command name reports.
pub fn unknown_command_text(head: &str) -> (r: String)
    ensures
        r@ == "unknown command: "@ + head@,
{
    let mut s = String::new();
    push_str(&mut s, "unknown command: ");
    push_str(&mut s, head);
    s
}

// ────────────────────────────────────────────────────────────────────────
// The direct commands
// ────────────────────────────────────────────────────────────────────────

/// Where `zz` / `zt` / `zb` put the cursor line.
#[derive(Debug, Clone, Copy, PartialEq, Eq, Structural)]
pub enum ScrollAnchor {
    Center,
    Top,
    Bottom,
}

/// What a direct command does. Buffer edits name the command and how
/// many times to run it; the editor carries them out.
#[derive(Debug, Clone, PartialEq, Eq)]
pub enum DirectPlan {
    EnterMode(Mode),
    OpenPrompt(PromptKind),
    /// Run the buffer edit `kind` `times` times, then enter Insert mode
    /// when `then_insert`.
    Edit { kind: DirectKind, times: u32, then_insert: bool },
    /// `Np`: paste the register `count` times as one block.
    Paste { count: u32 },
    /// `r<ch>` `count` times: replace and step right each time, then step
    /// back onto the last replaced char.
    ReplaceChars { ch: char, times: u32 },
    /// `NY`: yank rows `lo..=hi` as one run, send to the clipboard, say
    /// "yanked".
    YankLines { lo: usize, hi: usize },
    Scroll(ScrollAnchor),
    /// `u` / `<C-r>`: "already at oldest/newest change" when nothing moves.
    Undo,
    Redo,
    /// `:q`: quit unless a buffer has unsaved changes (see [`plan_quit`]).
    QuitChecked,
    Quit,
    BufferCycle { forward: bool },
    BufferDelete { force: bool },
    BufferDeleteAll,
    NewScratchBuffer,
    Save { path: Option<String>, then_quit: bool, force: bool },
    OpenPath(String),
    OpenLog,
    Reload,
    ReloadAll,
    GotoLine(usize),
    LspJump { method: String, label: String },
    FindReferences,
    OpenRenamePrompt,
    CodeAction,
    Hover,
    LspStatus { all: bool },
    CommentLines { rows: Vec<usize> },
    SearchSelectMatch { reverse: bool },
    /// `g*` / `g#`: search the word under the cursor without jumping.
    WordSearchKeep { forward: bool },
    ClearSearch,
    /// `:s`: run the substitution on the argument (see
    /// [`substitute_pattern`], [`substitution_report`]).
    Substitute,
    AddNextCursor,
    AddCursorBelow,
    /// Pop the newest extra cursor into the primary.
    PopCursor,
    /// Drop all `n` extra cursors; says "cleared <n> extra cursors".
    ClearCursors { n: usize },
    StartJumpLabel,
    SelectWholeBuffer,
    SplitWindow { vertical: bool },
    CloseWindow,
    GotoDiagnostic { forward: bool, count: u32 },
    FocusWindow { dir: FocusDir },
    CycleWindow,
    BookmarkAdd,
    BookmarkRemoveCurrent,
    /// Nothing happens but this message (an info or an error).
    Message { error: bool, text: String },
}

/// The rows `NY` yanks from `row`: `max(count, 1)` rows, cut at the last.
pub open spec fn yank_span(row: usize, line_count: usize, count: u32) -> (usize, usize) {
    let span: int = if count == 0 { 0 } else { count - 1 };
    let last: int = if line_count == 0 { 0 } else { line_count - 1 };
    (row, (if row + span <= last { row + span } else { last }) as usize)
}

/// The edits that run once per count, and whether they end in Insert mode.
pub open spec fn counted_edit(k: DirectKind) -> Option<bool> {
    match k {
        DirectKind::JoinLines | DirectKind::ToggleCase | DirectKind::DeleteCharUnderCursor => Some(false),
        DirectKind::SubstituteChar => Some(true),
        _ => None,
    }
}

/// The edits that run once, and whether they end in Insert mode.
pub open spec fn single_edit(k: DirectKind) -> Option<bool> {
    match k {
        DirectKind::OpenLineBelow | DirectKind::OpenLineAbove | DirectKind::AppendAfterCursor
        | DirectKind::AppendAtLineEnd | DirectKind::InsertAtLineStart | DirectKind::ChangeToEol
        | DirectKind::SubstituteLine => Some(true),
        DirectKind::DeleteToEol => Some(false),
        _ => None,
    }
}

/// The plan for the commands whose plan needs no string: everything but
/// saving, opening, `:goto`, the LSP jumps, comments and cursor clearing.
pub open spec fn simple_direct_plan(kind: DirectKind, count: u32, cursor_row: usize, line_count: usize) -> Option<DirectPlan> {
    match kind {
        DirectKind::EnterMode(m) => Some(DirectPlan::EnterMode(m)),
        DirectKind::OpenPrompt(k) => Some(DirectPlan::OpenPrompt(k)),
        DirectKind::YankLine => {
            let (lo, hi) = yank_span(cursor_row, line_count, count);
            Some(DirectPlan::YankLines { lo, hi })
        },
        DirectKind::ReplaceChar { ch } => Some(DirectPlan::ReplaceChars { ch, times: count }),
        DirectKind::Paste => Some(DirectPlan::Paste { count }),
        DirectKind::ViewportCenter => Some(DirectPlan::Scroll(ScrollAnchor::Center)),
        DirectKind::ViewportTopAtCursor => Some(DirectPlan::Scroll(ScrollAnchor::Top)),
        DirectKind::ViewportBottomAtCursor => Some(DirectPlan::Scroll(ScrollAnchor::Bottom)),
        DirectKind::Undo => Some(DirectPlan::Undo),
        DirectKind::Redo => Some(DirectPlan::Redo),
        DirectKind::Quit => Some(DirectPlan::QuitChecked),
        DirectKind::QuitForce => Some(DirectPlan::Quit),
        DirectKind::BufferNext => Some(DirectPlan::BufferCycle { forward: true }),
        DirectKind::BufferPrev => Some(DirectPlan::BufferCycle { forward: false }),
        DirectKind::BufferDelete => Some(DirectPlan::BufferDelete { force: false }),
        DirectKind::BufferDeleteForce => Some(DirectPlan::BufferDelete { force: true }),
        DirectKind::BufferDeleteAll => Some(DirectPlan::BufferDeleteAll),
        DirectKind::BufferList => Some(DirectPlan::OpenPrompt(PromptKind::Fuzzy(FuzzyKind::Buffers))),
        DirectKind::NewScratchBuffer => Some(DirectPlan::NewScratchBuffer),
        DirectKind::OpenLog => Some(DirectPlan::OpenLog),
        DirectKind::Reload => Some(DirectPlan::Reload),
        DirectKind::ReloadAll => Some(DirectPlan::ReloadAll),
        DirectKind::FindReferences => Some(DirectPlan::FindReferences),
        DirectKind::Rename => Some(DirectPlan::OpenRenamePrompt),
        DirectKind::CodeAction => Some(DirectPlan::CodeAction),
        DirectKind::Hover => Some(DirectPlan::Hover),
        DirectKind::SearchSelectNext { reverse } => Some(DirectPlan::SearchSelectMatch { reverse }),
        DirectKind::SearchWordKeep { forward } => Some(DirectPlan::WordSearchKeep { forward }),
        DirectKind::ClearSearch => Some(DirectPlan::ClearSearch),
        DirectKind::Substitute => Some(DirectPlan::Substitute),
        DirectKind::MultiCursorAddNext => Some(DirectPlan::AddNextCursor),
        DirectKind::MultiCursorAddBelow => Some(DirectPlan::AddCursorBelow),
        DirectKind::JumpLabel => Some(DirectPlan::StartJumpLabel),
        DirectKind::SelectWholeBuffer => Some(DirectPlan::SelectWholeBuffer),
        DirectKind::SplitWindowHorizontal => Some(DirectPlan::SplitWindow { vertical: false }),
        DirectKind::SplitWindowVertical => Some(DirectPlan::SplitWindow { vertical: true }),
        DirectKind::CloseWindow => Some(DirectPlan::CloseWindow),
        DirectKind::GotoDiagnostic { forward } => Some(DirectPlan::GotoDiagnostic { forward, count }),
        DirectKind::FocusWindow { dir } => Some(DirectPlan::FocusWindow { dir }),
        DirectKind::CycleWindow => Some(DirectPlan::CycleWindow),
        DirectKind::BookmarkAdd => Some(DirectPlan::BookmarkAdd),
        DirectKind::BookmarkRemoveCurrent => Some(DirectPlan::BookmarkRemoveCurrent),
        _ => match counted_edit(kind) {
            Some(ins) => Some(DirectPlan::Edit { kind, times: count, then_insert: ins }),
            None => match single_edit(kind) {
                Some(ins) => Some(DirectPlan::Edit { kind, times: 1, then_insert: ins }),
                None => None,
            },
        },
    }
}

fn text(s: &str) -> (r: String)
    ensures
        r@ == s@,
{
    let mut t = String::new();
    push_str(&mut t, s);
    t
}

/// Whether `p` is a save with this path argument and flags.
pub open spec fn is_save(p: DirectPlan, rest: Seq<char>, quit: bool, forced: bool) -> bool {
    match p {
        DirectPlan::Save { path, then_quit, force } => then_quit == quit && force == forced && match path {
            Some(q) => rest.len() > 0 && q@ == rest,
            None => rest.len() == 0,
        },
        _ => false,
    }
}

/// Whether `p` only says `text` (as an error when `error`).
pub open spec fn is_message(p: DirectPlan, err: bool, t: Seq<char>) -> bool {
    match p {
        DirectPlan::Message { error, text } => error == err && text@ == t,
        _ => false,
    }
}

/// Whether `p` is the LSP jump with this method and label.
pub open spec fn is_lsp_jump(p: DirectPlan, m: Seq<char>, l: Seq<char>) -> bool {
    match p {
        DirectPlan::LspJump { method, label } => method@ == m && label@ == l,
        _ => false,
    }
}

/// What [`plan_direct`] gives for each command.
pub open spec fn plans_direct(
    r: DirectPlan,
    kind: DirectKind,
    count: u32,
    rest: Seq<char>,
    cursor_row: usize,
    line_count: usize,
    extras: Seq<Cursor>,
) -> bool {
    match simple_direct_plan(kind, count, cursor_row, line_count) {
        Some(p) => r == p,
        None => match kind {
            DirectKind::SaveAndQuit => is_save(r, rest, true, false),
            DirectKind::Save => is_save(r, rest, false, false),
            DirectKind::SaveForce => is_save(r, rest, false, true),
            DirectKind::Open => if rest.len() == 0 {
                is_message(r, true, "missing path"@)
            } else {
                r matches DirectPlan::OpenPath(p) && p@ == rest
            },
            DirectKind::GotoLine => match parse_usize(rest) {
                Some(n) => if n >= 1 {
                    r == DirectPlan::GotoLine(n as usize)
                } else {
                    is_message(r, true, "usage: :goto <line>"@)
                },
                None => is_message(r, true, "usage: :goto <line>"@),
            },
            DirectKind::GotoDefinition => is_lsp_jump(r, "textDocument/definition"@, "definition"@),
            DirectKind::GotoDeclaration => is_lsp_jump(r, "textDocument/declaration"@, "declaration"@),
            DirectKind::GotoImplementation => is_lsp_jump(r, "textDocument/implementation"@, "implementation"@),
            DirectKind::LspStatus => r == DirectPlan::LspStatus { all: trim(rest) == "all"@ || trim(rest) == "a"@ },
            DirectKind::ToggleComment => r matches DirectPlan::CommentLines { rows } && rows@ == spec_comment_rows(
                cursor_row as nat,
                line_count as nat,
                count as nat,
                extras,
            ),
            DirectKind::MultiCursorPop => if extras.len() > 0 {
                r == DirectPlan::PopCursor
            } else {
                is_message(r, false, "no extra cursor to remove"@)
            },
            DirectKind::MultiCursorClear => if extras.len() > 0 {
                r == DirectPlan::ClearCursors { n: extras.len() as usize }
            } else {
                is_message(r, false, "no extra cursors"@)
            },
            // `.` is replayed before a plan is made.
            _ => false,
        },
    }
}

/// Plan a direct command with its count, the `:` argument `rest`, the
/// primary cursor's row, the buffer's line count and the extra cursors.
/// (`.` is replayed before it gets here.)
pub fn plan_direct(
    kind: DirectKind,
    count: u32,
    rest: &str,
    cursor_row: usize,
    line_count: usize,
    extras: &[Cursor],
) -> (r: DirectPlan)
    requires
        kind != DirectKind::RepeatLast,
    ensures
        plans_direct(r, kind, count, rest@, cursor_row, line_count, extras@),
{
    match kind {
        DirectKind::EnterMode(m) => DirectPlan::EnterMode(m),
        DirectKind::OpenPrompt(k) => DirectPlan::OpenPrompt(k),
        DirectKind::YankLine => {
            let span: usize = if count == 0 { 0 } else { (count - 1) as usize };
            let last: usize = if line_count == 0 { 0 } else { line_count - 1 };
            let hi = if cursor_row <= last && span <= last - cursor_row { cursor_row + span } else { last };
            DirectPlan::YankLines { lo: cursor_row, hi }
        },
        DirectKind::ReplaceChar { ch } => DirectPlan::ReplaceChars { ch, times: count },
        DirectKind::Paste => DirectPlan::Paste { count },
        DirectKind::ViewportCenter => DirectPlan::Scroll(ScrollAnchor::Center),
        DirectKind::ViewportTopAtCursor => DirectPlan::Scroll(ScrollAnchor::Top),
        DirectKind::ViewportBottomAtCursor => DirectPlan::Scroll(ScrollAnchor::Bottom),
        DirectKind::Undo => DirectPlan::Undo,
        DirectKind::Redo => DirectPlan::Redo,
        DirectKind::Quit => DirectPlan::QuitChecked,
        DirectKind::QuitForce => DirectPlan::Quit,
        DirectKind::BufferNext => DirectPlan::BufferCycle { forward: true },
        DirectKind::BufferPrev => DirectPlan::BufferCycle { forward: false },
        DirectKind::BufferDelete => DirectPlan::BufferDelete { force: false },
        DirectKind::BufferDeleteForce => DirectPlan::BufferDelete { force: true },
        DirectKind::BufferDeleteAll => DirectPlan::BufferDeleteAll,
        DirectKind::BufferList => DirectPlan::OpenPrompt(PromptKind::Fuzzy(FuzzyKind::Buffers)),
        DirectKind::NewScratchBuffer => DirectPlan::NewScratchBuffer,
        DirectKind::SaveAndQuit => DirectPlan::Save { path: parse_save_path(rest), then_quit: true, force: false },
        DirectKind::Save => DirectPlan::Save { path: parse_save_path(rest), then_quit: false, force: false },
        DirectKind::SaveForce => DirectPlan::Save { path: parse_save_path(rest), then_quit: false, force: true },
        DirectKind::Open => match parse_save_path(rest) {
            None => DirectPlan::Message { error: true, text: text("missing path") },
            Some(p) => DirectPlan::OpenPath(p),
        },
        DirectKind::OpenLog => DirectPlan::OpenLog,
        DirectKind::Reload => DirectPlan::Reload,
        DirectKind::ReloadAll => DirectPlan::ReloadAll,
        DirectKind::GotoLine => match parse_goto_line(rest) {
            Some(n) => DirectPlan::GotoLine(n),
            None => DirectPlan::Message { error: true, text: text("usage: :goto <line>") },
        },
        DirectKind::GotoDefinition => DirectPlan::LspJump {
            method: text("textDocument/definition"),
            label: text("definition"),
        },
        DirectKind::GotoDeclaration => DirectPlan::LspJump {
            method: text("textDocument/declaration"),
            label: text("declaration"),
        },
        DirectKind::GotoImplementation => DirectPlan::LspJump {
            method: text("textDocument/implementation"),
            label: text("implementation"),
        },
        DirectKind::FindReferences => DirectPlan::FindReferences,
        DirectKind::Rename => DirectPlan::OpenRenamePrompt,
        DirectKind::CodeAction => DirectPlan::CodeAction,
        DirectKind::Hover => DirectPlan::Hover,
        DirectKind::LspStatus => DirectPlan::LspStatus { all: lsp_status_all(rest) },
        DirectKind::ToggleComment => DirectPlan::CommentLines {
            rows: comment_target_rows(cursor_row, line_count, count, extras),
        },
        DirectKind::SearchSelectNext { reverse } => DirectPlan::SearchSelectMatch { reverse },
        DirectKind::SearchWordKeep { forward } => DirectPlan::WordSearchKeep { forward },
        DirectKind::ClearSearch => DirectPlan::ClearSearch,
        DirectKind::Substitute => DirectPlan::Substitute,
        DirectKind::MultiCursorAddNext => DirectPlan::AddNextCursor,
        DirectKind::MultiCursorAddBelow => DirectPlan::AddCursorBelow,
        DirectKind::MultiCursorPop => if extras.len() > 0 {
            DirectPlan::PopCursor
        } else {
            DirectPlan::Message { error: false, text: text("no extra cursor to remove") }
        },
        DirectKind::MultiCursorClear => if extras.len() > 0 {
            DirectPlan::ClearCursors { n: extras.len() }
        } else {
            DirectPlan::Message { error: false, text: text("no extra cursors") }
        },
        DirectKind::JumpLabel => DirectPlan::StartJumpLabel,
        DirectKind::SelectWholeBuffer => DirectPlan::SelectWholeBuffer,
        DirectKind::SplitWindowHorizontal => DirectPlan::SplitWindow { vertical: false },
        DirectKind::SplitWindowVertical => DirectPlan::SplitWindow { vertical: true },
        DirectKind::CloseWindow => DirectPlan::CloseWindow,
        DirectKind::GotoDiagnostic { forward } => DirectPlan::GotoDiagnostic { forward, count },
        DirectKind::FocusWindow { dir } => DirectPlan::FocusWindow { dir },
        DirectKind::CycleWindow => DirectPlan::CycleWindow,
        DirectKind::BookmarkAdd => DirectPlan::BookmarkAdd,
        DirectKind::BookmarkRemoveCurrent => DirectPlan::BookmarkRemoveCurrent,
        DirectKind::JoinLines | DirectKind::ToggleCase | DirectKind::DeleteCharUnderCursor => DirectPlan::Edit {
            kind,
            times: count,
            then_insert: false,
        },
        DirectKind::SubstituteChar => DirectPlan::Edit { kind, times: count, then_insert: true },
        DirectKind::DeleteToEol => DirectPlan::Edit { kind, times: 1, then_insert: false },
        _ => DirectPlan::Edit { kind, times: 1, then_insert: true },
    }
}

/// What `<C-x>`-style "clear the extra cursors" says.
pub fn cleared_cursors_text(n: usize) -> (r: String)
    ensures
        r@ == "cleared "@ + decimal(n as nat) + " extra cursors"@,
{
    let mut s = String::new();
    push_str(&mut s, "cleared ");
    push_decimal(&mut s, n as u64);
    push_str(&mut s, " extra cursors");
    s
}

/// Law: every direct command whose plan edits the buffer text (an edit
/// such as `x`, `o`, `J`, `~`, `s`, `C`, `D`; a paste; a char
/// replacement; a substitution) counts as modifying the buffer, so it
/// takes an undo snapshot and is what `.` repeats.
pub proof fn law_buffer_edits_modify_the_buffer(
    r: DirectPlan,
    kind: DirectKind,
    count: u32,
    rest: Seq<char>,
    cursor_row: usize,
    line_count: usize,
    extras: Seq<Cursor>,
)
    requires
        plans_direct(r, kind, count, rest, cursor_row, line_count, extras),
    ensures
        (r is Edit || r is Paste || r is ReplaceChars || r is Substitute) ==> spec_modifies_buffer((Expr::Direct { kind, count })),
{
}

/// Law: a count repeats the counted edits: `<n>x`, `<n>J`, `<n>~` and
/// `<n>s` run their edit `n` times (`s` then enters Insert mode),
/// `<n>p` pastes `n` copies, `<n>r<ch>` replaces `n` chars.
pub proof fn law_counts_repeat_edits(
    r: DirectPlan,
    kind: DirectKind,
    count: u32,
    rest: Seq<char>,
    cursor_row: usize,
    line_count: usize,
    extras: Seq<Cursor>,
)
    requires
        plans_direct(r, kind, count, rest, cursor_row, line_count, extras),
    ensures
        kind == DirectKind::DeleteCharUnderCursor ==> r == (DirectPlan::Edit { kind, times: count, then_insert: false }),
        kind == DirectKind::JoinLines ==> r == (DirectPlan::Edit { kind, times: count, then_insert: false }),
        kind == DirectKind::ToggleCase ==> r == (DirectPlan::Edit { kind, times: count, then_insert: false }),
        kind == DirectKind::SubstituteChar ==> r == (DirectPlan::Edit { kind, times: count, then_insert: true }),
        kind == DirectKind::Paste ==> r == (DirectPlan::Paste { count }),
        kind matches DirectKind::ReplaceChar { ch } ==> r == (DirectPlan::ReplaceChars { ch, times: count }),
{
}

} // verus!
