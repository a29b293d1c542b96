//! Copilot inline-completion bookkeeping: which request an incoming
//! response answers, the known auth state, and trimming the part of a
//! completion the user has already typed.

use std::collections::HashMap;

use vstd::prelude::*;
use vstd::std_specs::hash::*;

use crate::cursor::Cursor;
use crate::reload::Report;
use crate::text::{push_str, str_chars, string_from_chars};

verus! {

broadcast use vstd::std_specs::hash::group_hash_axioms;

/// The LSP range an inline completion replaces (0-based lines, char
/// columns).
#[derive(Debug, Clone, Copy, PartialEq, Eq, Structural)]
pub struct ReplaceRange {
    pub start_line: u32,
    pub start_character: u32,
    pub end_line: u32,
    pub end_character: u32,
}

/// One inline completion as the server sent it: the text to insert and
/// the range it replaces, if any.
#[derive(Debug, Clone)]
pub struct InlineCompletionRaw {
    pub text: String,
    pub range: Option<ReplaceRange>,
}

/// The chars of `line` that `Iterator::skip(start).take(end - start)`
/// yields: `line[start..end]`, clipped to the line.
pub open spec fn clipped(line: Seq<char>, start: int, end: int) -> Seq<char> {
    if start >= line.len() {
        Seq::empty()
    } else if end >= line.len() {
        line.subrange(start, line.len() as int)
    } else {
        line.subrange(start, end)
    }
}

/// Whether the replace range is the single-line, ends-at-anchor shape
/// whose prefix can be trimmed.
pub open spec fn trimmable(r: ReplaceRange, anchor: Cursor) -> bool {
    &&& r.start_line == r.end_line
    &&& r.end_line as int == anchor.row as int
    &&& r.end_character as int == anchor.col as int
    &&& r.start_character as int <= anchor.col as int
}

/// What is left of a completion once the already-typed prefix is cut.
/// `None`: the anchor row is not in the buffer, or the completion does
/// not begin with what the buffer shows in the replaced range.
pub open spec fn spec_strip(text: Seq<char>, range: Option<ReplaceRange>, anchor: Cursor, lines: Seq<Seq<char>>) -> Option<Seq<char>> {
    match range {
        None => Some(text),
        Some(r) => if !trimmable(r, anchor) {
            Some(text)
        } else if anchor.row >= lines.len() {
            None
        } else {
            let prefix = clipped(lines[anchor.row as int], r.start_character as int, anchor.col as int);
            if prefix.len() <= text.len() && text.take(prefix.len() as int) == prefix {
                Some(text.skip(prefix.len() as int))
            } else {
                None
            }
        },
    }
}

/// Trim the prefix of `raw.text` the user has already typed at the
/// request anchor. Ranges that are multi-line, backwards or do not end at
/// the anchor leave the text as it is.
pub fn strip_already_typed(raw: &InlineCompletionRaw, anchor: Cursor, lines: &[String]) -> (r: Option<String>)
    ensures
        match spec_strip(raw.text@, raw.range, anchor, lines@.map_values(|s: String| s@)) {
            Some(t) => r matches Some(s) && s@ == t,
            None => r is None,
        },
{
    let ghost views = lines@.map_values(|s: String| s@);
    let range = match raw.range {
        None => {
            return Some(raw.text.clone());
        },
        Some(r) => r,
    };
    if range.start_line != range.end_line || range.end_line as usize != anchor.row || range.end_character
        as usize != anchor.col || (range.start_character as usize) > anchor.col {
        return Some(raw.text.clone());
    }
    if anchor.row >= lines.len() {
        return None;
    }
    let line = str_chars(lines[anchor.row].as_str());
    assert(line@ == views[anchor.row as int]);
    let start = range.start_character as usize;
    let end = anchor.col;
    let stop = if end < line.len() { end } else { line.len() };
    let ghost prefix = clipped(line@, start as int, end as int);
    let text = str_chars(raw.text.as_str());
    // Compare the clipped line slice against the head of the completion.
    let mut i: usize = start;
    let mut k: usize = 0;
    if start < line.len() {
        while i < stop
            invariant
                start <= i <= stop <= line@.len(),
                start < line@.len(),
                k == i - start,
                prefix == line@.subrange(start as int, stop as int),
                prefix == clipped(line@, start as int, end as int),
                views == lines@.map_values(|s: String| s@),
                anchor.row < views.len(),
                views[anchor.row as int] == line@,
                raw.range == Some(range),
                trimmable(range, anchor),
                start == range.start_character,
                end == anchor.col,
                text@ == raw.text@,
                k <= text@.len(),
                text@.take(k as int) == line@.subrange(start as int, i as int),
            decreases stop - i,
        {
            if k >= text.len() || text[k] != line[i] {
                proof {
                    if k < text@.len() {
                        assert(text@[k as int] != prefix[k as int]);
                    }
                    assert(!(prefix.len() <= text@.len() && text@.take(prefix.len() as int) == prefix)) by {
                        if prefix.len() <= text@.len() && text@.take(prefix.len() as int) == prefix {
                            assert(text@.take(prefix.len() as int)[k as int] == text@[k as int]);
                        }
                    }
                }
                return None;
            }
            assert(text@.take(k + 1) =~= line@.subrange(start as int, i + 1));
            i = i + 1;
            k = k + 1;
        }
    } else {
        assert(prefix =~= Seq::<char>::empty());
        assert(text@.take(0) =~= prefix);
    }
    assert(k == prefix.len());
    assert(text@.take(k as int) =~= prefix);
    let mut rest: Vec<char> = Vec::new();
    let mut j: usize = k;
    while j < text.len()
        invariant
            k <= j <= text@.len(),
            rest@ == text@.subrange(k as int, j as int),
        decreases text@.len() - j,
    {
        rest.push(text[j]);
        assert(rest@ =~= text@.subrange(k as int, j + 1));
        j = j + 1;
    }
    assert(rest@ =~= text@.skip(k as int));
    Some(string_from_chars(rest.as_slice()))
}

/// What an outstanding Copilot request was for.
#[derive(Debug, Clone, Copy, PartialEq, Eq, Structural)]
pub enum CopilotRequestKind {
    InlineCompletion,
    CheckStatus,
    SignInInitiate,
    SignInConfirm,
    SignOut,
}

/// Known auth state of the Copilot client. `Unknown` until the first
/// status reply arrives.
#[derive(Debug, Clone)]
pub enum CopilotAuthState {
    Unknown,
    SignedIn { user: Option<String> },
    NotSignedIn,
    NotAuthorized { reason: Option<String> },
}

impl Default for CopilotAuthState {
    fn default() -> (r: CopilotAuthState)
        ensures
            r is Unknown,
    {
        CopilotAuthState::Unknown
    }
}

impl CopilotAuthState {
    /// Whether inline completions may be requested.
    pub fn signed_in(&self) -> (r: bool)
        ensures
            r == (*self is SignedIn),
    {
        match self {
            CopilotAuthState::SignedIn { .. } => true,
            _ => false,
        }
    }
}

/// Outstanding requests by id, so a response can be routed back to the
/// kind of request that fired it.
pub struct CopilotPending {
    inner: HashMap<u64, CopilotRequestKind>,
}

impl View for CopilotPending {
    type V = Map<u64, CopilotRequestKind>;

    closed spec fn view(&self) -> Map<u64, CopilotRequestKind> {
        self.inner@
    }
}

impl Default for CopilotPending {
    fn default() -> (r: CopilotPending)
        ensures
            r@ == Map::<u64, CopilotRequestKind>::empty(),
    {
        CopilotPending { inner: HashMap::new() }
    }
}

impl CopilotPending {
    /// Record that request `id` is a `kind` request (replacing any
    /// earlier record for the same id).
    pub fn insert(&mut self, id: u64, kind: CopilotRequestKind)
        ensures
            final(self)@ == old(self)@.insert(id, kind),
    {
        self.inner.insert(id, kind);
    }

    /// Remove and return the record for `id`, if any.
    pub fn take(&mut self, id: u64) -> (r: Option<CopilotRequestKind>)
        ensures
            final(self)@ == old(self)@.remove(id),
            r == (if old(self)@.contains_key(id) { Some(old(self)@[id]) } else { None }),
    {
        self.inner.remove(&id)
    }
}

/// Taking an id right after inserting it gives back the kind inserted,
/// and leaves the other records as they were.
pub proof fn law_take_after_insert(before: Map<u64, CopilotRequestKind>, id: u64, kind: CopilotRequestKind)
    ensures
        before.insert(id, kind).contains_key(id),
        before.insert(id, kind)[id] == kind,
        before.insert(id, kind).remove(id) == before.remove(id),
{
    assert(before.insert(id, kind).remove(id) =~= before.remove(id));
}

/// What the trim keeps, put after what the buffer shows in the replaced
/// range, is the whole completion: only the already-typed prefix is cut.
pub proof fn law_strip_keeps_the_suffix(text: Seq<char>, r: ReplaceRange, anchor: Cursor, lines: Seq<Seq<char>>)
    requires
        trimmable(r, anchor),
        anchor.row < lines.len(),
        spec_strip(text, Some(r), anchor, lines) is Some,
    ensures
        clipped(lines[anchor.row as int], r.start_character as int, anchor.col as int) + spec_strip(
            text,
            Some(r),
            anchor,
            lines,
        )->0 == text,
{
    let prefix = clipped(lines[anchor.row as int], r.start_character as int, anchor.col as int);
    assert(prefix + text.skip(prefix.len() as int) =~= text);
}

/// What a `checkStatus` (or `signInConfirm`) reply says about the user.
#[derive(Debug, Clone)]
pub enum CheckStatus {
    SignedIn { user: Option<String> },
    NotSignedIn,
    NotAuthorized { reason: Option<String> },
    /// A status string this client does not know.
    Other(String),
}

/// The auth state after a background `checkStatus` reply: an error or an
/// unreadable / unknown status leaves the state unknown.
pub fn auth_after_check_status(status: Option<CheckStatus>, error: Option<String>) -> (r: CopilotAuthState)
    ensures
        error is Some ==> r is Unknown,
        error is None ==> match status {
            Some(CheckStatus::SignedIn { user }) => r matches CopilotAuthState::SignedIn { user: u } && u == user,
            Some(CheckStatus::NotSignedIn) => r is NotSignedIn,
            Some(CheckStatus::NotAuthorized { reason }) => r matches CopilotAuthState::NotAuthorized { reason: q } && q
                == reason,
            _ => r is Unknown,
        },
{
    if error.is_some() {
        return CopilotAuthState::Unknown;
    }
    match status {
        Some(CheckStatus::SignedIn { user }) => CopilotAuthState::SignedIn { user },
        Some(CheckStatus::NotSignedIn) => CopilotAuthState::NotSignedIn,
        Some(CheckStatus::NotAuthorized { reason }) => CopilotAuthState::NotAuthorized { reason },
        _ => CopilotAuthState::Unknown,
    }
}

/// The auth state after a `signInConfirm` reply: a sign-in or a refusal
/// is recorded; an error, a timeout (`NotSignedIn`) or anything else
/// leaves `current` as it was.
pub fn auth_after_sign_in_confirm(current: CopilotAuthState, status: Option<CheckStatus>, error: Option<String>) -> (r: CopilotAuthState)
    ensures
        error is Some ==> r == current,
        error is None ==> match status {
            Some(CheckStatus::SignedIn { user }) => r matches CopilotAuthState::SignedIn { user: u } && u == user,
            Some(CheckStatus::NotAuthorized { reason }) => r matches CopilotAuthState::NotAuthorized { reason: q } && q
                == reason,
            _ => r == current,
        },
{
    if error.is_some() {
        return current;
    }
    match status {
        Some(CheckStatus::SignedIn { user }) => CopilotAuthState::SignedIn { user },
        Some(CheckStatus::NotAuthorized { reason }) => CopilotAuthState::NotAuthorized { reason },
        _ => current,
    }
}

/// What an inline-completion reply does to the ghost-text suggestion.
#[derive(Debug, Clone)]
pub enum InlineOutcome {
    /// Leave the suggestion state as it is (a stale reply).
    Keep,
    /// Drop the pending request's suggestion.
    Dismiss,
    /// Show this text as ghost text at the request's anchor.
    Show(String),
}

/// The suggestion change a reply to request `id` calls for. `pending` is
/// the request the editor waits on and its anchor, if any; `raw` the
/// parsed completion (`None` when the reply had none); `error` whether
/// the server answered with an error.
pub open spec fn spec_inline_outcome(
    pending: Option<(u64, Cursor)>,
    id: u64,
    cursor: Cursor,
    raw: Option<(Seq<char>, Option<ReplaceRange>)>,
    error: bool,
    lines: Seq<Seq<char>>,
) -> Option<Seq<char>> {
    // `None`: keep or dismiss (see `inline_dismisses`); `Some(t)`: show `t`.
    if error || raw is None {
        None
    } else {
        match pending {
            Some((pid, anchor)) => if pid == id && cursor == anchor {
                let (text, range) = raw->0;
                match spec_strip(text, range, anchor, lines) {
                    Some(t) => if t.len() > 0 { Some(t) } else { None },
                    None => None,
                }
            } else {
                None
            },
            None => None,
        }
    }
}

/// Whether the reply dismisses the pending suggestion (when it shows
/// nothing): an error or empty reply dismisses only the request it
/// answers; a current reply dismisses when nothing is left to show; a
/// stale one changes nothing.
pub open spec fn inline_dismisses(pending: Option<(u64, Cursor)>, id: u64, cursor: Cursor, raw_present: bool, error: bool) -> bool {
    match pending {
        Some((pid, anchor)) => if error || !raw_present {
            pid == id
        } else {
            pid == id && cursor == anchor
        },
        None => false,
    }
}

/// Decide what a reply to inline-completion request `id` does: stale
/// replies (another request pending, or the cursor moved) are ignored;
/// the already-typed prefix is cut and an empty or misaligned remainder
/// dismisses the suggestion.
pub fn inline_completion_outcome(
    pending: Option<(u64, Cursor)>,
    id: u64,
    cursor: Cursor,
    raw: Option<&InlineCompletionRaw>,
    error: bool,
    lines: &[String],
) -> (r: InlineOutcome)
    ensures
        match spec_inline_outcome(
            pending,
            id,
            cursor,
            match raw {
                Some(x) => Some((x.text@, x.range)),
                None => None,
            },
            error,
            lines@.map_values(|s: String| s@),
        ) {
            Some(t) => r matches InlineOutcome::Show(s) && s@ == t,
            None => if inline_dismisses(pending, id, cursor, raw is Some, error) {
                r is Dismiss
            } else {
                r is Keep
            },
        },
{
    let raw = match raw {
        Some(x) if !error => x,
        _ => {
            return match pending {
                Some((pid, _)) => if pid == id {
                    InlineOutcome::Dismiss
                } else {
                    InlineOutcome::Keep
                },
                None => InlineOutcome::Keep,
            };
        },
    };
    let anchor = match pending {
        Some((pid, anchor)) => {
            if pid != id || cursor != anchor {
                return InlineOutcome::Keep;
            }
            anchor
        },
        None => {
            return InlineOutcome::Keep;
        },
    };
    match strip_already_typed(raw, anchor, lines) {
        Some(s) => {
            if s.as_str().is_empty() {
                InlineOutcome::Dismiss
            } else {
                InlineOutcome::Show(s)
            }
        },
        None => InlineOutcome::Dismiss,
    }
}

/// Whether to ask for an inline suggestion now: a client is running and
/// signed in, and the cursor sits at the end of its row (a row past the
/// buffer counts as empty).
pub fn wants_inline_suggestion(has_client: bool, signed_in: bool, lines: &[String], cursor: Cursor) -> (r: bool)
    ensures
        r == (has_client && signed_in && cursor.col == (if cursor.row < lines@.len() {
            lines@[cursor.row as int]@.len() as int
        } else {
            0
        })),
{
    if !has_client || !signed_in {
        return false;
    }
    let row_len: usize = if cursor.row < lines.len() { crate::editing::char_count(&lines[cursor.row]) } else { 0 };
    cursor.col == row_len
}

/// A user name, or `(unknown user)`.
pub open spec fn user_text(user: Option<String>) -> Seq<char> {
    match user {
        Some(u) => u@,
        None => "(unknown user)"@,
    }
}

/// A refusal reason, or `no entitlement`.
pub open spec fn reason_text(reason: Option<String>) -> Seq<char> {
    match reason {
        Some(r) => r@,
        None => "no entitlement"@,
    }
}

fn push_user(s: &mut String, user: &Option<String>)
    ensures
        final(s)@ == old(s)@ + user_text(*user),
{
    match user {
        Some(u) => push_str(s, u.as_str()),
        None => push_str(s, "(unknown user)"),
    }
}

fn push_reason(s: &mut String, reason: &Option<String>)
    ensures
        final(s)@ == old(s)@ + reason_text(*reason),
{
    match reason {
        Some(r) => push_str(s, r.as_str()),
        None => push_str(s, "no entitlement"),
    }
}

/// What `:copilot status` says, given whether the server runs.
pub open spec fn status_text(a: CopilotAuthState, running: bool) -> Seq<char> {
    match a {
        CopilotAuthState::Unknown => if running {
            "Copilot: checking status..."@
        } else {
            "Copilot: not running (binary missing?)"@
        },
        CopilotAuthState::SignedIn { user } => "Copilot: signed in as "@ + user_text(user),
        CopilotAuthState::NotSignedIn => "Copilot: not signed in \u{2014} run :copilot signin"@,
        CopilotAuthState::NotAuthorized { reason } => "Copilot: not authorized ("@ + reason_text(reason) + ")"@,
    }
}

/// The `:copilot status` message.
pub fn copilot_status_text(a: &CopilotAuthState, running: bool) -> (r: String)
    ensures
        r@ == status_text(*a, running),
{
    let mut s = String::new();
    match a {
        CopilotAuthState::Unknown => if running {
            push_str(&mut s, "Copilot: checking status...");
        } else {
            push_str(&mut s, "Copilot: not running (binary missing?)");
        },
        CopilotAuthState::SignedIn { user } => {
            push_str(&mut s, "Copilot: signed in as ");
            push_user(&mut s, user);
        },
        CopilotAuthState::NotSignedIn => push_str(&mut s, "Copilot: not signed in \u{2014} run :copilot signin"),
        CopilotAuthState::NotAuthorized { reason } => {
            push_str(&mut s, "Copilot: not authorized (");
            push_reason(&mut s, reason);
            push_str(&mut s, ")");
        },
    }
    assert(s@ =~= status_text(*a, running));
    s
}

/// The message a `signInConfirm` reply leaves.
pub open spec fn confirm_report(status: Option<CheckStatus>, error: Option<String>) -> (bool, Seq<char>) {
    match error {
        Some(m) => (false, "Copilot signin: "@ + m@),
        None => match status {
            Some(CheckStatus::SignedIn { user }) => (true, "Copilot: signed in as "@ + user_text(user)),
            Some(CheckStatus::NotAuthorized { reason }) => (false, "Copilot signin: not authorized ("@ + reason_text(
                reason,
            ) + ")"@),
            Some(CheckStatus::Other(x)) => (false, "Copilot signin: "@ + x@),
            _ => (false, "Copilot signin: not completed (timed out or rejected)"@),
        },
    }
}

/// The toast for a `signInConfirm` reply: info on a sign-in, an error
/// otherwise.
pub fn sign_in_confirm_report(status: &Option<CheckStatus>, error: &Option<String>) -> (r: Report)
    ensures
        match r {
            Report::Info(m) => confirm_report(*status, *error) == (true, m@),
            Report::Error(m) => confirm_report(*status, *error) == (false, m@),
        },
{
    let mut s = String::new();
    if let Some(m) = error {
        push_str(&mut s, "Copilot signin: ");
        push_str(&mut s, m.as_str());
        return Report::Error(s);
    }
    match status {
        Some(CheckStatus::SignedIn { user }) => {
            push_str(&mut s, "Copilot: signed in as ");
            push_user(&mut s, user);
            Report::Info(s)
        },
        Some(CheckStatus::NotAuthorized { reason }) => {
            push_str(&mut s, "Copilot signin: not authorized (");
            push_reason(&mut s, reason);
            push_str(&mut s, ")");
            Report::Error(s)
        },
        Some(CheckStatus::Other(x)) => {
            push_str(&mut s, "Copilot signin: ");
            push_str(&mut s, x.as_str());
            Report::Error(s)
        },
        _ => {
            push_str(&mut s, "Copilot signin: not completed (timed out or rejected)");
            Report::Error(s)
        },
    }
}

/// The toast for a `signOut` reply.
pub fn sign_out_report(error: &Option<String>) -> (r: Report)
    ensures
        match error {
            Some(m) => r matches Report::Error(t) && t@ == "Copilot signout: "@ + m@,
            None => r matches Report::Info(t) && t@ == "Copilot: signed out"@,
        },
{
    let mut s = String::new();
    match error {
        Some(m) => {
            push_str(&mut s, "Copilot signout: ");
            push_str(&mut s, m.as_str());
            Report::Error(s)
        },
        None => {
            push_str(&mut s, "Copilot: signed out");
            Report::Info(s)
        },
    }
}

} // verus!
