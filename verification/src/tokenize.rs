//! Key presses to tokens: which token a key resolves to depends on what
//! the tokens typed so far leave the parser expecting.

use vstd::prelude::*;

use crate::action::{DirectKind, Expr, Mode, MotionKind, Operator, Token};
use crate::keys::{KeyCode, KeyInput};
use crate::parse::{classify, spec_classify, spec_take_count, take_count, Parse};

verus! {

/// What the tokenizer expects next, read off the trailing tokens.
#[derive(Debug, Clone, Copy, PartialEq, Eq, Structural)]
pub enum ParseCtx {
    /// A fresh command, or right after counts.
    Initial,
    /// After `<space>`.
    LeaderPending,
    /// After an operator (or `ys`): a motion, scope, count or the
    /// operator key again.
    OpPending,
    /// After `i` / `a`: an object.
    ObjectExpected,
    /// After `g`.
    GotoPending,
    /// After `f`/`F`/`t`/`T`/`r`: any char is the argument.
    CharArgPending,
    /// After `z`.
    ZPending,
    /// After `<space>w`.
    WindowPending,
    /// After `<space>m`.
    BookmarkPending,
    /// After `Ctrl-W`.
    CtrlWPending,
    /// After `]` / `[`.
    BracketPending,
    /// Waiting for the literal char of a surround command.
    SurroundCharPending,
}

// ────────────────────────────────────────────────────────────────────────
// Surround states
// ────────────────────────────────────────────────────────────────────────

/// The tokens after `ys` form a complete target: a motion (possibly
/// after `f`/`g`), a text object, or `s` for the line; counts first.
pub open spec fn spec_surround_add_target_complete(tail: Seq<Token>) -> bool {
    let after = spec_take_count(tail).1;
    ||| after.len() == 1 && (after[0] is Motion || after[0] is SelfDouble)
    ||| after.len() == 2 && (after[0] is FindCharPrefix || after[0] is GotoPrefix) && after[1] is Motion
    ||| after.len() == 2 && after[0] is Scope && after[1] is Object
}

/// `spec_surround_add_target_complete` of `tokens[from..]`.
pub fn surround_add_target_complete(tokens: &[Token], from: usize) -> (r: bool)
    requires
        from <= tokens@.len(),
    ensures
        r == spec_surround_add_target_complete(tokens@.skip(from as int)),
{
    let (_, i) = take_count(tokens, from);
    let n = tokens.len() - i;
    let ghost after = tokens@.skip(i as int);
    assert(after.len() == n);
    if n == 1 {
        assert(after[0] == tokens@[i as int]);
        match tokens[i] {
            Token::Motion(_) => true,
            Token::SelfDouble(_) => true,
            _ => false,
        }
    } else if n == 2 {
        assert(after[0] == tokens@[i as int]);
        assert(after[1] == tokens@[i + 1]);
        let a = tokens[i];
        let b = tokens[i + 1];
        match (a, b) {
            (Token::FindCharPrefix { .. }, Token::Motion(_)) => true,
            (Token::GotoPrefix, Token::Motion(_)) => true,
            (Token::Scope(_), Token::Object(_)) => true,
            _ => false,
        }
    } else {
        false
    }
}

/// Index of the last `SurroundAddPrefix`, or `-1`.
pub open spec fn last_add_prefix(s: Seq<Token>) -> int
    decreases s.len(),
{
    if s.len() == 0 {
        -1
    } else if s.last() is SurroundAddPrefix {
        s.len() - 1
    } else {
        last_add_prefix(s.drop_last())
    }
}

pub proof fn lemma_last_add_prefix_bounds(s: Seq<Token>)
    ensures
        -1 <= last_add_prefix(s) < s.len(),
    decreases s.len(),
{
    if s.len() > 0 {
        lemma_last_add_prefix_bounds(s.drop_last());
    }
}

/// The next key is the literal char of a surround command: right after
/// `ds` or `cs`, after `cs<c>`, or after `ys{target}`.
pub open spec fn spec_surround_char_pending(prev: Seq<Token>) -> bool {
    let n = prev.len();
    if n >= 1 && (prev[n - 1] is SurroundDeletePrefix || prev[n - 1] is SurroundChangePrefix) {
        true
    } else if n >= 2 && prev[n - 2] is SurroundChangePrefix && prev[n - 1] is SurroundChar {
        true
    } else {
        let k = last_add_prefix(prev);
        k >= 0 && spec_surround_add_target_complete(prev.skip(k + 1))
    }
}

/// Whether the next key should be captured as a surround char.
pub fn is_surround_char_pending(prev: &[Token]) -> (r: bool)
    ensures
        r == spec_surround_char_pending(prev@),
{
    let n = prev.len();
    if n >= 1 {
        match prev[n - 1] {
            Token::SurroundDeletePrefix => {
                return true;
            },
            Token::SurroundChangePrefix => {
                return true;
            },
            _ => {},
        }
    }
    if n >= 2 {
        match (prev[n - 2], prev[n - 1]) {
            (Token::SurroundChangePrefix, Token::SurroundChar(_)) => {
                return true;
            },
            _ => {},
        }
    }
    let mut i: usize = n;
    assert(prev@.take(n as int) =~= prev@);
    while i > 0
        invariant
            i <= n == prev@.len(),
            last_add_prefix(prev@) == last_add_prefix(prev@.take(i as int)),
            !(n >= 1 && (prev@[n - 1] is SurroundDeletePrefix || prev@[n - 1] is SurroundChangePrefix)),
            !(n >= 2 && prev@[n - 2] is SurroundChangePrefix && prev@[n - 1] is SurroundChar),
        decreases i,
    {
        let ghost t = prev@.take(i as int);
        assert(t.drop_last() =~= prev@.take(i - 1));
        assert(t.last() == prev@[i - 1]);
        match prev[i - 1] {
            Token::SurroundAddPrefix => {
                return surround_add_target_complete(prev, i);
            },
            _ => {},
        }
        i = i - 1;
    }
    false
}

// ────────────────────────────────────────────────────────────────────────
// Context
// ────────────────────────────────────────────────────────────────────────

/// The last token that is not a count.
pub open spec fn last_non_count(s: Seq<Token>) -> Option<Token>
    decreases s.len(),
{
    if s.len() == 0 {
        None
    } else if s.last() is Count {
        last_non_count(s.drop_last())
    } else {
        Some(s.last())
    }
}

/// The context a last non-count token leaves.
pub open spec fn ctx_after(t: Option<Token>) -> ParseCtx {
    match t {
        None => ParseCtx::Initial,
        Some(tok) => match tok {
            Token::LeaderPrefix => ParseCtx::LeaderPending,
            Token::Op(_) => ParseCtx::OpPending,
            Token::SurroundAddPrefix => ParseCtx::OpPending,
            Token::Scope(_) => ParseCtx::ObjectExpected,
            Token::GotoPrefix => ParseCtx::GotoPending,
            Token::FindCharPrefix { .. } => ParseCtx::CharArgPending,
            Token::ReplaceCharPrefix => ParseCtx::CharArgPending,
            Token::ZPrefix => ParseCtx::ZPending,
            Token::WindowPrefix => ParseCtx::WindowPending,
            Token::BookmarkPrefix => ParseCtx::BookmarkPending,
            Token::CtrlWPrefix => ParseCtx::CtrlWPending,
            Token::BracketPrefix { .. } => ParseCtx::BracketPending,
            _ => ParseCtx::Initial,
        },
    }
}

/// The parse context after `prev`: the surround char wins; otherwise
/// the last non-count token decides.
pub open spec fn spec_context_of(prev: Seq<Token>) -> ParseCtx {
    if spec_surround_char_pending(prev) {
        ParseCtx::SurroundCharPending
    } else {
        ctx_after(last_non_count(prev))
    }
}

/// The last token of `prev` that is not a count.
fn find_last_non_count(prev: &[Token]) -> (r: Option<Token>)
    ensures
        r == last_non_count(prev@),
{
    let n = prev.len();
    let mut i: usize = n;
    assert(prev@.take(n as int) =~= prev@);
    while i > 0
        invariant
            i <= n == prev@.len(),
            last_non_count(prev@) == last_non_count(prev@.take(i as int)),
        decreases i,
    {
        let ghost t = prev@.take(i as int);
        assert(t.drop_last() =~= prev@.take(i - 1));
        assert(t.last() == prev@[i - 1]);
        match prev[i - 1] {
            Token::Count(_) => {},
            tok => {
                return Some(tok);
            },
        }
        i = i - 1;
    }
    None
}

/// What the next key means after `prev`.
pub fn context_of(prev: &[Token]) -> (r: ParseCtx)
    ensures
        r == spec_context_of(prev@),
{
    if is_surround_char_pending(prev) {
        return ParseCtx::SurroundCharPending;
    }
    let last = find_last_non_count(prev);
    match last {
        None => ParseCtx::Initial,
        Some(tok) => match tok {
            Token::LeaderPrefix => ParseCtx::LeaderPending,
            Token::Op(_) => ParseCtx::OpPending,
            Token::SurroundAddPrefix => ParseCtx::OpPending,
            Token::Scope(_) => ParseCtx::ObjectExpected,
            Token::GotoPrefix => ParseCtx::GotoPending,
            Token::FindCharPrefix { .. } => ParseCtx::CharArgPending,
            Token::ReplaceCharPrefix => ParseCtx::CharArgPending,
            Token::ZPrefix => ParseCtx::ZPending,
            Token::WindowPrefix => ParseCtx::WindowPending,
            Token::BookmarkPrefix => ParseCtx::BookmarkPending,
            Token::CtrlWPrefix => ParseCtx::CtrlWPending,
            Token::BracketPrefix { .. } => ParseCtx::BracketPending,
            _ => ParseCtx::Initial,
        },
    }
}

// ────────────────────────────────────────────────────────────────────────
// Key bindings
// ────────────────────────────────────────────────────────────────────────

/// A key as the keymap matches it: the key code with Ctrl and Alt.
#[derive(Debug, Clone, Copy, PartialEq, Eq, Structural)]
pub struct KeySig {
    pub code: KeyCode,
    pub ctrl: bool,
    pub alt: bool,
}

/// The signature of a key event.
pub open spec fn sig_of(key: KeyInput) -> KeySig {
    KeySig { code: key.code, ctrl: key.ctrl, alt: key.alt }
}

impl KeySig {
    pub fn from_input(key: &KeyInput) -> (r: KeySig)
        ensures
            r == sig_of(*key),
    {
        KeySig { code: key.code, ctrl: key.ctrl, alt: key.alt }
    }
}

/// The bindings the tokenizer resolves keys against: the remappable
/// Normal-mode and leader maps, and the follower tables used after `d`,
/// `i`/`a`, `g`, `z`, `<space>w`, `<space>m`, `Ctrl-W`, `]` and `[`.
/// Each table is searched front to back; the first match wins.
pub struct Keymap {
    pub initial: Vec<(KeySig, Token)>,
    pub leader: Vec<(KeySig, Token)>,
    pub op_pending: Vec<(KeyCode, Token)>,
    pub object: Vec<(KeyCode, Token)>,
    pub goto: Vec<(KeyCode, Token)>,
    pub z: Vec<(KeyCode, Token)>,
    pub window: Vec<(KeyCode, Token)>,
    pub bookmark: Vec<(KeyCode, Token)>,
    pub ctrl_w: Vec<(KeyCode, Token)>,
    pub bracket_next: Vec<(KeyCode, Token)>,
    pub bracket_prev: Vec<(KeyCode, Token)>,
}

/// The token bound to `k` in `table`: the first entry whose key is `k`.
pub open spec fn lookup<K>(table: Seq<(K, Token)>, k: K) -> Option<Token>
    decreases table.len(),
{
    if table.len() == 0 {
        None
    } else if table[0].0 == k {
        Some(table[0].1)
    } else {
        lookup(table.drop_first(), k)
    }
}

fn lookup_code(table: &Vec<(KeyCode, Token)>, code: KeyCode) -> (r: Option<Token>)
    ensures
        r == lookup(table@, code),
{
    let mut i: usize = 0;
    assert(table@.skip(0) =~= table@);
    while i < table.len()
        invariant
            i <= table@.len(),
            lookup(table@, code) == lookup(table@.skip(i as int), code),
        decreases table@.len() - i,
    {
        let ghost rest = table@.skip(i as int);
        assert(rest[0] == table@[i as int]);
        assert(rest.drop_first() =~= table@.skip(i + 1));
        if table[i].0 == code {
            return Some(table[i].1);
        }
        i = i + 1;
    }
    None
}

fn lookup_sig(table: &Vec<(KeySig, Token)>, sig: KeySig) -> (r: Option<Token>)
    ensures
        r == lookup(table@, sig),
{
    let mut i: usize = 0;
    assert(table@.skip(0) =~= table@);
    while i < table.len()
        invariant
            i <= table@.len(),
            lookup(table@, sig) == lookup(table@.skip(i as int), sig),
        decreases table@.len() - i,
    {
        let ghost rest = table@.skip(i as int);
        assert(rest[0] == table@[i as int]);
        assert(rest.drop_first() =~= table@.skip(i + 1));
        if table[i].0 == sig {
            return Some(table[i].1);
        }
        i = i + 1;
    }
    None
}

// ────────────────────────────────────────────────────────────────────────
// Followers
// ────────────────────────────────────────────────────────────────────────

/// The operator of the last `Op` token.
pub open spec fn last_op(s: Seq<Token>) -> Option<Operator>
    decreases s.len(),
{
    if s.len() == 0 {
        None
    } else if s.last() is Op {
        Some(s.last()->Op_0)
    } else {
        last_op(s.drop_last())
    }
}

/// The last `f`/`F`/`t`/`T` or `r` prefix.
pub open spec fn last_char_prefix(s: Seq<Token>) -> Option<Token>
    decreases s.len(),
{
    if s.len() == 0 {
        None
    } else if s.last() is FindCharPrefix || s.last() is ReplaceCharPrefix {
        Some(s.last())
    } else {
        last_char_prefix(s.drop_last())
    }
}

/// The direction of the last `]` / `[` prefix.
pub open spec fn last_bracket(s: Seq<Token>) -> Option<bool>
    decreases s.len(),
{
    if s.len() == 0 {
        None
    } else if s.last() is BracketPrefix {
        Some(s.last()->BracketPrefix_forward)
    } else {
        last_bracket(s.drop_last())
    }
}

fn find_last_op(prev: &[Token]) -> (r: Option<Operator>)
    ensures
        r == last_op(prev@),
{
    let n = prev.len();
    let mut i: usize = n;
    assert(prev@.take(n as int) =~= prev@);
    while i > 0
        invariant
            i <= n == prev@.len(),
            last_op(prev@) == last_op(prev@.take(i as int)),
        decreases i,
    {
        let ghost t = prev@.take(i as int);
        assert(t.drop_last() =~= prev@.take(i - 1));
        assert(t.last() == prev@[i - 1]);
        match prev[i - 1] {
            Token::Op(o) => {
                return Some(o);
            },
            _ => {},
        }
        i = i - 1;
    }
    None
}

fn find_last_char_prefix(prev: &[Token]) -> (r: Option<Token>)
    ensures
        r == last_char_prefix(prev@),
{
    let n = prev.len();
    let mut i: usize = n;
    assert(prev@.take(n as int) =~= prev@);
    while i > 0
        invariant
            i <= n == prev@.len(),
            last_char_prefix(prev@) == last_char_prefix(prev@.take(i as int)),
        decreases i,
    {
        let ghost t = prev@.take(i as int);
        assert(t.drop_last() =~= prev@.take(i - 1));
        assert(t.last() == prev@[i - 1]);
        match prev[i - 1] {
            Token::FindCharPrefix { forward, till } => {
                return Some(Token::FindCharPrefix { forward, till });
            },
            Token::ReplaceCharPrefix => {
                return Some(Token::ReplaceCharPrefix);
            },
            _ => {},
        }
        i = i - 1;
    }
    None
}

fn find_last_bracket(prev: &[Token]) -> (r: Option<bool>)
    ensures
        r == last_bracket(prev@),
{
    let n = prev.len();
    let mut i: usize = n;
    assert(prev@.take(n as int) =~= prev@);
    while i > 0
        invariant
            i <= n == prev@.len(),
            last_bracket(prev@) == last_bracket(prev@.take(i as int)),
        decreases i,
    {
        let ghost t = prev@.take(i as int);
        assert(t.drop_last() =~= prev@.take(i - 1));
        assert(t.last() == prev@[i - 1]);
        match prev[i - 1] {
            Token::BracketPrefix { forward } => {
                return Some(forward);
            },
            _ => {},
        }
        i = i - 1;
    }
    None
}

/// The operator's own key pressed again (`dd`, `yy`, `cc`, `>>`, `<<`;
/// `gcc` and `gbc` both end in `c`).
pub open spec fn self_double_key(op: Operator, code: KeyCode) -> bool {
    match op {
        Operator::Delete => code == KeyCode::Char('d'),
        Operator::Yank => code == KeyCode::Char('y'),
        Operator::Change => code == KeyCode::Char('c'),
        Operator::Indent => code == KeyCode::Char('>'),
        Operator::Dedent => code == KeyCode::Char('<'),
        Operator::Comment => code == KeyCode::Char('c'),
        Operator::BlockComment => code == KeyCode::Char('c'),
    }
}

/// After an operator: `s` right after `y`/`c`/`d` opens the surround
/// grammar, `s` after `ys` is the line-wise self-double, the operator's
/// own key is a self-double, anything else goes through the table.
pub open spec fn spec_op_pending_token(km: Keymap, code: KeyCode, prev: Seq<Token>) -> Option<Token> {
    match last_op(prev) {
        None => None,
        Some(op) => if code == KeyCode::Char('s') && prev.last() is Op && (op is Yank || op is Change || op is Delete) {
            Some(
                if op is Yank {
                    Token::SurroundAddPrefix
                } else if op is Change {
                    Token::SurroundChangePrefix
                } else {
                    Token::SurroundDeletePrefix
                },
            )
        } else if code == KeyCode::Char('s') && prev.last() is SurroundAddPrefix {
            Some(Token::SelfDouble(op))
        } else if self_double_key(op, code) {
            Some(Token::SelfDouble(op))
        } else {
            lookup(km.op_pending@, code)
        },
    }
}

proof fn lemma_last_op_nonempty(s: Seq<Token>)
    ensures
        last_op(s) is Some ==> s.len() > 0,
    decreases s.len(),
{
}

fn op_pending_token(km: &Keymap, code: KeyCode, prev: &[Token]) -> (r: Option<Token>)
    ensures
        r == spec_op_pending_token(*km, code, prev@),
{
    let pending = find_last_op(prev);
    let op = match pending {
        None => {
            return None;
        },
        Some(o) => o,
    };
    proof {
        lemma_last_op_nonempty(prev@);
    }
    let last = prev[prev.len() - 1];
    let last_is_op = match last {
        Token::Op(_) => true,
        _ => false,
    };
    let last_is_add = match last {
        Token::SurroundAddPrefix => true,
        _ => false,
    };
    let is_s = code == KeyCode::Char('s');
    if is_s && last_is_op {
        match op {
            Operator::Yank => {
                return Some(Token::SurroundAddPrefix);
            },
            Operator::Change => {
                return Some(Token::SurroundChangePrefix);
            },
            Operator::Delete => {
                return Some(Token::SurroundDeletePrefix);
            },
            _ => {},
        }
    }
    if is_s && last_is_add {
        return Some(Token::SelfDouble(op));
    }
    let same_key = match op {
        Operator::Delete => code == KeyCode::Char('d'),
        Operator::Yank => code == KeyCode::Char('y'),
        Operator::Change => code == KeyCode::Char('c'),
        Operator::Indent => code == KeyCode::Char('>'),
        Operator::Dedent => code == KeyCode::Char('<'),
        Operator::Comment => code == KeyCode::Char('c'),
        Operator::BlockComment => code == KeyCode::Char('c'),
    };
    if same_key {
        return Some(Token::SelfDouble(op));
    }
    lookup_code(&km.op_pending, code)
}

/// After `f`/`F`/`t`/`T` or `r`: a char key becomes the argument of the
/// most recent such prefix.
pub open spec fn spec_char_arg_token(code: KeyCode, prev: Seq<Token>) -> Option<Token> {
    match last_char_prefix(prev) {
        None => None,
        Some(p) => match code {
            KeyCode::Char(ch) => match p {
                Token::FindCharPrefix { forward, till } => Some(Token::Motion(MotionKind::FindChar { ch, forward, till })),
                Token::ReplaceCharPrefix => Some(Token::Direct(DirectKind::ReplaceChar { ch })),
                _ => None,
            },
            _ => None,
        },
    }
}

fn char_arg_token(code: KeyCode, prev: &[Token]) -> (r: Option<Token>)
    ensures
        r == spec_char_arg_token(code, prev@),
{
    let prefix = match find_last_char_prefix(prev) {
        None => {
            return None;
        },
        Some(p) => p,
    };
    let ch = match code {
        KeyCode::Char(c) => c,
        _ => {
            return None;
        },
    };
    match prefix {
        Token::FindCharPrefix { forward, till } => Some(Token::Motion(MotionKind::FindChar { ch, forward, till })),
        Token::ReplaceCharPrefix => Some(Token::Direct(DirectKind::ReplaceChar { ch })),
        _ => None,
    }
}

/// After `]` / `[`: the follower table of the prefix's direction.
pub open spec fn spec_bracket_token(km: Keymap, code: KeyCode, prev: Seq<Token>) -> Option<Token> {
    match last_bracket(prev) {
        None => None,
        Some(forward) => if forward {
            lookup(km.bracket_next@, code)
        } else {
            lookup(km.bracket_prev@, code)
        },
    }
}

/// A digit key's char.
pub open spec fn digit_of(code: KeyCode) -> Option<char> {
    match code {
        KeyCode::Char(c) => if '0' <= c && c <= '9' {
            Some(c)
        } else {
            None
        },
        _ => None,
    }
}

/// A digit: `0` alone at the start is the line-start motion, `0` inside
/// a count extends it, `1`-`9` start or extend a count at the start or
/// after an operator; elsewhere digits mean nothing.
pub open spec fn spec_digit_token(ctx: ParseCtx, c: char, counting: bool) -> Option<Token> {
    if ctx == ParseCtx::Initial && c == '0' && !counting {
        Some(Token::Motion(MotionKind::LineStart))
    } else if c == '0' && counting {
        Some(Token::Count(0))
    } else if (ctx == ParseCtx::Initial || ctx == ParseCtx::OpPending) && c != '0' {
        Some(Token::Count(((c as u32) - 48) as u32))
    } else {
        None
    }
}

/// The token a Normal-mode key resolves to after `prev`; `None` aborts
/// the command being typed.
pub open spec fn spec_tokenize(km: Keymap, prev: Seq<Token>, key: KeyInput) -> Option<Token> {
    let code = key.code;
    if key.ctrl && code == KeyCode::Char('r') {
        Some(Token::Direct(DirectKind::Redo))
    } else if prev.len() == 0 && key.ctrl && code == KeyCode::Char('w') {
        Some(Token::CtrlWPrefix)
    } else {
        let ctx = spec_context_of(prev);
        match digit_of(code) {
            Some(c) => spec_digit_token(ctx, c, prev.len() > 0 && prev.last() is Count),
            None => match ctx {
                ParseCtx::Initial => lookup(km.initial@, sig_of(key)),
                ParseCtx::LeaderPending => lookup(km.leader@, sig_of(key)),
                ParseCtx::OpPending => spec_op_pending_token(km, code, prev),
                ParseCtx::ObjectExpected => lookup(km.object@, code),
                ParseCtx::GotoPending => lookup(km.goto@, code),
                ParseCtx::CharArgPending => spec_char_arg_token(code, prev),
                ParseCtx::ZPending => lookup(km.z@, code),
                ParseCtx::WindowPending => lookup(km.window@, code),
                ParseCtx::BookmarkPending => lookup(km.bookmark@, code),
                ParseCtx::CtrlWPending => lookup(km.ctrl_w@, code),
                ParseCtx::BracketPending => spec_bracket_token(km, code, prev),
                ParseCtx::SurroundCharPending => match code {
                    KeyCode::Char(c) => Some(Token::SurroundChar(c)),
                    _ => None,
                },
            },
        }
    }
}

/// Resolve a Normal-mode key to its token in the context the tokens
/// typed so far leave. `None` means the key has no meaning here and the
/// caller should drop the command.
pub fn tokenize(km: &Keymap, prev: &[Token], mode: Mode, key: &KeyInput) -> (r: Option<Token>)
    requires
        mode == Mode::Normal,
    ensures
        r == spec_tokenize(*km, prev@, *key),
{
    let code = key.code;
    if key.ctrl && code == KeyCode::Char('r') {
        return Some(Token::Direct(DirectKind::Redo));
    }
    if prev.len() == 0 && key.ctrl && code == KeyCode::Char('w') {
        return Some(Token::CtrlWPrefix);
    }
    let ctx = context_of(prev);
    if let Some(c) = ascii_digit(code) {
        let counting = prev.len() > 0 && match prev[prev.len() - 1] {
            Token::Count(_) => true,
            _ => false,
        };
        if ctx == ParseCtx::Initial && c == '0' && !counting {
            return Some(Token::Motion(MotionKind::LineStart));
        } else if c == '0' && counting {
            return Some(Token::Count(0));
        } else if (ctx == ParseCtx::Initial || ctx == ParseCtx::OpPending) && c != '0' {
            return Some(Token::Count((c as u32) - 48));
        } else {
            return None;
        }
    }
    match ctx {
        ParseCtx::Initial => lookup_sig(&km.initial, KeySig::from_input(key)),
        ParseCtx::LeaderPending => lookup_sig(&km.leader, KeySig::from_input(key)),
        ParseCtx::OpPending => op_pending_token(km, code, prev),
        ParseCtx::ObjectExpected => object_token(km, code),
        ParseCtx::GotoPending => goto_pending_token(km, code),
        ParseCtx::CharArgPending => char_arg_token(code, prev),
        ParseCtx::ZPending => z_pending_token(km, code),
        ParseCtx::WindowPending => window_pending_token(km, code),
        ParseCtx::BookmarkPending => bookmark_pending_token(km, code),
        ParseCtx::CtrlWPending => ctrl_w_pending_token(km, code),
        ParseCtx::BracketPending => bracket_pending_token(km, code, prev),
        ParseCtx::SurroundCharPending => surround_char_token(code),
    }
}

/// A digit key's char.
fn ascii_digit(code: KeyCode) -> (r: Option<char>)
    ensures
        r == digit_of(code),
{
    match code {
        KeyCode::Char(c) => if '0' <= c && c <= '9' {
            Some(c)
        } else {
            None
        },
        _ => None,
    }
}

/// The literal char of a surround command; other keys abort.
fn surround_char_token(code: KeyCode) -> (r: Option<Token>)
    ensures
        r == match code {
            KeyCode::Char(c) => Some(Token::SurroundChar(c)),
            _ => None,
        },
{
    match code {
        KeyCode::Char(c) => Some(Token::SurroundChar(c)),
        _ => None,
    }
}

/// After `]` / `[`: the follower in the table of the prefix's direction.
fn bracket_pending_token(km: &Keymap, code: KeyCode, prev: &[Token]) -> (r: Option<Token>)
    ensures
        r == spec_bracket_token(*km, code, prev@),
{
    match find_last_bracket(prev) {
        None => None,
        Some(forward) => if forward {
            lookup_code(&km.bracket_next, code)
        } else {
            lookup_code(&km.bracket_prev, code)
        },
    }
}

/// After `<space>w`: the window sub-leader table.
fn window_pending_token(km: &Keymap, code: KeyCode) -> (r: Option<Token>)
    ensures
        r == lookup(km.window@, code),
{
    lookup_code(&km.window, code)
}

/// After `Ctrl-W`: the window-prefix chord table.
fn ctrl_w_pending_token(km: &Keymap, code: KeyCode) -> (r: Option<Token>)
    ensures
        r == lookup(km.ctrl_w@, code),
{
    lookup_code(&km.ctrl_w, code)
}

/// After `<space>m`: the bookmark sub-leader table.
fn bookmark_pending_token(km: &Keymap, code: KeyCode) -> (r: Option<Token>)
    ensures
        r == lookup(km.bookmark@, code),
{
    lookup_code(&km.bookmark, code)
}

/// After `z`: the viewport-scroll table.
fn z_pending_token(km: &Keymap, code: KeyCode) -> (r: Option<Token>)
    ensures
        r == lookup(km.z@, code),
{
    lookup_code(&km.z, code)
}

/// After `g`: the goto table.
fn goto_pending_token(km: &Keymap, code: KeyCode) -> (r: Option<Token>)
    ensures
        r == lookup(km.goto@, code),
{
    lookup_code(&km.goto, code)
}

/// After a scope marker (`i` / `a`): the text-object table.
fn object_token(km: &Keymap, code: KeyCode) -> (r: Option<Token>)
    ensures
        r == lookup(km.object@, code),
{
    lookup_code(&km.object, code)
}

/// Feed one Normal-mode key to the buffer of pending tokens: a key that
/// resolves to no token drops the buffer; otherwise its token is added
/// and the buffer is classified. A complete command is returned and the
/// buffer cleared; a valid prefix is kept; junk is dropped.
pub fn normal_key(km: &Keymap, tokens: &mut Vec<Token>, key: &KeyInput) -> (r: Option<Expr>)
    ensures
        match spec_tokenize(*km, old(tokens)@, *key) {
            None => r is None && final(tokens)@.len() == 0,
            Some(t) => match spec_classify(old(tokens)@.push(t)) {
                Parse::Complete(e) => r == Some(e) && final(tokens)@.len() == 0,
                Parse::Incomplete => r is None && final(tokens)@ == old(tokens)@.push(t),
                Parse::Invalid => r is None && final(tokens)@.len() == 0,
            },
        },
        final(tokens)@.len() == 0 || spec_classify(final(tokens)@) is Incomplete,
{
    match tokenize(km, tokens.as_slice(), Mode::Normal, key) {
        None => {
            tokens.clear();
            None
        }
        Some(t) => {
            tokens.push(t);
            match classify(tokens.as_slice()) {
                Parse::Complete(e) => {
                    tokens.clear();
                    Some(e)
                }
                Parse::Incomplete => None,
                Parse::Invalid => {
                    tokens.clear();
                    None
                }
            }
        }
    }
}

} // verus!
