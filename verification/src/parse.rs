//! Token lists to commands: `classify` decides whether the tokens typed so
//! far form a complete command (and builds its `Expr`), a valid prefix of
//! one, or junk.

use vstd::prelude::*;

use crate::action::{DirectKind, Expr, MotionExpr, MotionKind, Operator, Target, Token};

verus! {

/// Result of [`classify`].
#[derive(Debug, Clone, Copy, PartialEq, Eq, Structural)]
pub enum Parse {
    Complete(Expr),
    Incomplete,
    Invalid,
}

// ────────────────────────────────────────────────────────────────────────
// Counts
// ────────────────────────────────────────────────────────────────────────

pub open spec fn sat_mul(a: u32, b: u32) -> u32 {
    if a * b > u32::MAX { u32::MAX } else { (a * b) as u32 }
}

pub open spec fn sat_add(a: u32, b: u32) -> u32 {
    if a + b > u32::MAX { u32::MAX } else { (a + b) as u32 }
}

pub fn saturating_mul_u32(a: u32, b: u32) -> (r: u32)
    ensures
        r == sat_mul(a, b),
{
    match a.checked_mul(b) {
        Some(v) => v,
        None => u32::MAX,
    }
}

/// Number of leading `Count` tokens.
pub open spec fn lead_counts(s: Seq<Token>) -> nat
    decreases s.len(),
{
    if s.len() > 0 && s[0] is Count {
        1 + lead_counts(s.drop_first())
    } else {
        0
    }
}

/// The first `n` count digits of `s` folded into one number, with
/// saturating decimal arithmetic (`acc * 10 + d`).
pub open spec fn fold_digits(s: Seq<Token>, n: nat) -> u32
    decreases n,
{
    if n == 0 {
        0
    } else {
        sat_add(sat_mul(fold_digits(s, (n - 1) as nat), 10), s[n - 1]->Count_0)
    }
}

/// Leading counts combined into one number (`1` when there are none, and
/// never below `1`), plus the tokens after them.
pub open spec fn spec_take_count(s: Seq<Token>) -> (u32, Seq<Token>) {
    let k = lead_counts(s);
    if k == 0 {
        (1, s)
    } else {
        let c = fold_digits(s, k);
        (if c < 1 { 1 } else { c }, s.skip(k as int))
    }
}

pub proof fn lemma_lead_counts(s: Seq<Token>, i: int)
    requires
        0 <= i <= lead_counts(s),
    ensures
        lead_counts(s) <= s.len(),
        i < lead_counts(s) ==> s[i] is Count,
        lead_counts(s) < s.len() ==> !(s[lead_counts(s) as int] is Count),
        lead_counts(s.skip(i)) == lead_counts(s) - i,
    decreases s.len(),
{
    if s.len() > 0 && s[0] is Count {
        let t = s.drop_first();
        if i > 0 {
            lemma_lead_counts(t, i - 1);
            assert(t.skip(i - 1) =~= s.skip(i));
        } else {
            lemma_lead_counts(t, 0);
            assert(s.skip(0) =~= s);
        }
    } else {
        assert(s.skip(0) =~= s);
    }
}

proof fn lemma_fold_digits_ext(s: Seq<Token>, t: Seq<Token>, n: nat)
    requires
        n <= s.len(),
        n <= t.len(),
        forall|i: int| 0 <= i < n ==> s[i] == t[i],
    ensures
        fold_digits(s, n) == fold_digits(t, n),
    decreases n,
{
    if n > 0 {
        lemma_fold_digits_ext(s, t, (n - 1) as nat);
    }
}

/// `spec_take_count` of `tokens[from..]`, as a count and the index where
/// the non-count tokens start.
pub(crate) fn take_count(tokens: &[Token], from: usize) -> (r: (u32, usize))
    requires
        from <= tokens@.len(),
    ensures
        from <= r.1 <= tokens@.len(),
        r.0 == spec_take_count(tokens@.skip(from as int)).0,
        tokens@.skip(r.1 as int) == spec_take_count(tokens@.skip(from as int)).1,
{
    let ghost s = tokens@.skip(from as int);
    proof {
        lemma_lead_counts(s, 0);
    }
    let mut count: u32 = 0;
    let mut i = from;
    while i < tokens.len()
        invariant
            from <= i <= tokens@.len(),
            s == tokens@.skip(from as int),
            i - from <= lead_counts(s),
            count == fold_digits(s, (i - from) as nat),
            lead_counts(s) <= s.len(),
        ensures
            i - from == lead_counts(s),
        decreases tokens@.len() - i,
    {
        proof {
            lemma_lead_counts(s, (i - from) as int);
        }
        match tokens[i] {
            Token::Count(d) => {
                assert(s[i - from] == tokens@[i as int]);
                let m = saturating_mul_u32(count, 10);
                count = m.saturating_add(d);
                i = i + 1;
            },
            _ => {
                assert(s[i - from] == tokens@[i as int]);
                break;
            },
        }
    }
    proof {
        lemma_lead_counts(s, (i - from) as int);
        assert(s.skip((i - from) as int) =~= tokens@.skip(i as int));
    }
    if i == from {
        assert(s =~= tokens@.skip(i as int));
        (1, i)
    } else if count < 1 {
        (1, i)
    } else {
        (count, i)
    }
}

/// For `gg` / `G`: a missing count becomes the file-edge sentinel `0`;
/// any typed count (even `1`) is kept as a line number. Other motions keep
/// their count.
pub open spec fn spec_goto_aware_count(motion: MotionKind, outer_count: u32, count_present: bool) -> u32 {
    if (motion is FileStart || motion is FileEnd) && !count_present {
        0
    } else {
        outer_count
    }
}

fn goto_aware_count(motion: MotionKind, outer_count: u32, count_present: bool) -> (r: u32)
    ensures
        r == spec_goto_aware_count(motion, outer_count, count_present),
{
    let edge = match motion {
        MotionKind::FileStart | MotionKind::FileEnd => true,
        _ => false,
    };
    if edge && !count_present {
        0
    } else {
        outer_count
    }
}

// ────────────────────────────────────────────────────────────────────────
// Building expressions
// ────────────────────────────────────────────────────────────────────────

/// The operator expression for `op` followed by the tokens `after`.
pub open spec fn spec_build_op_expr(op: Operator, after: Seq<Token>, outer_count: u32) -> Option<Expr> {
    let (mc, b) = spec_take_count(after);
    if b.len() == 1 && b[0] is SelfDouble {
        Some(Expr::Op { op, target: Target::LineWise, outer_count: sat_mul(outer_count, mc) })
    } else if b.len() == 1 && b[0] is Motion {
        Some(Expr::Op { op, target: Target::Motion(MotionExpr { motion: b[0]->Motion_0, count: mc }), outer_count })
    } else if b.len() == 2 && (b[0] is FindCharPrefix || b[0] is GotoPrefix) && b[1] is Motion {
        Some(Expr::Op { op, target: Target::Motion(MotionExpr { motion: b[1]->Motion_0, count: mc }), outer_count })
    } else if b.len() == 2 && b[0] is GotoPrefix && b[1] is Direct && b[1]->Direct_0 is SearchSelectNext {
        Some(Expr::Op {
            op,
            target: Target::SearchMatch { reverse: b[1]->Direct_0->SearchSelectNext_reverse },
            outer_count: sat_mul(outer_count, mc),
        })
    } else if b.len() == 2 && b[0] is Scope && b[1] is Object && mc == 1 {
        Some(Expr::Op {
            op,
            target: Target::TextObject { scope: b[0]->Scope_0, object: b[1]->Object_0 },
            outer_count,
        })
    } else {
        None
    }
}

/// The `ys` target built from the tokens between the prefix and the
/// final surround char.
pub open spec fn spec_surround_target(t: Seq<Token>) -> Option<Target> {
    let (mc, b) = spec_take_count(t);
    if b.len() == 1 && b[0] is SelfDouble {
        Some(Target::LineWise)
    } else if b.len() == 1 && b[0] is Motion {
        Some(Target::Motion(MotionExpr { motion: b[0]->Motion_0, count: mc }))
    } else if b.len() == 2 && (b[0] is FindCharPrefix || b[0] is GotoPrefix) && b[1] is Motion {
        Some(Target::Motion(MotionExpr { motion: b[1]->Motion_0, count: mc }))
    } else if b.len() == 2 && b[0] is Scope && b[1] is Object && mc == 1 {
        Some(Target::TextObject { scope: b[0]->Scope_0, object: b[1]->Object_0 })
    } else {
        None
    }
}

/// `ys{target}{ch}` from the tokens after `[Op(Yank), SurroundAddPrefix]`.
pub open spec fn spec_build_surround_add(inner: Seq<Token>) -> Option<Expr> {
    if inner.len() > 0 && inner.last() is SurroundChar {
        match spec_surround_target(inner.drop_last()) {
            Some(target) => Some(Expr::SurroundAdd { target, ch: inner.last()->SurroundChar_0 }),
            None => None,
        }
    } else {
        None
    }
}

/// A single-token direct follower of a shaping prefix (`<space>`, `Ctrl-W`,
/// `]`/`[`, `g`, `z`, `r`).
pub open spec fn direct_after_prefix(r: Seq<Token>) -> bool {
    &&& r.len() == 2
    &&& r[1] is Direct
    &&& (r[0] is LeaderPrefix || r[0] is CtrlWPrefix || r[0] is BracketPrefix || r[0] is GotoPrefix
        || r[0] is ZPrefix || r[0] is ReplaceCharPrefix)
}

/// The command a complete token list denotes, or `None` when the list is
/// not a finished command.
pub open spec fn spec_build_expr(s: Seq<Token>) -> Option<Expr> {
    let count_present = s.len() > 0 && s[0] is Count;
    let (oc, r) = spec_take_count(s);
    if r.len() == 1 && r[0] is Direct {
        Some(Expr::Direct { kind: r[0]->Direct_0, count: oc })
    } else if r.len() == 1 && r[0] is Motion {
        Some(Expr::Motion(MotionExpr {
            motion: r[0]->Motion_0,
            count: spec_goto_aware_count(r[0]->Motion_0, oc, count_present),
        }))
    } else if r.len() == 2 && r[0] is FindCharPrefix && r[1] is Motion {
        Some(Expr::Motion(MotionExpr { motion: r[1]->Motion_0, count: oc }))
    } else if direct_after_prefix(r) {
        Some(Expr::Direct { kind: r[1]->Direct_0, count: oc })
    } else if r.len() == 2 && r[0] is LeaderPrefix && r[1] is SelfDouble {
        Some(Expr::Op { op: r[1]->SelfDouble_0, target: Target::LineWise, outer_count: oc })
    } else if r.len() == 3 && r[0] is LeaderPrefix && (r[1] is WindowPrefix || r[1] is BookmarkPrefix)
        && r[2] is Direct {
        Some(Expr::Direct { kind: r[2]->Direct_0, count: oc })
    } else if r.len() == 2 && r[0] is GotoPrefix && r[1] is GotoPrefix {
        Some(Expr::Motion(MotionExpr { motion: MotionKind::FileStart, count: if count_present { oc } else { 0 } }))
    } else if r.len() == 2 && r[0] is GotoPrefix && r[1] is Motion {
        Some(Expr::Motion(MotionExpr { motion: r[1]->Motion_0, count: oc }))
    } else if r.len() >= 2 && r[0] is GotoPrefix && r[1] is Op {
        spec_build_op_expr(r[1]->Op_0, r.skip(2), oc)
    } else if r.len() >= 2 && r[0] == Token::Op(Operator::Yank) && r[1] is SurroundAddPrefix {
        spec_build_surround_add(r.skip(2))
    } else if r.len() == 4 && r[0] == Token::Op(Operator::Change) && r[1] is SurroundChangePrefix
        && r[2] is SurroundChar && r[3] is SurroundChar {
        Some(Expr::SurroundChange { from: r[2]->SurroundChar_0, to: r[3]->SurroundChar_0 })
    } else if r.len() == 3 && r[0] == Token::Op(Operator::Delete) && r[1] is SurroundDeletePrefix
        && r[2] is SurroundChar {
        Some(Expr::SurroundDelete { ch: r[2]->SurroundChar_0 })
    } else if r.len() >= 1 && r[0] is Op {
        spec_build_op_expr(r[0]->Op_0, r.skip(1), oc)
    } else {
        None
    }
}

/// The tokens after a `ys` prefix that can still grow into a complete
/// surround-add command.
pub open spec fn spec_valid_ys_tail(t: Seq<Token>) -> bool {
    let a = spec_take_count(t).1;
    ||| a.len() == 0
    ||| a.len() == 1 && (a[0] is Scope || a[0] is FindCharPrefix || a[0] is GotoPrefix || a[0] is Motion
        || a[0] is SelfDouble)
    ||| a.len() == 2 && (a[0] is FindCharPrefix || a[0] is GotoPrefix) && a[1] is Motion
    ||| a.len() == 2 && a[0] is Scope && a[1] is Object
}

/// Token lists that are an unfinished prefix of a command: the parser
/// keeps accumulating instead of dropping them.
pub open spec fn spec_valid_prefix(s: Seq<Token>) -> bool
    decreases s.len(),
{
    let r = spec_take_count(s).1;
    if r.len() == 0 {
        true
    } else if r.len() == 1 && (r[0] is LeaderPrefix || r[0] is CtrlWPrefix || r[0] is GotoPrefix
        || r[0] is BracketPrefix || r[0] is ZPrefix || r[0] is FindCharPrefix || r[0] is ReplaceCharPrefix
        || r[0] is Op) {
        true
    } else if r.len() == 2 && r[0] is LeaderPrefix && (r[1] is WindowPrefix || r[1] is BookmarkPrefix) {
        true
    } else if r.len() == 2 && r[0] is Op && (r[1] is Scope || r[1] is FindCharPrefix || r[1] is GotoPrefix) {
        true
    } else if r.len() >= 2 && r[0] is Op && r[1] is Count {
        let a = spec_take_count(r.skip(1)).1;
        a.len() == 0 || (a.len() == 1 && (a[0] is Scope || a[0] is FindCharPrefix))
    } else if r.len() >= 2 && r[0] is GotoPrefix && r[1] is Op {
        proof {
            lemma_lead_counts(s, 0);
        }
        spec_valid_prefix(r.skip(1))
    } else if r.len() == 2 && r[0] == Token::Op(Operator::Delete) && r[1] is SurroundDeletePrefix {
        true
    } else if r.len() == 2 && r[0] == Token::Op(Operator::Change) && r[1] is SurroundChangePrefix {
        true
    } else if r.len() == 3 && r[0] == Token::Op(Operator::Change) && r[1] is SurroundChangePrefix
        && r[2] is SurroundChar {
        true
    } else if r.len() >= 2 && r[0] == Token::Op(Operator::Yank) && r[1] is SurroundAddPrefix {
        spec_valid_ys_tail(r.skip(2))
    } else {
        false
    }
}

/// What `classify` answers for a token list.
pub open spec fn spec_classify(s: Seq<Token>) -> Parse {
    match spec_build_expr(s) {
        Some(e) => Parse::Complete(e),
        None => if spec_valid_prefix(s) { Parse::Incomplete } else { Parse::Invalid },
    }
}


fn build_op_expr(op: Operator, tokens: &[Token], from: usize, outer_count: u32) -> (r: Option<Expr>)
    requires
        from <= tokens@.len(),
    ensures
        r == spec_build_op_expr(op, tokens@.skip(from as int), outer_count),
{
    let (mc, b) = take_count(tokens, from);
    let n = tokens.len() - b;
    let ghost bs = tokens@.skip(b as int);
    assert(bs.len() == n);
    if n == 1 {
        assert(bs[0] == tokens@[b as int]);
        match tokens[b] {
            Token::SelfDouble(_) => Some(
                Expr::Op { op, target: Target::LineWise, outer_count: saturating_mul_u32(outer_count, mc) },
            ),
            Token::Motion(m) => Some(
                Expr::Op { op, target: Target::Motion(MotionExpr { motion: m, count: mc }), outer_count },
            ),
            _ => None,
        }
    } else if n == 2 {
        assert(bs[0] == tokens@[b as int]);
        assert(bs[1] == tokens@[b + 1]);
        match (tokens[b], tokens[b + 1]) {
            (Token::FindCharPrefix { .. }, Token::Motion(m)) => Some(
                Expr::Op { op, target: Target::Motion(MotionExpr { motion: m, count: mc }), outer_count },
            ),
            (Token::GotoPrefix, Token::Motion(m)) => Some(
                Expr::Op { op, target: Target::Motion(MotionExpr { motion: m, count: mc }), outer_count },
            ),
            (Token::GotoPrefix, Token::Direct(DirectKind::SearchSelectNext { reverse })) => Some(
                Expr::Op {
                    op,
                    target: Target::SearchMatch { reverse },
                    outer_count: saturating_mul_u32(outer_count, mc),
                },
            ),
            (Token::Scope(sc), Token::Object(o)) => if mc == 1 {
                Some(Expr::Op { op, target: Target::TextObject { scope: sc, object: o }, outer_count })
            } else {
                None
            },
            _ => None,
        }
    } else {
        None
    }
}

/// `spec_build_surround_add` of `tokens[from..]`.
fn build_surround_add(tokens: &[Token], from: usize) -> (r: Option<Expr>)
    requires
        from <= tokens@.len(),
    ensures
        r == spec_build_surround_add(tokens@.skip(from as int)),
{
    let ghost inner = tokens@.skip(from as int);
    if tokens.len() == from {
        return None;
    }
    let last = tokens.len() - 1;
    assert(inner.last() == tokens@[last as int]);
    let ch = match tokens[last] {
        Token::SurroundChar(c) => c,
        _ => return None,
    };
    let t = vstd::slice::slice_subrange(tokens, 0, last);
    assert(t@ =~= tokens@.take(last as int));
    assert(t@.skip(from as int) =~= inner.drop_last());
    let (mc, b) = take_count(t, from);
    let n = last - b;
    let ghost bs = t@.skip(b as int);
    assert(bs.len() == n);
    let target = if n == 1 {
        assert(bs[0] == t@[b as int]);
        match t[b] {
            Token::SelfDouble(_) => Target::LineWise,
            Token::Motion(m) => Target::Motion(MotionExpr { motion: m, count: mc }),
            _ => return None,
        }
    } else if n == 2 {
        assert(bs[0] == t@[b as int]);
        assert(bs[1] == t@[b + 1]);
        match (t[b], t[b + 1]) {
            (Token::FindCharPrefix { .. }, Token::Motion(m)) => Target::Motion(MotionExpr { motion: m, count: mc }),
            (Token::GotoPrefix, Token::Motion(m)) => Target::Motion(MotionExpr { motion: m, count: mc }),
            (Token::Scope(sc), Token::Object(o)) => if mc == 1 {
                Target::TextObject { scope: sc, object: o }
            } else {
                return None;
            },
            _ => return None,
        }
    } else {
        return None;
    };
    Some(Expr::SurroundAdd { target, ch })
}

fn build_expr(tokens: &[Token]) -> (r: Option<Expr>)
    ensures
        r == spec_build_expr(tokens@),
{
    let count_present = tokens.len() > 0 && match tokens[0] {
        Token::Count(_) => true,
        _ => false,
    };
    let (oc, b) = take_count(tokens, 0);
    assert(tokens@.skip(0) =~= tokens@);
    let n = tokens.len() - b;
    let ghost r = tokens@.skip(b as int);
    assert(r.len() == n);
    if n == 0 {
        return None;
    }
    assert(r[0] == tokens@[b as int]);
    let t0 = tokens[b];
    if n == 1 {
        return match t0 {
            Token::Direct(d) => Some(Expr::Direct { kind: d, count: oc }),
            Token::Motion(m) => Some(
                Expr::Motion(MotionExpr { motion: m, count: goto_aware_count(m, oc, count_present) }),
            ),
            Token::Op(op) => build_op_expr(op, tokens, b + 1, oc),
            _ => None,
        };
    }
    assert(r[1] == tokens@[b + 1]);
    assert(r.skip(1) =~= tokens@.skip(b + 1));
    assert(r.skip(2) =~= tokens@.skip(b + 2));
    let t1 = tokens[b + 1];
    if n == 2 {
        match (t0, t1) {
            (Token::FindCharPrefix { .. }, Token::Motion(m)) => {
                return Some(Expr::Motion(MotionExpr { motion: m, count: oc }));
            },
            (Token::LeaderPrefix, Token::Direct(d))
            | (Token::CtrlWPrefix, Token::Direct(d))
            | (Token::BracketPrefix { .. }, Token::Direct(d))
            | (Token::GotoPrefix, Token::Direct(d))
            | (Token::ZPrefix, Token::Direct(d))
            | (Token::ReplaceCharPrefix, Token::Direct(d)) => {
                return Some(Expr::Direct { kind: d, count: oc });
            },
            (Token::LeaderPrefix, Token::SelfDouble(op)) => {
                return Some(Expr::Op { op, target: Target::LineWise, outer_count: oc });
            },
            (Token::GotoPrefix, Token::GotoPrefix) => {
                return Some(
                    Expr::Motion(
                        MotionExpr { motion: MotionKind::FileStart, count: if count_present { oc } else { 0 } },
                    ),
                );
            },
            (Token::GotoPrefix, Token::Motion(m)) => {
                return Some(Expr::Motion(MotionExpr { motion: m, count: oc }));
            },
            _ => {},
        }
    }
    if n == 3 {
        assert(r[2] == tokens@[b + 2]);
        match (t0, t1, tokens[b + 2]) {
            (Token::LeaderPrefix, Token::WindowPrefix, Token::Direct(d))
            | (Token::LeaderPrefix, Token::BookmarkPrefix, Token::Direct(d)) => {
                return Some(Expr::Direct { kind: d, count: oc });
            },
            _ => {},
        }
    }
    match (t0, t1) {
        (Token::GotoPrefix, Token::Op(op)) => {
            return build_op_expr(op, tokens, b + 2, oc);
        },
        (Token::Op(Operator::Yank), Token::SurroundAddPrefix) => {
            return build_surround_add(tokens, b + 2);
        },
        _ => {},
    }
    if n == 4 {
        assert(r[2] == tokens@[b + 2]);
        assert(r[3] == tokens@[b + 3]);
        match (t0, t1, tokens[b + 2], tokens[b + 3]) {
            (
                Token::Op(Operator::Change),
                Token::SurroundChangePrefix,
                Token::SurroundChar(from),
                Token::SurroundChar(to),
            ) => {
                return Some(Expr::SurroundChange { from, to });
            },
            _ => {},
        }
    }
    if n == 3 {
        match (t0, t1, tokens[b + 2]) {
            (Token::Op(Operator::Delete), Token::SurroundDeletePrefix, Token::SurroundChar(ch)) => {
                return Some(Expr::SurroundDelete { ch });
            },
            _ => {},
        }
    }
    match t0 {
        Token::Op(op) => build_op_expr(op, tokens, b + 1, oc),
        _ => None,
    }
}

fn is_valid_ys_tail(tokens: &[Token], from: usize) -> (r: bool)
    requires
        from <= tokens@.len(),
    ensures
        r == spec_valid_ys_tail(tokens@.skip(from as int)),
{
    let (_, b) = take_count(tokens, from);
    let n = tokens.len() - b;
    let ghost a = tokens@.skip(b as int);
    assert(a.len() == n);
    if n == 0 {
        true
    } else if n == 1 {
        assert(a[0] == tokens@[b as int]);
        match tokens[b] {
            Token::Scope(_) | Token::FindCharPrefix { .. } | Token::GotoPrefix | Token::Motion(_)
            | Token::SelfDouble(_) => true,
            _ => false,
        }
    } else if n == 2 {
        assert(a[0] == tokens@[b as int]);
        assert(a[1] == tokens@[b + 1]);
        match (tokens[b], tokens[b + 1]) {
            (Token::FindCharPrefix { .. }, Token::Motion(_))
            | (Token::GotoPrefix, Token::Motion(_))
            | (Token::Scope(_), Token::Object(_)) => true,
            _ => false,
        }
    } else {
        false
    }
}

fn is_valid_prefix(tokens: &[Token], from: usize) -> (r: bool)
    requires
        from <= tokens@.len(),
    ensures
        r == spec_valid_prefix(tokens@.skip(from as int)),
    decreases tokens@.len() - from,
{
    let ghost s = tokens@.skip(from as int);
    let (_, b) = take_count(tokens, from);
    let n = tokens.len() - b;
    let ghost r = tokens@.skip(b as int);
    assert(r.len() == n);
    if n == 0 {
        return true;
    }
    assert(r[0] == tokens@[b as int]);
    let t0 = tokens[b];
    if n == 1 {
        return match t0 {
            Token::LeaderPrefix | Token::CtrlWPrefix | Token::GotoPrefix | Token::BracketPrefix { .. }
            | Token::ZPrefix | Token::FindCharPrefix { .. } | Token::ReplaceCharPrefix | Token::Op(_) => true,
            _ => false,
        };
    }
    assert(r[1] == tokens@[b + 1]);
    assert(r.skip(1) =~= tokens@.skip(b + 1));
    assert(r.skip(2) =~= tokens@.skip(b + 2));
    let t1 = tokens[b + 1];
    if n == 2 {
        match (t0, t1) {
            (Token::LeaderPrefix, Token::WindowPrefix)
            | (Token::LeaderPrefix, Token::BookmarkPrefix)
            | (Token::Op(_), Token::Scope(_))
            | (Token::Op(_), Token::FindCharPrefix { .. })
            | (Token::Op(_), Token::GotoPrefix) => {
                return true;
            },
            _ => {},
        }
    }
    match (t0, t1) {
        (Token::Op(_), Token::Count(_)) => {
            let (_, c) = take_count(tokens, b + 1);
            let m = tokens.len() - c;
            let ghost a = tokens@.skip(c as int);
            assert(a.len() == m);
            if m == 0 {
                return true;
            }
            if m == 1 {
                assert(a[0] == tokens@[c as int]);
                return match tokens[c] {
                    Token::Scope(_) | Token::FindCharPrefix { .. } => true,
                    _ => false,
                };
            }
            return false;
        },
        (Token::GotoPrefix, Token::Op(_)) => {
            return is_valid_prefix(tokens, b + 1);
        },
        _ => {},
    }
    if n == 2 {
        match (t0, t1) {
            (Token::Op(Operator::Delete), Token::SurroundDeletePrefix)
            | (Token::Op(Operator::Change), Token::SurroundChangePrefix) => {
                return true;
            },
            _ => {},
        }
    }
    if n == 3 {
        assert(r[2] == tokens@[b + 2]);
        match (t0, t1, tokens[b + 2]) {
            (Token::Op(Operator::Change), Token::SurroundChangePrefix, Token::SurroundChar(_)) => {
                return true;
            },
            _ => {},
        }
    }
    match (t0, t1) {
        (Token::Op(Operator::Yank), Token::SurroundAddPrefix) => is_valid_ys_tail(tokens, b + 2),
        _ => false,
    }
}

/// Interpret the token list typed so far: a finished command
/// (`Complete`), a valid prefix of one that should keep accumulating
/// (`Incomplete`), or junk to drop (`Invalid`).
pub fn classify(tokens: &[Token]) -> (r: Parse)
    ensures
        r == spec_classify(tokens@),
{
    if let Some(expr) = build_expr(tokens) {
        return Parse::Complete(expr);
    }
    assert(tokens@.skip(0) =~= tokens@);
    if is_valid_prefix(tokens, 0) {
        return Parse::Incomplete;
    }
    Parse::Invalid
}

} // verus!
