//! Transient messages surfaced as bottom-right toasts.
//!
//! Up to [`MAX_ACTIVE`] toasts are visible at once; overflow waits in a
//! pending queue (at most [`MAX_PENDING`], oldest dropped first) and is
//! promoted as active toasts expire. Times are milliseconds read from the
//! clock; every time-dependent operation has a variant taking `now`.

use std::collections::VecDeque;

use vstd::prelude::*;

verus! {

/// Severity of a toast.
#[derive(Debug, Clone, Copy, PartialEq, Eq, Structural)]
pub enum Level {
    Info,
    Warn,
    Error,
    Fatal,
}

/// Lifetime of info/warn toasts, in milliseconds.
pub const TTL_MS: u64 = 3000;
/// Lifetime of error toasts, in milliseconds.
pub const ERROR_TTL_MS: u64 = 1500;
/// What `remaining` reports while only fatal toasts are live.
pub const FATAL_REMAINING_MS: u64 = 3_600_000;
/// Simultaneously-visible toasts.
pub const MAX_ACTIVE: usize = 3;
/// Buffered toasts waiting for a visible slot.
pub const MAX_PENDING: usize = 32;

/// How long a toast of this level stays visible; `None` for sticky
/// (fatal) toasts.
pub open spec fn spec_ttl(level: Level) -> Option<u64> {
    match level {
        Level::Fatal => None,
        Level::Error => Some(ERROR_TTL_MS),
        _ => Some(TTL_MS),
    }
}

impl Level {
    pub fn ttl(self) -> (r: Option<u64>)
        ensures
            r == spec_ttl(self),
    {
        match self {
            Level::Fatal => None,
            Level::Error => Some(ERROR_TTL_MS),
            Level::Info | Level::Warn => Some(TTL_MS),
        }
    }
}

/// Milliseconds since the Unix epoch, from `std::time::SystemTime::now`.
/// Nothing is stated of the value: it is whatever the system clock reads.
#[verifier::external_body]
pub fn clock_ms() -> u64 {
    match std::time::SystemTime::now().duration_since(std::time::UNIX_EPOCH) {
        Ok(d) => d.as_millis() as u64,
        Err(_) => 0,
    }
}

/// A toast's text, level and the time it became visible.
pub type ToastView = (Seq<char>, Level, u64);

#[derive(Debug)]
pub struct Toast {
    text: String,
    level: Level,
    shown_at: u64,
}

impl View for Toast {
    type V = ToastView;

    closed spec fn view(&self) -> ToastView {
        (self.text@, self.level, self.shown_at)
    }
}

impl Toast {
    /// A toast shown at time `shown_at`.
    pub fn with_shown_at(s: &str, level: Level, shown_at: u64) -> (r: Toast)
        ensures
            r@ == (s@, level, shown_at),
    {
        Toast { text: s.to_string(), level, shown_at }
    }

    fn new(s: &str, level: Level) -> (r: Toast)
        ensures
            r@.0 == s@,
            r@.1 == level,
    {
        Toast::with_shown_at(s, level, clock_ms())
    }

    pub fn info(s: &str) -> (r: Toast)
        ensures
            r@.0 == s@,
            r@.1 == Level::Info,
    {
        Self::new(s, Level::Info)
    }

    pub fn warn(s: &str) -> (r: Toast)
        ensures
            r@.0 == s@,
            r@.1 == Level::Warn,
    {
        Self::new(s, Level::Warn)
    }

    pub fn error(s: &str) -> (r: Toast)
        ensures
            r@.0 == s@,
            r@.1 == Level::Error,
    {
        Self::new(s, Level::Error)
    }

    pub fn fatal(s: &str) -> (r: Toast)
        ensures
            r@.0 == s@,
            r@.1 == Level::Fatal,
    {
        Self::new(s, Level::Fatal)
    }

    pub fn text(&self) -> (r: &str)
        ensures
            r@ == self@.0,
    {
        self.text.as_str()
    }

    pub fn level(&self) -> (r: Level)
        ensures
            r == self@.1,
    {
        self.level
    }

    pub fn shown_at(&self) -> (r: u64)
        ensures
            r == self@.2,
    {
        self.shown_at
    }

    /// Re-stamp the time the toast became visible.
    fn restamp(&mut self, now: u64)
        ensures
            final(self)@ == (old(self)@.0, old(self)@.1, now),
    {
        self.shown_at = now;
    }
}

/// The abstract queue: visible toasts (oldest first) and pending ones.
pub type QueueModel = (Seq<ToastView>, Seq<ToastView>);

pub open spec fn restamped(t: ToastView, now: u64) -> ToastView {
    (t.0, t.1, now)
}

/// `push`: empty text is dropped; a toast equal in level and text to the
/// most recently queued one (pending tail, else active tail) only
/// re-stamps that one; otherwise it goes to a free visible slot, or to
/// the pending queue (whose oldest entry is dropped when full).
pub open spec fn spec_push(q: QueueModel, t: ToastView, now: u64) -> QueueModel {
    if t.0.len() == 0 {
        q
    } else if q.1.len() > 0 && q.1.last().1 == t.1 && q.1.last().0 == t.0 {
        (q.0, q.1.update(q.1.len() - 1, restamped(q.1.last(), now)))
    } else if q.1.len() == 0 && q.0.len() > 0 && q.0.last().1 == t.1 && q.0.last().0 == t.0 {
        (q.0.update(q.0.len() - 1, restamped(q.0.last(), now)), q.1)
    } else if q.0.len() < MAX_ACTIVE {
        (q.0.push(t), q.1)
    } else {
        (q.0, (if q.1.len() >= MAX_PENDING { q.1.drop_first() } else { q.1 }).push(t))
    }
}

/// Milliseconds since `t` became visible (zero if the clock reads earlier).
pub open spec fn elapsed(t: ToastView, now: u64) -> u64 {
    if now >= t.2 { (now - t.2) as u64 } else { 0 }
}

/// A toast is still live at `now`: sticky, or younger than its TTL.
pub open spec fn is_live(t: ToastView, now: u64) -> bool {
    match spec_ttl(t.1) {
        None => true,
        Some(ttl) => elapsed(t, now) < ttl,
    }
}

/// The live toasts of `s`, in order.
pub open spec fn live(s: Seq<ToastView>, now: u64) -> Seq<ToastView>
    decreases s.len(),
{
    if s.len() == 0 {
        s
    } else if is_live(s.last(), now) {
        live(s.drop_last(), now).push(s.last())
    } else {
        live(s.drop_last(), now)
    }
}

/// Move pending toasts into free visible slots, oldest first, each
/// re-stamped to `now`.
pub open spec fn promote(a: Seq<ToastView>, p: Seq<ToastView>, now: u64) -> QueueModel
    decreases p.len(),
{
    if a.len() < MAX_ACTIVE && p.len() > 0 {
        promote(a.push(restamped(p[0], now)), p.drop_first(), now)
    } else {
        (a, p)
    }
}

/// `tick`: expired non-fatal toasts are dropped, then pending ones are
/// promoted into the freed slots.
pub open spec fn spec_tick(q: QueueModel, now: u64) -> QueueModel {
    promote(live(q.0, now), q.1, now)
}

/// Time left for one toast: `None` for sticky toasts.
pub open spec fn time_left(t: ToastView, now: u64) -> Option<u64> {
    match spec_ttl(t.1) {
        None => None,
        Some(ttl) => Some(if ttl >= elapsed(t, now) { (ttl - elapsed(t, now)) as u64 } else { 0 }),
    }
}

/// The smallest time left over the non-sticky toasts of `s`.
pub open spec fn min_time_left(s: Seq<ToastView>, now: u64) -> Option<u64>
    decreases s.len(),
{
    if s.len() == 0 {
        None
    } else {
        match (min_time_left(s.drop_last(), now), time_left(s.last(), now)) {
            (Some(m), Some(x)) => Some(if x < m { x } else { m }),
            (Some(m), None) => Some(m),
            (None, x) => x,
        }
    }
}

pub open spec fn has_fatal_in(s: Seq<ToastView>) -> bool {
    exists|i: int| 0 <= i < s.len() && s[i].1 == Level::Fatal
}

/// `remaining`: `None` with nothing visible; else the soonest expiry among
/// non-fatal toasts, or [`FATAL_REMAINING_MS`] when only fatal ones show.
pub open spec fn spec_remaining(q: QueueModel, now: u64) -> Option<u64> {
    if q.0.len() == 0 {
        None
    } else {
        match min_time_left(q.0, now) {
            Some(m) => Some(m),
            None => if has_fatal_in(q.0) { Some(FATAL_REMAINING_MS) } else { None },
        }
    }
}

/// Index of the oldest fatal toast.
pub open spec fn first_fatal(s: Seq<ToastView>, i: int) -> bool {
    &&& 0 <= i < s.len()
    &&& s[i].1 == Level::Fatal
    &&& forall|j: int| 0 <= j < i ==> s[j].1 != Level::Fatal
}

pub open spec fn queue_wf(q: QueueModel) -> bool {
    q.0.len() <= MAX_ACTIVE && q.1.len() <= MAX_PENDING
}

pub struct ToastQueue {
    active: Vec<Toast>,
    pending: VecDeque<Toast>,
}

impl ToastQueue {
    #[verifier::type_invariant]
    spec fn inv(self) -> bool {
        self.active@.len() <= MAX_ACTIVE && self.pending@.len() <= MAX_PENDING
    }

    /// The abstract state.
    pub closed spec fn model(&self) -> QueueModel {
        (views(self.active@), views(self.pending@))
    }

    pub fn new() -> (r: ToastQueue)
        ensures
            r.model() == (Seq::<ToastView>::empty(), Seq::<ToastView>::empty()),
            queue_wf(r.model()),
    {
        let r = ToastQueue { active: Vec::new(), pending: VecDeque::new() };
        assert(r.model().0 =~= Seq::<ToastView>::empty());
        assert(r.model().1 =~= Seq::<ToastView>::empty());
        r
    }

    /// Queue a toast, reading the clock for a re-stamp; see [`spec_push`].
    pub fn push(&mut self, t: Toast)
        ensures
            exists|now: u64| final(self).model() == spec_push(old(self).model(), t@, now),
            queue_wf(final(self).model()),
    {
        let now = clock_ms();
        self.push_at(t, now);
    }

    /// Queue a toast at time `now`; see [`spec_push`].
    pub fn push_at(&mut self, t: Toast, now: u64)
        ensures
            final(self).model() == spec_push(old(self).model(), t@, now),
            queue_wf(final(self).model()),
    {
        proof {
            use_type_invariant(&*self);
        }
        let mut tmp = ToastQueue::new();
        std::mem::swap(self, &mut tmp);
        let ToastQueue { mut active, mut pending } = tmp;
        push_parts(&mut active, &mut pending, t, now);
        *self = ToastQueue { active, pending };
        proof {
            use_type_invariant(&*self);
        }
    }

    /// Drop expired toasts and promote pending ones, reading the clock;
    /// see [`spec_tick`].
    pub fn tick(&mut self)
        ensures
            exists|now: u64| final(self).model() == spec_tick(old(self).model(), now),
            queue_wf(final(self).model()),
    {
        let now = clock_ms();
        self.tick_at(now);
    }

    /// Drop toasts expired at `now` and promote pending ones; see
    /// [`spec_tick`].
    pub fn tick_at(&mut self, now: u64)
        ensures
            final(self).model() == spec_tick(old(self).model(), now),
            queue_wf(final(self).model()),
    {
        proof {
            use_type_invariant(&*self);
        }
        let mut tmp = ToastQueue::new();
        std::mem::swap(self, &mut tmp);
        let ToastQueue { active, mut pending } = tmp;
        let active = tick_parts(active, &mut pending, now);
        *self = ToastQueue { active, pending };
        proof {
            use_type_invariant(&*self);
        }
    }

    /// Visible toasts, oldest first.
    pub fn active(&self) -> (r: &[Toast])
        ensures
            views(r@) == self.model().0,
            r@.len() <= MAX_ACTIVE,
            queue_wf(self.model()),
    {
        proof {
            use_type_invariant(self);
        }
        self.active.as_slice()
    }

    /// Number of toasts waiting for a visible slot.
    pub fn pending_len(&self) -> (r: usize)
        ensures
            r == self.model().1.len(),
            r <= MAX_PENDING,
    {
        proof {
            use_type_invariant(self);
        }
        self.pending.len()
    }

    /// Time until the next state change, reading the clock; see
    /// [`spec_remaining`].
    pub fn remaining(&self) -> (r: Option<u64>)
        ensures
            exists|now: u64| r == spec_remaining(self.model(), now),
    {
        let now = clock_ms();
        self.remaining_at(now)
    }

    /// Time until the next state change at `now`; see [`spec_remaining`].
    pub fn remaining_at(&self, now: u64) -> (r: Option<u64>)
        ensures
            r == spec_remaining(self.model(), now),
    {
        let ghost a = self.model().0;
        if self.active.len() == 0 {
            return None;
        }
        let mut min: Option<u64> = None;
        let mut has_fatal = false;
        let mut i: usize = 0;
        while i < self.active.len()
            invariant
                a == views(self.active@),
                i <= a.len(),
                min == min_time_left(a.take(i as int), now),
                has_fatal == has_fatal_in(a.take(i as int)),
            decreases a.len() - i,
        {
            let t = &self.active[i];
            assert(a.take(i + 1).drop_last() =~= a.take(i as int));
            assert(a.take(i + 1).last() == t@);
            match t.level.ttl() {
                None => {
                    has_fatal = true;
                },
                Some(ttl) => {
                    let rem = ttl.saturating_sub(now.saturating_sub(t.shown_at));
                    min = Some(
                        match min {
                            Some(m) => if rem < m { rem } else { m },
                            None => rem,
                        },
                    );
                },
            }
            proof {
                let s1 = a.take(i + 1);
                let s0 = a.take(i as int);
                assert forall|k: int| 0 <= k < i implies s1[k] == s0[k] by {}
                if has_fatal_in(s1) && !(t@.1 == Level::Fatal) {
                    let k = choose|k: int| 0 <= k < s1.len() && #[trigger] s1[k].1 == Level::Fatal;
                    assert(s0[k].1 == Level::Fatal);
                }
                if has_fatal_in(s0) {
                    let k = choose|k: int| 0 <= k < s0.len() && #[trigger] s0[k].1 == Level::Fatal;
                    assert(s1[k].1 == Level::Fatal);
                }
                if t@.1 == Level::Fatal {
                    assert(s1[i as int].1 == Level::Fatal);
                }
            }
            i = i + 1;
        }
        assert(a.take(a.len() as int) =~= a);
        match min {
            Some(d) => Some(d),
            None => if has_fatal { Some(FATAL_REMAINING_MS) } else { None },
        }
    }

    /// Index of the oldest visible fatal toast.
    fn first_fatal_index(&self) -> (r: Option<usize>)
        ensures
            r is None <==> !has_fatal_in(self.model().0),
            r matches Some(i) ==> first_fatal(self.model().0, i as int),
    {
        let ghost a = self.model().0;
        let mut i: usize = 0;
        while i < self.active.len()
            invariant
                a == views(self.active@),
                i <= a.len(),
                forall|j: int| 0 <= j < i ==> a[j].1 != Level::Fatal,
            decreases a.len() - i,
        {
            if self.active[i].level == Level::Fatal {
                assert(a[i as int].1 == Level::Fatal);
                return Some(i);
            }
            i = i + 1;
        }
        None
    }

    /// Drop the oldest visible fatal toast; `false` when there is none.
    pub fn dismiss_fatal(&mut self) -> (r: bool)
        ensures
            r == has_fatal_in(old(self).model().0),
            r ==> exists|i: int| first_fatal(old(self).model().0, i)
                && final(self).model() == (old(self).model().0.remove(i), old(self).model().1),
            !r ==> final(self).model() == old(self).model(),
            queue_wf(final(self).model()),
    {
        proof {
            use_type_invariant(&*self);
        }
        match self.first_fatal_index() {
            None => false,
            Some(i) => {
                let ghost q = self.model();
                let mut tmp = ToastQueue::new();
                std::mem::swap(self, &mut tmp);
                proof {
                    use_type_invariant(&tmp);
                }
                let ToastQueue { mut active, pending } = tmp;
                active.remove(i);
                assert(views(active@) =~= q.0.remove(i as int));
                *self = ToastQueue { active, pending };
                proof {
                    use_type_invariant(&*self);
                }
                true
            },
        }
    }

    /// True iff a visible toast is fatal.
    pub fn has_fatal(&self) -> (r: bool)
        ensures
            r == has_fatal_in(self.model().0),
    {
        self.first_fatal_index().is_some()
    }

    /// Drop every toast, visible and pending.
    pub fn clear(&mut self)
        ensures
            final(self).model() == (Seq::<ToastView>::empty(), Seq::<ToastView>::empty()),
            queue_wf(final(self).model()),
    {
        *self = ToastQueue::new();
    }
}

fn tick_parts(active: Vec<Toast>, pending: &mut VecDeque<Toast>, now: u64) -> (r: Vec<Toast>)
    requires
        queue_wf((views(active@), views(old(pending)@))),
    ensures
        (views(r@), views(final(pending)@)) == spec_tick((views(active@), views(old(pending)@)), now),
        queue_wf((views(r@), views(final(pending)@))),
{
    let ghost a0 = views(active@);
    let ghost target = spec_tick((a0, views(pending@)), now);
    let mut rest = active;
    let mut kept: Vec<Toast> = Vec::new();
    let mut i: usize = 0;
    while rest.len() > 0
        invariant
            a0.len() <= MAX_ACTIVE,
            i + rest@.len() == a0.len(),
            views(rest@) == a0.skip(i as int),
            views(kept@) == live(a0.take(i as int), now),
            kept@.len() <= i,
        decreases rest@.len(),
    {
        let ghost before = rest@;
        let t = rest.remove(0);
        assert(views(rest@) =~= views(before).drop_first());
        assert(views(before).drop_first() =~= a0.skip(i + 1));
        assert(t@ == a0[i as int]) by {
            assert(views(before)[0] == a0.skip(i as int)[0]);
        }
        assert(a0.take(i + 1).drop_last() =~= a0.take(i as int));
        let keep = match t.level.ttl() {
            None => true,
            Some(ttl) => now.saturating_sub(t.shown_at) < ttl,
        };
        if keep {
            kept.push(t);
            assert(views(kept@) =~= live(a0.take(i as int), now).push(t@));
        }
        i = i + 1;
    }
    assert(a0.take(a0.len() as int) =~= a0);
    while kept.len() < MAX_ACTIVE
        invariant
            promote(views(kept@), views(pending@), now) == target,
            kept@.len() <= MAX_ACTIVE,
            pending@.len() <= MAX_PENDING,
        ensures
            promote(views(kept@), views(pending@), now) == target,
            kept@.len() <= MAX_ACTIVE,
            pending@.len() <= MAX_PENDING,
            kept@.len() >= MAX_ACTIVE || pending@.len() == 0,
        decreases pending@.len(),
    {
        let ghost p = views(pending@);
        let ghost k = views(kept@);
        match pending.pop_front() {
            Some(mut next) => {
                assert(next@ == p[0]);
                next.restamp(now);
                kept.push(next);
                assert(views(kept@) =~= k.push(restamped(p[0], now)));
                assert(views(pending@) =~= p.drop_first());
            },
            None => {
                break;
            },
        }
    }
    kept
}

pub open spec fn views(s: Seq<Toast>) -> Seq<ToastView> {
    s.map_values(|t: Toast| t@)
}

fn push_parts(active: &mut Vec<Toast>, pending: &mut VecDeque<Toast>, t: Toast, now: u64)
    requires
        queue_wf((views(old(active)@), views(old(pending)@))),
    ensures
        (views(final(active)@), views(final(pending)@)) == spec_push(
            (views(old(active)@), views(old(pending)@)),
            t@,
            now,
        ),
        queue_wf((views(final(active)@), views(final(pending)@))),
{
    let ghost q = (views(active@), views(pending@));
    if t.text.as_str().is_empty() {
        return;
    }
    let np = pending.len();
    if np > 0 {
        if pending[np - 1].level == t.level && pending[np - 1].text == t.text {
            let mut last = pending.pop_back().unwrap();
            last.restamp(now);
            pending.push_back(last);
            assert(views(pending@) =~= q.1.update(q.1.len() - 1, restamped(q.1.last(), now)));
            return;
        }
    } else {
        let na = active.len();
        if na > 0 && active[na - 1].level == t.level && active[na - 1].text == t.text {
            let mut last = active.pop().unwrap();
            last.restamp(now);
            active.push(last);
            assert(views(active@) =~= q.0.update(q.0.len() - 1, restamped(q.0.last(), now)));
            return;
        }
    }
    if active.len() < MAX_ACTIVE {
        active.push(t);
        assert(views(active@) =~= q.0.push(t@));
    } else {
        if pending.len() >= MAX_PENDING {
            pending.pop_front();
            assert(views(pending@) =~= q.1.drop_first());
        }
        let ghost mid = views(pending@);
        pending.push_back(t);
        assert(views(pending@) =~= mid.push(t@));
    }
}

proof fn lemma_live_keeps(s: Seq<ToastView>, now: u64, i: int)
    requires
        0 <= i < s.len(),
        is_live(s[i], now),
    ensures
        live(s, now).contains(s[i]),
    decreases s.len(),
{
    if i == s.len() - 1 {
        assert(live(s, now).last() == s[i]);
    } else {
        lemma_live_keeps(s.drop_last(), now, i);
        let k = choose|k: int| 0 <= k < live(s.drop_last(), now).len() && live(s.drop_last(), now)[k] == s[i];
        if is_live(s.last(), now) {
            assert(live(s, now)[k] == s[i]);
        }
    }
}

proof fn lemma_live_len(s: Seq<ToastView>, now: u64)
    ensures
        live(s, now).len() <= s.len(),
    decreases s.len(),
{
    if s.len() > 0 {
        lemma_live_len(s.drop_last(), now);
    }
}

proof fn lemma_promote_extends(a: Seq<ToastView>, p: Seq<ToastView>, now: u64)
    requires
        a.len() <= MAX_ACTIVE,
        p.len() <= MAX_PENDING,
    ensures
        promote(a, p, now).0.len() >= a.len(),
        forall|k: int| 0 <= k < a.len() ==> promote(a, p, now).0[k] == a[k],
        queue_wf(promote(a, p, now)),
    decreases p.len(),
{
    if a.len() < MAX_ACTIVE && p.len() > 0 {
        let a2 = a.push(restamped(p[0], now));
        lemma_promote_extends(a2, p.drop_first(), now);
        assert forall|k: int| 0 <= k < a.len() implies promote(a, p, now).0[k] == a[k] by {
            assert(a2[k] == a[k]);
        }
    }
}

/// Law: every queue operation keeps at most [`MAX_ACTIVE`] toasts
/// visible and at most [`MAX_PENDING`] waiting.
pub proof fn law_queue_ops_keep_bounds(q: QueueModel, t: ToastView, now: u64)
    requires
        queue_wf(q),
    ensures
        queue_wf(spec_push(q, t, now)),
        queue_wf(spec_tick(q, now)),
{
    lemma_live_len(q.0, now);
    lemma_promote_extends(live(q.0, now), q.1, now);
}

/// Law: a fatal toast is never dropped by `tick`, however old it is.
pub proof fn law_fatal_survives_tick(q: QueueModel, now: u64, i: int)
    requires
        queue_wf(q),
        0 <= i < q.0.len(),
        q.0[i].1 == Level::Fatal,
    ensures
        spec_tick(q, now).0.contains(q.0[i]),
{
    lemma_live_keeps(q.0, now, i);
    lemma_live_len(q.0, now);
    lemma_promote_extends(live(q.0, now), q.1, now);
    let k = choose|k: int| 0 <= k < live(q.0, now).len() && live(q.0, now)[k] == q.0[i];
    assert(spec_tick(q, now).0[k] == q.0[i]);
}

/// Law: pushing a toast equal in level and text to the most recently
/// queued one changes no queue length (it only re-stamps that toast).
pub proof fn law_duplicate_push_does_not_grow(q: QueueModel, t: ToastView, now: u64)
    requires
        q.1.len() > 0 ==> (q.1.last().0 == t.0 && q.1.last().1 == t.1),
        q.1.len() == 0 ==> (q.0.len() > 0 && q.0.last().0 == t.0 && q.0.last().1 == t.1),
    ensures
        spec_push(q, t, now).0.len() == q.0.len(),
        spec_push(q, t, now).1.len() == q.1.len(),
{
}

/// Law: a toast with empty text is dropped.
pub proof fn law_empty_toast_is_dropped(q: QueueModel, t: ToastView, now: u64)
    requires
        t.0.len() == 0,
    ensures
        spec_push(q, t, now) == q,
{
}

/// The live toasts are exactly the toasts of `s` that are live, in order.
pub proof fn lemma_live_is_filter(s: Seq<ToastView>, now: u64)
    ensures
        live(s, now) == s.filter(|t: ToastView| is_live(t, now)),
    decreases s.len(),
{
    reveal_with_fuel(Seq::filter, 1);
    if s.len() > 0 {
        lemma_live_is_filter(s.drop_last(), now);
    }
}

/// How many pending toasts fit into the free visible slots.
pub open spec fn room(a_len: int, p_len: int) -> int {
    let free = MAX_ACTIVE - a_len;
    if free < p_len { free } else { p_len }
}

proof fn lemma_promote_closed(a: Seq<ToastView>, p: Seq<ToastView>, now: u64)
    requires
        a.len() <= MAX_ACTIVE,
    ensures
        promote(a, p, now) == (
            a + p.take(room(a.len() as int, p.len() as int)).map_values(|t: ToastView| restamped(t, now)),
            p.skip(room(a.len() as int, p.len() as int)),
        ),
    decreases p.len(),
{
    let k = room(a.len() as int, p.len() as int);
    if a.len() < MAX_ACTIVE && p.len() > 0 {
        let a2 = a.push(restamped(p[0], now));
        let p2 = p.drop_first();
        lemma_promote_closed(a2, p2, now);
        let k2 = room(a2.len() as int, p2.len() as int);
        assert(k2 == k - 1);
        assert(a2 + p2.take(k2).map_values(|t: ToastView| restamped(t, now)) =~= a + p.take(k).map_values(
            |t: ToastView| restamped(t, now),
        ));
        assert(p2.skip(k2) =~= p.skip(k));
    } else {
        assert(k == 0);
        assert(a + p.take(0).map_values(|t: ToastView| restamped(t, now)) =~= a);
        assert(p.skip(0) =~= p);
    }
}

/// Law: `tick` keeps the visible toasts that are still live (sticky, or
/// younger than their TTL), in order, then moves as many pending toasts
/// as fit (oldest first, re-stamped to `now`) into the free slots; the
/// rest stay pending.
pub proof fn law_tick_keeps_live_then_promotes(q: QueueModel, now: u64)
    requires
        queue_wf(q),
    ensures
        ({
            let kept = q.0.filter(|t: ToastView| is_live(t, now));
            let k = room(kept.len() as int, q.1.len() as int);
            spec_tick(q, now) == (kept + q.1.take(k).map_values(|t: ToastView| restamped(t, now)), q.1.skip(k))
        }),
{
    lemma_live_is_filter(q.0, now);
    lemma_live_len(q.0, now);
    lemma_promote_closed(live(q.0, now), q.1, now);
}

/// What [`min_time_left`] is: `None` when every toast of `s` is sticky;
/// otherwise the time left of one non-sticky toast, no more than any
/// other's.
pub proof fn law_min_time_left_is_minimum(s: Seq<ToastView>, now: u64)
    ensures
        min_time_left(s, now) is None <==> forall|i: int| 0 <= i < s.len() ==> #[trigger] time_left(s[i], now) is None,
        min_time_left(s, now) matches Some(m) ==> (exists|i: int| 0 <= i < s.len() && #[trigger] time_left(s[i], now)
            == Some(m)),
        min_time_left(s, now) matches Some(m) ==> forall|i: int|
            0 <= i < s.len() && #[trigger] time_left(s[i], now) is Some ==> m <= time_left(s[i], now)->0,
    decreases s.len(),
{
    if s.len() > 0 {
        let init = s.drop_last();
        law_min_time_left_is_minimum(init, now);
        assert forall|i: int| 0 <= i < init.len() implies init[i] == s[i] by {}
        let last = s.len() - 1;
        if min_time_left(s, now) is None {
            assert forall|i: int| 0 <= i < s.len() implies #[trigger] time_left(s[i], now) is None by {
                if i < last {
                    assert(time_left(init[i], now) is None);
                }
            }
        } else {
            let m = min_time_left(s, now)->0;
            match min_time_left(init, now) {
                Some(m0) => {
                    let w0 = choose|i: int| 0 <= i < init.len() && #[trigger] time_left(init[i], now) == Some(m0);
                    assert(time_left(s[w0], now) == Some(m0));
                    if time_left(s[last], now) matches Some(x) && x < m0 {
                        assert(time_left(s[last], now) == Some(m));
                    }
                    assert forall|i: int| 0 <= i < s.len() && #[trigger] time_left(s[i], now) is Some implies m
                        <= time_left(s[i], now)->0 by {
                        if i < last {
                            assert(time_left(init[i], now) is Some);
                        }
                    }
                },
                None => {
                    assert(time_left(s[last], now) == Some(m));
                    assert forall|i: int| 0 <= i < s.len() && #[trigger] time_left(s[i], now) is Some implies m
                        <= time_left(s[i], now)->0 by {
                        if i < last {
                            assert(time_left(init[i], now) is None);
                        }
                    }
                },
            }
        }
    }
}

/// Law: pushing a non-empty toast either re-stamps the most recently
/// queued toast (the pending tail, else the visible tail) when it has
/// the same level and text, changing nothing else; or appends the toast,
/// to the visible ones while fewer than [`MAX_ACTIVE`] show, else to the
/// pending ones, dropping the oldest pending one when [`MAX_PENDING`]
/// already wait. The queue stays within its bounds.
pub proof fn law_push_refreshes_or_appends(q: QueueModel, t: ToastView, now: u64)
    requires
        queue_wf(q),
        t.0.len() > 0,
    ensures
        queue_wf(spec_push(q, t, now)),
        q.1.len() > 0 && q.1.last().0 == t.0 && q.1.last().1 == t.1 ==> spec_push(q, t, now) == (
            q.0,
            q.1.update(q.1.len() - 1, (q.1.last().0, q.1.last().1, now)),
        ),
        q.1.len() == 0 && q.0.len() > 0 && q.0.last().0 == t.0 && q.0.last().1 == t.1 ==> spec_push(q, t, now) == (
            q.0.update(q.0.len() - 1, (q.0.last().0, q.0.last().1, now)),
            q.1,
        ),
        !(q.1.len() > 0 && q.1.last().0 == t.0 && q.1.last().1 == t.1) && !(q.1.len() == 0 && q.0.len() > 0
            && q.0.last().0 == t.0 && q.0.last().1 == t.1) ==> spec_push(q, t, now) == (if q.0.len() < MAX_ACTIVE {
            (q.0.push(t), q.1)
        } else if q.1.len() == MAX_PENDING {
            (q.0, q.1.drop_first().push(t))
        } else {
            (q.0, q.1.push(t))
        }),
{
    law_queue_ops_keep_bounds(q, t, now);
}

} // verus!
