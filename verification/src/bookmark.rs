//! Harpoon-style bookmarks: a small, manually curated, ordered list of
//! places (buffer and line) the user can jump back to.
//!
//! The list is kept per project. Only file-backed marks are persisted;
//! scratch-buffer marks are session-only. Reading and writing the
//! bookmark file is the caller's business: [`BookmarkStore::load`] takes
//! the stored marks, and [`BookmarkStore::stored_entry`] says what the
//! project's entry in the file must become.

use vstd::prelude::*;

use crate::buffer_ref::{BufferRef, RefView};

verus! {

/// One bookmark: which buffer, and the line to land on (0-based).
#[derive(Debug, Clone)]
pub struct Bookmark {
    pub target: BufferRef,
    pub line: usize,
}

/// The value of a [`Bookmark`].
pub struct MarkView {
    pub target: RefView,
    pub line: usize,
}

impl View for Bookmark {
    type V = MarkView;

    open spec fn view(&self) -> MarkView {
        MarkView { target: self.target@, line: self.line }
    }
}

impl PartialEq for Bookmark {
    fn eq(&self, other: &Self) -> (r: bool) {
        self.line == other.line && self.target == other.target
    }
}

impl vstd::std_specs::cmp::PartialEqSpecImpl for Bookmark {
    open spec fn obeys_eq_spec() -> bool {
        true
    }

    open spec fn eq_spec(&self, other: &Bookmark) -> bool {
        self@ == other@
    }
}

impl Eq for Bookmark {}

/// The on-disk shape of one mark: only file-backed marks are stored, so
/// the buffer is just a path.
#[derive(Debug, Clone)]
pub struct StoredMark {
    pub path: String,
    pub line: usize,
}

/// The value of a [`StoredMark`].
pub struct StoredView {
    pub path: Seq<char>,
    pub line: usize,
}

impl View for StoredMark {
    type V = StoredView;

    open spec fn view(&self) -> StoredView {
        StoredView { path: self.path@, line: self.line }
    }
}

/// The views of a list of marks.
pub open spec fn mark_views(v: Seq<Bookmark>) -> Seq<MarkView> {
    v.map_values(|m: Bookmark| m@)
}

/// The views of a list of stored marks.
pub open spec fn stored_views(v: Seq<StoredMark>) -> Seq<StoredView> {
    v.map_values(|m: StoredMark| m@)
}

/// A stored mark as a bookmark on its file.
pub open spec fn from_stored(m: StoredView) -> MarkView {
    MarkView { target: RefView::File(m.path), line: m.line }
}

/// Whether some mark in the list is on `target`.
pub open spec fn has_target(marks: Seq<MarkView>, target: RefView) -> bool {
    exists|i: int| 0 <= i < marks.len() && (#[trigger] marks[i]).target == target
}

/// No buffer carries two marks.
pub open spec fn unique_targets(marks: Seq<MarkView>) -> bool {
    forall|i: int, j: int| 0 <= i < j < marks.len() ==> (#[trigger] marks[i]).target != (#[trigger] marks[j]).target
}

/// The marks that are not on `target`, in order.
pub open spec fn without_target(marks: Seq<MarkView>, target: RefView) -> Seq<MarkView> {
    marks.filter(|m: MarkView| m.target != target)
}

/// The file-backed marks, as stored, in order.
pub open spec fn persisted(marks: Seq<MarkView>) -> Seq<StoredView>
    decreases marks.len(),
{
    if marks.len() == 0 {
        Seq::empty()
    } else {
        let rest = persisted(marks.drop_last());
        match marks.last().target {
            RefView::File(p) => rest.push(StoredView { path: p, line: marks.last().line }),
            RefView::Scratch(_) => rest,
        }
    }
}

/// The current project's bookmark list and the key its marks are stored
/// under.
pub struct BookmarkStore {
    /// Marks in user order.
    pub marks: Vec<Bookmark>,
    /// The project root, the key in the global bookmark file.
    root: String,
}

impl View for BookmarkStore {
    type V = Seq<MarkView>;

    /// The marks, in order.
    closed spec fn view(&self) -> Seq<MarkView> {
        mark_views(self.marks@)
    }
}

impl BookmarkStore {
    /// The key this project's marks are stored under.
    pub closed spec fn root_view(&self) -> Seq<char> {
        self.root@
    }

    /// The store for the project at `root`, holding the marks that were
    /// stored for it, in stored order.
    pub fn load(root: String, stored: Vec<StoredMark>) -> (r: BookmarkStore)
        ensures
            r.root_view() == root@,
            r@ == stored_views(stored@).map_values(|m: StoredView| from_stored(m)),
    {
        let ghost target = stored_views(stored@).map_values(|m: StoredView| from_stored(m));
        let mut marks: Vec<Bookmark> = Vec::new();
        let mut i: usize = 0;
        while i < stored.len()
            invariant
                i <= stored@.len(),
                target == stored_views(stored@).map_values(|m: StoredView| from_stored(m)),
                mark_views(marks@) == target.take(i as int),
            decreases stored@.len() - i,
        {
            let m = Bookmark { target: BufferRef::File(stored[i].path.clone()), line: stored[i].line };
            let ghost before = marks@;
            marks.push(m);
            assert(mark_views(marks@) =~= target.take(i + 1)) by {
                assert(mark_views(marks@) =~= mark_views(before).push(m@));
            }
            i = i + 1;
        }
        assert(target.take(stored@.len() as int) =~= target);
        BookmarkStore { marks, root }
    }

    /// Whether `target` already carries a mark.
    pub fn contains(&self, target: &BufferRef) -> (r: bool)
        ensures
            r == has_target(self@, target@),
    {
        let ghost v = mark_views(self.marks@);
        let mut i: usize = 0;
        while i < self.marks.len()
            invariant
                i <= self.marks@.len(),
                v == mark_views(self.marks@),
                forall|k: int| 0 <= k < i ==> (#[trigger] v[k]).target != target@,
            decreases self.marks@.len() - i,
        {
            if self.marks[i].target == *target {
                assert(v[i as int].target == target@);
                return true;
            }
            i = i + 1;
        }
        false
    }

    /// Add a mark for `target` at `line`. A buffer already in the list is
    /// left where it is and nothing changes (`false`); otherwise the mark
    /// goes to the end (`true`).
    pub fn add(&mut self, target: BufferRef, line: usize) -> (r: bool)
        ensures
            r == !has_target(old(self)@, target@),
            r ==> final(self)@ == old(self)@.push(MarkView { target: target@, line }),
            !r ==> final(self)@ == old(self)@,
            final(self).root_view() == old(self).root_view(),
    {
        if self.contains(&target) {
            return false;
        }
        let ghost before = mark_views(self.marks@);
        let m = Bookmark { target, line };
        self.marks.push(m);
        assert(mark_views(self.marks@) =~= before.push(m@));
        true
    }

    /// Drop the mark on `target`, if there is one. Returns whether a mark
    /// was removed (and the stored list must be rewritten).
    pub fn remove_target(&mut self, target: &BufferRef) -> (r: bool)
        ensures
            final(self)@ == without_target(old(self)@, target@),
            r == has_target(old(self)@, target@),
            final(self).root_view() == old(self).root_view(),
    {
        let ghost v = mark_views(self.marks@);
        let mut kept: Vec<Bookmark> = Vec::new();
        let mut removed = false;
        let mut i: usize = 0;
        while i < self.marks.len()
            invariant
                i <= self.marks@.len(),
                v == mark_views(self.marks@),
                mark_views(kept@) == without_target(v.take(i as int), target@),
                removed == has_target(v.take(i as int), target@),
            decreases self.marks@.len() - i,
        {
            let m = &self.marks[i];
            proof {
                assert(v.take(i + 1) =~= v.take(i as int).push(v[i as int]));
                lemma_filter_step(v.take(i as int), v[i as int], target@);
                lemma_has_target_push(v.take(i as int), v[i as int], target@);
            }
            if m.target == *target {
                removed = true;
            } else {
                let ghost before = kept@;
                let c = Bookmark { target: m.target.duplicate(), line: m.line };
                kept.push(c);
                assert(mark_views(kept@) =~= mark_views(before).push(c@));
            }
            i = i + 1;
        }
        assert(v.take(self.marks@.len() as int) =~= v);
        self.marks = kept;
        removed
    }

    /// The file-backed marks as they are stored, in order.
    pub fn stored_marks(&self) -> (r: Vec<StoredMark>)
        ensures
            stored_views(r@) == persisted(self@),
    {
        let ghost v = mark_views(self.marks@);
        let mut out: Vec<StoredMark> = Vec::new();
        let mut i: usize = 0;
        while i < self.marks.len()
            invariant
                i <= self.marks@.len(),
                v == mark_views(self.marks@),
                stored_views(out@) == persisted(v.take(i as int)),
            decreases self.marks@.len() - i,
        {
            let ghost t = v.take(i + 1);
            assert(t.drop_last() =~= v.take(i as int));
            assert(t.last() == v[i as int]);
            match &self.marks[i].target {
                BufferRef::File(p) => {
                    let ghost before = out@;
                    let s = StoredMark { path: p.clone(), line: self.marks[i].line };
                    out.push(s);
                    assert(stored_views(out@) =~= stored_views(before).push(s@));
                },
                BufferRef::Scratch(_) => {},
            }
            i = i + 1;
        }
        assert(v.take(self.marks@.len() as int) =~= v);
        out
    }

    /// What this project's entry in the bookmark file must become: the
    /// stored marks, or `None` (drop the entry) when no file-backed mark
    /// is left.
    pub fn stored_entry(&self) -> (r: Option<Vec<StoredMark>>)
        ensures
            match r {
                Some(v) => persisted(self@).len() > 0 && stored_views(v@) == persisted(self@),
                None => persisted(self@).len() == 0,
            },
    {
        let stored = self.stored_marks();
        if stored.len() == 0 {
            None
        } else {
            Some(stored)
        }
    }

    /// The key this project's marks are stored under.
    pub fn root(&self) -> (r: &String)
        ensures
            r@ == self.root_view(),
    {
        &self.root
    }
}

/// One step of a filter: the filter of `s.push(x)` is that of `s`, with
/// `x` appended when it is kept.
pub proof fn lemma_filter_step(s: Seq<MarkView>, x: MarkView, target: RefView)
    ensures
        without_target(s.push(x), target) == (if x.target != target {
            without_target(s, target).push(x)
        } else {
            without_target(s, target)
        }),
{
    reveal(Seq::filter);
    assert(s.push(x).drop_last() =~= s);
    assert(s.push(x).last() == x);
}

/// A buffer is marked in `s.push(x)` when it is marked in `s` or is
/// `x`'s buffer.
pub proof fn lemma_has_target_push(s: Seq<MarkView>, x: MarkView, target: RefView)
    ensures
        has_target(s.push(x), target) == (has_target(s, target) || x.target == target),
{
    let p = s.push(x);
    if has_target(p, target) {
        let k = choose|k: int| 0 <= k < p.len() && (#[trigger] p[k]).target == target;
        if k < s.len() {
            assert(s[k] == p[k]);
        }
    }
    if has_target(s, target) {
        let k = choose|k: int| 0 <= k < s.len() && (#[trigger] s[k]).target == target;
        assert(p[k] == s[k]);
    }
    if x.target == target {
        assert(p[s.len() as int] == x);
    }
}

/// Adding a mark never puts a second mark on a buffer, and removing one
/// leaves the rest unique: the list never holds two marks on one buffer
/// when it starts without.
pub proof fn law_marks_stay_unique(marks: Seq<MarkView>, target: RefView, line: usize)
    requires
        unique_targets(marks),
    ensures
        !has_target(marks, target) ==> unique_targets(marks.push(MarkView { target, line })),
        unique_targets(without_target(marks, target)),
        !has_target(without_target(marks, target), target),
{
    let m = MarkView { target, line };
    if !has_target(marks, target) {
        let p = marks.push(m);
        assert forall|i: int, j: int| 0 <= i < j < p.len() implies (#[trigger] p[i]).target != (#[trigger] p[j]).target by {
            if j == marks.len() {
                assert(p[i] == marks[i]);
                assert(marks[i].target != target);
            } else {
                assert(p[i] == marks[i] && p[j] == marks[j]);
            }
        }
    }
    lemma_filter_unique(marks, target);
}

/// Filtering keeps uniqueness, and leaves no mark on the filtered target.
proof fn lemma_filter_unique(marks: Seq<MarkView>, target: RefView)
    requires
        unique_targets(marks),
    ensures
        unique_targets(without_target(marks, target)),
        !has_target(without_target(marks, target), target),
        forall|k: int| 0 <= k < without_target(marks, target).len() ==> has_target(marks, #[trigger] without_target(marks, target)[k].target),
    decreases marks.len(),
{
    if marks.len() == 0 {
        assert(without_target(marks, target) =~= Seq::<MarkView>::empty());
    } else {
        let init = marks.drop_last();
        let x = marks.last();
        assert(unique_targets(init)) by {
            assert forall|i: int, j: int| 0 <= i < j < init.len() implies (#[trigger] init[i]).target != (#[trigger] init[j]).target by {
                assert(init[i] == marks[i] && init[j] == marks[j]);
            }
        }
        lemma_filter_unique(init, target);
        assert(init.push(x) =~= marks);
        lemma_filter_step(init, x, target);
        let fi = without_target(init, target);
        let fm = without_target(marks, target);
        assert forall|k: int| 0 <= k < fi.len() implies (#[trigger] fi[k]).target != x.target by {
            assert(has_target(init, fi[k].target));
            let w = choose|w: int| 0 <= w < init.len() && (#[trigger] init[w]).target == fi[k].target;
            assert(marks[w] == init[w]);
            assert(marks[marks.len() - 1] == x);
        }
        assert forall|k: int| 0 <= k < fm.len() implies has_target(marks, #[trigger] fm[k].target) by {
            if k < fi.len() {
                assert(fm[k] == fi[k]);
                assert(has_target(init, fi[k].target));
                let w = choose|w: int| 0 <= w < init.len() && (#[trigger] init[w]).target == fi[k].target;
                assert(marks[w] == init[w]);
            } else {
                assert(fm[k] == x);
                assert(marks[marks.len() - 1] == x);
            }
        }
        assert forall|i: int, j: int| 0 <= i < j < fm.len() implies (#[trigger] fm[i]).target != (#[trigger] fm[j]).target by {
            if j < fi.len() {
                assert(fm[i] == fi[i] && fm[j] == fi[j]);
            } else {
                assert(fm[j] == x);
                assert(fm[i] == fi[i]);
            }
        }
        assert(!has_target(fm, target)) by {
            if has_target(fm, target) {
                let k = choose|k: int| 0 <= k < fm.len() && (#[trigger] fm[k]).target == target;
                if k < fi.len() {
                    assert(fm[k] == fi[k]);
                } else {
                    assert(fm[k] == x);
                }
            }
        }
    }
}

/// Once a mark is added its buffer counts as marked, so adding the same
/// buffer again returns `false` and changes nothing.
pub proof fn law_added_buffer_is_marked(marks: Seq<MarkView>, target: RefView, line: usize)
    ensures
        has_target(marks.push(MarkView { target, line }), target),
{
    let p = marks.push(MarkView { target, line });
    assert(p[marks.len() as int].target == target);
}

} // verus!
