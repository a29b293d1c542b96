//! Window panes: the layout tree of splits and leaves, and directional
//! focus over the rectangles the UI laid the panes out in.
//!
//! The tree here is the shape of the layout: which panes exist and how
//! splits nest and order them. The relative sizes of a split's children
//! are floating-point ratios that the renderer keeps; they are not held
//! here.

use vstd::prelude::*;

use crate::action::FocusDir;

verus! {

/// Pane identifier.
pub type PaneId = u32;

/// Orientation of a split node.
#[derive(Debug, Clone, Copy, PartialEq, Eq, Structural)]
pub enum SplitDir {
    /// Side-by-side children, left to right.
    Vertical,
    /// Stacked children, top to bottom.
    Horizontal,
}

/// Position of the existing pane relative to the new sibling when a leaf
/// is split.
#[derive(Debug, Clone, Copy, PartialEq, Eq, Structural)]
pub enum SplitPlace {
    /// Existing pane first (left/top), new pane after it.
    After,
    /// New pane first, existing pane after it.
    Before,
}

/// The layout tree: a single pane, or a split whose children share the
/// parent's area along `dir`.
#[derive(Debug)]
pub enum PaneLayout {
    Leaf(PaneId),
    Split { dir: SplitDir, children: Vec<PaneLayout> },
}

/// The mathematical layout tree.
pub enum Tree {
    Leaf(PaneId),
    Split(SplitDir, Seq<Tree>),
}

// ────────────────────────────────────────────────────────────────────────
// Views
// ────────────────────────────────────────────────────────────────────────

/// The tree a layout value stands for.
pub open spec fn tree_of(t: PaneLayout) -> Tree
    decreases t,
{
    match t {
        PaneLayout::Leaf(id) => Tree::Leaf(id),
        PaneLayout::Split { dir, children } => {
            proof {
                assert(decreases_to!(t => children));
                assert(decreases_to!(children => children@));
            }
            Tree::Split(dir, trees_of(children@))
        },
    }
}

/// The trees of a list of layouts, in order.
pub open spec fn trees_of(s: Seq<PaneLayout>) -> Seq<Tree>
    decreases s,
{
    if s.len() == 0 {
        Seq::empty()
    } else {
        proof {
            assert(decreases_to!(s => s.subrange(0, s.len() - 1)));
            assert(decreases_to!(s => s[s.len() - 1]));
        }
        trees_of(s.subrange(0, s.len() - 1)).push(tree_of(s[s.len() - 1]))
    }
}

impl View for PaneLayout {
    type V = Tree;

    open spec fn view(&self) -> Tree {
        tree_of(*self)
    }
}

pub proof fn lemma_trees_of(s: Seq<PaneLayout>)
    ensures
        trees_of(s).len() == s.len(),
        forall|i: int| 0 <= i < s.len() ==> #[trigger] trees_of(s)[i] == tree_of(s[i]),
    decreases s.len(),
{
    if s.len() > 0 {
        let init = s.subrange(0, s.len() - 1);
        lemma_trees_of(init);
        assert forall|i: int| 0 <= i < s.len() implies #[trigger] trees_of(s)[i] == tree_of(s[i]) by {
            if i < s.len() - 1 {
                assert(init[i] == s[i]);
            }
        }
    }
}

/// `trees_of` is the element-wise view.
pub proof fn lemma_trees_of_eq(s: Seq<PaneLayout>, t: Seq<Tree>)
    requires
        t.len() == s.len(),
        forall|i: int| 0 <= i < s.len() ==> #[trigger] t[i] == tree_of(s[i]),
    ensures
        trees_of(s) == t,
{
    lemma_trees_of(s);
    assert(trees_of(s) =~= t);
}

// ────────────────────────────────────────────────────────────────────────
// Leaves and well-formedness
// ────────────────────────────────────────────────────────────────────────

/// The pane ids of a tree in traversal order (left to right, top to
/// bottom).
pub open spec fn leaves(t: Tree) -> Seq<PaneId>
    decreases t,
{
    match t {
        Tree::Leaf(id) => seq![id],
        Tree::Split(_, s) => leaves_all(s),
    }
}

/// The leaves of a list of trees, concatenated.
pub open spec fn leaves_all(s: Seq<Tree>) -> Seq<PaneId>
    decreases s,
{
    if s.len() == 0 {
        Seq::empty()
    } else {
        proof {
            assert(decreases_to!(s => s.subrange(0, s.len() - 1)));
        }
        leaves_all(s.subrange(0, s.len() - 1)) + leaves(s[s.len() - 1])
    }
}

/// Every split has at least two children.
pub open spec fn wf(t: Tree) -> bool
    decreases t,
{
    match t {
        Tree::Leaf(_) => true,
        Tree::Split(_, s) => s.len() >= 2 && (forall|i: int| 0 <= i < s.len() ==> wf(#[trigger] s[i])),
    }
}

/// Every split has at least one child.
pub open spec fn nonempty(t: Tree) -> bool
    decreases t,
{
    match t {
        Tree::Leaf(_) => true,
        Tree::Split(_, s) => s.len() >= 1 && (forall|i: int| 0 <= i < s.len() ==> nonempty(#[trigger] s[i])),
    }
}

pub proof fn lemma_wf_nonempty(t: Tree)
    requires
        wf(t),
    ensures
        nonempty(t),
    decreases t,
{
    if let Tree::Split(_, s) = t {
        assert forall|i: int| 0 <= i < s.len() implies nonempty(#[trigger] s[i]) by {
            lemma_wf_nonempty(s[i]);
        }
    }
}

pub proof fn lemma_leaves_append(a: Seq<Tree>, b: Seq<Tree>)
    ensures
        leaves_all(a + b) == leaves_all(a) + leaves_all(b),
    decreases b.len(),
{
    if b.len() == 0 {
        assert(a + b =~= a);
        assert(leaves_all(a) + leaves_all(b) =~= leaves_all(a));
    } else {
        let b0 = b.subrange(0, b.len() - 1);
        lemma_leaves_append(a, b0);
        assert((a + b).subrange(0, (a + b).len() - 1) =~= a + b0);
        assert((a + b)[(a + b).len() - 1] == b[b.len() - 1]);
        assert(leaves_all(a) + leaves_all(b0) + leaves(b[b.len() - 1]) =~= leaves_all(a) + (leaves_all(b0)
            + leaves(b[b.len() - 1])));
    }
}

pub proof fn lemma_leaves_single(t: Tree)
    ensures
        leaves_all(seq![t]) == leaves(t),
{
    let s = seq![t];
    assert(s.subrange(0, 0) =~= Seq::<Tree>::empty());
    assert(leaves_all(Seq::<Tree>::empty()) =~= Seq::<PaneId>::empty());
    assert(s[s.len() - 1] == t);
    assert(Seq::<PaneId>::empty() + leaves(t) =~= leaves(t));
}

/// The leaves around child `i`: those before it, its own, those after.
pub proof fn lemma_leaves_split_at(s: Seq<Tree>, i: int)
    requires
        0 <= i < s.len(),
    ensures
        leaves_all(s) == leaves_all(s.take(i)) + leaves(s[i]) + leaves_all(s.skip(i + 1)),
{
    assert(s =~= s.take(i) + (seq![s[i]] + s.skip(i + 1)));
    lemma_leaves_append(s.take(i), seq![s[i]] + s.skip(i + 1));
    lemma_leaves_append(seq![s[i]], s.skip(i + 1));
    lemma_leaves_single(s[i]);
    assert(leaves_all(s.take(i)) + (leaves(s[i]) + leaves_all(s.skip(i + 1))) =~= leaves_all(s.take(i)) + leaves(
        s[i],
    ) + leaves_all(s.skip(i + 1)));
}

/// A nonempty tree has a leaf.
pub proof fn lemma_nonempty_has_leaf(t: Tree)
    requires
        nonempty(t),
    ensures
        leaves(t).len() >= 1,
    decreases t,
{
    if let Tree::Split(_, s) = t {
        lemma_nonempty_has_leaf(s[0]);
        lemma_leaves_split_at(s, 0);
    }
}

// ────────────────────────────────────────────────────────────────────────
// Collapsing single-child splits
// ────────────────────────────────────────────────────────────────────────

/// Every split with a single child replaced by that child, all the way
/// down.
pub open spec fn collapse(t: Tree) -> Tree
    decreases t,
{
    match t {
        Tree::Leaf(_) => t,
        Tree::Split(d, s) => if s.len() == 1 {
            collapse(s[0])
        } else {
            Tree::Split(d, collapse_all(s))
        },
    }
}

/// `collapse` of each tree of a list.
pub open spec fn collapse_all(s: Seq<Tree>) -> Seq<Tree>
    decreases s,
{
    if s.len() == 0 {
        Seq::empty()
    } else {
        proof {
            assert(decreases_to!(s => s.subrange(0, s.len() - 1)));
        }
        collapse_all(s.subrange(0, s.len() - 1)).push(collapse(s[s.len() - 1]))
    }
}

pub proof fn lemma_collapse_all(s: Seq<Tree>)
    ensures
        collapse_all(s).len() == s.len(),
        forall|i: int| 0 <= i < s.len() ==> #[trigger] collapse_all(s)[i] == collapse(s[i]),
    decreases s.len(),
{
    if s.len() > 0 {
        let init = s.subrange(0, s.len() - 1);
        lemma_collapse_all(init);
        assert forall|i: int| 0 <= i < s.len() implies #[trigger] collapse_all(s)[i] == collapse(s[i]) by {
            if i < s.len() - 1 {
                assert(init[i] == s[i]);
            }
        }
    }
}

/// Collapsing keeps the leaves, and makes a tree without empty splits
/// well-formed.
pub proof fn lemma_collapse(t: Tree)
    ensures
        leaves(collapse(t)) == leaves(t),
        nonempty(t) ==> wf(collapse(t)),
    decreases t,
{
    match t {
        Tree::Leaf(_) => {},
        Tree::Split(d, s) => {
            if s.len() == 1 {
                lemma_collapse(s[0]);
                lemma_leaves_single(s[0]);
                assert(s =~= seq![s[0]]);
            } else {
                lemma_collapse_all(s);
                lemma_collapse_all_leaves(s);
                if nonempty(t) {
                    assert forall|i: int| 0 <= i < collapse_all(s).len() implies wf(#[trigger] collapse_all(s)[i]) by {
                        lemma_collapse(s[i]);
                    }
                }
            }
        },
    }
}

proof fn lemma_collapse_all_leaves(s: Seq<Tree>)
    ensures
        leaves_all(collapse_all(s)) == leaves_all(s),
    decreases s,
{
    if s.len() > 0 {
        let init = s.subrange(0, s.len() - 1);
        assert(decreases_to!(s => init));
        assert(decreases_to!(s => s[s.len() - 1]));
        lemma_collapse_all_leaves(init);
        lemma_collapse(s[s.len() - 1]);
        let c = collapse_all(s);
        assert(c.subrange(0, c.len() - 1) =~= collapse_all(init));
    }
}

// ────────────────────────────────────────────────────────────────────────
// Removing a leaf
// ────────────────────────────────────────────────────────────────────────

/// First index of `x` in `s`, or `s.len()` when absent.
pub open spec fn first_index(s: Seq<PaneId>, x: PaneId) -> int
    decreases s.len(),
{
    if s.len() == 0 {
        0
    } else if s[0] == x {
        0
    } else {
        1 + first_index(s.subrange(1, s.len() as int), x)
    }
}

pub proof fn lemma_first_index(s: Seq<PaneId>, x: PaneId)
    ensures
        0 <= first_index(s, x) <= s.len(),
        s.contains(x) <==> first_index(s, x) < s.len(),
        first_index(s, x) < s.len() ==> s[first_index(s, x)] == x,
        forall|j: int| 0 <= j < first_index(s, x) ==> s[j] != x,
    decreases s.len(),
{
    if s.len() > 0 && s[0] != x {
        let t = s.subrange(1, s.len() as int);
        lemma_first_index(t, x);
        assert forall|j: int| 0 <= j < first_index(s, x) implies s[j] != x by {
            if j > 0 {
                assert(s[j] == t[j - 1]);
            }
        }
        if s.contains(x) {
            let k = choose|k: int| 0 <= k < s.len() && s[k] == x;
            assert(t[k - 1] == x);
        }
        if t.contains(x) {
            let k = choose|k: int| 0 <= k < t.len() && t[k] == x;
            assert(s[k + 1] == x);
        }
    } else if s.len() > 0 {
        assert(s.contains(x)) by {
            assert(s[0] == x);
        }
    }
}

/// Index of the first child whose leaves hold `x`, or `s.len()`.
pub open spec fn first_hit(s: Seq<Tree>, x: PaneId) -> int
    decreases s.len(),
{
    if s.len() == 0 {
        0
    } else if leaves(s[0]).contains(x) {
        0
    } else {
        1 + first_hit(s.subrange(1, s.len() as int), x)
    }
}

pub proof fn lemma_first_hit(s: Seq<Tree>, x: PaneId)
    ensures
        0 <= first_hit(s, x) <= s.len(),
        first_hit(s, x) < s.len() ==> leaves(s[first_hit(s, x)]).contains(x),
        forall|j: int| 0 <= j < first_hit(s, x) ==> !leaves(#[trigger] s[j]).contains(x),
        leaves_all(s).contains(x) <==> first_hit(s, x) < s.len(),
    decreases s.len(),
{
    if s.len() > 0 {
        let t = s.subrange(1, s.len() as int);
        if !leaves(s[0]).contains(x) {
            lemma_first_hit(t, x);
            assert forall|j: int| 0 <= j < first_hit(s, x) implies !leaves(#[trigger] s[j]).contains(x) by {
                if j > 0 {
                    assert(s[j] == t[j - 1]);
                }
            }
        }
        assert(s =~= seq![s[0]] + t);
        lemma_leaves_append(seq![s[0]], t);
        lemma_leaves_single(s[0]);
        if leaves_all(s).contains(x) {
            let k = choose|k: int| 0 <= k < leaves_all(s).len() && leaves_all(s)[k] == x;
            if k >= leaves(s[0]).len() {
                assert(leaves_all(t)[k - leaves(s[0]).len()] == x);
            } else {
                assert(leaves(s[0])[k] == x);
            }
        }
        if leaves(s[0]).contains(x) {
            let k = choose|k: int| 0 <= k < leaves(s[0]).len() && leaves(s[0])[k] == x;
            assert(leaves_all(s)[k] == x);
        } else if leaves_all(t).contains(x) {
            let k = choose|k: int| 0 <= k < leaves_all(t).len() && leaves_all(t)[k] == x;
            assert(leaves_all(s)[k + leaves(s[0]).len()] == x);
        }
    } else {
        assert(!leaves_all(s).contains(x));
    }
}

/// The last pane of a tree (`0` for an empty split).
pub open spec fn rightmost(t: Tree) -> PaneId
    decreases t,
{
    match t {
        Tree::Leaf(id) => id,
        Tree::Split(_, s) => if s.len() == 0 {
            0
        } else {
            rightmost(s[s.len() - 1])
        },
    }
}

pub proof fn lemma_rightmost(t: Tree)
    requires
        nonempty(t),
    ensures
        leaves(t).contains(rightmost(t)),
    decreases t,
{
    if let Tree::Split(_, s) = t {
        let k = s.len() - 1;
        lemma_rightmost(s[k]);
        lemma_leaves_split_at(s, k);
        let j = choose|j: int| 0 <= j < leaves(s[k]).len() && leaves(s[k])[j] == rightmost(s[k]);
        let idx = leaves_all(s.take(k)).len() + j;
        assert(leaves(t)[idx] == rightmost(t));
        assert(0 <= idx < leaves(t).len());
    } else {
        assert(leaves(t)[0] == rightmost(t));
    }
}

/// What removing a pane from a subtree reported.
#[derive(Debug, Clone, Copy, PartialEq, Eq, Structural)]
pub enum Removal {
    /// The pane is not in the subtree.
    NotFound,
    /// The subtree is the pane itself; its parent must drop it.
    RemoveSelf,
    /// The pane was removed; carries the neighbour to focus next (none
    /// when its split emptied).
    Removed(Option<PaneId>),
}

/// Remove the first leaf `x` from a tree. A split drops the child that
/// is `x`; the neighbour is the rightmost pane of the sibling that took
/// its place (the previous sibling when it was the last child). Splits
/// left with a single child are not collapsed here.
pub open spec fn walk(t: Tree, x: PaneId) -> (Tree, Removal)
    decreases t,
{
    match t {
        Tree::Leaf(id) => (t, if id == x { Removal::RemoveSelf } else { Removal::NotFound }),
        Tree::Split(d, s) => {
            let i = first_hit(s, x);
            if i < 0 || i >= s.len() {
                (t, Removal::NotFound)
            } else {
                let (c, r) = walk(s[i], x);
                match r {
                    Removal::RemoveSelf => {
                        let s2 = s.remove(i);
                        let n = if s2.len() == 0 {
                            None
                        } else {
                            Some(rightmost(s2[if i < s2.len() { i } else { i - 1 }]))
                        };
                        (Tree::Split(d, s2), Removal::Removed(n))
                    },
                    Removal::Removed(n) => (Tree::Split(d, s.update(i, c)), Removal::Removed(n)),
                    Removal::NotFound => (t, Removal::NotFound),
                }
            }
        },
    }
}

/// The leaves with the first `x` taken out.
pub open spec fn without_first(s: Seq<PaneId>, x: PaneId) -> Seq<PaneId> {
    s.remove(first_index(s, x))
}

/// What `walk` does to a tree holding `x`: a lone leaf asks its parent to
/// drop it; otherwise `x` is gone from the leaves, splits stay non-empty
/// and a neighbour pane remains.
pub proof fn lemma_walk(t: Tree, x: PaneId)
    requires
        nonempty(t),
        leaves(t).contains(x),
    ensures
        t is Leaf ==> walk(t, x).1 is RemoveSelf && t == Tree::Leaf(x),
        t is Split && wf(t) ==> ({
            let (t2, r) = walk(t, x);
            &&& r matches Removal::Removed(n) && n is Some && leaves(t2).contains(n->0)
            &&& leaves(t2) == without_first(leaves(t), x)
            &&& nonempty(t2)
        }),
    decreases t,
{
    match t {
        Tree::Leaf(id) => {
            assert(leaves(t)[0] == x);
        },
        Tree::Split(d, s) => {
            if wf(t) {
                lemma_first_hit(s, x);
                let i = first_hit(s, x);
                let (c, r) = walk(s[i], x);
                lemma_leaves_split_at(s, i);
                let before = leaves_all(s.take(i));
                assert(!before.contains(x)) by {
                    if before.contains(x) {
                        let k = choose|k: int| 0 <= k < before.len() && before[k] == x;
                        lemma_first_hit(s.take(i), x);
                        assert forall|j: int| 0 <= j < s.take(i).len() implies !leaves(#[trigger] s.take(i)[j]).contains(x) by {
                            assert(s.take(i)[j] == s[j]);
                        }
                        assert(first_hit(s.take(i), x) >= s.take(i).len());
                    }
                }
                lemma_first_index(leaves(t), x);
                lemma_first_index(leaves(s[i]), x);
                lemma_wf_nonempty(s[i]);
                let p_i = first_index(leaves(s[i]), x);
                assert(first_index(leaves(t), x) == before.len() + p_i) by {
                    lemma_first_index_concat(before, leaves(s[i]), leaves_all(s.skip(i + 1)), x);
                }
                if s[i] is Leaf {
                    lemma_walk(s[i], x);
                    let s2 = s.remove(i);
                    assert(s2 =~= s.take(i) + s.skip(i + 1));
                    lemma_leaves_append(s.take(i), s.skip(i + 1));
                    assert(leaves(s[i]) =~= seq![x]);
                    assert(leaves_all(s2) =~= leaves(t).remove(before.len() as int));
                    assert forall|j: int| 0 <= j < s2.len() implies nonempty(#[trigger] s2[j]) by {
                        if j < i {
                            assert(s2[j] == s[j]);
                        } else {
                            assert(s2[j] == s[j + 1]);
                        }
                        lemma_wf_nonempty(s2[j]);
                    }
                    let k = if i < s2.len() { i } else { i - 1 };
                    lemma_rightmost(s2[k]);
                    lemma_leaves_split_at(s2, k);
                    let j = choose|j: int| 0 <= j < leaves(s2[k]).len() && leaves(s2[k])[j] == rightmost(s2[k]);
                    assert(leaves_all(s2)[leaves_all(s2.take(k)).len() + j] == rightmost(s2[k]));
                } else {
                    lemma_walk(s[i], x);
                    let s2 = s.update(i, c);
                    lemma_leaves_split_at(s2, i);
                    assert(s2.take(i) =~= s.take(i));
                    assert(s2.skip(i + 1) =~= s.skip(i + 1));
                    assert(leaves(c) == leaves(s[i]).remove(p_i));
                    assert(leaves_all(s2) =~= leaves(t).remove(before.len() + p_i));
                    assert forall|j: int| 0 <= j < s2.len() implies nonempty(#[trigger] s2[j]) by {
                        if j != i {
                            lemma_wf_nonempty(s[j]);
                        }
                    }
                    let n = r->Removed_0->0;
                    let m = choose|m: int| 0 <= m < leaves(c).len() && leaves(c)[m] == n;
                    assert(leaves_all(s2)[before.len() + m] == n);
                }
            }
        },
    }
}

/// The first `x` of a concatenation lies in the part that holds it first.
pub proof fn lemma_first_index_concat(a: Seq<PaneId>, b: Seq<PaneId>, c: Seq<PaneId>, x: PaneId)
    requires
        !a.contains(x),
        b.contains(x),
    ensures
        first_index(a + b + c, x) == a.len() + first_index(b, x),
    decreases a.len(),
{
    if a.len() == 0 {
        assert(a + b + c =~= b + c);
        lemma_first_index_prefix(b, c, x);
    } else {
        let a1 = a.subrange(1, a.len() as int);
        assert(!a1.contains(x)) by {
            if a1.contains(x) {
                let k = choose|k: int| 0 <= k < a1.len() && a1[k] == x;
                assert(a[k + 1] == x);
            }
        }
        lemma_first_index_concat(a1, b, c, x);
        assert((a + b + c).subrange(1, (a + b + c).len() as int) =~= a1 + b + c);
        assert((a + b + c)[0] == a[0]);
        assert(a[0] != x);
    }
}

proof fn lemma_first_index_prefix(b: Seq<PaneId>, c: Seq<PaneId>, x: PaneId)
    requires
        b.contains(x),
    ensures
        first_index(b + c, x) == first_index(b, x),
    decreases b.len(),
{
    if b[0] != x {
        let b1 = b.subrange(1, b.len() as int);
        assert(b1.contains(x)) by {
            let k = choose|k: int| 0 <= k < b.len() && b[k] == x;
            assert(b1[k - 1] == x);
        }
        lemma_first_index_prefix(b1, c, x);
        assert((b + c).subrange(1, (b + c).len() as int) =~= b1 + c);
    }
}

// ────────────────────────────────────────────────────────────────────────
// Splitting a leaf
// ────────────────────────────────────────────────────────────────────────

/// The split a leaf `x` becomes when pane `n` opens beside it.
pub open spec fn split_pair(x: PaneId, n: PaneId, dir: SplitDir, place: SplitPlace) -> Tree {
    match place {
        SplitPlace::After => Tree::Split(dir, seq![Tree::Leaf(x), Tree::Leaf(n)]),
        SplitPlace::Before => Tree::Split(dir, seq![Tree::Leaf(n), Tree::Leaf(x)]),
    }
}

/// The tree with its first leaf `x` split to hold the new pane `n`.
pub open spec fn split_leaf_tree(t: Tree, x: PaneId, n: PaneId, dir: SplitDir, place: SplitPlace) -> Tree
    decreases t,
{
    match t {
        Tree::Leaf(id) => if id == x {
            split_pair(x, n, dir, place)
        } else {
            t
        },
        Tree::Split(d, s) => {
            let i = first_hit(s, x);
            if 0 <= i < s.len() {
                Tree::Split(d, s.update(i, split_leaf_tree(s[i], x, n, dir, place)))
            } else {
                t
            }
        },
    }
}

/// Where the new pane lands among the leaves: right after `x`, or right
/// before it.
pub open spec fn split_leaves(ls: Seq<PaneId>, x: PaneId, n: PaneId, place: SplitPlace) -> Seq<PaneId> {
    let p = first_index(ls, x);
    match place {
        SplitPlace::After => ls.insert(p + 1, n),
        SplitPlace::Before => ls.insert(p, n),
    }
}

/// The leaves of the pair a leaf is split into.
proof fn lemma_split_pair_leaves(x: PaneId, n: PaneId, dir: SplitDir, place: SplitPlace)
    ensures
        leaves(split_pair(x, n, dir, place)) == split_leaves(seq![x], x, n, place),
{
    let pair = split_pair(x, n, dir, place)->Split_1;
    lemma_leaves_split_at(pair, 1);
    lemma_leaves_single(pair[0]);
    assert(pair.take(1) =~= seq![pair[0]]);
    assert(pair.skip(2) =~= Seq::<Tree>::empty());
    assert(leaves_all(Seq::<Tree>::empty()) =~= Seq::<PaneId>::empty());
    lemma_first_index(seq![x], x);
    assert(seq![x][0] == x);
    assert(first_index(seq![x], x) == 0);
    assert(leaves_all(pair) =~= split_leaves(seq![x], x, n, place));
}

/// Inserting next to the first `x` of the middle part of a concatenation.
proof fn lemma_split_leaves_concat(a: Seq<PaneId>, b: Seq<PaneId>, c: Seq<PaneId>, x: PaneId, n: PaneId, place: SplitPlace)
    requires
        !a.contains(x),
        b.contains(x),
    ensures
        split_leaves(a + b + c, x, n, place) == a + split_leaves(b, x, n, place) + c,
{
    lemma_first_index_concat(a, b, c, x);
    lemma_first_index(b, x);
    let p = first_index(b, x);
    match place {
        SplitPlace::After => {
            assert((a + b + c).insert(a.len() + p + 1, n) =~= a + b.insert(p + 1, n) + c);
        },
        SplitPlace::Before => {
            assert((a + b + c).insert(a.len() + p, n) =~= a + b.insert(p, n) + c);
        },
    }
}

/// Splitting a pane puts the new pane next to it in the traversal order
/// and keeps every split with at least two children.
pub proof fn law_split_leaf(t: Tree, x: PaneId, n: PaneId, dir: SplitDir, place: SplitPlace)
    requires
        leaves(t).contains(x),
    ensures
        leaves(split_leaf_tree(t, x, n, dir, place)) == split_leaves(leaves(t), x, n, place),
        wf(t) ==> wf(split_leaf_tree(t, x, n, dir, place)),
    decreases t,
{
    match t {
        Tree::Leaf(id) => {
            assert(leaves(t) =~= seq![id]);
            assert(leaves(t)[0] == id);
            assert(id == x) by {
                let k = choose|k: int| 0 <= k < leaves(t).len() && leaves(t)[k] == x;
            }
            lemma_split_pair_leaves(x, n, dir, place);
            let pair = split_pair(x, n, dir, place)->Split_1;
            assert forall|j: int| 0 <= j < pair.len() implies wf(#[trigger] pair[j]) by {
                assert(pair[j] is Leaf);
            }
        },
        Tree::Split(d, s) => {
            lemma_first_hit(s, x);
            let i = first_hit(s, x);
            let c = split_leaf_tree(s[i], x, n, dir, place);
            law_split_leaf(s[i], x, n, dir, place);
            let s2 = s.update(i, c);
            lemma_leaves_split_at(s, i);
            lemma_leaves_split_at(s2, i);
            assert(s2.take(i) =~= s.take(i));
            assert(s2.skip(i + 1) =~= s.skip(i + 1));
            let before = leaves_all(s.take(i));
            assert(!before.contains(x)) by {
                if before.contains(x) {
                    lemma_first_hit(s.take(i), x);
                    assert forall|j: int| 0 <= j < s.take(i).len() implies !leaves(#[trigger] s.take(i)[j]).contains(x) by {
                        assert(s.take(i)[j] == s[j]);
                    }
                }
            }
            lemma_split_leaves_concat(before, leaves(s[i]), leaves_all(s.skip(i + 1)), x, n, place);
            if wf(t) {
                assert forall|j: int| 0 <= j < s2.len() implies wf(#[trigger] s2[j]) by {
                    if j != i {
                        assert(s2[j] == s[j]);
                    }
                }
            }
        },
    }
}

// ────────────────────────────────────────────────────────────────────────
// Executable tree operations
// ────────────────────────────────────────────────────────────────────────

proof fn lemma_child_decreases(t: PaneLayout, i: int)
    requires
        t is Split,
        0 <= i < t->children@.len(),
    ensures
        decreases_to!(t => t->children@[i]),
{
    let c = t->children;
    assert(decreases_to!(t => c));
    assert(decreases_to!(c => c@));
    assert(decreases_to!(c@ => c@[i]));
}

/// Whether pane `x` is a leaf of `t`.
fn has_leaf(t: &PaneLayout, x: PaneId) -> (r: bool)
    ensures
        r == leaves(t@).contains(x),
    decreases *t,
{
    match t {
        PaneLayout::Leaf(id) => {
            assert(leaves(t@) =~= seq![*id]);
            if *id == x {
                assert(leaves(t@)[0] == x);
                true
            } else {
                false
            }
        },
        PaneLayout::Split { dir, children } => {
            let ghost s = trees_of(children@);
            proof {
                lemma_trees_of(children@);
                lemma_first_hit(s, x);
            }
            let mut i: usize = 0;
            while i < children.len()
                invariant
                    i <= children@.len(),
                    s == trees_of(children@),
                    s.len() == children@.len(),
                    forall|k: int| 0 <= k < s.len() ==> #[trigger] s[k] == tree_of(children@[k]),
                    forall|j: int| 0 <= j < i ==> !leaves(#[trigger] s[j]).contains(x),
                    *t == (PaneLayout::Split { dir: *dir, children: *children }),
                decreases children@.len() - i,
            {
                proof {
                    lemma_child_decreases(*t, i as int);
                }
                if has_leaf(&children[i], x) {
                    proof {
                        assert(leaves(s[i as int]).contains(x));
                        lemma_first_hit(s, x);
                    }
                    return true;
                }
                i = i + 1;
            }
            proof {
                lemma_first_hit(s, x);
            }
            false
        },
    }
}

/// Index of the first child holding pane `x` (`kids.len()` when none).
fn first_hit_of(kids: &Vec<PaneLayout>, x: PaneId) -> (r: usize)
    ensures
        r as int == first_hit(trees_of(kids@), x),
{
    let ghost s = trees_of(kids@);
    proof {
        lemma_trees_of(kids@);
        lemma_first_hit(s, x);
    }
    let mut i: usize = 0;
    while i < kids.len()
        invariant
            i <= kids@.len(),
            s == trees_of(kids@),
            s.len() == kids@.len(),
            forall|k: int| 0 <= k < s.len() ==> #[trigger] s[k] == tree_of(kids@[k]),
            forall|j: int| 0 <= j < i ==> !leaves(#[trigger] s[j]).contains(x),
            0 <= first_hit(s, x) <= s.len(),
            first_hit(s, x) < s.len() ==> leaves(s[first_hit(s, x)]).contains(x),
            forall|j: int| 0 <= j < first_hit(s, x) ==> !leaves(#[trigger] s[j]).contains(x),
        decreases kids@.len() - i,
    {
        if has_leaf(&kids[i], x) {
            assert(leaves(s[i as int]).contains(x));
            return i;
        }
        i = i + 1;
    }
    i
}

/// The last pane of a tree.
fn rightmost_leaf(t: &PaneLayout) -> (r: PaneId)
    ensures
        r == rightmost(t@),
    decreases *t,
{
    match t {
        PaneLayout::Leaf(id) => *id,
        PaneLayout::Split { dir, children } => {
            proof {
                lemma_trees_of(children@);
            }
            if children.len() == 0 {
                0
            } else {
                let k = children.len() - 1;
                proof {
                    lemma_child_decreases(*t, k as int);
                }
                rightmost_leaf(&children[k])
            }
        },
    }
}

/// Append the leaves of `t` to `out`.
fn collect_leaves(t: &PaneLayout, out: &mut Vec<PaneId>)
    ensures
        final(out)@ == old(out)@ + leaves(t@),
    decreases *t,
{
    match t {
        PaneLayout::Leaf(id) => {
            out.push(*id);
            assert(final(out)@ =~= old(out)@ + leaves(t@));
        },
        PaneLayout::Split { dir, children } => {
            let ghost s = trees_of(children@);
            let ghost start = out@;
            proof {
                lemma_trees_of(children@);
            }
            let mut i: usize = 0;
            assert(s.take(0) =~= Seq::<Tree>::empty());
            assert(leaves_all(Seq::<Tree>::empty()) =~= Seq::<PaneId>::empty());
            assert(out@ =~= start + leaves_all(s.take(0)));
            while i < children.len()
                invariant
                    i <= children@.len(),
                    s == trees_of(children@),
                    s.len() == children@.len(),
                    forall|k: int| 0 <= k < s.len() ==> #[trigger] s[k] == tree_of(children@[k]),
                    out@ == start + leaves_all(s.take(i as int)),
                    *t == (PaneLayout::Split { dir: *dir, children: *children }),
                decreases children@.len() - i,
            {
                proof {
                    lemma_child_decreases(*t, i as int);
                }
                collect_leaves(&children[i], out);
                proof {
                    let tk = s.take(i + 1);
                    assert(tk.subrange(0, tk.len() - 1) =~= s.take(i as int));
                    assert(tk[tk.len() - 1] == s[i as int]);
                    assert(out@ =~= start + leaves_all(s.take(i + 1)));
                }
                i = i + 1;
            }
            assert(s.take(children@.len() as int) =~= s);
        },
    }
}

/// Split the first leaf `x` of `t` (see [`split_leaf_tree`]); reports
/// whether `x` was found.
fn split_leaf_owned(t: PaneLayout, x: PaneId, n: PaneId, dir: SplitDir, place: SplitPlace) -> (r: (PaneLayout, bool))
    ensures
        r.0@ == split_leaf_tree(t@, x, n, dir, place),
        r.1 == leaves(t@).contains(x),
    decreases t,
{
    match t {
        PaneLayout::Leaf(id) => {
            assert(leaves(t@) =~= seq![id]);
            if id == x {
                assert(leaves(t@)[0] == x);
                let mut kids: Vec<PaneLayout> = Vec::new();
                match place {
                    SplitPlace::After => {
                        kids.push(PaneLayout::Leaf(id));
                        kids.push(PaneLayout::Leaf(n));
                    },
                    SplitPlace::Before => {
                        kids.push(PaneLayout::Leaf(n));
                        kids.push(PaneLayout::Leaf(id));
                    },
                }
                proof {
                    lemma_trees_of(kids@);
                    assert(trees_of(kids@) =~= split_pair(x, n, dir, place)->Split_1);
                }
                (PaneLayout::Split { dir, children: kids }, true)
            } else {
                (PaneLayout::Leaf(id), false)
            }
        },
        PaneLayout::Split { dir: d, children } => {
            let ghost s = trees_of(children@);
            let ghost orig = children@;
            proof {
                lemma_trees_of(children@);
                lemma_first_hit(s, x);
            }
            let mut kids = children;
            let i = first_hit_of(&kids, x);
            if i >= kids.len() {
                return (PaneLayout::Split { dir: d, children: kids }, false);
            }
            let c = kids.remove(i);
            proof {
                lemma_child_decreases(t, i as int);
                assert(c == orig[i as int]);
            }
            let (c2, found) = split_leaf_owned(c, x, n, dir, place);
            kids.insert(i, c2);
            proof {
                lemma_trees_of(kids@);
                assert(kids@ =~= orig.update(i as int, c2));
                lemma_trees_of_eq(kids@, s.update(i as int, c2@));
                lemma_first_hit(s, x);
                assert(leaves(s[i as int]).contains(x));
                lemma_leaves_split_at(s, i as int);
                let k = choose|k: int| 0 <= k < leaves(s[i as int]).len() && leaves(s[i as int])[k] == x;
                assert(leaves_all(s)[leaves_all(s.take(i as int)).len() + k] == x);
            }
            (PaneLayout::Split { dir: d, children: kids }, true)
        },
    }
}

/// Remove the first leaf `x` from `t` (see [`walk`]).
fn walk_owned(t: PaneLayout, x: PaneId) -> (r: (PaneLayout, Removal))
    ensures
        (r.0@, r.1) == walk(t@, x),
    decreases t,
{
    match t {
        PaneLayout::Leaf(id) => {
            if id == x {
                (PaneLayout::Leaf(id), Removal::RemoveSelf)
            } else {
                (PaneLayout::Leaf(id), Removal::NotFound)
            }
        },
        PaneLayout::Split { dir, children } => {
            let ghost s = trees_of(children@);
            let ghost orig = children@;
            proof {
                lemma_trees_of(children@);
                lemma_first_hit(s, x);
            }
            let mut kids = children;
            let i = first_hit_of(&kids, x);
            if i >= kids.len() {
                return (PaneLayout::Split { dir, children: kids }, Removal::NotFound);
            }
            let c = kids.remove(i);
            proof {
                lemma_child_decreases(t, i as int);
                assert(c == orig[i as int]);
            }
            let (c2, r) = walk_owned(c, x);
            match r {
                Removal::RemoveSelf => {
                    proof {
                        assert(kids@ =~= orig.remove(i as int));
                        lemma_trees_of(kids@);
                        lemma_trees_of_eq(kids@, s.remove(i as int));
                    }
                    let n = if kids.len() == 0 {
                        None
                    } else {
                        let k = if i < kids.len() { i } else { i - 1 };
                        Some(rightmost_leaf(&kids[k]))
                    };
                    (PaneLayout::Split { dir, children: kids }, Removal::Removed(n))
                },
                Removal::Removed(n) => {
                    kids.insert(i, c2);
                    proof {
                        assert(kids@ =~= orig.update(i as int, c2));
                        lemma_trees_of(kids@);
                        lemma_trees_of_eq(kids@, s.update(i as int, c2@));
                    }
                    (PaneLayout::Split { dir, children: kids }, Removal::Removed(n))
                },
                Removal::NotFound => {
                    kids.insert(i, c2);
                    proof {
                        assert(kids@ =~= orig.update(i as int, c2));
                        lemma_trees_of(kids@);
                        lemma_trees_of_eq(kids@, s.update(i as int, c2@));
                        assert(s.update(i as int, c2@) =~= s);
                    }
                    (PaneLayout::Split { dir, children: kids }, Removal::NotFound)
                },
            }
        },
    }
}

/// Replace every single-child split by its child (see [`collapse`]).
fn collapse_owned(t: PaneLayout) -> (r: PaneLayout)
    ensures
        r@ == collapse(t@),
    decreases t,
{
    match t {
        PaneLayout::Leaf(id) => PaneLayout::Leaf(id),
        PaneLayout::Split { dir, children } => {
            let ghost s = trees_of(children@);
            let ghost orig = children@;
            proof {
                lemma_trees_of(children@);
                lemma_collapse_all(s);
            }
            let n = children.len();
            let mut kids = children;
            if n == 1 {
                let c = kids.remove(0);
                proof {
                    lemma_child_decreases(t, 0);
                    assert(c == orig[0]);
                }
                return collapse_owned(c);
            }
            let mut out: Vec<PaneLayout> = Vec::new();
            let mut k: usize = 0;
            assert(kids@ =~= orig.subrange(0, n as int));
            assert(trees_of(out@) =~= collapse_all(s).take(0));
            while k < n
                invariant
                    k <= n == orig.len(),
                    s == trees_of(orig),
                    s.len() == n,
                    forall|j: int| 0 <= j < n ==> #[trigger] s[j] == tree_of(orig[j]),
                    collapse_all(s).len() == n,
                    forall|j: int| 0 <= j < n ==> #[trigger] collapse_all(s)[j] == collapse(s[j]),
                    kids@ == orig.subrange(k as int, n as int),
                    trees_of(out@) == collapse_all(s).take(k as int),
                    t == (PaneLayout::Split { dir, children: t->children }),
                    t->children@ == orig,
                decreases n - k,
            {
                let c = kids.remove(0);
                proof {
                    assert(c == orig[k as int]);
                    lemma_child_decreases(t, k as int);
                }
                let c2 = collapse_owned(c);
                let ghost before = out@;
                out.push(c2);
                proof {
                    assert(out@.subrange(0, out@.len() - 1) =~= before);
                    assert(trees_of(out@) =~= collapse_all(s).take(k + 1));
                    assert(kids@ =~= orig.subrange(k + 1, n as int));
                }
                k = k + 1;
            }
            assert(collapse_all(s).take(n as int) =~= collapse_all(s));
            PaneLayout::Split { dir, children: out }
        },
    }
}

impl PaneLayout {
    /// Every pane id in traversal order (left to right, top to bottom).
    pub fn leaves(&self) -> (r: Vec<PaneId>)
        ensures
            r@ == leaves(self@),
    {
        let mut out: Vec<PaneId> = Vec::new();
        collect_leaves(self, &mut out);
        assert(out@ =~= leaves(self@));
        out
    }

    /// Whether pane `id` is in the layout.
    pub fn find_leaf(&self, id: PaneId) -> (r: bool)
        ensures
            r == leaves(self@).contains(id),
    {
        has_leaf(self, id)
    }

    /// Replace this node by a two-child split of itself and the new pane
    /// `new_id`, on the side `place` says.
    pub fn split_at(&mut self, dir: SplitDir, new_id: PaneId, place: SplitPlace)
        ensures
            final(self)@ == (match place {
                SplitPlace::After => Tree::Split(dir, seq![old(self)@, Tree::Leaf(new_id)]),
                SplitPlace::Before => Tree::Split(dir, seq![Tree::Leaf(new_id), old(self)@]),
            }),
    {
        let mut existing = PaneLayout::Leaf(0);
        std::mem::swap(self, &mut existing);
        let mut kids: Vec<PaneLayout> = Vec::new();
        match place {
            SplitPlace::After => {
                kids.push(existing);
                kids.push(PaneLayout::Leaf(new_id));
            },
            SplitPlace::Before => {
                kids.push(PaneLayout::Leaf(new_id));
                kids.push(existing);
            },
        }
        proof {
            lemma_trees_of(kids@);
        }
        *self = PaneLayout::Split { dir, children: kids };
        proof {
            let want = match place {
                SplitPlace::After => seq![old(self)@, Tree::Leaf(new_id)],
                SplitPlace::Before => seq![Tree::Leaf(new_id), old(self)@],
            };
            assert(trees_of(kids@) =~= want);
        }
    }

    /// Split the pane `target` (its first occurrence) along `dir`, with
    /// the new pane `new_id` after or before it. Returns `false`, leaving
    /// the layout as it is, when `target` is not in it.
    pub fn split_leaf(&mut self, target: PaneId, dir: SplitDir, new_id: PaneId, place: SplitPlace) -> (r: bool)
        ensures
            r == leaves(old(self)@).contains(target),
            final(self)@ == split_leaf_tree(old(self)@, target, new_id, dir, place),
            r ==> leaves(final(self)@) == split_leaves(leaves(old(self)@), target, new_id, place),
            r && wf(old(self)@) ==> wf(final(self)@),
            !r ==> final(self)@ == old(self)@,
    {
        let mut t = PaneLayout::Leaf(0);
        std::mem::swap(self, &mut t);
        let ghost before = t@;
        let (t2, found) = split_leaf_owned(t, target, new_id, dir, place);
        *self = t2;
        proof {
            if found {
                law_split_leaf(before, target, new_id, dir, place);
            } else {
                lemma_split_absent(before, target, new_id, dir, place);
            }
        }
        found
    }

    /// Remove pane `target`, collapsing any split left with one child.
    /// Returns the pane to focus next, a neighbour of the removed one;
    /// `None`, leaving the layout as it is, when `target` is not in it or
    /// is the whole layout.
    pub fn remove_leaf(&mut self, target: PaneId) -> (r: Option<PaneId>)
        ensures
            match walk(old(self)@, target).1 {
                Removal::Removed(n) => final(self)@ == collapse(walk(old(self)@, target).0) && r == n,
                _ => final(self)@ == old(self)@ && r is None,
            },
    {
        let mut t = PaneLayout::Leaf(0);
        std::mem::swap(self, &mut t);
        let ghost before = t@;
        let (t2, res) = walk_owned(t, target);
        match res {
            Removal::Removed(n) => {
                *self = collapse_owned(t2);
                n
            },
            _ => {
                proof {
                    lemma_walk_unchanged(before, target);
                }
                *self = t2;
                None
            },
        }
    }
}

/// A tree without pane `x` is left as it is by a split of `x`.
proof fn lemma_split_absent(t: Tree, x: PaneId, n: PaneId, dir: SplitDir, place: SplitPlace)
    requires
        !leaves(t).contains(x),
    ensures
        split_leaf_tree(t, x, n, dir, place) == t,
{
    match t {
        Tree::Leaf(id) => {
            if id == x {
                assert(leaves(t)[0] == x);
            }
        },
        Tree::Split(d, s) => {
            lemma_first_hit(s, x);
        },
    }
}

/// When `walk` reports no removal it hands the tree back unchanged.
proof fn lemma_walk_unchanged(t: Tree, x: PaneId)
    ensures
        !(walk(t, x).1 is Removed) ==> walk(t, x).0 == t,
{
}

/// Removing a pane from a well-formed layout that holds it (and is more
/// than that one pane) takes exactly that pane out of the traversal
/// order, keeps the layout well-formed, and names a remaining pane to
/// focus.
pub proof fn law_remove_leaf(t: Tree, x: PaneId)
    requires
        wf(t),
        leaves(t).contains(x),
        t is Split,
    ensures
        ({
            let (t2, r) = walk(t, x);
            &&& r matches Removal::Removed(n) && n is Some
            &&& leaves(collapse(t2)) == without_first(leaves(t), x)
            &&& wf(collapse(t2))
            &&& leaves(collapse(t2)).contains(r->Removed_0->0)
        }),
{
    lemma_wf_nonempty(t);
    lemma_walk(t, x);
    let (t2, r) = walk(t, x);
    lemma_collapse(t2);
}

/// A well-formed tree has no single-child split to collapse.
pub proof fn lemma_collapse_wf(t: Tree)
    requires
        wf(t),
    ensures
        collapse(t) == t,
    decreases t,
{
    if let Tree::Split(d, s) = t {
        lemma_collapse_all(s);
        assert forall|i: int| 0 <= i < s.len() implies #[trigger] collapse_all(s)[i] == s[i] by {
            lemma_collapse_wf(s[i]);
        }
        assert(collapse_all(s) =~= s);
    }
}

/// Closing a freshly opened pane restores the layout: splitting pane `x`
/// to open a new pane `n` (an id not in use), then removing `n`, gives
/// back the tree it started from.
pub proof fn law_split_then_remove(t: Tree, x: PaneId, n: PaneId, dir: SplitDir, place: SplitPlace)
    requires
        wf(t),
        leaves(t).contains(x),
        !leaves(t).contains(n),
    ensures
        walk(split_leaf_tree(t, x, n, dir, place), n).1 is Removed,
        collapse(walk(split_leaf_tree(t, x, n, dir, place), n).0) == t,
    decreases t,
{
    match t {
        Tree::Leaf(id) => {
            assert(leaves(t)[0] == id);
            assert(id == x) by {
                let k = choose|k: int| 0 <= k < leaves(t).len() && leaves(t)[k] == x;
            }
            assert(n != x) by {
                if n == x {
                    assert(leaves(t)[0] == n);
                }
            }
            let pair = split_pair(x, n, dir, place)->Split_1;
            assert(leaves(Tree::Leaf(x)) =~= seq![x]);
            assert(leaves(Tree::Leaf(n)) =~= seq![n]);
            assert(!leaves(Tree::Leaf(x)).contains(n)) by {
                if leaves(Tree::Leaf(x)).contains(n) {
                    let k = choose|k: int| 0 <= k < 1 && leaves(Tree::Leaf(x))[k] == n;
                }
            }
            assert(leaves(Tree::Leaf(n))[0] == n);
            lemma_first_hit(pair, n);
            let i = match place {
                SplitPlace::After => 1int,
                SplitPlace::Before => 0int,
            };
            assert(first_hit(pair, n) == i);
            assert(pair[i] == Tree::Leaf(n));
            assert(walk(pair[i], n).1 is RemoveSelf);
            let s2 = pair.remove(i);
            assert(s2 =~= seq![Tree::Leaf(x)]);
            assert(split_leaf_tree(t, x, n, dir, place) == Tree::Split(dir, pair));
            let w = walk(Tree::Split(dir, pair), n);
            assert(w.0 == Tree::Split(dir, s2));
            assert(w.1 is Removed);
            assert(collapse(Tree::Split(dir, s2)) == collapse(s2[0]));
        },
        Tree::Split(d, s) => {
            lemma_first_hit(s, x);
            let i = first_hit(s, x);
            let c = split_leaf_tree(s[i], x, n, dir, place);
            let s1 = s.update(i, c);
            law_split_leaf(s[i], x, n, dir, place);
            lemma_leaves_split_at(s, i);
            assert forall|j: int| 0 <= j < s.len() implies !leaves(#[trigger] s[j]).contains(n) by {
                lemma_leaves_split_at(s, j);
                if leaves(s[j]).contains(n) {
                    let k = choose|k: int| 0 <= k < leaves(s[j]).len() && leaves(s[j])[k] == n;
                    assert(leaves(t)[leaves_all(s.take(j)).len() + k] == n);
                }
            }
            // The new pane sits in child `i` and nowhere before it.
            lemma_first_index(leaves(s[i]), x);
            let p = first_index(leaves(s[i]), x);
            assert(leaves(c).contains(n)) by {
                match place {
                    SplitPlace::After => {
                        assert(leaves(c)[p + 1] == n);
                    },
                    SplitPlace::Before => {
                        assert(leaves(c)[p] == n);
                    },
                }
            }
            lemma_first_hit(s1, n);
            assert(first_hit(s1, n) == i) by {
                assert(leaves(s1[i]).contains(n));
                assert forall|j: int| 0 <= j < i implies !leaves(#[trigger] s1[j]).contains(n) by {
                    assert(s1[j] == s[j]);
                }
            }
            law_split_then_remove(s[i], x, n, dir, place);
            let (c2, r) = walk(c, n);
            let s2 = s1.update(i, c2);
            assert(walk(Tree::Split(d, s1), n) == (Tree::Split(d, s2), r)) by {
                if r is RemoveSelf {
                    assert(false);
                }
            }
            lemma_collapse_all(s2);
            assert forall|j: int| 0 <= j < s2.len() implies #[trigger] collapse_all(s2)[j] == s[j] by {
                if j == i {
                } else {
                    assert(s2[j] == s[j]);
                    lemma_collapse_wf(s[j]);
                }
            }
            assert(collapse_all(s2) =~= s);
        },
    }
}

// ────────────────────────────────────────────────────────────────────────
// Focus navigation
// ────────────────────────────────────────────────────────────────────────

/// Where the UI drew a pane on the last frame, in terminal cells.
#[derive(Debug, Clone, Copy, PartialEq, Eq, Structural)]
pub struct PaneRect {
    pub x: u16,
    pub y: u16,
    pub width: u16,
    pub height: u16,
}

/// The rect recorded for pane `id` (the first entry naming it).
pub open spec fn rect_of(rects: Seq<(PaneId, PaneRect)>, id: PaneId) -> Option<PaneRect>
    decreases rects.len(),
{
    if rects.len() == 0 {
        None
    } else if rects[0].0 == id {
        Some(rects[0].1)
    } else {
        rect_of(rects.subrange(1, rects.len() as int), id)
    }
}

pub open spec fn center_x(r: PaneRect) -> int {
    r.x + r.width / 2
}

pub open spec fn center_y(r: PaneRect) -> int {
    r.y + r.height / 2
}

pub open spec fn abs(v: int) -> int {
    if v < 0 { -v } else { v }
}

/// `r` lies entirely on the `dir` side of `a`.
pub open spec fn lies_toward(r: PaneRect, a: PaneRect, dir: FocusDir) -> bool {
    match dir {
        FocusDir::Left => r.x + r.width <= a.x,
        FocusDir::Right => r.x >= a.x + a.width,
        FocusDir::Up => r.y + r.height <= a.y,
        FocusDir::Down => r.y >= a.y + a.height,
    }
}

/// Distance between centres, the offset along `dir` counting double.
pub open spec fn focus_distance(r: PaneRect, a: PaneRect, dir: FocusDir) -> int {
    let dx = abs(center_x(r) - center_x(a));
    let dy = abs(center_y(r) - center_y(a));
    match dir {
        FocusDir::Left | FocusDir::Right => dx * 2 + dy,
        FocusDir::Up | FocusDir::Down => dy * 2 + dx,
    }
}

/// Entry `k` is a pane other than the active one lying toward `dir`.
pub open spec fn candidate(rects: Seq<(PaneId, PaneRect)>, active: PaneId, a: PaneRect, dir: FocusDir, k: int) -> bool {
    0 <= k < rects.len() && rects[k].0 != active && lies_toward(rects[k].1, a, dir)
}

/// Entry `k` is the pane focus moves to: the nearest candidate, the
/// first listed among equally near ones.
pub open spec fn nearest(rects: Seq<(PaneId, PaneRect)>, active: PaneId, a: PaneRect, dir: FocusDir, k: int) -> bool {
    &&& candidate(rects, active, a, dir, k)
    &&& forall|j: int| #[trigger] candidate(rects, active, a, dir, j) ==> focus_distance(rects[k].1, a, dir)
        <= focus_distance(rects[j].1, a, dir)
    &&& forall|j: int| 0 <= j < k && #[trigger] candidate(rects, active, a, dir, j) ==> focus_distance(rects[k].1, a, dir)
        < focus_distance(rects[j].1, a, dir)
}

fn find_rect(rects: &[(PaneId, PaneRect)], id: PaneId) -> (r: Option<PaneRect>)
    ensures
        r == rect_of(rects@, id),
{
    let mut i: usize = 0;
    assert(rects@.subrange(0, rects@.len() as int) =~= rects@);
    while i < rects.len()
        invariant
            i <= rects@.len(),
            rect_of(rects@, id) == rect_of(rects@.subrange(i as int, rects@.len() as int), id),
        decreases rects@.len() - i,
    {
        let ghost rest = rects@.subrange(i as int, rects@.len() as int);
        assert(rest[0] == rects@[i as int]);
        assert(rest.subrange(1, rest.len() as int) =~= rects@.subrange(i + 1, rects@.len() as int));
        if rects[i].0 == id {
            return Some(rects[i].1);
        }
        i = i + 1;
    }
    None
}

fn abs_diff(a: u32, b: u32) -> (r: u32)
    ensures
        r == abs(a - b),
{
    if a >= b { a - b } else { b - a }
}

fn distance(r: PaneRect, a: PaneRect, dir: FocusDir) -> (d: u32)
    ensures
        d == focus_distance(r, a, dir),
{
    let dx = abs_diff(r.x as u32 + r.width as u32 / 2, a.x as u32 + a.width as u32 / 2);
    let dy = abs_diff(r.y as u32 + r.height as u32 / 2, a.y as u32 + a.height as u32 / 2);
    match dir {
        FocusDir::Left | FocusDir::Right => dx * 2 + dy,
        FocusDir::Up | FocusDir::Down => dy * 2 + dx,
    }
}

fn toward(r: PaneRect, a: PaneRect, dir: FocusDir) -> (b: bool)
    ensures
        b == lies_toward(r, a, dir),
{
    match dir {
        FocusDir::Left => r.x as u32 + r.width as u32 <= a.x as u32,
        FocusDir::Right => r.x as u32 >= a.x as u32 + a.width as u32,
        FocusDir::Up => r.y as u32 + r.height as u32 <= a.y as u32,
        FocusDir::Down => r.y as u32 >= a.y as u32 + a.height as u32,
    }
}

/// The pane lying in `dir` from the active one, by the rects of the last
/// frame (in the order they are listed): the nearest by centre distance
/// with the offset along `dir` counting double, the first listed on a
/// tie. `None` when the active pane has no rect or nothing lies that way.
pub fn pane_in_direction(rects: &[(PaneId, PaneRect)], active: PaneId, dir: FocusDir) -> (r: Option<PaneId>)
    ensures
        match rect_of(rects@, active) {
            None => r is None,
            Some(a) => match r {
                None => forall|j: int| !candidate(rects@, active, a, dir, j),
                Some(id) => exists|k: int| nearest(rects@, active, a, dir, k) && id == (#[trigger] rects@[k]).0,
            },
        },
{
    let a = match find_rect(rects, active) {
        Some(a) => a,
        None => {
            return None;
        },
    };
    let mut best: Option<(usize, u32)> = None;
    let mut i: usize = 0;
    while i < rects.len()
        invariant
            i <= rects@.len(),
            rect_of(rects@, active) == Some(a),
            match best {
                None => forall|j: int| 0 <= j < i ==> !candidate(rects@, active, a, dir, j),
                Some((k, d)) => {
                    &&& k < i
                    &&& candidate(rects@, active, a, dir, k as int)
                    &&& d == focus_distance(rects@[k as int].1, a, dir)
                    &&& forall|j: int| 0 <= j < i && #[trigger] candidate(rects@, active, a, dir, j) ==> d
                        <= focus_distance(rects@[j].1, a, dir)
                    &&& forall|j: int| 0 <= j < k && #[trigger] candidate(rects@, active, a, dir, j) ==> d
                        < focus_distance(rects@[j].1, a, dir)
                },
            },
        decreases rects@.len() - i,
    {
        let (id, rect) = rects[i];
        if id != active && toward(rect, a, dir) {
            let d = distance(rect, a, dir);
            match best {
                Some((_, b)) => {
                    if d < b {
                        best = Some((i, d));
                    }
                },
                None => {
                    best = Some((i, d));
                },
            }
        }
        i = i + 1;
    }
    match best {
        None => None,
        Some((k, _)) => {
            assert(nearest(rects@, active, a, dir, k as int)) by {
                assert forall|j: int| #[trigger] candidate(rects@, active, a, dir, j) implies focus_distance(
                    rects@[k as int].1,
                    a,
                    dir,
                ) <= focus_distance(rects@[j].1, a, dir) by {
                    assert(0 <= j < rects@.len());
                }
            }
            Some(rects[k].0)
        },
    }
}

/// Index of the first `x` in `s`, or `s.len()`.
fn position_of(s: &[PaneId], x: PaneId) -> (r: usize)
    ensures
        r as int == first_index(s@, x),
{
    let mut i: usize = 0;
    proof {
        lemma_first_index(s@, x);
    }
    while i < s.len()
        invariant
            i <= s@.len(),
            forall|j: int| 0 <= j < i ==> s@[j] != x,
            0 <= first_index(s@, x) <= s@.len(),
            first_index(s@, x) < s@.len() ==> s@[first_index(s@, x)] == x,
            forall|j: int| 0 <= j < first_index(s@, x) ==> s@[j] != x,
        decreases s@.len() - i,
    {
        if s[i] == x {
            return i;
        }
        i = i + 1;
    }
    i
}

/// The pane `Ctrl-W w` moves to: the one after the active pane in
/// traversal order, wrapping around (after the first pane when the
/// active one is not listed). `None` with one pane or none.
pub open spec fn spec_next_pane(ls: Seq<PaneId>, active: PaneId) -> Option<PaneId> {
    if ls.len() <= 1 {
        None
    } else {
        let p = first_index(ls, active);
        let idx = if p < ls.len() { p } else { 0 };
        Some(ls[(idx + 1) % (ls.len() as int)])
    }
}

/// What focusing a pane involves.
#[derive(Debug, Clone, Copy, PartialEq, Eq, Structural)]
pub enum FocusPlan {
    /// Already focused: nothing to do.
    Stay,
    /// Only the focused pane changes: the agent pane, or the pane whose
    /// editor session is the live one.
    Retarget,
    /// The target's stored editor session becomes the live one and the
    /// live one is stored under its pane.
    SwapSession,
}

/// How to focus `target` given the focused pane, the agent pane and the
/// pane of the live editor session.
pub fn plan_focus(target: PaneId, active: PaneId, agent: Option<PaneId>, editor_pane: PaneId) -> (r: FocusPlan)
    ensures
        r == (if target == active {
            FocusPlan::Stay
        } else if agent == Some(target) || target == editor_pane {
            FocusPlan::Retarget
        } else {
            FocusPlan::SwapSession
        }),
{
    if target == active {
        FocusPlan::Stay
    } else if agent == Some(target) || target == editor_pane {
        FocusPlan::Retarget
    } else {
        FocusPlan::SwapSession
    }
}

/// The pane to cycle focus to.
pub fn next_pane(leaves: &[PaneId], active: PaneId) -> (r: Option<PaneId>)
    ensures
        r == spec_next_pane(leaves@, active),
{
    if leaves.len() <= 1 {
        return None;
    }
    let p = position_of(leaves, active);
    let idx = if p < leaves.len() { p } else { 0 };
    Some(leaves[(idx + 1) % leaves.len()])
}

// ────────────────────────────────────────────────────────────────────────
// Closing a window
// ────────────────────────────────────────────────────────────────────────

/// What closing the active pane came to.
#[derive(Debug, Clone, Copy, PartialEq, Eq)]
pub enum WindowClose {
    /// Refused: it is the only pane ("only one pane (use :q to quit)").
    OnlyOnePane,
    /// Refused: no other editor pane to fall into ("only editor pane (use
    /// :q to quit)").
    OnlyEditorPane,
    /// Refused: the layout names no neighbour ("layout has no neighbour
    /// to close into").
    NoNeighbour,
    /// The agent pane was closed; focus `neighbor`.
    AgentClosed { neighbor: PaneId },
    /// An editor pane was closed; `neighbor` is the editor pane to fall
    /// into.
    EditorClosed { neighbor: PaneId },
}

/// The first pane of `ls` that is neither `closing` nor the agent's.
pub open spec fn other_editor(ls: Seq<PaneId>, closing: PaneId, agent: Option<PaneId>) -> Option<PaneId>
    decreases ls.len(),
{
    if ls.len() == 0 {
        None
    } else if ls[0] != closing && Some(ls[0]) != agent {
        Some(ls[0])
    } else {
        other_editor(ls.drop_first(), closing, agent)
    }
}

/// The outcome of closing pane `closing` of layout `t`, the agent's pane
/// being `agent`.
pub open spec fn close_outcome(t: Tree, closing: PaneId, agent: Option<PaneId>) -> WindowClose {
    let removed = walk(t, closing).1;
    if leaves(t).len() <= 1 {
        WindowClose::OnlyOnePane
    } else if Some(closing) == agent {
        match removed {
            Removal::Removed(Some(n)) => WindowClose::AgentClosed { neighbor: n },
            _ => WindowClose::NoNeighbour,
        }
    } else if other_editor(leaves(t), closing, agent) is None {
        WindowClose::OnlyEditorPane
    } else {
        match removed {
            Removal::Removed(Some(n)) => WindowClose::EditorClosed {
                neighbor: if Some(n) == agent {
                    match other_editor(leaves(collapse(walk(t, closing).0)), closing, agent) {
                        Some(e) => e,
                        None => n,
                    }
                } else {
                    n
                },
            },
            _ => WindowClose::NoNeighbour,
        }
    }
}

/// The layout after [`close_outcome`]: once the checks pass, the pane is
/// taken out of the layout wherever the layout holds it (even when no
/// neighbour is left to name); else the layout stays as it was.
pub open spec fn close_layout(t: Tree, closing: PaneId, agent: Option<PaneId>) -> Tree {
    let attempted = leaves(t).len() > 1 && (Some(closing) == agent || other_editor(leaves(t), closing, agent) is Some);
    if attempted && walk(t, closing).1 is Removed {
        collapse(walk(t, closing).0)
    } else {
        t
    }
}

fn find_other_editor(ls: &Vec<PaneId>, closing: PaneId, agent: Option<PaneId>) -> (r: Option<PaneId>)
    ensures
        r == other_editor(ls@, closing, agent),
{
    let mut i: usize = 0;
    assert(ls@.skip(0) =~= ls@);
    while i < ls.len()
        invariant
            i <= ls@.len(),
            other_editor(ls@, closing, agent) == other_editor(ls@.skip(i as int), closing, agent),
        decreases ls@.len() - i,
    {
        let ghost rest = ls@.skip(i as int);
        assert(rest[0] == ls@[i as int]);
        assert(rest.drop_first() =~= ls@.skip(i + 1));
        let id = ls[i];
        let is_agent = match agent {
            Some(a) => a == id,
            None => false,
        };
        if id != closing && !is_agent {
            return Some(id);
        }
        i = i + 1;
    }
    None
}

impl PaneLayout {
    /// Close pane `closing` (the active one), the agent's pane being
    /// `agent`: refused when it is the only pane, or the only editor pane
    /// (the agent pane aside); else the pane leaves the layout and the
    /// pane to fall into is named (for an editor pane, never the agent's
    /// when another editor pane remains).
    pub fn close_window(&mut self, closing: PaneId, agent: Option<PaneId>) -> (r: WindowClose)
        ensures
            r == close_outcome(old(self)@, closing, agent),
            final(self)@ == close_layout(old(self)@, closing, agent),
    {
        let ghost t0 = self@;
        let ls = self.leaves();
        if ls.len() <= 1 {
            return WindowClose::OnlyOnePane;
        }
        let closing_agent = match agent {
            Some(a) => a == closing,
            None => false,
        };
        if closing_agent {
            return match self.remove_leaf(closing) {
                Some(n) => WindowClose::AgentClosed { neighbor: n },
                None => WindowClose::NoNeighbour,
            };
        }
        if find_other_editor(&ls, closing, agent).is_none() {
            return WindowClose::OnlyEditorPane;
        }
        match self.remove_leaf(closing) {
            None => WindowClose::NoNeighbour,
            Some(n) => {
                let is_agent = match agent {
                    Some(a) => a == n,
                    None => false,
                };
                let neighbor = if is_agent {
                    match find_other_editor(&self.leaves(), closing, agent) {
                        Some(e) => e,
                        None => n,
                    }
                } else {
                    n
                };
                WindowClose::EditorClosed { neighbor }
            },
        }
    }
}

/// What [`other_editor`] finds: a pane of `ls` that is neither `closing`
/// nor the agent's, when there is one.
proof fn lemma_other_editor(ls: Seq<PaneId>, closing: PaneId, agent: Option<PaneId>)
    ensures
        other_editor(ls, closing, agent) matches Some(e) ==> ls.contains(e) && e != closing && Some(e) != agent,
        other_editor(ls, closing, agent) is None ==> forall|i: int| 0 <= i < ls.len() ==> ls[i] == closing || Some(
            ls[i],
        ) == agent,
    decreases ls.len(),
{
    if ls.len() > 0 {
        let rest = ls.drop_first();
        lemma_other_editor(rest, closing, agent);
        if ls[0] != closing && Some(ls[0]) != agent {
            assert(ls[0] == ls[0]);
        } else {
            if let Some(e) = other_editor(rest, closing, agent) {
                let k = choose|k: int| 0 <= k < rest.len() && rest[k] == e;
                assert(ls[k + 1] == e);
            }
            assert forall|i: int| 0 <= i < ls.len() && other_editor(ls, closing, agent) is None implies ls[i] == closing
                || Some(ls[i]) == agent by {
                if i > 0 {
                    assert(ls[i] == rest[i - 1]);
                }
            }
        }
    }
}

/// Closing a pane of a well-formed layout whose panes are distinct: a
/// refused close leaves the layout as it was; a closed pane leaves the
/// layout, and the pane named to fall into remains in it; an editor pane
/// never falls into the agent's pane.
pub proof fn law_close_window(t: Tree, closing: PaneId, agent: Option<PaneId>)
    requires
        wf(t),
        leaves(t).contains(closing),
        forall|i: int, j: int| 0 <= i < j < leaves(t).len() ==> leaves(t)[i] != leaves(t)[j],
    ensures
        match close_outcome(t, closing, agent) {
            WindowClose::OnlyOnePane | WindowClose::OnlyEditorPane => close_layout(t, closing, agent) == t,
            WindowClose::AgentClosed { neighbor } => !leaves(close_layout(t, closing, agent)).contains(closing)
                && leaves(close_layout(t, closing, agent)).contains(neighbor),
            WindowClose::EditorClosed { neighbor } => !leaves(close_layout(t, closing, agent)).contains(closing)
                && leaves(close_layout(t, closing, agent)).contains(neighbor) && Some(neighbor) != agent,
            WindowClose::NoNeighbour => true,
        },
{
    let ls = leaves(t);
    if ls.len() > 1 {
        // More than one pane: the layout is a split.
        if t is Leaf {
            assert(ls.len() == 1);
        }
        law_remove_leaf(t, closing);
        let (t2, r) = walk(t, closing);
        let nl = leaves(collapse(t2));
        lemma_first_index(ls, closing);
        let fi = first_index(ls, closing);
        assert(nl == ls.remove(fi));
        assert(!nl.contains(closing)) by {
            if nl.contains(closing) {
                let k = choose|k: int| 0 <= k < nl.len() && nl[k] == closing;
                let ok = if k < fi { k } else { k + 1 };
                assert(ls[ok] == closing);
                if ok < fi {
                    assert(ls[ok] != closing);
                } else {
                    assert(ls[fi] == ls[ok]);
                }
            }
        }
        if Some(closing) != agent {
            lemma_other_editor(ls, closing, agent);
            if let Some(e0) = other_editor(ls, closing, agent) {
                lemma_other_editor(nl, closing, agent);
                // The other editor pane is still there after the close.
                let k = choose|k: int| 0 <= k < ls.len() && ls[k] == e0;
                assert(k != fi);
                let nk = if k < fi { k } else { k - 1 };
                assert(nl[nk] == e0);
                if other_editor(nl, closing, agent) is None {
                    assert(nl[nk] == closing || Some(nl[nk]) == agent);
                }
            }
        }
    }
}

} // verus!
