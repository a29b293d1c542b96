//! Bookkeeping of the extra cursors in Insert mode: gathering all the
//! cursors with their slot, putting moved cursors back (dropping any that
//! landed on another), and shifting cursors after a per-row dedent.

use vstd::prelude::*;

use crate::cursor::Cursor;

verus! {

/// Every cursor tagged with its slot: `0` for the primary, then `1..`
/// for the extras in their stored order.
pub fn collect_cursors(primary: Cursor, extras: &[Cursor]) -> (r: Vec<(usize, Cursor)>)
    requires
        extras@.len() < usize::MAX,
    ensures
        r@.len() == extras@.len() + 1,
        r@[0] == (0usize, primary),
        forall|i: int| 0 <= i < extras@.len() ==> #[trigger] r@[i + 1] == ((i + 1) as usize, extras@[i]),
{
    let mut out: Vec<(usize, Cursor)> = Vec::new();
    out.push((0, primary));
    let mut i: usize = 0;
    while i < extras.len()
        invariant
            i <= extras@.len() < usize::MAX,
            out@.len() == i + 1,
            out@[0] == (0usize, primary),
            forall|k: int| 0 <= k < i ==> #[trigger] out@[k + 1] == ((k + 1) as usize, extras@[k]),
        decreases extras@.len() - i,
    {
        out.push((i + 1, extras[i]));
        i = i + 1;
    }
    out
}

/// The extras kept out of `ps`: in order, without any equal to the
/// primary or to one kept before.
pub open spec fn kept_extras(ps: Seq<Cursor>, primary: Cursor) -> Seq<Cursor>
    decreases ps.len(),
{
    if ps.len() == 0 {
        Seq::empty()
    } else {
        let prev = kept_extras(ps.drop_last(), primary);
        let c = ps.last();
        if c == primary || prev.contains(c) { prev } else { prev.push(c) }
    }
}

/// What [`kept_extras`] promises: no duplicates, never the primary, and
/// every position other than the primary is still covered.
pub proof fn lemma_kept_extras(ps: Seq<Cursor>, primary: Cursor)
    ensures
        forall|i: int, j: int|
            0 <= i < j < kept_extras(ps, primary).len() ==> kept_extras(ps, primary)[i] != kept_extras(ps, primary)[j],
        forall|i: int| 0 <= i < kept_extras(ps, primary).len() ==> kept_extras(ps, primary)[i] != primary,
        forall|i: int| 0 <= i < kept_extras(ps, primary).len() ==> ps.contains(kept_extras(ps, primary)[i]),
        forall|c: Cursor| ps.contains(c) && c != primary ==> kept_extras(ps, primary).contains(c),
    decreases ps.len(),
{
    if ps.len() > 0 {
        let init = ps.drop_last();
        lemma_kept_extras(init, primary);
        let prev = kept_extras(init, primary);
        let k = kept_extras(ps, primary);
        assert forall|i: int| 0 <= i < k.len() implies ps.contains(#[trigger] k[i]) by {
            if i < prev.len() {
                assert(init.contains(prev[i]));
                let w = choose|w: int| 0 <= w < init.len() && init[w] == prev[i];
                assert(ps[w] == prev[i]);
            } else {
                assert(ps[ps.len() - 1] == k[i]);
            }
        }
        assert forall|c: Cursor| ps.contains(c) && c != primary implies k.contains(c) by {
            let w = choose|w: int| 0 <= w < ps.len() && ps[w] == c;
            if w < ps.len() - 1 {
                assert(init[w] == c);
                assert(init.contains(c));
                let v = choose|v: int| 0 <= v < prev.len() && prev[v] == c;
                assert(k[v] == c);
            } else if !prev.contains(c) {
                assert(k[k.len() - 1] == c);
            } else {
                let v = choose|v: int| 0 <= v < prev.len() && prev[v] == c;
                assert(k[v] == c);
            }
        }
    }
}

fn contains_cursor(v: &Vec<Cursor>, c: Cursor) -> (r: bool)
    ensures
        r == v@.contains(c),
{
    let mut i: usize = 0;
    while i < v.len()
        invariant
            i <= v@.len(),
            forall|k: int| 0 <= k < i ==> v@[k] != c,
        decreases v@.len() - i,
    {
        if v[i] == c {
            assert(v@[i as int] == c);
            return true;
        }
        i = i + 1;
    }
    false
}

/// Put moved cursors back: `positions[0]` is the new primary, the rest
/// become the extras in order, dropping any that landed on the primary
/// or on an extra kept before it.
pub fn scatter_cursors(positions: &[Cursor]) -> (r: (Cursor, Vec<Cursor>))
    requires
        positions@.len() >= 1,
    ensures
        r.0 == positions@[0],
        r.1@ == kept_extras(positions@.skip(1), positions@[0]),
        forall|i: int, j: int| 0 <= i < j < r.1@.len() ==> r.1@[i] != r.1@[j],
        forall|i: int| 0 <= i < r.1@.len() ==> r.1@[i] != r.0,
        forall|c: Cursor| positions@.contains(c) ==> c == r.0 || r.1@.contains(c),
        forall|i: int| 0 <= i < r.1@.len() ==> positions@.contains(r.1@[i]),
{
    let primary = positions[0];
    let ghost rest = positions@.skip(1);
    let mut extras: Vec<Cursor> = Vec::new();
    let mut i: usize = 1;
    while i < positions.len()
        invariant
            1 <= i <= positions@.len(),
            primary == positions@[0],
            rest == positions@.skip(1),
            extras@ == kept_extras(rest.take(i - 1), primary),
        decreases positions@.len() - i,
    {
        let c = positions[i];
        assert(rest.take(i as int).drop_last() =~= rest.take(i - 1));
        assert(rest.take(i as int).last() == c);
        if !(c == primary) && !contains_cursor(&extras, c) {
            extras.push(c);
        }
        i = i + 1;
    }
    assert(rest.take(positions@.len() - 1) =~= rest);
    proof {
        lemma_kept_extras(rest, primary);
        assert forall|c: Cursor| positions@.contains(c) implies c == primary || extras@.contains(c) by {
            let w = choose|w: int| 0 <= w < positions@.len() && positions@[w] == c;
            if w > 0 {
                assert(rest[w - 1] == c);
                assert(rest.contains(c));
            }
        }
        assert forall|k: int| 0 <= k < extras@.len() implies positions@.contains(extras@[k]) by {
            assert(rest.contains(extras@[k]));
            let w = choose|w: int| 0 <= w < rest.len() && rest[w] == extras@[k];
            assert(positions@[w + 1] == extras@[k]);
        }
    }
    (primary, extras)
}

/// The column a cursor keeps after its row lost `removed` leading chars.
pub open spec fn dedented_col(col: usize, removed: usize) -> usize {
    if col >= removed { (col - removed) as usize } else { 0 }
}

/// How many chars the dedent of `row` removed: the first entry for the
/// row in `removed`, `0` when there is none.
pub open spec fn removed_on(removed: Seq<(usize, usize)>, row: usize) -> usize
    decreases removed.len(),
{
    if removed.len() == 0 {
        0
    } else if removed[0].0 == row {
        removed[0].1
    } else {
        removed_on(removed.drop_first(), row)
    }
}

fn removed_on_row(removed: &[(usize, usize)], row: usize) -> (r: usize)
    ensures
        r == removed_on(removed@, row),
{
    let mut i: usize = 0;
    assert(removed@.skip(0) =~= removed@);
    while i < removed.len()
        invariant
            i <= removed@.len(),
            removed_on(removed@, row) == removed_on(removed@.skip(i as int), row),
        decreases removed@.len() - i,
    {
        assert(removed@.skip(i as int).drop_first() =~= removed@.skip(i + 1));
        if removed[i].0 == row {
            return removed[i].1;
        }
        i = i + 1;
    }
    0
}

/// The cursors after each of their rows was dedented once: same row,
/// column moved left by what that row lost (not past column 0).
pub fn shift_after_dedent(cursors: &[Cursor], removed: &[(usize, usize)]) -> (r: Vec<Cursor>)
    ensures
        r@.len() == cursors@.len(),
        forall|i: int| 0 <= i < cursors@.len() ==> #[trigger] r@[i] == (Cursor {
            row: cursors@[i].row,
            col: dedented_col(cursors@[i].col, removed_on(removed@, cursors@[i].row)),
        }),
{
    let mut out: Vec<Cursor> = Vec::new();
    let mut i: usize = 0;
    while i < cursors.len()
        invariant
            i <= cursors@.len(),
            out@.len() == i,
            forall|k: int| 0 <= k < i ==> #[trigger] out@[k] == (Cursor {
                row: cursors@[k].row,
                col: dedented_col(cursors@[k].col, removed_on(removed@, cursors@[k].row)),
            }),
        decreases cursors@.len() - i,
    {
        let c = cursors[i];
        let n = removed_on_row(removed, c.row);
        let col = if c.col >= n { c.col - n } else { 0 };
        out.push(Cursor { row: c.row, col });
        i = i + 1;
    }
    out
}

/// Strictly increasing.
pub open spec fn ascending(s: Seq<usize>) -> bool {
    forall|i: int, j: int| 0 <= i < j < s.len() ==> s[i] < s[j]
}

proof fn lemma_insert_contains(s: Seq<usize>, i: int, v: usize)
    requires
        0 <= i <= s.len(),
    ensures
        forall|x: usize| #[trigger] s.insert(i, v).contains(x) <==> (s.contains(x) || x == v),
{
    let t = s.insert(i, v);
    assert forall|x: usize| #[trigger] t.contains(x) <==> (s.contains(x) || x == v) by {
        if t.contains(x) {
            let w = choose|w: int| 0 <= w < t.len() && t[w] == x;
            if w < i {
                assert(s[w] == x);
            } else if w > i {
                assert(s[w - 1] == x);
            }
        }
        if s.contains(x) {
            let w = choose|w: int| 0 <= w < s.len() && s[w] == x;
            if w < i {
                assert(t[w] == x);
            } else {
                assert(t[w + 1] == x);
            }
        }
        if x == v {
            assert(t[i] == x);
        }
    }
}

#[verifier::spinoff_prover]
fn insert_row(rows: &mut Vec<usize>, row: usize)
    requires
        ascending(old(rows)@),
    ensures
        ascending(final(rows)@),
        forall|x: usize| final(rows)@.contains(x) <==> (old(rows)@.contains(x) || x == row),
{
    let mut i: usize = 0;
    while i < rows.len() && rows[i] < row
        invariant
            i <= rows@.len(),
            rows@ == old(rows)@,
            forall|k: int| 0 <= k < i ==> rows@[k] < row,
        decreases rows@.len() - i,
    {
        i = i + 1;
    }
    if i < rows.len() && rows[i] == row {
        assert(rows@[i as int] == row);
        assert(forall|x: usize| rows@.contains(x) <==> (old(rows)@.contains(x) || x == row));
        return;
    }
    let ghost before = rows@;
    assert(before == old(rows)@);
    rows.insert(i, row);
    proof {
        assert(rows@ == before.insert(i as int, row));
        assert forall|a: int, b: int| 0 <= a < b < rows@.len() implies rows@[a] < rows@[b] by {
            if b < i {
            } else if b == i {
            } else if a < i {
                assert(before[a] < row);
                assert(rows@[b] == before[b - 1]);
                assert(before[i as int] >= row);
                if b - 1 > i {
                    assert(before[i as int] < before[b - 1]);
                }
            } else if a == i {
                assert(rows@[b] == before[b - 1]);
                assert(before[i as int] > row);
                if b - 1 > i {
                    assert(before[i as int] < before[b - 1]);
                }
            } else {
                assert(rows@[a] == before[a - 1]);
                assert(rows@[b] == before[b - 1]);
            }
        }
        lemma_insert_contains(before, i as int, row);
    }
}

/// The rows holding a cursor, each once, ascending: each is dedented
/// once however many cursors sit on it.
pub fn cursor_rows(cursors: &[Cursor]) -> (r: Vec<usize>)
    ensures
        ascending(r@),
        forall|row: usize| r@.contains(row) <==> exists|i: int| 0 <= i < cursors@.len() && #[trigger] cursors@[i].row == row,
{
    let mut rows: Vec<usize> = Vec::new();
    let mut i: usize = 0;
    while i < cursors.len()
        invariant
            i <= cursors@.len(),
            ascending(rows@),
            forall|row: usize| rows@.contains(row) <==> exists|k: int| 0 <= k < i && #[trigger] cursors@[k].row == row,
        decreases cursors@.len() - i,
    {
        insert_row(&mut rows, cursors[i].row);
        proof {
            assert forall|row: usize| rows@.contains(row) <==> exists|k: int| 0 <= k < i + 1 && #[trigger] cursors@[k].row == row by {
                if row == cursors@[i as int].row {
                    assert(cursors@[i as int].row == row);
                }
                if exists|k: int| 0 <= k < i + 1 && #[trigger] cursors@[k].row == row {
                    let k = choose|k: int| 0 <= k < i + 1 && #[trigger] cursors@[k].row == row;
                    if k < i {
                        assert(exists|k2: int| 0 <= k2 < i && #[trigger] cursors@[k2].row == row);
                    }
                }
            }
        }
        i = i + 1;
    }
    rows
}

} // verus!
