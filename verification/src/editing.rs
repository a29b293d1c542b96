//! Small line-level helpers the editing commands share: first non-blank
//! column, the word under the cursor, trimming blank edge rows off a
//! line-wise range, and the fold region under a row.

use vstd::prelude::*;

use crate::cursor::Cursor;
use crate::text::{is_ws, is_word_char, char_is_whitespace, char_is_word, str_chars, str_views, string_from_chars};

verus! {

/// Number of leading whitespace chars.
pub open spec fn leading_ws(s: Seq<char>) -> nat
    decreases s.len(),
{
    if s.len() > 0 && is_ws(s[0]) {
        1 + leading_ws(s.drop_first())
    } else {
        0
    }
}

pub proof fn lemma_leading_ws(s: Seq<char>)
    ensures
        leading_ws(s) <= s.len(),
        forall|j: int| 0 <= j < leading_ws(s) ==> is_ws(#[trigger] s[j]),
        leading_ws(s) < s.len() ==> !is_ws(s[leading_ws(s) as int]),
    decreases s.len(),
{
    if s.len() > 0 && is_ws(s[0]) {
        let t = s.drop_first();
        lemma_leading_ws(t);
        assert forall|j: int| 0 <= j < leading_ws(s) implies is_ws(#[trigger] s[j]) by {
            if j > 0 {
                assert(s[j] == t[j - 1]);
            }
        }
        if leading_ws(s) < s.len() {
            assert(s[leading_ws(s) as int] == t[leading_ws(t) as int]);
        }
    }
}

/// Column of the first non-whitespace char, `0` on an all-blank line.
pub open spec fn spec_first_non_blank(s: Seq<char>) -> nat {
    if leading_ws(s) < s.len() { leading_ws(s) } else { 0 }
}

/// The column the cursor lands on after `^`, or after an indent
/// operator: the first non-whitespace char, `0` on an all-blank line.
pub fn first_non_blank(line: &str) -> (r: usize)
    ensures
        r == spec_first_non_blank(line@),
{
    let cs = str_chars(line);
    let mut i: usize = 0;
    assert(cs@.skip(0) =~= cs@);
    while i < cs.len() && char_is_whitespace(cs[i])
        invariant
            i <= cs@.len(),
            cs@ == line@,
            leading_ws(cs@) == i + leading_ws(cs@.skip(i as int)),
        decreases cs@.len() - i,
    {
        assert(cs@.skip(i as int).drop_first() =~= cs@.skip(i + 1));
        i = i + 1;
    }
    proof {
        if i < cs@.len() {
            assert(!is_ws(cs@.skip(i as int)[0]));
        } else {
            assert(cs@.skip(i as int).len() == 0);
        }
    }
    if i < cs.len() {
        i
    } else {
        0
    }
}

/// Whether every char of the line is whitespace.
pub open spec fn blank(l: Seq<char>) -> bool {
    forall|j: int| 0 <= j < l.len() ==> is_ws(#[trigger] l[j])
}

fn is_blank(line: &str) -> (r: bool)
    ensures
        r == blank(line@),
{
    let cs = str_chars(line);
    let mut i: usize = 0;
    while i < cs.len()
        invariant
            i <= cs@.len(),
            cs@ == line@,
            forall|j: int| 0 <= j < i ==> is_ws(#[trigger] cs@[j]),
        decreases cs@.len() - i,
    {
        if !char_is_whitespace(cs[i]) {
            return false;
        }
        i = i + 1;
    }
    true
}

pub(crate) fn char_count(line: &str) -> (r: usize)
    ensures
        r == line@.len(),
{
    str_chars(line).len()
}

// ────────────────────────────────────────────────────────────────────────
// Word under the cursor
// ────────────────────────────────────────────────────────────────────────

/// Start of the run of word chars that ends at `col`.
pub open spec fn word_start(l: Seq<char>, col: int) -> int
    decreases col,
{
    if col > 0 && col <= l.len() && is_word_char(l[col - 1]) {
        word_start(l, col - 1)
    } else {
        col
    }
}

/// End (inclusive) of the run of word chars that starts at `col`.
pub open spec fn word_end(l: Seq<char>, col: int) -> int
    decreases l.len() - col,
{
    if 0 <= col && col + 1 < l.len() && is_word_char(l[col + 1]) {
        word_end(l, col + 1)
    } else {
        col
    }
}

/// The word (`[[:alnum:]_]+`) the cursor column sits on, if any.
pub open spec fn spec_word_at(l: Seq<char>, col: int) -> Option<Seq<char>> {
    if 0 <= col < l.len() && is_word_char(l[col]) {
        Some(l.subrange(word_start(l, col), word_end(l, col) + 1))
    } else {
        None
    }
}

proof fn lemma_word_start(l: Seq<char>, col: int)
    requires
        0 <= col <= l.len(),
    ensures
        0 <= word_start(l, col) <= col,
    decreases col,
{
    if col > 0 && is_word_char(l[col - 1]) {
        lemma_word_start(l, col - 1);
    }
}

proof fn lemma_word_end(l: Seq<char>, col: int)
    requires
        0 <= col < l.len(),
    ensures
        col <= word_end(l, col) < l.len(),
    decreases l.len() - col,
{
    if col + 1 < l.len() && is_word_char(l[col + 1]) {
        lemma_word_end(l, col + 1);
    }
}

/// The word under `cursor` in `lines`: `None` when the cursor is past
/// the end of its line or on a non-word char.
pub fn word_under_cursor(lines: &[String], cursor: Cursor) -> (r: Option<String>)
    requires
        cursor.row < lines@.len(),
    ensures
        match spec_word_at(str_views(lines@)[cursor.row as int], cursor.col as int) {
            Some(w) => r matches Some(s) && s@ == w,
            None => r is None,
        },
{
    let line = str_chars(lines[cursor.row].as_str());
    let ghost l = line@;
    assert(l == str_views(lines@)[cursor.row as int]);
    let col = cursor.col;
    if col >= line.len() {
        return None;
    }
    if !char_is_word(line[col]) {
        return None;
    }
    let mut lo = col;
    while lo > 0 && char_is_word(line[lo - 1])
        invariant
            lo <= col < l.len(),
            line@ == l,
            word_start(l, col as int) == word_start(l, lo as int),
        decreases lo,
    {
        lo = lo - 1;
    }
    let mut hi = col;
    while hi < line.len() - 1 && char_is_word(line[hi + 1])
        invariant
            col <= hi < l.len(),
            line@ == l,
            word_end(l, col as int) == word_end(l, hi as int),
        decreases l.len() - hi,
    {
        hi = hi + 1;
    }
    let mut w: Vec<char> = Vec::new();
    let mut k = lo;
    while k <= hi
        invariant
            lo <= k <= hi + 1,
            hi < l.len(),
            hi < line.len(),
            line@ == l,
            w@ == l.subrange(lo as int, k as int),
        decreases hi + 1 - k,
    {
        w.push(line[k]);
        assert(w@ =~= l.subrange(lo as int, k + 1));
        k = k + 1;
    }
    Some(string_from_chars(w.as_slice()))
}

// ────────────────────────────────────────────────────────────────────────
// Blank edges of a line-wise range
// ────────────────────────────────────────────────────────────────────────

/// Some row in `a..=b` is not blank.
pub open spec fn some_nonblank(v: Seq<Seq<char>>, a: int, b: int) -> bool {
    exists|k: int| a <= k <= b && !blank(#[trigger] v[k])
}

/// The last row the range `lo..hi` covers content on.
pub open spec fn last_content_row(hi: Cursor) -> int {
    if hi.col == 0 && hi.row > 0 { hi.row - 1 } else { hi.row as int }
}

/// The range is line-aligned (`lo` at column 0, `hi` at a line edge) and
/// holds a non-blank row: its blank edge rows can be trimmed.
pub open spec fn trimmable(v: Seq<Seq<char>>, lo: Cursor, hi: Cursor) -> bool {
    &&& lo.col == 0
    &&& (hi.col == 0 || hi.col == v[hi.row as int].len())
    &&& some_nonblank(v, lo.row as int, last_content_row(hi))
}

/// Pull a line-aligned range inward past all-blank rows on both edges.
/// Mid-line ranges, and ranges whose rows are all blank, come back
/// unchanged.
pub fn trim_blank_edges(lines: &[String], lo: Cursor, hi: Cursor) -> (r: (Cursor, Cursor))
    requires
        hi.row < lines@.len(),
    ensures
        ({
            let v = str_views(lines@);
            let lcr = last_content_row(hi);
            if !trimmable(v, lo, hi) {
                r == (lo, hi)
            } else {
                let first = r.0.row as int;
                let last = if hi.col == 0 { r.1.row - 1 } else { r.1.row as int };
                &&& r.0.col == 0
                &&& lo.row <= first <= last <= lcr
                &&& !blank(v[first]) && !blank(v[last])
                &&& forall|k: int| lo.row <= k < first ==> blank(#[trigger] v[k])
                &&& forall|k: int| last < k <= lcr ==> blank(#[trigger] v[k])
                &&& r.1.col == (if hi.col == 0 { 0 } else { v[last].len() })
            }
        }),
{
    let ghost v = str_views(lines@);
    if lo.col != 0 {
        return (lo, hi);
    }
    let hi_len = char_count(lines[hi.row].as_str());
    let hi_at_boundary = hi.col == 0 || hi.col == hi_len;
    if !hi_at_boundary {
        return (lo, hi);
    }
    let lcr = if hi.col == 0 && hi.row > 0 { hi.row - 1 } else { hi.row };
    let mut first = lo.row;
    while first <= lcr && is_blank(lines[first].as_str())
        invariant
            lcr == last_content_row(hi),
            lcr < lines@.len(),
            v == str_views(lines@),
            lo.row <= first,
            forall|k: int| lo.row <= k < first ==> blank(#[trigger] v[k]),
        decreases lcr + 1 - first,
    {
        assert(v[first as int] == lines@[first as int]@);
        first = first + 1;
    }
    if first > lcr {
        assert(!some_nonblank(v, lo.row as int, lcr as int));
        return (lo, hi);
    }
    assert(v[first as int] == lines@[first as int]@);
    let mut last = lcr;
    while last > first && is_blank(lines[last].as_str())
        invariant
            lcr == last_content_row(hi),
            lcr < lines@.len(),
            v == str_views(lines@),
            first <= last <= lcr,
            forall|k: int| last < k <= lcr ==> blank(#[trigger] v[k]),
        decreases last - first,
    {
        assert(v[last as int] == lines@[last as int]@);
        last = last - 1;
    }
    assert(v[last as int] == lines@[last as int]@);
    let new_lo = Cursor { row: first, col: 0 };
    let new_hi = if hi.col == 0 {
        Cursor { row: last + 1, col: 0 }
    } else {
        Cursor { row: last, col: char_count(lines[last].as_str()) }
    };
    (new_lo, new_hi)
}

// ────────────────────────────────────────────────────────────────────────
// Folds
// ────────────────────────────────────────────────────────────────────────

/// Region `(header, end)` covers `row`.
pub open spec fn covers(r: (usize, usize), row: usize) -> bool {
    r.0 <= row <= r.1
}

/// Rows a region spans beyond its header.
pub open spec fn span(r: (usize, usize)) -> int {
    r.1 - r.0
}

/// `regions[k]` is the innermost region covering `row`: it covers it,
/// no covering region is smaller, and every covering region before it is
/// larger (the first of equally small ones wins).
pub open spec fn innermost_at(regions: Seq<(usize, usize)>, row: usize, k: int) -> bool {
    &&& 0 <= k < regions.len()
    &&& covers(regions[k], row)
    &&& forall|j: int| 0 <= j < regions.len() && covers(#[trigger] regions[j], row) ==> span(regions[k]) <= span(regions[j])
    &&& forall|j: int| 0 <= j < k && covers(#[trigger] regions[j], row) ==> span(regions[k]) < span(regions[j])
}

/// The innermost foldable region containing `row`: the smallest span
/// among those whose `header..=end` covers it, the first on ties.
pub fn innermost_fold_at(regions: &[(usize, usize)], row: usize) -> (r: Option<(usize, usize)>)
    ensures
        match r {
            None => forall|j: int| 0 <= j < regions@.len() ==> !covers(#[trigger] regions@[j], row),
            Some(x) => exists|k: int| innermost_at(regions@, row, k) && x == #[trigger] regions@[k],
        },
{
    let mut best: Option<usize> = None;
    let mut i: usize = 0;
    while i < regions.len()
        invariant
            i <= regions@.len(),
            match best {
                None => forall|j: int| 0 <= j < i ==> !covers(#[trigger] regions@[j], row),
                Some(k) => k < i && covers(regions@[k as int], row) && (forall|j: int|
                    0 <= j < i && covers(#[trigger] regions@[j], row) ==> span(regions@[k as int]) <= span(regions@[j]))
                    && (forall|j: int| 0 <= j < k && covers(#[trigger] regions@[j], row) ==> span(regions@[k as int]) < span(
                    regions@[j])),
            },
        decreases regions@.len() - i,
    {
        let (h, e) = regions[i];
        if h <= row && row <= e {
            match best {
                None => {
                    best = Some(i);
                },
                Some(k) => {
                    let (bh, be) = regions[k];
                    if e - h < be - bh {
                        best = Some(i);
                    }
                },
            }
        }
        i = i + 1;
    }
    match best {
        None => None,
        Some(k) => {
            assert(innermost_at(regions@, row, k as int));
            Some(regions[k])
        },
    }
}

/// What Tab inserts in Insert mode.
#[derive(Debug, Clone, Copy, PartialEq, Eq)]
pub enum TabInsert {
    /// A literal tab.
    Tab,
    /// This many spaces, reaching the next tab stop.
    Spaces(usize),
}

/// Tab in Insert mode: a literal tab when the buffer indents with tabs or
/// the line's indentation already holds one (so spaces never mix into a
/// tab-indented row); else spaces up to the next multiple of the indent
/// width (at least 1).
pub open spec fn spec_tab_insert(line: Seq<char>, col: nat, use_tabs: bool, width: nat) -> TabInsert {
    if use_tabs || line.take(leading_ws(line) as int).contains('\t') {
        TabInsert::Tab
    } else {
        let stop = if width == 0 { 1 } else { width };
        TabInsert::Spaces((stop - col % stop) as usize)
    }
}

/// Decide what Tab inserts at column `col` of `line`.
pub fn tab_insertion(line: &str, col: usize, use_tabs: bool, width: usize) -> (r: TabInsert)
    ensures
        r == spec_tab_insert(line@, col as nat, use_tabs, width as nat),
{
    if use_tabs {
        return TabInsert::Tab;
    }
    let cs = str_chars(line);
    proof {
        lemma_leading_ws(line@);
    }
    let mut i: usize = 0;
    let mut has_tab = false;
    assert(cs@.skip(0) =~= cs@);
    while i < cs.len() && char_is_whitespace(cs[i])
        invariant
            cs@ == line@,
            i <= cs@.len(),
            leading_ws(line@) == i + leading_ws(cs@.skip(i as int)),
            has_tab == cs@.take(i as int).contains('\t'),
        decreases cs@.len() - i,
    {
        assert(cs@.skip(i as int).drop_first() =~= cs@.skip(i + 1));
        assert(cs@.take(i + 1) =~= cs@.take(i as int).push(cs@[i as int]));
        if cs[i] == '\t' {
            has_tab = true;
            assert(cs@.take(i + 1)[i as int] == '\t');
        } else {
            proof {
                let t = cs@.take(i + 1);
                if t.contains('\t') {
                    let j = choose|j: int| 0 <= j < t.len() && t[j] == '\t';
                    assert(cs@.take(i as int)[j] == '\t');
                }
            }
        }
        i = i + 1;
    }
    proof {
        if i < cs@.len() {
            assert(cs@.skip(i as int)[0] == cs@[i as int]);
        }
        assert(leading_ws(cs@.skip(i as int)) == 0);
    }
    if has_tab {
        return TabInsert::Tab;
    }
    let stop = if width == 0 { 1 } else { width };
    TabInsert::Spaces(stop - col % stop)
}

} // verus!
