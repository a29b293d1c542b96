//! Snapshots of documents that no pane shows any more.
//!
//! A sleeping document keeps everything a later thaw needs (lines,
//! undo/redo history, dirty flag, ...). To bound memory the line content
//! is deflated when the whole document is large: if the total raw byte
//! count (main lines, every undo and redo snapshot, the disk base) exceeds
//! [`COMPRESS_THRESHOLD`], every line list is stored as one deflate blob
//! of the lines joined with `\n`; otherwise everything stays raw. The
//! dirty flag and the path are never compressed.

use std::io::{Read, Write};

use flate2::read::DeflateDecoder;
use flate2::write::DeflateEncoder;
use flate2::Compression;

use vstd::prelude::*;
use vstd::utf8::*;
use vstd::string::*;

use crate::cursor::Cursor;
use crate::document::{Buffer, BufView, FileMeta, Snapshot, SnapView, snap_views, opt_str_view, opt_lines_view};
use crate::text::{str_views, str_chars, string_push, push_str, clone_strings};

verus! {

/// Raw byte count above which a sleeping document's lines are deflated.
pub const COMPRESS_THRESHOLD: usize = 4096;

// ---------------------------------------------------------------------
// Joining and splitting lines on '\n'.
// ---------------------------------------------------------------------

/// The lines joined with `\n` separators (`str::join("\n")`).
pub open spec fn join_nl(ls: Seq<Seq<char>>) -> Seq<char>
    decreases ls.len(),
{
    if ls.len() == 0 {
        Seq::empty()
    } else if ls.len() == 1 {
        ls[0]
    } else {
        join_nl(ls.drop_last()) + seq!['\n'] + ls.last()
    }
}

/// The pieces of `s` between `\n` separators (`str::split('\n')`); never
/// empty: `""` splits into one empty piece.
pub open spec fn split_nl(s: Seq<char>) -> Seq<Seq<char>>
    decreases s.len(),
{
    if s.len() == 0 {
        seq![Seq::empty()]
    } else {
        let r = split_nl(s.drop_last());
        if s.last() == '\n' {
            r.push(Seq::empty())
        } else {
            r.update(r.len() - 1, r.last().push(s.last()))
        }
    }
}

/// No line holds a `\n`.
pub open spec fn newline_free(ls: Seq<Seq<char>>) -> bool {
    forall|i: int, j: int| 0 <= i < ls.len() && 0 <= j < ls[i].len() ==> #[trigger] ls[i][j] != '\n'
}

pub proof fn lemma_split_nonempty(s: Seq<char>)
    ensures
        split_nl(s).len() >= 1,
    decreases s.len(),
{
    if s.len() > 0 {
        lemma_split_nonempty(s.drop_last());
    }
}

/// Appending newline-free text extends the last piece.
pub proof fn lemma_split_append_plain(a: Seq<char>, b: Seq<char>)
    requires
        forall|j: int| 0 <= j < b.len() ==> b[j] != '\n',
    ensures
        split_nl(a + b) == split_nl(a).update(split_nl(a).len() - 1, split_nl(a).last() + b),
    decreases b.len(),
{
    lemma_split_nonempty(a);
    if b.len() == 0 {
        assert(a + b =~= a);
        assert(split_nl(a).last() + b =~= split_nl(a).last());
        assert(split_nl(a).update(split_nl(a).len() - 1, split_nl(a).last()) =~= split_nl(a));
    } else {
        let b0 = b.drop_last();
        lemma_split_append_plain(a, b0);
        assert((a + b).drop_last() =~= a + b0);
        assert((a + b).last() == b.last());
        let r0 = split_nl(a + b0);
        lemma_split_nonempty(a + b0);
        assert(split_nl(a).last() + b0 + seq![b.last()] =~= split_nl(a).last() + b);
        assert(r0.last().push(b.last()) =~= split_nl(a).last() + b);
        assert(r0.update(r0.len() - 1, r0.last().push(b.last())) =~= split_nl(a).update(
            split_nl(a).len() - 1,
            split_nl(a).last() + b,
        ));
    }
}

/// Splitting undoes joining for a non-empty list of newline-free lines.
pub proof fn lemma_split_join(ls: Seq<Seq<char>>)
    requires
        ls.len() >= 1,
        newline_free(ls),
    ensures
        split_nl(join_nl(ls)) == ls,
    decreases ls.len(),
{
    if ls.len() == 1 {
        let e = Seq::<char>::empty();
        assert forall|j: int| 0 <= j < ls[0].len() implies ls[0][j] != '\n' by {
            assert(ls[0][j] != '\n');
        }
        lemma_split_append_plain(e, ls[0]);
        assert(e + ls[0] =~= ls[0]);
        assert(split_nl(e) =~= seq![e]);
        assert(seq![e].update(0, e + ls[0]) =~= ls);
    } else {
        let init = ls.drop_last();
        assert(newline_free(init)) by {
            assert forall|i: int, j: int| 0 <= i < init.len() && 0 <= j < init[i].len() implies #[trigger] init[i][j]
                != '\n' by {
                assert(init[i] == ls[i]);
            }
        }
        lemma_split_join(init);
        let a = join_nl(init).push('\n');
        let last = ls.last();
        assert forall|j: int| 0 <= j < last.len() implies last[j] != '\n' by {
            assert(ls[ls.len() - 1][j] != '\n');
        }
        assert(join_nl(ls) =~= a + last);
        lemma_split_append_plain(a, last);
        assert(a.drop_last() =~= join_nl(init));
        assert(split_nl(a) =~= init.push(Seq::empty()));
        assert(Seq::<char>::empty() + last =~= last);
        assert(init.push(Seq::empty()).update(init.len() as int, last) =~= ls);
    }
}

/// `lines` joined with `\n`.
fn join_lines(lines: &[String]) -> (r: String)
    ensures
        r@ == join_nl(str_views(lines@)),
{
    let ghost v = str_views(lines@);
    let mut s = String::new();
    let n = lines.len();
    let mut i: usize = 0;
    while i < n
        invariant
            n == lines@.len(),
            v == str_views(lines@),
            i <= n,
            s@ == join_nl(v.take(i as int)),
        decreases n - i,
    {
        if i > 0 {
            string_push(&mut s, '\n');
        }
        push_str(&mut s, lines[i].as_str());
        proof {
            let t = v.take(i + 1);
            assert(t.drop_last() =~= v.take(i as int));
            assert(t.last() == lines@[i as int]@);
            if i == 0 {
                assert(Seq::<char>::empty() + t[0] =~= t[0]);
            } else {
                assert(join_nl(v.take(i as int)).push('\n') + t.last() =~= join_nl(v.take(i as int)) + seq!['\n']
                    + t.last());
            }
        }
        i = i + 1;
    }
    assert(v.take(n as int) =~= v);
    s
}

/// `s` split on `\n` into owned lines.
pub(crate) fn split_lines(s: &str) -> (r: Vec<String>)
    ensures
        str_views(r@) == split_nl(s@),
{
    let cs = str_chars(s);
    let mut out: Vec<String> = Vec::new();
    let mut cur = String::new();
    let mut i: usize = 0;
    while i < cs.len()
        invariant
            i <= cs@.len(),
            cs@ == s@,
            str_views(out@).push(cur@) == split_nl(cs@.take(i as int)),
        decreases cs@.len() - i,
    {
        let c = cs[i];
        let ghost t = cs@.take(i + 1);
        assert(t.drop_last() =~= cs@.take(i as int));
        assert(t.last() == c);
        if c == '\n' {
            let ghost before = str_views(out@);
            let done = cur;
            out.push(done);
            cur = String::new();
            assert(str_views(out@) =~= before.push(done@));
        } else {
            let ghost before = str_views(out@);
            string_push(&mut cur, c);
            assert(str_views(out@).push(cur@) =~= before.push(cur@));
            proof {
                lemma_split_nonempty(cs@.take(i as int));
                let r = split_nl(cs@.take(i as int));
                assert(before.push(r.last()) == r) by {
                    assert(r.len() - 1 == before.len());
                    assert(before.push(r.last()) =~= r);
                }
                assert(before.push(cur@) =~= r.update(r.len() - 1, r.last().push(c)));
            }
        }
        i = i + 1;
    }
    assert(cs@.take(cs@.len() as int) =~= cs@);
    let ghost before = str_views(out@);
    out.push(cur);
    assert(str_views(out@) =~= before.push(cur@));
    out
}

// ---------------------------------------------------------------------
// Sizes.
// ---------------------------------------------------------------------

/// Total UTF-8 byte length of the lines (separators not counted).
pub open spec fn bytes_of(ls: Seq<Seq<char>>) -> int
    decreases ls.len(),
{
    if ls.len() == 0 {
        0
    } else {
        bytes_of(ls.drop_last()) + encode_utf8(ls.last()).len()
    }
}

/// Total raw byte size of the lines of a list of snapshots.
pub open spec fn snaps_bytes(snaps: Seq<SnapView>) -> int
    decreases snaps.len(),
{
    if snaps.len() == 0 {
        0
    } else {
        snaps_bytes(snaps.drop_last()) + bytes_of(snaps.last().lines)
    }
}

/// The raw byte count the compression decision is taken on: main lines,
/// all undo and redo snapshots, and the disk base.
pub open spec fn total_bytes(b: BufView) -> int {
    bytes_of(b.lines) + snaps_bytes(b.undo) + snaps_bytes(b.redo) + match b.disk_base {
        Some(d) => bytes_of(d),
        None => 0,
    }
}

/// `x` capped at `usize::MAX`.
pub open spec fn capped(x: int) -> int {
    if x > usize::MAX { usize::MAX as int } else { x }
}

pub proof fn lemma_bytes_nonneg(ls: Seq<Seq<char>>)
    ensures
        bytes_of(ls) >= 0,
    decreases ls.len(),
{
    if ls.len() > 0 {
        lemma_bytes_nonneg(ls.drop_last());
    }
}

pub proof fn lemma_snaps_bytes_nonneg(s: Seq<SnapView>)
    ensures
        snaps_bytes(s) >= 0,
    decreases s.len(),
{
    if s.len() > 0 {
        lemma_snaps_bytes_nonneg(s.drop_last());
        lemma_bytes_nonneg(s.last().lines);
    }
}

/// Sum of the UTF-8 byte lengths of the lines, saturating at
/// `usize::MAX`.
fn raw_size(lines: &[String]) -> (r: usize)
    ensures
        r == capped(bytes_of(str_views(lines@))),
{
    let ghost v = str_views(lines@);
    let mut acc: usize = 0;
    let mut i: usize = 0;
    while i < lines.len()
        invariant
            i <= lines@.len(),
            v == str_views(lines@),
            acc == capped(bytes_of(v.take(i as int))),
        decreases lines@.len() - i,
    {
        let n = lines[i].as_str().as_bytes().len();
        proof {
            assert(v.take(i + 1).drop_last() =~= v.take(i as int));
            assert(v.take(i + 1).last() == lines@[i as int]@);
            lemma_bytes_nonneg(v.take(i as int));
        }
        acc = acc.saturating_add(n);
        i = i + 1;
    }
    assert(v.take(lines@.len() as int) =~= v);
    acc
}

/// Raw size of every snapshot's lines, summed with saturation.
fn snaps_size(snaps: &[Snapshot]) -> (r: usize)
    ensures
        r == capped(snaps_bytes(snap_views(snaps@))),
{
    let ghost v = snap_views(snaps@);
    let mut acc: usize = 0;
    let mut i: usize = 0;
    while i < snaps.len()
        invariant
            i <= snaps@.len(),
            v == snap_views(snaps@),
            acc == capped(snaps_bytes(v.take(i as int))),
        decreases snaps@.len() - i,
    {
        let n = raw_size(snaps[i].lines.as_slice());
        proof {
            assert(v.take(i + 1).drop_last() =~= v.take(i as int));
            assert(v.take(i + 1).last() == snaps@[i as int]@);
            lemma_snaps_bytes_nonneg(v.take(i as int));
            lemma_bytes_nonneg(snaps@[i as int]@.lines);
        }
        acc = acc.saturating_add(n);
        i = i + 1;
    }
    assert(v.take(snaps@.len() as int) =~= v);
    acc
}

// ---------------------------------------------------------------------
// Deflate.
// ---------------------------------------------------------------------

/// What flate2's raw-deflate encoder produces for `data` at the default
/// compression level.
pub uninterp spec fn deflated(data: Seq<u8>) -> Seq<u8>;

/// What flate2's raw-deflate decoder reads from `blob`: `None` where the
/// stream is corrupt.
pub uninterp spec fn inflated(blob: Seq<u8>) -> Option<Seq<u8>>;

/// Compress `data` with `flate2::write::DeflateEncoder` (default level)
/// into a `Vec`. The result is named [`deflated`]; writing into a `Vec`
/// cannot fail.
#[verifier::external_body]
fn deflate(data: &[u8]) -> (r: Vec<u8>)
    ensures
        r@ == deflated(data@),
{
    let mut enc = DeflateEncoder::new(Vec::new(), Compression::default());
    enc.write_all(data).expect("deflate write to Vec cannot fail");
    enc.finish().expect("deflate finish to Vec cannot fail")
}

/// Decompress `blob` with `flate2::read::DeflateDecoder`, reading to
/// the end. The result is named [`inflated`]. Deflate is lossless: a
/// blob that the encoder produced for some bytes decodes to exactly
/// those bytes.
#[verifier::external_body]
fn inflate(blob: &[u8]) -> (r: Option<Vec<u8>>)
    ensures
        (r is Some) == (inflated(blob@) is Some),
        r is Some ==> inflated(blob@) == Some(r->0@),
        forall|d: Seq<u8>| #[trigger] deflated(d) == blob@ ==> (r is Some && r->0@ == d),
{
    let mut dec = DeflateDecoder::new(blob);
    let mut out: Vec<u8> = Vec::new();
    match dec.read_to_end(&mut out) {
        Ok(_) => Some(out),
        Err(_) => None,
    }
}

/// `String::from_utf8`: the bytes as a string when they are valid UTF-8.
#[verifier::external_body]
fn string_from_utf8(bytes: Vec<u8>) -> (r: Option<String>)
    ensures
        (r is Some) == valid_utf8(bytes@),
        r matches Some(s) ==> s@ == decode_utf8(bytes@),
{
    String::from_utf8(bytes).ok()
}

// ---------------------------------------------------------------------
// Frozen line lists.
// ---------------------------------------------------------------------

/// A line list, kept raw or stored as a deflate blob of the lines joined
/// with `\n` (`text` is that joined text).
pub enum Lines {
    Raw(Vec<String>),
    Compressed { blob: Vec<u8>, text: Ghost<Seq<char>> },
}

impl Lines {
    /// A compressed blob is the deflate of the UTF-8 of its text.
    pub open spec fn wf(&self) -> bool {
        match self {
            Lines::Raw(_) => true,
            Lines::Compressed { blob, text } => blob@ == deflated(encode_utf8(text@)),
        }
    }

    /// The lines a thaw gives back.
    pub open spec fn content(&self) -> Seq<Seq<char>> {
        match self {
            Lines::Raw(v) => str_views(v@),
            Lines::Compressed { text, .. } => split_nl(text@),
        }
    }

    fn freeze_raw(lines: Vec<String>) -> (r: Lines)
        ensures
            r.wf(),
            r is Raw,
            r.content() == str_views(lines@),
    {
        Lines::Raw(lines)
    }

    fn freeze_zip(lines: &[String]) -> (r: Lines)
        ensures
            r.wf(),
            r is Compressed,
            r.content() == split_nl(join_nl(str_views(lines@))),
    {
        let joined = join_lines(lines);
        let bytes = joined.as_str().as_bytes();
        let blob = deflate(bytes);
        Lines::Compressed { blob, text: Ghost(joined@) }
    }

    /// Raw when `compress` is false, a blob otherwise.
    fn freeze(lines: Vec<String>, compress: bool) -> (r: Lines)
        ensures
            r.wf(),
            (r is Compressed) == compress,
            r.content() == settle(str_views(lines@), compress),
    {
        if compress {
            Lines::freeze_zip(lines.as_slice())
        } else {
            Lines::freeze_raw(lines)
        }
    }

    /// The lines, decompressed where needed.
    fn thaw(&self) -> (r: Vec<String>)
        requires
            self.wf(),
        ensures
            str_views(r@) == self.content(),
    {
        match self {
            Lines::Raw(v) => clone_strings(v.as_slice()),
            Lines::Compressed { blob, text } => {
                proof {
                    broadcast use vstd::utf8::encode_utf8_valid_utf8, vstd::utf8::encode_utf8_decode_utf8;
                    assert(deflated(encode_utf8(text@)) == blob@);
                }
                match inflate(blob.as_slice()) {
                    Some(bytes) => {
                        match string_from_utf8(bytes) {
                            Some(s) => split_lines(s.as_str()),
                            None => {
                                proof {
                                    broadcast use vstd::utf8::encode_utf8_valid_utf8;
                                }
                                Vec::new()
                            },
                        }
                    },
                    None => Vec::new(),
                }
            },
        }
    }
}

/// The lines a freeze then thaw gives back: unchanged when kept raw,
/// split again after joining when compressed.
pub open spec fn settle(ls: Seq<Seq<char>>, compress: bool) -> Seq<Seq<char>> {
    if compress { split_nl(join_nl(ls)) } else { ls }
}

/// A snapshot after a freeze and thaw.
pub open spec fn settle_snap(s: SnapView, compress: bool) -> SnapView {
    SnapView { lines: settle(s.lines, compress), ..s }
}

/// A document after a freeze and thaw: every line list settled, the rest
/// unchanged.
pub open spec fn frozen_image(b: BufView, compress: bool) -> BufView {
    BufView {
        lines: settle(b.lines, compress),
        undo: b.undo.map_values(|s: SnapView| settle_snap(s, compress)),
        redo: b.redo.map_values(|s: SnapView| settle_snap(s, compress)),
        disk_base: match b.disk_base {
            Some(d) => Some(settle(d, compress)),
            None => None,
        },
        ..b
    }
}

/// One undo/redo entry of a sleeping document.
pub struct FrozenSnapshot {
    lines: Lines,
    cursor: Cursor,
    extra_cursors: Vec<Cursor>,
    dirty: bool,
}

impl FrozenSnapshot {
    pub closed spec fn view_of(&self) -> SnapView {
        SnapView { lines: self.lines.content(), cursor: self.cursor, extra_cursors: self.extra_cursors@, dirty: self.dirty }
    }

    pub closed spec fn zipped(&self) -> bool {
        self.lines is Compressed
    }

    pub closed spec fn wf(&self) -> bool {
        self.lines.wf()
    }
}

/// The views of a list of frozen snapshots.
pub open spec fn frozen_views(v: Seq<FrozenSnapshot>) -> Seq<SnapView> {
    v.map_values(|f: FrozenSnapshot| f.view_of())
}

/// A copy of the cursors.
fn copy_cursors(v: &[Cursor]) -> (r: Vec<Cursor>)
    ensures
        r@ == v@,
{
    let mut out: Vec<Cursor> = Vec::new();
    let mut i: usize = 0;
    while i < v.len()
        invariant
            i <= v@.len(),
            out@ == v@.take(i as int),
        decreases v@.len() - i,
    {
        out.push(v[i]);
        assert(out@ =~= v@.take(i + 1));
        i = i + 1;
    }
    assert(v@.take(v@.len() as int) =~= v@);
    out
}

/// Freeze every snapshot of a history stack.
fn freeze_snaps(snaps: &[Snapshot], compress: bool) -> (r: Vec<FrozenSnapshot>)
    ensures
        r@.len() == snaps@.len(),
        forall|i: int| 0 <= i < r@.len() ==> (#[trigger] r@[i]).wf() && r@[i].zipped() == compress,
        frozen_views(r@) == snap_views(snaps@).map_values(|s: SnapView| settle_snap(s, compress)),
{
    let ghost target = snap_views(snaps@).map_values(|s: SnapView| settle_snap(s, compress));
    let mut out: Vec<FrozenSnapshot> = Vec::new();
    let mut i: usize = 0;
    while i < snaps.len()
        invariant
            i <= snaps@.len(),
            target == snap_views(snaps@).map_values(|s: SnapView| settle_snap(s, compress)),
            out@.len() == i,
            forall|k: int| 0 <= k < out@.len() ==> (#[trigger] out@[k]).wf() && out@[k].zipped() == compress,
            frozen_views(out@) == target.take(i as int),
        decreases snaps@.len() - i,
    {
        let s = &snaps[i];
        let lines = clone_strings(s.lines.as_slice());
        let f = FrozenSnapshot {
            lines: Lines::freeze(lines, compress),
            cursor: s.cursor,
            extra_cursors: copy_cursors(s.extra_cursors.as_slice()),
            dirty: s.dirty,
        };
        assert(f.view_of() == target[i as int]);
        let ghost before = out@;
        out.push(f);
        assert(frozen_views(out@) =~= target.take(i + 1)) by {
            assert(frozen_views(out@) =~= frozen_views(before).push(f.view_of()));
        }
        i = i + 1;
    }
    assert(target.take(snaps@.len() as int) =~= target);
    out
}

/// Thaw every snapshot of a frozen history stack.
fn thaw_snaps(snaps: &[FrozenSnapshot]) -> (r: Vec<Snapshot>)
    requires
        forall|i: int| 0 <= i < snaps@.len() ==> (#[trigger] snaps@[i]).wf(),
    ensures
        snap_views(r@) == frozen_views(snaps@),
{
    let ghost target = frozen_views(snaps@);
    let mut out: Vec<Snapshot> = Vec::new();
    let mut i: usize = 0;
    while i < snaps.len()
        invariant
            i <= snaps@.len(),
            target == frozen_views(snaps@),
            forall|k: int| 0 <= k < snaps@.len() ==> (#[trigger] snaps@[k]).wf(),
            snap_views(out@) == target.take(i as int),
        decreases snaps@.len() - i,
    {
        let f = &snaps[i];
        assert(f.wf());
        let s = Snapshot {
            lines: f.lines.thaw(),
            cursor: f.cursor,
            extra_cursors: copy_cursors(f.extra_cursors.as_slice()),
            dirty: f.dirty,
        };
        let ghost before = out@;
        out.push(s);
        assert(snap_views(out@) =~= target.take(i + 1)) by {
            assert(snap_views(out@) =~= snap_views(before).push(s@));
        }
        i = i + 1;
    }
    assert(target.take(snaps@.len() as int) =~= target);
    out
}

// ---------------------------------------------------------------------
// The sleeping document.
// ---------------------------------------------------------------------

/// Everything kept of a document that no pane shows. Built by
/// [`SleepingBuffer::freeze`], consumed by [`SleepingBuffer::thaw`].
pub struct SleepingBuffer {
    lines: Lines,
    path: Option<String>,
    dirty: bool,
    yank: String,
    version: u64,
    scroll: usize,
    col_scroll: usize,
    undo: Vec<FrozenSnapshot>,
    redo: Vec<FrozenSnapshot>,
    disk_meta: Option<FileMeta>,
    disk_base: Option<Lines>,
    compressed: bool,
}

impl View for SleepingBuffer {
    type V = BufView;

    closed spec fn view(&self) -> BufView {
        BufView {
            lines: self.lines.content(),
            path: opt_str_view(self.path),
            dirty: self.dirty,
            yank: self.yank@,
            version: self.version,
            scroll: self.scroll,
            col_scroll: self.col_scroll,
            undo: frozen_views(self.undo@),
            redo: frozen_views(self.redo@),
            disk_meta: self.disk_meta,
            disk_base: match self.disk_base {
                Some(l) => Some(l.content()),
                None => None,
            },
        }
    }
}

impl SleepingBuffer {
    /// Every blob decodes, and either every line list is compressed or
    /// none is.
    #[verifier::type_invariant]
    spec fn inv(self) -> bool {
        &&& self.lines.wf()
        &&& (self.lines is Compressed) == self.compressed
        &&& forall|i: int| 0 <= i < self.undo@.len() ==> (#[trigger] self.undo@[i]).wf() && self.undo@[i].zipped()
            == self.compressed
        &&& forall|i: int| 0 <= i < self.redo@.len() ==> (#[trigger] self.redo@[i]).wf() && self.redo@[i].zipped()
            == self.compressed
        &&& match self.disk_base {
            Some(l) => l.wf() && (l is Compressed) == self.compressed,
            None => true,
        }
    }

    /// Whether the line content is stored deflated.
    pub closed spec fn is_zipped(&self) -> bool {
        self.compressed
    }

    /// Put `b` to sleep. The line content is compressed exactly when the
    /// document's total raw byte count exceeds [`COMPRESS_THRESHOLD`]; all
    /// other state is kept as it is.
    pub fn freeze(b: Buffer) -> (r: SleepingBuffer)
        ensures
            r.is_zipped() == (total_bytes(b@) > COMPRESS_THRESHOLD),
            r@ == frozen_image(b@, r.is_zipped()),
    {
        let main_size = raw_size(b.lines.as_slice());
        let undo_size = snaps_size(b.undo_stack.as_slice());
        let redo_size = snaps_size(b.redo_stack.as_slice());
        let disk_size: usize = match &b.disk_base {
            Some(d) => raw_size(d.as_slice()),
            None => 0,
        };
        proof {
            lemma_bytes_nonneg(b@.lines);
            lemma_snaps_bytes_nonneg(b@.undo);
            lemma_snaps_bytes_nonneg(b@.redo);
            if let Some(d) = b@.disk_base {
                lemma_bytes_nonneg(d);
            }
        }
        let total = main_size.saturating_add(undo_size).saturating_add(redo_size).saturating_add(disk_size);
        let compress = total > COMPRESS_THRESHOLD;
        let ghost bv = b@;
        let undo = freeze_snaps(b.undo_stack.as_slice(), compress);
        let redo = freeze_snaps(b.redo_stack.as_slice(), compress);
        let Buffer { lines, path, dirty, yank, version, scroll, col_scroll, undo_stack: _, redo_stack: _, disk_meta, disk_base } = b;
        let frozen_lines = Lines::freeze(lines, compress);
        let frozen_base = match disk_base {
            Some(d) => Some(Lines::freeze(d, compress)),
            None => None,
        };
        let r = SleepingBuffer {
            lines: frozen_lines,
            path,
            dirty,
            yank,
            version,
            scroll,
            col_scroll,
            undo,
            redo,
            disk_meta,
            disk_base: frozen_base,
            compressed: compress,
        };
        assert(r@ =~= frozen_image(bv, compress));
        r
    }

    /// The document's path; `None` for scratch buffers.
    pub fn path(&self) -> (r: Option<&String>)
        ensures
            match r {
                Some(p) => self@.path == Some(p@),
                None => self@.path is None,
            },
    {
        self.path.as_ref()
    }

    /// Replace the path (the file was renamed or moved while asleep).
    pub fn set_path(&mut self, path: Option<String>)
        ensures
            final(self)@ == (BufView { path: opt_str_view(path), ..old(self)@ }),
            final(self).is_zipped() == old(self).is_zipped(),
    {
        proof {
            use_type_invariant(&*self);
        }
        let mut tmp = SleepingBuffer::placeholder();
        std::mem::swap(self, &mut tmp);
        let SleepingBuffer { lines, path: _, dirty, yank, version, scroll, col_scroll, undo, redo, disk_meta, disk_base, compressed } = tmp;
        *self = SleepingBuffer { lines, path, dirty, yank, version, scroll, col_scroll, undo, redo, disk_meta, disk_base, compressed };
        assert(final(self)@ =~= (BufView { path: opt_str_view(path), ..old(self)@ }));
    }

    /// An empty, raw sleeping document (used while moving fields).
    fn placeholder() -> (r: SleepingBuffer)
        ensures
            r@ == (BufView {
                lines: Seq::empty(),
                path: None,
                dirty: false,
                yank: Seq::empty(),
                version: 0,
                scroll: 0,
                col_scroll: 0,
                undo: Seq::empty(),
                redo: Seq::empty(),
                disk_meta: None,
                disk_base: None,
            }),
            !r.compressed,
    {
        let r = SleepingBuffer {
            lines: Lines::Raw(Vec::new()),
            path: None,
            dirty: false,
            yank: String::new(),
            version: 0,
            scroll: 0,
            col_scroll: 0,
            undo: Vec::new(),
            redo: Vec::new(),
            disk_meta: None,
            disk_base: None,
            compressed: false,
        };
        assert(r@.lines =~= Seq::<Seq<char>>::empty());
        assert(r@.yank =~= Seq::<char>::empty());
        assert(r@.undo =~= Seq::<SnapView>::empty());
        assert(r@.redo =~= Seq::<SnapView>::empty());
        r
    }

    /// Whether the document has unsaved changes (readable without a thaw).
    pub fn dirty(&self) -> (r: bool)
        ensures
            r == self@.dirty,
    {
        self.dirty
    }

    /// Whether the line content is stored deflated.
    pub fn is_compressed(&self) -> (r: bool)
        ensures
            r == self.is_zipped(),
    {
        self.compressed
    }

    /// For each undo entry, whether its lines are stored deflated.
    pub fn undo_compressed(&self) -> (r: Vec<bool>)
        ensures
            r@.len() == self@.undo.len(),
            forall|i: int| 0 <= i < r@.len() ==> r@[i] == self.is_zipped(),
    {
        proof {
            use_type_invariant(self);
        }
        let mut out: Vec<bool> = Vec::new();
        let mut i: usize = 0;
        while i < self.undo.len()
            invariant
                i <= self.undo@.len(),
                out@.len() == i,
                forall|k: int| 0 <= k < out@.len() ==> out@[k] == self.compressed,
                forall|k: int| 0 <= k < self.undo@.len() ==> (#[trigger] self.undo@[k]).zipped() == self.compressed,
            decreases self.undo@.len() - i,
        {
            let z = match &self.undo[i].lines {
                Lines::Raw(_) => false,
                Lines::Compressed { .. } => true,
            };
            assert(self.undo@[i as int].zipped() == self.compressed);
            out.push(z);
            i = i + 1;
        }
        out
    }

    /// The main lines, decompressed without consuming the snapshot.
    pub fn peek_lines(&self) -> (r: Vec<String>)
        ensures
            str_views(r@) == self@.lines,
    {
        proof {
            use_type_invariant(self);
        }
        self.lines.thaw()
    }

    /// Wake the document up: every field as it was frozen, line lists
    /// decompressed.
    pub fn thaw(self) -> (r: Buffer)
        ensures
            r@ == self@,
    {
        proof {
            use_type_invariant(&self);
        }
        let lines = self.lines.thaw();
        let undo_stack = thaw_snaps(self.undo.as_slice());
        let redo_stack = thaw_snaps(self.redo.as_slice());
        let disk_base = match &self.disk_base {
            Some(l) => Some(l.thaw()),
            None => None,
        };
        let ghost sv = self@;
        let SleepingBuffer { lines: _, path, dirty, yank, version, scroll, col_scroll, undo: _, redo: _, disk_meta, disk_base: _, compressed: _ } = self;
        let r = Buffer {
            lines,
            path,
            dirty,
            yank,
            version,
            scroll,
            col_scroll,
            undo_stack,
            redo_stack,
            disk_meta,
            disk_base,
        };
        assert(r@ =~= sv);
        r
    }
}

/// Every line list of the document is non-empty and free of `\n` (true
/// of any document the editor builds).
pub open spec fn joinable(b: BufView) -> bool {
    &&& b.lines.len() >= 1 && newline_free(b.lines)
    &&& forall|i: int| 0 <= i < b.undo.len() ==> (#[trigger] b.undo[i]).lines.len() >= 1 && newline_free(b.undo[i].lines)
    &&& forall|i: int| 0 <= i < b.redo.len() ==> (#[trigger] b.redo[i]).lines.len() >= 1 && newline_free(b.redo[i].lines)
    &&& match b.disk_base {
        Some(d) => d.len() >= 1 && newline_free(d),
        None => true,
    }
}

/// A freeze followed by a thaw gives back the document it was given,
/// compressed or not, for every document whose line lists are non-empty
/// and hold no `\n`.
pub proof fn law_freeze_thaw_roundtrip(b: BufView, compress: bool)
    requires
        joinable(b),
    ensures
        frozen_image(b, compress) == b,
{
    if compress {
        lemma_split_join(b.lines);
        assert forall|i: int| 0 <= i < b.undo.len() implies #[trigger] settle_snap(b.undo[i], compress) == b.undo[i] by {
            lemma_split_join(b.undo[i].lines);
        }
        assert forall|i: int| 0 <= i < b.redo.len() implies #[trigger] settle_snap(b.redo[i], compress) == b.redo[i] by {
            lemma_split_join(b.redo[i].lines);
        }
        if let Some(d) = b.disk_base {
            lemma_split_join(d);
        }
    }
    assert(b.undo.map_values(|s: SnapView| settle_snap(s, compress)) =~= b.undo);
    assert(b.redo.map_values(|s: SnapView| settle_snap(s, compress)) =~= b.redo);
    assert(frozen_image(b, compress) =~= b);
}

/// A document small enough to stay raw comes back unchanged whatever its
/// lines hold.
pub proof fn law_raw_freeze_is_exact(b: BufView)
    ensures
        frozen_image(b, false) == b,
{
    assert(b.undo.map_values(|s: SnapView| settle_snap(s, false)) =~= b.undo);
    assert(b.redo.map_values(|s: SnapView| settle_snap(s, false)) =~= b.redo);
    assert(frozen_image(b, false) =~= b);
}

} // verus!
