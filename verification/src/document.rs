//! The per-document state the editor keeps for one open file or scratch
//! buffer: its lines, undo/redo history and bookkeeping.

use vstd::prelude::*;

use crate::cursor::Cursor;
use crate::text::str_views;

verus! {

/// What was on disk when the document was last loaded or saved: used to
/// notice an external edit before overwriting it.
#[derive(Debug, Clone, Copy, PartialEq, Eq, Structural)]
pub struct FileMeta {
    /// File length in bytes.
    pub len: u64,
    /// Modification time, nanoseconds since the Unix epoch.
    pub mtime_ns: u64,
}

/// One undo/redo entry: the lines and cursors before an edit.
#[derive(Debug, Clone)]
pub struct Snapshot {
    pub lines: Vec<String>,
    pub cursor: Cursor,
    pub extra_cursors: Vec<Cursor>,
    pub dirty: bool,
}

/// The mathematical content of a [`Snapshot`].
pub struct SnapView {
    pub lines: Seq<Seq<char>>,
    pub cursor: Cursor,
    pub extra_cursors: Seq<Cursor>,
    pub dirty: bool,
}

impl View for Snapshot {
    type V = SnapView;

    open spec fn view(&self) -> SnapView {
        SnapView { lines: str_views(self.lines@), cursor: self.cursor, extra_cursors: self.extra_cursors@, dirty: self.dirty }
    }
}

/// A document: text lines, file path (`None` for scratch buffers),
/// unsaved-changes flag, yank register, edit version, scroll offsets,
/// undo/redo stacks, the on-disk metadata and the last-seen disk content.
#[derive(Debug, Clone)]
pub struct Buffer {
    pub lines: Vec<String>,
    pub path: Option<String>,
    pub dirty: bool,
    pub yank: String,
    pub version: u64,
    pub scroll: usize,
    pub col_scroll: usize,
    pub undo_stack: Vec<Snapshot>,
    pub redo_stack: Vec<Snapshot>,
    pub disk_meta: Option<FileMeta>,
    pub disk_base: Option<Vec<String>>,
}

/// The mathematical content of a [`Buffer`].
pub struct BufView {
    pub lines: Seq<Seq<char>>,
    pub path: Option<Seq<char>>,
    pub dirty: bool,
    pub yank: Seq<char>,
    pub version: u64,
    pub scroll: usize,
    pub col_scroll: usize,
    pub undo: Seq<SnapView>,
    pub redo: Seq<SnapView>,
    pub disk_meta: Option<FileMeta>,
    pub disk_base: Option<Seq<Seq<char>>>,
}

/// The views of a list of snapshots.
pub open spec fn snap_views(v: Seq<Snapshot>) -> Seq<SnapView> {
    v.map_values(|s: Snapshot| s@)
}

/// The view of an optional string.
pub open spec fn opt_str_view(o: Option<String>) -> Option<Seq<char>> {
    match o {
        Some(s) => Some(s@),
        None => None,
    }
}

/// The view of an optional list of lines.
pub open spec fn opt_lines_view(o: Option<Vec<String>>) -> Option<Seq<Seq<char>>> {
    match o {
        Some(v) => Some(str_views(v@)),
        None => None,
    }
}

impl View for Buffer {
    type V = BufView;

    open spec fn view(&self) -> BufView {
        BufView {
            lines: str_views(self.lines@),
            path: opt_str_view(self.path),
            dirty: self.dirty,
            yank: self.yank@,
            version: self.version,
            scroll: self.scroll,
            col_scroll: self.col_scroll,
            undo: snap_views(self.undo_stack@),
            redo: snap_views(self.redo_stack@),
            disk_meta: self.disk_meta,
            disk_base: opt_lines_view(self.disk_base),
        }
    }
}

impl Buffer {
    /// An empty scratch document: one empty line, clean, no history.
    pub fn new() -> (r: Buffer)
        ensures
            r@.lines == seq![Seq::<char>::empty()],
            r@.path is None,
            !r@.dirty,
            r@.yank == Seq::<char>::empty(),
            r@.version == 0,
            r@.scroll == 0,
            r@.col_scroll == 0,
            r@.undo.len() == 0,
            r@.redo.len() == 0,
            r@.disk_meta is None,
            r@.disk_base is None,
    {
        let mut lines: Vec<String> = Vec::new();
        lines.push(String::new());
        let r = Buffer {
            lines,
            path: None,
            dirty: false,
            yank: String::new(),
            version: 0,
            scroll: 0,
            col_scroll: 0,
            undo_stack: Vec::new(),
            redo_stack: Vec::new(),
            disk_meta: None,
            disk_base: None,
        };
        assert(r@.lines =~= seq![Seq::<char>::empty()]);
        assert(r@.undo =~= Seq::<SnapView>::empty());
        assert(r@.redo =~= Seq::<SnapView>::empty());
        r
    }
}

} // verus!
