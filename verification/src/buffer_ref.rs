//! Buffer identifiers: the unnamed scratch buffers and file-backed ones.

use vstd::prelude::*;

use crate::text::{decimal, push_decimal, push_str};

verus! {

/// Names a buffer. `Scratch(0)` is the scratch buffer the editor starts
/// with; every `:new` mints a fresh id. `File` holds the buffer's path.
#[derive(Debug, Clone)]
pub enum BufferRef {
    Scratch(u32),
    File(String),
}

/// The value a [`BufferRef`] stands for: a scratch id or a path.
pub enum RefView {
    Scratch(u32),
    File(Seq<char>),
}

impl View for BufferRef {
    type V = RefView;

    open spec fn view(&self) -> RefView {
        match self {
            BufferRef::Scratch(id) => RefView::Scratch(*id),
            BufferRef::File(p) => RefView::File(p@),
        }
    }
}

/// Two refs name the same buffer: the same scratch id, or the same path.
pub open spec fn same_ref(a: BufferRef, b: BufferRef) -> bool {
    a@ == b@
}

impl PartialEq for BufferRef {
    fn eq(&self, other: &Self) -> (r: bool) {
        match (self, other) {
            (BufferRef::Scratch(x), BufferRef::Scratch(y)) => *x == *y,
            (BufferRef::File(p), BufferRef::File(q)) => *p == *q,
            _ => false,
        }
    }
}

impl vstd::std_specs::cmp::PartialEqSpecImpl for BufferRef {
    open spec fn obeys_eq_spec() -> bool {
        true
    }

    open spec fn eq_spec(&self, other: &BufferRef) -> bool {
        same_ref(*self, *other)
    }
}

impl Eq for BufferRef {}

/// `[scratch]` for the first scratch buffer, `[scratch N]` for the
/// others.
pub open spec fn scratch_text(id: u32) -> Seq<char> {
    if id == 0 { "[scratch]"@ } else { "[scratch "@ + decimal(id as nat) + "]"@ }
}

impl BufferRef {
    /// A copy naming the same buffer.
    pub fn duplicate(&self) -> (r: BufferRef)
        ensures
            r@ == self@,
    {
        match self {
            BufferRef::Scratch(id) => BufferRef::Scratch(*id),
            BufferRef::File(p) => BufferRef::File(p.clone()),
        }
    }

    /// `[scratch]` for the first scratch buffer, `[scratch N]` for the
    /// others.
    pub fn scratch_label(id: u32) -> (r: String)
        ensures
            r@ == scratch_text(id),
    {
        if id == 0 {
            "[scratch]".to_string()
        } else {
            let mut s = "[scratch ".to_string();
            push_decimal(&mut s, id as u64);
            push_str(&mut s, "]");
            s
        }
    }
}

impl Default for BufferRef {
    fn default() -> (r: BufferRef)
        ensures
            r == BufferRef::Scratch(0),
    {
        BufferRef::Scratch(0)
    }
}

} // verus!
