//! What `:reloadall` does with the sleeping buffers and how it reports
//! the outcome. Reading the files is the caller's business; it hands in
//! what each reload came to.

use vstd::prelude::*;

use crate::buffer_ref::{scratch_text, BufferRef, RefView};
use crate::text::{decimal, push_decimal, push_str};

verus! {

/// A status message: information or an error.
#[derive(Debug, PartialEq, Eq)]
pub enum Report {
    Info(String),
    Error(String),
}

/// The strings joined with `sep`.
pub open spec fn join_with(ls: Seq<Seq<char>>, sep: Seq<char>) -> Seq<char>
    decreases ls.len(),
{
    if ls.len() == 0 {
        Seq::empty()
    } else if ls.len() == 1 {
        ls[0]
    } else {
        join_with(ls.drop_last(), sep) + sep + ls.last()
    }
}

pub(crate) fn push_joined(s: &mut String, parts: &Vec<String>, sep: &str)
    ensures
        final(s)@ == old(s)@ + join_with(crate::text::str_views(parts@), sep@),
{
    let ghost v = crate::text::str_views(parts@);
    let ghost base = s@;
    let mut i: usize = 0;
    while i < parts.len()
        invariant
            i <= parts@.len(),
            v == crate::text::str_views(parts@),
            s@ == base + join_with(v.take(i as int), sep@),
        decreases parts@.len() - i,
    {
        if i > 0 {
            push_str(s, sep);
        }
        push_str(s, parts[i].as_str());
        proof {
            let t = v.take(i + 1);
            assert(t.drop_last() =~= v.take(i as int));
            assert(t.last() == parts@[i as int]@);
            if i == 0 {
                assert(v.take(0) =~= Seq::<Seq<char>>::empty());
                assert(s@ =~= base + join_with(t, sep@));
            } else {
                assert(s@ =~= base + join_with(t, sep@));
            }
        }
        i = i + 1;
    }
    assert(v.take(v.len() as int) =~= v);
}

/// The counts that the summary mentions, in order: `reloaded N`,
/// `N unchanged`, `N dirty kept`, each only when not zero.
pub open spec fn reload_parts(reloaded: nat, unchanged: nat, dirty_kept: nat) -> Seq<Seq<char>> {
    (if reloaded > 0 { seq!["reloaded "@ + decimal(reloaded)] } else { Seq::empty() }) + (if unchanged > 0 {
        seq![decimal(unchanged) + " unchanged"@]
    } else {
        Seq::empty()
    }) + (if dirty_kept > 0 { seq![decimal(dirty_kept) + " dirty kept"@] } else { Seq::empty() })
}

/// The `:reloadall` summary: the counts joined with `", "`; with errors,
/// an error naming them after the counts (or after `reload-all failed`
/// when there are no counts); with nothing at all, a note that no
/// buffer is file-backed.
pub open spec fn reload_summary(reloaded: nat, unchanged: nat, dirty_kept: nat, errors: Seq<Seq<char>>) -> (bool, Seq<char>) {
    let parts = reload_parts(reloaded, unchanged, dirty_kept);
    if parts.len() == 0 && errors.len() == 0 {
        (false, "no file-backed buffers"@)
    } else if errors.len() == 0 {
        (false, join_with(parts, ", "@))
    } else {
        (
            true,
            (if parts.len() == 0 { "reload-all failed"@ } else { join_with(parts, ", "@) }) + "; errors: "@ + join_with(
                errors,
                "; "@,
            ),
        )
    }
}

/// Summarize a `:reloadall`: how many buffers were reloaded, found
/// unchanged, or kept because they hold unsaved edits, and the errors.
pub fn reload_all_report(reloaded: usize, unchanged: usize, dirty_kept: usize, errors: &Vec<String>) -> (r: Report)
    ensures
        match r {
            Report::Info(m) => reload_summary(reloaded as nat, unchanged as nat, dirty_kept as nat, crate::text::str_views(errors@))
                == (false, m@),
            Report::Error(m) => reload_summary(reloaded as nat, unchanged as nat, dirty_kept as nat, crate::text::str_views(errors@))
                == (true, m@),
        },
{
    let mut parts: Vec<String> = Vec::new();
    if reloaded > 0 {
        let mut p = "reloaded ".to_string();
        push_decimal(&mut p, reloaded as u64);
        parts.push(p);
    }
    if unchanged > 0 {
        let mut p = String::new();
        push_decimal(&mut p, unchanged as u64);
        push_str(&mut p, " unchanged");
        parts.push(p);
    }
    if dirty_kept > 0 {
        let mut p = String::new();
        push_decimal(&mut p, dirty_kept as u64);
        push_str(&mut p, " dirty kept");
        parts.push(p);
    }
    proof {
        reveal_strlit("reloaded ");
        assert(crate::text::str_views(parts@) =~= reload_parts(reloaded as nat, unchanged as nat, dirty_kept as nat));
    }
    if parts.len() == 0 && errors.len() == 0 {
        return Report::Info("no file-backed buffers".to_string());
    }
    let mut m = String::new();
    if errors.len() == 0 {
        push_joined(&mut m, &parts, ", ");
        assert(m@ =~= join_with(crate::text::str_views(parts@), ", "@));
        return Report::Info(m);
    }
    if parts.len() == 0 {
        push_str(&mut m, "reload-all failed");
    } else {
        push_joined(&mut m, &parts, ", ");
    }
    push_str(&mut m, "; errors: ");
    push_joined(&mut m, errors, "; ");
    proof {
        reveal_strlit("");
    }
    Report::Error(m)
}

/// Which sleeping buffers `:reloadall` drops so they are read afresh
/// when next shown: the file-backed ones without unsaved edits.
pub open spec fn drops_on_reload(e: (BufferRef, bool)) -> bool {
    e.0 is File && !e.1
}

/// Whether a sleeping buffer holds unsaved edits that `:reloadall` keeps.
pub open spec fn kept_dirty(e: (BufferRef, bool)) -> bool {
    e.0 is File && e.1
}

/// How many of `s` satisfy `p`.
pub open spec fn count_where(s: Seq<(BufferRef, bool)>, p: spec_fn((BufferRef, bool)) -> bool) -> nat
    decreases s.len(),
{
    if s.len() == 0 {
        0
    } else {
        count_where(s.drop_last(), p) + if p(s.last()) { 1nat } else { 0nat }
    }
}

/// Split the sleeping buffers (each with its dirty flag) for
/// `:reloadall`: the positions of those to drop, and how many dirty ones
/// are kept.
pub fn partition_sleeping(sleeping: &[(BufferRef, bool)]) -> (r: (Vec<usize>, usize))
    ensures
        r.0@.len() == count_where(sleeping@, |e: (BufferRef, bool)| drops_on_reload(e)),
        forall|k: int| 0 <= k < r.0@.len() ==> #[trigger] r.0@[k] < sleeping@.len() && drops_on_reload(sleeping@[r.0@[k] as int]),
        forall|k: int, l: int| 0 <= k < l < r.0@.len() ==> r.0@[k] < r.0@[l],
        r.1 == count_where(sleeping@, |e: (BufferRef, bool)| kept_dirty(e)),
{
    let ghost all = sleeping@;
    let ghost pd = |e: (BufferRef, bool)| drops_on_reload(e);
    let ghost pk = |e: (BufferRef, bool)| kept_dirty(e);
    let mut drop: Vec<usize> = Vec::new();
    let mut kept: usize = 0;
    let mut i: usize = 0;
    while i < sleeping.len()
        invariant
            i <= all.len(),
            all == sleeping@,
            pd == (|e: (BufferRef, bool)| drops_on_reload(e)),
            pk == (|e: (BufferRef, bool)| kept_dirty(e)),
            drop@.len() == count_where(all.take(i as int), pd),
            forall|k: int| 0 <= k < drop@.len() ==> #[trigger] drop@[k] < i && drops_on_reload(all[drop@[k] as int]),
            forall|k: int, l: int| 0 <= k < l < drop@.len() ==> drop@[k] < drop@[l],
            kept == count_where(all.take(i as int), pk),
            kept <= i,
        decreases all.len() - i,
    {
        assert(all.take(i + 1).drop_last() =~= all.take(i as int));
        assert(all.take(i + 1).last() == all[i as int]);
        let is_file = match &sleeping[i].0 {
            BufferRef::File(_) => true,
            BufferRef::Scratch(_) => false,
        };
        assert(is_file == (all[i as int].0 is File));
        if is_file && !sleeping[i].1 {
            let ghost before = drop@;
            drop.push(i);
            assert(drops_on_reload(all[i as int]));
            assert forall|k: int| 0 <= k < drop@.len() implies #[trigger] drop@[k] < i + 1 && drops_on_reload(
                all[drop@[k] as int],
            ) by {
                if k < before.len() {
                    assert(drop@[k] == before[k]);
                }
            }
            assert forall|k: int, l: int| 0 <= k < l < drop@.len() implies drop@[k] < drop@[l] by {
                if l < before.len() {
                    assert(drop@[k] == before[k] && drop@[l] == before[l]);
                } else {
                    assert(drop@[k] == before[k]);
                }
            }
        }
        if is_file && sleeping[i].1 {
            kept = kept + 1;
        }
        i = i + 1;
    }
    assert(all.take(all.len() as int) =~= all);
    (drop, kept)
}

/// The error line of a buffer that failed to reload: its path (or
/// scratch label), then the cause.
pub open spec fn reload_error_text(doc: RefView, cause: Seq<char>) -> Seq<char> {
    let label = match doc {
        RefView::File(p) => p,
        RefView::Scratch(id) => scratch_text(id),
    };
    label + ": "@ + cause
}

/// Describe a failed reload of `doc`.
pub fn reload_error(doc: &BufferRef, cause: &str) -> (r: String)
    ensures
        r@ == reload_error_text(doc@, cause@),
{
    let mut s = match doc {
        BufferRef::File(p) => p.clone(),
        BufferRef::Scratch(id) => BufferRef::scratch_label(*id),
    };
    push_str(&mut s, ": ");
    push_str(&mut s, cause);
    s
}

} // verus!
