//! The decisions of `:w` / `:w <path>` / `:w!`: which file to write,
//! whether an external edit or a missing directory stops the write, and
//! what to report. Looking at the disk and writing are the caller's
//! business; it hands in what it saw.

use vstd::prelude::*;

use crate::document::FileMeta;
use crate::text::push_str;

verus! {

/// Where a save writes: the `:w <path>` argument, else the buffer's own
/// path; without either the save is refused.
pub fn save_target(path: Option<&str>, buffer_path: Option<&str>) -> (r: Result<String, String>)
    ensures
        match path {
            Some(p) => r matches Ok(t) && t@ == p@,
            None => match buffer_path {
                Some(b) => r matches Ok(t) && t@ == b@,
                None => r matches Err(m) && m@ == "no file name (use :w <path>)"@,
            },
        },
{
    match path {
        Some(p) => Ok(p.to_string()),
        None => match buffer_path {
            Some(b) => Ok(b.to_string()),
            None => Err("no file name (use :w <path>)".to_string()),
        },
    }
}

/// What to do once the target is known.
#[derive(Debug, PartialEq, Eq)]
pub enum WritePlan {
    /// Do not write; show this error.
    Refuse(String),
    /// Create the missing directory, then write.
    CreateParentThenWrite,
    Write,
}

/// The error of an in-place save refused because the file changed (or
/// vanished) since it was read.
pub open spec fn external_edit(in_place: bool, force: bool, expected: Option<FileMeta>, actual: Option<FileMeta>) -> Option<Seq<char>> {
    if in_place && !force && expected is Some {
        match actual {
            None => Some("file no longer on disk (use :w! to recreate)"@),
            Some(a) => if a != expected->0 {
                Some("file changed on disk since open (use :w! or :reload)"@)
            } else {
                None
            },
        }
    } else {
        None
    }
}

/// Decide whether to write: an in-place save without `!` is refused when
/// the file on disk (`actual`, `None` when it is gone) no longer matches
/// what was read (`expected`); a missing parent directory (given by its
/// displayed path) refuses the save without `!` and is created with it.
pub fn plan_write(
    in_place: bool,
    force: bool,
    expected: Option<FileMeta>,
    actual: Option<FileMeta>,
    missing_parent: Option<&str>,
) -> (r: WritePlan)
    ensures
        match external_edit(in_place, force, expected, actual) {
            Some(m) => r matches WritePlan::Refuse(e) && e@ == m,
            None => match missing_parent {
                None => r == WritePlan::Write,
                Some(p) => if force {
                    r == WritePlan::CreateParentThenWrite
                } else {
                    r matches WritePlan::Refuse(e) && e@ == "no such directory: "@ + p@ + " (use :w!)"@
                },
            },
        },
{
    if in_place && !force {
        if let Some(exp) = expected {
            match actual {
                None => return WritePlan::Refuse("file no longer on disk (use :w! to recreate)".to_string()),
                Some(a) => {
                    if a != exp {
                        return WritePlan::Refuse("file changed on disk since open (use :w! or :reload)".to_string());
                    }
                },
            }
        }
    }
    match missing_parent {
        None => WritePlan::Write,
        Some(p) => {
            if force {
                WritePlan::CreateParentThenWrite
            } else {
                let mut m = "no such directory: ".to_string();
                push_str(&mut m, p);
                push_str(&mut m, " (use :w!)");
                proof {
                    reveal_strlit("no such directory: ");
                }
                WritePlan::Refuse(m)
            }
        },
    }
}

/// The status after a successful write: `written`, or `written to <path>`
/// for a save to another file.
pub fn written_message(save_as: Option<&str>) -> (r: String)
    ensures
        match save_as {
            None => r@ == "written"@,
            Some(t) => r@ == "written to "@ + t@,
        },
{
    match save_as {
        None => "written".to_string(),
        Some(t) => {
            let mut m = "written to ".to_string();
            push_str(&mut m, t);
            proof {
                reveal_strlit("written to ");
            }
            m
        },
    }
}

} // verus!
