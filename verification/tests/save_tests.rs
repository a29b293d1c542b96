use vorto::document::FileMeta;
use vorto::save::{plan_write, save_target, written_message, WritePlan};

#[test]
fn target_prefers_the_argument() {
    assert_eq!(save_target(Some("/w/new.rs"), Some("/w/a.rs")), Ok("/w/new.rs".to_string()));
    assert_eq!(save_target(None, Some("/w/a.rs")), Ok("/w/a.rs".to_string()));
    assert_eq!(save_target(None, None), Err("no file name (use :w <path>)".to_string()));
}

#[test]
fn external_edit_refuses_in_place_save() {
    let read = Some(FileMeta { len: 10, mtime_ns: 1 });
    let now = Some(FileMeta { len: 12, mtime_ns: 2 });
    assert_eq!(
        plan_write(true, false, read, now, None),
        WritePlan::Refuse("file changed on disk since open (use :w! or :reload)".to_string())
    );
    assert_eq!(
        plan_write(true, false, read, None, None),
        WritePlan::Refuse("file no longer on disk (use :w! to recreate)".to_string())
    );
    assert_eq!(plan_write(true, false, read, read, None), WritePlan::Write);
    // `:w!` and save-as skip the guard; a buffer never read has no baseline.
    assert_eq!(plan_write(true, true, read, now, None), WritePlan::Write);
    assert_eq!(plan_write(false, false, read, now, None), WritePlan::Write);
    assert_eq!(plan_write(true, false, None, None, None), WritePlan::Write);
}

#[test]
fn missing_directory_needs_force() {
    assert_eq!(
        plan_write(false, false, None, None, Some("/w/new")),
        WritePlan::Refuse("no such directory: /w/new (use :w!)".to_string())
    );
    assert_eq!(plan_write(false, true, None, None, Some("/w/new")), WritePlan::CreateParentThenWrite);
}

#[test]
fn written_messages() {
    assert_eq!(written_message(None), "written");
    assert_eq!(written_message(Some("/w/b.rs")), "written to /w/b.rs");
}
