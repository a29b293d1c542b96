use vorto::buffer_ref::BufferRef;
use vorto::reload::{partition_sleeping, reload_all_report, reload_error, Report};

fn errs(v: &[&str]) -> Vec<String> {
    v.iter().map(|s| s.to_string()).collect()
}

#[test]
fn report_lists_non_zero_counts() {
    assert_eq!(reload_all_report(2, 1, 3, &vec![]), Report::Info("reloaded 2, 1 unchanged, 3 dirty kept".to_string()));
    assert_eq!(reload_all_report(0, 4, 0, &vec![]), Report::Info("4 unchanged".to_string()));
}

#[test]
fn report_without_file_buffers() {
    assert_eq!(reload_all_report(0, 0, 0, &vec![]), Report::Info("no file-backed buffers".to_string()));
}

#[test]
fn report_with_errors_is_an_error() {
    assert_eq!(
        reload_all_report(1, 0, 0, &errs(&["active: gone", "/w/b.rs: denied"])),
        Report::Error("reloaded 1; errors: active: gone; /w/b.rs: denied".to_string())
    );
    assert_eq!(
        reload_all_report(0, 0, 0, &errs(&["active: gone"])),
        Report::Error("reload-all failed; errors: active: gone".to_string())
    );
}

#[test]
fn sleeping_clean_files_are_dropped_dirty_ones_kept() {
    let sleeping = vec![
        (BufferRef::File("/w/a.rs".to_string()), false),
        (BufferRef::Scratch(1), false),
        (BufferRef::File("/w/b.rs".to_string()), true),
        (BufferRef::File("/w/c.rs".to_string()), false),
        (BufferRef::Scratch(2), true),
    ];
    let (drop, kept) = partition_sleeping(&sleeping);
    assert_eq!(drop, vec![0, 3]);
    assert_eq!(kept, 1);
}

#[test]
fn reload_error_names_the_buffer() {
    assert_eq!(reload_error(&BufferRef::File("/w/a.rs".to_string()), "not found"), "/w/a.rs: not found");
    assert_eq!(reload_error(&BufferRef::Scratch(0), "x"), "[scratch]: x");
}
