use vorto::copilot::{strip_already_typed, CopilotAuthState, CopilotPending, CopilotRequestKind, InlineCompletionRaw, ReplaceRange};
use vorto::cursor::Cursor;

fn cur(row: usize, col: usize) -> Cursor {
    Cursor { row, col }
}

fn raw(text: &str, range: Option<ReplaceRange>) -> InlineCompletionRaw {
    InlineCompletionRaw { text: text.to_string(), range }
}

#[test]
fn strip_returns_text_verbatim_when_no_range() {
    let r = raw("hello", None);
    let lines = vec!["abc".to_string()];
    assert_eq!(strip_already_typed(&r, cur(0, 3), &lines).as_deref(), Some("hello"));
}

#[test]
fn strip_removes_already_typed_prefix() {
    let r = raw(
        "fn hello() {}",
        Some(ReplaceRange { start_line: 0, start_character: 0, end_line: 0, end_character: 8 }),
    );
    let lines = vec!["fn hello".to_string()];
    assert_eq!(strip_already_typed(&r, cur(0, 8), &lines).as_deref(), Some("() {}"));
}

#[test]
fn strip_returns_none_when_buffer_diverges_from_insert_text() {
    let r = raw(
        "let x = 1;",
        Some(ReplaceRange { start_line: 0, start_character: 0, end_line: 0, end_character: 5 }),
    );
    let lines = vec!["const".to_string()];
    assert!(strip_already_typed(&r, cur(0, 5), &lines).is_none());
}

#[test]
fn strip_falls_back_to_verbatim_for_multi_line_ranges() {
    let r = raw(
        "foo",
        Some(ReplaceRange { start_line: 0, start_character: 0, end_line: 1, end_character: 0 }),
    );
    let lines = vec!["x".to_string(), "y".to_string()];
    assert_eq!(strip_already_typed(&r, cur(1, 0), &lines).as_deref(), Some("foo"));
}

#[test]
fn strip_falls_back_when_range_end_isnt_at_anchor() {
    let r = raw(
        "abcdef",
        Some(ReplaceRange { start_line: 0, start_character: 0, end_line: 0, end_character: 3 }),
    );
    let lines = vec!["xyz".to_string()];
    assert_eq!(strip_already_typed(&r, cur(0, 5), &lines).as_deref(), Some("abcdef"));
}

#[test]
fn strip_handles_empty_prefix() {
    let r = raw(
        "hello",
        Some(ReplaceRange { start_line: 0, start_character: 5, end_line: 0, end_character: 5 }),
    );
    let lines = vec!["abcde".to_string()];
    assert_eq!(strip_already_typed(&r, cur(0, 5), &lines).as_deref(), Some("hello"));
}

#[test]
fn strip_returns_none_when_anchor_row_is_missing() {
    let r = raw(
        "abc",
        Some(ReplaceRange { start_line: 4, start_character: 0, end_line: 4, end_character: 1 }),
    );
    let lines = vec!["a".to_string()];
    assert!(strip_already_typed(&r, cur(4, 1), &lines).is_none());
}

#[test]
fn strip_clips_the_range_to_the_line() {
    // The line is shorter than the range: only what the line shows is cut.
    let r = raw(
        "abXYZ",
        Some(ReplaceRange { start_line: 0, start_character: 0, end_line: 0, end_character: 4 }),
    );
    let lines = vec!["ab".to_string()];
    assert_eq!(strip_already_typed(&r, cur(0, 4), &lines).as_deref(), Some("XYZ"));
}

#[test]
fn pending_take_returns_what_insert_recorded_once() {
    let mut p = CopilotPending::default();
    p.insert(7, CopilotRequestKind::CheckStatus);
    p.insert(9, CopilotRequestKind::InlineCompletion);
    assert_eq!(p.take(7), Some(CopilotRequestKind::CheckStatus));
    assert_eq!(p.take(7), None);
    assert_eq!(p.take(9), Some(CopilotRequestKind::InlineCompletion));
    assert_eq!(p.take(1), None);
}

#[test]
fn only_signed_in_allows_completions() {
    assert!(!CopilotAuthState::default().signed_in());
    assert!(CopilotAuthState::SignedIn { user: Some("me".into()) }.signed_in());
    assert!(!CopilotAuthState::NotSignedIn.signed_in());
    assert!(!CopilotAuthState::NotAuthorized { reason: None }.signed_in());
}

use vorto::copilot::{auth_after_check_status, auth_after_sign_in_confirm, copilot_status_text, inline_completion_outcome, sign_in_confirm_report, sign_out_report, wants_inline_suggestion, CheckStatus, InlineOutcome};
use vorto::reload::Report;

#[test]
fn check_status_replies_set_the_auth_state() {
    assert!(matches!(
        auth_after_check_status(Some(CheckStatus::SignedIn { user: Some("me".into()) }), None),
        CopilotAuthState::SignedIn { user: Some(ref u) } if u == "me"
    ));
    assert!(matches!(auth_after_check_status(Some(CheckStatus::NotSignedIn), None), CopilotAuthState::NotSignedIn));
    assert!(matches!(auth_after_check_status(Some(CheckStatus::Other("odd".into())), None), CopilotAuthState::Unknown));
    assert!(matches!(auth_after_check_status(None, None), CopilotAuthState::Unknown));
    assert!(matches!(
        auth_after_check_status(Some(CheckStatus::NotSignedIn), Some("boom".into())),
        CopilotAuthState::Unknown
    ));
}

#[test]
fn sign_in_confirm_keeps_the_state_unless_it_settles() {
    let now = CopilotAuthState::NotSignedIn;
    assert!(matches!(auth_after_sign_in_confirm(now, Some(CheckStatus::NotSignedIn), None), CopilotAuthState::NotSignedIn));
    assert!(matches!(
        auth_after_sign_in_confirm(CopilotAuthState::Unknown, Some(CheckStatus::NotAuthorized { reason: None }), None),
        CopilotAuthState::NotAuthorized { reason: None }
    ));
    assert!(matches!(
        auth_after_sign_in_confirm(CopilotAuthState::Unknown, Some(CheckStatus::SignedIn { user: None }), Some("e".into())),
        CopilotAuthState::Unknown
    ));
}

#[test]
fn inline_replies_show_dismiss_or_are_ignored() {
    let lines = vec!["fn hel".to_string()];
    let anchor = cur(0, 6);
    let r = raw("hello()", Some(ReplaceRange { start_line: 0, start_character: 3, end_line: 0, end_character: 6 }));
    match inline_completion_outcome(Some((4, anchor)), 4, anchor, Some(&r), false, &lines) {
        InlineOutcome::Show(s) => assert_eq!(s, "lo()"),
        other => panic!("expected show, got {:?}", other),
    }
    // Another request is pending: stale.
    assert!(matches!(inline_completion_outcome(Some((5, anchor)), 4, anchor, Some(&r), false, &lines), InlineOutcome::Keep));
    // The cursor moved: stale.
    assert!(matches!(inline_completion_outcome(Some((4, anchor)), 4, cur(0, 2), Some(&r), false, &lines), InlineOutcome::Keep));
    // An error dismisses the request it answers only.
    assert!(matches!(inline_completion_outcome(Some((4, anchor)), 4, anchor, None, true, &lines), InlineOutcome::Dismiss));
    assert!(matches!(inline_completion_outcome(Some((5, anchor)), 4, anchor, None, true, &lines), InlineOutcome::Keep));
    // Nothing left after the typed prefix.
    let done = raw("hel", Some(ReplaceRange { start_line: 0, start_character: 3, end_line: 0, end_character: 6 }));
    assert!(matches!(inline_completion_outcome(Some((4, anchor)), 4, anchor, Some(&done), false, &lines), InlineOutcome::Dismiss));
}

#[test]
fn inline_suggestion_only_at_end_of_row() {
    let ls = vec!["fn main".to_string(), "".to_string()];
    assert!(wants_inline_suggestion(true, true, &ls, Cursor { row: 0, col: 7 }));
    assert!(!wants_inline_suggestion(true, true, &ls, Cursor { row: 0, col: 3 }));
    assert!(wants_inline_suggestion(true, true, &ls, Cursor { row: 1, col: 0 }));
    assert!(wants_inline_suggestion(true, true, &ls, Cursor { row: 5, col: 0 }));
    assert!(!wants_inline_suggestion(false, true, &ls, Cursor { row: 0, col: 7 }));
    assert!(!wants_inline_suggestion(true, false, &ls, Cursor { row: 0, col: 7 }));
}

fn report_text(r: Report) -> (bool, String) {
    match r {
        Report::Info(m) => (true, m),
        Report::Error(m) => (false, m),
    }
}

#[test]
fn copilot_status_messages() {
    assert_eq!(copilot_status_text(&CopilotAuthState::Unknown, false), "Copilot: not running (binary missing?)");
    assert_eq!(copilot_status_text(&CopilotAuthState::Unknown, true), "Copilot: checking status...");
    assert_eq!(
        copilot_status_text(&CopilotAuthState::SignedIn { user: Some("octo".to_string()) }, true),
        "Copilot: signed in as octo"
    );
    assert_eq!(copilot_status_text(&CopilotAuthState::SignedIn { user: None }, true), "Copilot: signed in as (unknown user)");
    assert_eq!(copilot_status_text(&CopilotAuthState::NotSignedIn, true), "Copilot: not signed in \u{2014} run :copilot signin");
    assert_eq!(
        copilot_status_text(&CopilotAuthState::NotAuthorized { reason: None }, true),
        "Copilot: not authorized (no entitlement)"
    );
}

#[test]
fn sign_in_confirm_messages() {
    assert_eq!(
        report_text(sign_in_confirm_report(&None, &Some("boom".to_string()))),
        (false, "Copilot signin: boom".to_string())
    );
    assert_eq!(
        report_text(sign_in_confirm_report(&Some(CheckStatus::SignedIn { user: Some("me".to_string()) }), &None)),
        (true, "Copilot: signed in as me".to_string())
    );
    assert_eq!(
        report_text(sign_in_confirm_report(&Some(CheckStatus::NotSignedIn), &None)),
        (false, "Copilot signin: not completed (timed out or rejected)".to_string())
    );
    assert_eq!(
        report_text(sign_in_confirm_report(&None, &None)),
        (false, "Copilot signin: not completed (timed out or rejected)".to_string())
    );
    assert_eq!(
        report_text(sign_in_confirm_report(&Some(CheckStatus::NotAuthorized { reason: Some("plan".to_string()) }), &None)),
        (false, "Copilot signin: not authorized (plan)".to_string())
    );
    assert_eq!(
        report_text(sign_in_confirm_report(&Some(CheckStatus::Other("Weird".to_string())), &None)),
        (false, "Copilot signin: Weird".to_string())
    );
}

#[test]
fn sign_out_messages() {
    assert_eq!(report_text(sign_out_report(&None)), (true, "Copilot: signed out".to_string()));
    assert_eq!(report_text(sign_out_report(&Some("x".to_string()))), (false, "Copilot signout: x".to_string()));
}
